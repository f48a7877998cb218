//! Landing a branch by hand: the command line, the draft, and the checkout it reads.
use onepipeline::event::{Envelope, EventKind, Labels, Source, ENVELOPE_VERSION};
use onepipeline::json::Json;
use onepipeline::land::{
    advertised, base, could_not_start, cut, death, deaths_told, dir_left, drafted_for, git_in, heads,
    land, only_tracked, split, split_by, taken, valued_options, worktree_left, Arg, Drafting,
    Landing, Leftover, Made, Policy, Ran, Scratch, Search, Split, Taken, Verb, Wanted,
    SCRATCH_TRIES,
};
use onepipeline::lifecycle::{Drafted, Undrafted};

fn of(value: &serde_json::Value) -> Json {
    match value {
        serde_json::Value::Null => Json::Null,
        serde_json::Value::Bool(value) => Json::Bool(*value),
        serde_json::Value::Number(number) => {
            if let Some(count) = number.as_u64() {
                Json::Count(count)
            } else if let Some(debt) = number.as_i64() {
                Json::Debt(debt)
            } else {
                Json::Number(number.to_string())
            }
        }
        serde_json::Value::String(text) => Json::Text(text.clone()),
        serde_json::Value::Array(list) => Json::List(list.iter().map(of).collect()),
        serde_json::Value::Object(fields) => Json::Object(
            fields
                .iter()
                .map(|(key, value)| (key.clone(), of(value)))
                .collect(),
        ),
    }
}

fn words(args: &[&str]) -> Vec<Arg> {
    args.iter().map(|arg| Arg::Text((*arg).to_string())).collect()
}

#[test]
fn only_this_crates_two_flags_are_taken_out_and_the_rest_keep_their_order() {
    let taken = split(
        Verb::PublishBranch,
        &words(&[
            "feature",
            "--title",
            "--no-draft",
            "--repo=service",
            "--no-draft",
            "--policy",
            "change-open",
            "--pr-author-graph",
            "graphs/pr-author.yaml",
        ]),
    )
    .expect("the line splits");
    assert_eq!(
        taken,
        Split {
            forwarded: words(&[
                "feature",
                "--title",
                "--no-draft",
                "--repo=service",
                "--policy",
                "change-open"
            ]),
            graph: Some(Arg::Text("graphs/pr-author.yaml".into())),
            drafting: Drafting::Declined,
        }
    );
    // After `--` nothing is this crate's.
    let after = split(
        Verb::Recover,
        &words(&["--pr-author-graph=g.yaml", "--", "--no-draft"]),
    )
    .expect("the line splits");
    assert_eq!(after.forwarded, words(&["--", "--no-draft"]));
    assert_eq!(after.graph, Some(Arg::Text("g.yaml".into())));
    assert_eq!(after.drafting, Drafting::WhereWanted);
    assert!(split(Verb::Recover, &words(&["b", "--pr-author-graph"])).is_err());
    assert_eq!(
        land(Verb::Recover, after),
        words(&["onevcs", "recover", "--", "--no-draft"])
    );
}

#[test]
fn the_valued_options_are_read_off_the_siblings_own_parser() {
    let valued = valued_options(Verb::PublishBranch);
    for option in ["--repo", "--title", "--policy", "--body", "--body-file"] {
        assert!(
            valued.iter().any(|known| known == option),
            "{option}: {valued:?}"
        );
    }
    let valued = valued_options(Verb::Recover);
    assert!(
        !valued.iter().any(|known| known == "--policy"),
        "{valued:?}"
    );
}

#[test]
fn an_option_told_to_take_a_value_carries_it_unread_and_what_is_not_text_is_forwarded() {
    let valued = vec!["--title".to_string()];
    let split = split_by(
        &valued,
        &vec![
            Arg::Text("--title".into()),
            Arg::Text("--pr-author-graph".into()),
            Arg::Raw(vec![0xff]),
            Arg::Text("--title=--no-draft".into()),
        ],
    )
    .expect("the line splits");
    assert_eq!(split.forwarded.len(), 4);
    assert_eq!(split.graph, None);
    assert_eq!(split.drafting, Drafting::WhereWanted);
}

fn envelope(died: oneagentgraph::event::MemberDied) -> Envelope {
    let payload = match of(&serde_json::to_value(died).expect("a death serialises")) {
        Json::Object(fields) => fields,
        other => panic!("a death is an object: {other:?}"),
    };
    Envelope {
        v: ENVELOPE_VERSION,
        ts: "2026-01-01T00:00:00Z".into(),
        stream: "s".into(),
        seq: 1,
        source: Source::Agentgraph,
        kind: EventKind(
            oneagentgraph::event::EventKind::MemberDied
                .as_str()
                .to_owned(),
        ),
        labels: Labels {
            extra: vec![("member".into(), Json::Text("author".into()))],
            ..Labels::default()
        },
        payload,
        artifacts: Vec::new(),
    }
}

fn died(
    rule: oneagentgraph::member::Rule,
    cause: oneagentgraph::event::Cause,
    detail: &str,
    truncated: bool,
) -> oneagentgraph::event::MemberDied {
    oneagentgraph::event::MemberDied {
        rule: rule.as_str().to_owned(),
        cause,
        detail: detail.to_owned(),
        truncated,
        exit_code: None,
        disposition: None,
        stderr_tail: None,
        candidates: Vec::new(),
    }
}

#[test]
fn a_member_death_is_said_in_oneagentgraphs_own_classification() {
    assert_eq!(
        death(&envelope(died(
            oneagentgraph::member::Rule::Unstartable,
            oneagentgraph::event::Cause::Spawn,
            "no such file",
            false
        ))),
        Some("author died: rule=unstartable cause=spawn detail=no such file".to_owned())
    );
    assert_eq!(
        death(&envelope(died(
            oneagentgraph::member::Rule::ProviderFailure,
            oneagentgraph::event::Cause::Unclassified,
            "cut",
            true
        ))),
        Some(
            "author died: rule=provider-failure cause=unclassified detail=cut \
             (oneagentgraph truncated this detail)"
                .to_owned()
        )
    );
    let mut bare = envelope(died(
        oneagentgraph::member::Rule::Unstartable,
        oneagentgraph::event::Cause::Spawn,
        "",
        false,
    ));
    bare.payload.clear();
    assert_eq!(
        death(&bare),
        Some("author died, and oneagentgraph named no rule, cause or detail for it".to_owned())
    );
    // Any other envelope is no death.
    bare.source = Source::Vcs;
    assert_eq!(death(&bare), None);
    bare.source = Source::Agentgraph;
    bare.kind = EventKind("turn-started".into());
    assert_eq!(death(&bare), None);
}

#[test]
fn a_draft_is_wanted_only_where_a_change_request_has_no_body() {
    let landing = |brought, narrowed| {
        Some(Landing {
            branch: "feature".into(),
            brought,
            narrowed,
        })
    };
    let graph = Some(Arg::Text("g.yaml".into()));
    let wanted = |landing: &Option<Landing>, resolved, graph: &Option<Arg>, drafting| {
        drafted_for(Verb::PublishBranch, landing, resolved, graph, drafting)
    };
    let drafting = Drafting::WhereWanted;
    assert_eq!(
        wanted(&landing(false, None), Some(Policy::ChangeOpen), &graph, drafting),
        Ok(Wanted::Body("g.yaml".into()))
    );
    // An identity whose rules could not be read is drafted for.
    assert_eq!(
        wanted(&landing(false, None), None, &graph, drafting),
        Ok(Wanted::Body("g.yaml".into()))
    );
    for (landing, resolved, drafting) in [
        (landing(true, None), None, drafting),
        (landing(false, None), None, Drafting::Declined),
        (landing(false, None), Some(Policy::LocalDirect), drafting),
        (
            landing(false, Some(Policy::LocalDirect)),
            Some(Policy::ChangeOpen),
            drafting,
        ),
    ] {
        assert_eq!(wanted(&landing, resolved, &None, drafting), Ok(Wanted::Nothing));
    }
    let refused = wanted(&landing(false, None), None, &None, drafting)
        .unwrap_err()
        .message();
    assert!(refused.contains("no graph to draft it with was named"), "{refused}");
    let raw = wanted(&landing(false, None), None, &Some(Arg::Raw(vec![0x61, 0xff])), drafting)
        .unwrap_err()
        .message();
    assert!(raw.ends_with("not UTF-8: a\u{fffd}"), "{raw}");
    let other = wanted(&None, None, &None, drafting).unwrap_err().message();
    assert_eq!(other, "`onevcs publish-branch` parsed as a different command");
    assert!(!Policy::LocalDirect.opens_a_change_request());
}

#[test]
fn a_landing_takes_a_body_or_says_it_lands_with_none() {
    assert_eq!(
        taken(Drafted::Body("b".into()), "feature"),
        Taken::Body("b".into())
    );
    match taken(Drafted::Undrafted(Undrafted::Bodyless), "feature") {
        Taken::Notice(said) => assert!(
            said.starts_with("onepipeline: ")
                && said.ends_with("(no-body), so feature lands with no body"),
            "{said}"
        ),
        Taken::Body(body) => panic!("there was no body: {body}"),
    }
    let deaths = || vec!["author died".to_string()];
    assert_eq!(deaths_told(&could_not_start("x"), deaths()), deaths());
    assert!(deaths_told(&Drafted::Undrafted(Undrafted::Bodyless), deaths()).is_empty());
    assert_eq!(
        could_not_start("x"),
        Drafted::Undrafted(Undrafted::Dispatch(
            "the drafting dispatch could not start: x".into()
        ))
    );
}

#[test]
fn a_drafting_turn_removes_only_what_it_made_and_once() {
    let mut leftover = Leftover::new("/checkout");
    let nothing = leftover.remove();
    assert_eq!((nothing.worktree, nothing.dir), (None, None));
    leftover.dir = Some("/tmp/d".into());
    leftover.worktree = Some("/tmp/d/branch".into());
    let removal = leftover.remove();
    assert_eq!(removal.worktree.as_deref(), Some("/tmp/d/branch"));
    assert_eq!(removal.dir.as_deref(), Some("/tmp/d"));
    assert_eq!(leftover.remove().dir, None);
    assert!(worktree_left("/c", "/w", "why").contains("/w"));
    assert!(dir_left("/d", "denied").contains("could not be removed: denied"));
}

#[test]
fn a_drafting_turns_directory_is_its_own() {
    let mut scratch = Scratch::new("/tmp", 7);
    assert_eq!(scratch.name(3), "/tmp/onepipeline-draft-7-3");
    for minted in 0..u64::from(SCRATCH_TRIES) - 1 {
        let name = scratch.name(minted);
        assert_eq!(scratch.made(&name, &Made::Exists), Search::Again);
    }
    assert_eq!(
        scratch.made("/tmp/x", &Made::Exists),
        Search::Failed("no directory for the drafting turn could be created under /tmp".into())
    );
    let mut fresh = Scratch::new("/tmp", 7);
    assert_eq!(
        fresh.made("/tmp/x", &Made::Failed("denied".into())),
        Search::Failed("/tmp/x could not be created: denied".into())
    );
    assert_eq!(
        fresh.made("/tmp/y", &Made::Created),
        Search::Found("/tmp/y".into())
    );
}

#[test]
fn a_branch_is_cut_from_the_checkouts_own_or_its_origins() {
    assert_eq!(
        heads("f"),
        (
            "refs/heads/f".to_string(),
            "refs/remotes/origin/f".to_string()
        )
    );
    let made = cut("f", "/c", "/d", true, true, Some("origin/main".into())).expect("a cut");
    assert_eq!(made.head, "refs/heads/f");
    assert_eq!(made.range, "origin/main..refs/heads/f");
    assert_eq!(made.worktree, "/d/branch");
    let remote = cut("f", "/c", "/d", false, true, Some("origin/main".into())).expect("a cut");
    assert_eq!(remote.head, "refs/remotes/origin/f");
    assert!(cut("f", "/c", "/d", false, false, None)
        .unwrap_err()
        .contains("has no branch 'f'"));
    assert!(cut("f", "/c", "/d", true, false, None)
        .unwrap_err()
        .contains("is unknown"));
}

#[test]
fn the_base_is_what_the_checkout_records_then_what_its_origin_says() {
    assert_eq!(
        advertised("ref: refs/heads/main\tHEAD\n0123\tHEAD\n").as_deref(),
        Some("origin/main")
    );
    assert_eq!(advertised("0123\tHEAD\n"), None);
    assert_eq!(
        only_tracked("origin/HEAD\norigin/trunk\n").as_deref(),
        Some("origin/trunk")
    );
    assert_eq!(only_tracked("origin/a\norigin/b\n"), None);
    let own = || Some("origin/own".to_string());
    let said = || Some("origin/said".to_string());
    assert_eq!(base(own(), said(), true, None), own());
    assert_eq!(base(None, said(), true, Some("origin/x")), said());
    assert_eq!(
        base(None, said(), false, Some("origin/x")).as_deref(),
        Some("origin/x")
    );
    assert_eq!(base(None, None, false, None), None);
}

#[test]
fn a_git_answer_is_read_as_text_or_refused_by_name() {
    let args = vec!["log".to_string(), "-1".to_string()];
    let said = |ran| git_in("/c", &args, &ran);
    assert_eq!(said(Ran::Answered("  x\n".into())), Ok("x".to_string()));
    assert_eq!(
        said(Ran::Unrun("denied".into())),
        Err("`git log -1` in /c could not be run: denied".to_string())
    );
    assert_eq!(
        said(Ran::Failed {
            code: None,
            stderr: b"bad\xff".to_vec()
        }),
        Err("`git log -1` in /c exited -1: bad\u{fffd}".to_string())
    );
    assert!(said(Ran::Garbled("byte 3".into()))
        .unwrap_err()
        .contains("not UTF-8: byte 3"));
}
