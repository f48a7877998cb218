//! A lifecycle node: its steps, its attempts, its publication and its retries.
use std::collections::BTreeSet;

use onepipeline::event::{
    Envelope, EventKind, Labels, PipelineKind, Source, ENVELOPE_VERSION,
};
use onepipeline::graph::NodeStatus;
use onepipeline::json::{render, Json};
use onepipeline::lifecycle::{
    beyond, body_and_ending, compose, dispatch_ended, dispatch_refused, draft_plan, drafted,
    failure_of, first_line, ordered_steps, out_of_band_drafting_task, publish, redispatched_payload, reported,
    settled_without_a_dispatch, stamp, undrafted_payload, Attempt, DraftPlan, Drafted, Drafting,
    Evidence, FailureKind, Launch, Next, Preserved, Preserving, Publication, Report, Retries, Retry,
    Settlement, Undrafted, Watermarks, Workspace, Workstream, DRAFTING_TASK, NO_WORKTREE,
};
use onepipeline::plan::{Node, NodeKind, Step};
use onepipeline::steps::dispatchable_steps;

fn step(id: &str, deps: &[&str]) -> Step {
    Step {
        id: id.into(),
        persona: Some("engineer".into()),
        task: Some("## What\ndo it".into()),
        deps: deps.iter().map(|d| (*d).to_string()).collect(),
        ..Step::default()
    }
}

fn lifecycle(steps: Option<Vec<Step>>) -> Node {
    Node {
        id: "service".into(),
        repo: Some("owner/repo".into()),
        persona: steps.is_none().then_some("engineer".into()),
        task: steps.is_none().then_some("## What\nship".into()),
        steps,
        ..Node::default()
    }
}

fn launch() -> Launch {
    Launch {
        node_graph: "graphs/node-scope.yaml".into(),
        pr_author_graph: None,
        vcs_filter: None,
    }
}

#[test]
fn the_endings_of_a_drafting_dispatch_are_named_apart() {
    let endings = [
        Undrafted::Dispatch(String::new()),
        Undrafted::SchemaRefused,
        Undrafted::Bodyless,
    ];
    let words: BTreeSet<&str> = endings.iter().map(Undrafted::ending).collect();
    assert_eq!(words.len(), endings.len());
    let why: BTreeSet<String> = endings.iter().map(Undrafted::why).collect();
    assert_eq!(why.len(), endings.len(), "two endings say the same thing");
}

#[test]
fn a_step_whose_budget_no_dispatch_can_run_under_stops_the_workstream() {
    let node = Node {
        id: "service".into(),
        repo: Some("owner/service".into()),
        steps: Some(vec![
            Step {
                max_turns: Some(45),
                ..step("implement", &[])
            },
            Step {
                max_turns: Some(0),
                ..step("review", &["implement"])
            },
        ]),
        ..Node::default()
    };
    let why =
        dispatchable_steps(&node).expect_err("a step that can take no turn is not dispatchable");
    assert!(why.contains("node 'service': step 'review':"), "{why}");
    assert!(why.contains("no turn at all"), "{why}");

    // And the workstream itself stops there, before anything is dispatched.
    let settlement = match Workstream::begin(&node) {
        Err(settlement) => settlement,
        Ok(_) => panic!("a workstream that could not dispatch a step opened a session anyway"),
    };
    assert_eq!(settlement.status, NodeStatus::Failed);
    assert_eq!(settlement.outcome.as_deref(), Some("invalid-node"));
    let detail = settlement.detail.expect("the settlement says why");
    assert!(detail.contains("step 'review'"), "{detail}");
    assert!(detail.contains("no turn at all"), "{detail}");

    // The step that *can* run keeps the budget it declared, narrowed.
    let node = Node {
        steps: Some(vec![Step {
            max_turns: Some(45),
            ..step("implement", &[])
        }]),
        ..node
    };
    let dispatchable = dispatchable_steps(&node).expect("45 is a budget a step can run under");
    assert_eq!(
        dispatchable[0].1.max_turns,
        Some(45),
        "the step's own budget did not survive the conversion"
    );
}

#[test]
fn steps_run_serially_in_topological_order() {
    let node = lifecycle(Some(vec![
        step("publish", &["review"]),
        step("implement", &[]),
        step("review", &["implement"]),
    ]));
    let order: Vec<String> = ordered_steps(&node)
        .expect("the steps order")
        .into_iter()
        .map(|s| s.id)
        .collect();
    assert_eq!(order, vec!["implement", "review", "publish"]);
}

#[test]
fn ties_between_steps_go_to_the_one_written_first() {
    let order = |steps: Vec<Step>| -> Vec<String> {
        ordered_steps(&lifecycle(Some(steps)))
            .expect("the steps order")
            .into_iter()
            .map(|s| s.id)
            .collect()
    };
    // Once `b` is placed, `c` can be, and it is written before `d`.
    assert_eq!(
        order(vec![step("c", &["b"]), step("a", &[]), step("b", &["a"]), step("d", &[])]),
        ["a", "b", "c", "d"]
    );
    assert_eq!(
        order(vec![step("z", &[]), step("y", &[]), step("x", &["y"])]),
        ["z", "y", "x"]
    );
}

#[test]
fn steps_with_a_cycle_are_reported_rather_than_run_in_some_order() {
    let node = lifecycle(Some(vec![step("a", &["b"]), step("b", &["a"])]));
    let message = ordered_steps(&node).unwrap_err();
    assert!(message.contains("dependency cycle"), "{message}");
}

#[test]
fn a_lifecycle_node_with_no_steps_is_one_implicit_step() {
    let node = lifecycle(None);
    let steps = ordered_steps(&node).expect("one implicit step");
    assert_eq!(steps.len(), 1);
    assert_eq!(steps[0].id, "service");
    assert_eq!(steps[0].persona.as_deref(), Some("engineer"));
}

#[test]
fn a_publication_reads_how_its_drafting_ended() {
    assert_eq!(body_and_ending(None), (None, None));
    assert_eq!(
        body_and_ending(Some(Drafted::Body("# Why".into()))),
        (Some("# Why".to_string()), None)
    );
    assert_eq!(
        body_and_ending(Some(Drafted::Undrafted(Undrafted::Bodyless))),
        (None, Some(Undrafted::Bodyless))
    );
    assert_eq!(
        settled_without_a_dispatch(DraftPlan::Written("mine".into())),
        Some(Drafted::Body("mine".into()))
    );
    assert_eq!(settled_without_a_dispatch(DraftPlan::Undrafted), None);
    assert_eq!(
        settled_without_a_dispatch(DraftPlan::Nowhere),
        Some(Drafted::Undrafted(Undrafted::Dispatch(NO_WORKTREE.into())))
    );
}

#[test]
fn a_body_that_was_not_drafted_and_a_dispatch_made_again_are_recorded() {
    assert_eq!(PipelineKind::BodyNotDrafted.as_str(), "body-not-drafted");
    let ending = Undrafted::Dispatch("it ran out".into());
    assert_eq!(
        render(&Json::Object(undrafted_payload(&ending))),
        "{\"ending\":\"dispatch-failed\",\"reason\":\"the change request's body was not \
         drafted: it ran out\"}"
    );
    assert_eq!(
        render(&Json::Object(redispatched_payload(2, 3, "checks-failed: red"))),
        r#"{"attempt":2,"attempts":3,"reason":"checks-failed: red"}"#
    );
}

#[test]
fn a_drafting_members_answer_is_read_as_a_report() {
    let answer = |fields: Vec<(&str, Json)>| {
        vec![(
            "answer".to_string(),
            Json::Object(
                fields
                    .into_iter()
                    .map(|(name, value)| (name.to_string(), value))
                    .collect(),
            ),
        )]
    };
    assert_eq!(
        reported(&answer(vec![("body", Json::Text("# Why".into()))])),
        Some(Report::Body("# Why".into()))
    );
    assert_eq!(
        reported(&answer(vec![("schema_refused", Json::Bool(true))])),
        Some(Report::SchemaRefused)
    );
    assert_eq!(reported(&answer(vec![("schema_refused", Json::Bool(false))])), None);
    assert_eq!(reported(&answer(vec![("body", Json::Count(1))])), None);
    assert_eq!(reported(&Vec::new()), None);
}

#[test]
fn a_steps_dispatch_settles_on_how_it_ended() {
    let node = "service".to_string();
    let done = dispatch_ended(&node, true, "anything");
    assert_eq!((done.status, done.detail), (NodeStatus::Done, None));
    let failed = dispatch_ended(&node, false, "\n  it broke  \nbadly");
    assert_eq!(failed.status, NodeStatus::Failed);
    assert_eq!(failed.outcome, None);
    assert_eq!(failed.detail.as_deref(), Some("it broke"));
    let refused = dispatch_refused(&node, "no room".into());
    assert_eq!(refused.status, NodeStatus::Failed);
    assert_eq!(refused.outcome.as_deref(), Some("dispatch-failed"));
    assert_eq!(refused.detail.as_deref(), Some("no room"));
}

fn wrote(stream: &str, seq: u64) -> Envelope {
    Envelope {
        v: ENVELOPE_VERSION,
        ts: "2026-01-01T00:00:00.000Z".into(),
        stream: stream.to_owned(),
        seq,
        source: Source::Vcs,
        kind: EventKind("session-closed".into()),
        labels: Labels::default(),
        payload: Vec::new(),
        artifacts: Vec::new(),
    }
}

#[test]
fn relays_only_what_the_follow_did_not_counting_each_stream_on_its_own() {
    let session = || -> Vec<Envelope> { (1..=4).map(|seq| wrote("s-1", seq)).collect() };
    let numbers = |left: Vec<Envelope>| left.iter().map(|e| e.seq).collect::<Vec<_>>();

    // A follow that reached the third record leaves the tail and nothing
    // else: re-reading the whole stream would put the first three in twice.
    let mut reached = Watermarks::new();
    for envelope in &session()[..3] {
        reached.reached(envelope);
    }
    assert_eq!(numbers(beyond(session(), &reached)), vec![4]);

    // A follow that ended having relayed everything leaves nothing.
    reached.reached(&session()[3]);
    assert!(beyond(session(), &reached).is_empty());

    // A release the same read handed back is another stream's record, so a
    // mark four records into the session's says nothing about it.
    let released = || wrote("releases-0a1b2c3d4e5f", 2);
    assert_eq!(
        beyond(vec![released()], &reached)
            .iter()
            .map(|e| e.stream.clone())
            .collect::<Vec<_>>(),
        vec!["releases-0a1b2c3d4e5f".to_owned()],
        "a release was hidden by how far the session's own stream had got"
    );
    // And once it has been relayed, the session's tail is still relayable
    // from the mark it stands at rather than from that release's.
    reached.reached(&released());
    assert!(beyond(vec![released()], &reached).is_empty());
    assert_eq!(numbers(beyond(vec![wrote("s-1", 5)], &reached)), vec![5]);

    // And a follow that relayed nothing at all leaves the whole stream,
    // which is a stream still to read rather than a stream that held
    // nothing.
    assert_eq!(
        numbers(beyond(session(), &Watermarks::new())),
        vec![1, 2, 3, 4]
    );
}

#[test]
fn a_step_ordering_ignores_a_dependency_on_something_outside_the_node() {
    let node = lifecycle(Some(vec![step("only", &["elsewhere"])]));
    let steps = ordered_steps(&node).expect("an outside reference does not deadlock");
    assert_eq!(steps.len(), 1);
}

#[test]
fn a_workstream_works_in_one_worktree_and_publishes_what_it_opened() {
    let node = lifecycle(Some(vec![step("implement", &[]), step("review", &["implement"])]));
    let mut work = match Workstream::begin(&node) {
        Ok(work) => work,
        Err(settlement) => panic!("the node is attemptable: {settlement:?}"),
    };
    match work.next(&node, &launch()) {
        Next::Dispatch {
            step,
            workspace,
            graph,
            label,
        } => {
            assert_eq!(step, 0);
            assert_eq!(workspace, Workspace::Session(None));
            assert_eq!(graph, "graphs/node-scope.yaml");
            assert_eq!(label.as_deref(), Some("implement"));
        }
        _ => panic!("the first step is dispatched"),
    }
    assert_eq!(
        work.reported(Some("t-1".into()), Some("feat/x".into())),
        Some("t-1".to_string())
    );
    work.opened(Some(("/work/tree".into(), "main".into())), true);
    assert_eq!(
        work.settled(Settlement::plain(&node.id, NodeStatus::Done, None)),
        None
    );
    match work.next(&node, &launch()) {
        Next::Dispatch { workspace, .. } => {
            assert_eq!(workspace, Workspace::Worktree("/work/tree".into()));
        }
        _ => panic!("the second step is dispatched"),
    }
    // A stream already followed is not followed a second time.
    assert_eq!(work.reported(None, None), None);
    assert_eq!(
        work.settled(Settlement::plain(&node.id, NodeStatus::Done, None)),
        None
    );
    match work.next(&node, &launch()) {
        Next::Publish(token) => assert_eq!(token, "t-1"),
        _ => panic!("what was dispatched is published"),
    }
    assert_eq!(work.base.as_deref(), Some("main"));
}

#[test]
fn a_step_that_did_not_settle_ends_the_attempt_with_its_branch() {
    let node = lifecycle(Some(vec![step("implement", &[]), step("review", &["implement"])]));
    let mut work = Workstream::begin(&node).expect("the node is attemptable");
    let _ = work.next(&node, &launch());
    let _ = work.reported(Some("t-1".into()), Some("feat/x".into()));
    let end = work
        .settled(Settlement::plain(&node.id, NodeStatus::Failed, Some("timed-out")))
        .expect("a failed step settles the node");
    assert_eq!(end.branch.as_deref(), Some("feat/x"));
    assert_eq!(end.outcome.as_deref(), Some("timed-out"));
    assert!(end.completed_steps.is_empty());
}

#[test]
fn a_person_stops_a_workstream_and_steps_without_a_diff_are_passed_over() {
    let human = Node {
        branch: Some("feat/y".into()),
        ..lifecycle(Some(vec![Step {
            kind: NodeKind::Human,
            ..step("sign-off", &[])
        }]))
    };
    let mut work = Workstream::begin(&human).expect("the node is attemptable");
    match work.next(&human, &launch()) {
        Next::Wait(settlement) => {
            assert_eq!(settlement.status, NodeStatus::Waiting);
            assert_eq!(settlement.branch.as_deref(), Some("feat/y"));
        }
        _ => panic!("a ready human step needs a person"),
    }
    let nothing = lifecycle(Some(vec![Step {
        expects_no_diff: true,
        ..step("note", &[])
    }]));
    let mut work = Workstream::begin(&nothing).expect("the node is attemptable");
    match work.next(&nothing, &launch()) {
        Next::NoChanges(settlement) => {
            assert_eq!(settlement.outcome.as_deref(), Some("no-changes"));
        }
        _ => panic!("nothing was dispatched, so nothing is published"),
    }
    let unhoused = Node {
        repo: None,
        ..lifecycle(None)
    };
    assert!(Workstream::begin(&unhoused).is_err());
}

fn preserved() -> Preserved {
    Preserved {
        branch: "feat/x".into(),
        outcome: Preserving::ChecksFailed,
        reason: "two checks failed".into(),
        evidence: vec![Evidence {
            kind: "check-log".into(),
            id: "a1".into(),
        }],
        undrafted: None,
    }
}

#[test]
fn a_preserving_failure_is_attempted_again_until_the_budget_is_spent() {
    let node = lifecycle(None);
    let mut retries = Retries::new(2);
    let next = match retries.ended(&node, &preserved(), false) {
        Retry::Again { node, reason } => {
            assert_eq!(reason, "checks-failed: two checks failed");
            node
        }
        Retry::Stop(settlement) => panic!("the budget is not spent: {settlement:?}"),
    };
    assert_eq!(next.branch.as_deref(), Some("feat/x"));
    let context = next.context.clone().expect("the next attempt is told why");
    assert!(context.contains("This is attempt 2 of 2"), "{context}");
    assert!(context.contains("- check-log — a1\n"), "{context}");
    match retries.ended(&next, &preserved(), false) {
        Retry::Stop(settlement) => {
            assert_eq!(settlement.status, NodeStatus::Failed);
            assert_eq!(settlement.outcome.as_deref(), Some("checks-failed"));
            let detail = settlement.detail.expect("it says what happened");
            assert!(
                detail.contains(
                    "2 publication attempts on feat/x: 1 checks-failed, 2 checks-failed"
                ),
                "{detail}"
            );
        }
        Retry::Again { .. } => panic!("a spent budget was given another dispatch"),
    }

    // A cancelled run is not given another dispatch either.
    let mut cancelled = Retries::new(5);
    assert!(matches!(
        cancelled.ended(&node, &preserved(), true),
        Retry::Stop(_)
    ));
}

#[test]
fn only_a_failure_that_kept_its_branch_is_an_attempt_rather_than_an_answer() {
    let node = lifecycle(None);
    let failed = |kind, handed_back| Publication::Failed {
        kind,
        reason: "no".into(),
        handed_back,
        branch: "feat/z".into(),
        evidence: Vec::new(),
    };
    match publish(&node, None, &None, None, failed(FailureKind::ChecksFailed, true)) {
        Attempt::Preserving(preserved) => assert_eq!(preserved.branch, "feat/z"),
        Attempt::Settled(settlement) => panic!("the work is still there: {settlement:?}"),
    }
    for (kind, handed_back, word) in [
        (FailureKind::ChecksFailed, false, "checks-failed"),
        (FailureKind::Gate, true, "publication-failed"),
    ] {
        match publish(&node, None, &None, None, failed(kind, handed_back)) {
            Attempt::Settled(settlement) => {
                assert_eq!(settlement.outcome.as_deref(), Some(word));
                assert_eq!(settlement.detail.as_deref(), Some("onevcs: no"));
            }
            Attempt::Preserving(_) => panic!("nothing was kept to attempt again"),
        }
    }
    assert_eq!(failure_of(FailureKind::Cancelled), None);
}

#[test]
fn a_publication_settles_the_node_on_what_it_ended_as() {
    let node = lifecycle(None);
    let settle = |answer| match publish(
        &node,
        Some("feat/x".into()),
        &Some("main".into()),
        Some("no body".into()),
        answer,
    ) {
        Attempt::Settled(settlement) => settlement,
        Attempt::Preserving(_) => panic!("nothing failed"),
    };
    let nothing = settle(Publication::Nothing {
        branch: "feat/x".into(),
    });
    assert_eq!(nothing.outcome.as_deref(), Some("no-changes"));
    assert_eq!(
        nothing.detail,
        Some(compose(
            "compared against main: feat/x carries nothing it does not",
            &Some("no body".into())
        ))
    );
    let published = settle(Publication::Published {
        branch: "feat/x".into(),
        outcome: "merged".into(),
        change_url: Some("https://example.invalid/1".into()),
        landing: None,
    });
    assert_eq!(published.status, NodeStatus::Done);
    assert_eq!(published.outcome.as_deref(), Some("merged"));
    assert_eq!(published.detail.as_deref(), Some("no body"));
    let refused = settle(Publication::Refused("denied".into()));
    assert_eq!(refused.outcome.as_deref(), Some("publication-failed"));
}

#[test]
fn the_plans_own_body_spends_no_dispatch() {
    let graph = || Launch {
        pr_author_graph: Some("./author.yaml".into()),
        ..launch()
    };
    let written = Node {
        body: Some("the body".into()),
        ..lifecycle(None)
    };
    let tree = Some("/work/tree".to_string());
    assert!(matches!(
        draft_plan(&graph(), &written, "t", &tree),
        DraftPlan::Written(body) if body == "the body"
    ));
    assert!(matches!(
        draft_plan(&launch(), &lifecycle(None), "t", &tree),
        DraftPlan::Undrafted
    ));
    assert!(matches!(
        draft_plan(&graph(), &lifecycle(None), "t", &None),
        DraftPlan::Nowhere
    ));
    match draft_plan(&graph(), &lifecycle(None), "the node's own", &tree) {
        DraftPlan::Dispatch {
            graph,
            task,
            worktree,
        } => {
            assert_eq!(graph, "./author.yaml");
            assert_eq!(worktree, "/work/tree");
            assert!(task.ends_with("\n\nthe node's own"), "{task}");
        }
        _ => panic!("a drafting graph and a worktree are a dispatch"),
    }
}

#[test]
fn a_drafting_dispatch_is_a_body_or_why_there_is_none() {
    let why = |ending| match drafted(ending) {
        Drafted::Undrafted(undrafted) => undrafted.why(),
        Drafted::Body(body) => panic!("there is no body: {body}"),
    };
    assert_eq!(
        drafted(Drafting::Succeeded(Report::Body("b".into()))),
        Drafted::Body("b".into())
    );
    assert_eq!(
        drafted(Drafting::Succeeded(Report::SchemaRefused)),
        Drafted::Undrafted(Undrafted::SchemaRefused)
    );
    assert_eq!(
        drafted(Drafting::Succeeded(Report::Bodyless)),
        Drafted::Undrafted(Undrafted::Bodyless)
    );
    assert!(why(Drafting::Unstarted("x".into())).contains("could not start: x"));
    assert!(why(Drafting::Lost("y".into())).contains("could not be waited on: y"));
    assert!(why(Drafting::Failed("\n  z  \nw".into())).ends_with("without succeeding: z"));
    assert_eq!(first_line("\n \n"), "it reported nothing");
    assert_eq!(first_line("\n  said  \nmore"), "said");
}

#[test]
fn an_enricher_never_rewrites_what_a_producer_stamped() {
    let mut labels = Labels {
        node: Some("mine".into()),
        ..Labels::default()
    };
    let known = Labels {
        run_id: Some("demo".into()),
        node: Some("theirs".into()),
        persona: Some("engineer".into()),
        step: Some("s".into()),
        ..Labels::default()
    };
    stamp(&mut labels, &known);
    assert_eq!(labels.run_id.as_deref(), Some("demo"));
    assert_eq!(labels.node.as_deref(), Some("mine"));
    assert_eq!(labels.persona.as_deref(), Some("engineer"));
    assert_eq!(labels.step, None);
}

#[test]
fn a_step_on_the_branch_is_not_run_again_and_a_continuation_runs_every_step() {
    let node = Node {
        branch: Some("feat/x".into()),
        resume: Some(onepipeline::plan::Resume {
            completed_steps: vec!["implement".into()],
        }),
        ..lifecycle(Some(vec![step("implement", &[]), step("review", &["implement"])]))
    };
    let mut work = Workstream::begin(&node).expect("the node is attemptable");
    assert!(matches!(
        work.next(&node, &launch()),
        Next::Dispatch { step: 1, .. }
    ));

    let mut retries = Retries::new(3);
    let again = match retries.ended(&node, &preserved(), false) {
        Retry::Again { node, .. } => node,
        Retry::Stop(settlement) => panic!("the budget is not spent: {settlement:?}"),
    };
    assert_eq!(again.resume, None);
    let mut work = Workstream::begin(&again).expect("the node is attemptable");
    assert!(matches!(
        work.next(&again, &launch()),
        Next::Dispatch { step: 0, .. }
    ));
}

#[test]
fn a_drafting_turn_outside_a_run_is_told_the_branch_and_its_commits() {
    assert_eq!(
        out_of_band_drafting_task("fix", "origin/main", "commit a\n\none"),
        format!(
            "{DRAFTING_TASK}\n\nfix onto origin/main, by these commits, oldest first:\n\n\
             commit a\n\none"
        )
    );
}
