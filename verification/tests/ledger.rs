//! The run's ledger: its paths, its records, its lock and its registry.
use onepipeline::error::Error;
use onepipeline::filter::{from_document, EventFilter, Filters};
use onepipeline::json::{render, Json};
use onepipeline::ledger::{
    all_runs, claim_dispatch, confirm_claim, dispatches_of, framed, is_valid_run_id, join_path,
    path_segment, read_lines, read_records, runs_root, About, DispatchClaim, DispatchRecord, Entry,
    LaunchRecord, LaunchSeen, Listing, LockOpened, LockRecord, OwnershipLock, Registered, RunIndex,
    RunPaths, Taking, UNKNOWN_LAUNCHER,
};

fn read(document: &str) -> Json {
    of(&serde_json::from_str(document).unwrap_or_else(|why| panic!("{why}: {document}")))
}

fn of(value: &serde_json::Value) -> Json {
    match value {
        serde_json::Value::Null => Json::Null,
        serde_json::Value::Bool(value) => Json::Bool(*value),
        serde_json::Value::Number(number) => {
            if let Some(count) = number.as_u64() {
                Json::Count(count)
            } else if let Some(debt) = number.as_i64() {
                Json::Debt(debt)
            } else {
                Json::Number(number.to_string())
            }
        }
        serde_json::Value::String(text) => Json::Text(text.clone()),
        serde_json::Value::Array(list) => Json::List(list.iter().map(of).collect()),
        serde_json::Value::Object(fields) => Json::Object(
            fields
                .iter()
                .map(|(key, value)| (key.clone(), of(value)))
                .collect(),
        ),
    }
}

const OLDER: &str = r#"{
    "run_id": "demo",
    "plan": "plan.json",
    "node_graph": "graphs/node-scope.yaml",
    "launcher": "a-launcher",
    "session": "a-session",
    "pid": 1,
    "host": "h",
    "started_at": "2026-08-15T00:00:00.000Z",
    "heartbeat_interval": 1800
}"#;

fn a_record() -> LaunchRecord {
    LaunchRecord {
        run_id: "demo".into(),
        plan: "plan.json".into(),
        dir: "/tmp/launch".into(),
        graph: String::new(),
        graph_run: String::new(),
        node_graph: "graphs/node-scope.yaml".into(),
        pr_author_graph: String::new(),
        launcher: "a-launcher".into(),
        session: "a-session".into(),
        pid: 1,
        host: "h".into(),
        started: "Fri Aug 15 00:00:00 2026".into(),
        started_at: "2026-08-15T00:00:00.000Z".into(),
        heartbeat_interval: 1_800,
        dag_sets: Vec::new(),
        node_sets: Vec::new(),
        adoptions: 0,
        filters: Filters::default(),
    }
}

fn filter(document: &str) -> EventFilter {
    from_document(&read(document)).expect("a filter")
}

#[test]
fn a_launch_that_declared_no_filters_writes_the_record_it_always_wrote() {
    let record = LaunchRecord {
        filters: Filters::default(),
        ..a_record()
    };
    let text = render(&record.to_json());
    assert!(
        !text.contains("filters"),
        "an empty filters block reached the record: {text}"
    );
    assert_eq!(
        LaunchRecord::read(&read(&text)).expect("it re-parses"),
        record
    );

    // A record written *before* the field existed still reads, as the launch it
    // was: nothing filtered, and the shipped profiles to read through.
    let read = LaunchRecord::read(&read(OLDER)).expect("a record predating the field still reads");
    assert!(read.filters.is_empty());
}

#[test]
fn a_launchs_filters_survive_the_record_they_are_retained_in() {
    let declared = || Filters {
        agentgraph: Some(filter(r#"{"exclude": [{"kind": "turn-*"}]}"#)),
        vcs: Some(filter(r#"{"include": [{"kind": "gate-*"}]}"#)),
        profiles: vec![(
            "planner".to_string(),
            filter(r#"{"include": [{"source": "pipeline"}]}"#),
        )],
    };
    let record = LaunchRecord {
        filters: declared(),
        ..a_record()
    };
    let text = render(&record.to_json());
    let read = LaunchRecord::read(&read(&text)).expect("it re-parses");
    assert_eq!(read.filters, declared());
    assert_eq!(read, record);
}

#[test]
fn claiming_a_run_records_the_stamp_that_proves_its_pid_and_an_older_record_carries_none() {
    let mut record = a_record();
    record.driven_by_this_process(4_242, "this-host".into(), Some("a start".into()));
    assert_eq!(record.pid, 4_242);
    assert_eq!(record.host, "this-host");
    assert_eq!(record.started, "a start");
    let text = render(&record.to_json());
    assert_eq!(
        LaunchRecord::read(&read(&text)).expect("it re-parses"),
        record
    );

    // A host that will not say when this process started leaves no stamp, which
    // matches nothing.
    record.driven_by_this_process(4_242, "this-host".into(), None);
    assert!(record.started.is_empty());

    // A record written before the field existed, which is the file on disk
    // this build has to keep opening.
    let older = LaunchRecord::read(&read(OLDER)).expect("a record predating the stamp still reads");
    assert!(older.started.is_empty());

    // And a record that carries none writes none, so a build that predates
    // the field still reads what this one wrote.
    let text = render(
        &LaunchRecord {
            started: String::new(),
            ..a_record()
        }
        .to_json(),
    );
    assert!(
        !text.contains("started\""),
        "an empty stamp reached the record: {text}"
    );
}

#[test]
fn a_document_that_is_no_launch_record_is_not_read_as_one() {
    let document = |edit: &dyn Fn(&mut serde_json::Map<String, serde_json::Value>)| {
        let mut fields: serde_json::Map<String, serde_json::Value> =
            serde_json::from_str(OLDER).expect("the older record");
        edit(&mut fields);
        LaunchRecord::read(&of(&serde_json::Value::Object(fields)))
    };
    assert!(document(&|_| {}).is_some());
    assert!(document(&|fields| {
        fields.remove("plan");
    })
    .is_none());
    assert!(document(&|fields| {
        fields.insert("invented".into(), serde_json::Value::Bool(true));
    })
    .is_none());
    assert!(document(&|fields| {
        fields.insert("pid".into(), serde_json::Value::String("one".into()));
    })
    .is_none());
    assert!(document(&|fields| {
        fields.insert("pid".into(), serde_json::Value::from(1_u64 << 40));
    })
    .is_none());
    assert!(document(&|fields| {
        fields.insert("filters".into(), serde_json::Value::Bool(true));
    })
    .is_none());
    assert!(LaunchRecord::read(&Json::List(Vec::new())).is_none());
}

#[test]
fn a_lock_refuses_a_second_writer_and_names_the_first() {
    let paths = RunPaths::under("/runs", "demo");
    assert_eq!(
        OwnershipLock::acquire(&paths, "h", &LockOpened::Created),
        Taking::Write
    );
    let mut first = OwnershipLock::taken(&paths);
    assert!(first.held);

    let held = LockOpened::Held {
        record: Some(LockRecord {
            pid: 77,
            host: "h".into(),
            acquired_at: "now".into(),
            verb: "start".into(),
            started: String::new(),
        }),
        may_be_live: true,
    };
    match OwnershipLock::acquire(&paths, "h", &held) {
        Taking::Refuse(Error::Locked { run, pid, verb, .. }) => {
            assert_eq!(run, "demo");
            assert_eq!(pid, 77);
            assert_eq!(verb, "start");
        }
        other => panic!("a second writer was not refused: {other:?}"),
    }

    assert_eq!(first.release(), Some("/runs/demo/owner.lock".to_string()));
    assert_eq!(first.release(), None, "a lock is given up once");
}

#[test]
fn a_run_id_names_one_directory_and_never_a_path() {
    for good in ["demo", "run-2", "a_b", "tracked-release", "R1"] {
        assert!(is_valid_run_id(good), "{good} was refused");
    }
    for bad in [
        "",
        ".",
        "..",
        "../elsewhere",
        "../../elsewhere",
        "a/b",
        "a\\b",
        "/absolute",
        "./here",
    ] {
        assert!(!is_valid_run_id(bad), "{bad:?} was accepted");
    }
}

#[test]
fn a_lock_whose_holder_is_proved_gone_is_reclaimed() {
    let paths = RunPaths::under("/runs", "demo");
    let held = |host: &str, may_be_live: bool| LockOpened::Held {
        record: Some(LockRecord {
            pid: 99,
            host: host.into(),
            acquired_at: "now".into(),
            verb: "start".into(),
            started: String::new(),
        }),
        may_be_live,
    };
    assert_eq!(
        OwnershipLock::acquire(&paths, "h", &held("h", false)),
        Taking::Reclaim
    );
    // A holder on another host is one this host can prove nothing about.
    assert!(matches!(
        OwnershipLock::acquire(&paths, "h", &held("elsewhere", false)),
        Taking::Refuse(Error::Locked { .. })
    ));
}

#[test]
fn an_unreadable_lock_is_still_a_claim() {
    let paths = RunPaths::under("/runs", "demo");
    let corrupt = LockOpened::Held {
        record: None,
        may_be_live: false,
    };
    assert!(matches!(
        OwnershipLock::acquire(&paths, "h", &corrupt),
        Taking::Refuse(Error::Locked { .. })
    ));
    match OwnershipLock::acquire(&paths, "h", &LockOpened::Failed("denied".into())) {
        Taking::Refuse(Error::Ledger { path, source }) => {
            assert_eq!(path, "/runs/demo/owner.lock");
            assert_eq!(source, "denied");
        }
        other => panic!("a lock that could not be opened was taken: {other:?}"),
    }
}

#[test]
fn an_unknown_launch_is_nobodys_run() {
    let record = LaunchRecord {
        launcher: UNKNOWN_LAUNCHER.into(),
        session: UNKNOWN_LAUNCHER.into(),
        ..a_record()
    };
    assert!(!record.owned_by(UNKNOWN_LAUNCHER));
    assert_eq!(record.owner_label("anyone", "0123"), "[unknown]");
}

#[test]
fn a_foreign_owner_is_labelled_without_naming_the_session() {
    let record = LaunchRecord {
        session: "secret-session-id".into(),
        ..a_record()
    };
    let label = record.owner_label("mine", "0123");
    assert!(!label.contains("secret-session-id"), "{label} leaks the id");
    assert!(label.starts_with("[a-launcher:"));
    assert_eq!(record.owner_label("secret-session-id", "0123"), "[mine]");
    assert!(record.owned_by("secret-session-id"));
}

#[test]
fn appended_lines_read_back_in_order_and_skip_blanks() {
    assert!(read_lines(None).is_empty());
    let mut contents = String::new();
    for line in ["first", "", "second"] {
        contents.push_str(&framed(line));
    }
    assert_eq!(read_lines(Some(&contents)), vec!["first", "second"]);
}

#[test]
fn only_directories_with_a_launch_record_are_runs_and_the_rest_are_named() {
    let seen = |name: &str, about: About, launch: LaunchSeen| Entry::Seen {
        path: format!("/runs/{name}").into_bytes(),
        name: Some(name.to_string()),
        about,
        launch,
    };
    let listing = Listing::Entries(vec![
        seen("b-run", About::Directory, LaunchSeen::File),
        seen("scratch", About::Directory, LaunchSeen::Missing),
        seen("a-run", About::Directory, LaunchSeen::File),
        seen("notes.txt", About::Other, LaunchSeen::Missing),
        seen("impostor", About::Directory, LaunchSeen::NotFile),
    ]);
    let index = all_runs("/runs", &listing);
    let ids: Vec<String> = index.runs.iter().map(|r| r.run.clone()).collect();
    assert_eq!(ids, vec!["a-run".to_string(), "b-run".to_string()]);
    // Each directory is named with its own reason; the file never claimed to
    // be a run, so nothing is claimed about it either.
    let refused: Vec<(String, String)> = index
        .skipped
        .iter()
        .map(|root| (root.shown(), root.reason.clone()))
        .collect();
    assert_eq!(refused.len(), 2, "{refused:?}");
    assert_eq!(refused[0].0, "/runs/impostor");
    assert!(refused[0].1.contains("is not a file"), "{refused:?}");
    assert_eq!(refused[1].0, "/runs/scratch");
    assert!(refused[1].1.contains("no launch.json"), "{refused:?}");

    // A root nobody has written to holds nothing to reject.
    assert_eq!(all_runs("/runs/missing", &Listing::Missing), RunIndex::default());
}

#[test]
fn a_root_the_host_will_not_describe_is_named_rather_than_read_as_empty() {
    let unlisted = all_runs("/runs", &Listing::Unreadable("denied".into()));
    assert!(unlisted.runs.is_empty());
    assert_eq!(unlisted.skipped.len(), 1);
    assert_eq!(unlisted.skipped[0].path, b"/runs");
    assert_eq!(unlisted.skipped[0].shown(), "/runs");

    let part_way = all_runs(
        "/runs",
        &Listing::Entries(vec![
            Entry::Unreadable("withdrawn".into()),
            Entry::Seen {
                path: "/runs/gone".into(),
                name: Some("gone".into()),
                about: About::Gone,
                launch: LaunchSeen::Missing,
            },
            Entry::Seen {
                path: "/runs/dark".into(),
                name: Some("dark".into()),
                about: About::Undescribed("denied".into()),
                launch: LaunchSeen::Missing,
            },
            Entry::Seen {
                path: "/runs/half".into(),
                name: Some("half".into()),
                about: About::Directory,
                launch: LaunchSeen::Unreadable("denied".into()),
            },
        ]),
    );
    assert!(part_way.runs.is_empty());
    assert!(part_way.skipped.len() >= 3, "{part_way:?}");
}

#[test]
fn refused_roots_come_in_the_order_of_their_bytes() {
    let unnamed = |name: &[u8]| Entry::Seen {
        path: [b"/runs/", name].concat(),
        name: None,
        about: About::Directory,
        launch: LaunchSeen::Missing,
    };
    // The replacement a reader is shown for a byte that is no text sorts after every
    // other name; the byte itself does not.
    let index = all_runs(
        "/runs",
        &Listing::Entries(vec![
            Entry::Seen {
                path: "/runs/\u{ffff}".into(),
                name: Some("\u{ffff}".into()),
                about: About::Undescribed("denied".into()),
                launch: LaunchSeen::Missing,
            },
            unnamed(b"\xff"),
            unnamed(b"a\x80"),
            Entry::Unreadable("withdrawn".into()),
            unnamed(b"ab"),
        ]),
    );
    assert!(index.runs.is_empty());
    let paths: Vec<&[u8]> = index.skipped.iter().map(|root| root.path.as_slice()).collect();
    assert_eq!(
        paths,
        [
            b"/runs".as_slice(),
            b"/runs/ab",
            b"/runs/a\x80",
            "/runs/\u{ffff}".as_bytes(),
            b"/runs/\xff",
        ]
    );
    assert_eq!(index.skipped[2].shown(), "/runs/a\u{fffd}");
    assert_eq!(
        index.skipped[4].reason,
        "its name is not text this host can read, so no run id names it"
    );
}

#[test]
fn a_lock_records_the_holders_start_token_beside_its_pid() {
    let paths = RunPaths::under("/runs", "demo");
    let held = LockRecord::of_holder(7, "h", "now", "drive", Some("a start".into()));
    assert_eq!(
        OwnershipLock::acquire(&paths, "h", &LockOpened::Created),
        Taking::Write
    );
    let record = LockRecord::read(&read(&render(&held.to_json()))).expect("the lock reads back");
    assert_eq!(record.pid, 7);
    assert_eq!(
        record.started, "a start",
        "the lock's stamp is not this process's own start"
    );
    assert!(!record.started.is_empty());
    assert_eq!(
        (record.host.as_str(), record.acquired_at.as_str(), record.verb.as_str()),
        ("h", "now", "drive")
    );
    // A host that will not say when the process started leaves no stamp.
    let unstamped = LockRecord::of_holder(7, "h", "now", "drive", None);
    assert!(unstamped.started.is_empty());
}

fn claimed(node: &str, pid: u32) -> DispatchRecord {
    claim_dispatch(
        &RunPaths::under("/runs", "demo"),
        node,
        pid,
        "h",
        "now",
        Some("a start this host once reported".into()),
    )
    .expect("the dispatch is recorded")
}

fn registered(paths: &RunPaths, claim: u64, record: DispatchRecord) -> Registered {
    Registered::Read {
        path: paths.dispatch(record.pid, claim),
        record,
    }
}

#[test]
fn a_dispatch_claims_the_process_it_runs_in_and_gives_it_up_when_it_ends() {
    let paths = RunPaths::under("/runs", "demo");
    assert!(
        dispatches_of(&paths, Ok(Vec::new()))
            .expect("a run that has dispatched nothing has an empty registry")
            .is_empty(),
        "a run that has dispatched nothing claimed a process"
    );

    let record = claimed("build", 4_242);
    let claim = confirm_claim(&paths, 0, &record, Some(&claimed("build", 4_242)))
        .expect("the entry reads back as itself");
    assert_eq!(claim.path, "/runs/demo/dispatches/4242-0.json");
    let recorded = dispatches_of(&paths, Ok(vec![registered(&paths, 0, claimed("build", 4_242))]))
        .expect("the registry reads");
    assert_eq!(recorded.len(), 1, "{recorded:?}");
    assert_eq!(recorded[0].node, "build");
    assert_eq!(recorded[0].pid, 4_242);
    assert_eq!(recorded[0].host, "h");
    assert!(recorded[0].is_usable());

    // The claim is given up by taking its own entry away.
    assert!(claim.owns(Some(&recorded[0])));
    assert!(!claim.owns(None));
}

#[test]
fn two_dispatches_in_one_process_are_two_entries_and_each_ends_alone() {
    let paths = RunPaths::under("/runs", "demo");
    assert_ne!(paths.dispatch(7, 0), paths.dispatch(7, 1));
    assert_ne!(paths.dispatch(71, 1), paths.dispatch(7, 11));
    let read = dispatches_of(
        &paths,
        Ok(vec![
            registered(&paths, 0, claimed("first", 7)),
            registered(&paths, 1, claimed("second", 7)),
        ]),
    )
    .expect("the registry reads");
    let mut named: Vec<String> = read.into_iter().map(|held| held.node).collect();
    named.sort();
    assert_eq!(
        named,
        vec!["first".to_string(), "second".to_string()],
        "two dispatches in one process did not record two entries"
    );
}

#[test]
fn a_claim_that_ends_leaves_a_later_dispatchs_entry_alone() {
    let first = DispatchClaim {
        path: "/runs/demo/dispatches/7-0.json".into(),
        started: "a start this host once reported".into(),
    };
    let later = DispatchRecord {
        started: "the process that took it, which is not the first one".into(),
        ..claimed("build", 7)
    };
    assert!(
        !first.owns(Some(&later)),
        "a dispatch that ended removed an entry it did not write"
    );
    assert!(first.owns(Some(&claimed("build", 7))));
}

#[test]
fn the_registry_reads_in_pid_order() {
    let paths = RunPaths::under("/runs", "demo");
    let entries = [("later", 900_u32), ("earlier", 90), ("middle", 300)]
        .into_iter()
        .map(|(node, pid)| registered(&paths, 0, claimed(node, pid)))
        .collect();
    let read: Vec<u32> = dispatches_of(&paths, Ok(entries))
        .expect("the registry reads")
        .iter()
        .map(|held| held.pid)
        .collect();
    assert_eq!(read, vec![90, 300, 900]);
}

#[test]
fn a_registry_this_build_cannot_read_is_reported_and_never_read_as_an_empty_one() {
    let paths = RunPaths::under("/runs", "demo");
    let at = paths.dispatch(4_242, 0);
    let unread = |why: &str| {
        Registered::Unread(Error::Ledger {
            path: at.clone(),
            source: why.to_string(),
        })
    };
    for document in [
        r#"{"node":"build","pid":4242,"host":"h","dispatched_at":"now","started":"s",
            "reaped_by":"a build that came later"}"#,
        r#"{"node":"build","pid":4242,"host":"h","dispatched_at":"now"}"#,
    ] {
        assert_eq!(DispatchRecord::read(&read(document)), None, "{document}");
    }
    let newer: serde_json::Error = serde::de::Error::unknown_field(
        "reaped_by",
        &["node", "pid", "host", "dispatched_at", "started"],
    );
    let unstamped: serde_json::Error = serde::de::Error::missing_field("started");

    for (what, entry) in [
        ("a record that is not JSON at all", unread("expected value")),
        ("a record carrying a field this build does not know", unread(&newer.to_string())),
        ("a record missing the stamp entirely", unread(&unstamped.to_string())),
        (
            "a record whose stamp proves nothing",
            registered(
                &paths,
                0,
                DispatchRecord {
                    started: String::new(),
                    ..claimed("build", 4_242)
                },
            ),
        ),
    ] {
        let refused = dispatches_of(&paths, Ok(vec![entry]))
            .expect_err(&format!("{what} was read as a registry"))
            .message();
        assert!(
            refused.contains("4242"),
            "the refusal over {what} does not name what caused it: {refused}"
        );
    }

    // And the registry that is not there at all, which is not the same fact as
    // a run that has dispatched nothing.
    let refused = dispatches_of(&paths, Err("no such directory".into()))
        .expect_err("a registry that is not there was read as a run with nothing running")
        .message();
    assert!(
        refused.contains(&paths.dispatches()),
        "the refusal does not name the registry it could not read: {refused}"
    );
    let refused = dispatches_of(&paths, Ok(vec![Registered::Unlisted("withdrawn".into())]))
        .expect_err("an entry the host withdrew was passed over")
        .message();
    assert!(refused.contains(&paths.dispatches()), "{refused}");

    // Each refusal is of its own kind.
    assert_eq!(
        dispatches_of(&paths, Ok(vec![Registered::Unlisted("withdrawn".into())])),
        Err(Error::Ledger {
            path: paths.dispatches(),
            source: "withdrawn".into(),
        })
    );
    assert_eq!(
        dispatches_of(&paths, Ok(vec![unread("torn"), Registered::Unlisted("x".into())])),
        Err(Error::Ledger {
            path: at.clone(),
            source: "torn".into(),
        })
    );
    let blank = registered(
        &paths,
        0,
        DispatchRecord {
            started: " ".into(),
            ..claimed("build", 4_242)
        },
    );
    assert_eq!(
        dispatches_of(&paths, Ok(vec![blank])),
        Err(Error::Invalid(format!(
            "{at}: the dispatch it records carries no start token, so nothing says pid 4242 is \
             still this run's work"
        )))
    );
}

#[test]
fn a_dispatch_the_registry_cannot_record_is_refused() {
    let paths = RunPaths::under("/runs", "demo");
    // A host that will not say when the process started: nothing could prove
    // that pid is still this run's work, so there is no entry to write.
    let refused = claim_dispatch(&paths, "build", 4_242, "h", "now", None)
        .expect_err("a dispatch nothing can stamp was recorded anyway")
        .message();
    assert!(
        refused.contains("4242"),
        "the refusal does not name the process it could not stamp: {refused}"
    );

    // And an entry that did not read back as itself.
    for read in [None, Some(claimed("another", 4_242))] {
        let refused = confirm_claim(&paths, 0, &claimed("build", 4_242), read.as_ref())
            .expect_err("a claim that could not be written was reported as held")
            .message();
        assert!(
            refused.contains(&paths.dispatches()),
            "the refusal does not name what it could not write: {refused}"
        );
    }
}

#[test]
fn a_blank_start_token_is_refused_like_none() {
    let paths = RunPaths::under("/runs", "demo");
    let unstamped = claim_dispatch(&paths, "build", 4_242, "h", "now", None)
        .expect_err("a dispatch nothing can stamp was recorded anyway")
        .message();
    for blank in ["", "  ", "\t\n"] {
        let refused = claim_dispatch(&paths, "build", 4_242, "h", "now", Some(blank.into()))
            .expect_err("a blank start token was recorded as a stamp")
            .message();
        assert_eq!(refused, unstamped);
    }
    let held = claim_dispatch(&paths, "build", 4_242, "h", "now", Some("7".into()))
        .expect("a stamped dispatch");
    assert_eq!(held.started, "7");
}

#[test]
fn a_lock_without_a_start_token_reads_and_is_written_back_without_one() {
    let record = LockRecord::read(&read(
        r#"{"pid":1,"host":"h","acquired_at":"2026-01-01T00:00:00.000Z","verb":"drive"}"#,
    ))
    .expect("a lock from a build that predates the stamp");
    assert!(record.started.is_empty());
    let written = render(&record.to_json());
    assert!(!written.contains("started"), "{written}");
}

#[test]
fn a_dispatch_record_round_trips() {
    let record = claimed("build", 7);
    assert_eq!(
        DispatchRecord::read(&record.to_json()).expect("it reads back"),
        record
    );
}

#[test]
fn the_runs_root_is_the_one_named_and_a_name_is_a_single_segment() {
    assert_eq!(runs_root(None), "runs");
    assert_eq!(runs_root(Some("")), "runs");
    assert_eq!(runs_root(Some("/elsewhere")), "/elsewhere");
    assert_eq!(join_path("/a", "b"), "/a/b");
    assert_eq!(join_path("/a/", "b"), "/a/b");
    assert_eq!(join_path("", "b"), "b");
    assert_eq!(join_path("/a", "/b"), "/b");
    for name in ["../up", "a/b", "..", "plain-name_1.2", ""] {
        let segment = path_segment(name);
        assert!(!segment.contains('/') && segment != ".." && segment != ".", "{segment}");
    }
    assert_eq!(path_segment("plain-name_1.2"), "plain-name_1.2");
}

#[test]
fn a_runs_files_stand_under_its_own_directory() {
    let paths = RunPaths::new("demo", Some("/runs"));
    assert_eq!(paths.dir, "/runs/demo");
    assert_eq!(paths.journal(), "/runs/demo/events.jsonl");
    assert_eq!(paths.launch(), "/runs/demo/launch.json");
    assert_eq!(paths.plan(), "/runs/demo/plan.json");
    assert_eq!(paths.lock(), "/runs/demo/owner.lock");
    for path in [
        paths.driver_log(),
        paths.channel_dir(),
        paths.reports_dir(),
        paths.report_for("a stream", 3),
        paths.channel("queue"),
        paths.result(),
        paths.dispatches(),
        paths.dispatch_temporary(7, 0),
    ] {
        assert!(path.starts_with("/runs/demo/"), "{path}");
    }
    for made in paths.create() {
        assert!(made.starts_with("/runs/demo"), "{made}");
    }
    assert_ne!(paths.dispatch(7, 0), paths.dispatch_temporary(7, 0));
}

#[test]
fn a_file_is_read_as_its_lines_and_a_torn_one_is_told_apart() {
    let records = read_records(&b"first\n\xff\nla".to_vec());
    let read: Vec<(&str, usize, u64, u64, bool)> = records
        .iter()
        .map(|r| (r.text.as_str(), r.line, r.offset, r.bytes, r.terminated))
        .collect();
    assert_eq!(
        read,
        [
            ("first", 1, 0, 5, true),
            ("\u{fffd}", 2, 6, 1, true),
            ("la", 3, 8, 2, false),
        ]
    );
    assert!(read_records(&Vec::new()).is_empty());
}
