//! The run-end hooks: when one fires, how it is run, and what a view says of it.
use onepipeline::event::{Envelope, EventKind, Labels, PipelineKind, Source, ENVELOPE_VERSION};
use onepipeline::graph::{Graph, NodeStatus, Statuses};
use onepipeline::hooks::{
    deadline_after, document, fired, fired_payload, finished_payload, judge, judged_view, let_go,
    log_path,
    named, not_plain, refused_zero_timeout, results_lines, start, stopped, tail, tail_start, wait,
    withheld_notice, withheld_payload, Ending, Fired, Firing, Hook, Judged, Judging, LetGo, Looked, Ran,
    Reason, ReasonKind, Tail, Unsettled, Waited, DEFAULT_HOOK_TIMEOUT_SECONDS, MAX_TAIL_BYTES,
    PAUSED, RESULTS_OUTPUT_LINES,
};
use onepipeline::json::{render, Json};
use onepipeline::names::NameMap;
use onepipeline::plan::Node;

/// A run whose graph holds these nodes, each at its status, in order.
fn holding(nodes: &[(&str, NodeStatus)]) -> (Graph, Statuses) {
    let mut graph = Graph::with_concurrency(4);
    let mut statuses = Statuses::new();
    for (id, status) in nodes {
        graph.insert(Node {
            id: (*id).to_string(),
            persona: Some("engineer".into()),
            task: Some("## What\ndo it".into()),
            ..Node::default()
        });
        statuses.insert((*id).to_string(), *status);
    }
    (graph, statuses)
}

fn judged(nodes: &[(&str, NodeStatus)]) -> Judged {
    let (graph, statuses) = holding(nodes);
    judge(&graph, &statuses, &NameMap::new(), false)
}

#[test]
fn a_draft_waiting_on_a_release_has_not_ended_and_an_empty_graph_has_not_begun() {
    for beside in [NodeStatus::Done, NodeStatus::Failed, NodeStatus::Parked] {
        assert_eq!(
            judged(&[("build", beside), ("lift", NodeStatus::CompleteDraft)]),
            Judged::NotEnded,
            "a draft beside a {} node was judged an ending",
            beside.as_str()
        );
    }
    assert_eq!(judged(&[]), Judged::NotEnded);
    // And the draft landing is what ends it.
    assert_eq!(
        judged(&[("build", NodeStatus::Done), ("lift", NodeStatus::Done)]),
        Judged::Fire(Firing::Success)
    );
}

#[test]
fn a_cancelled_or_pending_node_ends_a_run_unfinished_in_plan_order() {
    let unfinished = |nodes: &[(&str, NodeStatus)]| {
        Judged::Fire(Firing::Failure(Reason {
            kind: ReasonKind::Unfinished,
            nodes: nodes
                .iter()
                .map(|(id, status)| Unsettled {
                    id: (*id).to_string(),
                    status: *status,
                    outcome: None,
                })
                .collect(),
        }))
    };
    assert_eq!(
        judged(&[
            ("stopped", NodeStatus::Cancelled),
            ("build", NodeStatus::Done),
            ("waits", NodeStatus::Pending),
        ]),
        unfinished(&[
            ("stopped", NodeStatus::Cancelled),
            ("waits", NodeStatus::Pending)
        ])
    );
    assert_eq!(NodeStatus::Cancelled.as_str(), "cancelled");
    for alone in [NodeStatus::Cancelled, NodeStatus::Pending] {
        assert_eq!(
            judged(&[("build", NodeStatus::Done), ("left", alone)]),
            unfinished(&[("left", alone)])
        );
    }
}

#[test]
fn a_failed_node_ends_a_run_over_its_nodes_and_a_decision_holds_every_hook_back() {
    let (graph, statuses) = holding(&[
        ("build", NodeStatus::Failed),
        ("ship", NodeStatus::Skipped),
        ("note", NodeStatus::Done),
    ]);
    let mut outcomes = NameMap::new();
    outcomes.insert("build".to_string(), "checks-failed".to_string());
    match judge(&graph, &statuses, &outcomes, false) {
        Judged::Fire(Firing::Failure(reason)) => {
            assert_eq!(reason.kind, ReasonKind::Nodes);
            assert_eq!(reason.kind.as_str(), "nodes");
            let left: Vec<(&str, Option<&str>)> = reason
                .nodes
                .iter()
                .map(|node| (node.id.as_str(), node.outcome.as_deref()))
                .collect();
            assert_eq!(left, [("build", Some("checks-failed")), ("ship", None)]);
        }
        other => panic!("a failed node did not end the run: {other:?}"),
    }
    assert_eq!(
        judge(&graph, &statuses, &outcomes, true),
        Judged::Withhold
    );
}

#[test]
fn a_hook_fires_once_and_only_where_the_launch_names_it() {
    let command = Some("./say.sh".to_string());
    let fire = |success: &Option<String>, failure: &Option<String>, already| {
        let_go(Judged::Fire(Firing::Success), success, failure, already)
    };
    match fire(&command, &None, false) {
        LetGo::Fire(fired) => {
            assert_eq!(fired.command, "./say.sh");
            assert_eq!(fired.firing.hook(), Hook::Success);
            assert!(fired.firing.reason().is_none());
        }
        other => panic!("a named hook did not fire: {other:?}"),
    }
    assert_eq!(fire(&None, &command, false), LetGo::Nothing);
    assert_eq!(fire(&None, &None, false), LetGo::Nothing);
    assert_eq!(fire(&command, &None, true), LetGo::Nothing);
    assert_eq!(
        let_go(Judged::Withhold, &command, &None, false),
        LetGo::Withhold
    );
    assert_eq!(
        let_go(Judged::Withhold, &command, &None, true),
        LetGo::Nothing
    );
    assert_eq!(
        let_go(Judged::NotEnded, &command, &command, false),
        LetGo::Nothing
    );

    // A clean stop fires the failure hook, as stopped.
    let (graph, statuses) = holding(&[("build", NodeStatus::Running)]);
    match stopped(&graph, &statuses, &NameMap::new(), &None, &command, false) {
        LetGo::Fire(Fired {
            firing: Firing::Failure(reason),
            ..
        }) => {
            assert_eq!(reason.kind, ReasonKind::Stopped);
            assert_eq!(reason.nodes.len(), 1);
        }
        other => panic!("a stop did not fire the failure hook: {other:?}"),
    }
}

#[test]
fn a_timeout_past_what_the_clock_can_count_to_is_no_deadline_rather_than_a_panic() {
    let now = 1_700_000_000_000;
    assert_eq!(deadline_after(now, u64::MAX), None);
    assert!(deadline_after(now, DEFAULT_HOOK_TIMEOUT_SECONDS).is_some_and(|deadline| deadline > now));
}

#[test]
fn the_tail_of_a_long_log_is_its_last_whole_lines() {
    let written: String = (1..=10_000).map(|n| format!("said line {n}\n")).collect();
    assert!(written.len() as u64 > MAX_TAIL_BYTES);
    let start = tail_start(written.len() as u64);
    let said = written.as_bytes()[start as usize..].to_vec();
    let tail_lines = tail(&said, start);
    assert_eq!(tail_lines.len(), RESULTS_OUTPUT_LINES);
    assert_eq!(tail_lines.first().map(String::as_str), Some("said line 9981"));
    assert_eq!(tail_lines.last().map(String::as_str), Some("said line 10000"));
    // A read begun mid-file never repeats the half line it starts on, and what
    // is not text is replaced rather than refused.
    assert_eq!(tail(&b"half\nwhole\n".to_vec(), 3), ["whole"]);
    assert_eq!(tail(&b"\xff\n".to_vec(), 0), ["\u{fffd}"]);
    assert_eq!(tail_start(10), 0);
}

#[test]
fn a_log_that_is_not_a_plain_file_is_refused_in_words() {
    assert!(not_plain("/runs/demo/hooks/failure.log").contains("not a plain file"));
}

#[test]
fn a_hook_is_told_which_run_and_whose() {
    let mine = start(Hook::Failure, "demo", "/runs/demo", "/launch", "cli", "s-1");
    assert_eq!(mine.dir.as_deref(), Some("/launch"));
    assert_eq!(
        mine.set,
        [
            ("ONEPIPELINE_HOOK".to_string(), "failure".to_string()),
            ("ONEPIPELINE_RUN_ID".to_string(), "demo".to_string()),
            ("ONEPIPELINE_RUN_ROOT".to_string(), "/runs/demo".to_string()),
            ("ONEPIPELINE_LAUNCHER".to_string(), "cli".to_string()),
            ("ONEPIPELINE_LAUNCHER_SESSION".to_string(), "s-1".to_string()),
        ]
    );
    assert!(mine.unset.is_empty());
    let nobodys = start(Hook::Success, "demo", "/runs/demo", "", "unknown", "unknown");
    assert_eq!(nobodys.dir, None);
    assert_eq!(nobodys.set.len(), 3);
    assert_eq!(
        nobodys.unset,
        ["ONEPIPELINE_LAUNCHER", "ONEPIPELINE_LAUNCHER_SESSION"]
    );
}

#[test]
fn a_wait_ends_a_hook_past_its_deadline_and_one_nobody_can_ask_about() {
    let exited = |success, code| Looked::Exited { success, code };
    assert_eq!(wait(exited(true, Some(0)), true), Waited::Over(Ran::Succeeded));
    assert_eq!(
        wait(exited(false, Some(3)), false),
        Waited::Over(Ran::Failed(Some(3)))
    );
    assert_eq!(wait(Looked::Running, false), Waited::Again);
    assert_eq!(wait(Looked::Running, true), Waited::End(Ran::TimedOut));
    assert_eq!(wait(Looked::Lost, false), Waited::End(Ran::Failed(None)));
    assert_eq!(Ran::TimedOut.ending(), Ending::TimedOut);
    assert_eq!(Ran::Succeeded.exit(), Some(0));
    assert_eq!(Ran::CouldNotStart.exit(), None);
}

fn event(kind: PipelineKind, payload: Vec<(String, Json)>) -> Envelope {
    Envelope {
        v: ENVELOPE_VERSION,
        ts: "2026-01-01T00:00:00.000Z".into(),
        stream: "s".into(),
        seq: 0,
        source: Source::Pipeline,
        kind: EventKind(kind.as_str().into()),
        labels: Labels::default(),
        payload,
        artifacts: Vec::new(),
    }
}

#[test]
fn a_view_says_what_fired_how_it_ended_and_what_it_said() {
    let firing = || Fired {
        firing: Firing::Failure(Reason {
            kind: ReasonKind::Nodes,
            nodes: Vec::new(),
        }),
        command: "./say.sh".into(),
    };
    let log = log_path("/runs/demo", Hook::Failure);
    assert_eq!(log, "/runs/demo/hooks/failure.log");
    let running = vec![event(PipelineKind::RunHookFired, fired_payload(&firing()))];
    assert!(fired(&running));
    assert!(!fired(&Vec::new()));
    assert_eq!(
        results_lines(&running, "/runs/demo", &Tail::Absent, &Tail::Absent),
        format!("  failure hook fired — reason: nodes; still running; log: {log}\n")
    );
    let over = vec![
        event(PipelineKind::RunHookFired, fired_payload(&firing())),
        event(
            PipelineKind::RunHookFinished,
            finished_payload(Hook::Failure, Ran::Failed(Some(-3)), &log),
        ),
        event(PipelineKind::RunHookWithheld, withheld_payload()),
    ];
    assert_eq!(
        results_lines(
            &over,
            "/runs/demo",
            &Tail::Absent,
            &Tail::Lines(vec!["one".into(), "two".into()])
        ),
        format!(
            "  failure hook fired — reason: nodes; ending: failed; exit: -3; log: {log}\n      \
             output: one\n      output: two\n  run-end hook withheld — the run is paused on a \
             decision ({PAUSED}), so no hook fired\n"
        )
    );
    let unread = results_lines(
        &running,
        "/runs/demo",
        &Tail::Absent,
        &Tail::Unread("denied".into()),
    );
    assert!(unread.ends_with("      log not read: denied\n"), "{unread}");
}

#[test]
fn a_hook_reads_one_document() {
    let written = render(&document(
        "demo",
        "/runs/demo",
        &Firing::Failure(Reason {
            kind: ReasonKind::Unfinished,
            nodes: vec![Unsettled {
                id: "left".into(),
                status: NodeStatus::Pending,
                outcome: None,
            }],
        }),
    ));
    let value: serde_json::Value = serde_json::from_str(&written).expect("it is JSON");
    assert_eq!(value["hook"], "failure");
    assert_eq!(value["run_id"], "demo");
    assert_eq!(value["run_root"], "/runs/demo");
    assert_eq!(value["reason"]["kind"], "unfinished");
    assert_eq!(value["reason"]["nodes"][0]["id"], "left");
    assert_eq!(value["reason"]["nodes"][0]["status"], "pending");
    let success = render(&document("demo", "/runs/demo", &Firing::Success));
    let value: serde_json::Value = serde_json::from_str(&success).expect("it is JSON");
    assert!(value["reason"].is_null());
}

#[test]
fn a_flag_beats_the_config_and_a_blank_one_names_nothing() {
    assert_eq!(named(Some(" a "), Some("b")).as_deref(), Some("a"));
    assert_eq!(named(None, Some("b")).as_deref(), Some("b"));
    assert_eq!(named(Some("  "), Some("b")), None);
    assert_eq!(named(None, None), None);
    assert!(refused_zero_timeout("--hook-timeout").starts_with("--hook-timeout names a hook timeout"));
    assert!(withheld_notice("demo").contains("run 'demo' is paused on a decision"));
    for hook in [Hook::Success, Hook::Failure] {
        assert_eq!(Hook::parse(hook.as_str()), Some(hook));
    }
    assert_eq!(Hook::parse("invented"), None);
}

#[test]
fn a_record_that_cannot_be_read_is_not_one_that_names_no_hook() {
    let none: Option<String> = None;
    let some = Some("notify".to_string());
    assert_eq!(judged_view("demo", Ok((&none, &none)), Err("gone")), Judging::Nothing);
    assert_eq!(judged_view("demo", Ok((&some, &none)), Ok(())), Judging::Judge);
    assert_eq!(judged_view("demo", Ok((&none, &some)), Ok(())), Judging::Judge);
    let said =
        "onepipeline: whether run 'demo' fires a run-end hook could not be judged: gone".to_string();
    assert_eq!(
        judged_view("demo", Err("gone"), Ok(())),
        Judging::Unjudged(said.clone())
    );
    assert_eq!(
        judged_view("demo", Ok((&some, &some)), Err("gone")),
        Judging::Unjudged(said)
    );
}
