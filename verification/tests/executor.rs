//! Where a dispatch runs, and what each stage of starting one decides.
use std::collections::BTreeMap;

use onepipeline::controls::NodeControls;
use onepipeline::error::Error;
use onepipeline::event::{Envelope, EventKind, Labels, Source};
use onepipeline::executor::{
    attributed, available_memory, node_sets, own_dispatch_variables, prepare_dispatch_env,
    session_labels, slots_free,
    CancelMode, CancellationToken, Capabilities, Created, DispatchHandle, DispatchOutcome,
    DispatchRequest, Executor, GraphEnd, Inherited, LocalExecutor, NodeScratch, Opened, Placing,
    ScratchStep, Session, SessionRequest, StampedAs, Started, WorkspaceSpec, LABELS_ENV,
    NODE_SCRATCH_DIR_ENV, SESSION_ENV, SESSION_LAUNCHER_LABEL, SESSION_RUN_LABEL, TRIES,
};
use onepipeline::json::Json;
use onepipeline::ledger::{DispatchClaim, LaunchRecord, UNKNOWN_LAUNCHER};
use onepipeline::lifecycle::PR_AUTHOR_PERSONA;
use onepipeline::names::NameMap;

fn text(value: &str) -> Json {
    Json::Text(value.to_string())
}

fn launch(session: &str, node_sets: &[&str]) -> LaunchRecord {
    let mut fields: Vec<(String, Json)> = Vec::new();
    for (key, value) in [
        ("run_id", "demo-1"),
        ("plan", "p.json"),
        ("node_graph", "./node.yaml"),
        ("pr_author_graph", "./author.yaml"),
        ("launcher", "l"),
        ("session", session),
        ("host", "h"),
        ("started_at", "now"),
    ] {
        fields.push((key.to_string(), text(value)));
    }
    fields.push(("pid".to_string(), Json::Count(1)));
    fields.push(("heartbeat_interval".to_string(), Json::Count(1)));
    fields.push((
        "node_sets".to_string(),
        Json::List(node_sets.iter().map(|set| text(set)).collect()),
    ));
    LaunchRecord::read(&Json::Object(fields)).expect("a launch record")
}

fn labels(run: Option<&str>, node: Option<&str>, persona: Option<&str>) -> Labels {
    Labels {
        run_id: run.map(str::to_string),
        node: node.map(str::to_string),
        persona: persona.map(str::to_string),
        ..Labels::default()
    }
}

fn request(labels: Labels, workspace: WorkspaceSpec) -> DispatchRequest {
    DispatchRequest {
        graph: "./graphs/node-scope.yaml".into(),
        task: "## What\ndo it".into(),
        labels,
        controls: NodeControls::default(),
        workspace,
        cancel: CancellationToken::new(),
        attempt: 1,
    }
}

fn session_request() -> SessionRequest {
    SessionRequest {
        repo: "owner/repo".into(),
        branch: None,
        base: None,
        execution_checkout: None,
        pool: None,
        overflow: None,
        labels: NameMap::new(),
    }
}

fn spelled(stamped: &NameMap<String>) -> Vec<String> {
    let sorted: BTreeMap<&String, &String> = stamped
        .names()
        .iter()
        .zip(stamped.values().iter())
        .collect();
    sorted
        .into_iter()
        .map(|(key, value)| format!("{key}={value}"))
        .collect()
}

#[test]
fn a_sessions_labels_keep_the_callers_and_the_engine_decides_its_own() {
    let asked = || {
        let mut asked = NameMap::new();
        for (key, value) in [
            ("owner", "ci"),
            (SESSION_RUN_LABEL, "stale-run"),
            (SESSION_LAUNCHER_LABEL, "stale-session"),
        ] {
            asked.insert(key.to_owned(), value.to_owned());
        }
        asked
    };
    let labels = labels(Some("demo-1"), Some("service"), None);

    assert_eq!(
        spelled(&session_labels(asked(), &labels, Some(&launch("session-a", &[])))),
        [
            "launcher=session-a",
            "node=service",
            "owner=ci",
            "run=demo-1"
        ]
    );
    // An unattributed launch names no launcher, whatever the caller said.
    for nobody in ["", UNKNOWN_LAUNCHER] {
        assert_eq!(
            spelled(&session_labels(asked(), &labels, Some(&launch(nobody, &[])))),
            ["node=service", "owner=ci", "run=demo-1"],
            "{nobody:?}"
        );
    }
    assert_eq!(
        spelled(&session_labels(asked(), &labels, None)),
        ["node=service", "owner=ci", "run=demo-1"]
    );
}

#[test]
fn the_local_executor_is_named_and_capable_of_both_workspaces() {
    let executor = LocalExecutor;
    assert_eq!(executor.name(), "local");
    assert!(executor.capabilities().vcs_sessions);
    assert!(!Capabilities::default().vcs_sessions);
}

#[test]
fn a_cancellation_signal_is_shared_between_the_two_sides() {
    let token = CancellationToken::new();
    let observer = token.clone();
    assert!(!observer.is_cancelled());
    token.cancel();
    assert!(
        observer.is_cancelled(),
        "the signal did not reach the dispatch"
    );
    assert_eq!(token, observer);
    assert_ne!(CancellationToken::new(), observer);
}

#[test]
fn a_dispatch_request_carries_both_siblings_types() {
    let request = request(Labels::default(), WorkspaceSpec::VcsSession(session_request()));
    assert!(matches!(request.workspace, WorkspaceSpec::VcsSession(_)));
    assert_eq!(request.graph, "./graphs/node-scope.yaml");
}

#[test]
fn the_drafting_dispatch_composes_nothing_onto_the_graph_the_launch_named() {
    let record = launch("s", &["members.worker.model=m"]);
    let sets = |persona: &str| {
        node_sets(
            Some(&record),
            &labels(Some("demo"), None, Some(persona)),
            &NodeControls::default(),
        )
        .expect("the overrides compose")
    };
    assert!(
        sets(PR_AUTHOR_PERSONA).is_empty(),
        "the drafting dispatch was given a member this graph never declared"
    );
    // The node's own work, under the same run and the same record.
    assert_eq!(
        sets("engineer"),
        vec![
            "members.worker.model=m".to_string(),
            "members.worker.persona=engineer".to_string(),
        ]
    );
}

#[test]
fn every_dispatch_is_given_a_directory_of_its_own_and_no_two_share_one() {
    let labels = labels(Some("demo"), Some("build"), None);
    let mut scratch = NodeScratch::make_node_scratch_dir(&labels, "/runs", "/tmp", 7);
    assert_eq!(scratch.base, "/runs/demo/scratch");

    // The same node, twice, which is what a retry is.
    let first = scratch.next(0).expect("a directory to try");
    let second = scratch.next(1).expect("a directory to try");
    assert_eq!(first, "/runs/demo/scratch/7-0");
    assert_ne!(
        first, second,
        "a node asked again was handed the directory its first attempt had"
    );
    // One that is already there is walked past, and the next is taken.
    assert_eq!(scratch.came(&first, Created::AlreadyThere), ScratchStep::Again);
    assert_eq!(
        scratch.came(&second, Created::Made),
        ScratchStep::Take(second.clone())
    );

    let env = prepare_dispatch_env(&labels, "/runs", None, &second);
    let (_, value) = env
        .iter()
        .find(|(key, _)| key == NODE_SCRATCH_DIR_ENV)
        .expect("every dispatch carries a scratch directory");
    assert_eq!(value, &second);

    // A dispatch outside a run has no run directory to sit in and is given one
    // anyway.
    assert_eq!(
        NodeScratch::make_node_scratch_dir(&Labels::default(), "/runs", "/tmp", 7).base,
        "/tmp/onepipeline-scratch"
    );

    // A run root that is a file holds no scratch directory, and the dispatch is
    // refused rather than handed a path to nothing.
    match scratch.came("/runs/demo/scratch/7-2", Created::Failed("not a directory".into())) {
        ScratchStep::Refuse(Error::Ledger { path, source }) => {
            assert_eq!(path, "/runs/demo/scratch/7-2");
            assert_eq!(source, "not a directory");
        }
        other => panic!("a directory that could not be made was not refused: {other:?}"),
    }
}

#[test]
fn a_base_nothing_can_be_created_in_fails_rather_than_spinning() {
    let mut scratch = NodeScratch::make_node_scratch_dir(&Labels::default(), "/runs", "/tmp", 7);
    let mut minted = 0;
    while let Some(at) = scratch.next(minted) {
        assert_eq!(scratch.came(&at, Created::AlreadyThere), ScratchStep::Again);
        minted += 1;
    }
    assert_eq!(minted, TRIES);
    assert_eq!(
        scratch.spent().message(),
        "/tmp/onepipeline-scratch: no scratch directory under /tmp/onepipeline-scratch could be \
         created"
    );
}

#[test]
fn a_dispatch_with_no_run_still_carries_its_nodes_own_controls() {
    // No `run_id`, so there is no launch record to read: the node's own
    // budget is what the launch must still carry, because a dispatch that
    // dropped it here would run to the base config's default instead.
    let sets = node_sets(
        None,
        &Labels {
            persona: Some("engineer".into()),
            ..Labels::default()
        },
        &NodeControls {
            max_turns: Some(45),
        },
    )
    .expect("both are appliable");
    assert_eq!(
        sets,
        vec![
            "members.worker.persona=engineer".to_string(),
            "members.worker.max_turns=45".to_string(),
        ],
        "the node's own control must apply after the run-wide ones"
    );
}

#[test]
fn a_control_no_launch_can_apply_refuses_the_dispatch() {
    let controls = NodeControls { max_turns: Some(0) };
    let refusal = node_sets(None, &Labels::default(), &controls).unwrap_err();
    assert!(matches!(refusal, Error::Invalid(_)));
    assert!(refusal.message().contains("`max_turns` is 0"));
    let asked = DispatchRequest {
        controls,
        ..request(Labels::default(), WorkspaceSpec::Path("/work".into()))
    };
    assert!(LocalExecutor.dispatch(asked).composed(None).is_err());
}

#[test]
fn only_a_named_session_is_a_launcher() {
    assert!(attributed("session-a"));
    assert!(!attributed(""));
    assert!(!attributed(UNKNOWN_LAUNCHER));
}

#[test]
fn the_hook_is_told_every_variable_a_dispatch_will_hold() {
    let mut opened = Opened::new();
    opened.remember_worktree(&Session {
        token: "t-1".into(),
        worktree: "/work/tree".into(),
        branch: "feat/x".into(),
    });
    for (workspace, token) in [
        (WorkspaceSpec::Path("/elsewhere".into()), None),
        (WorkspaceSpec::Path("/work/tree".into()), Some("t-1")),
        (WorkspaceSpec::VcsSession(session_request()), Some("t-2")),
    ] {
        let mut told = own_dispatch_variables(&workspace, &opened);
        let mut held: Vec<String> =
            prepare_dispatch_env(&labels(Some("demo"), Some("n"), None), "/runs", token, "/s")
                .into_iter()
                .map(|(key, _)| key)
                .collect();
        told.sort();
        held.sort();
        assert_eq!(told, held);
    }
    assert_eq!(opened.session_of_worktree("/elsewhere"), None);
}

#[test]
fn a_dispatch_in_a_session_goes_through_every_stage() {
    let mut opened = Opened::new();
    let cancel = CancellationToken::new();
    let asked = LocalExecutor.dispatch(DispatchRequest {
        cancel: cancel.clone(),
        attempt: 3,
        ..request(
            labels(Some("demo-1"), Some("service"), Some("engineer")),
            WorkspaceSpec::VcsSession(session_request()),
        )
    });
    assert_eq!(
        asked.launched_with("/runs"),
        Some("/runs/demo-1/launch.json".to_string())
    );
    let composed = asked
        .composed(Some(launch("session-a", &["members.worker.model=m"])))
        .expect("the overrides compose");
    let ask = composed.hook(&opened).expect("a run's node is asked about");
    assert_eq!((ask.run.as_str(), ask.node.as_str()), ("demo-1", "service"));
    assert!(ask.own.contains(&SESSION_ENV.to_string()));

    let added = vec![(LABELS_ENV.to_string(), "a=b".to_string())];
    let opening = match composed.place(added, &opened) {
        Placing::Open(opening) => opening,
        Placing::In(_) => panic!("a session workspace is opened first"),
    };
    assert_eq!(
        spelled(&opening.wanted.labels),
        ["launcher=session-a", "node=service", "run=demo-1"]
    );
    let placed = opening.opened(
        Session {
            token: "t-1".into(),
            worktree: "/work/tree".into(),
            branch: "feat/x".into(),
        },
        &mut opened,
    );
    assert_eq!(placed.dir, "/work/tree");
    assert_eq!(
        opened.session_of_worktree("/work/tree"),
        Some("t-1".to_string())
    );

    let equipped = placed.equip("/runs", "/runs/demo-1/scratch/7-0");
    assert_eq!(equipped.inherited(), Inherited::Held("a=b".to_string()));
    let stamp = equipped
        .stamp("a-project")
        .expect("a node is named")
        .expect("a run's dispatch is stamped");
    assert_eq!(stamp.run, "demo-1");
    assert_eq!(stamp.project.as_deref(), Some("a-project"));
    assert_eq!(
        stamp.launched,
        StampedAs::Node {
            node: "service".into(),
            step: None,
            attempt: 3
        }
    );
    assert_eq!(
        equipped.stamp("").expect("a node is named").expect("stamped").project,
        None
    );

    let (graph, pending) = equipped.ready(vec![(LABELS_ENV.to_string(), "a=b,run=x".to_string())]);
    assert_eq!(graph.dir, "/work/tree");
    assert_eq!(
        graph.sets,
        ["members.worker.model=m", "members.worker.persona=engineer"]
    );
    let keys: Vec<&str> = graph.env.iter().map(|(key, _)| key.as_str()).collect();
    assert_eq!(
        keys,
        [
            LABELS_ENV,
            "ONEPIPELINE_RUN_ID",
            "ONEPIPELINE_RUNS_DIR",
            SESSION_ENV,
            "ONEPIPELINE_ASKER",
            NODE_SCRATCH_DIR_ENV,
            LABELS_ENV,
        ]
    );
    let entry = pending
        .register_dispatch(None, 7)
        .expect("a run's node is registered");
    assert_eq!((entry.run.as_str(), entry.node.as_str(), entry.pid), ("demo-1", "service", 7));
    assert_eq!(pending.register_dispatch(Some(9), 7).map(|e| e.pid), Some(9));

    let running = match pending.registered(Ok(Some(DispatchClaim {
        path: "/p".into(),
        started: "s".into(),
    }))) {
        Started::Running(running) => running,
        Started::Abandoned(why) => panic!("a registered dispatch was abandoned: {why:?}"),
    };
    let opened_event = envelope("vcs", 1);
    let relayed = vec![envelope("graph", 1), envelope("graph", 2)];
    let events = running.events(Some(opened_event), relayed);
    let streams: Vec<&str> = events.iter().map(|event| event.stream.as_str()).collect();
    assert_eq!(streams, ["vcs", "graph", "graph"]);
    let outcome = running.wait(GraphEnd {
        succeeded: true,
        stderr: "  said\n".into(),
    });
    assert_eq!(
        outcome,
        DispatchOutcome {
            succeeded: true,
            detail: "said".into(),
            session: Some("t-1".into()),
            branch: Some("feat/x".into()),
        }
    );
    assert!(!running.cancel(CancelMode::Cooperative));
    assert!(cancel.is_cancelled(), "a cooperative stop raises the signal");
    assert!(running.cancel(CancelMode::Kill));
}

fn envelope(stream: &str, seq: u64) -> Envelope {
    Envelope {
        v: 1,
        ts: "2026-01-01T00:00:00Z".into(),
        stream: stream.into(),
        seq,
        source: Source::Vcs,
        kind: EventKind("session-opened".into()),
        labels: Labels::default(),
        payload: Vec::new(),
        artifacts: Vec::new(),
    }
}

#[test]
fn a_dispatch_outside_a_run_reads_nothing_stamps_nothing_and_registers_nothing() {
    let opened = Opened::new();
    let asked = LocalExecutor.dispatch(request(
        Labels::default(),
        WorkspaceSpec::Path("/work".into()),
    ));
    assert_eq!(asked.launched_with("/runs"), None);
    let composed = asked.composed(None).expect("nothing about it is wrong");
    assert!(composed.hook(&opened).is_none());
    let placed = match composed.place(Vec::new(), &opened) {
        Placing::In(placed) => placed,
        Placing::Open(_) => panic!("a path is where the dispatch runs as it stands"),
    };
    let equipped = placed.equip("/runs", "/s");
    assert_eq!(equipped.inherited(), Inherited::Unstamped);
    assert_eq!(equipped.stamp(""), Ok(None));
    let (graph, pending) = equipped.ready(Vec::new());
    assert_eq!(graph.dir, "/work");
    assert!(graph.filter.is_none());
    assert!(pending.register_dispatch(Some(9), 7).is_none());
    match pending.registered(Err(Error::Refused("not today".into()))) {
        Started::Abandoned(why) => assert_eq!(why.message(), "not today"),
        Started::Running(_) => panic!("a refused registration left its graph running"),
    }
}

#[test]
fn a_dispatch_inside_a_run_that_names_no_node_cannot_be_stamped() {
    let opened = Opened::new();
    let composed = LocalExecutor
        .dispatch(request(
            labels(Some("demo-1"), None, None),
            WorkspaceSpec::Path("/work".into()),
        ))
        .composed(Some(launch("s", &[])))
        .expect("the overrides compose");
    assert!(composed.hook(&opened).is_none());
    let placed = match composed.place(Vec::new(), &opened) {
        Placing::In(placed) => placed,
        Placing::Open(_) => panic!("a path is where the dispatch runs as it stands"),
    };
    let equipped = placed.equip("/runs", "/s");
    assert_eq!(equipped.inherited(), Inherited::FromProcess);
    assert_eq!(
        equipped.stamp("").unwrap_err().message(),
        "a dispatch inside run 'demo-1' names no node, so it cannot be stamped"
    );
}

#[test]
fn the_drafting_dispatch_is_stamped_as_the_drafting_one() {
    let opened = Opened::new();
    let composed = LocalExecutor
        .dispatch(request(
            labels(Some("demo-1"), Some("service"), Some(PR_AUTHOR_PERSONA)),
            WorkspaceSpec::Path("/work".into()),
        ))
        .composed(Some(launch("s", &["members.worker.model=m"])))
        .expect("the overrides compose");
    assert!(composed.sets.is_empty());
    let placed = match composed.place(Vec::new(), &opened) {
        Placing::In(placed) => placed,
        Placing::Open(_) => panic!("a path is where the dispatch runs as it stands"),
    };
    let stamp = placed.equip("/runs", "/s").stamp("").expect("a node is named");
    assert_eq!(
        stamp.map(|stamp| stamp.launched),
        Some(StampedAs::PrAuthor {
            node: "service".into(),
            attempt: 1
        })
    );
    assert_eq!(DispatchOutcome::default().detail, "");
}

#[test]
fn a_host_has_room_for_its_cores_less_what_is_busy() {
    assert_eq!(slots_free(8, 3), 5);
    assert_eq!(slots_free(8, 8), 0);
    assert_eq!(slots_free(2, 9), 0);
    assert_eq!(slots_free(u64::MAX, 0), u32::MAX);
}

#[test]
fn available_memory_is_read_off_its_own_line() {
    let account = "MemTotal:       16 kB\nMemFree: 4 kB\nMemAvailable:   12 kB\n";
    assert_eq!(available_memory(Some(account)), Some(12 * 1024));
    assert_eq!(available_memory(Some("MemTotal: 16 kB\n")), None);
    assert_eq!(available_memory(Some("MemAvailable:\nMemAvailable: 1 kB\n")), None);
    assert_eq!(available_memory(Some("MemAvailable: lots\n")), None);
    assert_eq!(
        available_memory(Some("MemAvailable: 18446744073709551615 kB\n")),
        None
    );
    assert_eq!(available_memory(None), None);
}
