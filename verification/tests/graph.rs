//! The graph: what a plan is validated as, and what a node's status derives to.
use onepipeline::graph::{
    is_terminal, skipped_by, state_of, unblocks, validate, validate_edited, validate_node, Graph,
    GraphState, Landing, NodeRef, NodeStatus, Statuses,
};
use onepipeline::plan::{
    Goal, Node, NodeKind, Plan, Step, PLAN_SCHEMA_VERSION, PLAN_SCHEMA_VERSIONS_READ,
};
use onevcs::provenance::SUBJECT_LIMIT;

#[test]
fn a_node_identity_comes_from_a_node_and_a_blank_id_is_not_one() {
    let named = Node {
        id: "  service  ".into(),
        ..Node::default()
    };
    assert_eq!(
        NodeRef::of(&named).as_ref().map(NodeRef::as_str),
        Some("service"),
        "an identity is the node's own id, trimmed"
    );
    for blank in ["", "   ", "\t\n"] {
        let unnamed = Node {
            id: blank.into(),
            ..Node::default()
        };
        assert_eq!(
            NodeRef::of(&unnamed),
            None,
            "a node with no id yielded an identity: {blank:?}"
        );
    }
    // And the same refusal, from the check this type carries past:
    // `validate` is where a blank id is turned away in the first place.
    let plan = Plan {
        schema_version: PLAN_SCHEMA_VERSION,
        name: Some("blank".into()),
        concurrency: 1,
        goal: None,
        tasks: vec![Node {
            id: " ".into(),
            task: Some("## What\nwork".into()),
            persona: Some("engineer".into()),
            ..Node::default()
        }],
    };
    assert!(validate(&plan).is_err(), "a blank node id was accepted");
}

#[test]
fn a_status_serialises_as_the_word_it_is_written_and_read_as() {
    for status in [
        NodeStatus::Pending,
        NodeStatus::Ready,
        NodeStatus::Running,
        NodeStatus::Waiting,
        NodeStatus::Blocked,
        NodeStatus::Parked,
        NodeStatus::Cancelled,
        NodeStatus::Done,
        NodeStatus::Failed,
        NodeStatus::Skipped,
    ] {
        let json = serde_json::to_string(status.as_str()).expect("a status serialises");
        assert_eq!(json, format!("\"{}\"", status.as_str()));
        assert_eq!(NodeStatus::parse(status.as_str()), Some(status));
        assert_eq!(
            NodeStatus::parse(&serde_json::from_str::<String>(&json).expect("it reads back")),
            Some(status)
        );
    }
}

#[test]
fn a_graph_state_serialises_as_the_word_it_is_rendered_as() {
    for state in [
        GraphState::Complete,
        GraphState::Waiting,
        GraphState::Failed,
    ] {
        let json = serde_json::to_string(state.as_str()).expect("a state serialises");
        assert_eq!(json, format!("\"{}\"", state.as_str()));
        assert_eq!(
            serde_json::from_str::<String>(&json).expect("it reads back"),
            state.as_str()
        );
    }
}

fn agent(id: &str, deps: &[&str]) -> Node {
    Node {
        id: id.into(),
        persona: Some("engineer".into()),
        task: Some("## What\ndo it".into()),
        deps: deps.iter().map(|d| (*d).to_string()).collect(),
        ..Node::default()
    }
}

fn human(id: &str, deps: &[&str]) -> Node {
    Node {
        id: id.into(),
        kind: NodeKind::Human,
        task: Some("approve it".into()),
        deps: deps.iter().map(|d| (*d).to_string()).collect(),
        ..Node::default()
    }
}

fn plan_of(tasks: Vec<Node>) -> Plan {
    Plan {
        schema_version: PLAN_SCHEMA_VERSION,
        goal: None,
        name: Some("test".into()),
        concurrency: 4,
        tasks,
    }
}

fn no_cross_dag() -> Statuses {
    Statuses::new()
}

fn at(statuses: &Statuses, id: &str) -> NodeStatus {
    *statuses
        .get(id)
        .unwrap_or_else(|| panic!("no status for {id}"))
}

#[test]
fn a_legal_mixed_plan_validates() {
    let plan = plan_of(vec![
        agent("build", &[]),
        human("approve", &["build"]),
        Node {
            id: "publish".into(),
            repo: Some("owner/repo".into()),
            persona: Some("engineer".into()),
            task: Some("## What\nship".into()),
            title: Some("feat: ship it".into()),
            deps: vec!["approve".into()],
            ..Node::default()
        },
    ]);
    validate(&plan).expect("the plan is legal");
}

#[test]
fn a_self_edge_and_a_cycle_are_both_refused() {
    let mut plan = plan_of(vec![agent("a", &["a"])]);
    let message = validate(&plan).unwrap_err().message();
    assert!(message.contains("depends on itself"), "{message}");

    plan = plan_of(vec![agent("a", &["b"]), agent("b", &["a"])]);
    let message = validate(&plan).unwrap_err().message();
    assert!(message.contains("cycle"), "{message}");
}

#[test]
fn a_deep_chain_does_not_overflow_the_cycle_walk() {
    let mut tasks: Vec<Node> = Vec::new();
    for index in 0..20_000u32 {
        let deps: Vec<&str> = Vec::new();
        let mut node = agent(&format!("n{index}"), &deps);
        if index > 0 {
            node.deps = vec![format!("n{}", index - 1)];
        }
        tasks.push(node);
    }
    validate(&plan_of(tasks)).expect("a 20k-node chain is legal");
}

#[test]
fn a_dangling_dependency_is_refused_but_a_cross_dag_one_is_not() {
    let plan = plan_of(vec![agent("a", &["nowhere"])]);
    let message = validate(&plan).unwrap_err().message();
    assert!(message.contains("not in the plan"), "{message}");

    let plan = plan_of(vec![agent("a", &["run:other#build"])]);
    validate(&plan).expect("a cross-DAG reference is not a missing node");
}

#[test]
fn every_node_shape_rule_the_contract_states_is_enforced() {
    let cases: &[(Node, &str)] = &[
        (
            Node {
                id: "no-persona".into(),
                task: Some("t".into()),
                ..Node::default()
            },
            "needs a persona",
        ),
        (
            Node {
                id: "with/slash".into(),
                kind: NodeKind::Human,
                task: Some("t".into()),
                ..Node::default()
            },
            "cannot contain '/'",
        ),
        (
            Node {
                id: "human-persona".into(),
                kind: NodeKind::Human,
                task: Some("t".into()),
                persona: Some("engineer".into()),
                ..Node::default()
            },
            "no persona or turn budget",
        ),
        (
            Node {
                id: "human-context".into(),
                kind: NodeKind::Human,
                task: Some("t".into()),
                context: Some("a note".into()),
                ..Node::default()
            },
            "has none",
        ),
        (
            Node {
                id: "nodiff-persona".into(),
                expects_no_diff: true,
                task: Some("t".into()),
                persona: Some("engineer".into()),
                ..Node::default()
            },
            "takes no persona or turn budget",
        ),
        (
            Node {
                id: "steps-no-repo".into(),
                steps: Some(vec![Step {
                    id: "one".into(),
                    persona: Some("engineer".into()),
                    task: Some("t".into()),
                    ..Step::default()
                }]),
                ..Node::default()
            },
            "need a repo",
        ),
        (
            Node {
                id: "steps-and-task".into(),
                repo: Some("o/r".into()),
                task: Some("t".into()),
                steps: Some(vec![Step {
                    id: "one".into(),
                    persona: Some("engineer".into()),
                    task: Some("t".into()),
                    ..Step::default()
                }]),
                ..Node::default()
            },
            "takes its persona, task, and turn budget from them",
        ),
        (
            Node {
                id: "step-no-persona".into(),
                repo: Some("o/r".into()),
                steps: Some(vec![Step {
                    id: "one".into(),
                    task: Some("t".into()),
                    ..Step::default()
                }]),
                ..Node::default()
            },
            "needs a persona",
        ),
        (
            Node {
                id: "human-budget".into(),
                kind: NodeKind::Human,
                task: Some("t".into()),
                max_turns: Some(45),
                ..Node::default()
            },
            "no persona or turn budget",
        ),
        (
            Node {
                id: "nodiff-budget".into(),
                expects_no_diff: true,
                task: Some("t".into()),
                max_turns: Some(45),
                ..Node::default()
            },
            "takes no persona or turn budget",
        ),
        (
            Node {
                id: "steps-and-budget".into(),
                repo: Some("o/r".into()),
                max_turns: Some(45),
                steps: Some(vec![Step {
                    id: "one".into(),
                    persona: Some("engineer".into()),
                    task: Some("t".into()),
                    ..Step::default()
                }]),
                ..Node::default()
            },
            "takes its persona, task, and turn budget from them",
        ),
        (
            Node {
                id: "human-step-budget".into(),
                repo: Some("o/r".into()),
                steps: Some(vec![Step {
                    id: "sign-off".into(),
                    kind: NodeKind::Human,
                    task: Some("t".into()),
                    max_turns: Some(45),
                    ..Step::default()
                }]),
                ..Node::default()
            },
            "no persona, turn budget, or expects_no_diff",
        ),
        (
            Node {
                id: "step-cycle".into(),
                repo: Some("o/r".into()),
                steps: Some(vec![Step {
                    id: "one".into(),
                    persona: Some("engineer".into()),
                    task: Some("t".into()),
                    deps: vec!["one".into()],
                    ..Step::default()
                }]),
                ..Node::default()
            },
            "depends on itself",
        ),
    ];
    for (node, expected) in cases {
        let message = validate_node(node).unwrap_err().message();
        assert!(
            message.contains(expected),
            "node '{}': expected {expected:?} in {message:?}",
            node.id
        );
    }
}

#[test]
fn a_title_the_publication_would_refuse_is_refused_before_anything_is_dispatched() {
    let titled = |title: &str| Node {
        title: Some(title.to_owned()),
        repo: Some("owner/repo".into()),
        ..agent("publish", &[])
    };

    let over = "t".repeat(SUBJECT_LIMIT + 1);
    let message = validate(&plan_of(vec![titled(&over)]))
        .unwrap_err()
        .message();
    assert!(message.contains("node 'publish'"), "{message}");
    assert!(
        message.contains(&format!("{} characters", SUBJECT_LIMIT + 1)),
        "the refusal does not say how long the title is: {message}"
    );
    assert!(
        message.contains(&format!("{SUBJECT_LIMIT}-character limit")),
        "the refusal does not name the limit: {message}"
    );

    validate(&plan_of(vec![titled(&"t".repeat(SUBJECT_LIMIT))]))
        .expect("a title at the limit is publishable, so the plan is legal");

    validate(&plan_of(vec![titled(&format!(
        "  {}  ",
        "t".repeat(SUBJECT_LIMIT)
    ))]))
    .expect("the surrounding spacing was counted against the limit");

    let message = validate(&plan_of(vec![titled("   ")]))
        .unwrap_err()
        .message();
    assert!(message.contains("node 'publish'"), "{message}");
    assert!(message.contains("blank"), "{message}");

    // A node that names no repository publishes nothing, so its title is
    // read by no one and is held to no publication's rule.
    validate(&plan_of(vec![Node {
        title: Some(over),
        ..agent("direct", &[])
    }]))
    .expect("a title on a node that never publishes was held to the publication's limit");
}

#[test]
fn a_title_a_planner_would_actually_write_is_left_alone() {
    // 100 characters — a real subject, not a fixture built out of the bound.
    let title = "feat(plan): refuse a node title that the publication would not commit under, \
                 before it is dispatched";
    assert!(
        title.len() < SUBJECT_LIMIT,
        "this is only an ordinary title while it is inside the bound: {} characters",
        title.len()
    );

    validate(&plan_of(vec![Node {
        title: Some(title.to_owned()),
        repo: Some("owner/repo".into()),
        ..agent("publish", &[])
    }]))
    .expect("an ordinary title was refused");
}

#[test]
fn every_version_this_build_reads_validates_and_no_other_does() {
    for version in PLAN_SCHEMA_VERSIONS_READ {
        let mut plan = plan_of(vec![agent("a", &[])]);
        plan.schema_version = version;
        validate(&plan)
            .unwrap_or_else(|why| panic!("a version {version} plan is a document: {why:?}"));
    }

    let mut unknown = plan_of(vec![agent("a", &[])]);
    unknown.schema_version = 99;
    let message = validate(&unknown).unwrap_err().message();
    assert!(message.contains("schema_version 99"), "{message}");
    for version in PLAN_SCHEMA_VERSIONS_READ {
        assert!(
            message.contains(&version.to_string()),
            "the refusal does not name version {version}, which this build reads: {message}"
        );
    }
}

#[test]
fn the_plan_envelope_itself_is_validated() {
    let mut plan = plan_of(vec![agent("a", &[])]);
    plan.schema_version = 99;
    assert!(validate(&plan)
        .unwrap_err()
        .message()
        .contains("schema_version"));

    let mut plan = plan_of(vec![agent("a", &[])]);
    plan.concurrency = 0;
    assert!(validate(&plan)
        .unwrap_err()
        .message()
        .contains("concurrency"));

    let mut plan = plan_of(vec![]);
    plan.tasks = vec![];
    assert!(validate(&plan)
        .unwrap_err()
        .message()
        .contains("at least one node"));

    let mut plan = plan_of(vec![agent("a", &[]), agent("a", &[])]);
    plan.tasks[1].id = "a".into();
    assert!(validate(&plan)
        .unwrap_err()
        .message()
        .contains("duplicate"));

    let mut plan = plan_of(vec![agent("a", &[])]);
    plan.goal = Some(Goal { text: "  ".into() });
    assert!(validate(&plan)
        .unwrap_err()
        .message()
        .contains("non-empty text"));
}

#[test]
fn a_ready_frontier_is_everything_whose_dependencies_are_done() {
    let graph = Graph::from_plan(&plan_of(vec![
        agent("a", &[]),
        agent("b", &[]),
        agent("c", &["a", "b"]),
    ]));
    let mut recorded = Statuses::new();
    recorded.insert("a".to_string(), NodeStatus::Done);

    let statuses = onepipeline::graph::derive(&graph, &recorded, &no_cross_dag());
    assert_eq!(at(&statuses, "a"), NodeStatus::Done);
    assert_eq!(at(&statuses, "b"), NodeStatus::Ready);
    assert_eq!(at(&statuses, "c"), NodeStatus::Pending);
}

#[test]
fn a_waiting_human_blocks_and_a_failure_skips_the_same_descendant() {
    let graph = Graph::from_plan(&plan_of(vec![
        agent("build", &[]),
        human("approve", &["build"]),
        agent("ship", &["approve"]),
    ]));
    let mut recorded = Statuses::new();
    recorded.insert("build".to_string(), NodeStatus::Done);
    let statuses = onepipeline::graph::derive(&graph, &recorded, &no_cross_dag());
    assert_eq!(at(&statuses, "approve"), NodeStatus::Waiting);
    assert_eq!(at(&statuses, "ship"), NodeStatus::Blocked);
    assert_eq!(state_of(&statuses), GraphState::Waiting);

    // Failure takes precedence over a simultaneous waiting path.
    let graph = Graph::from_plan(&plan_of(vec![
        agent("build", &[]),
        human("approve", &[]),
        agent("ship", &["approve", "build"]),
    ]));
    let mut recorded = Statuses::new();
    recorded.insert("build".to_string(), NodeStatus::Failed);
    let statuses = onepipeline::graph::derive(&graph, &recorded, &no_cross_dag());
    assert_eq!(at(&statuses, "approve"), NodeStatus::Waiting);
    assert_eq!(at(&statuses, "ship"), NodeStatus::Skipped);
    assert_eq!(state_of(&statuses), GraphState::Failed);
}

#[test]
fn a_failure_outranks_a_hold_whatever_order_the_plan_wrote() {
    let nodes = || {
        vec![
            human("w", &[]),
            agent("c", &["w", "x"]),
            agent("x", &["f"]),
            agent("f", &[]),
        ]
    };
    let mut recorded = Statuses::new();
    recorded.insert("f".to_string(), NodeStatus::Failed);
    let mut plans = vec![nodes()];
    plans.push(nodes().into_iter().rev().collect());
    let mut turned = nodes();
    turned.rotate_left(2);
    plans.push(turned);
    for plan in plans {
        let graph = Graph::from_plan(&plan_of(plan));
        let statuses = onepipeline::graph::derive(&graph, &recorded, &no_cross_dag());
        assert_eq!(at(&statuses, "w"), NodeStatus::Waiting);
        assert_eq!(at(&statuses, "c"), NodeStatus::Skipped);
        assert_eq!(at(&statuses, "x"), NodeStatus::Skipped);
        assert_eq!(at(&statuses, "f"), NodeStatus::Failed);
        assert_eq!(
            skipped_by(&graph, &statuses, "c"),
            vec![("x".to_string(), NodeStatus::Skipped)]
        );
    }
}

#[test]
fn a_parked_node_blocks_its_dependents_rather_than_skipping_them() {
    let mut parked = agent("sweep", &[]);
    parked.parked = true;
    let graph = Graph::from_plan(&plan_of(vec![parked, agent("after", &["sweep"])]));
    let statuses = onepipeline::graph::derive(&graph, &Statuses::new(), &no_cross_dag());
    assert_eq!(at(&statuses, "sweep"), NodeStatus::Parked);
    assert_eq!(at(&statuses, "after"), NodeStatus::Blocked);
    assert_eq!(state_of(&statuses), GraphState::Waiting);
    assert!(is_terminal(&statuses));
}

#[test]
fn a_recorded_gate_is_discarded_and_re_derived() {
    // The journal recorded `blocked` while a human waited. The human has
    // since been attested, so the same node must re-derive to ready.
    let graph = Graph::from_plan(&plan_of(vec![
        human("approve", &[]),
        agent("ship", &["approve"]),
    ]));
    let mut recorded = Statuses::new();
    recorded.insert("ship".to_string(), NodeStatus::Blocked);
    recorded.insert("approve".to_string(), NodeStatus::Done);
    let statuses = onepipeline::graph::derive(&graph, &recorded, &no_cross_dag());
    assert_eq!(at(&statuses, "ship"), NodeStatus::Ready);
}

#[test]
fn an_unresolved_cross_dag_reference_blocks_its_consumer() {
    let graph = Graph::from_plan(&plan_of(vec![agent("consume", &["run:other#build"])]));
    let statuses = onepipeline::graph::derive(&graph, &Statuses::new(), &no_cross_dag());
    assert_eq!(at(&statuses, "consume"), NodeStatus::Blocked);

    let mut done = Statuses::new();
    done.insert("run:other#build".to_string(), NodeStatus::Done);
    let statuses = onepipeline::graph::derive(&graph, &Statuses::new(), &done);
    assert_eq!(at(&statuses, "consume"), NodeStatus::Ready);

    let mut failed = Statuses::new();
    failed.insert("run:other#build".to_string(), NodeStatus::Failed);
    let statuses = onepipeline::graph::derive(&graph, &Statuses::new(), &failed);
    assert_eq!(at(&statuses, "consume"), NodeStatus::Skipped);
}

#[test]
fn every_skipped_node_names_the_dependencies_that_skipped_it() {
    let graph = Graph::from_plan(&plan_of(vec![
        agent("build", &[]),
        agent("lint", &[]),
        agent("ship", &["build", "lint"]),
        agent("announce", &["ship"]),
    ]));
    let mut recorded = Statuses::new();
    recorded.insert("build".to_string(), NodeStatus::Failed);
    let statuses = onepipeline::graph::derive(&graph, &recorded, &no_cross_dag());

    assert_eq!(at(&statuses, "ship"), NodeStatus::Skipped);
    assert_eq!(at(&statuses, "announce"), NodeStatus::Skipped);
    assert_eq!(
        skipped_by(&graph, &statuses, "ship"),
        vec![("build".to_string(), NodeStatus::Failed)]
    );
    assert_eq!(
        skipped_by(&graph, &statuses, "announce"),
        vec![("ship".to_string(), NodeStatus::Skipped)]
    );
    assert!(skipped_by(&graph, &statuses, "lint").is_empty());
    assert!(skipped_by(&graph, &statuses, "nowhere").is_empty());

    // A park outranks the derived gates, so this node is not skipped — and
    // is handed no reason for a skip it is not being held by.
    let mut parked = agent("sweep", &["build"]);
    parked.parked = true;
    let graph = Graph::from_plan(&plan_of(vec![agent("build", &[]), parked]));
    let statuses = onepipeline::graph::derive(&graph, &recorded, &no_cross_dag());
    assert_eq!(at(&statuses, "sweep"), NodeStatus::Parked);
    assert!(skipped_by(&graph, &statuses, "sweep").is_empty());
}

#[test]
fn a_dropped_dependency_detaches_rather_than_blocking() {
    let mut graph = Graph::from_plan(&plan_of(vec![agent("a", &[]), agent("b", &["a"])]));
    graph.remove("a");
    let statuses = onepipeline::graph::derive(&graph, &Statuses::new(), &no_cross_dag());
    assert_eq!(at(&statuses, "b"), NodeStatus::Ready);
}

#[test]
fn a_complete_graph_is_complete_and_exits_zero() {
    let graph = Graph::from_plan(&plan_of(vec![agent("a", &[])]));
    let mut recorded = Statuses::new();
    recorded.insert("a".to_string(), NodeStatus::Done);
    let statuses = onepipeline::graph::derive(&graph, &recorded, &no_cross_dag());
    assert_eq!(state_of(&statuses), GraphState::Complete);
    assert_eq!(GraphState::Complete.exit_code(), 0);
    assert_eq!(GraphState::Waiting.exit_code(), 1);
    assert_eq!(GraphState::Failed.exit_code(), 1);
}

#[test]
fn a_graph_still_running_has_not_settled() {
    let graph = Graph::from_plan(&plan_of(vec![agent("a", &[])]));
    let mut recorded = Statuses::new();
    recorded.insert("a".to_string(), NodeStatus::Running);
    let statuses = onepipeline::graph::derive(&graph, &recorded, &no_cross_dag());
    assert!(!is_terminal(&statuses));
    assert_eq!(state_of(&statuses), GraphState::Waiting);
}

#[test]
fn statuses_round_trip_through_their_written_word() {
    for status in [
        NodeStatus::Pending,
        NodeStatus::Ready,
        NodeStatus::Running,
        NodeStatus::Waiting,
        NodeStatus::Blocked,
        NodeStatus::Parked,
        NodeStatus::Cancelled,
        NodeStatus::Done,
        NodeStatus::Failed,
        NodeStatus::Skipped,
    ] {
        assert_eq!(NodeStatus::parse(status.as_str()), Some(status));
    }
    assert_eq!(NodeStatus::parse("invented"), None);
}

#[test]
fn a_landing_round_trips_through_its_word_and_an_unknown_one_is_no_landing() {
    for landing in [Landing::Landed, Landing::Unlanded] {
        assert_eq!(Landing::parse(landing.as_str()), Some(landing));
        let value = serde_json::Value::String(landing.as_str().to_string());
        assert_eq!(
            value.as_str().and_then(Landing::parse),
            Some(landing),
            "the rendered word reads back"
        );
    }
    for unreadable in ["", "invented", "done", "merged", "Landed"] {
        assert_eq!(
            Landing::parse(unreadable),
            None,
            "{unreadable:?} was read as a landing this build understands"
        );
    }
    // And it is not a status: a reader handed one of these words where the
    // other belongs gets nothing, rather than the neighbouring meaning.
    assert_eq!(NodeStatus::parse(Landing::Landed.as_str()), None);
    assert_eq!(Landing::parse(NodeStatus::Done.as_str()), None);
}

#[test]
fn a_graph_keeps_the_order_the_plan_wrote_and_reports_dependents() {
    let mut graph = Graph::from_plan(&plan_of(vec![
        agent("first", &[]),
        agent("second", &["first"]),
    ]));
    graph.insert(agent("third", &["first"]));
    assert_eq!(
        graph.ids().clone(),
        vec!["first", "second", "third"]
    );
    assert_eq!(unblocks(&graph, "first"), vec!["second", "third"]);
    assert_eq!(graph.len(), 3);
    assert!(!graph.is_empty());

    // Replacing a node in place keeps its position.
    graph.insert(agent("second", &[]));
    assert_eq!(
        graph.ids().clone(),
        vec!["first", "second", "third"]
    );
    assert!(graph.get_mut("second").is_some());
    assert_eq!(graph.remove("second").map(|n| n.id), Some("second".into()));
    assert!(!graph.contains("second"));
    assert!(Graph::default().is_empty());
}

#[test]
fn consumes_naming_something_this_node_does_not_depend_on_is_refused() {
    let named = |on: &str| {
        let mut node = agent("consumer", &["engine"]);
        node.consumes.push((on.to_string(), "crate".to_string()));
        plan_of(vec![agent("engine", &[]), node])
    };
    let refusal = validate(&named("packager")).unwrap_err().message();
    assert!(
        refusal.contains("node 'consumer'")
            && refusal.contains("`consumes` names 'packager'")
            && refusal.contains("not one of this node's deps"),
        "{refusal}"
    );
    // The dependency it does name is legal, and so is a cross-DAG one.
    validate(&named("engine")).expect("a target for a dependency it has");
    let mut across = agent("consumer", &["run:other#upstream"]);
    across
        .consumes
        .push(("run:other#upstream".to_string(), "crate".to_string()));
    validate(&plan_of(vec![across])).expect("a target for a cross-DAG dependency");
}

#[test]
fn a_graph_renders_back_as_the_plan_it_came_from() {
    let source = plan_of(vec![agent("a", &[])]);
    let graph = Graph::from_plan(&source);
    let round_trip = graph.to_plan(&source);
    assert_eq!(round_trip, source);
}

#[test]
fn an_edit_may_empty_the_graph_and_a_launch_may_not() {
    assert_eq!(validate_edited(&plan_of(vec![])), Ok(()));
    assert_eq!(
        validate(&plan_of(vec![])).unwrap_err().message(),
        "a plan needs at least one node"
    );
}

#[test]
fn a_cycle_is_named_by_the_nodes_along_it() {
    let plan = plan_of(vec![
        agent("a", &["c"]),
        agent("b", &["a"]),
        agent("c", &["b"]),
    ]);
    let message = validate(&plan).unwrap_err().message();
    let walk: Vec<&str> = message
        .strip_prefix("dependency cycle: ")
        .expect("the refusal says what it is")
        .split(" -> ")
        .collect();
    assert_eq!(walk, ["a", "c", "b", "a"]);
}

#[test]
fn of_two_cycles_the_first_is_named() {
    let plan = plan_of(vec![
        agent("lone", &[]),
        agent("a", &["lone", "d", "b"]),
        agent("b", &["c"]),
        agent("c", &["b"]),
        agent("d", &["lone", "e"]),
        agent("e", &["d"]),
    ]);
    assert_eq!(
        validate(&plan).unwrap_err().message(),
        "dependency cycle: d -> e -> d"
    );
}

#[test]
fn the_drafting_persona_is_no_nodes_own() {
    let mut node = agent("a", &[]);
    node.persona = Some("pr-author".into());
    let message = validate_node(&node).unwrap_err().message();
    assert!(message.starts_with("node 'a': `pr-author` is the persona"), "{message}");
}

#[test]
fn a_malformed_cross_dag_reference_is_refused_by_its_syntax() {
    let message = validate(&plan_of(vec![agent("a", &["run:other"])]))
        .unwrap_err()
        .message();
    assert!(message.contains("malformed cross-DAG reference"), "{message}");
}

#[test]
fn an_untitled_lifecycle_node_is_refused_at_the_version_that_asks_for_titles() {
    let untitled = || Node {
        repo: Some("owner/repo".into()),
        ..agent("publish", &[])
    };
    let message = validate(&plan_of(vec![untitled()])).unwrap_err().message();
    assert!(message.contains("needs a `title`"), "{message}");
    let mut earlier = plan_of(vec![untitled()]);
    earlier.schema_version = 1;
    assert_eq!(validate(&earlier), Ok(()));
}

#[test]
fn a_zero_turn_budget_is_refused() {
    let mut node = agent("a", &[]);
    node.max_turns = Some(0);
    let message = validate_node(&node).unwrap_err().message();
    assert!(message.contains("`max_turns` is 0"), "{message}");
}

#[test]
fn every_node_of_a_graph_has_a_status_and_every_recorded_one_stands() {
    let graph = Graph::from_plan(&plan_of(vec![
        agent("a", &[]),
        agent("b", &["a"]),
        human("c", &["b"]),
    ]));
    let mut recorded = Statuses::new();
    recorded.insert("a".to_string(), NodeStatus::Running);
    let statuses = onepipeline::graph::derive(&graph, &recorded, &no_cross_dag());
    assert_eq!(statuses.len(), graph.len());
    assert_eq!(at(&statuses, "a"), NodeStatus::Running);
    assert_eq!(at(&statuses, "b"), NodeStatus::Pending);
    assert_eq!(at(&statuses, "c"), NodeStatus::Pending);
}

#[test]
fn a_draft_waiting_on_a_release_has_a_word_of_its_own() {
    assert_eq!(NodeStatus::CompleteDraft.as_str(), "complete-but-draft");
    assert_eq!(
        NodeStatus::parse("complete-but-draft"),
        Some(NodeStatus::CompleteDraft)
    );
    assert!(!NodeStatus::CompleteDraft.is_settled());
    assert!(NodeStatus::Failed.is_dispatchable());
    assert!(!NodeStatus::Done.is_dispatchable());
}

#[test]
fn a_graphs_own_ceiling_is_what_its_plan_is_rendered_with() {
    let source = plan_of(vec![agent("a", &[])]);
    let mut graph = Graph::with_concurrency(9);
    graph.insert(agent("z", &[]));
    let plan = graph.to_plan(&source);
    assert_eq!(plan.concurrency, 9);
    assert_eq!(plan.tasks.len(), 1);
    assert_eq!(plan.name, source.name);
}
