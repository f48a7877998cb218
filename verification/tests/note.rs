//! A manager's note: where it lands, what stands for a node, and who was shown it.
use onepipeline::event::{Envelope, EventKind, Labels, PipelineKind, Source, ENVELOPE_VERSION};
use onepipeline::journal::labels;
use onepipeline::json::{render, Json};
use onepipeline::note::{
    deliver, deliver_with, of_parts, payload_of, standing, Accepted, Addressee, Consumed, Deliver,
    NoteRecord, NoteRefused, Operation, Party, Presentations, Reach, Reached, Shown, Standing,
    CARRIED_KEY,
};

fn record(kind: PipelineKind, seq: u64, node: Option<&str>) -> NoteRecord {
    NoteRecord {
        kind: kind.as_str().into(),
        stream: "s".into(),
        seq,
        source: Source::Pipeline,
        node: node.map(str::to_string),
        carried: None,
        operations: None,
    }
}

fn consumed(text: &str, reached: Reached) -> Consumed {
    Consumed {
        addressee: Addressee::Both,
        text: text.into(),
        criterion: None,
        reached,
    }
}

fn delivered(seq: u64, node: &str, text: &str, reached: Reached) -> NoteRecord {
    NoteRecord {
        operations: Some(Ok(vec![Operation::NoteDelivered {
            node: node.into(),
            note: consumed(text, reached),
        }])),
        ..record(PipelineKind::EditCommitted, seq, None)
    }
}

fn texts(notes: &[Consumed]) -> Vec<&str> {
    notes.iter().map(|note| note.text.as_str()).collect()
}

#[test]
fn what_stands_for_a_node_starts_at_its_last_dispatch_and_reads_forward() {
    let mut journal = vec![
        record(PipelineKind::NodeDispatched, 1, Some("build")),
        delivered(2, "build", "first ruling", Reached::Worker),
        // Another node's note, on an unlabelled record like every committed
        // edit: matched on the operation's own node, so it stays out.
        delivered(3, "other", "not yours", Reached::Worker),
        delivered(4, "build", "landed nowhere", Reached::Carried),
    ];
    let before = standing(&journal, "build").expect("the record reads");
    assert_eq!(texts(&before.notes()), ["first ruling", "landed nowhere"]);
    // Read by this dispatch's conversation: the one a turn took. The one
    // that landed nowhere is owed forward and not yet read by anybody.
    assert_eq!(texts(&before.read()), ["first ruling"]);

    let composed: serde_json::Value =
        serde_json::from_str(&render(&Json::List(payload_of(&before.notes())))).expect("JSON");
    assert_eq!(composed[1]["reached"], "carried");
    assert!(
        composed[0].get("shown_to").is_none(),
        "a dispatch's record claimed a presentation it has not made: {composed}"
    );

    // A continuation composed with them resets the fold to exactly them, and
    // a dispatch composed with none resets it to nothing: what an earlier
    // dispatch read is spent by the first dispatch that does not carry it.
    journal.push(NoteRecord {
        carried: Some(Ok(before.notes())),
        ..record(PipelineKind::NodeDispatched, 5, Some("build"))
    });
    journal.push(delivered(6, "build", "second ruling", Reached::Supervisor));
    let after = standing(&journal, "build").expect("the record reads");
    assert_eq!(
        texts(&after.notes()),
        ["first ruling", "landed nowhere", "second ruling"]
    );
    // The note that landed nowhere was composed into this dispatch's task,
    // so its conversation has read it: nothing is owed forward, and a
    // dispatch composed without it would spend it.
    assert_eq!(
        texts(&after.read()),
        ["first ruling", "landed nowhere", "second ruling"]
    );

    journal.push(record(PipelineKind::NodeDispatched, 7, Some("build")));
    assert_eq!(
        standing(&journal, "build").expect("the record reads"),
        Standing::default()
    );
}

#[test]
fn a_record_the_fold_cannot_read_is_refused_by_name_rather_than_read_past() {
    let carried_wrong = vec![NoteRecord {
        carried: Some(Err("a string is not a list".into())),
        ..record(PipelineKind::NodeDispatched, 1, Some("build"))
    }];
    let said = standing(&carried_wrong, "build")
        .expect_err("a string is not a list of notes")
        .message();
    assert!(
        said.contains("node-dispatched") && said.contains("s/1") && said.contains(CARRIED_KEY),
        "the refusal does not name the record or the field: {said}"
    );

    let operations_wrong = || NoteRecord {
        operations: Some(Err("unknown variant `from-the-future`".into())),
        ..record(PipelineKind::EditCommitted, 2, None)
    };
    let refused = standing(&vec![operations_wrong()], "build")
        .expect_err("an operation this build does not know is not read past")
        .message();
    assert!(
        refused.contains("`operations`"),
        "the refusal does not name the field: {refused}"
    );

    // A sibling's record is not this crate's to read, whatever it is called.
    let foreign = NoteRecord {
        source: Source::Agentgraph,
        ..operations_wrong()
    };
    assert_eq!(
        standing(&vec![foreign], "build").expect("a sibling's record is passed over"),
        Standing::default()
    );
}

#[test]
fn another_producers_dispatch_leaves_what_stands_as_it_was() {
    let journal = vec![
        record(PipelineKind::NodeDispatched, 1, Some("build")),
        delivered(2, "build", "keep this", Reached::Worker),
        NoteRecord {
            source: Source::Agentgraph,
            ..record(PipelineKind::NodeDispatched, 3, Some("build"))
        },
        // Nor is a field of it this engine's to read.
        NoteRecord {
            source: Source::Vcs,
            carried: Some(Err("a string is not a list".into())),
            ..record(PipelineKind::NodeDispatched, 4, Some("build"))
        },
        delivered(5, "build", "and this", Reached::Carried),
    ];
    let stands = standing(&journal, "build").expect("a sibling's record is passed over");
    assert_eq!(texts(&stands.notes()), ["keep this", "and this"]);
}

#[test]
fn a_node_never_dispatched_has_every_note_committed_to_it_standing() {
    let journal = vec![
        record(PipelineKind::NodeDispatched, 1, Some("other")),
        delivered(2, "build", "one", Reached::Carried),
        delivered(3, "other", "not yours", Reached::Carried),
        delivered(4, "build", "two", Reached::Carried),
    ];
    let stands = standing(&journal, "build").expect("the record reads");
    assert_eq!(texts(&stands.notes()), ["one", "two"]);
}

#[test]
fn each_disposition_tells_a_confirmed_presentation_from_a_routed_one() {
    assert!(Reached::Worker.shown_at_delivery().is_empty());
    assert_eq!(
        Reached::Worker.routed_to(),
        [Party::Worker, Party::Supervisor]
    );
    assert_eq!(Reached::Supervisor.shown_at_delivery(), [Party::Supervisor]);
    assert_eq!(Reached::Supervisor.routed_to(), [Party::Worker]);
    let judged = Reached::JudgedWith {
        completion_reason: "done".into(),
    };
    assert_eq!(judged.shown_at_delivery(), [Party::Supervisor]);
    assert!(judged.routed_to().is_empty());
    assert!(Reached::Queued.shown_at_delivery().is_empty());
    assert_eq!(
        Reached::Queued.routed_to(),
        [Party::Worker, Party::Supervisor]
    );
    assert!(Reached::Carried.shown_at_delivery().is_empty());
    assert!(Reached::Carried.routed_to().is_empty());
}

fn turn(seq: u64, at: u64, role: &str, turn: u64, origin: Option<&str>) -> (Envelope, Option<u64>) {
    let mut payload = vec![
        ("turn".to_string(), Json::Count(turn)),
        ("role".to_string(), Json::Text(role.into())),
        ("instruction".to_string(), Json::Text("do it".into())),
        ("started_at".to_string(), Json::Text(format!("{at}"))),
    ];
    if let Some(origin) = origin {
        payload.push(("origin".to_string(), Json::Text(origin.into())));
    }
    let envelope = Envelope {
        v: ENVELOPE_VERSION,
        ts: format!("{at}"),
        stream: "node-scope-1".into(),
        seq,
        source: Source::Agentgraph,
        kind: EventKind(
            oneagentgraph::event::EventKind::TurnStarted
                .as_str()
                .to_owned(),
        ),
        labels: labels("demo", Some("build")),
        payload,
        artifacts: Vec::new(),
    };
    (envelope, Some(at))
}

fn observe(watch: &mut Presentations, turn: (Envelope, Option<u64>)) -> Vec<Shown> {
    watch.observe(&turn.0, turn.1)
}

#[test]
fn a_presentation_is_recorded_when_the_stream_shows_it_and_in_the_producers_order() {
    let mut watch = Presentations::default();
    watch.routed_by_the_conversation(consumed("stop", Reached::Worker), 1_000);

    // A supervisor turn that opened before the note was offered, and a
    // worker turn that opened before it too, confirm nothing — whatever
    // order the writer meets them in.
    assert!(observe(&mut watch, turn(1, 900, "user", 1, None)).is_empty());
    assert!(observe(&mut watch, turn(2, 950, "assistant", 1, Some("task"))).is_empty());
    // Nor does a worker turn after it that the producer does not stamp as a
    // delivery: that turn opened on something else.
    assert!(observe(&mut watch, turn(3, 1_100, "assistant", 2, Some("supervisor"))).is_empty());
    // Nor a supervisor turn ahead of the worker's delivered one.
    assert!(observe(&mut watch, turn(4, 1_200, "user", 2, None)).is_empty());

    let shown = observe(&mut watch, turn(5, 1_300, "assistant", 3, Some("delivered")));
    assert_eq!(shown.len(), 1, "{shown:?}");
    assert_eq!(shown[0].party, Party::Worker);
    assert_eq!(shown[0].turn, 3);
    let payload: serde_json::Value =
        serde_json::from_str(&render(&Json::Object(shown[0].payload()))).expect("JSON");
    assert_eq!(payload["party"], "worker");
    assert_eq!(payload["text"], "stop");
    assert_eq!(payload["reached"], "worker");
    assert_eq!(payload["turn"], 3);

    // The supervisor answers that reply under the same turn number, and
    // that is the presentation; a second supervisor turn confirms nothing
    // twice.
    let shown = observe(&mut watch, turn(6, 1_400, "user", 3, None));
    assert_eq!(shown.len(), 1, "{shown:?}");
    assert_eq!(shown[0].party, Party::Supervisor);
    assert!(observe(&mut watch, turn(7, 1_500, "user", 4, None)).is_empty());

    // A note the judge re-took its decision with is confirmed to the judge at
    // delivery and owed only to the worker, by the delivered turn that rides
    // the decision.
    let mut watch = Presentations::default();
    watch.routed_by_the_conversation(consumed("ruling", Reached::Supervisor), 2_000);
    assert!(observe(&mut watch, turn(8, 2_100, "user", 5, None)).is_empty());
    let shown = observe(&mut watch, turn(9, 2_200, "assistant", 6, Some("delivered")));
    assert_eq!(shown.len(), 1);
    assert_eq!(shown[0].party, Party::Worker);

    // One composed into the task is carried by the opening turn as the
    // task, and read by the supervisor that answers it.
    let mut watch = Presentations::default();
    watch.composed_into_the_task(consumed("carried in", Reached::Carried), 3_000);
    let shown = observe(&mut watch, turn(10, 3_100, "assistant", 1, Some("task")));
    assert_eq!(shown.len(), 1);
    assert_eq!(shown[0].party, Party::Worker);
    let shown = observe(&mut watch, turn(11, 3_200, "user", 1, None));
    assert_eq!(shown.len(), 1);
    assert_eq!(shown[0].party, Party::Supervisor);

    // Nothing the conversation routes nowhere is watched at all.
    let mut watch = Presentations::default();
    watch.routed_by_the_conversation(
        consumed(
            "passed",
            Reached::JudgedWith {
                completion_reason: "done".into(),
            },
        ),
        4_000,
    );
    assert!(observe(&mut watch, turn(12, 4_100, "assistant", 7, Some("delivered"))).is_empty());
}

#[test]
fn an_envelope_that_shows_no_turn_opening_shows_nothing() {
    let mut watch = Presentations::default();
    watch.composed_into_the_task(consumed("carried in", Reached::Carried), 0);
    let (mut other, at) = turn(1, 10, "assistant", 1, Some("task"));
    other.kind = EventKind("turn-finished".into());
    assert!(watch.observe(&other, at).is_empty());
    let (unknown, at) = turn(2, 10, "narrator", 1, None);
    assert!(watch.observe(&unknown, at).is_empty());
    let (undated, _) = turn(3, 10, "assistant", 1, None);
    assert!(watch.observe(&undated, None).is_empty());
    let (mut numberless, at) = turn(4, 10, "assistant", 1, None);
    numberless.payload.retain(|(key, _)| key != "turn");
    assert!(watch.observe(&numberless, at).is_empty());
    assert_eq!(watch.routed.len(), 1);
}

#[test]
fn a_note_is_what_the_conversations_own_constructors_keep_of_it() {
    let made = onepipeline::note::of(Addressee::Worker, "  ship it \n", &None).expect("a note");
    assert_eq!(made.text, "ship it");
    assert_eq!(
        onepipeline::note::of(Addressee::Worker, " \n", &None),
        Err(NoteRefused::Blank)
    );
    let bound = onepipeline::note::of(
        Addressee::Both,
        "ship it",
        &Some("  the tests pass ".to_string()),
    )
    .expect("a note");
    assert_eq!(
        bound.criterion.as_deref(),
        oneagentgraph::note::Criterion::try_from("  the tests pass ")
            .ok()
            .as_ref()
            .map(|kept| kept.as_str())
    );
    assert!(matches!(
        onepipeline::note::of(Addressee::Both, "ship it", &Some(" ".to_string())),
        Err(NoteRefused::Criterion(_))
    ));
    // The text is answered first.
    assert_eq!(
        of_parts(
            Addressee::Both,
            Err(NoteRefused::Blank),
            Some(Err(NoteRefused::Criterion("c".into())))
        ),
        Err(NoteRefused::Blank)
    );
    let op = deliver("build", &made);
    assert_eq!((op.deliver, op.persist), (Deliver::Live, true));
    assert_eq!(op.id, "build");
    let op = deliver_with("build", &made, Deliver::Next, true);
    assert_eq!((op.deliver, op.persist), (Deliver::Next, true));
}

#[test]
fn a_note_that_would_reach_nobody_is_refused() {
    assert_eq!(Reach::of("n", Deliver::Live, false), Ok(Reach::LiveOnly));
    assert_eq!(Reach::of("n", Deliver::Live, true), Ok(Reach::LiveThenNext));
    assert_eq!(Reach::of("n", Deliver::Next, true), Ok(Reach::NextOnly));
    let why = Reach::of("n", Deliver::Next, false).unwrap_err().message();
    assert!(why.starts_with("note: node 'n': `deliver: next`"), "{why}");
    assert!(!Reach::NextOnly.attempts_a_live_turn());
    assert!(!Reach::LiveOnly.composes_forward());
    assert_eq!(
        Reached::of_accepted(&Accepted::Interrupted {
            party: Party::Supervisor
        }),
        Reached::Supervisor
    );
    assert_eq!(
        Reached::of_accepted(&Accepted::JudgedWith {
            completion_reason: "done".into()
        })
        .as_str(),
        "judged-with"
    );
    assert!(!Reached::Carried.a_conversation_read_it());
    assert_eq!(Addressee::Both.as_str(), "both");
    assert_eq!(Labels::default().run_id, None);
}
