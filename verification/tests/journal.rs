//! The merged event store: how it is numbered, read back, accounted for and merged.
use onepipeline::event::{
    Envelope, EventKind, Labels, PipelineKind, Source, ENVELOPE_VERSION,
};
use onepipeline::journal::{
    has_unreadable_lines, integrity, labels, merge_order, merged_order, payload, reading,
    record_starts, settled_payload, Integrity, Journal, Line, Loss, Parsed, Reading, StopTeardown,
    STOP_TEARDOWN,
};
use onepipeline::json::{render, Json};
use onepipeline::ledger::{framed, heal, read_lines, read_records, Record, RunPaths, TornTail};

fn words(envelope: &Envelope) -> serde_json::Map<String, serde_json::Value> {
    let mut labels = serde_json::Map::new();
    for (key, value) in [("run_id", &envelope.labels.run_id), ("node", &envelope.labels.node)] {
        if let Some(value) = value {
            labels.insert(key.into(), serde_json::Value::String(value.clone()));
        }
    }
    let source = match envelope.source {
        Source::Pipeline => "pipeline",
        Source::Agentgraph => "agentgraph",
        Source::Vcs => "vcs",
    };
    let mut fields = serde_json::Map::new();
    fields.insert("v".into(), serde_json::Value::from(envelope.v));
    for (key, value) in [
        ("ts", envelope.ts.as_str()),
        ("stream", envelope.stream.as_str()),
        ("source", source),
        ("kind", envelope.kind.0.as_str()),
    ] {
        fields.insert(key.into(), serde_json::Value::String(value.into()));
    }
    fields.insert("seq".into(), serde_json::Value::from(envelope.seq));
    fields.insert("labels".into(), serde_json::Value::Object(labels));
    fields
}

/// A record as the store holds one: its version first.
fn written(envelope: &Envelope) -> String {
    let mut fields = words(envelope);
    let version = fields.remove("v").expect("a version");
    let rest = serde_json::Value::Object(fields).to_string();
    format!("{{\"v\":{version},{}", &rest[1..])
}

fn envelope_of(value: &serde_json::Value) -> Option<Envelope> {
    let text = |key: &str| value.get(key)?.as_str().map(str::to_string);
    if value.get("v")?.as_u64()? != u64::from(ENVELOPE_VERSION) {
        return None;
    }
    let stamped = value.get("labels")?;
    let label = |key: &str| stamped.get(key)?.as_str().map(str::to_string);
    Some(Envelope {
        v: ENVELOPE_VERSION,
        ts: text("ts")?,
        stream: text("stream")?,
        seq: value.get("seq")?.as_u64()?,
        source: Source::parse(&text("source")?)?,
        kind: EventKind(text("kind")?),
        labels: Labels {
            run_id: label("run_id"),
            node: label("node"),
            ..Labels::default()
        },
        payload: Vec::new(),
        artifacts: Vec::new(),
    })
}

fn parsed(text: &str) -> Parsed {
    match serde_json::from_str::<serde_json::Value>(text) {
        Ok(value) => envelope_of(&value).map_or(Parsed::Other, Parsed::Whole),
        Err(error) if error.is_eof() => Parsed::Incomplete,
        Err(_) => Parsed::Other,
    }
}

fn line(record: Record) -> Line {
    let tails = record_starts(&record.text)
        .into_iter()
        .map(|at| match parsed(&record.text[at..]) {
            Parsed::Whole(envelope) => Some(envelope),
            _ => None,
        })
        .collect();
    Line {
        whole: parsed(&record.text),
        tails,
        record,
    }
}

fn lines(store: &str) -> Vec<Line> {
    read_records(&store.as_bytes().to_vec())
        .into_iter()
        .map(line)
        .collect()
}

fn events(store: &str) -> Vec<Envelope> {
    onepipeline::journal::read(lines(store))
}

fn append(store: &mut String, envelope: &Envelope) {
    store.push_str(&framed(&written(envelope)));
}

#[test]
fn an_uninterpretable_teardown_is_never_read_as_a_clean_stop() {
    let said = |value: Json| payload(vec![(STOP_TEARDOWN.to_string(), value)]);
    assert_eq!(
        StopTeardown::of(&payload(Vec::new())),
        StopTeardown::Signalled,
        "a record written before the field existed should read as the stop it was"
    );
    for (name, value) in [
        ("a kind this build has never seen", Json::Text("swept".into())),
        ("a value of the wrong shape", Json::Bool(true)),
        ("nothing at all", Json::Null),
    ] {
        assert_eq!(
            StopTeardown::of(&said(value)),
            StopTeardown::NotAttempted,
            "{name} was read as an outcome this build understands"
        );
    }
    assert_eq!(
        StopTeardown::of(&said(Json::Text("elsewhere".into()))),
        StopTeardown::Elsewhere
    );
    for teardown in [
        StopTeardown::Signalled,
        StopTeardown::NotAttempted,
        StopTeardown::Elsewhere,
    ] {
        assert_eq!(
            StopTeardown::of(&said(Json::Text(teardown.as_str().into()))),
            teardown
        );
    }
}

#[test]
fn a_reopened_journal_takes_its_next_sequence_above_what_it_wrote() {
    let mut store = String::new();
    let mut journal = Journal::open("s".into(), &read_lines(None)).expect("a number to take");
    append(
        &mut store,
        &journal.emit(
            "2026-08-08T00:00:00.000Z".into(),
            PipelineKind::RunStarted,
            labels("demo", None),
            payload(Vec::new()),
        ),
    );
    append(
        &mut store,
        &journal.emit(
            "2026-08-08T00:00:01.000Z".into(),
            PipelineKind::NodeReady,
            labels("demo", Some("build")),
            payload(Vec::new()),
        ),
    );

    let reopened =
        Journal::open("s".into(), &read_lines(Some(&store))).expect("a number to take");
    assert_eq!(reopened.next_seq, 2, "a reopened journal replayed a seq");

    let events = events(&store);
    assert_eq!(events.len(), 2);
    assert_eq!(events[0].seq, 0);
    assert_eq!(events[1].seq, 1);
    assert!(events.iter().all(|e| e.source == Source::Pipeline));

    // Another stream's numbers are its own, and a stream that has used every
    // number there is has none left to take.
    let other = Journal::open("t".into(), &read_lines(Some(&store))).expect("a number to take");
    assert_eq!(other.next_seq, 0);
    let spent = vec![format!("{{\"stream\":\"s\",\"seq\":{}}}", u64::MAX)];
    assert!(Journal::open("s".into(), &spent).is_none());
}

#[test]
fn a_line_this_build_cannot_read_is_skipped_but_still_reported() {
    let mut store = String::new();
    let mut journal = Journal::open("s".into(), &Vec::new()).expect("a number to take");
    append(
        &mut store,
        &journal.emit(
            "2026-08-08T00:00:00.000Z".into(),
            PipelineKind::RunStarted,
            labels("demo", None),
            payload(Vec::new()),
        ),
    );
    store.push_str(&framed(r#"{"v":99,"from":"the future"}"#));

    assert_eq!(events(&store).len(), 1, "the future line was read");
    assert!(has_unreadable_lines(&lines(&store)));
}

#[test]
fn a_reader_tells_the_three_ways_a_line_is_not_a_record_apart() {
    let mut store = String::new();
    let mut journal = Journal::open("s".into(), &Vec::new()).expect("a number to take");
    append(
        &mut store,
        &journal.emit(
            "2026-08-08T00:00:00.000Z".into(),
            PipelineKind::RunStarted,
            labels("demo", None),
            payload(Vec::new()),
        ),
    );
    append(
        &mut store,
        &journal.emit(
            "2026-08-08T00:00:01.000Z".into(),
            PipelineKind::NodeReady,
            labels("demo", Some("build")),
            payload(Vec::new()),
        ),
    );

    // The store as a build carrying no healing left it: the second record
    // is a fragment with a whole record glued onto it, which is what a
    // second process appending after a dying writer produced.
    let text = read_lines(Some(&store));
    let fragment = r#"{"v":1,"ts":"2026-08-16T00:00:00.000Z","strea"#;
    let torn = format!(
        "{}\n{fragment}{}\n{{\"v\":99,\"from\":\"a newer build\"}}\n{}",
        text[0], text[1], r#"{"v":1,"ts":"2026-08-16T"#
    );

    let integrity = integrity(&lines(&torn), Vec::new());
    assert!(!integrity.is_whole());
    assert_eq!(
        integrity.truncated.len(),
        2,
        "a fragment was not counted as one: {integrity:?}"
    );
    // The glued line: the loss is the fragment in front of the record, not
    // the whole line, and it is placed where the line begins.
    assert_eq!(integrity.truncated[0].line, 2);
    assert_eq!(integrity.truncated[0].offset, text[0].len() as u64 + 1);
    assert_eq!(integrity.truncated[0].bytes, fragment.len() as u64);
    // The unterminated last line: a record whose writer did not finish it.
    assert_eq!(integrity.truncated[1].line, 4);
    assert_eq!(integrity.unparseable.len(), 1, "{integrity:?}");
    assert_eq!(integrity.unparseable[0].line, 3);

    // The record the tear used to destroy is handed back whole, because it
    // is whole: only what is in front of it is not.
    let events = events(&torn);
    assert_eq!(events.len(), 2, "the glued record was thrown away");
    assert_eq!(events[1].kind.0, "node-ready");
    assert_eq!(events[1].labels.node.as_deref(), Some("build"));

    // Strict replay still reports every one of them, as it always did.
    assert!(has_unreadable_lines(&lines(&torn)));
}

#[test]
fn a_healed_loss_is_reported_although_the_store_no_longer_holds_it() {
    let mut store = String::new();
    let mut journal = Journal::open("s".into(), &Vec::new()).expect("a number to take");
    append(
        &mut store,
        &journal.emit(
            "2026-08-08T00:00:00.000Z".into(),
            PipelineKind::RunStarted,
            labels("demo", None),
            payload(Vec::new()),
        ),
    );
    assert!(integrity(&lines(&store), Vec::new()).is_whole());
    assert!(integrity(&lines(&store), Vec::new()).phrase().is_empty());

    // A writer died mid-line; the next append cuts what it left away.
    let whole = store.len();
    store.push_str("{\"half\":");
    let healed = heal(&store.clone().into_bytes()).expect("the store is torn");
    assert_eq!(
        healed,
        TornTail {
            offset: whole as u64,
            bytes: 8,
        }
    );
    store.truncate(healed.offset as usize);
    assert_eq!(heal(&store.clone().into_bytes()), None);
    append(
        &mut store,
        &journal.emit(
            "2026-08-08T00:00:01.000Z".into(),
            PipelineKind::NodeReady,
            labels("demo", None),
            payload(Vec::new()),
        ),
    );
    let integrity = integrity(&lines(&store), vec![healed]);
    assert!(
        integrity.truncated.is_empty() && integrity.unparseable.is_empty(),
        "the store still holds the fragment: {integrity:?}"
    );
    assert!(!integrity.is_whole(), "the healed loss went unreported");
    assert_eq!(
        integrity.phrase(),
        format!("1 fragment discarded at append: byte {whole} (8 bytes)")
    );
}

#[test]
fn a_fragment_is_what_follows_the_last_terminator() {
    let torn = |text: &str| heal(&text.as_bytes().to_vec());
    assert_eq!(torn(""), None);
    assert_eq!(torn("\n"), None);
    assert_eq!(torn("{}\n{}\n"), None);
    assert_eq!(torn("{"), Some(TornTail { offset: 0, bytes: 1 }));
    assert_eq!(torn("{}\n{\"a\":"), Some(TornTail { offset: 3, bytes: 5 }));
    assert_eq!(torn("\n\nx"), Some(TornTail { offset: 2, bytes: 1 }));
}

#[test]
fn a_healed_fragment_is_recorded_and_read_back() {
    let tail = TornTail {
        offset: 1200,
        bytes: 37,
    };
    let written = tail.to_json();
    assert_eq!(render(&written), r#"{"offset":1200,"bytes":37}"#);
    assert_eq!(TornTail::read(&written), Some(tail));
    let part = Json::Object(vec![("offset".to_string(), Json::Count(3))]);
    assert_eq!(TornTail::read(&part), None, "a length is owed too");
    assert_eq!(
        RunPaths::under("/runs", "demo").torn_tails(),
        "/runs/demo/events.torn.jsonl"
    );
}

#[test]
fn a_record_appended_after_healing_is_read_back_whole() {
    let mut store = b"{\"one\":1}\n{\"two\"".to_vec();
    let tail = heal(&store).expect("the store is torn");
    store.truncate(tail.offset as usize);
    let before = read_records(&store);
    store.extend_from_slice(framed("{\"three\":3}").as_bytes());
    let after = read_records(&store);
    assert_eq!(after.len(), before.len() + 1);
    assert_eq!(after[..before.len()], before[..]);
    let last = &after[before.len()];
    assert_eq!(last.text, "{\"three\":3}");
    assert_eq!((last.line, last.offset, last.bytes), (2, tail.offset, 11));
    assert!(last.terminated);
}

#[test]
fn the_phrase_counts_and_places_every_loss_it_reports() {
    let losses = Integrity {
        truncated: vec![
            Loss {
                line: 2,
                offset: 40,
                bytes: 12,
            },
            Loss {
                line: 9,
                offset: 900,
                bytes: 3,
            },
        ],
        unparseable: vec![Loss {
            line: 4,
            offset: 120,
            bytes: 30,
        }],
        healed: Vec::new(),
    };
    assert_eq!(
        losses.phrase(),
        "2 truncated records: line 2 at byte 40 (12 bytes), line 9 at byte 900 (3 bytes); \
         1 line this build cannot read: line 4 at byte 120 (30 bytes)"
    );
}

#[test]
fn a_relayed_envelope_keeps_its_own_stream_and_source() {
    let mut journal = Journal::open("s".into(), &Vec::new()).expect("a number to take");
    let relayed = Envelope {
        v: ENVELOPE_VERSION,
        ts: "2026-08-08T00:00:00.000Z".into(),
        stream: "oneagentgraph-1".into(),
        seq: 7,
        source: Source::Agentgraph,
        kind: EventKind("turn-finished".into()),
        labels: labels("demo", Some("build")),
        payload: payload(Vec::new()),
        artifacts: Vec::new(),
    };
    let mut store = String::new();
    append(&mut store, &journal.relay(relayed));

    let events = events(&store);
    assert_eq!(events[0].source, Source::Agentgraph);
    assert_eq!(events[0].stream, "oneagentgraph-1");
    assert_eq!(events[0].seq, 7, "the relay renumbered a sibling's stream");
    assert_eq!(journal.next_seq, 0, "the relay took a number of this stream's");
}

#[test]
fn what_is_appended_is_read_back_after_everything_that_was_there() {
    let mut journal = Journal::open("s".into(), &Vec::new()).expect("a number to take");
    let mut store = String::new();
    let mut emitted = |journal: &mut Journal, store: &mut String, kind: PipelineKind| {
        let envelope = journal.emit(
            "2026-08-08T00:00:00.000Z".into(),
            kind,
            labels("demo", None),
            payload(Vec::new()),
        );
        append(store, &envelope);
        envelope.seq
    };
    assert_eq!(emitted(&mut journal, &mut store, PipelineKind::RunStarted), 0);
    let before = events(&store);
    let relayed = journal.relay(event("2026-08-08T00:00:01.000Z", "another", 41));
    append(&mut store, &relayed);
    let after = events(&store);
    assert_eq!(after[..1], before[..]);
    assert_eq!(after[1], relayed);
    // Neither stream was renumbered: this one goes on where it stood, and a journal
    // opened anew passes over the other's number.
    let reopened = Journal::open("s".into(), &read_lines(Some(&store))).expect("a number");
    assert_eq!(reopened.next_seq, 1);
    assert_eq!(emitted(&mut journal, &mut store, PipelineKind::NodeReady), 1);
    assert_eq!(events(&store).len(), 3);
}

fn event(ts: &str, stream: &str, seq: u64) -> Envelope {
    Envelope {
        v: ENVELOPE_VERSION,
        ts: ts.into(),
        stream: stream.into(),
        seq,
        source: Source::Pipeline,
        kind: EventKind("k".into()),
        labels: Labels::default(),
        payload: Vec::new(),
        artifacts: Vec::new(),
    }
}

fn merged(mut events: Vec<Envelope>) -> Vec<(String, u64)> {
    merge_order(&mut events);
    events
        .into_iter()
        .map(|event| (event.stream, event.seq))
        .collect()
}

#[test]
fn the_merge_interleaves_streams_by_timestamp() {
    assert_eq!(
        merged(vec![
            event("2026-08-08T00:00:02.000Z", "b", 1),
            event("2026-08-08T00:00:03.000Z", "a", 1),
            event("2026-08-08T00:00:00.000Z", "a", 0),
            event("2026-08-08T00:00:01.000Z", "b", 0),
        ]),
        vec![
            ("a".to_string(), 0),
            ("b".to_string(), 0),
            ("b".to_string(), 1),
            ("a".to_string(), 1),
        ],
        "the streams did not interleave by the clock"
    );
}

#[test]
fn a_timestamp_collision_between_streams_is_broken_by_the_stream_id() {
    // Nothing promises anything about the order of two records from
    // different producers written inside one clock tick, so the tie-break is
    // deterministic rather than meaningful — but it does have to be *some*
    // one order, or two readings of one store disagree.
    let tick = "2026-08-08T00:00:00.000Z";
    assert_eq!(
        merged(vec![
            event(tick, "b", 0),
            event(tick, "a", 0),
            event(tick, "a", 1),
            event(tick, "b", 1),
        ]),
        vec![
            ("a".to_string(), 0),
            ("a".to_string(), 1),
            ("b".to_string(), 0),
            ("b".to_string(), 1),
        ]
    );
}

#[test]
fn a_streams_own_sequence_outranks_its_timestamps() {
    assert_eq!(
        merged(vec![
            event("2026-08-08T00:00:02.000Z", "a", 0),
            // The clock went backwards between these two, and between these
            // two only. Ordered by `ts` the stream reads 1, 2, 0.
            event("2026-08-08T00:00:00.000Z", "a", 1),
            event("2026-08-08T00:00:01.000Z", "a", 2),
        ]),
        vec![
            ("a".to_string(), 0),
            ("a".to_string(), 1),
            ("a".to_string(), 2),
        ],
        "the merge reordered a stream against the sequence its producer stamped"
    );
}

#[test]
fn two_records_of_one_stream_claiming_one_sequence_keep_the_order_they_arrived_in() {
    // A producer in error, so there is nothing to be right about beyond
    // being stable: the store must not shuffle under a second reading.
    let mut events = vec![
        event("2026-08-08T00:00:01.000Z", "a", 0),
        event("2026-08-08T00:00:00.000Z", "a", 0),
    ];
    merge_order(&mut events);
    let timestamps: Vec<String> = events.iter().map(|event| event.ts.clone()).collect();
    assert_eq!(
        timestamps,
        vec![
            "2026-08-08T00:00:01.000Z".to_string(),
            "2026-08-08T00:00:00.000Z".to_string(),
        ]
    );
}

#[test]
fn merging_nothing_is_nothing() {
    assert!(merged(Vec::new()).is_empty());
}

#[test]
fn merging_loses_nothing_and_two_readings_agree() {
    let store = || {
        vec![
            event("t3", "c", 4),
            event("t1", "a", 9),
            event("t2", "b", 1),
            event("t1", "a", 2),
            event("t1", "b", 0),
        ]
    };
    let mut before: Vec<(String, u64)> = store()
        .into_iter()
        .map(|event| (event.stream, event.seq))
        .collect();
    let first = merged(store());
    assert_eq!(first, merged(store()));
    let mut after = first.clone();
    before.sort();
    after.sort();
    assert_eq!(before, after);
    let mut order = merged_order(&store());
    order.sort();
    assert_eq!(order, [0, 1, 2, 3, 4]);
}

#[test]
fn a_settled_payload_omits_the_fields_it_was_not_given() {
    let held = |fields: &Vec<(String, Json)>, name: &str| -> Option<String> {
        fields.iter().find_map(|(key, value)| match value {
            Json::Text(text) if key == name => Some(text.clone()),
            _ => None,
        })
    };
    let bare = settled_payload("done", None, None);
    assert_eq!(bare.len(), 1);
    let full = settled_payload("failed", Some("infrastructure-failure"), Some("OOM"));
    assert_eq!(
        held(&full, "outcome"),
        Some("infrastructure-failure".to_string())
    );
    assert_eq!(held(&full, "detail"), Some("OOM".to_string()));
}

#[test]
fn a_line_is_one_finding_and_a_blank_one_is_none() {
    let read = |store: &str| {
        let mut all: Vec<Reading> = lines(store).into_iter().map(reading).collect();
        all.pop().expect("a line")
    };
    assert_eq!(read("   \n"), Reading::Blank);
    assert_eq!(read("{\"v\":1"), Reading::Truncated);
    assert_eq!(read("{\"v\":1\n"), Reading::Truncated);
    assert_eq!(read("nonsense\n"), Reading::Unparseable);
    assert!(matches!(
        read(&framed(&written(&event("t", "s", 1)))),
        Reading::Whole(_)
    ));
    // The last field of a name is the one a payload carries.
    let twice = payload(vec![
        ("a".to_string(), Json::Count(1)),
        ("a".to_string(), Json::Count(2)),
    ]);
    assert_eq!(twice, [("a".to_string(), Json::Count(2))]);
}
