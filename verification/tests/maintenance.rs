//! Pool maintenance: the schedule, the sweep, its record, and the words for it.
use onepipeline::event::{Envelope, EventKind, Labels, PipelineKind, Source};
use onepipeline::json::{render, Json};
use onepipeline::maintenance::{
    identity_phrase, last_outcomes, last_sweep, maintained, pace, results_lines, slot_phrase, status_line, sweep, Asked,
    IdentityOutcome, Maintained, Maintenance, MaintenanceConfig, MaintenanceDefault, MaintenanceOutcome, RuleMatch,
    SlotMaintenance, SlotOutcome, Span, SweepEntry, SweepRecord, Swept, DEFAULT_PACE_SECONDS, FLAG,
    PACE_ENV, RECHECK_MILLIS, SCHEDULE_VERSION,
};
use onepipeline::schedule::{every, matching, whole_match};

fn read(document: &str) -> Json {
    of(&serde_json::from_str(document).unwrap_or_else(|why| panic!("{why}: {document}")))
}

fn of(value: &serde_json::Value) -> Json {
    match value {
        serde_json::Value::Null => Json::Null,
        serde_json::Value::Bool(value) => Json::Bool(*value),
        serde_json::Value::Number(number) => {
            if let Some(count) = number.as_u64() {
                Json::Count(count)
            } else if let Some(debt) = number.as_i64() {
                Json::Debt(debt)
            } else {
                Json::Number(number.to_string())
            }
        }
        serde_json::Value::String(text) => Json::Text(text.clone()),
        serde_json::Value::Array(list) => Json::List(list.iter().map(of).collect()),
        serde_json::Value::Object(fields) => Json::Object(
            fields
                .iter()
                .map(|(key, value)| (key.clone(), of(value)))
                .collect(),
        ),
    }
}

type Fields = serde_json::Map<String, serde_json::Value>;

fn said(refusal: serde_norway::Error) -> String {
    refusal.to_string()
}

/// A mapping that names none but these keys, and all those that are owed.
fn mapping<'a>(
    value: &'a serde_json::Value,
    keys: &'static [&'static str],
    owed: &[&'static str],
) -> Result<&'a Fields, String> {
    let fields = value.as_object().ok_or("not a mapping")?;
    if let Some(stray) = fields.keys().find(|key| !keys.contains(&key.as_str())) {
        return Err(said(serde::de::Error::unknown_field(stray, keys)));
    }
    match owed.iter().find(|key| !fields.contains_key(**key)) {
        Some(key) => Err(said(serde::de::Error::missing_field(key))),
        None => Ok(fields),
    }
}

fn held_fields(value: &serde_json::Value) -> Vec<(String, Json)> {
    match of(value) {
        Json::Object(fields) => fields,
        other => panic!("{other:?} is not a mapping"),
    }
}

/// What a reader of the typed document makes of a text: the schedule, or its refusal.
fn parsed(text: &str) -> Result<MaintenanceConfig, String> {
    let value: serde_json::Value = serde_norway::from_str(text).map_err(said)?;
    let document = mapping(
        &value,
        &["version", "default", "rules"],
        &["version", "default"],
    )?;
    let default = mapping(&document["default"], &["every"], &["every"])?;
    every(&of(&default["every"]))?;
    for rule in document.get("rules").and_then(|rules| rules.as_array()).into_iter().flatten() {
        let rule = mapping(rule, &["match", "every"], &["match", "every"])?;
        matching(held_fields(&rule["match"]))?;
        every(&of(&rule["every"]))?;
    }
    MaintenanceConfig::read(&of(&value)).ok_or_else(|| "not a schedule".to_string())
}

fn written(text: &str) -> Result<MaintenanceConfig, String> {
    MaintenanceConfig::load(FLAG, "maintenance.yml", parsed(text)).map_err(|why| why.message())
}

fn refused(text: &str) -> String {
    match written(text) {
        Err(why) => why,
        Ok(config) => panic!("{text:?} was not refused as invalid: {config:?}"),
    }
}

fn span(spelled: &str) -> Span {
    every(&Json::Text(spelled.into())).expect("a span")
}

#[test]
fn the_schedule_reads_through_the_siblings_span_and_match_and_round_trips() {
    let config = written(
        "version: 1\ndefault:\n  every: 7d\nrules:\n  - match: {host: github.com, owner: \
         nickderobertis, name: onevcs}\n    every: 3d\n",
    )
    .expect("the schedule reads");
    assert_eq!(config.version, SCHEDULE_VERSION);
    assert_eq!(config.default.every.spelled, "7d");
    assert_eq!(config.rules.len(), 1);
    assert_eq!(config.rules[0].every.spelled, "3d");
    assert_eq!(
        config.rules[0].matches,
        RuleMatch {
            host: Some("github.com".into()),
            owner: Some("nickderobertis".into()),
            name: Some("onevcs".into()),
            path: None,
        }
    );
    let text = render(&config.to_json());
    assert_eq!(
        MaintenanceConfig::load(FLAG, "m", parsed(&text)).expect("it re-parses"),
        config
    );
    // A document naming no rule writes none.
    let bare = written("version: 1\ndefault:\n  every: 36h\n").expect("it reads");
    assert!(bare.rules.is_empty());
    assert_eq!(
        render(&bare.to_json()),
        r#"{"version":1,"default":{"every":"36h"}}"#
    );
    // A span is written as its own library writes one.
    assert_eq!(span("007d").spelled, "7d");
}

#[test]
fn a_schedule_is_refused_by_the_key_at_fault() {
    let why = refused("version: 1\ndefault:\n  every: 7d\nat: \"03:00\"\n");
    assert!(why.starts_with(FLAG), "{why}");
    assert!(why.contains("unknown field `at`"), "{why}");

    let why = refused("version: 2\ndefault:\n  every: 7d\n");
    assert!(why.contains("`version` is 2"), "{why}");
    assert!(why.contains("this build reads 1"), "{why}");

    let why = refused("version: 1\ndefault:\n  every: 7d\nrules:\n  - match: {}\n    every: 1d\n");
    assert!(why.contains("`match` names no field"), "{why}");

    let why = refused(
        "version: 1\ndefault:\n  every: 7d\nrules:\n  - match: {repo: onevcs}\n    every: 1d\n",
    );
    assert!(why.contains("`match` names `repo`"), "{why}");

    let why = refused("version: 1\ndefault:\n  every: 7x\n");
    assert!(why.contains("`every`"), "{why}");
    assert!(why.contains("not a unit letter"), "{why}");

    let why = refused("version: 1\ndefault:\n  every: 7\n");
    assert!(why.contains("`every` holds 7"), "{why}");

    let why = refused("version: 1\ndefault:\n  every: 7d\n  at: never\n");
    assert!(why.contains("unknown field `at`"), "{why}");

    let why = refused("version: 1\ndefault:\n  every: 7d\nrules:\n  - every: 1d\n");
    assert!(why.contains("missing field `match`"), "{why}");
}

#[test]
fn a_document_that_is_no_schedule_is_not_read_as_one() {
    for document in [
        "[]",
        "{}",
        r#"{"default": {"every": "7d"}}"#,
        r#"{"version": 1}"#,
        r#"{"version": "one", "default": {"every": "7d"}}"#,
        r#"{"version": 4294967296, "default": {"every": "7d"}}"#,
        r#"{"version": 1, "default": "7d"}"#,
        r#"{"version": 1, "default": {}}"#,
        r#"{"version": 1, "default": {"every": "0d"}}"#,
        r#"{"version": 1, "default": {"every": "7d", "at": 1}}"#,
        r#"{"version": 1, "default": {"every": "7d"}, "at": 1}"#,
        r#"{"version": 1, "default": {"every": "7d"}, "rules": {}}"#,
        r#"{"version": 1, "default": {"every": "7d"}, "rules": [7]}"#,
        r#"{"version": 1, "default": {"every": "7d"}, "rules": [{"every": "1d"}]}"#,
        r#"{"version": 1, "default": {"every": "7d"}, "rules": [{"match": {"host": "h"}}]}"#,
        r#"{"version": 1, "default": {"every": "7d"}, "rules": [{"match": 7, "every": "1d"}]}"#,
        r#"{"version": 1, "default": {"every": "7d"}, "rules": [{"match": {}, "every": "1d"}]}"#,
    ] {
        assert_eq!(MaintenanceConfig::read(&read(document)), None, "{document}");
    }
    let later = MaintenanceConfig::read(&read(r#"{"default": {"every": "07d"}, "version": 2}"#))
        .expect("the shape says nothing of which version is read");
    assert_eq!(later.version, 2);
    assert_eq!(later.default.every.spelled, "7d");
    assert!(later.rules.is_empty());
}

#[test]
fn a_schedules_refusal_carries_the_readers_own_words() {
    assert_eq!(
        MaintenanceConfig::load(FLAG, "m.yml", Err("rules: a word at line 3 column 1".into()))
            .unwrap_err()
            .message(),
        format!("{FLAG} m.yml: rules: a word at line 3 column 1")
    );
    assert_eq!(
        every(&read(r#"{"a": "b"}"#)).unwrap_err(),
        "`every` holds {\"a\":\"b\"}, which is not a span — write digits then one of s, m, h or \
         d, such as 7d"
    );
}

#[test]
fn what_a_match_may_name_is_the_siblings_own_list() {
    let value = |document: &str| match read(document) {
        Json::Object(fields) => fields,
        other => panic!("{other:?} is not a mapping"),
    };
    assert_eq!(
        matching(value(r#"{"owner": "acme", "name": "*", "host": "github.com"}"#)),
        Ok(RuleMatch {
            host: Some("github.com".into()),
            owner: Some("acme".into()),
            name: Some("*".into()),
            path: None,
        })
    );
    // The fields it does name come in the order the sibling declares them.
    assert_eq!(
        matching(value(r#"{"name": "a", "repo": "b", "owner": "c", "host": "d"}"#)),
        Err("`match` names `repo`, which is not a field a match has; it names host, owner, name"
            .to_string())
    );
    // A field that is nothing is not kept, and so reads as one a match does not have.
    assert_eq!(
        matching(value(r#"{"path": null}"#)),
        Err("`match` names `path`, which is not a field a match has".to_string())
    );
    assert_eq!(
        matching(value(r#"{"path": []}"#)),
        Err("`match`: invalid type: sequence, expected a string".to_string())
    );
    assert_eq!(
        matching(value(r#"{"host": 7}"#)),
        Err("`match`: invalid type: integer `7`, expected a string".to_string())
    );
}

#[test]
fn a_match_is_whole_when_everything_it_names_was_kept() {
    let Json::Object(fields) = read(r#"{"host": "a", "path": "b"}"#) else {
        panic!("an object");
    };
    let named = RuleMatch {
        host: Some("a".into()),
        owner: None,
        name: None,
        path: Some("b".into()),
    };
    let kept = |names: &[&str]| names.iter().map(|name| name.to_string()).collect::<Vec<_>>();
    assert_eq!(
        whole_match(&fields, named.clone(), &kept(&["path", "host"])),
        Ok(named.clone())
    );
    let why = whole_match(&fields, named.clone(), &kept(&["host"])).unwrap_err();
    assert!(why.starts_with("`match` names `path`"), "{why}");
    assert!(why.ends_with("; it names host"), "{why}");
    let why = whole_match(&Vec::new(), named, &Vec::new()).unwrap_err();
    assert!(why.starts_with("`match` names no field"), "{why}");
}

#[test]
fn a_rule_decides_the_cadence_of_what_it_matches() {
    let config = written(
        "version: 1\ndefault:\n  every: 7d\nrules:\n  - match: {name: onevcs}\n    every: 3d\n",
    )
    .expect("the schedule reads");
    assert_eq!(config.criteria().len(), 1);
    assert_eq!(config.every_for(Ok(Some(0))).expect("a span").spelled, "3d");
    assert_eq!(config.every_for(Ok(None)).expect("a span").spelled, "7d");
    assert_eq!(config.every_for(Err("no".into())).unwrap_err(), "no");

    let refused = maintained("a".into(), &config, Err("no".into()), Ok(Vec::new()));
    assert_eq!(refused.every.spelled, "7d");
    assert_eq!(refused.outcome, Err("no".to_string()));
    let silent = maintained("a".into(), &config, Ok(span("3d")), Ok(Vec::new()));
    assert_eq!(
        silent.outcome,
        Err("the sibling answered for no identity".to_string())
    );
    let first = maintained(
        "a".into(),
        &config,
        Ok(span("3d")),
        Ok(vec![IdentityOutcome::NoSlots, IdentityOutcome::NoMaintainCommand]),
    );
    assert_eq!(first.outcome, Ok(IdentityOutcome::NoSlots));
    let unasked = maintained("a".into(), &config, Ok(span("3d")), Err("down".into()));
    assert_eq!(unasked.outcome, Err("down".to_string()));
}

#[test]
fn the_pace_is_read_from_the_environment() {
    for unusable in ["", "0", "-1", "soon"] {
        assert_eq!(
            pace(&Some(unusable.to_string())),
            DEFAULT_PACE_SECONDS,
            "{PACE_ENV}={unusable:?}"
        );
    }
    assert_eq!(pace(&Some("7".to_string())), 7);
    assert_eq!(pace(&None), DEFAULT_PACE_SECONDS);
}

fn ran(identity: &str) -> Maintained {
    Maintained {
        identity: identity.into(),
        every: span("7d"),
        outcome: Ok(IdentityOutcome::Slots(vec![
            SlotMaintenance {
                number: 1,
                outcome: SlotOutcome::Ran {
                    outcome: MaintenanceOutcome::Succeeded,
                    duration_ms: 12,
                    log: None,
                },
            },
            SlotMaintenance {
                number: 2,
                outcome: SlotOutcome::NotDue {
                    last_maintained: "2026-09-19T00:00:00.000Z".into(),
                },
            },
        ])),
    }
}

fn quiet(identity: &str, outcome: IdentityOutcome) -> Maintained {
    Maintained {
        identity: identity.into(),
        every: span("7d"),
        outcome: Ok(outcome),
    }
}

/// The sibling's own outcome, as the library holds one.
fn held(outcome: &onevcs::IdentityOutcome) -> IdentityOutcome {
    match outcome {
        onevcs::IdentityOutcome::NoMaintainCommand => IdentityOutcome::NoMaintainCommand,
        onevcs::IdentityOutcome::NoSlots => IdentityOutcome::NoSlots,
        onevcs::IdentityOutcome::Claimed { by_pid } => IdentityOutcome::Claimed { by_pid: *by_pid },
        onevcs::IdentityOutcome::Slots(slots) => IdentityOutcome::Slots(
            slots
                .iter()
                .map(|slot| SlotMaintenance {
                    number: slot.number,
                    outcome: match &slot.outcome {
                        onevcs::SlotOutcome::NotDue { last_maintained } => SlotOutcome::NotDue {
                            last_maintained: last_maintained.clone(),
                        },
                        onevcs::SlotOutcome::InUse { session } => SlotOutcome::InUse {
                            session: session.0.clone(),
                        },
                        onevcs::SlotOutcome::Unavailable { holder } => SlotOutcome::Unavailable {
                            holder: holder.clone(),
                        },
                        onevcs::SlotOutcome::Broken { reason } => SlotOutcome::Broken {
                            reason: reason.clone(),
                        },
                        onevcs::SlotOutcome::Ran {
                            outcome,
                            duration_ms,
                            log,
                            ..
                        } => SlotOutcome::Ran {
                            outcome: match outcome {
                                onevcs::MaintenanceOutcome::Succeeded => {
                                    MaintenanceOutcome::Succeeded
                                }
                                onevcs::MaintenanceOutcome::Failed { exit } => {
                                    MaintenanceOutcome::Failed { exit: *exit }
                                }
                                onevcs::MaintenanceOutcome::TimedOut => {
                                    MaintenanceOutcome::TimedOut
                                }
                            },
                            duration_ms: *duration_ms,
                            log: log.as_ref().map(|log| log.0.clone()),
                        },
                    },
                })
                .collect(),
        ),
        other => panic!("no record of this vocabulary: {other:?}"),
    }
}

fn stored(document: &str) -> IdentityOutcome {
    held(&serde_json::from_str(document).expect("the sibling reads its own outcome"))
}

#[test]
fn a_sweep_is_recorded_where_something_ran_or_a_due_slot_could_not_and_never_otherwise() {
    let nothing = Swept {
        started_at: "2026-09-20T00:00:00.000Z".into(),
        identities: vec![
            quiet("a", IdentityOutcome::NoMaintainCommand),
            quiet("b", IdentityOutcome::NoSlots),
            quiet(
                "c",
                IdentityOutcome::Slots(vec![
                    SlotMaintenance {
                        number: 1,
                        outcome: SlotOutcome::NotDue {
                            last_maintained: "2026-09-19T00:00:00.000Z".into(),
                        },
                    },
                    SlotMaintenance {
                        number: 2,
                        outcome: SlotOutcome::InUse {
                            session: "s-working".into(),
                        },
                    },
                ]),
            ),
        ],
        failure: None,
    };
    assert!(!nothing.is_recorded());

    // A **due** slot the sweep could not maintain is news on its own, with
    // nothing beside it that ran: something else held it, or it is not
    // usable.
    for kept in [
        SlotOutcome::Unavailable {
            holder: "a command is working in it right now".into(),
        },
        SlotOutcome::Broken {
            reason: "its worktree is not a repository".into(),
        },
    ] {
        let said = format!("{kept:?}");
        let held = Swept {
            started_at: "2026-09-20T00:00:00.000Z".into(),
            identities: vec![quiet(
                "a",
                IdentityOutcome::Slots(vec![SlotMaintenance {
                    number: 1,
                    outcome: kept,
                }]),
            )],
            failure: None,
        };
        assert!(held.is_recorded(), "{said} was not recorded");
    }

    let something = Swept {
        started_at: "2026-09-20T00:00:00.000Z".into(),
        identities: vec![
            quiet("a", IdentityOutcome::NoMaintainCommand),
            ran("b"),
            quiet("c", IdentityOutcome::Claimed { by_pid: 42 }),
            Maintained {
                identity: "d".into(),
                every: span("1d"),
                outcome: Err("the registry could not be read".into()),
            },
        ],
        failure: None,
    };
    assert!(something.is_recorded());
    let answers = [
        r#"{"slots":[{"number":1,"outcome":{"ran":{"outcome":"succeeded","duration_ms":12}}},{"number":2,"outcome":{"not-due":{"last_maintained":"2026-09-19T00:00:00.000Z"}}}]}"#,
        r#"{"claimed":{"by_pid":42}}"#,
    ];
    let unread = || Err("nothing was serialized".to_string());
    let mut serialized: Vec<Result<Json, String>> = something
        .identities
        .iter()
        .map(|_| unread())
        .collect();
    for (identity, answer) in [("b", answers[0]), ("c", answers[1])] {
        let at = something
            .identities
            .iter()
            .position(|one| one.identity == identity)
            .expect("it was visited");
        serialized[at] = Ok(read(answer));
    }
    let payload: serde_json::Value =
        serde_json::from_str(&render(&Json::Object(something.payload(serialized)))).expect("JSON");
    assert_eq!(payload["started_at"], "2026-09-20T00:00:00.000Z");
    assert!(payload.get("error").is_none());
    let identities = payload["identities"].as_array().expect("an array");
    assert_eq!(
        identities
            .iter()
            .map(|entry| entry["identity"].as_str().expect("a key"))
            .collect::<Vec<_>>(),
        ["b", "c", "d"],
        "{payload}"
    );
    assert_eq!(identities[0]["every"], "7d");
    assert_eq!(
        identities[0]["outcome"]["slots"][0]["outcome"]["ran"]["outcome"],
        "succeeded"
    );
    assert_eq!(
        identities[0]["outcome"]["slots"][1]["outcome"]["not-due"]["last_maintained"],
        "2026-09-19T00:00:00.000Z"
    );
    assert_eq!(identities[1]["outcome"]["claimed"]["by_pid"], 42);
    assert_eq!(identities[2]["error"], "the registry could not be read");
    assert!(identities[2].get("outcome").is_none());
    // The sibling's shape, as the sibling reads it back.
    let back: onevcs::IdentityOutcome = serde_json::from_value(identities[0]["outcome"].clone())
        .expect("the sibling reads its own outcome back");
    assert_eq!(Ok(held(&back)), ran("b").outcome);

    let failed = Swept {
        started_at: "2026-09-20T00:00:00.000Z".into(),
        identities: Vec::new(),
        failure: Some("the host's registered identities could not be read".into()),
    };
    assert!(failed.is_recorded());
    let payload: serde_json::Value =
        serde_json::from_str(&render(&Json::Object(failed.payload(Vec::new())))).expect("JSON");
    assert_eq!(
        payload["error"],
        "the host's registered identities could not be read"
    );
    assert_eq!(payload["identities"], serde_json::Value::Array(Vec::new()));
    assert_eq!(
        Swept::unenumerated("now".into(), "denied").failure.as_deref(),
        Some("the host's registered identities could not be read: denied")
    );
}

#[test]
fn every_slot_outcome_has_a_phrase() {
    let phrases = [
        (
            SlotOutcome::NotDue {
                last_maintained: "2026-09-19T00:00:00.000Z".into(),
            },
            "not due, last maintained 2026-09-19T00:00:00.000Z",
        ),
        (
            SlotOutcome::InUse {
                session: "s-abc".into(),
            },
            "kept: session s-abc is working in it",
        ),
        (
            SlotOutcome::Unavailable {
                holder: "a command is working in it right now".into(),
            },
            "kept: busy — a command is working in it right now",
        ),
        (
            SlotOutcome::Broken {
                reason: "its record could not be read".into(),
            },
            "kept: broken — its record could not be read",
        ),
        (
            SlotOutcome::Ran {
                outcome: MaintenanceOutcome::Succeeded,
                duration_ms: 12,
                log: Some("a-1".into()),
            },
            "ran — succeeded in 12 ms, log a-1",
        ),
        (
            SlotOutcome::Ran {
                outcome: MaintenanceOutcome::Failed { exit: Some(3) },
                duration_ms: 12,
                log: None,
            },
            "ran — failed (exit 3) in 12 ms",
        ),
        (
            SlotOutcome::Ran {
                outcome: MaintenanceOutcome::Failed { exit: None },
                duration_ms: 12,
                log: None,
            },
            "ran — failed (ended by a signal, or never started) in 12 ms",
        ),
        (
            SlotOutcome::Ran {
                outcome: MaintenanceOutcome::TimedOut,
                duration_ms: 1_000,
                log: None,
            },
            "ran — timed out in 1000 ms",
        ),
    ];
    for (outcome, phrase) in phrases {
        assert_eq!(slot_phrase(&outcome), phrase);
    }
    assert_eq!(
        identity_phrase(&IdentityOutcome::Claimed { by_pid: 7 }),
        "claimed — another pool maintain (pid 7) was maintaining it"
    );
    assert_eq!(
        identity_phrase(&IdentityOutcome::NoMaintainCommand),
        "no maintain command"
    );
    assert_eq!(identity_phrase(&IdentityOutcome::NoSlots), "no slots");
    assert_eq!(
        identity_phrase(&IdentityOutcome::Slots(vec![
            SlotMaintenance {
                number: 1,
                outcome: SlotOutcome::NotDue {
                    last_maintained: "t".into()
                },
            },
            SlotMaintenance {
                number: 2,
                outcome: SlotOutcome::Broken { reason: "r".into() },
            },
        ])),
        "slot 1 not due, last maintained t; slot 2 kept: broken — r"
    );
}

#[test]
fn busy_is_not_broken_and_a_record_written_before_the_vocabulary_still_reads() {
    let busy = slot_phrase(&SlotOutcome::Unavailable {
        holder: "a maintenance run this one did not start (pid 7) has claimed it since t"
            .to_owned(),
    });
    let broken = slot_phrase(&SlotOutcome::Broken {
        reason: "its worktree is not a repository".to_owned(),
    });
    assert!(busy.contains("busy"), "{busy}");
    assert!(!busy.contains("broken"), "{busy}");
    assert!(broken.contains("broken"), "{broken}");
    assert_ne!(busy, broken);

    // The `outcome` object of a `pool-maintenance` record as a driver at the
    // previous pin wrote it: every variant that pin could answer, and none of
    // the one it could not.
    let before = stored(
        r#"{"slots": [
            {"number": 1, "outcome": {"ran": {
                "outcome": "succeeded", "duration_ms": 12, "log": "a-1"
            }}},
            {"number": 2, "outcome": {"not-due": {"last_maintained": "2026-09-19T00:00:00.000Z"}}},
            {"number": 3, "outcome": {"in-use": {"session": "s-old"}}},
            {"number": 4, "outcome": {"broken": {"reason": "its record could not be read"}}}
        ]}"#,
    );
    assert_eq!(
        identity_phrase(&before),
        "slot 1 ran — succeeded in 12 ms, log a-1; \
         slot 2 not due, last maintained 2026-09-19T00:00:00.000Z; \
         slot 3 kept: session s-old is working in it; \
         slot 4 kept: broken — its record could not be read"
    );

    // And one written by this build, read back the same way.
    let now = stored(
        r#"{"slots": [
            {"number": 1, "outcome": {"unavailable": {"holder": "a command is working in it right now"}}}
        ]}"#,
    );
    assert_eq!(
        identity_phrase(&now),
        "slot 1 kept: busy — a command is working in it right now"
    );
}

#[test]
fn the_pace_decides_the_wait_and_only_an_idle_pass_starts_a_sweep() {
    let none = Maintenance::of_launch(false, 3_600_000);
    assert_eq!(none.next_due(0), None);
    assert!(!none.is_sweeping());

    let config = MaintenanceConfig {
        version: SCHEDULE_VERSION,
        default: MaintenanceDefault { every: span("7d") },
        rules: Vec::new(),
    };
    assert_eq!(config.default.every.spelled, "7d");
    let mut scheduled = Maintenance::of_launch(true, 3_600_000);
    // Due now, and the pass was not idle: nothing starts, and the wait is
    // the recheck rather than zero.
    assert_eq!(scheduled.next_due(0), Some(RECHECK_MILLIS));
    assert!(!scheduled.consider(false, 0));
    assert!(!scheduled.is_sweeping());
    assert_eq!(scheduled.next_due(0), Some(RECHECK_MILLIS));
    // Started once: the wait is then the pace, and a second idle pass
    // inside it starts nothing more.
    scheduled.last_started = Some(1_000);
    assert!(!scheduled.consider(true, 2_000));
    assert!(!scheduled.is_sweeping());
    let until = scheduled.next_due(2_000).expect("a wait");
    assert!(until > 3_500_000 && until <= 3_600_000, "{until:?}");
}

#[test]
fn a_sweep_that_is_over_is_told_and_recorded_where_it_is_news() {
    let mut scheduled = Maintenance::of_launch(true, 10);
    assert!(scheduled.consider(true, 0));
    assert!(!scheduled.consider(true, 1_000), "one sweep runs at a time");
    assert_eq!(scheduled.next_due(1_000), None);
    let failed = Swept::unenumerated("now".into(), "denied");
    let (notice, recorded) = scheduled.record(&failed);
    assert!(recorded);
    assert!(notice.expect("a notice").ends_with("could not be read: denied"));
    assert!(!scheduled.is_sweeping());
    assert!(scheduled.consider(true, 1_000));
    assert!(scheduled.close(Some(failed)).is_some());
    assert!(Maintenance::of_launch(true, 10)
        .close(Some(Swept::unenumerated("now".into(), "denied")))
        .is_none());
}

#[test]
fn a_view_says_what_a_sweep_is_doing_and_what_the_last_one_did() {
    assert_eq!(status_line(true, &None), "");
    assert_eq!(status_line(false, &Some(None)), "");
    assert!(status_line(true, &Some(None)).ends_with("started an unrecorded time\n"));
    assert!(status_line(true, &Some(Some("t".into()))).ends_with("started t\n"));
    assert_eq!(results_lines(&None), "");
    let entry = |error: Option<&str>, outcome| SweepEntry {
        identity: Some("a".into()),
        every: Some("7d".into()),
        error: error.map(str::to_string),
        outcome,
    };
    let rendered = results_lines(&Some(SweepRecord {
        started_at: None,
        error: Some("denied".into()),
        identities: vec![
            entry(Some("down"), None),
            entry(None, Some(None)),
            entry(None, None),
            entry(None, Some(Some(IdentityOutcome::NoSlots))),
        ],
    }));
    assert_eq!(
        rendered,
        "  pool maintenance: last sweep that did something started at an unrecorded time\n      \
         the host's identities could not be enumerated: denied\n      \
         a (every 7d): failed — down\n      \
         a (every 7d): an outcome this build does not read\n      \
         a (every 7d): no outcome recorded\n      \
         a (every 7d): no slots\n"
    );
}

#[test]
fn a_sweep_keeps_every_identity_in_the_order_it_was_asked() {
    let config = written("version: 1\ndefault:\n  every: 7d\n").expect("the schedule reads");
    let swept = sweep(
        &config,
        "2026-01-01T00:00:00Z".into(),
        Ok(vec![
            Asked {
                identity: "a".into(),
                every: Ok(span("3d")),
                answered: Ok(vec![IdentityOutcome::NoSlots]),
            },
            Asked {
                identity: "b".into(),
                every: Err("no".into()),
                answered: Err("unasked".into()),
            },
        ]),
    );
    assert_eq!(swept.failure, None);
    assert_eq!(swept.started_at, "2026-01-01T00:00:00Z");
    assert_eq!(swept.identities.len(), 2);
    assert_eq!(swept.identities[0].outcome, Ok(IdentityOutcome::NoSlots));
    assert_eq!(swept.identities[0].every.spelled, "3d");
    assert_eq!(swept.identities[1].identity, "b");
    assert_eq!(swept.identities[1].outcome, Err("no".to_string()));
    assert_eq!(swept.identities[1].every.spelled, "7d");

    let unread = sweep(&config, "now".into(), Err("no registry".into()));
    assert!(unread.identities.is_empty());
    assert_eq!(
        unread.failure.as_deref(),
        Some("the host's registered identities could not be read: no registry")
    );
}

#[test]
fn an_outcome_that_could_not_be_serialized_is_recorded_as_that() {
    let swept = Swept {
        started_at: "now".into(),
        identities: vec![
            Maintained {
                identity: "quiet".into(),
                every: span("7d"),
                outcome: Ok(IdentityOutcome::NoSlots),
            },
            Maintained {
                identity: "claimed".into(),
                every: span("1d"),
                outcome: Ok(IdentityOutcome::Claimed { by_pid: 3 }),
            },
        ],
        failure: None,
    };
    let payload = swept.payload(vec![Ok(Json::Null), Err("no such form".into())]);
    assert_eq!(
        render(&Json::Object(payload)),
        r#"{"started_at":"now","identities":[{"identity":"claimed","every":"1d","error":"the sibling's outcome could not be recorded: no such form"}]}"#
    );
}

fn recorded(kind: PipelineKind, payload: &str) -> Envelope {
    let Json::Object(payload) = read(payload) else {
        panic!("a payload is a mapping");
    };
    Envelope {
        v: 1,
        ts: "now".into(),
        stream: "s".into(),
        seq: 0,
        source: Source::Pipeline,
        kind: EventKind(kind.as_str().into()),
        labels: Labels::default(),
        payload,
        artifacts: Vec::new(),
    }
}

#[test]
fn what_results_says_is_read_off_the_last_sweep_recorded() {
    assert!(last_sweep(&Vec::new(), Vec::new()).is_none());
    let events = vec![
        recorded(
            PipelineKind::PoolMaintenance,
            r#"{"started_at": "first", "identities": [{"identity": "old"}]}"#,
        ),
        recorded(
            PipelineKind::PoolMaintenance,
            r#"{"started_at": "second", "error": 7, "identities": [
                {"identity": "a", "every": "7d", "outcome": {"claimed": {"by_pid": 42}}},
                {"identity": 7, "every": null, "outcome": null},
                {"identity": "c", "error": "down", "outcome": "no-slots"},
                "nothing"
            ]}"#,
        ),
        recorded(PipelineKind::RunStarted, r#"{"started_at": "third"}"#),
    ];
    let outcomes: Vec<Option<IdentityOutcome>> = last_outcomes(&events)
        .into_iter()
        .map(|outcome| {
            let document: serde_json::Value = serde_json::from_str(&render(outcome?)).ok()?;
            let read: onevcs::IdentityOutcome = serde_json::from_value(document).ok()?;
            Some(held(&read))
        })
        .collect();
    assert_eq!(outcomes.len(), 4);
    assert_eq!(outcomes[0], Some(IdentityOutcome::Claimed { by_pid: 42 }));
    assert_eq!(outcomes[1], None);
    assert_eq!(outcomes[3], None);
    assert_eq!(
        results_lines(&last_sweep(&events, outcomes)),
        "  pool maintenance: last sweep that did something started second\n      \
         a (every 7d): claimed — another pool maintain (pid 42) was maintaining it\n      \
         an unnamed identity (every ?): an outcome this build does not read\n      \
         c (every ?): failed — down\n      \
         an unnamed identity (every ?): no outcome recorded\n"
    );

    let bare = vec![recorded(PipelineKind::PoolMaintenance, r#"{"identities": {}}"#)];
    assert!(last_outcomes(&bare).is_empty());
    assert_eq!(
        results_lines(&last_sweep(&bare, Vec::new())),
        "  pool maintenance: last sweep that did something started at an unrecorded time\n"
    );
}
