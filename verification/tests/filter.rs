//! The event filter, its profiles, and the launch config that declares them.
use onepipeline::event::{Envelope, EventKind, Labels, Source};
use onepipeline::filter::{
    extra_of, from_document, shipped_profile, EventFilter, Filters, LaunchConfig, Matcher, DEFAULT_PROFILE,
    LAUNCH_CONFIG_SCHEMA_VERSION, LAUNCH_CONFIG_SCHEMA_VERSIONS_READ, MONITOR_PROFILE,
};
use onepipeline::json::{render, Json};

fn read(document: &str) -> Json {
    of(&serde_json::from_str(document).unwrap_or_else(|why| panic!("{why}: {document}")))
}

fn of(value: &serde_json::Value) -> Json {
    match value {
        serde_json::Value::Null => Json::Null,
        serde_json::Value::Bool(value) => Json::Bool(*value),
        serde_json::Value::Number(number) => {
            if let Some(count) = number.as_u64() {
                Json::Count(count)
            } else if let Some(debt) = number.as_i64() {
                Json::Debt(debt)
            } else {
                Json::Number(number.to_string())
            }
        }
        serde_json::Value::String(text) => Json::Text(text.clone()),
        serde_json::Value::Array(list) => Json::List(list.iter().map(of).collect()),
        serde_json::Value::Object(fields) => Json::Object(
            fields
                .iter()
                .map(|(key, value)| (key.clone(), of(value)))
                .collect(),
        ),
    }
}

fn known(value: &serde_json::Value, keys: &'static [&'static str]) -> Result<(), String> {
    match value.as_object().and_then(|fields| {
        fields
            .keys()
            .find(|key| !keys.contains(&key.as_str()))
    }) {
        Some(stray) => {
            let refusal: serde_norway::Error = serde::de::Error::unknown_field(stray, keys);
            Err(refusal.to_string())
        }
        None => Ok(()),
    }
}

/// What a reader of the typed document makes of a text: the config, or its refusal.
fn parsed(text: &str) -> Result<LaunchConfig, String> {
    let value: serde_json::Value = serde_norway::from_str(text).map_err(|why| why.to_string())?;
    known(
        &value,
        &["schema_version", "filters", "pr_author_graph", "node_validator"],
    )?;
    let filters = &value["filters"];
    known(filters, &["agentgraph", "vcs", "profiles"])?;
    for source in ["agentgraph", "vcs"] {
        if let Some(document) = filters.get(source) {
            from_document(&of(document))?;
        }
    }
    LaunchConfig::read(&of(&value)).ok_or_else(|| "not a launch config".to_string())
}

fn load(document: &str) -> Result<LaunchConfig, String> {
    LaunchConfig::load("launch.yaml", parsed(document)).map_err(|refusal| refusal.message())
}

const GOLDEN: &str = r#"{"schema_version":3,"filters":{"agentgraph":{"exclude":[{"kind":"turn-activity"}]},"vcs":{"include":[{"kind":"gate-*"},{"kind":"session-closed"}]},"profiles":{"monitor":{},"planner":{"include":[{"source":"pipeline"}]}}},"pr_author_graph":"./graphs/pr-author.yaml","node_validator":"./scripts/check-node.sh"}"#;

const GOLDEN_EARLIER: [(u32, &str); 2] = [
    (
        2,
        r#"{"schema_version":2,"filters":{"agentgraph":{"exclude":[{"kind":"turn-activity"}]},"vcs":{"include":[{"kind":"gate-*"},{"kind":"session-closed"}]},"profiles":{"monitor":{},"planner":{"include":[{"source":"pipeline"}]}}},"pr_author_graph":"./graphs/pr-author.yaml"}"#,
    ),
    (
        1,
        r#"{"schema_version":1,"filters":{"agentgraph":{"exclude":[{"kind":"turn-activity"}]},"vcs":{"include":[{"kind":"gate-*"},{"kind":"session-closed"}]},"profiles":{"monitor":{},"planner":{"include":[{"source":"pipeline"}]}}}}"#,
    ),
];

fn kind(glob: &str) -> Matcher {
    Matcher {
        kind: Some(glob.to_string()),
        ..Matcher::default()
    }
}

fn pinned_filters() -> Filters {
    Filters {
        agentgraph: Some(EventFilter {
            allow: Vec::new(),
            exclude: vec![kind("turn-activity")],
        }),
        vcs: Some(EventFilter {
            allow: vec![kind("gate-*"), kind("session-closed")],
            exclude: Vec::new(),
        }),
        profiles: vec![
            (
                MONITOR_PROFILE.to_string(),
                shipped_profile(MONITOR_PROFILE).expect("monitor ships"),
            ),
            (
                DEFAULT_PROFILE.to_string(),
                shipped_profile(DEFAULT_PROFILE).expect("planner ships"),
            ),
        ],
    }
}

fn golden() -> LaunchConfig {
    LaunchConfig {
        schema_version: LAUNCH_CONFIG_SCHEMA_VERSION,
        filters: pinned_filters(),
        pr_author_graph: Some("./graphs/pr-author.yaml".to_string()),
        node_validator: Some("./scripts/check-node.sh".to_string()),
    }
}

fn config(document: &str) -> LaunchConfig {
    LaunchConfig::load("launch.json", parsed(document)).expect("the document is a launch config")
}

#[test]
fn a_launch_config_is_the_shape_its_version_golden_pins() {
    assert_eq!(
        render(&golden().to_json()),
        GOLDEN,
        "the launch config changed shape"
    );
}

#[test]
fn the_schema_version_and_the_golden_name_the_same_number() {
    let parsed = config(GOLDEN);
    assert_eq!(parsed.schema_version, LAUNCH_CONFIG_SCHEMA_VERSION);
    assert_eq!(parsed, golden(), "the golden is not the document it pins");
}

#[test]
fn every_earlier_version_still_reads_and_says_nothing_about_the_keys_it_never_had() {
    for (version, golden) in GOLDEN_EARLIER {
        let earlier = config(golden);
        assert_eq!(
            earlier,
            LaunchConfig {
                schema_version: version,
                filters: pinned_filters(),
                // Version 2 is the one that declared the drafting graph, and
                // it names one; version 1 never had the key at all.
                pr_author_graph: (version >= 2).then_some("./graphs/pr-author.yaml".to_string()),
                node_validator: None,
            }
        );
        assert!(
            LAUNCH_CONFIG_SCHEMA_VERSIONS_READ.contains(&earlier.schema_version),
            "the version the earlier golden declares is not one this build reads"
        );
        // And it is an *earlier* document, not this one wearing an older
        // number: what this build writes carries the current version.
        assert_ne!(earlier.schema_version, LAUNCH_CONFIG_SCHEMA_VERSION);
    }
}

#[test]
fn the_launch_level_keys_round_trip_when_named_and_are_omitted_when_they_are_not() {
    let named = LaunchConfig {
        pr_author_graph: Some("./graphs/pr-author.yaml".to_string()),
        node_validator: Some("./scripts/check-node.sh".to_string()),
        ..LaunchConfig::default()
    };
    let rendered = render(&named.to_json());
    assert_eq!(
        rendered,
        format!(
            r#"{{"schema_version":{LAUNCH_CONFIG_SCHEMA_VERSION},"pr_author_graph":"./graphs/pr-author.yaml","node_validator":"./scripts/check-node.sh"}}"#
        )
    );
    assert_eq!(config(&rendered), named);

    let unnamed = LaunchConfig::default();
    let rendered = render(&unnamed.to_json());
    for key in ["pr_author_graph", "node_validator"] {
        assert!(
            !rendered.contains(key),
            "a launch that named no {key} was written one: {rendered}"
        );
    }
    assert_eq!(config(&rendered), unnamed);
}

#[test]
fn a_launch_config_declaring_no_events_omits_the_block_and_round_trips() {
    let bare = LaunchConfig::default();
    let rendered = render(&bare.to_json());
    assert_eq!(
        rendered,
        format!(r#"{{"schema_version":{LAUNCH_CONFIG_SCHEMA_VERSION}}}"#)
    );
    assert_eq!(config(&rendered), bare);

    // And the version alone is a whole document, at every version this build
    // reads: a config that says nothing else is what a launch naming no
    // filters already means.
    for version in LAUNCH_CONFIG_SCHEMA_VERSIONS_READ {
        let minimal =
            load(&format!("schema_version: {version}\n")).expect("a bare config parses");
        assert_eq!(minimal.schema_version, version);
        assert!(minimal.filters.is_empty());
        assert_eq!(minimal.pr_author_graph, None);
        assert_eq!(minimal.node_validator, None);
    }
}

#[test]
fn a_launch_config_round_trips_without_losing_or_inventing_a_field() {
    let full = golden();
    let value: serde_json::Value =
        serde_json::from_str(&render(&full.to_json())).expect("it is JSON");
    let text = serde_norway::to_string(&value).expect("it serialises as YAML too");
    assert_eq!(load(&text).expect("it re-parses"), full);

    // The unfiltered profile is `{}` on the wire — both lists empty, and
    // neither written — so a reader can tell "admits everything" from a
    // profile that was never declared.
    let value: serde_json::Value = serde_json::from_str(GOLDEN).expect("the golden is JSON");
    assert_eq!(
        value["filters"]["profiles"]["monitor"],
        serde_json::Value::Object(serde_json::Map::new())
    );
    assert!(
        value["filters"]["agentgraph"].get("include").is_none(),
        "an empty include was written out: {value}"
    );
}

#[test]
fn a_config_carrying_a_blank_drafting_graph_still_loads_as_it_always_did() {
    for version in [2, LAUNCH_CONFIG_SCHEMA_VERSION] {
        for written in ["\"\"", "\"   \""] {
            let read = load(&format!(
                "schema_version: {version}\n\
                 pr_author_graph: {written}\n\
                 filters:\n\
                \x20 vcs:\n\
                \x20   include:\n\
                \x20     - kind: session-closed\n"
            ))
            .unwrap_or_else(|refusal| {
                panic!(
                    "a schema-{version} config carrying a blank `pr_author_graph` no longer \
                     loads, which breaks every one already on disk: {refusal}"
                )
            });
            assert_eq!(
                read.pr_author_graph.as_deref(),
                // As written, whitespace and all: this build does not decide
                // for an operator what their blank value meant.
                Some(written.trim_matches('"')),
                "a blank drafting graph was read as something other than what the file said"
            );
            assert_eq!(read.schema_version, version);
            // The rest of the document is untouched by any of this.
            assert!(read.filters.vcs.is_some(), "the block was dropped");
            assert_eq!(read.node_validator, None);
        }
    }
}

#[test]
fn a_launch_config_this_build_cannot_read_is_refused_by_name() {
    // A number this build has never written, told the versions it reads.
    let said = load("schema_version: 7\n")
        .expect_err("a version this build does not read is refused");
    assert!(said.contains("schema_version 7"), "{said}");
    for version in LAUNCH_CONFIG_SCHEMA_VERSIONS_READ {
        assert!(
            said.contains(&version.to_string()),
            "the refusal does not name version {version}, which this build reads: {said}"
        );
    }

    // A key the version this document declares never had: refused by that
    // key's name. Each key is refused by **its own** arrival version rather
    // than by the schema's current number.
    for (key, arrived, value) in [
        ("pr_author_graph", 2, "./graphs/pr-author.yaml"),
        ("node_validator", 3, "./scripts/check-node.sh"),
    ] {
        let said = load(&format!("schema_version: {}\n{key}: {value}\n", arrived - 1))
            .expect_err("a key a declared version never had is refused");
        assert!(said.contains(&format!("`{key}`")), "{said}");
        assert!(said.contains(&format!("schema {arrived} key")), "{said}");

        // And the same document at the version that has it is read.
        let read = load(&format!("schema_version: {arrived}\n{key}: {value}\n"))
            .expect("the version that declares the key reads it");
        let named = match key {
            "pr_author_graph" => read.pr_author_graph.as_deref(),
            _ => read.node_validator.as_deref(),
        };
        assert_eq!(named, Some(value));
    }

    // The key that arrives with this version, present and blank: a decision
    // half-written rather than a launch that declared nothing.
    let said = load(&format!(
        "schema_version: {LAUNCH_CONFIG_SCHEMA_VERSION}\nnode_validator: \"   \"\n"
    ))
    .expect_err("a validator that names nothing is refused");
    assert!(
        said.contains("`node_validator`") && said.contains("names nothing"),
        "{said}"
    );

    let stray = load("schema_version: 1\nfilterz:\n  vcs: {}\n")
        .expect_err("a key this schema does not declare is refused");
    assert!(stray.contains("filterz"), "{stray}");

    // The filter grammar's own refusals reach here too: the config is one
    // more boundary the same spec crosses.
    let unusable =
        load("schema_version: 1\nfilters:\n  vcs:\n    include:\n      - role: agent\n")
            .expect_err("a matcher field the grammar does not have is refused");
    assert!(unusable.contains("role"), "{unusable}");

    // And the file at fault is named.
    assert!(unusable.starts_with("launch.yaml"), "{unusable}");
}

fn envelope(source: Source, kind: &str, labels: Labels) -> Envelope {
    Envelope {
        v: 1,
        ts: "2026-01-01T00:00:00Z".into(),
        stream: "s".into(),
        seq: 1,
        source,
        kind: EventKind(kind.into()),
        labels,
        payload: Vec::new(),
        artifacts: Vec::new(),
    }
}

fn filter(document: &str) -> EventFilter {
    EventFilter::parse(from_document(&read(document))).expect("a filter")
}

#[test]
fn an_empty_filter_passes_everything_and_an_exclusion_outranks_an_inclusion() {
    let gate = envelope(Source::Vcs, "gate-passed", Labels::default());
    let turn = envelope(Source::Agentgraph, "turn-started", Labels::default());
    assert!(filter("{}").matches(&gate));
    let only_gates = filter(r#"{"include": [{"kind": "gate-*"}]}"#);
    assert!(only_gates.matches(&gate));
    assert!(!only_gates.matches(&turn));
    let both = filter(r#"{"include": [{"kind": "gate-*"}], "exclude": [{"source": "vcs"}]}"#);
    assert!(!both.matches(&gate));
    assert!(EventFilter::default().allows(Source::Vcs, "anything", &Labels::default()));
}

#[test]
fn a_label_nobody_stamped_matches_no_matcher_that_asks_for_it() {
    let asks = filter(r#"{"include": [{"node": "build"}]}"#);
    assert!(!asks.matches(&envelope(Source::Pipeline, "x", Labels::default())));
    assert!(asks.matches(&envelope(
        Source::Pipeline,
        "x",
        Labels {
            node: Some("build".into()),
            ..Labels::default()
        }
    )));
    let member = filter(r#"{"include": [{"member": "worker"}]}"#);
    assert!(member.matches(&envelope(
        Source::Agentgraph,
        "x",
        Labels {
            extra: vec![("member".into(), Json::Text("worker".into()))],
            ..Labels::default()
        }
    )));
}

#[test]
fn an_extra_that_is_no_string_is_no_label_value() {
    let stamped = |value: Json| Labels {
        extra: vec![
            ("round".into(), Json::Count(3)),
            ("member".into(), value),
            ("node".into(), Json::Text("build".into())),
        ],
        ..Labels::default()
    };
    let asks = filter(r#"{"include": [{"member": "3"}]}"#);
    let counted = stamped(Json::Count(3));
    assert!(!asks.allows(Source::Agentgraph, "x", &counted));
    assert_eq!(extra_of(&counted, "member"), None);
    assert_eq!(extra_of(&counted, "round"), None);
    let spelled = stamped(Json::Text("3".into()));
    assert!(asks.allows(Source::Agentgraph, "x", &spelled));
    assert_eq!(extra_of(&spelled, "member"), Some(&"3".to_string()));
    assert_eq!(extra_of(&spelled, "absent"), None);
    // A typed slot that is unset is read from the extras, and one that is set is not.
    let by_node = filter(r#"{"include": [{"node": "build"}]}"#);
    assert!(by_node.allows(Source::Agentgraph, "x", &spelled));
    let elsewhere = Labels {
        node: Some("other".into()),
        ..stamped(Json::Null)
    };
    assert!(!by_node.allows(Source::Agentgraph, "x", &elsewhere));
}

#[test]
fn a_copy_of_labels_keeps_every_extra_as_it_was_stamped() {
    let labels = Labels {
        run_id: Some("r".into()),
        extra: vec![
            ("round".into(), Json::Count(3)),
            ("depth".into(), Json::Debt(-1)),
            ("share".into(), Json::Number("0.5".into())),
            (
                "seen".into(),
                Json::Object(vec![(
                    "by".into(),
                    Json::List(vec![Json::Null, Json::Bool(true), Json::Text("x".into())]),
                )]),
            ),
        ],
        ..Labels::default()
    };
    assert_eq!(labels.clone(), labels);
}

#[test]
fn a_source_that_is_no_word_is_refused_as_its_reader_refuses_it() {
    for (source, said) in [
        ("7", "invalid type: integer `7`, expected string or map"),
        ("[]", "invalid type: sequence, expected string or map"),
        ("null", "invalid type: null, expected string or map"),
        ("{}", "invalid value: map, expected map with a single key"),
        (
            r#"{"vcs": null, "pipeline": null}"#,
            "invalid value: map, expected map with a single key",
        ),
        (r#"{"vcs": 7}"#, "invalid type: integer `7`, expected unit"),
        (
            r#"{"elsewhere": null}"#,
            "unknown variant `elsewhere`, expected one of `pipeline`, `agentgraph`, `vcs`",
        ),
        (
            r#""elsewhere""#,
            "unknown variant `elsewhere`, expected one of `pipeline`, `agentgraph`, `vcs`",
        ),
    ] {
        let document = read(&format!(r#"{{"include": [{{"source": {source}}}]}}"#));
        let refusal = EventFilter::parse(from_document(&document)).expect_err(source).message();
        assert!(
            refusal.ends_with(&format!("names no source family: {said}")),
            "{source}: {refusal}"
        );
    }
    let mapped = filter(r#"{"include": [{"source": {"vcs": null}}]}"#);
    assert!(mapped.allows(Source::Vcs, "x", &Labels::default()));
    assert!(!mapped.allows(Source::Pipeline, "x", &Labels::default()));
}

#[test]
fn a_filter_this_build_cannot_honour_is_refused_in_its_own_words() {
    for (document, said) in [
        (r#"[]"#, "the event filter is unusable"),
        (r#"{"includes": []}"#, "includes"),
        (r#"{"include": {}}"#, "include"),
        (r#"{"include": [7]}"#, "include"),
        (r#"{"include": [{}]}"#, "include"),
        (r#"{"include": [{"source": "elsewhere"}]}"#, "elsewhere"),
        (r#"{"include": [{"kind": ""}]}"#, "kind"),
        (r#"{"exclude": [{"role": "agent"}]}"#, "role"),
    ] {
        let refusal = EventFilter::parse(from_document(&read(document)))
            .expect_err(document)
            .message();
        assert!(refusal.starts_with("the event filter is unusable: "), "{refusal}");
        assert!(refusal.contains(said), "{document}: {refusal}");
    }
    // A value at fault is quoted the way it is written in a program.
    let refusal = EventFilter::parse(from_document(&read(r#"{"include": [{"a\"b": "x"}]}"#)))
        .unwrap_err()
        .message();
    assert!(refusal.contains(r#"names "a\"b", which is not"#), "{refusal}");
    let refusal = EventFilter {
        allow: vec![Matcher::default()],
        exclude: Vec::new(),
    }
    .validate();
    assert!(refusal.is_err());
    assert!(filter("{}").validate().is_ok());
}

#[test]
fn a_spec_is_inline_where_it_opens_an_object() {
    assert!(EventFilter::is_inline("  {}"));
    assert!(!EventFilter::is_inline("./filter.yaml"));
    assert!(!EventFilter::is_inline(""));
}

#[test]
fn a_launchs_own_profile_stands_over_the_shipped_one() {
    let filters = Filters {
        profiles: vec![(
            DEFAULT_PROFILE.to_string(),
            filter(r#"{"include": [{"source": "vcs"}]}"#),
        )],
        ..Filters::default()
    };
    let mine = filters.profile(DEFAULT_PROFILE).expect("a profile");
    assert_eq!(mine, filter(r#"{"include": [{"source": "vcs"}]}"#));
    assert_eq!(
        filters.profile(MONITOR_PROFILE).expect("a profile"),
        EventFilter::default()
    );
    let refusal = filters.profile("invented").unwrap_err().message();
    assert!(refusal.contains("invented"), "{refusal}");
    assert_eq!(filters.known(), [MONITOR_PROFILE, DEFAULT_PROFILE]);
    assert_eq!(
        Filters::default().profile(DEFAULT_PROFILE).expect("ships"),
        filter(r#"{"include": [{"source": "pipeline"}]}"#)
    );
}

#[test]
fn every_filter_shape_round_trips() {
    for document in [
        "{}",
        r#"{"include":[{"source":"agentgraph","kind":"a-?","run_id":"r","node":"n","step":"s","member":"m","persona":"p"}]}"#,
        r#"{"exclude":[{"kind":"turn-*"},{"source":"vcs"}]}"#,
    ] {
        let read_back = filter(document);
        assert_eq!(render(&read_back.to_json()), document);
    }
}

#[test]
fn a_document_that_is_no_launch_config_is_not_read_as_one() {
    for document in [
        "[]",
        "{}",
        r#"{"schema_version": "3"}"#,
        r#"{"schema_version": -1}"#,
        r#"{"schema_version": 4294967296}"#,
        r#"{"schema_version": 3, "filterz": {}}"#,
        r#"{"schema_version": 3, "filters": []}"#,
        r#"{"schema_version": 3, "filters": {"agent": {}}}"#,
        r#"{"schema_version": 3, "filters": {"vcs": {"include": [{}]}}}"#,
        r#"{"schema_version": 3, "filters": {"profiles": [{}]}}"#,
        r#"{"schema_version": 3, "filters": {"profiles": {"x": 7}}}"#,
        r#"{"schema_version": 3, "node_validator": 7}"#,
    ] {
        assert_eq!(LaunchConfig::read(&read(document)), None, "{document}");
    }
    let bare = LaunchConfig::read(&read(
        r#"{"schema_version": 9, "filters": {"vcs": null}, "pr_author_graph": null}"#,
    ))
    .expect("the shape says nothing of which versions are read");
    assert_eq!(bare.schema_version, 9);
    assert!(bare.filters.is_empty());
    assert_eq!(bare.pr_author_graph, None);
}

#[test]
fn a_refusal_carries_the_readers_own_words() {
    let said = "schema_version: invalid type: string \"3\", expected u32 at line 1 column 17";
    assert_eq!(
        LaunchConfig::load("launch.yaml", Err(said.to_string()))
            .unwrap_err()
            .message(),
        format!("launch.yaml: {said}")
    );
    assert_eq!(
        EventFilter::parse(Err(said.to_string())).unwrap_err().message(),
        format!("the event filter is unusable: {said}")
    );
}
