//! The small pieces the rest is written in: text, documents, names, and the words for
//! them.
use onepipeline::controls::{NodeControls, NO_TURN};
use onepipeline::crossdag::{is_malformed, is_reference};
use onepipeline::error::{Error, EXIT_REFUSED};
use onepipeline::glob::glob;
use onepipeline::json::{count_field, field, flag_field, render, text_field, Json};
use onepipeline::names::NameMap;
use onepipeline::plan::{Node, Step};
use onepipeline::text::{
    bounded, first_word, is_blank, joined, lines_of, one_line, parse_u64, trimmed, trimmed_end,
    TEXT_LIMIT,
};

#[test]
fn text_reads_as_the_standard_library_reads_it() {
    for text in ["", " ", "\t a b \n", "one", "\u{a0}x\u{3000}", "é\r\n\nz\n", "a\r\r\nb"] {
        assert_eq!(trimmed(text), text.trim());
        assert_eq!(trimmed_end(text), text.trim_end());
        assert_eq!(is_blank(text), text.trim().is_empty());
        assert_eq!(lines_of(text), text.lines().collect::<Vec<_>>());
        assert_eq!(first_word(text).as_deref(), text.split_whitespace().next());
    }
    for number in ["0", "+7", "-1", "", "+", "18446744073709551615", "18446744073709551616", "1a"] {
        assert_eq!(parse_u64(number), number.parse::<u64>().ok());
    }
    let parts = vec!["a".to_string(), "b".to_string()];
    assert_eq!(joined(&parts, ", "), parts.join(", "));
}

#[test]
fn a_payload_text_is_one_bounded_line() {
    assert_eq!(one_line("a\nb\tc\u{7f}d"), "a b c d");
    let long = "é".repeat(TEXT_LIMIT + 1);
    let kept = bounded(&long);
    assert_eq!(kept.chars().count(), TEXT_LIMIT);
    assert!(kept.ends_with('…'));
    assert_eq!(bounded("short"), "short");
}

#[test]
fn a_document_is_written_as_its_serializer_writes_it() {
    let document = Json::Object(vec![
        ("quote\"".to_string(), Json::Text("line\nbreak \u{1} é".to_string())),
        (
            "list".to_string(),
            Json::List(vec![
                Json::Null,
                Json::Bool(true),
                Json::Count(u64::MAX),
                Json::Debt(i64::MIN),
                Json::Number("1.5".to_string()),
            ]),
        ),
        ("empty".to_string(), Json::Object(Vec::new())),
    ]);
    let written = render(&document);
    let read: serde_json::Value = serde_json::from_str(&written).expect("a document");
    assert_eq!(read["quote\""], "line\nbreak \u{1} é");
    assert_eq!(read["list"][2], u64::MAX);
    assert_eq!(read["list"][3], i64::MIN);
    assert_eq!(
        written,
        "{\"quote\\\"\":\"line\\nbreak \\u0001 é\",\"list\":[null,true,18446744073709551615,\
         -9223372036854775808,1.5],\"empty\":{}}"
    );
}

#[test]
fn a_field_is_read_as_the_kind_it_is() {
    let fields = vec![
        ("text".to_string(), Json::Text("t".to_string())),
        ("count".to_string(), Json::Count(3)),
        ("flag".to_string(), Json::Bool(false)),
    ];
    assert_eq!(text_field(&fields, "text").map(String::as_str), Some("t"));
    assert_eq!(text_field(&fields, "count"), None);
    assert_eq!(count_field(&fields, "count"), Some(3));
    assert!(!flag_field(&fields, "flag"));
    assert!(field(&fields, "absent").is_none());
}

#[test]
fn a_name_holds_one_value_and_keeps_its_place() {
    let mut map: NameMap<u32> = NameMap::new();
    map.insert("b".to_string(), 1);
    map.insert("a".to_string(), 2);
    map.insert("b".to_string(), 3);
    assert_eq!(map.names(), &["b", "a"]);
    assert_eq!(map.values(), &[3, 2]);
    assert_eq!(map.position("a"), Some(1));
    assert_eq!(map.get("b"), Some(&3));
    if let Some(held) = map.get_mut("a") {
        *held = 9;
    }
    assert_eq!(map.remove("b"), Some(3));
    assert_eq!(map.remove("b"), None);
    assert_eq!(map.position("a"), Some(0));
    assert_eq!((map.len(), map.get("a")), (1, Some(&9)));
}

#[test]
fn a_pattern_matches_as_the_bus_matches_it() {
    for (pattern, text) in [
        ("*", ""),
        ("turn-*", "turn-started"),
        ("turn-*", "member-died"),
        ("*-*ed", "turn-started"),
        ("a*b*c", "axxbyyc"),
        ("a*b*c", "axxbyy"),
        ("", ""),
        ("", "x"),
    ] {
        let expected = match (pattern, text) {
            ("turn-*", "member-died") | ("a*b*c", "axxbyy") | ("", "x") => false,
            _ => true,
        };
        assert_eq!(glob(pattern, text), expected, "{pattern:?} {text:?}");
    }
}

#[test]
fn a_reference_across_runs_names_a_run_and_a_node() {
    assert!(is_reference("run:other#node"));
    for malformed in ["run:other", "run:#node", "run:other#"] {
        assert!(is_malformed(malformed), "{malformed}");
        assert!(!is_reference(malformed), "{malformed}");
    }
    assert!(!is_reference("node") && !is_malformed("node"));
}

#[test]
fn a_budget_of_no_turn_is_refused_wherever_it_is_declared() {
    assert_eq!(NodeControls::of_budget(Some(0)).unwrap_err(), NO_TURN);
    let node = Node {
        max_turns: Some(0),
        ..Node::default()
    };
    assert_eq!(NodeControls::of_node(&node).unwrap_err(), NO_TURN);
    let step = Step {
        max_turns: Some(2),
        ..Step::default()
    };
    let controls = NodeControls::of_step(&step).expect("two turns are a budget");
    assert_eq!(controls.overrides().expect("an override").len(), 1);
    let none = NodeControls::of_budget(None).expect("no budget is none");
    assert!(none.overrides().expect("no override").is_empty());
}

#[test]
fn an_error_is_told_in_its_own_words() {
    assert_eq!(Error::Refused("no".to_string()).message(), "no");
    assert_eq!(
        Error::Ledger {
            path: "runs/a".to_string(),
            source: "gone".to_string(),
        }
        .message(),
        "runs/a: gone"
    );
    assert_eq!(Error::Invalid("bad".to_string()).exit_code(), EXIT_REFUSED);
    let held = Error::Locked {
        run: "demo".to_string(),
        pid: 7,
        host: "h".to_string(),
        verb: "start".to_string(),
    };
    assert!(held.message().starts_with("run 'demo' is owned by pid 7"));
}
