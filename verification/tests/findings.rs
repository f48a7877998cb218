//! What a finding asks for, and what answers it.
use onepipeline::findings::{
    answer, answer_requested, answered_alongside, correlation, recorded, requests, satisfies, Asked,
    Committed, FindingKind, Op, RequestedEdit, Requests, DIGEST,
};
use onepipeline::json::Json;

fn read(document: &str) -> Json {
    of(&serde_json::from_str(document).unwrap_or_else(|why| panic!("{why}: {document}")))
}

fn of(value: &serde_json::Value) -> Json {
    match value {
        serde_json::Value::Null => Json::Null,
        serde_json::Value::Bool(value) => Json::Bool(*value),
        serde_json::Value::Number(number) => {
            if let Some(count) = number.as_u64() {
                Json::Count(count)
            } else if let Some(debt) = number.as_i64() {
                Json::Debt(debt)
            } else {
                Json::Number(number.to_string())
            }
        }
        serde_json::Value::String(text) => Json::Text(text.clone()),
        serde_json::Value::Array(list) => Json::List(list.iter().map(of).collect()),
        serde_json::Value::Object(fields) => Json::Object(
            fields
                .iter()
                .map(|(key, value)| (key.clone(), of(value)))
                .collect(),
        ),
    }
}

fn key(kind: FindingKind, node: &str) -> String {
    correlation(kind, node).expect("a key")
}

fn conflicted(node: &str) -> (Requests, String) {
    let mut recorded = Requests::new();
    let key = key(FindingKind::SessionConflict, node);
    requests(&mut recorded, &key, FindingKind::SessionConflict.asks_for(), node);
    (recorded, key)
}

fn retried(node: &str) -> Vec<Committed> {
    vec![Committed::Retry(node.into())]
}

#[test]
fn a_findings_key_is_stable_and_one_per_kind_and_node() {
    let conflict = FindingKind::SessionConflict;
    assert_eq!(
        key(conflict, "service"),
        key(conflict, "service"),
        "the same finding raised again carries a different key"
    );
    assert_ne!(key(conflict, "service"), key(conflict, "other"));
    assert!(key(conflict, "service").contains("session-conflict.service."));

    // Two ids no correlation alphabet can spell, and no length bounds: the
    // node is sanitized and cut, and the digest is what keeps them apart.
    assert_ne!(
        key(conflict, "ship it/now (please)"),
        key(conflict, "ship it/now (please!)")
    );
    let long = "n".repeat(4096);
    assert_eq!(key(conflict, &long), key(conflict, &long));
    assert_ne!(key(conflict, &long), key(conflict, &format!("{long}n")));
}

#[test]
fn the_key_carries_the_digest_of_the_kind_and_the_node() {
    let made = key(FindingKind::SessionConflict, "service");
    let digest = made.rsplit('.').next().expect("a digest");
    assert_eq!(digest.len(), DIGEST);
    // `printf 'session-conflict\0service' | sha256sum`
    assert_eq!(digest, "c7cc320a5079", "{made}");
    assert!(made.parse::<onemessagebus::Correlation>().is_ok());
    assert_eq!(FindingKind::SessionConflict.asks_for(), Op::Retry);
    assert_eq!(FindingKind::SessionConflict.word(), "session-conflict");
}

#[test]
fn committing_the_requested_edit_answers_the_finding_exactly_once() {
    let (recorded, correlation) = conflicted("service");
    let replies = answer_requested(&recorded, &Vec::new(), &retried("service"));
    assert_eq!(replies.len(), 1, "{replies:?}");
    assert_eq!(replies[0].0, correlation);
    assert!(
        replies[0].1.contains("`retry` of 'service'"),
        "the answer does not name the edit that answered it: {replies:?}"
    );

    // The same edit committed again answers an answered finding nothing further.
    let again = answer_requested(&recorded, &vec![correlation], &retried("service"));
    assert!(again.is_empty());
}

#[test]
fn an_edit_a_finding_did_not_ask_for_answers_nothing() {
    let (recorded, _) = conflicted("service");
    for operations in [retried("other"), vec![Committed::Other]] {
        let replies = answer_requested(&recorded, &Vec::new(), &operations);
        assert!(
            replies.is_empty(),
            "an edit nobody asked for answered a finding: {operations:?}"
        );
    }
    let request = RequestedEdit {
        op: Op::Retry,
        node: "service".into(),
    };
    assert!(satisfies(&Committed::Retry("service".into()), &request));
    assert!(!satisfies(&Committed::Other, &request));
    assert_eq!(
        answer(&request),
        "answered by the edit it asked for: a `retry` of 'service' was committed."
    );
}

#[test]
fn a_run_with_no_recorded_request_answers_nothing_and_an_unreadable_one_refuses_nothing() {
    assert!(answer_requested(&recorded(None), &Vec::new(), &retried("service")).is_empty());

    // Unreadable both ways a record can be: not a document this build would have
    // written at all, and a document whose key is not a correlation.
    for written in [
        "[]",
        r#"{"not a key": {"op": "retry", "node": "x"}}"#,
        r#"{"finding.x": {"op": "invented", "node": "x"}}"#,
        r#"{"finding.x": {"op": "retry"}}"#,
        r#"{"finding.x": {"op": "retry", "node": "x", "why": "y"}}"#,
    ] {
        let asked = recorded(Some(&read(written)));
        assert!(asked.is_empty(), "{written}");
        assert!(answer_requested(&asked, &Vec::new(), &retried("service")).is_empty());
    }
    let asked = recorded(Some(&read(r#"{"finding.x": {"op": "retry", "node": "service"}}"#)));
    assert_eq!(
        answer_requested(&asked, &Vec::new(), &retried("service")).len(),
        1
    );
}

#[test]
fn a_request_raised_again_is_the_request_it_was() {
    let (mut recorded, correlation) = conflicted("service");
    requests(&mut recorded, &correlation, Op::Retry, "service");
    assert_eq!(recorded.len(), 1);
    let other = key(FindingKind::SessionConflict, "a");
    requests(&mut recorded, &other, Op::Retry, "a");
    let keys: Vec<&String> = recorded.iter().map(|(key, _)| key).collect();
    let mut sorted = keys.clone();
    sorted.sort();
    assert_eq!(keys, sorted);
}

#[test]
fn a_reply_that_carries_the_edit_it_answers_is_told_apart() {
    let (recorded, correlation) = conflicted("service");
    let commands = |target: &str| {
        vec![Asked {
            op: "retry".into(),
            target: Some(target.into()),
        }]
    };
    let answered = vec![correlation.clone()];
    assert!(answered_alongside(&recorded, &correlation, &commands("service"), &answered));
    assert!(!answered_alongside(&recorded, &correlation, &commands("other"), &answered));
    assert!(!answered_alongside(&recorded, &correlation, &commands("service"), &Vec::new()));
    assert!(!answered_alongside(&recorded, "finding.none", &commands("service"), &answered));
}
