//! What a driver's loop says it did.
use onepipeline::json::Json;
use onepipeline::loopstats::{asked, LoopStats};

#[test]
fn nothing_is_written_when_nobody_asked_for_it() {
    assert!(!asked(None));
    assert!(!asked(Some("")), "an empty setting asks for nothing");
    let stats = LoopStats::new();
    assert!(stats.flush(None).is_none());
    assert!(stats.flush(Some("")).is_none());
}

#[test]
fn every_count_a_journey_reads_is_written_under_its_own_name() {
    let mut stats = LoopStats::new();
    stats.pass();
    stats.statuses_derived();
    stats.published();
    stats.upstream_read();
    stats.release_asked();
    stats.store_read(7);
    let written = stats.flush(Some("1")).expect("the counts are written");
    for name in [
        "passes",
        "statuses",
        "publications",
        "upstream_reads",
        "release_asks",
        "store_bytes",
    ] {
        assert!(
            written
                .iter()
                .any(|(key, value)| key == name && matches!(value, Json::Count(count) if *count > 0)),
            "{name} is not a count in {written:?}"
        );
    }
    assert_eq!(written.len(), 6);
    assert_eq!(written[5], ("store_bytes".to_string(), Json::Count(7)));
}

#[test]
fn a_count_past_the_last_number_starts_over() {
    let mut stats = LoopStats::new();
    stats.store_read(u64::MAX);
    stats.store_read(3);
    assert_eq!(stats.store_bytes, 2);
}
