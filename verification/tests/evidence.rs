use spec_driven_docs::digest::Sha256;
use spec_driven_docs::plan::evidence::{Ledger, Producer};

#[test]
fn a_recorded_observation_is_citable_by_the_reference_it_returns() {
    let mut ledger = Ledger::new();
    let reference = ledger.record(
        "record",
        "the instance manifest",
        Producer::Record,
        "2026-09-12T00:00:00Z",
        Some(Sha256::of(b"x")),
        "read from disk",
    );
    assert_eq!(reference, "record");
    assert!(ledger.holds("record"));
    assert!(!ledger.holds("absent"));
    assert_eq!(ledger.ids(), ["record"]);
}

#[test]
fn an_observation_without_bytes_carries_no_digest() {
    let mut ledger = Ledger::new();
    ledger.record(
        "host",
        "the resolved paths",
        Producer::Host,
        "2026-09-12T00:00:00Z",
        None,
        "read from the environment",
    );
    assert_eq!(ledger.items[0].sha256, None);
    assert_eq!(ledger.items[0].producer, Producer::Host);
}

#[test]
fn observations_keep_the_order_they_were_made_in() {
    let mut ledger = Ledger::new();
    ledger.record("one", "a", Producer::Disk, "t", None, "m");
    ledger.record("two", "b", Producer::Bundle, "t", None, "m");
    assert_eq!(ledger.ids(), ["one", "two"]);
    assert!(ledger.holds("one"));
}
