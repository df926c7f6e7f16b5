use amanda::amaudit::{AuditEntry, AuditTrail};
use amanda::time::Timestamp;
use amanda::AmandaError;

fn json_text(s: &str) -> String {
    serde_json::to_string(s).unwrap()
}

fn trail() -> AuditTrail {
    AuditTrail::new("test".to_string(), None)
}

#[test]
fn test_audit_entry_hash() {
    let entry = AuditEntry::new(
        0,
        "test".to_string(),
        "test-source".to_string(),
        json_text("test data"),
        String::new(),
    ).unwrap();
    assert!(entry.verify_hash());
    assert!(!entry.hash.is_empty());
}

#[test]
fn test_audit_chain() {
    let mut trail = trail();

    trail.add_entry("event1".to_string(), "source".to_string(), json_text("data1")).unwrap();
    trail.add_entry("event2".to_string(), "source".to_string(), json_text("data2")).unwrap();
    trail.add_entry("event3".to_string(), "source".to_string(), json_text("data3")).unwrap();

    assert_eq!(trail.entries.len(), 3);

    trail.verify_chain().unwrap();

    assert_eq!(trail.entries[1].prev_hash, trail.entries[0].hash);
    assert_eq!(trail.entries[2].prev_hash, trail.entries[1].hash);
}

#[test]
fn test_tamper_detection() {
    let mut trail = trail();
    trail.add_entry("event1".to_string(), "source".to_string(), json_text("data1")).unwrap();
    trail.add_entry("event2".to_string(), "source".to_string(), json_text("data2")).unwrap();

    trail.entries[0].data = json_text("tampered");

    assert!(trail.verify_chain().is_err());
}

#[test]
fn entry_hash_is_sha256_of_fields() {
    let ts = Timestamp::from_parts(0, 0).unwrap();
    let entry = AuditEntry::with_timestamp(
        0,
        ts,
        "test".to_string(),
        "test-source".to_string(),
        "\"test data\"".to_string(),
        String::new(),
    ).unwrap();
    assert_eq!(entry.hash, "ccf3b384fe61529b23ae38d3f7ca2fbe860d1c6ba3e9c00881992995ed0734b6");
    assert_eq!(entry.hash.len(), 64);
}

#[test]
fn entry_hash_covers_unicode_and_links() {
    let ts = Timestamp::from_parts(1431648000, 0).unwrap();
    let entry = AuditEntry::with_timestamp(
        7,
        ts,
        "ünï".to_string(),
        "src".to_string(),
        "{\"k\":[1,2]}".to_string(),
        "abc".to_string(),
    ).unwrap();
    assert_eq!(entry.hash, "df328f16553392f93e92f6860f15bd4572f75cfcad03492dae2ddf4bc7509321");
    assert_eq!(entry.calculate_hash(), entry.hash);
}

#[test]
fn add_entry_numbers_and_links_entries() {
    let mut trail = trail();
    assert_eq!(trail.last_hash(), "");
    let first = trail.add_entry("a".to_string(), "s".to_string(), "1".to_string()).unwrap().clone();
    assert_eq!(first.sequence, 0);
    assert_eq!(first.prev_hash, "");
    assert_eq!(trail.last_hash(), first.hash);
    let second = trail.add_entry("b".to_string(), "s".to_string(), "2".to_string()).unwrap().clone();
    assert_eq!(second.sequence, 1);
    assert_eq!(second.prev_hash, first.hash);
    assert_eq!(trail.last_hash(), second.hash);
    assert!(trail.verify_chain().is_ok());
}

#[test]
fn empty_trail_verifies() {
    assert!(trail().verify_chain().is_ok());
    assert_eq!(trail().metadata.version, "0.1.0");
    assert_eq!(trail().metadata.generator, "test");
}

#[test]
fn broken_link_is_reported_at_its_index() {
    let mut trail = trail();
    for i in 0..4 {
        trail.add_entry("e".to_string(), "s".to_string(), format!("{}", i)).unwrap();
    }
    // Re-seal entry 2 after changing its link: its own hash is right, the link is not.
    trail.entries[2].prev_hash = "0000".to_string();
    trail.entries[2].hash = trail.entries[2].calculate_hash();
    assert_eq!(trail.verify_chain(), Err(AmandaError::HashChainViolation { index: 2 }));
}

#[test]
fn rewritten_hash_breaks_next_link() {
    let mut trail = trail();
    trail.add_entry("e".to_string(), "s".to_string(), "1".to_string()).unwrap();
    trail.add_entry("e".to_string(), "s".to_string(), "2".to_string()).unwrap();
    trail.add_entry("e".to_string(), "s".to_string(), "3".to_string()).unwrap();
    // Tamper with entry 1 and re-seal it: entry 2 no longer names its hash.
    trail.entries[1].source = "forged".to_string();
    trail.entries[1].hash = trail.entries[1].calculate_hash();
    assert_eq!(trail.verify_chain(), Err(AmandaError::HashChainViolation { index: 2 }));
}

#[test]
fn tampered_first_entry_is_reported_first() {
    let mut trail = trail();
    trail.add_entry("e".to_string(), "s".to_string(), "1".to_string()).unwrap();
    trail.add_entry("e".to_string(), "s".to_string(), "2".to_string()).unwrap();
    trail.entries[0].data = "\"x\"".to_string();
    assert_eq!(trail.verify_chain(), Err(AmandaError::HashChainViolation { index: 0 }));
}

#[test]
fn timestamps_follow_chrono() {
    assert!(Timestamp::from_parts(0, 2_000_000_000).is_none());
    assert!(Timestamp::from_parts(0, 1_500_000_000).is_none());
    assert!(Timestamp::from_parts(59, 1_500_000_000).is_some());
    assert!(Timestamp::from_parts(i64::MAX, 0).is_none());
    let t = Timestamp::from_parts(1431648000, 123_000_000).unwrap();
    assert_eq!(t.secs(), 1431648000);
    assert_eq!(t.nanos(), 123_000_000);
    // The hash input carries the time as RFC 3339 text: 2015-05-15T00:00:00.123+00:00.
    let entry = AuditEntry::with_timestamp(0, t, "a".to_string(), "b".to_string(), "1".to_string(), String::new()).unwrap();
    assert_eq!(entry.hash, "a0db7c0ae707e820a085c1d6878a93ef8270e0af5fe2ebb12047ce8307bb15a6");
}

#[test]
fn removed_genesis_entry_is_detected() {
    let mut trail = trail();
    trail.add_entry("event1".to_string(), "source".to_string(), json_text("data1")).unwrap();
    trail.add_entry("event2".to_string(), "source".to_string(), json_text("data2")).unwrap();
    trail.entries.remove(0);
    assert_eq!(trail.verify_chain(), Err(AmandaError::HashChainViolation { index: 0 }));
}

#[test]
fn lone_entry_naming_a_predecessor_fails() {
    let mut trail = trail();
    let entry = AuditEntry::new(0, "e".to_string(), "s".to_string(), "1".to_string(), "abc".to_string()).unwrap();
    assert!(entry.verify_hash());
    trail.entries.push(entry);
    assert_eq!(trail.verify_chain(), Err(AmandaError::HashChainViolation { index: 0 }));
}

#[test]
fn field_boundaries_are_part_of_the_hash() {
    let ts = Timestamp::from_parts(0, 0).unwrap();
    let e = AuditEntry::with_timestamp(0, ts, "a:b".to_string(), "c".to_string(), "1".to_string(), String::new()).unwrap();
    assert_eq!(e.hash, "900a889d7886d3cb8720e865959f9b02580532ce36cc71e943e8613d429017f2");
    let mut moved = e.clone();
    moved.entry_type = "a".to_string();
    moved.source = "b:c".to_string();
    assert_eq!(moved.calculate_hash(), "ce1467e5bdde2ef8a525bcd99e8c24d36dee171d532ad1dc78a72e95367bd6c8");
    assert!(e.verify_hash());
    assert!(!moved.verify_hash());
}

#[test]
fn sealed_and_linked_entries_verify_whatever_their_numbers() {
    let mut trail = trail();
    trail.add_entry("e".to_string(), "s".to_string(), "1".to_string()).unwrap();
    trail.add_entry("e".to_string(), "s".to_string(), "2".to_string()).unwrap();
    // Renumber the last entry and re-seal it: it is still sealed and linked.
    trail.entries[1].sequence = 5;
    trail.entries[1].hash = trail.entries[1].calculate_hash();
    assert_eq!(trail.verify_chain(), Ok(()));
}

#[test]
fn data_is_held_in_compact_form() {
    let mut trail = trail();
    let e = trail.add_entry("e".to_string(), "s".to_string(), "{ \"b\" : 1, \"a\": [1, 2] }".to_string()).unwrap();
    assert_eq!(e.data, "{\"a\":[1,2],\"b\":1}");
    assert!(trail.verify_chain().is_ok());
}

#[test]
fn backslashes_are_escaped_in_the_hash_input() {
    let ts = Timestamp::from_parts(0, 0).unwrap();
    let e = AuditEntry::with_timestamp(0, ts, "a\\b".to_string(), "c".to_string(), "1".to_string(), String::new()).unwrap();
    assert_eq!(e.hash, "5708fddb16678205e7f96ac5163f6c6c78e2bf2a6d7329ecbf03f4da6c81ea84");
}

#[test]
fn data_that_is_not_json_is_refused() {
    assert!(matches!(
        AuditEntry::new(0, "e".to_string(), "s".to_string(), "not json".to_string(), String::new()),
        Err(AmandaError::Serialization(_))
    ));
    let mut trail = trail();
    trail.add_entry("e".to_string(), "s".to_string(), "1".to_string()).unwrap();
    let before = trail.clone();
    assert!(matches!(
        trail.add_entry("e".to_string(), "s".to_string(), "{\"a\":".to_string()),
        Err(AmandaError::Serialization(_))
    ));
    assert_eq!(trail, before);
    assert!(trail.verify_chain().is_ok());
}

#[test]
fn chrono_range_and_leap_seconds() {
    assert!(Timestamp::from_parts(-8_334_601_228_800, 0).is_some());
    assert!(Timestamp::from_parts(-8_334_601_228_801, 999_999_999).is_none());
    assert!(Timestamp::from_parts(8_210_266_876_799, 999_999_999).is_some());
    assert!(Timestamp::from_parts(8_210_266_876_799, 1_999_999_999).is_some());
    assert!(Timestamp::from_parts(8_210_266_876_800, 0).is_none());
    assert!(Timestamp::from_parts(i64::MIN, 0).is_none());
    // A leap second only on a second numbered 59, before or after the epoch.
    assert!(Timestamp::from_parts(-1, 1_000_000_000).is_some());
    assert!(Timestamp::from_parts(-2, 1_000_000_000).is_none());
    assert!(Timestamp::from_parts(119, 1_999_999_999).is_some());
    assert!(Timestamp::from_parts(119, 2_000_000_000).is_none());
}
