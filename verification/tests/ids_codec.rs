use groupd::bus::FanoutBus;
use groupd::ids::{parse_u64_dec, u64_to_dec, EntryId};

#[test]
fn test_u64_decimal_rendering() {
    assert_eq!(u64_to_dec(0), "0");
    assert_eq!(u64_to_dec(7), "7");
    assert_eq!(u64_to_dec(10), "10");
    assert_eq!(u64_to_dec(12345), "12345");
    assert_eq!(u64_to_dec(u64::MAX), "18446744073709551615");
}

#[test]
fn test_u64_decimal_parsing() {
    assert_eq!(parse_u64_dec("0"), Some(0));
    assert_eq!(parse_u64_dec("007"), Some(7));
    assert_eq!(parse_u64_dec("12345"), Some(12345));
    assert_eq!(parse_u64_dec("18446744073709551615"), Some(u64::MAX));
    assert_eq!(parse_u64_dec("18446744073709551616"), None);
    assert_eq!(parse_u64_dec(""), None);
    assert_eq!(parse_u64_dec("12a"), None);
    assert_eq!(parse_u64_dec("-1"), None);
}

#[test]
fn test_entry_id_wire_round_trip() {
    let id = EntryId { ms: 7, seq: 0 };
    assert_eq!(id.to_wire(), "7-0");
    assert_eq!(EntryId::parse("7-0"), Some(id));
    assert_eq!(EntryId::parse("0-0"), Some(EntryId { ms: 0, seq: 0 }));
    assert_eq!(
        EntryId::parse("18446744073709551615-3"),
        Some(EntryId { ms: u64::MAX, seq: 3 })
    );
    assert_eq!(EntryId::parse(""), None);
    assert_eq!(EntryId::parse("7"), None);
    assert_eq!(EntryId::parse("7-"), None);
    assert_eq!(EntryId::parse("-7"), None);
    assert_eq!(EntryId::parse("a-b"), None);
    assert_eq!(EntryId::parse("1-2-3"), None);
}

#[test]
fn test_entry_id_order() {
    let a = EntryId { ms: 1, seq: 0 };
    let b = EntryId { ms: 1, seq: 1 };
    let c = EntryId { ms: 2, seq: 0 };
    assert!(a.lt(b));
    assert!(b.lt(c));
    assert!(a.lt(c));
    assert!(!b.lt(a));
    assert!(!a.lt(a));
}

#[test]
fn test_log_append_and_read() {
    let mut bus = FanoutBus::new();
    let id1 = bus.append("g1", "alice", "c1").unwrap();
    let id2 = bus.append("g2", "bob", "c2").unwrap();
    let id3 = bus.append("g1", "alice", "c3").unwrap();
    assert!(id1.lt(id2));
    assert!(id2.lt(id3));

    let origin = EntryId { ms: 0, seq: 0 };
    let g1 = bus.read_after("g1", origin);
    assert_eq!(g1.len(), 2);
    assert_eq!(g1[0].ciphertext, "c1");
    assert_eq!(g1[1].ciphertext, "c3");
    assert_eq!(g1[0].entry_id, id1);
    assert_eq!(g1[1].entry_id, id3);
    assert_eq!(g1[0].sender, "alice");

    let g1_after = bus.read_after("g1", id1);
    assert_eq!(g1_after.len(), 1);
    assert_eq!(g1_after[0].ciphertext, "c3");

    assert!(bus.read_after("g1", id3).is_empty());
    assert!(bus.read_after("g3", origin).is_empty());
}
