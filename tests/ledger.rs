use airdrop_ledger::address::address_key;
use airdrop_ledger::ledger::{Ledger, LedgerEntry, RecordError};

fn addr(s: &str) -> String {
    s.to_string()
}

#[test]
fn second_record_for_same_recipient_is_refused() {
    let mut ledger = Ledger::new();
    assert_eq!(ledger.record_at(addr("0xaa"), 5, addr("0x01"), 1000), Ok(()));
    assert_eq!(
        ledger.record_at(addr("0xaa"), 7, addr("0x02"), 2000),
        Err(RecordError::AlreadyPaid)
    );
    assert_eq!(ledger.len(), 1);
    let e = ledger.entry(&addr("0xaa")).unwrap();
    assert_eq!(e.amount, 5);
    assert_eq!(e.tx_reference, "0x01");
    assert_eq!(e.awarded_at, 1000);
}

#[test]
fn fresh_load_has_nobody_paid() {
    let ledger = Ledger::load_from(None);
    assert!(!ledger.has_paid(&addr("0xaa")));
    assert_eq!(ledger.len(), 0);
    let stored = vec![LedgerEntry::new(addr("0xbb"), 1, 2, addr("0x03"))];
    let ledger = Ledger::load_from(Some(stored));
    assert!(!ledger.has_paid(&addr("0xaa")));
    assert!(ledger.has_paid(&addr("0xbb")));
}

#[test]
fn record_persist_load_round_trip() {
    let mut ledger = Ledger::new();
    ledger.record_at(addr("0xcc"), 100_000_000_000_000_000_000, addr("0xfeed"), 1_700_000_000_000).unwrap();
    ledger.record_at(addr("0xdd"), 3, addr("0xbeef"), 1_700_000_000_001).unwrap();
    let written = ledger.entries();
    assert_eq!(written.len(), 2);
    let fresh = Ledger::load_from(Some(written));
    assert!(fresh.has_paid(&addr("0xcc")));
    let e = fresh.entry(&addr("0xcc")).unwrap();
    assert_eq!(e.amount, 100_000_000_000_000_000_000);
    assert_eq!(e.tx_reference, "0xfeed");
    assert_eq!(e.awarded_at, 1_700_000_000_000);
    assert_eq!(fresh.entry(&addr("0xdd")).unwrap().tx_reference, "0xbeef");
    assert_eq!(fresh.len(), 2);
}

#[test]
fn later_stored_entry_for_a_recipient_wins() {
    let stored = vec![
        LedgerEntry::new(addr("0xaa"), 1, 10, addr("0x01")),
        LedgerEntry::new(addr("0xbb"), 2, 20, addr("0x02")),
        LedgerEntry::new(addr("0xaa"), 3, 30, addr("0x03")),
    ];
    let ledger = Ledger::load_from(Some(stored));
    assert_eq!(ledger.len(), 2);
    let e = ledger.entry(&addr("0xaa")).unwrap();
    assert_eq!(e.amount, 30);
    assert_eq!(e.tx_reference, "0x03");
}

#[test]
fn record_stamps_current_time() {
    let mut ledger = Ledger::new();
    assert_eq!(ledger.record(addr("0xee"), 9, addr("0x09")), Ok(()));
    let e = ledger.entry(&addr("0xee")).unwrap();
    assert!(e.awarded_at > 1_600_000_000_000);
    assert_eq!(e.amount, 9);
    assert_eq!(ledger.record(addr("0xee"), 9, addr("0x0a")), Err(RecordError::AlreadyPaid));
}

#[test]
fn unknown_recipient_has_no_entry() {
    let ledger = Ledger::new();
    assert!(ledger.entry(&addr("0x00")).is_none());
}

#[test]
fn address_key_is_lowercase_hex() {
    let mut bytes = [0u8; 20];
    bytes[0] = 0xAB;
    bytes[1] = 0x0f;
    bytes[19] = 0x9C;
    assert_eq!(
        address_key(&bytes),
        "0xab0f00000000000000000000000000000000009c"
    );
}
