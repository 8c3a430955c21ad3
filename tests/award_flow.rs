use airdrop_ledger::award::{AwardAttempt, Outcome, Step, REWARD_AMOUNT};
use airdrop_ledger::gas::{ChainQuote, GasError, GasPolicy};
use airdrop_ledger::ledger::Ledger;

fn market(price: u128) -> ChainQuote {
    ChainQuote { market_price: Some(price), base_fee: None, gas_estimate: None }
}

#[test]
fn gated_retry_exhausts_after_bound() {
    let policy = GasPolicy::GatedRetry { ceiling: 100, limit: 60_000, max_attempts: 10, retry_interval_ms: 2_500 };
    let ledger = Ledger::new();
    let mut attempt = AwardAttempt::start(&ledger, "0xaa".to_string(), REWARD_AMOUNT).unwrap();
    let mut evaluations = 0;
    let mut waits = 0;
    loop {
        evaluations += 1;
        match attempt.on_quote(&policy, &market(150)) {
            Step::Wait { interval_ms } => {
                assert_eq!(interval_ms, 2_500);
                waits += 1;
            }
            Step::Abandon => break,
            other => panic!("unexpected step {:?}", other),
        }
        assert!(evaluations < 100);
    }
    assert_eq!(evaluations, 10);
    assert_eq!(waits, 9);
    assert_eq!(attempt.evaluations, 10);
}

#[test]
fn gated_retry_sends_once_price_drops() {
    let policy = GasPolicy::GatedRetry { ceiling: 100, limit: 60_000, max_attempts: 10, retry_interval_ms: 2_500 };
    let ledger = Ledger::new();
    let mut attempt = AwardAttempt::start(&ledger, "0xaa".to_string(), REWARD_AMOUNT).unwrap();
    assert_eq!(attempt.on_quote(&policy, &market(101)), Step::Wait { interval_ms: 2_500 });
    assert_eq!(attempt.on_quote(&policy, &market(100)), Step::Send { price: 100, limit: 60_000 });
}

#[test]
fn policy_failure_gives_up() {
    let ledger = Ledger::new();
    let mut attempt = AwardAttempt::start(&ledger, "0xaa".to_string(), REWARD_AMOUNT).unwrap();
    let none = ChainQuote { market_price: None, base_fee: None, gas_estimate: None };
    assert_eq!(
        attempt.on_quote(&GasPolicy::estimated_minimum(), &none),
        Step::Fail(GasError::BaseFeeUnavailable)
    );
}

#[test]
fn refused_send_records_nothing() {
    let mut ledger = Ledger::new();
    let attempt = AwardAttempt::start(&ledger, "0xaa".to_string(), REWARD_AMOUNT).unwrap();
    match attempt.on_sent(&mut ledger, Err("insufficient funds".to_string())) {
        Outcome::SendFailed { reason } => assert_eq!(reason, "insufficient funds"),
        other => panic!("unexpected outcome {:?}", other),
    }
    assert!(!ledger.has_paid(&"0xaa".to_string()));
}

#[test]
fn end_to_end_pays_each_recipient_once() {
    let mut ledger = Ledger::new();
    let policy = GasPolicy::fixed();
    let no_quote = ChainQuote { market_price: None, base_fee: None, gas_estimate: None };
    // first event: its identifier resolves to this owner
    let owner = "0x00000000000000000000000000000000000000a1".to_string();
    assert!(!ledger.has_paid(&owner));
    let mut attempt = AwardAttempt::start(&ledger, owner.clone(), REWARD_AMOUNT).unwrap();
    let step = attempt.on_quote(&policy, &no_quote);
    assert_eq!(step, Step::Send { price: 1_000_000, limit: 500_000 });
    match attempt.on_sent(&mut ledger, Ok("0xabc".to_string())) {
        Outcome::Recorded { tx_reference } => assert_eq!(tx_reference, "0xabc"),
        other => panic!("unexpected outcome {:?}", other),
    }
    let e = ledger.entry(&owner).unwrap();
    assert_eq!(e.amount, REWARD_AMOUNT);
    assert_eq!(e.tx_reference, "0xabc");
    // second event, another identifier, same owner: nothing is sent
    assert!(ledger.has_paid(&owner));
    assert!(AwardAttempt::start(&ledger, owner.clone(), REWARD_AMOUNT).is_none());
    assert_eq!(ledger.len(), 1);
}

#[test]
fn accepted_send_for_recorded_recipient_keeps_first_entry() {
    let mut ledger = Ledger::new();
    let attempt = AwardAttempt::start(&ledger, "0xaa".to_string(), REWARD_AMOUNT).unwrap();
    ledger.record_at("0xaa".to_string(), 1, "0x01".to_string(), 5).unwrap();
    match attempt.on_sent(&mut ledger, Ok("0x02".to_string())) {
        Outcome::AlreadyRecorded { tx_reference } => assert_eq!(tx_reference, "0x02"),
        other => panic!("unexpected outcome {:?}", other),
    }
    let e = ledger.entry(&"0xaa".to_string()).unwrap();
    assert_eq!(e.tx_reference, "0x01");
    assert_eq!(e.amount, 1);
}
