//! The decisions taken for one observed event: skip a recipient already paid,
//! price the transfer, wait and price again, submit, or give up; and the
//! ledger entry once the transfer was accepted.
use vstd::prelude::*;
use crate::gas::{ChainQuote, GasAction, GasDecision, GasError, GasPolicy, decision_of};
use crate::ledger::{EntryView, Ledger, RecordError};

verus! {

/// The reward paid to every eligible recipient: 100 tokens of 18 decimals.
pub const REWARD_AMOUNT: u128 = 100_000_000_000_000_000_000;

/// What to do next for an award.
#[derive(Debug, Clone, Copy, PartialEq, Eq, Structural)]
pub enum Step {
    /// Submit the transfer at this price and limit.
    Send { price: u128, limit: u128 },
    /// Wait this long, then query the chain and decide again.
    Wait { interval_ms: u64 },
    /// Give the event up for this run; nothing is recorded.
    Abandon,
    /// The policy could not decide; give the event up.
    Fail(GasError),
}

/// How an award that reached submission ended.
#[derive(Debug)]
pub enum Outcome {
    /// The transfer was accepted and the ledger now holds the recipient.
    Recorded { tx_reference: String },
    /// The transfer was accepted, but the ledger already held the recipient.
    AlreadyRecorded { tx_reference: String },
    /// The node refused the transfer, for this reason.
    SendFailed { reason: String },
}

/// The step that follows a decision, `evaluations` decisions having been made
/// before it.
pub open spec fn step_of(policy: GasPolicy, evaluations: nat, d: Result<GasDecision, GasError>) -> Step {
    match d {
        Err(e) => Step::Fail(e),
        Ok(d) => match d.action {
            GasAction::Proceed => Step::Send { price: d.price, limit: d.limit },
            GasAction::Defer(_) => match policy {
                GasPolicy::GatedRetry { max_attempts, retry_interval_ms, .. } => {
                    if evaluations + 1 >= max_attempts {
                        Step::Abandon
                    } else {
                        Step::Wait { interval_ms: retry_interval_ms }
                    }
                },
                _ => Step::Abandon,
            },
        },
    }
}

/// The steps taken when the chain answers with `quotes` in turn: one step per
/// decision, going on only while the step is to wait.
pub open spec fn pricing_run(policy: GasPolicy, evaluations: nat, quotes: Seq<ChainQuote>) -> Seq<Step>
    decreases quotes.len(),
{
    if quotes.len() == 0 {
        Seq::empty()
    } else {
        let step = step_of(policy, evaluations, decision_of(policy, quotes[0]));
        if step is Wait {
            seq![step] + pricing_run(policy, evaluations + 1, quotes.drop_first())
        } else {
            seq![step]
        }
    }
}

/// One award in progress: to whom, how much, and how many times its price has
/// been decided.
pub struct AwardAttempt {
    pub recipient: String,
    pub amount: u128,
    pub evaluations: u32,
}

impl AwardAttempt {
    /// Starts an award to `recipient`, or `None` where the ledger shows the
    /// recipient already paid: then nothing is sent.
    pub fn start(ledger: &Ledger, recipient: String, amount: u128) -> (r: Option<AwardAttempt>)
        requires
            ledger.wf(),
        ensures
            ledger@.contains_key(recipient@) <==> r is None,
            r matches Some(a) ==> a.recipient == recipient && a.amount == amount && a.evaluations
                == 0,
    {
        if ledger.has_paid(&recipient) {
            None
        } else {
            Some(AwardAttempt { recipient, amount, evaluations: 0 })
        }
    }

    /// Decides the next step from what the chain answered; counts the
    /// decision.
    pub fn on_quote(&mut self, policy: &GasPolicy, quote: &ChainQuote) -> (r: Step)
        ensures
            r == step_of(*policy, old(self).evaluations as nat, decision_of(*policy, *quote)),
            final(self).recipient == old(self).recipient,
            final(self).amount == old(self).amount,
            final(self).evaluations == if old(self).evaluations < u32::MAX {
                old(self).evaluations + 1
            } else {
                old(self).evaluations as int
            },
    {
        let decision = policy.decide(quote);
        let done = self.evaluations;
        self.evaluations = self.evaluations.saturating_add(1);
        match decision {
            Err(e) => Step::Fail(e),
            Ok(d) => match d.action {
                GasAction::Proceed => Step::Send { price: d.price, limit: d.limit },
                GasAction::Defer(_) => match *policy {
                    GasPolicy::GatedRetry { max_attempts, retry_interval_ms, .. } => {
                        if done as u64 + 1 >= max_attempts as u64 {
                            Step::Abandon
                        } else {
                            Step::Wait { interval_ms: retry_interval_ms }
                        }
                    },
                    _ => Step::Abandon,
                },
            },
        }
    }

    /// Takes in what the node answered to the submission: on acceptance the
    /// recipient is recorded as paid with the transaction's reference; on
    /// refusal the ledger is left as it was.
    pub fn on_sent(self, ledger: &mut Ledger, sent: Result<String, String>) -> (r: Outcome)
        requires
            old(ledger).wf(),
        ensures
            final(ledger).wf(),
            match sent {
                Err(reason) => final(ledger)@ == old(ledger)@ && r == (Outcome::SendFailed {
                    reason,
                }),
                Ok(tx) => if old(ledger)@.contains_key(self.recipient@) {
                    final(ledger)@ == old(ledger)@ && r == (Outcome::AlreadyRecorded {
                        tx_reference: tx,
                    })
                } else {
                    r == (Outcome::Recorded { tx_reference: tx }) && final(ledger)@
                        == old(ledger)@.insert(
                        self.recipient@,
                        EntryView {
                            recipient: self.recipient@,
                            awarded_at: final(ledger)@[self.recipient@].awarded_at,
                            amount: self.amount as nat,
                            tx_reference: tx@,
                        },
                    )
                },
            },
    {
        match sent {
            Err(reason) => Outcome::SendFailed { reason },
            Ok(tx) => {
                let kept = tx.clone();
                match ledger.record(self.recipient, self.amount, tx) {
                    Ok(()) => Outcome::Recorded { tx_reference: kept },
                    Err(RecordError::AlreadyPaid) => Outcome::AlreadyRecorded { tx_reference: kept },
                }
            },
        }
    }
}

/// Every market price above the ceiling: each decision defers.
pub open spec fn all_above_ceiling(quotes: Seq<ChainQuote>, ceiling: u128) -> bool {
    forall|i: int|
        0 <= i < quotes.len() ==> (#[trigger] quotes[i].market_price matches Some(p) && p
            > ceiling)
}

proof fn lemma_deferred_run(policy: GasPolicy, evaluations: nat, quotes: Seq<ChainQuote>)
    requires
        policy is GatedRetry,
        evaluations < policy->GatedRetry_max_attempts,
        quotes.len() >= policy->GatedRetry_max_attempts - evaluations,
        all_above_ceiling(quotes, policy->GatedRetry_ceiling),
    ensures
        pricing_run(policy, evaluations, quotes).len() == policy->GatedRetry_max_attempts
            - evaluations,
        forall|i: int|
            0 <= i < pricing_run(policy, evaluations, quotes).len() - 1 ==> pricing_run(
                policy,
                evaluations,
                quotes,
            )[i] == (Step::Wait { interval_ms: policy->GatedRetry_retry_interval_ms }),
        pricing_run(policy, evaluations, quotes).last() == Step::Abandon,
    decreases quotes.len(),
{
    let run = pricing_run(policy, evaluations, quotes);
    assert(quotes[0].market_price matches Some(p) && p > policy->GatedRetry_ceiling);
    if evaluations + 1 < policy->GatedRetry_max_attempts {
        let rest = quotes.drop_first();
        assert(all_above_ceiling(rest, policy->GatedRetry_ceiling)) by {
            assert forall|i: int| 0 <= i < rest.len() implies (#[trigger] rest[i].market_price matches Some(
                p,
            ) && p > policy->GatedRetry_ceiling) by {
                assert(rest[i] == quotes[i + 1]);
            }
        }
        lemma_deferred_run(policy, evaluations + 1, rest);
        let tail = pricing_run(policy, evaluations + 1, rest);
        assert(run == seq![Step::Wait { interval_ms: policy->GatedRetry_retry_interval_ms }]
            + tail);
        assert forall|i: int| 0 <= i < run.len() - 1 implies run[i] == (Step::Wait {
            interval_ms: policy->GatedRetry_retry_interval_ms,
        }) by {
            if i > 0 {
                assert(run[i] == tail[i - 1]);
            }
        }
    }
}

/// Under the gated-retry policy with an attempt bound of at least one, when
/// every market price is above the ceiling the price is decided exactly as
/// many times as the bound allows: each decision but the last is followed by
/// a wait of the configured interval, the last gives the award up, and no
/// step submits a transfer.
pub proof fn lemma_gated_retry_exhaustion(policy: GasPolicy, quotes: Seq<ChainQuote>)
    requires
        policy is GatedRetry,
        policy->GatedRetry_max_attempts >= 1,
        quotes.len() >= policy->GatedRetry_max_attempts,
        all_above_ceiling(quotes, policy->GatedRetry_ceiling),
    ensures
        pricing_run(policy, 0, quotes).len() == policy->GatedRetry_max_attempts,
        forall|i: int|
            0 <= i < policy->GatedRetry_max_attempts - 1 ==> pricing_run(policy, 0, quotes)[i]
                == (Step::Wait { interval_ms: policy->GatedRetry_retry_interval_ms }),
        pricing_run(policy, 0, quotes)[policy->GatedRetry_max_attempts - 1] == Step::Abandon,
        forall|i: int|
            0 <= i < pricing_run(policy, 0, quotes).len() ==> !(pricing_run(
                policy,
                0,
                quotes,
            )[i] is Send),
{
    lemma_deferred_run(policy, 0, quotes);
}

} // verus!
