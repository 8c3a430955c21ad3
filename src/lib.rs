//! Exactly-once reward disbursement: an idempotent ledger of paid recipients,
//! the gas-price policies that decide when and how a transfer is submitted,
//! and the per-event decision machine that ties them together.
pub mod address;
pub mod award;
pub mod gas;
pub mod ledger;
