//! A verified accounting core for a payments-processing tool: it replays an
//! ordered stream of ledger events (deposits, withdrawals, disputes,
//! resolves, chargebacks) against per-client account state, enforcing
//! balance, dispute, and account-lock rules, and reports the final balances.
//!
//! The `engine` module holds the processor and the mathematical `step`
//! function its contract is stated against; `laws` proves the properties the
//! ledger guarantees; `amount` is the fixed-point money type; `models` holds
//! the data types.

pub mod amount;
pub mod engine;
pub mod laws;
pub mod models;

pub use amount::Amount;
pub use engine::Engine;
pub use models::{Account, AccountOutput, Deposit, Transaction, TransactionInput, TransactionType};
