//! An eager balance-withdrawal scheduler.
//!
//! Transactions reserve amounts from accounts before they run. The scheduler decides each
//! transaction at once, without waiting for the settlement of earlier ones, whenever the balance
//! that is still guaranteed to the account covers the reservation.

pub mod account_state;
pub mod balance_read;
pub mod families;
pub mod laws;
pub mod metric_laws;
pub mod metrics;
pub mod model;
pub mod operation_laws;
pub mod reader;
pub mod scheduled_batches;
pub mod scheduler;
pub mod state;
pub mod types;

pub use account_state::AccountState;
pub use balance_read::AccountBalanceRead;
pub use metrics::EagerSchedulerMetrics;
pub use scheduler::EagerBalanceWithdrawScheduler;
