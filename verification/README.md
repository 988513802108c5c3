# eager_scheduler

A scheduler for balance withdrawals, verified with Verus. Transactions reserve
amounts from accounts before they run; the scheduler decides each of them at
once, on the balance that is still guaranteed, without waiting for settlements.

- `src/account_state.rs`: one account, its balance and its reservations.
- `src/scheduled_batches.rs`: which batches have been scheduled.
- `src/reader.rs`: reading balances, with a record of what was asked.
- `src/state.rs`: all tracked accounts; reserving for a transaction, settling.
- `src/scheduler.rs`: batches in, results out; reads balances and keeps metrics.
- `src/metrics.rs`, `src/families.rs`: the metrics, and what is trusted of the
  `prometheus` crate.
- `src/model.rs`: what the scheduler computes, as functions on maps and sequences.
- `src/laws.rs`: what holds of the scheduler as a whole, proved.
- `app/`: the scheduler behind a lock and an asynchronous interface.
