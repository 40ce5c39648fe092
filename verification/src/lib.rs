//! A progress-aggregation primitive for tick-based update loops.
//!
//! Producers report `(done, total)` work counts during a tick; a check step
//! evaluates completion (`total > 0 && done >= total`) and emits one-shot
//! completion notifications; a reset step zeroes tick-scoped trackers for
//! the next tick.
//!
//! - [`record`]: the two counters, the two update semantics (overwrite or
//!   accumulate), the completion predicate, and the laws of a whole tick's
//!   reports.
//! - [`store`]: the singleton and keyed stores that own the records, with
//!   the executable check, reset and whole-tick steps.
//! - [`phase`]: the completion notification, the check and reset steps as
//!   mathematics, and the exactly-once dispatch laws.
//! - [`registry`]: registration of tags with their phase wiring and
//!   policies, idempotent per tag, and the policy for reports that reach no
//!   record.
//!
//! The core never blocks and delivers nothing itself: the host scheduler
//! orders every producer's report of a tick before that tick's check step
//! and the check step before the reset step, hands each step exclusive
//! access to the store, and delivers the returned notifications.

pub mod phase;
pub mod record;
pub mod registry;
pub mod store;
