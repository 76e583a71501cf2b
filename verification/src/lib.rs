//! A channel-scoped task ledger with interactive mutation workflows.
//!
//! Each channel owns an isolated relation of tasks. Relations are created
//! on first write and dropped as soon as they hold no task. Destructive
//! operations run behind interactive confirmation and status-selection
//! workflows built on a bounded-wait prompt primitive.

pub mod access;
pub mod confirm;
pub mod date;
pub mod naming;
pub mod render;
pub mod retry;
pub mod status_flow;
pub mod store;
pub mod waiter;

pub use date::Date;
