//! Watches the machine's public network address: resolves it from a list of
//! external sources, compares it against an append-only history of prior
//! observations, records each change, and asks for a notification exactly
//! once per observed change.
//!
//! The crate holds the decision logic. Network fetches, the durable store
//! backend and the mail transport are collaborators: callers drive the
//! scheduler and resolver state machines, perform the commands they hand
//! out, and feed the outcomes back.

pub mod addr;
pub mod config;
pub mod history;
pub mod notify;
pub mod resolve;
pub mod sched;
pub mod text;
