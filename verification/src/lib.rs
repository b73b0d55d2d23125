//! A delegated-authority policy engine.
//!
//! A principal account registers delegate accounts that may submit actions on
//! its behalf, restricted to a named permission scope and optionally
//! time-delayed through an announce/execute/reject protocol. The crate
//! provides the scope decision table, the partial order over scopes, the
//! storage-deposit accounting, and the stateful delegation registry.

pub mod action;
pub mod deposit;
pub mod ledger;
pub mod policy;
pub mod registry;
