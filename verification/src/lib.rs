//! Session-time enforcement of per-user filesystem storage quotas.
//!
//! The crate holds the decision logic of a session-lifecycle hook: parsing
//! administrator-supplied quota directives, deciding whether the current
//! principal is subject to quota policy, and driving the session through a
//! state machine whose actions (identity lookup, mount-table lookup, the
//! quota system call, audit logging) are performed by the embedding program.

pub mod directive;
pub mod parse;
pub mod policy;
pub mod session;
