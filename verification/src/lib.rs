//! Verified core of a transaction packet relayer.
//!
//! The library models the data plane of a relayer that sits between
//! transaction submitters and validators: it authenticates subscribing
//! validators with a challenge/response handshake and signed tokens, filters
//! packets against a compliance denylist, and fans packets out to the
//! validators that lead the upcoming consensus slots.  All routing,
//! filtering, authentication and health decisions are verified; network and
//! clock access stay outside, behind narrow trusted wrappers or in the
//! surrounding application.

pub mod addr;
pub mod auth;
pub mod challenges;
pub mod filter;
pub mod forwarder;
pub mod health;
pub mod queue;
pub mod relayer;
pub mod schedule;
pub mod selector;
pub mod stake;
