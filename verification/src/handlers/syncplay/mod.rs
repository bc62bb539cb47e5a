//! Watching together: groups of sessions that play one queue in step.

pub mod access;
pub mod queue;
pub mod routes;
