//! What the pages of the proxy show and do.

pub mod admin;
pub mod response;
pub mod user;
