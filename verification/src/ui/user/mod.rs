//! Pages for users.

pub mod media;
pub mod servers;
