//! Pages for the administrator.

pub mod servers;
