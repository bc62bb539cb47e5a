//! What the proxy answers to requests of media clients.

pub mod livestreams;
pub mod syncplay;
pub mod videos;
