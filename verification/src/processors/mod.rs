//! What is read out of the bodies of requests.

pub mod request_analyzer;
