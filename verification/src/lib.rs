//! The decision logic of a federating proxy for media servers.

pub mod decimal;
pub mod federated_users;
pub mod handlers;
pub mod legacy_server_identity;
pub mod legacy_store;
pub mod media_storage_service;
pub mod picking;
pub mod processors;
pub mod server_id;
pub mod server_storage;
pub mod server_url;
pub mod session_storage;
pub mod status;
pub mod text;
pub mod time;
pub mod ui;
