//! A bridge that carries messages between clients over HTTP: a sender posts a
//! message for a recipient, the bridge keeps it in the recipient's inbox, and
//! hands it out over a stream of server-sent events.

pub mod text;
pub mod json;
pub mod encoding;
pub mod models;
pub mod config;
pub mod handlers;
pub mod storage;
pub mod message_courier;
pub mod metrics;
pub mod server;
