//! A verified core for a small Redis-compatible server.

pub mod blocking;
pub mod command_laws;
pub mod connection_laws;
pub mod decode;
pub mod execute;
pub mod laws;
pub mod list_laws;
pub mod lists;
mod names;
pub mod replication;
pub mod replication_laws;
pub mod request;
pub mod resp;
pub mod session;
pub mod session_laws;
pub mod startup;
pub mod startup_laws;
pub mod store;
pub mod stream_laws;
pub mod streams;
pub mod strings;
pub mod table;
pub mod text;
pub mod text_laws;
pub mod wire_laws;
