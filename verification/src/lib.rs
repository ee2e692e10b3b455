//! The verified core of an untrusted message relay.
//!
//! The relay stores sealed envelopes for offline recipients, routes live delivery, checks requests
//! for sealed-sender certificates, hosts encrypted invite bundles and carries chunked file transfers.
//! This crate holds its rules: what each frame does to the state, what is written to the durable
//! tables, and what is answered. Sockets, files and the database are around it.

pub mod config;
pub mod dotenv;
pub mod file_laws;
pub mod file_store;
pub mod frame_laws;
pub mod maps;
pub mod meta_store;
pub mod outside;
pub mod persistence;
pub mod protocol;
pub mod queue_laws;
pub mod queue_store;
pub mod relay_laws;
pub mod setup_laws;
pub mod state;
pub mod state_laws;
pub mod store_laws;
pub mod table;
pub mod text;
pub mod tor;
pub mod update_check;
pub mod util;
pub mod ws;
pub mod ws_laws;
