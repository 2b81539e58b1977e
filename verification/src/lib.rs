//! Core of a group-chat backend: keyset pagination over chat and message
//! listings, the message lifecycle (create / edit / soft-delete) with its
//! authorization rules, and an in-memory registry of live push connections
//! with best-effort fan-out and staleness eviction.
//!
//! Storage, HTTP routing and identity resolution are outside collaborators:
//! callers hand this crate plain values (rows already fetched, the current
//! time, the requester's uid) and receive decisions and pages back.

pub mod channels;
pub mod errors;
pub mod chats;
pub mod codec;
pub mod members;
pub mod messages;
pub mod models;
pub mod pagination;
pub mod registry;
mod seq_facts;
pub mod text;
pub mod ws;
