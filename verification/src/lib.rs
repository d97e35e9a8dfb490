//! Replicated state core of a multi-user chat service.
//!
//! The crate keeps accounts, messages, presence and binary attachments
//! in an in-memory table store, applies named commands to it atomically,
//! and computes which committed row changes each subscribed connection
//! is shown, restricted by per-row visibility rules.
pub mod auth;
pub mod engine;
pub mod client;
pub mod laws;
pub mod media;
pub mod messages;
pub mod presence;
pub mod replication;
pub mod rows;
pub mod transfer;
pub mod store;
pub mod text;
