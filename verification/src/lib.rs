//! A multi-room presence and broadcast engine.
//!
//! Participants ("persons") create and join top-level rooms ("pubs") and
//! sub-rooms ("tables"), see who else is present, and exchange direct
//! messages. This crate holds the verified core: the durable membership
//! store, the connection registry with its cached membership, and the
//! command processor that decides every state change and every fanout.
//! The socket handling around it lives outside the library.

pub mod commands;
pub mod error;
pub mod laws;
pub mod model;
pub mod registry;
pub mod store;
pub mod types;
