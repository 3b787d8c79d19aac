//! A cryptographically authenticated, access-controlled publish/subscribe
//! channel over an append-only, content-addressed transport.
//!
//! An author announces a channel, admits subscribers and hands out session
//! keys in keyload messages; every party finds the messages of the channel
//! by computing where the next one has to be, and takes each one exactly once.

pub mod access;
pub mod author;
pub mod bytes;
pub mod delivery;
pub mod error;
pub mod guarantees;
pub mod handshake;
pub mod identity;
pub mod link;
pub mod message;
pub mod notifications;
pub mod party;
pub mod primitives;
pub mod report;
pub mod state;
pub mod subscriber;
pub mod text;
pub mod transport;
