//! Accounts, credentials, sessions, friendships and per-account event
//! delivery for a chat backend, with every rule proved by Verus.

pub mod config;
pub mod credentials;
pub mod directory;
pub mod events;
pub mod session;
pub mod error;
