//! Identifiers and the records that describe chats, users and events.

pub mod call;
pub mod events;
pub mod group;
pub mod jid;
pub mod message;
pub mod presence;
pub mod user;
