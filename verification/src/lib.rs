//! Client-side building blocks for the WhatsApp multi-device protocol: the
//! binary XML codec, the document model it carries, and the identifiers and
//! event types that travel in it.

pub mod binary;
pub mod error;
pub mod socket;
pub mod text;
pub mod types;
