//! The binary XML codec and the document model it carries.

pub mod attr_utility;
pub mod attrs;
pub mod decoder;
pub mod encoder;
pub mod envelope;
pub mod errors;
pub mod laws;
pub mod marshal;
pub mod node;
pub mod reading;
pub mod token;
pub mod wire;
pub mod xml;
