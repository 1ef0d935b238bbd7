//! Whether a user is there, and what they do in a chat.

use crate::error::RhustAppError;
use crate::text::str_eq;
use vstd::prelude::*;
use vstd::string::*;

verus! {

/// Whether a user is online.
#[derive(Debug)]
pub enum Presence {
    /// The user is online.
    Available,
    /// The user is offline.
    Unavailable,
    /// Any other value, as it came.
    Value(String),
}

impl Presence {
    /// Reads the value from its text.
    pub fn from_str(input: &str) -> (parsed: Result<Self, RhustAppError>)
        ensures
            match parsed {
                Ok(Self::Available) => input@ == "available"@,
                Ok(Self::Unavailable) => input@ == "unavailable"@ && input@ != "available"@,
                Ok(Self::Value(text)) => text@ == input@ && input@ != "available"@ && input@ != "unavailable"@,
                Err(_) => false,
            },
    {
        if str_eq(input, "available") {
            Ok(Self::Available)
        } else if str_eq(input, "unavailable") {
            Ok(Self::Unavailable)
        } else {
            Ok(Self::Value(input.to_owned()))
        }
    }
}

/// What a user does in a chat.
#[derive(Debug)]
pub enum ChatPresence {
    /// The user is writing.
    Composing,
    /// The user stopped writing.
    Paused,
    /// Any other value, as it came.
    Value(String),
}

impl ChatPresence {
    /// Reads the value from its text.
    pub fn from_str(input: &str) -> (parsed: Result<Self, RhustAppError>)
        ensures
            match parsed {
                Ok(Self::Composing) => input@ == "composing"@,
                Ok(Self::Paused) => input@ == "paused"@ && input@ != "composing"@,
                Ok(Self::Value(text)) => text@ == input@ && input@ != "composing"@ && input@ != "paused"@,
                Err(_) => false,
            },
    {
        if str_eq(input, "composing") {
            Ok(Self::Composing)
        } else if str_eq(input, "paused") {
            Ok(Self::Paused)
        } else {
            Ok(Self::Value(input.to_owned()))
        }
    }
}

/// What a user is composing.
#[derive(Debug)]
pub enum ChatPresenceMedia {
    /// A text message.
    Text,
    /// A voice message.
    Audio,
    /// Any other value, as it came.
    Value(String),
}

impl ChatPresenceMedia {
    /// Reads the value from its text.
    pub fn from_str(input: &str) -> (parsed: Result<Self, RhustAppError>)
        ensures
            match parsed {
                Ok(Self::Text) => input@ == ""@,
                Ok(Self::Audio) => input@ == "audio"@ && input@ != ""@,
                Ok(Self::Value(text)) => text@ == input@ && input@ != ""@ && input@ != "audio"@,
                Err(_) => false,
            },
    {
        if str_eq(input, "") {
            Ok(Self::Text)
        } else if str_eq(input, "audio") {
            Ok(Self::Audio)
        } else {
            Ok(Self::Value(input.to_owned()))
        }
    }
}

} // verus!
