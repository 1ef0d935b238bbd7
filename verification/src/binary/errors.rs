//! The errors of the binary XML decoder.

use vstd::prelude::*;
use vstd::string::*;

verus! {

/// Why a payload could not be decoded.
#[derive(Clone, Copy, Debug, PartialEq, Eq, Structural)]
pub enum DecoderError {
    /// A value of a kind that cannot stand where it was read.
    ErrInvalidType,
    /// A part of an identifier that is not a string.
    ErrInvalidJIDType,
    /// A node with list size 0, or whose tag is empty or not a string.
    ErrInvalidNode,
    /// A byte that is no tag and no token, or a packed symbol outside the
    /// alphabet.
    ErrInvalidToken,
    /// An attribute key that is not a string.
    ErrNonStringKey,
    /// The payload ends before the value does.
    ErrUnexpectedEnd,
    /// A string whose bytes are not valid UTF-8.
    ErrInvalidUtf8,
    /// A compressed payload that does not inflate.
    ErrDecompressFailed,
}

impl DecoderError {
    /// The message of each error.
    pub open spec fn message(self) -> Seq<char> {
        match self {
            Self::ErrInvalidType => "unsupported payload type"@,
            Self::ErrInvalidJIDType => "invalid JID type"@,
            Self::ErrInvalidNode => "invalid node"@,
            Self::ErrInvalidToken => "invalid token with tag"@,
            Self::ErrNonStringKey => "non-string key"@,
            Self::ErrUnexpectedEnd => "unexpected end of data"@,
            Self::ErrInvalidUtf8 => "invalid UTF-8 in string"@,
            Self::ErrDecompressFailed => "failed to decompress data"@,
        }
    }

    /// Renders the error as its message.
    pub fn to_string(&self) -> (text: String)
        ensures
            text@ == self.message(),
    {
        match self {
            Self::ErrInvalidType => "unsupported payload type".to_owned(),
            Self::ErrInvalidJIDType => "invalid JID type".to_owned(),
            Self::ErrInvalidNode => "invalid node".to_owned(),
            Self::ErrInvalidToken => "invalid token with tag".to_owned(),
            Self::ErrNonStringKey => "non-string key".to_owned(),
            Self::ErrUnexpectedEnd => "unexpected end of data".to_owned(),
            Self::ErrInvalidUtf8 => "invalid UTF-8 in string".to_owned(),
            Self::ErrDecompressFailed => "failed to decompress data".to_owned(),
        }
    }
}

} // verus!
