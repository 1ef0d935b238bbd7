//! What the codec shares with the transport: the header that opens a
//! connection, the limits of a frame, and the errors of the socket.

use crate::binary::token::DICT_VERSION;
use crate::text::{find_char, index_of_char, str_chars};
use vstd::prelude::*;
use vstd::string::*;

verus! {

/// The origin header of every connection.
pub const ORIGIN: &'static str = "https://web.whatsapp.com";

/// The address of the websocket of the multidevice protocol.
pub const URL: &'static str = "wss://web.whatsapp.com/ws/chat";

/// The name of the Noise handshake, padded to 32 bytes.
pub const NOISE_START_PATTERN: &'static str = "Noise_XX_25519_AESGCM_SHA256\x00\x00\x00\x00";

/// The third byte of the connection header.
pub const WA_MAGIC_VALUE: u8 = 5;

/// The largest frame, in bytes.
pub const FRAME_MAX_SIZE: usize = 0x100_0000;

/// The number of bytes that hold the length of a frame.
pub const FRAME_LENGTH_SIZE: usize = 3;

/// The four bytes that open a connection: `W`, `A`, the magic value and
/// the version of the token dictionaries.
pub fn get_wa_header() -> (header: [u8; 4])
    ensures
        header@ == seq![0x57u8, 0x41u8, WA_MAGIC_VALUE, DICT_VERSION],
{
    let header = [0x57u8, 0x41u8, WA_MAGIC_VALUE, DICT_VERSION];
    assert(header@ =~= seq![0x57u8, 0x41u8, WA_MAGIC_VALUE, DICT_VERSION]);
    header
}

/// Why the socket refuses.
#[derive(Clone, Copy, Debug, PartialEq, Eq, Structural)]
pub enum SocketError {
    FrameTooLarge,
    SocketClosed,
    SocketAlreadyOpen,
}

impl SocketError {
    /// The message of each error.
    pub open spec fn message(self) -> Seq<char> {
        match self {
            Self::FrameTooLarge => "frame is too large"@,
            Self::SocketClosed => "frame socket is closed"@,
            Self::SocketAlreadyOpen => "frame socket is already open"@,
        }
    }

    /// Renders the error as its message.
    pub fn to_string(&self) -> (text: String)
        ensures
            text@ == self.message(),
    {
        match self {
            Self::FrameTooLarge => "frame is too large".to_owned(),
            Self::SocketClosed => "frame socket is closed".to_owned(),
            Self::SocketAlreadyOpen => "frame socket is already open".to_owned(),
        }
    }
}

/// Whether a socket may be opened: not while it is open.
pub fn check_can_connect(connected: bool) -> (checked: Result<(), SocketError>)
    ensures
        checked == if connected {
            Err::<(), SocketError>(SocketError::SocketAlreadyOpen)
        } else {
            Ok::<(), SocketError>(())
        },
{
    if connected {
        Err(SocketError::SocketAlreadyOpen)
    } else {
        Ok(())
    }
}

/// The host of an authority: what stands behind its first `@`, or all of
/// it where it has none.
pub open spec fn host_of(authority: Seq<char>) -> Seq<char> {
    match index_of_char(authority, '@', 0) {
        Some(at) => authority.subrange(at + 1, authority.len() as int),
        None => authority,
    }
}

/// The host to name in the `Host` header, given the authority of the
/// address.
pub fn host_of_authority(authority: &str) -> (host: String)
    ensures
        host@ == host_of(authority@),
{
    let chars = str_chars(authority);
    match find_char(&chars, '@', 0) {
        Some(at) => authority.substring_char(at + 1, chars.len()).to_owned(),
        None => authority.to_owned(),
    }
}

} // verus!
