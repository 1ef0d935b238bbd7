//! What the client reports of its connection.

use crate::binary::attr_utility::UnixTime;
use crate::error::RhustAppError;
use crate::text::{decimal_text, i64_to_string};
use crate::types::jid::JID;
use vstd::prelude::*;
use vstd::std_specs::convert::FromSpecImpl;
use vstd::string::*;

verus! {

/// The codes to show for pairing, one after the other.
#[derive(Debug)]
pub struct QR {
    pub codes: Vec<String>,
}

/// The device was paired.
#[derive(Debug)]
pub struct PairSuccess {
    pub id: JID,
    pub business_name: String,
    pub platform: String,
}

/// The server reported a pairing that could not be finished here.
#[derive(Debug)]
pub struct PairError {
    pub id: JID,
    pub business_name: String,
    pub platform: String,
    pub error: RhustAppError,
}

/// A keepalive ping was not answered in time.
#[derive(Debug)]
pub struct KeepAliveTimeout {
    pub error_count: i32,
    pub last_success: UnixTime,
}

/// Why a connection failed, as the server's code says.
#[derive(Clone, Copy, Debug, PartialEq, Eq, Structural)]
pub enum ConnectFailureReason {
    /// 401
    LoggedOut,
    /// 402
    TempBanned,
    /// 403
    MainDeviceGone,
    /// 406
    UnknownLogout,
    /// 405
    ClientOutdated,
    /// 409
    BadUserAgent,
    /// 503
    ServiceUnavailable,
    /// Any other code.
    Value(i32),
}

impl ConnectFailureReason {
    /// The reason that a code stands for.
    pub open spec fn of_code(code: i32) -> Self {
        if code == 401 {
            Self::LoggedOut
        } else if code == 402 {
            Self::TempBanned
        } else if code == 403 {
            Self::MainDeviceGone
        } else if code == 406 {
            Self::UnknownLogout
        } else if code == 405 {
            Self::ClientOutdated
        } else if code == 409 {
            Self::BadUserAgent
        } else if code == 503 {
            Self::ServiceUnavailable
        } else {
            Self::Value(code)
        }
    }

    /// The code of a reason.
    pub open spec fn code(self) -> i32 {
        match self {
            Self::LoggedOut => 401,
            Self::TempBanned => 402,
            Self::MainDeviceGone => 403,
            Self::UnknownLogout => 406,
            Self::ClientOutdated => 405,
            Self::BadUserAgent => 409,
            Self::ServiceUnavailable => 503,
            Self::Value(value) => value,
        }
    }

    /// What a reason means, in words.
    pub open spec fn meaning(self) -> Seq<char> {
        match self {
            Self::LoggedOut => "logged out from another device"@,
            Self::TempBanned => "account temporarily banned"@,
            Self::MainDeviceGone => "primary device was logged out"@,
            Self::UnknownLogout => "logged out for unknown reasons"@,
            Self::ClientOutdated => "client is out of date"@,
            Self::BadUserAgent => "client user agent was rejected"@,
            Self::ServiceUnavailable => "service is unavailable"@,
            Self::Value(_) => "unknown error"@,
        }
    }

    /// The code of the reason.
    pub fn to_error_code(&self) -> (code: i32)
        ensures
            code == self.code(),
    {
        match self {
            Self::LoggedOut => 401,
            Self::TempBanned => 402,
            Self::MainDeviceGone => 403,
            Self::UnknownLogout => 406,
            Self::ClientOutdated => 405,
            Self::BadUserAgent => 409,
            Self::ServiceUnavailable => 503,
            Self::Value(value) => *value,
        }
    }

    /// The reason as text: the code, a colon and the meaning.
    pub fn to_string(&self) -> (text: String)
        ensures
            text@ == decimal_text(self.code() as int) + ": "@ + self.meaning(),
    {
        let error_meaning = match self {
            Self::LoggedOut => "logged out from another device",
            Self::TempBanned => "account temporarily banned",
            Self::MainDeviceGone => "primary device was logged out",
            Self::UnknownLogout => "logged out for unknown reasons",
            Self::ClientOutdated => "client is out of date",
            Self::BadUserAgent => "client user agent was rejected",
            Self::ServiceUnavailable => "service is unavailable",
            Self::Value(_) => "unknown error",
        };
        let mut text = i64_to_string(self.to_error_code() as i64);
        text.append(": ");
        text.append(error_meaning);
        text
    }

    /// Whether the reason means that the device is no longer logged in.
    pub fn is_logged_out(&self) -> (logged_out: bool)
        ensures
            logged_out == (*self == Self::LoggedOut || *self == Self::MainDeviceGone || *self
                == Self::UnknownLogout),
    {
        match self {
            Self::LoggedOut | Self::MainDeviceGone | Self::UnknownLogout => true,
            _ => false,
        }
    }
}

impl From<i32> for ConnectFailureReason {
    fn from(value: i32) -> (reason: Self) {
        if value == 401 {
            Self::LoggedOut
        } else if value == 402 {
            Self::TempBanned
        } else if value == 403 {
            Self::MainDeviceGone
        } else if value == 406 {
            Self::UnknownLogout
        } else if value == 405 {
            Self::ClientOutdated
        } else if value == 409 {
            Self::BadUserAgent
        } else if value == 503 {
            Self::ServiceUnavailable
        } else {
            Self::Value(value)
        }
    }
}

impl FromSpecImpl<i32> for ConnectFailureReason {
    open spec fn obeys_from_spec() -> bool {
        true
    }

    open spec fn from_spec(value: i32) -> Self {
        Self::of_code(value)
    }
}

/// The device is no longer logged in.
#[derive(Debug)]
pub struct LoggedOut {
    /// Whether a failure to connect said so, and not an error of the
    /// stream.
    pub on_connect: bool,
    /// The reason given, where a failure to connect said so.
    pub reason: ConnectFailureReason,
}

/// Why an account is banned for a time.
#[derive(Clone, Copy, Debug, PartialEq, Eq, Structural)]
pub enum TempBanReason {
    /// 101
    SentToTooManyPeople,
    /// 102
    BlockedByUsers,
    /// 103
    CreatedTooManyGroups,
    /// 104
    SentTooManySameMessages,
    /// 106
    BroadcastList,
    /// Any other code.
    Value(i32),
}

impl TempBanReason {
    /// The reason that a code stands for.
    pub open spec fn of_code(code: i32) -> Self {
        if code == 101 {
            Self::SentToTooManyPeople
        } else if code == 102 {
            Self::BlockedByUsers
        } else if code == 103 {
            Self::CreatedTooManyGroups
        } else if code == 104 {
            Self::SentTooManySameMessages
        } else if code == 106 {
            Self::BroadcastList
        } else {
            Self::Value(code)
        }
    }

    /// The code of a reason.
    pub open spec fn code(self) -> i32 {
        match self {
            Self::SentToTooManyPeople => 101,
            Self::BlockedByUsers => 102,
            Self::CreatedTooManyGroups => 103,
            Self::SentTooManySameMessages => 104,
            Self::BroadcastList => 106,
            Self::Value(value) => value,
        }
    }

    /// What a reason means, in words.
    pub open spec fn meaning(self) -> Seq<char> {
        match self {
            Self::SentToTooManyPeople => "you sent too many messages to people who didn't have you in their address books"@,
            Self::BlockedByUsers => "too many people blocked you"@,
            Self::CreatedTooManyGroups => "you created too many groups with people who didn't have you in their address books"@,
            Self::SentTooManySameMessages => "you sent the same message to too many people"@,
            Self::BroadcastList => "you sent too many messages to a broadcast list"@,
            Self::Value(_) => "you may have violated the terms and service (unknown reason)"@,
        }
    }

    /// The reason as text: the code, a colon and the meaning.
    pub open spec fn text(self) -> Seq<char> {
        decimal_text(self.code() as int) + ": "@ + self.meaning()
    }

    /// The code of the reason.
    pub fn to_error_code(&self) -> (code: i32)
        ensures
            code == self.code(),
    {
        match self {
            Self::SentToTooManyPeople => 101,
            Self::BlockedByUsers => 102,
            Self::CreatedTooManyGroups => 103,
            Self::SentTooManySameMessages => 104,
            Self::BroadcastList => 106,
            Self::Value(value) => *value,
        }
    }

    /// The reason as text: the code, a colon and the meaning.
    pub fn to_string(&self) -> (text: String)
        ensures
            text@ == self.text(),
    {
        let error_meaning = match self {
            Self::SentToTooManyPeople => "you sent too many messages to people who didn't have you in their address books",
            Self::BlockedByUsers => "too many people blocked you",
            Self::CreatedTooManyGroups => "you created too many groups with people who didn't have you in their address books",
            Self::SentTooManySameMessages => "you sent the same message to too many people",
            Self::BroadcastList => "you sent too many messages to a broadcast list",
            Self::Value(_) => "you may have violated the terms and service (unknown reason)",
        };
        let mut text = i64_to_string(self.to_error_code() as i64);
        text.append(": ");
        text.append(error_meaning);
        text
    }
}

impl From<i32> for TempBanReason {
    fn from(value: i32) -> (reason: Self) {
        if value == 101 {
            Self::SentToTooManyPeople
        } else if value == 102 {
            Self::BlockedByUsers
        } else if value == 103 {
            Self::CreatedTooManyGroups
        } else if value == 104 {
            Self::SentTooManySameMessages
        } else if value == 106 {
            Self::BroadcastList
        } else {
            Self::Value(value)
        }
    }
}

impl FromSpecImpl<i32> for TempBanReason {
    open spec fn obeys_from_spec() -> bool {
        true
    }

    open spec fn from_spec(value: i32) -> Self {
        Self::of_code(value)
    }
}

/// The text that tells of a ban: the reason and, where the ban ends, the
/// time until then, given as it is to be shown.
pub fn temporary_ban_text(code: &TempBanReason, expires_in: Option<&str>) -> (text: String)
    ensures
        text@ == match expires_in {
            Some(time) => "You've been temporarily banned: "@ + code.text()
                + ". The ban expires in "@ + time@,
            None => "You've been temporarily banned: "@ + code.text(),
        },
{
    let mut text = String::new();
    text.append("You've been temporarily banned: ");
    text.append(code.to_string().as_str());
    match expires_in {
        Some(time) => {
            text.append(". The ban expires in ");
            text.append(time);
            assert(text@ =~= "You've been temporarily banned: "@ + code.text()
                + ". The ban expires in "@ + time@);
        },
        None => {
            assert(text@ =~= "You've been temporarily banned: "@ + code.text());
        },
    }
    text
}

/// What the client reports.
#[derive(Debug)]
pub enum RhustAppEventType {
    /// There is no session yet: codes to pair with are at hand.
    QR(QR),
    /// The device was paired.
    PairSuccess(PairSuccess),
    /// The server reported a pairing that could not be finished here.
    PairError(PairError),
    /// The pairing code was scanned by a phone without multidevice.
    QRScannedWithoutMultidevice,
    /// The client is connected and logged in.
    Connected,
    /// A keepalive ping was not answered in time.
    KeepAliveTimeout(KeepAliveTimeout),
    /// Keepalive pings are answered again.
    KeepAliveRestored,
    /// The device is no longer logged in.
    LoggedOut(LoggedOut),
    /// Another client connected with the same keys.
    StreamReplaced,
}

} // verus!
