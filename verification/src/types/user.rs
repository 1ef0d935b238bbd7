//! Records about users and their settings.

use crate::error::{ErrorView, RhustAppError};
use crate::text::str_eq;
use crate::types::jid::JID;
use vstd::prelude::*;
use vstd::string::*;

verus! {

/// The error about a text that names no value of the kind `kind`.
pub open spec fn unknown_value(input: Seq<char>, kind: Seq<char>) -> ErrorView {
    ErrorView {
        description: "'"@ + input + "' did not match any known "@ + kind,
        error: None,
        location: kind + "::from_str"@,
    }
}

/// Makes the error about a text that names no value of the kind `kind`.
fn unknown(input: &str, kind: &str) -> (error: RhustAppError)
    ensures
        error@ == unknown_value(input@, kind@),
{
    let mut description = String::new();
    description.append("'");
    description.append(input);
    description.append("' did not match any known ");
    description.append(kind);
    let mut location = String::new();
    location.append(kind);
    location.append("::from_str");
    assert(description@ =~= "'"@ + input@ + "' did not match any known "@ + kind@);
    assert(location@ =~= kind@ + "::from_str"@);
    RhustAppError { description, error: None, location }
}

/// The quality of a profile picture.
#[derive(Debug)]
pub enum ProfilePictureType {
    /// The picture in full resolution.
    Image,
    /// A thumbnail of low quality.
    Preview,
    /// Any other value, as it came.
    Value(String),
}

impl ProfilePictureType {
    /// Reads the value from its text.
    pub fn from_str(input: &str) -> (parsed: Result<Self, RhustAppError>)
        ensures
            match parsed {
                Ok(Self::Image) => input@ == "image"@,
                Ok(Self::Preview) => input@ == "preview"@ && input@ != "image"@,
                Ok(Self::Value(text)) => text@ == input@ && input@ != "image"@ && input@ != "preview"@,
                Err(_) => false,
            },
    {
        if str_eq(input, "image") {
            Ok(Self::Image)
        } else if str_eq(input, "preview") {
            Ok(Self::Preview)
        } else {
            Ok(Self::Value(input.to_owned()))
        }
    }
}

/// The profile picture of a user, or the photo of a group.
#[derive(Debug)]
pub struct ProfilePictureInfo {
    /// The address from which the image can be fetched.
    pub url: String,
    /// The identifier of the image.
    pub id: String,
    /// The quality of the picture.
    pub kind: ProfilePictureType,
    /// The path to the image.
    pub direct_path: String,
}

/// The cached names of a user.
#[derive(Debug)]
pub struct ContactInfo {
    pub first_name: String,
    pub full_name: String,
    pub push_name: String,
    pub business_name: String,
}

/// What a business message link leads to.
#[derive(Debug)]
pub struct BusniessMessageLinkTarget {
    /// The identifier of the business.
    pub jid: JID,
    /// The name that the business announces.
    pub push_name: String,
    /// The verified name of the business.
    pub verified_name: String,
    pub is_signed: bool,
    /// The level of verification.
    pub verified_level: String,
    /// The message that clients fill in when the link is followed.
    pub message: String,
}

/// What a contact QR link leads to.
#[derive(Debug)]
pub struct ContactQRLinkTarget {
    pub jid: JID,
    pub kind: String,
    pub push_name: String,
}

/// Who may see a piece of information.
#[derive(Debug)]
pub enum PrivacySetting {
    /// Nothing is set.
    Undefined,
    /// Everybody.
    All,
    /// The contacts of the user.
    Contacts,
    /// Nobody.
    Nobody,
}

impl PrivacySetting {
    /// Reads the value from its text.
    pub fn from_str(input: &str) -> (parsed: Result<Self, RhustAppError>)
        ensures
            match parsed {
                Ok(Self::Undefined) => input@ == ""@,
                Ok(Self::All) => input@ == "all"@ && input@ != ""@,
                Ok(Self::Contacts) => input@ == "contacts"@ && input@ != ""@ && input@ != "all"@,
                Ok(Self::Nobody) => input@ == "none"@ && input@ != ""@ && input@ != "all"@ && input@ != "contacts"@,
                Err(e) => input@ != ""@ && input@ != "all"@ && input@ != "contacts"@ && input@ != "none"@ && e@ == unknown_value(input@, "PrivacySetting"@),
            },
    {
        if str_eq(input, "") {
            Ok(Self::Undefined)
        } else if str_eq(input, "all") {
            Ok(Self::All)
        } else if str_eq(input, "contacts") {
            Ok(Self::Contacts)
        } else if str_eq(input, "none") {
            Ok(Self::Nobody)
        } else {
            Err(unknown(input, "PrivacySetting"))
        }
    }
}

/// The privacy settings of a user.
#[derive(Debug)]
pub struct PrivacySettings {
    pub group_add: PrivacySetting,
    pub last_seen: PrivacySetting,
    pub status: PrivacySetting,
    pub profile: PrivacySetting,
    pub read_receipts: PrivacySetting,
}

/// To whom statuses are sent.
#[derive(Debug)]
pub enum StatusPrivacyType {
    /// To all contacts.
    Contacts,
    /// To all contacts but those on the list.
    Blacklist,
    /// Only to those on the list.
    Whitelist,
}

impl StatusPrivacyType {
    /// Reads the value from its text.
    pub fn from_str(input: &str) -> (parsed: Result<Self, RhustAppError>)
        ensures
            match parsed {
                Ok(Self::Contacts) => input@ == "contacts"@,
                Ok(Self::Blacklist) => input@ == "blacklist"@ && input@ != "contacts"@,
                Ok(Self::Whitelist) => input@ == "whitelist"@ && input@ != "contacts"@ && input@ != "blacklist"@,
                Err(e) => input@ != "contacts"@ && input@ != "blacklist"@ && input@ != "whitelist"@ && e@ == unknown_value(input@, "StatusPrivacyType"@),
            },
    {
        if str_eq(input, "contacts") {
            Ok(Self::Contacts)
        } else if str_eq(input, "blacklist") {
            Ok(Self::Blacklist)
        } else if str_eq(input, "whitelist") {
            Ok(Self::Whitelist)
        } else {
            Err(unknown(input, "StatusPrivacyType"))
        }
    }
}

/// To whom status messages are sent by default.
#[derive(Debug)]
pub struct StatusPrivacy {
    pub kind: StatusPrivacyType,
    pub list: Vec<JID>,
    pub is_default: bool,
}

} // verus!
