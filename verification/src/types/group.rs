//! Records about group chats.

use crate::error::RhustAppError;
use crate::text::str_eq;
use crate::types::jid::JID;
use vstd::prelude::*;
use vstd::string::*;

verus! {

/// Who may add members to a group.
#[derive(Debug)]
pub enum GroupMemberAddMode {
    /// Members are added by an admin.
    AdminAdd,
    /// Any other value, as it came.
    Value(String),
}

impl GroupMemberAddMode {
    /// Reads the value from its text.
    pub fn from_str(input: &str) -> (parsed: Result<Self, RhustAppError>)
        ensures
            match parsed {
                Ok(Self::AdminAdd) => input@ == "admin_add"@,
                Ok(Self::Value(text)) => text@ == input@ && input@ != "admin_add"@,
                Err(_) => false,
            },
    {
        if str_eq(input, "admin_add") {
            Ok(Self::AdminAdd)
        } else {
            Ok(Self::Value(input.to_owned()))
        }
    }
}

/// How a membership is approved.
#[derive(Debug)]
pub enum MembershipApprovalMode {
    /// A request is required.
    RequestRequired,
    /// Any other value, as it came.
    Value(String),
}

impl MembershipApprovalMode {
    /// Reads the value from its text.
    pub fn from_str(input: &str) -> (parsed: Result<Self, RhustAppError>)
        ensures
            match parsed {
                Ok(Self::RequestRequired) => input@ == "request_required"@,
                Ok(Self::Value(text)) => text@ == input@ && input@ != "request_required"@,
                Err(_) => false,
            },
    {
        if str_eq(input, "request_required") {
            Ok(Self::RequestRequired)
        } else {
            Ok(Self::Value(input.to_owned()))
        }
    }
}

/// What makes a group the parent of a community.
#[derive(Debug)]
pub struct GroupParent {
    pub is_parent: bool,
    pub default_membership_approval_mode: MembershipApprovalMode,
}

/// The parent that a group is linked to.
#[derive(Debug)]
pub struct GroupLinkedParent {
    pub linked_parent_jid: JID,
}

/// Whether a group is the default group of its parent.
#[derive(Debug)]
pub struct GroupIsDefaultSub {
    pub is_default_sub_group: bool,
}

/// Whether only admins can edit the information of a group.
#[derive(Debug)]
pub struct GroupLocked {
    pub is_locked: bool,
}

/// Whether only admins can send messages in a group.
#[derive(Debug)]
pub struct GroupAnnounce {
    pub is_announce: bool,
    pub announce_version_id: String,
}

/// The disappearing messages settings of a group.
#[derive(Debug)]
pub struct GroupEphemeral {
    pub is_ephemeral: bool,
    pub disappearing_timer: u32,
}

/// Whether and why a group was deleted.
#[derive(Debug)]
pub struct GroupDelete {
    pub deleted: bool,
    pub deleted_reason: String,
}

/// How the link between two groups changed.
#[derive(Debug)]
pub enum GroupLinkChangeType {
    /// The link to a parent group.
    Parent,
    /// The link to a group below.
    Sub,
    /// The link to a group beside.
    Sibling,
    /// Any other value, as it came.
    Value(String),
}

impl GroupLinkChangeType {
    /// Reads the value from its text.
    pub fn from_str(input: &str) -> (parsed: Result<Self, RhustAppError>)
        ensures
            match parsed {
                Ok(Self::Parent) => input@ == "parent_group"@,
                Ok(Self::Sub) => input@ == "sub_group"@ && input@ != "parent_group"@,
                Ok(Self::Sibling) => input@ == "sibling_group"@ && input@ != "parent_group"@ && input@ != "sub_group"@,
                Ok(Self::Value(text)) => text@ == input@ && input@ != "parent_group"@ && input@ != "sub_group"@ && input@ != "sibling_group"@,
                Err(_) => false,
            },
    {
        if str_eq(input, "parent_group") {
            Ok(Self::Parent)
        } else if str_eq(input, "sub_group") {
            Ok(Self::Sub)
        } else if str_eq(input, "sibling_group") {
            Ok(Self::Sibling)
        } else {
            Ok(Self::Value(input.to_owned()))
        }
    }
}

/// Why two groups were unlinked.
#[derive(Debug)]
pub enum GroupUnlinkReason {
    /// The group was unlinked.
    UnlinkGroup,
    /// The parent was deleted.
    DeleteParent,
    /// Any other value, as it came.
    Value(String),
}

impl GroupUnlinkReason {
    /// Reads the value from its text.
    pub fn from_str(input: &str) -> (parsed: Result<Self, RhustAppError>)
        ensures
            match parsed {
                Ok(Self::UnlinkGroup) => input@ == "unlink_group"@,
                Ok(Self::DeleteParent) => input@ == "delete_parent"@ && input@ != "unlink_group"@,
                Ok(Self::Value(text)) => text@ == input@ && input@ != "unlink_group"@ && input@ != "delete_parent"@,
                Err(_) => false,
            },
    {
        if str_eq(input, "unlink_group") {
            Ok(Self::UnlinkGroup)
        } else if str_eq(input, "delete_parent") {
            Ok(Self::DeleteParent)
        } else {
            Ok(Self::Value(input.to_owned()))
        }
    }
}

/// A change of the link between two groups.
#[derive(Debug)]
pub struct GroupLinkChange {
    pub kind: GroupLinkChangeType,
    pub unlink_reason: GroupUnlinkReason,
}

} // verus!
