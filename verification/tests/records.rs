use rhustapp::types::events::{ConnectFailureReason, TempBanReason, temporary_ban_text};
use rhustapp::types::group::{
    GroupLinkChangeType, GroupMemberAddMode, GroupUnlinkReason, MembershipApprovalMode,
};
use rhustapp::types::jid::JID;
use rhustapp::types::message::MessageSource;
use rhustapp::types::presence::{ChatPresence, ChatPresenceMedia, Presence};
use rhustapp::types::user::{PrivacySetting, ProfilePictureType, StatusPrivacyType};

#[test]
fn connect_failure_reasons() {
    for (code, reason) in [
        (401, ConnectFailureReason::LoggedOut),
        (402, ConnectFailureReason::TempBanned),
        (403, ConnectFailureReason::MainDeviceGone),
        (406, ConnectFailureReason::UnknownLogout),
        (405, ConnectFailureReason::ClientOutdated),
        (409, ConnectFailureReason::BadUserAgent),
        (503, ConnectFailureReason::ServiceUnavailable),
        (400, ConnectFailureReason::Value(400)),
        (-1, ConnectFailureReason::Value(-1)),
    ] {
        assert_eq!(ConnectFailureReason::from(code), reason);
        assert_eq!(reason.to_error_code(), code);
    }
    assert_eq!(ConnectFailureReason::LoggedOut.to_string(), "401: logged out from another device");
    assert_eq!(ConnectFailureReason::TempBanned.to_string(), "402: account temporarily banned");
    assert_eq!(ConnectFailureReason::Value(-7).to_string(), "-7: unknown error");
    assert!(ConnectFailureReason::LoggedOut.is_logged_out());
    assert!(ConnectFailureReason::MainDeviceGone.is_logged_out());
    assert!(ConnectFailureReason::UnknownLogout.is_logged_out());
    assert!(!ConnectFailureReason::TempBanned.is_logged_out());
    assert!(!ConnectFailureReason::Value(401).is_logged_out());
}

#[test]
fn temporary_ban_reasons() {
    for (code, reason) in [
        (101, TempBanReason::SentToTooManyPeople),
        (102, TempBanReason::BlockedByUsers),
        (103, TempBanReason::CreatedTooManyGroups),
        (104, TempBanReason::SentTooManySameMessages),
        (106, TempBanReason::BroadcastList),
        (105, TempBanReason::Value(105)),
    ] {
        assert_eq!(TempBanReason::from(code), reason);
        assert_eq!(reason.to_error_code(), code);
    }
    assert_eq!(TempBanReason::BlockedByUsers.to_string(), "102: too many people blocked you");
    assert_eq!(
        TempBanReason::Value(9).to_string(),
        "9: you may have violated the terms and service (unknown reason)"
    );
    assert_eq!(
        temporary_ban_text(&TempBanReason::BlockedByUsers, None),
        "You've been temporarily banned: 102: too many people blocked you"
    );
    assert_eq!(
        temporary_ban_text(&TempBanReason::BroadcastList, Some("1h30m")),
        "You've been temporarily banned: 106: you sent too many messages to a broadcast list. The ban expires in 1h30m"
    );
}

#[test]
fn presence_from_text() {
    assert!(matches!(Presence::from_str("available"), Ok(Presence::Available)));
    assert!(matches!(Presence::from_str("unavailable"), Ok(Presence::Unavailable)));
    assert!(matches!(Presence::from_str("away"), Ok(Presence::Value(s)) if s == "away"));
    assert!(matches!(ChatPresence::from_str("composing"), Ok(ChatPresence::Composing)));
    assert!(matches!(ChatPresence::from_str("paused"), Ok(ChatPresence::Paused)));
    assert!(matches!(ChatPresence::from_str(""), Ok(ChatPresence::Value(s)) if s.is_empty()));
    assert!(matches!(ChatPresenceMedia::from_str(""), Ok(ChatPresenceMedia::Text)));
    assert!(matches!(ChatPresenceMedia::from_str("audio"), Ok(ChatPresenceMedia::Audio)));
    assert!(matches!(ChatPresenceMedia::from_str("x"), Ok(ChatPresenceMedia::Value(s)) if s == "x"));
}

#[test]
fn group_values_from_text() {
    assert!(matches!(GroupMemberAddMode::from_str("admin_add"), Ok(GroupMemberAddMode::AdminAdd)));
    assert!(matches!(
        GroupMemberAddMode::from_str("all"),
        Ok(GroupMemberAddMode::Value(s)) if s == "all"
    ));
    assert!(matches!(
        MembershipApprovalMode::from_str("request_required"),
        Ok(MembershipApprovalMode::RequestRequired)
    ));
    assert!(matches!(GroupLinkChangeType::from_str("parent_group"), Ok(GroupLinkChangeType::Parent)));
    assert!(matches!(GroupLinkChangeType::from_str("sub_group"), Ok(GroupLinkChangeType::Sub)));
    assert!(matches!(
        GroupLinkChangeType::from_str("sibling_group"),
        Ok(GroupLinkChangeType::Sibling)
    ));
    assert!(matches!(
        GroupLinkChangeType::from_str("cousin"),
        Ok(GroupLinkChangeType::Value(s)) if s == "cousin"
    ));
    assert!(matches!(GroupUnlinkReason::from_str("unlink_group"), Ok(GroupUnlinkReason::UnlinkGroup)));
    assert!(matches!(
        GroupUnlinkReason::from_str("delete_parent"),
        Ok(GroupUnlinkReason::DeleteParent)
    ));
}

#[test]
fn user_values_from_text() {
    assert!(matches!(ProfilePictureType::from_str("image"), Ok(ProfilePictureType::Image)));
    assert!(matches!(ProfilePictureType::from_str("preview"), Ok(ProfilePictureType::Preview)));
    assert!(matches!(PrivacySetting::from_str(""), Ok(PrivacySetting::Undefined)));
    assert!(matches!(PrivacySetting::from_str("all"), Ok(PrivacySetting::All)));
    assert!(matches!(PrivacySetting::from_str("contacts"), Ok(PrivacySetting::Contacts)));
    assert!(matches!(PrivacySetting::from_str("none"), Ok(PrivacySetting::Nobody)));
    let error = PrivacySetting::from_str("some").unwrap_err();
    assert_eq!(error.description, "'some' did not match any known PrivacySetting");
    assert_eq!(error.error, None);
    assert_eq!(error.location, "PrivacySetting::from_str");
    assert!(matches!(StatusPrivacyType::from_str("contacts"), Ok(StatusPrivacyType::Contacts)));
    assert!(matches!(StatusPrivacyType::from_str("blacklist"), Ok(StatusPrivacyType::Blacklist)));
    assert!(matches!(StatusPrivacyType::from_str("whitelist"), Ok(StatusPrivacyType::Whitelist)));
    let error = StatusPrivacyType::from_str("").unwrap_err();
    assert_eq!(error.description, "'' did not match any known StatusPrivacyType");
}

#[test]
fn message_source() {
    let chat = JID::new("123", "broadcast");
    let mut source = MessageSource {
        chat: chat.clone(),
        sender: JID::new("5", "s.whatsapp.net"),
        is_from_me: false,
        is_group: true,
        broadcast_list_owner: None,
    };
    assert!(source.is_incoming_broadcast());
    assert_eq!(source.source_string(), "5@s.whatsapp.net in 123@broadcast");
    source.is_from_me = true;
    assert!(!source.is_incoming_broadcast());
    source.broadcast_list_owner = Some(JID::new("6", "s.whatsapp.net"));
    assert!(source.is_incoming_broadcast());
    source.chat = JID::new("status", "broadcast");
    assert!(!source.is_incoming_broadcast());
    source.sender = source.chat.clone();
    assert_eq!(source.source_string(), "status@broadcast");
}
