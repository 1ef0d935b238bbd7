use rhustapp::text::IntErrorKind;
use rhustapp::types::jid::{
    BROADCAST_SERVER, broadcast_server_jid, DEFAULT_USER_SERVER, empty_jid, GROUP_SERVER,
    group_server_jid, HIDDEN_USER_SERVER, JID, JidError, LEGACY_USER_SERVER, official_business_jid,
    parse_ad_jid, psa_jid, server_jid, status_broadcast_jid,
};

#[test]
fn device_identifier_from_text_and_back() {
    let jid = JID::from_str("447911234567.0:2@s.whatsapp.net").unwrap();
    assert!(jid.is_ad());
    assert_eq!(jid.user, "447911234567");
    assert_eq!(jid.agent, Some(0));
    assert_eq!(jid.device, Some(2));
    assert_eq!(jid.server, "s.whatsapp.net");
    assert_eq!(jid.to_string(), "447911234567.0:2@s.whatsapp.net");
}

#[test]
fn constructors() {
    let pair = JID::new("123", "g.us");
    assert_eq!(pair.user, "123");
    assert_eq!(pair.server, "g.us");
    assert_eq!(pair.agent, None);
    assert_eq!(pair.device, None);
    assert!(!pair.is_ad());
    let ad = JID::new_ad("123", 4, 255);
    assert!(ad.is_ad());
    assert_eq!(ad.server, DEFAULT_USER_SERVER);
    assert_eq!(ad.agent, Some(4));
    assert_eq!(ad.device, Some(255));
    let half = JID { user: "1".to_string(), agent: Some(1), device: None, server: "x".to_string() };
    assert!(!half.is_ad());
    assert_eq!(JID::default(), JID::new("", ""));
}

#[test]
fn canonical_text() {
    assert_eq!(JID::new("123", "g.us").to_string(), "123@g.us");
    assert_eq!(JID::new("", "g.us").to_string(), "g.us");
    assert_eq!(JID::new_ad("123", 12, 200).to_string(), "123.12:200@s.whatsapp.net");
    assert_eq!(JID::new("", "").to_string(), "");
}

#[test]
fn parsing_of_pairs() {
    assert_eq!(JID::from_str("123@g.us"), Ok(JID::new("123", "g.us")));
    assert_eq!(JID::from_str("g.us"), Ok(JID::new("", "g.us")));
    assert_eq!(JID::from_str(""), Ok(JID::new("", "")));
    assert_eq!(JID::from_str("@"), Ok(JID::new("", "")));
    assert_eq!(JID::from_str("a@b@c"), Ok(JID::new("a", "b")));
    assert_eq!(JID::from_str("1.2:3@g.us"), Ok(JID::new("1.2:3", "g.us")));
    assert_eq!(JID::from_str("1.2@s.whatsapp.net"), Ok(JID::new("1.2", "s.whatsapp.net")));
    assert_eq!(JID::from_str("j\u{fc}@s\u{e9}"), Ok(JID::new("j\u{fc}", "s\u{e9}")));
}

#[test]
fn parsing_of_device_identifiers() {
    assert_eq!(JID::from_str("1.2:3@s.whatsapp.net"), Ok(JID::new_ad("1", 2, 3)));
    assert_eq!(JID::from_str("1.+2:255@s.whatsapp.net"), Ok(JID::new_ad("1", 2, 255)));
    assert_eq!(JID::from_str(".0:0@s.whatsapp.net@x"), Ok(JID::new_ad("", 0, 0)));
    assert_eq!(parse_ad_jid("1.2:3"), Ok(JID::new_ad("1", 2, 3)));
    assert_eq!(parse_ad_jid("1.2.3:4:5"), Err(JidError::InvalidAgent(IntErrorKind::InvalidDigit)));
}

#[test]
fn parsing_errors() {
    assert_eq!(
        JID::from_str("1:2.3@s.whatsapp.net"),
        Err(JidError::SeparatorsOutOfOrder)
    );
    assert_eq!(
        JID::from_str("1.x:3@s.whatsapp.net"),
        Err(JidError::InvalidAgent(IntErrorKind::InvalidDigit))
    );
    assert_eq!(
        JID::from_str("1.:3@s.whatsapp.net"),
        Err(JidError::InvalidAgent(IntErrorKind::Empty))
    );
    assert_eq!(
        JID::from_str("1.256:3@s.whatsapp.net"),
        Err(JidError::InvalidAgent(IntErrorKind::PosOverflow))
    );
    assert_eq!(
        JID::from_str("1.2:300@s.whatsapp.net"),
        Err(JidError::InvalidDevice(IntErrorKind::PosOverflow))
    );
    assert_eq!(
        JID::from_str("1.2:@s.whatsapp.net"),
        Err(JidError::InvalidDevice(IntErrorKind::Empty))
    );
    assert_eq!(parse_ad_jid("12"), Err(JidError::MissingSeparators));
    assert_eq!(parse_ad_jid("1.2"), Err(JidError::MissingSeparators));
    assert_eq!(parse_ad_jid("1:2"), Err(JidError::MissingSeparators));
}

#[test]
fn error_messages() {
    assert_eq!(JidError::MissingSeparators.to_string(), "missing separators ('.', ':')");
    assert_eq!(
        JidError::SeparatorsOutOfOrder.to_string(),
        "separators ('.', ':') not in correct order"
    );
    assert_eq!(
        JidError::InvalidAgent(IntErrorKind::Empty).to_string(),
        "failed to parse agent string to u8"
    );
    assert_eq!(
        JidError::InvalidDevice(IntErrorKind::Empty).to_string(),
        "failed to parse device string to u8"
    );
}

#[test]
fn without_agent_and_device() {
    assert_eq!(JID::new_ad("123", 1, 2).to_non_ad(), JID::new("123", "s.whatsapp.net"));
    assert_eq!(JID::new("123", "g.us").to_non_ad(), JID::new("123", "g.us"));
}

#[test]
fn predicates_and_numbers() {
    assert!(JID::new("123", BROADCAST_SERVER).is_broadcast_list());
    assert!(!JID::new("status", BROADCAST_SERVER).is_broadcast_list());
    assert!(!JID::new("123", GROUP_SERVER).is_broadcast_list());
    assert!(JID::new("", "g.us").is_empty());
    assert!(!JID::new("1", "").is_empty());
    assert_eq!(JID::new("447911234567", "x").user_int(), Some(447911234567));
    assert_eq!(JID::new("18446744073709551615", "x").user_int(), Some(u64::MAX));
    assert_eq!(JID::new("18446744073709551616", "x").user_int(), None);
    assert_eq!(JID::new("12-3", "x").user_int(), None);
    assert_eq!(JID::new("", "x").user_int(), None);
}

#[test]
fn signal_address() {
    let address = JID::new_ad("123", 4, 9).signal_address();
    assert_eq!(address.name, "123_4");
    assert_eq!(address.device_id, 9);
    let address = JID::new("123", "g.us").signal_address();
    assert_eq!(address.name, "123");
    assert_eq!(address.device_id, 0);
}

#[test]
fn well_known_identifiers() {
    assert_eq!(empty_jid(), JID::new("", ""));
    assert_eq!(group_server_jid(), JID::new("", "g.us"));
    assert_eq!(server_jid(), JID::new("", "s.whatsapp.net"));
    assert_eq!(broadcast_server_jid(), JID::new("", "broadcast"));
    assert_eq!(status_broadcast_jid(), JID::new("status", "broadcast"));
    assert_eq!(psa_jid(), JID::new("0", "c.us"));
    assert_eq!(official_business_jid(), JID::new("16505361212", "c.us"));
    assert_eq!(LEGACY_USER_SERVER, "c.us");
    assert_eq!(HIDDEN_USER_SERVER, "lid");
}

#[test]
fn equality_and_copies() {
    let jid = JID::new_ad("1", 2, 3);
    assert_eq!(jid.clone(), jid);
    assert_ne!(jid, JID::new_ad("1", 2, 4));
    assert_ne!(jid, JID::new("1", "s.whatsapp.net"));
}
