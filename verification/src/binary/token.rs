//! The tags and token dictionaries of the binary XML wire format.
//!
//! Frequent strings travel as one byte (an index into the primary
//! dictionary) or two (a dictionary tag and an index into one of four
//! secondary dictionaries). The remaining byte values above the primary
//! dictionary are the tags of the grammar.

use crate::binary::errors::DecoderError;
use crate::text::str_eq;
use vstd::prelude::*;

verus! {

/// Version of the dictionaries, sent in the connection header.
pub const DICT_VERSION: u8 = 3;

/// Tag of an empty list, and of absent content.
pub const LIST_EMPTY: u8 = 0;

/// Tag that selects secondary dictionary 0.
pub const DICTIONARY0: u8 = 236;

/// Tag that selects secondary dictionary 1.
pub const DICTIONARY1: u8 = 237;

/// Tag that selects secondary dictionary 2.
pub const DICTIONARY2: u8 = 238;

/// Tag that selects secondary dictionary 3.
pub const DICTIONARY3: u8 = 239;

/// Tag of an identifier with agent and device.
pub const ADJID: u8 = 247;

/// Tag of a list whose size fits in one byte.
pub const LIST8: u8 = 248;

/// Tag of a list whose size takes two bytes.
pub const LIST16: u8 = 249;

/// Tag of an identifier made of user and server.
pub const JID_PAIR: u8 = 250;

/// Tag of a string packed over the hexadecimal alphabet.
pub const HEX8: u8 = 251;

/// Tag of a byte block with a one-byte length.
pub const BINARY8: u8 = 252;

/// Tag of a byte block with a twenty-bit length.
pub const BINARY20: u8 = 253;

/// Tag of a byte block with a four-byte length.
pub const BINARY32: u8 = 254;

/// Tag of a string packed over the alphabet of digits, `-` and `.`.
pub const NIBBLE8: u8 = 255;

/// Longest string, in characters, that is packed.
pub const PACKED_MAX: usize = 127;

/// The primary dictionary: the string that each single token byte stands for.
/// Entry 0 is a placeholder: byte 0 is the empty-list tag, never a token.
pub const SINGLE_BYTE_TOKENS: [&'static str; 236] = [
    "", "xmlstreamstart", "xmlstreamend", "s.whatsapp.net", "type", "participant", "from",
    "receipt", "id", "notification", "disappearing_mode", "status", "jid", "broadcast", "user",
    "devices", "device_hash", "to", "offline", "message", "result", "class", "xmlns",
    "duration", "notify", "iq", "t", "ack", "g.us", "enc", "urn:xmpp:whatsapp:push", "presence",
    "config_value", "picture", "verified_name", "config_code", "key-index-list", "contact",
    "mediatype", "routing_info", "edge_routing", "get", "read", "urn:xmpp:ping",
    "fallback_hostname", "0", "chatstate", "business_hours_config", "unavailable",
    "download_buckets", "skmsg", "verified_level", "composing", "handshake", "device-list",
    "media", "text", "fallback_ip4", "media_conn", "device", "creation", "location", "config",
    "item", "fallback_ip6", "count", "w:profile:picture", "image", "business", "2", "hostname",
    "call-creator", "display_name", "relaylatency", "platform", "abprops", "success", "msg",
    "offline_preview", "prop", "key-index", "v", "day_of_week", "pkmsg", "version", "1", "ping",
    "w:p", "download", "video", "set", "specific_hours", "props", "primary", "unknown", "hash",
    "commerce_experience", "last", "subscribe", "max_buckets", "call", "profile",
    "member_since_text", "close_time", "call-id", "sticker", "mode", "participants", "value",
    "query", "profile_options", "open_time", "code", "list", "host", "ts", "contacts", "upload",
    "lid", "preview", "update", "usync", "w:stats", "delivery", "auth_ttl", "context", "fail",
    "cart_enabled", "appdata", "category", "atn", "direct_connection", "decrypt-fail",
    "relay_id", "mmg-fallback.whatsapp.net", "target", "available", "name", "last_id",
    "mmg.whatsapp.net", "categories", "401", "is_new", "index", "tctoken", "ip4", "token_id",
    "latency", "recipient", "edit", "ip6", "add", "thumbnail-document", "26", "paused", "true",
    "identity", "stream:error", "key", "sidelist", "background", "audio", "3",
    "thumbnail-image", "biz-cover-photo", "cat", "gcm", "thumbnail-video", "error", "auth",
    "deny", "serial", "in", "registration", "thumbnail-link", "remove", "00", "gif",
    "thumbnail-gif", "tag", "capability", "multicast", "item-not-found", "description",
    "business_hours", "config_expo_key", "md-app-state", "expiration", "fallback", "ttl", "300",
    "md-msg-hist", "device_orientation", "out", "w:m", "open_24h", "side_list", "token",
    "inactive", "01", "document", "te2", "played", "encrypt", "msgr", "hide", "direct_path",
    "12", "state", "not-authorized", "url", "terminate", "signature", "status-revoke-delay",
    "02", "te", "linked_accounts", "trusted_contact", "timezone", "ptt", "kyc-id",
    "privacy_token", "readreceipts", "appointment_only", "address", "expected_ts", "privacy",
    "7", "android", "interactive", "device-identity", "enabled", "attribute_padding", "1080",
    "03", "screen_height",
];

/// Secondary dictionary 0: the strings reached by `DICTIONARY0` and one more byte.
pub const DOUBLE_BYTE_TOKENS_0: [&'static str; 256] = [
    "read-self", "active", "fbns", "protocol", "reaction", "screen_width", "heartbeat",
    "deviceid", "2:47DEQpj8", "uploadfieldstat", "voip_settings", "retry", "priority",
    "longitude", "conflict", "false", "ig_professional", "replaced", "preaccept", "cover_photo",
    "uncompressed", "encopt", "ppic", "04", "passive", "status-revoke-drop", "keygen", "540",
    "offer", "rate", "opus", "latitude", "w:gp2", "ver", "4", "business_profile", "medium",
    "sender", "prev_v_id", "email", "website", "invited", "sign_credential", "05", "transport",
    "skey", "reason", "peer_abtest_bucket", "America/Sao_Paulo", "appid", "refresh", "100",
    "06", "404", "101", "104", "107", "102", "109", "103", "member_add_mode", "105",
    "transaction-id", "110", "106", "outgoing", "108", "111", "tokens", "followers",
    "ig_handle", "self_pid", "tue", "dec", "thu", "joinable", "peer_pid", "mon", "features",
    "wed", "peer_device_presence", "pn", "delete", "07", "fri", "audio_duration", "admin",
    "connected", "delta", "rcat", "disable", "collection", "08", "480", "sat", "phash", "all",
    "invite", "accept", "critical_unblock_low", "group_update", "signed_credential",
    "blinded_credential", "eph_setting", "net", "09", "background_location", "refresh_id",
    "Asia/Kolkata", "privacy_mode_ts", "account_sync", "voip_payload_type", "service_areas",
    "acs_public_key", "v_id", "0a", "fallback_class", "relay", "actual_actors", "metadata",
    "w:biz", "5", "connected-limit", "notice", "0b", "host_storage", "fb_page", "subject",
    "privatestats", "invis", "groupadd", "010", "note.m4r", "uuid", "0c", "8000", "sun", "372",
    "1020", "stage", "1200", "720", "canonical", "fb", "011", "video_duration", "0d", "1140",
    "superadmin", "012", "Opening.m4r", "keystore_attestation", "dleq_proof", "013",
    "timestamp", "ab_key", "w:sync:app:state", "0e", "vertical", "600", "p_v_id", "6", "likes",
    "014", "500", "1260", "creator", "0f", "rte", "destination", "group", "group_info",
    "syncd_anti_tampering_fatal_exception_enabled", "015", "dl_bw", "Asia/Jakarta", "vp8/h.264",
    "online", "1320", "fb:multiway", "10", "timeout", "016", "nse_retry",
    "urn:xmpp:whatsapp:dirty", "017", "a_v_id", "web_shops_chat_header_button_enabled",
    "nse_call", "inactive-upgrade", "none", "web", "groups", "2250",
    "mms_hot_content_timespan_in_seconds", "contact_blacklist", "nse_read",
    "suspended_group_deletion_notification", "binary_version", "018",
    "https://www.whatsapp.com/otp/copy/", "reg_push",
    "shops_hide_catalog_attachment_entrypoint", "server_sync", ".",
    "ephemeral_messages_allowed_values", "019", "mms_vcache_aggregation_enabled", "iphone",
    "America/Argentina/Buenos_Aires", "01a", "mms_vcard_autodownload_size_kb", "nse_ver",
    "shops_header_dropdown_menu_item", "dhash", "catalog_status",
    "communities_mvp_new_iqs_serverprop", "blocklist", "default", "11",
    "ephemeral_messages_enabled", "01b", "original_dimensions", "8",
    "mms4_media_retry_notification_encryption_enabled",
    "mms4_server_error_receipt_encryption_enabled", "original_image_url", "sync", "multiway",
    "420", "companion_enc_static", "shops_profile_drawer_entrypoint", "01c",
    "vcard_as_document_size_kb", "status_video_max_duration", "request_image_url", "01d",
    "regular_high", "s_t", "abt", "share_ext_min_preliminary_image_quality", "01e", "32",
    "syncd_key_rotation_enabled", "data_namespace", "md_downgrade_read_receipts2", "patch",
    "polltype", "ephemeral_messages_setting", "userrate", "15", "partial_pjpeg_bw_threshold",
    "played-self", "catalog_exists", "01f", "mute_v2",
];

/// Secondary dictionary 1: the strings reached by `DICTIONARY1` and one more byte, as far
/// as they are known. A byte past the table is no token.
pub const DOUBLE_BYTE_TOKENS_1: [&'static str; 229] = [
    "reject", "dirty", "announcement", "020", "13", "9", "status_video_max_bitrate",
    "fb:thrift_iq", "offline_batch", "022", "full", "ctwa_first_business_reply_logging",
    "h.264", "smax_id", "group_description_length", "https://www.whatsapp.com/otp/code",
    "status_image_max_edge", "smb_upsell_business_profile_enabled", "021",
    "web_upgrade_to_md_modal", "14", "023", "s_o", "smaller_video_thumbs_status_enabled",
    "media_max_autodownload", "960", "blocking_status", "peer_msg",
    "joinable_group_call_client_version", "group_call_video_maximization_enabled",
    "return_snapshot", "high", "America/Mexico_City", "entry_point_block_logging_enabled",
    "pop", "024", "1050", "16", "1380", "one_tap_calling_in_group_chat_size", "regular_low",
    "inline_joinable_education_enabled", "hq_image_max_edge", "locked", "America/Bogota",
    "smb_biztools_deeplink_enabled", "status_image_quality", "1088", "025",
    "payments_upi_intent_transaction_limit", "voip", "w:g2", "027", "md_pin_chat_enabled",
    "026", "multi_scan_pjpeg_download_enabled", "shops_product_grid", "transaction_id",
    "ctwa_context_enabled", "20", "fna", "hq_image_quality", "alt_jpeg_doc_detection_quality",
    "group_call_max_participants", "pkey", "America/Belem", "image_max_kbytes",
    "web_cart_v1_1_order_message_changes_enabled", "ctwa_context_enterprise_enabled",
    "urn:xmpp:whatsapp:account", "840", "Asia/Kuala_Lumpur", "max_participants",
    "video_remux_after_repair_enabled", "stella_addressbook_restriction_type", "660", "900",
    "780", "context_menu_ios13_enabled", "mute-state", "ref", "payments_request_messages",
    "029", "frskmsg", "vcard_max_size_kb", "sample_buffer_gif_player_enabled",
    "match_last_seen", "510", "4983", "video_max_bitrate", "028", "w:comms:chat", "17",
    "frequently_forwarded_max", "groups_privacy_blacklist", "Asia/Karachi", "02a",
    "web_download_document_thumb_mms_enabled", "02b", "hist_sync", "biz_block_reasons_version",
    "1024", "18", "web_is_direct_connection_for_plm_transparent", "view_once_write",
    "file_max_size", "paid_convo_id", "online_privacy_setting", "video_max_edge",
    "view_once_read", "enhanced_storage_management", "multi_scan_pjpeg_encoding_enabled",
    "ctwa_context_forward_enabled", "video_transcode_downgrade_enable",
    "template_doc_mime_types", "hq_image_bw_threshold", "30", "body",
    "u_aud_limit_sil_restarts_ctrl", "other", "participating", "w:biz:directory", "1110", "vp8",
    "4018", "meta", "doc_detection_image_max_edge", "image_quality", "1170", "02c",
    "smb_upsell_chat_banner_enabled", "key_expiry_time_second", "pid", "stella_interop_enabled",
    "19", "linked_device_max_count", "md_device_sync_enabled", "02d", "02e", "360",
    "enhanced_block_enabled", "ephemeral_icon_in_forwarding", "paid_convo_status",
    "gif_provider", "project_name", "server-error", "canonical_url_validation_enabled",
    "wallpapers_v2", "syncd_clear_chat_delete_chat_enabled", "medianotify", "02f",
    "shops_required_tos_version", "vote", "reset_skey_on_id_change", "030", "image_max_edge",
    "multicast_limit_global", "ul_bw", "21", "25", "5000", "poll", "570", "22", "031", "1280",
    "WhatsApp", "032", "bloks_shops_enabled", "50", "upload_host_switching_enabled",
    "web_ctwa_context_compose_enabled", "ptt_forwarded_features_enabled", "unblocked",
    "partial_pjpeg_enabled", "fbid:devices", "height", "ephemeral_group_query_ts",
    "group_join_permissions", "order", "033", "alt_jpeg_status_quality", "migrate",
    "popular-bank", "win_uwp_deprecation_killswitch_enabled",
    "web_download_status_thumb_mms_enabled", "blocking", "url_text", "035",
    "web_forwarding_limit_to_groups", "1600", "val", "1000", "syncd_msg_date_enabled",
    "bank-ref-id", "max_subject", "payments_web_enabled",
    "web_upload_document_thumb_mms_enabled", "size", "request", "ephemeral", "24",
    "receipt_agg", "ptt_remember_play_position", "sampling_weight", "enc_rekey", "mute_always",
    "037", "034", "23", "036", "action", "click_to_chat_qr_enabled", "width", "disabled", "038",
    "md_blocklist_v2", "played_self_enabled", "web_buttons_message_enabled", "flow_id", "clear",
    "450", "fbid:thread", "bloks_session_state", "America/Lima", "attachment_channel_type",
    "poster", "md_downgrade_read_receipts", "preview_type",
];

/// Secondary dictionary 2: the strings reached by `DICTIONARY2` and one more byte, as far
/// as they are known. A byte past the table is no token.
pub const DOUBLE_BYTE_TOKENS_2: [&'static str; 27] = [
    "64", "ptt_playback_speed_enabled", "web_product_list_message_enabled", "paid_convo_ts",
    "27", "manufacturer", "psp-routing", "grp_uii_cleanup", "ptt_draft_enabled", "03a",
    "business_initiated", "web_catalog_products_onoff", "web_upload_link_thumb_mms_enabled",
    "03e", "mediaretry", "35", "hfm_string_changes", "28", "America/Fortaleza", "max_keys",
    "md_mhfs_days", "streaming_upload_chunk_size", "5541", "040", "03d", "2675", "03f",
];

/// Secondary dictionary 3: the strings reached by `DICTIONARY3` and one more byte, as far
/// as they are known. A byte past the table is no token.
pub const DOUBLE_BYTE_TOKENS_3: [&'static str; 10] = [
    "1724", "profile_picture", "1071", "1314", "1605", "407", "990", "1710", "746",
    "pricing_category",
];

/// The first position at or after `from` at which `table` holds `text`.
pub open spec fn position_from(table: Seq<&'static str>, text: Seq<char>, from: int) -> Option<int>
    decreases table.len() - from,
{
    if from < 0 || from >= table.len() {
        None
    } else if table[from]@ == text {
        Some(from)
    } else {
        position_from(table, text, from + 1)
    }
}

/// What `position_from` finds is the first match, and it finds one whenever
/// there is one.
pub proof fn lemma_position_from(table: Seq<&'static str>, text: Seq<char>, from: int)
    requires
        0 <= from,
    ensures
        match position_from(table, text, from) {
            Some(i) => {
                &&& from <= i < table.len()
                &&& table[i]@ == text
                &&& forall|j: int| from <= j < i ==> (#[trigger] table[j])@ != text
            },
            None => forall|j: int| from <= j < table.len() ==> (#[trigger] table[j])@ != text,
        },
    decreases table.len() - from,
{
    if from < table.len() && table[from]@ != text {
        lemma_position_from(table, text, from + 1);
    }
}

/// Whether `index` is the byte of a primary token.
pub open spec fn is_single_token_byte(index: int) -> bool {
    1 <= index < SINGLE_BYTE_TOKENS@.len()
}

/// The string that the primary token byte `index` stands for.
pub open spec fn single_token(index: int) -> Seq<char> {
    SINGLE_BYTE_TOKENS@[index]@
}

/// The secondary dictionary with the given number.
pub open spec fn double_table(dictionary: int) -> Seq<&'static str> {
    if dictionary == 0 {
        DOUBLE_BYTE_TOKENS_0@
    } else if dictionary == 1 {
        DOUBLE_BYTE_TOKENS_1@
    } else if dictionary == 2 {
        DOUBLE_BYTE_TOKENS_2@
    } else if dictionary == 3 {
        DOUBLE_BYTE_TOKENS_3@
    } else {
        Seq::empty()
    }
}

/// Whether secondary dictionary `dictionary` has an entry `index`.
pub open spec fn is_double_token(dictionary: int, index: int) -> bool {
    0 <= dictionary < 4 && 0 <= index < double_table(dictionary).len()
}

/// The string at `index` of secondary dictionary `dictionary`.
pub open spec fn double_token(dictionary: int, index: int) -> Seq<char> {
    double_table(dictionary)[index]@
}

/// The byte that stands for `text` in the primary dictionary, if any: the
/// lowest one, and never byte 0.
pub open spec fn single_index(text: Seq<char>) -> Option<u8> {
    match position_from(SINGLE_BYTE_TOKENS@, text, 1) {
        Some(i) => Some(i as u8),
        None => None,
    }
}

/// Where `text` stands in secondary dictionary `dictionary` or a later one.
pub open spec fn double_index_from(text: Seq<char>, dictionary: int) -> Option<(u8, u8)>
    decreases 4 - dictionary,
{
    if dictionary < 0 || dictionary >= 4 {
        None
    } else {
        match position_from(double_table(dictionary), text, 0) {
            Some(i) => Some((dictionary as u8, i as u8)),
            None => double_index_from(text, dictionary + 1),
        }
    }
}

/// The dictionary and byte that stand for `text` in the secondary
/// dictionaries, if any: the first in dictionary order.
pub open spec fn double_index(text: Seq<char>) -> Option<(u8, u8)> {
    double_index_from(text, 0)
}

/// A string with a primary index is the token at that index.
pub proof fn lemma_single_index(text: Seq<char>)
    ensures
        match single_index(text) {
            Some(i) => is_single_token_byte(i as int) && single_token(i as int) == text,
            None => forall|j: int| is_single_token_byte(j) ==> single_token(j) != text,
        },
{
    lemma_position_from(SINGLE_BYTE_TOKENS@, text, 1);
}

/// A string with a secondary index is the token at that index.
pub proof fn lemma_double_index(text: Seq<char>)
    ensures
        match double_index(text) {
            Some((d, i)) => is_double_token(d as int, i as int) && double_token(
                d as int,
                i as int,
            ) == text,
            None => forall|d: int, j: int|
                is_double_token(d, j) ==> #[trigger] double_token(d, j) != text,
        },
{
    lemma_position_from(double_table(0), text, 0);
    lemma_position_from(double_table(1), text, 0);
    lemma_position_from(double_table(2), text, 0);
    lemma_position_from(double_table(3), text, 0);
    reveal_with_fuel(double_index_from, 5);
}

/// Every primary token has a primary index.
pub proof fn lemma_single_token_has_index(index: int)
    requires
        is_single_token_byte(index),
    ensures
        single_index(single_token(index)) is Some,
{
    lemma_single_index(single_token(index));
}

/// Searches `table` for `text` from position `from` on.
fn find_token(table: &[&'static str], text: &str, from: usize) -> (found: Option<usize>)
    ensures
        match found {
            Some(i) => position_from(table@, text@, from as int) == Some(i as int),
            None => position_from(table@, text@, from as int) is None,
        },
{
    let mut i: usize = from;
    while i < table.len()
        invariant
            from <= i,
            position_from(table@, text@, from as int) == position_from(table@, text@, i as int),
        decreases table@.len() - i,
    {
        if str_eq(table[i], text) {
            return Some(i);
        }
        i += 1;
    }
    None
}

/// The string of a primary token byte. Fails with `ErrInvalidToken` for byte
/// 0 and for every byte past the dictionary.
pub fn get_single_token(index: u8) -> (token: Result<String, DecoderError>)
    ensures
        is_single_token_byte(index as int) ==> token is Ok && token->Ok_0@ == single_token(
            index as int,
        ),
        !is_single_token_byte(index as int) ==> token == Err::<String, DecoderError>(
            DecoderError::ErrInvalidToken,
        ),
{
    if index >= 1 && (index as usize) < SINGLE_BYTE_TOKENS.len() {
        Ok(SINGLE_BYTE_TOKENS[index as usize].to_owned())
    } else {
        Err(DecoderError::ErrInvalidToken)
    }
}

/// The string at `index` of secondary dictionary `dictionary`. Fails with
/// `ErrInvalidToken` where there is no such dictionary or entry.
pub fn get_double_token(dictionary: u8, index: u8) -> (token: Result<String, DecoderError>)
    ensures
        is_double_token(dictionary as int, index as int) ==> token is Ok && token->Ok_0@
            == double_token(dictionary as int, index as int),
        !is_double_token(dictionary as int, index as int) ==> token == Err::<
            String,
            DecoderError,
        >(DecoderError::ErrInvalidToken),
{
    let i = index as usize;
    if dictionary == 0 && i < DOUBLE_BYTE_TOKENS_0.len() {
        Ok(DOUBLE_BYTE_TOKENS_0[i].to_owned())
    } else if dictionary == 1 && i < DOUBLE_BYTE_TOKENS_1.len() {
        Ok(DOUBLE_BYTE_TOKENS_1[i].to_owned())
    } else if dictionary == 2 && i < DOUBLE_BYTE_TOKENS_2.len() {
        Ok(DOUBLE_BYTE_TOKENS_2[i].to_owned())
    } else if dictionary == 3 && i < DOUBLE_BYTE_TOKENS_3.len() {
        Ok(DOUBLE_BYTE_TOKENS_3[i].to_owned())
    } else {
        Err(DecoderError::ErrInvalidToken)
    }
}

/// The primary token byte that stands for `text`, if there is one.
pub fn index_of_single_token(text: &str) -> (index: Option<u8>)
    ensures
        index == single_index(text@),
{
    match find_token(SINGLE_BYTE_TOKENS.as_slice(), text, 1) {
        Some(i) => {
            proof {
                lemma_position_from(SINGLE_BYTE_TOKENS@, text@, 1);
            }
            Some(i as u8)
        },
        None => None,
    }
}

/// The secondary dictionary and byte that stand for `text`, if there are any.
pub fn index_of_double_token(text: &str) -> (index: Option<(u8, u8)>)
    ensures
        index == double_index(text@),
{
    proof {
        reveal_with_fuel(double_index_from, 5);
        lemma_position_from(double_table(0), text@, 0);
        lemma_position_from(double_table(1), text@, 0);
        lemma_position_from(double_table(2), text@, 0);
        lemma_position_from(double_table(3), text@, 0);
    }
    if let Some(i) = find_token(DOUBLE_BYTE_TOKENS_0.as_slice(), text, 0) {
        return Some((0, i as u8));
    }
    if let Some(i) = find_token(DOUBLE_BYTE_TOKENS_1.as_slice(), text, 0) {
        return Some((1, i as u8));
    }
    if let Some(i) = find_token(DOUBLE_BYTE_TOKENS_2.as_slice(), text, 0) {
        return Some((2, i as u8));
    }
    if let Some(i) = find_token(DOUBLE_BYTE_TOKENS_3.as_slice(), text, 0) {
        return Some((3, i as u8));
    }
    None
}

} // verus!
