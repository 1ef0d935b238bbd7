use rhustapp::binary::errors::DecoderError;
use rhustapp::binary::token::{
    ADJID, BINARY20, BINARY32, BINARY8, DICT_VERSION, DICTIONARY0, DICTIONARY1, DICTIONARY2,
    DICTIONARY3, DOUBLE_BYTE_TOKENS_0, get_double_token, get_single_token, HEX8,
    index_of_double_token, index_of_single_token, JID_PAIR, LIST16, LIST8, LIST_EMPTY, NIBBLE8,
    PACKED_MAX, SINGLE_BYTE_TOKENS,
};
use rhustapp::error::{new_rhustapp_error, RhustAppError};
use rhustapp::socket::{
    check_can_connect, FRAME_LENGTH_SIZE, FRAME_MAX_SIZE, get_wa_header, host_of_authority,
    NOISE_START_PATTERN, SocketError, WA_MAGIC_VALUE,
};
use rhustapp::text::{
    find_char, i64_to_string, IntErrorKind, parse_i64, parse_u64, parse_u8, str_chars, str_eq,
    string_from_ascii, u64_to_string,
};

#[test]
fn decimal_text_of_numbers() {
    assert_eq!(u64_to_string(0), "0");
    assert_eq!(u64_to_string(7), "7");
    assert_eq!(u64_to_string(10), "10");
    assert_eq!(u64_to_string(1234567890), "1234567890");
    assert_eq!(u64_to_string(u64::MAX), "18446744073709551615");
    assert_eq!(i64_to_string(0), "0");
    assert_eq!(i64_to_string(-1), "-1");
    assert_eq!(i64_to_string(i64::MAX), "9223372036854775807");
    assert_eq!(i64_to_string(i64::MIN), "-9223372036854775808");
}

#[test]
fn numbers_from_text() {
    assert_eq!(parse_u64("0"), Ok(0));
    assert_eq!(parse_u64("+17"), Ok(17));
    assert_eq!(parse_u64("007"), Ok(7));
    assert_eq!(parse_u64("18446744073709551615"), Ok(u64::MAX));
    assert_eq!(parse_u64("18446744073709551616"), Err(IntErrorKind::PosOverflow));
    assert_eq!(parse_u64("-1"), Err(IntErrorKind::InvalidDigit));
    assert_eq!(parse_u64(""), Err(IntErrorKind::Empty));
    assert_eq!(parse_u64("+"), Err(IntErrorKind::InvalidDigit));
    assert_eq!(parse_u64("-"), Err(IntErrorKind::InvalidDigit));
    assert_eq!(parse_u64("1 "), Err(IntErrorKind::InvalidDigit));
    assert_eq!(parse_u64("99999999999999999999x"), Err(IntErrorKind::PosOverflow));
    assert_eq!(parse_u64("9x9999999999999999999"), Err(IntErrorKind::InvalidDigit));
    assert_eq!(parse_i64("-0"), Ok(0));
    assert_eq!(parse_i64("-42"), Ok(-42));
    assert_eq!(parse_i64("+42"), Ok(42));
    assert_eq!(parse_i64("9223372036854775807"), Ok(i64::MAX));
    assert_eq!(parse_i64("-9223372036854775808"), Ok(i64::MIN));
    assert_eq!(parse_i64("9223372036854775808"), Err(IntErrorKind::PosOverflow));
    assert_eq!(parse_i64("-9223372036854775809"), Err(IntErrorKind::NegOverflow));
    assert_eq!(parse_i64("--1"), Err(IntErrorKind::InvalidDigit));
    assert_eq!(parse_i64("\u{661}"), Err(IntErrorKind::InvalidDigit));
    assert_eq!(parse_u8("255"), Ok(255));
    assert_eq!(parse_u8("256"), Err(IntErrorKind::PosOverflow));
    assert_eq!(parse_u8("0255"), Ok(255));
}

#[test]
fn messages_of_number_errors() {
    assert_eq!(IntErrorKind::Empty.to_string(), "cannot parse integer from empty string");
    assert_eq!(IntErrorKind::InvalidDigit.to_string(), "invalid digit found in string");
    assert_eq!(IntErrorKind::PosOverflow.to_string(), "number too large to fit in target type");
    assert_eq!(IntErrorKind::NegOverflow.to_string(), "number too small to fit in target type");
}

#[test]
fn string_helpers() {
    assert!(str_eq("", ""));
    assert!(str_eq("abc", "abc"));
    assert!(!str_eq("abc", "abd"));
    assert!(!str_eq("abc", "ab"));
    assert!(!str_eq("\u{e9}", "e"));
    assert_eq!(str_chars("h\u{e9}!"), vec!['h', '\u{e9}', '!']);
    assert_eq!(find_char(&vec!['a', 'b', 'a'], 'a', 1), Some(2));
    assert_eq!(find_char(&vec!['a', 'b', 'a'], 'b', 2), None);
    assert_eq!(find_char(&vec!['a'], 'a', 5), None);
    assert_eq!(string_from_ascii(vec![b'o', b'k', 0]), "ok\u{0}");
}

#[test]
fn tags_of_the_grammar() {
    assert_eq!(LIST_EMPTY, 0);
    assert_eq!(
        [DICTIONARY0, DICTIONARY1, DICTIONARY2, DICTIONARY3],
        [236, 237, 238, 239]
    );
    assert_eq!([ADJID, LIST8, LIST16, JID_PAIR, HEX8], [247, 248, 249, 250, 251]);
    assert_eq!([BINARY8, BINARY20, BINARY32, NIBBLE8], [252, 253, 254, 255]);
    assert_eq!(PACKED_MAX, 127);
    assert_eq!(SINGLE_BYTE_TOKENS.len(), 236);
    assert_eq!(DOUBLE_BYTE_TOKENS_0.len(), 256);
}

#[test]
fn token_lookup() {
    assert_eq!(get_single_token(25), Ok("iq".to_string()));
    assert_eq!(get_single_token(1), Ok("xmlstreamstart".to_string()));
    assert_eq!(get_single_token(235), Ok("screen_height".to_string()));
    assert_eq!(get_single_token(0), Err(DecoderError::ErrInvalidToken));
    assert_eq!(get_single_token(236), Err(DecoderError::ErrInvalidToken));
    assert_eq!(get_double_token(0, 0), Ok("read-self".to_string()));
    assert_eq!(get_double_token(0, 15), Ok("false".to_string()));
    assert_eq!(get_double_token(0, 255), Ok("mute_v2".to_string()));
    assert_eq!(get_double_token(1, 0), Ok("reject".to_string()));
    assert_eq!(get_double_token(4, 0), Err(DecoderError::ErrInvalidToken));
    assert_eq!(get_double_token(3, 255), Err(DecoderError::ErrInvalidToken));
    assert_eq!(index_of_single_token("iq"), Some(25));
    assert_eq!(index_of_single_token("s.whatsapp.net"), Some(3));
    assert_eq!(index_of_single_token(""), None);
    assert_eq!(index_of_single_token("false"), None);
    assert_eq!(index_of_double_token("false"), Some((0, 15)));
    assert_eq!(index_of_double_token("reject"), Some((1, 0)));
    assert_eq!(index_of_double_token("iq"), None);
    assert_eq!(index_of_double_token("no such token"), None);
}

#[test]
fn every_token_is_found_where_it_stands() {
    for index in 1..SINGLE_BYTE_TOKENS.len() {
        let token = get_single_token(index as u8).unwrap();
        assert_eq!(index_of_single_token(&token), Some(index as u8));
        assert_eq!(index_of_double_token(&token), None);
    }
    for dictionary in 0..4u8 {
        for index in 0..=255u8 {
            if let Ok(token) = get_double_token(dictionary, index) {
                assert_eq!(index_of_double_token(&token), Some((dictionary, index)));
            }
        }
    }
}

#[test]
fn connection_header() {
    assert_eq!(get_wa_header(), [0x57, 0x41, 0x05, DICT_VERSION]);
    assert_eq!(WA_MAGIC_VALUE, 5);
    assert_eq!(DICT_VERSION, 3);
    assert_eq!(FRAME_MAX_SIZE, 2 << 23);
    assert_eq!(FRAME_LENGTH_SIZE, 3);
    assert_eq!(NOISE_START_PATTERN.len(), 32);
}

#[test]
fn socket_helpers() {
    assert_eq!(SocketError::FrameTooLarge.to_string(), "frame is too large");
    assert_eq!(SocketError::SocketClosed.to_string(), "frame socket is closed");
    assert_eq!(SocketError::SocketAlreadyOpen.to_string(), "frame socket is already open");
    assert_eq!(check_can_connect(false), Ok(()));
    assert_eq!(check_can_connect(true), Err(SocketError::SocketAlreadyOpen));
    assert_eq!(host_of_authority("web.whatsapp.com"), "web.whatsapp.com");
    assert_eq!(host_of_authority("user:pw@web.whatsapp.com"), "web.whatsapp.com");
    assert_eq!(host_of_authority("a@b@c"), "b@c");
}

#[test]
fn error_as_text() {
    let plain = new_rhustapp_error("it failed", None, "here");
    assert_eq!(
        plain.to_string(),
        "RhustAppError {\n       location : \"here\",\n    description : \"it failed\",\n}"
    );
    let caused = RhustAppError {
        description: "it failed".to_string(),
        error: Some("first\nsecond".to_string()),
        location: "there".to_string(),
    };
    assert_eq!(
        caused.to_string(),
        "RhustAppError {\n       location : \"there\",\n    description : \"it failed\",\n          error : \"first\n    second\",\n}"
    );
    assert_eq!(caused.clone().to_string(), caused.to_string());
}
