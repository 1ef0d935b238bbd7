use rhustapp::binary::attrs::{AttributeTypes, Attrs};
use rhustapp::binary::decoder::BinaryDecoder;
use rhustapp::binary::encoder::BinaryEncoder;
use rhustapp::binary::envelope::{inflate_result, unpack_data};
use rhustapp::binary::errors::DecoderError;
use rhustapp::binary::marshal::{marshal, unmarshal};
use rhustapp::binary::node::{Node, NodeContentType};
use rhustapp::types::jid::JID;

fn text(value: &str) -> AttributeTypes {
    AttributeTypes::String(value.to_string())
}

fn node(tag: &str, attrs: Vec<(&str, AttributeTypes)>, content: NodeContentType) -> Node {
    let mut map = Attrs::new();
    for (key, value) in attrs {
        map.insert(key.to_string(), value);
    }
    Node { tag: tag.to_string(), attrs: map, content }
}

fn encode(n: &Node) -> Vec<u8> {
    let payload = marshal(n).unwrap();
    let mut encoder = BinaryEncoder::new();
    encoder.write_node(n);
    assert_eq!(encoder.get_data(), payload);
    payload
}

fn decode(payload: &Vec<u8>) -> Result<Node, DecoderError> {
    let data = unpack_data(payload)?;
    let mut decoder = BinaryDecoder::new(&data);
    let node = decoder.read_node();
    match (&node, unmarshal(payload)) {
        (Ok(a), Ok(b)) => assert_eq!(a.xml_string(), b.xml_string()),
        (Err(a), Err(b)) => assert_eq!(*a, b),
        (a, b) => panic!("{:?} and {:?} differ", a, b),
    }
    node
}

fn written(write: impl FnOnce(&mut BinaryEncoder)) -> Vec<u8> {
    let mut encoder = BinaryEncoder::new();
    write(&mut encoder);
    encoder.get_data()[1..].to_vec()
}

fn string_attr(n: &Node, key: &str) -> String {
    match n.attrs.get(key) {
        Some(AttributeTypes::String(s)) => s.clone(),
        other => panic!("no string under {}: {:?}", key, other),
    }
}

#[test]
fn encoder_starts_with_zero_byte() {
    let encoder = BinaryEncoder::new();
    assert_eq!(encoder.get_data(), vec![0u8]);
}

#[test]
fn iq_with_two_attributes() {
    let n = node("iq", vec![("id", text("abc")), ("type", text("get"))], NodeContentType::Absent);
    let bytes = encode(&n);
    assert_eq!(bytes, vec![0, 248, 5, 25, 8, 251, 0x82, 0xAB, 0xCF, 4, 41]);
    let back = decode(&bytes).unwrap();
    assert_eq!(back.tag, "iq");
    assert_eq!(back.attrs.len(), 2);
    // A string packed over the hexadecimal alphabet comes back in capitals.
    assert_eq!(string_attr(&back, "id"), "ABC");
    assert_eq!(string_attr(&back, "type"), "get");
    assert!(matches!(back.content, NodeContentType::Absent));
}

#[test]
fn iq_with_values_that_are_read_back() {
    let n = node("iq", vec![("id", text("xyz")), ("type", text("get"))], NodeContentType::Absent);
    let back = decode(&encode(&n)).unwrap();
    assert_eq!(back.tag, "iq");
    assert_eq!(back.attrs.len(), 2);
    assert_eq!(string_attr(&back, "id"), "xyz");
    assert_eq!(string_attr(&back, "type"), "get");
    assert!(matches!(back.content, NodeContentType::Absent));
}

#[test]
fn message_with_device_identifier_and_bytes() {
    let n = node(
        "message",
        vec![("to", AttributeTypes::JID(JID::new_ad("555", 0, 1)))],
        NodeContentType::ByteArray(vec![0xDE, 0xAD, 0xBE, 0xEF]),
    );
    let bytes = encode(&n);
    assert_eq!(
        bytes,
        vec![0, 248, 4, 19, 17, 247, 0, 1, 255, 0x82, 0x55, 0x5F, 252, 4, 0xDE, 0xAD, 0xBE, 0xEF]
    );
    let back = decode(&bytes).unwrap();
    assert_eq!(back.tag, "message");
    match back.attrs.get("to") {
        Some(AttributeTypes::JID(jid)) => {
            assert!(jid.is_ad());
            assert_eq!(jid.user, "555");
            assert_eq!(jid.agent, Some(0));
            assert_eq!(jid.device, Some(1));
            assert_eq!(jid.server, "s.whatsapp.net");
        }
        other => panic!("unexpected attribute {:?}", other),
    }
    match back.content {
        NodeContentType::ByteArray(b) => assert_eq!(b, vec![0xDE, 0xAD, 0xBE, 0xEF]),
        other => panic!("unexpected content {:?}", other),
    }
}

#[test]
fn pair_identifier_keeps_user_and_server() {
    let n = node(
        "iq",
        vec![("from", AttributeTypes::JID(JID::new("alice", "g.us")))],
        NodeContentType::Absent,
    );
    let bytes = encode(&n);
    // "alice" is written raw, "g.us" is a token.
    assert_eq!(bytes, vec![0, 248, 3, 25, 6, 250, 252, 5, b'a', b'l', b'i', b'c', b'e', 28]);
    let back = decode(&bytes).unwrap();
    match back.attrs.get("from") {
        Some(AttributeTypes::JID(jid)) => {
            assert!(!jid.is_ad());
            assert_eq!(jid.user, "alice");
            assert_eq!(jid.server, "g.us");
        }
        other => panic!("unexpected attribute {:?}", other),
    }
}

#[test]
fn pair_identifier_without_user_is_written_with_an_empty_list() {
    let bytes = written(|e| e.write_jid(&JID::new("", "g.us")));
    assert_eq!(bytes, vec![250, 0, 28]);
    let mut decoder = BinaryDecoder::new(&bytes);
    match decoder.read(false).unwrap() {
        NodeContentType::JID(jid) => assert_eq!(jid, JID::new("", "g.us")),
        other => panic!("unexpected value {:?}", other),
    }
}

#[test]
fn nibble_packed_string() {
    let bytes = written(|e| e.write_string("1234567890"));
    assert_eq!(bytes, vec![255, 0x05, 0x12, 0x34, 0x56, 0x78, 0x90]);
}

#[test]
fn hex_packed_string() {
    let bytes = written(|e| e.write_string("abcdef"));
    assert_eq!(bytes, vec![251, 0x03, 0xAB, 0xCD, 0xEF]);
}

#[test]
fn odd_nibble_string_sets_the_top_bit_and_pads() {
    let bytes = written(|e| e.write_string("12-.5"));
    assert_eq!(bytes, vec![255, 0x83, 0x12, 0xAB, 0x5F]);
    let mut decoder = BinaryDecoder::new(&bytes);
    match decoder.read(true).unwrap() {
        NodeContentType::String(s) => assert_eq!(s, "12-.5"),
        other => panic!("unexpected value {:?}", other),
    }
}

#[test]
fn hexadecimal_strings_in_capitals_are_read_back() {
    for text in ["ABC", "AF", "F", "0F1E2D", "FFFFF"] {
        let bytes = written(|e| e.write_string(text));
        assert_eq!(bytes[0], 251);
        assert_eq!(bytes[1] as usize, (text.len() + 1) / 2 + if text.len() % 2 == 1 { 128 } else { 0 });
        let mut decoder = BinaryDecoder::new(&bytes);
        match decoder.read(true).unwrap() {
            NodeContentType::String(s) => assert_eq!(s, text),
            other => panic!("unexpected value {:?}", other),
        }
    }
    assert_eq!(written(|e| e.write_string("F")), vec![251, 0x81, 0xFF]);
}

#[test]
fn empty_string_is_written_packed() {
    let bytes = written(|e| e.write_string(""));
    assert_eq!(bytes, vec![255, 0]);
    let mut decoder = BinaryDecoder::new(&bytes);
    match decoder.read(true).unwrap() {
        NodeContentType::String(s) => assert_eq!(s, ""),
        other => panic!("unexpected value {:?}", other),
    }
}

#[test]
fn packed_length_limit() {
    let longest = "7".repeat(127);
    assert!(BinaryEncoder::validate_nibble(&longest));
    assert!(BinaryEncoder::validate_hex(&longest));
    let bytes = written(|e| e.write_string(&longest));
    assert_eq!(bytes.len(), 2 + 64);
    assert_eq!(bytes[0], 255);
    assert_eq!(bytes[1], 0x80 | 64);
    let too_long = "7".repeat(128);
    assert!(!BinaryEncoder::validate_nibble(&too_long));
    assert!(!BinaryEncoder::validate_hex(&too_long));
    let raw = written(|e| e.write_string(&too_long));
    assert_eq!(&raw[..2], &[252, 128]);
    assert_eq!(raw.len(), 2 + 128);
}

#[test]
fn validation_of_the_packed_alphabets() {
    assert!(BinaryEncoder::validate_nibble("0123456789-."));
    assert!(!BinaryEncoder::validate_nibble("12a"));
    assert!(!BinaryEncoder::validate_nibble("12\u{660}"));
    assert!(BinaryEncoder::validate_hex("09AFaf"));
    assert!(!BinaryEncoder::validate_hex("0g"));
    assert!(!BinaryEncoder::validate_hex("-"));
}

#[test]
fn packing_of_symbols() {
    assert_eq!(BinaryEncoder::pack_nibble(b'0'), 0);
    assert_eq!(BinaryEncoder::pack_nibble(b'9'), 9);
    assert_eq!(BinaryEncoder::pack_nibble(b'-'), 10);
    assert_eq!(BinaryEncoder::pack_nibble(b'.'), 11);
    assert_eq!(BinaryEncoder::pack_nibble(0), 15);
    assert_eq!(BinaryEncoder::pack_hex(b'7'), 7);
    assert_eq!(BinaryEncoder::pack_hex(b'A'), 10);
    assert_eq!(BinaryEncoder::pack_hex(b'f'), 15);
    assert_eq!(BinaryEncoder::pack_hex(0), 15);
    assert_eq!(BinaryEncoder::pack_byte_pair(255, b'1', b'.'), 0x1B);
    assert_eq!(BinaryEncoder::pack_byte_pair(251, b'c', b'0'), 0xC0);
}

#[test]
fn unpacking_of_symbols() {
    assert_eq!(BinaryDecoder::unpack_nibble(3), Ok(b'3'));
    assert_eq!(BinaryDecoder::unpack_nibble(10), Ok(b'-'));
    assert_eq!(BinaryDecoder::unpack_nibble(11), Ok(b'.'));
    assert_eq!(BinaryDecoder::unpack_nibble(15), Ok(0));
    assert_eq!(BinaryDecoder::unpack_nibble(12), Err(DecoderError::ErrInvalidToken));
    assert_eq!(BinaryDecoder::unpack_hex(9), Ok(b'9'));
    assert_eq!(BinaryDecoder::unpack_hex(10), Ok(b'A'));
    assert_eq!(BinaryDecoder::unpack_hex(15), Ok(b'F'));
    assert_eq!(BinaryDecoder::unpack_hex(16), Err(DecoderError::ErrInvalidToken));
    assert_eq!(BinaryDecoder::unpack_byte(255, 11), Ok(b'.'));
    assert_eq!(BinaryDecoder::unpack_byte(251, 11), Ok(b'B'));
    assert_eq!(BinaryDecoder::unpack_byte(7, 1), Err(DecoderError::ErrInvalidToken));
}

#[test]
fn single_token_is_one_byte() {
    assert_eq!(written(|e| e.write_string("iq")), vec![25]);
    assert_eq!(written(|e| e.write_string("screen_height")), vec![235]);
    assert_eq!(written(|e| e.write(&NodeContentType::String("message".to_string()))), vec![19]);
    // A token wins over the packed form.
    assert_eq!(written(|e| e.write_string("0")), vec![45]);
}

#[test]
fn double_token_is_two_bytes() {
    assert_eq!(written(|e| e.write_string("false")), vec![236, 15]);
    assert_eq!(written(|e| e.write_string("reject")), vec![237, 0]);
    let mut decoder = BinaryDecoder::new(&vec![237, 0]);
    match decoder.read(false).unwrap() {
        NodeContentType::String(s) => assert_eq!(s, "reject"),
        other => panic!("unexpected value {:?}", other),
    }
}

#[test]
fn size_class_boundaries() {
    assert_eq!(written(|e| e.write_byte_length(0)), vec![252, 0]);
    assert_eq!(written(|e| e.write_byte_length(255)), vec![252, 255]);
    assert_eq!(written(|e| e.write_byte_length(256)), vec![253, 0x00, 0x01, 0x00]);
    assert_eq!(written(|e| e.write_byte_length((1 << 20) - 1)), vec![253, 0x0F, 0xFF, 0xFF]);
    assert_eq!(written(|e| e.write_byte_length(1 << 20)), vec![254, 0x00, 0x10, 0x00, 0x00]);
    assert_eq!(
        written(|e| e.write_byte_length(0x7FFF_FFFF)),
        vec![254, 0x7F, 0xFF, 0xFF, 0xFF]
    );
}

#[test]
fn list_framing() {
    assert_eq!(written(|e| e.write_list_start(0)), vec![0]);
    assert_eq!(written(|e| e.write_list_start(1)), vec![248, 1]);
    assert_eq!(written(|e| e.write_list_start(255)), vec![248, 255]);
    assert_eq!(written(|e| e.write_list_start(256)), vec![249, 1, 0]);
    assert_eq!(written(|e| e.write_list_start(65535)), vec![249, 255, 255]);
}

#[test]
fn integer_writers() {
    assert_eq!(written(|e| e.push_i_n(0x01020304, 4, false)), vec![1, 2, 3, 4]);
    assert_eq!(written(|e| e.push_i_n(0x01020304, 4, true)), vec![4, 3, 2, 1]);
    assert_eq!(written(|e| e.push_i_n(0x01020304, 2, false)), vec![3, 4]);
    assert_eq!(written(|e| e.push_i_n(-1, 2, false)), vec![255, 255]);
    assert_eq!(written(|e| e.push_i_n(-2, 4, true)), vec![254, 255, 255, 255]);
    assert_eq!(written(|e| e.push_i_n(7, 0, false)), Vec::<u8>::new());
    assert_eq!(written(|e| e.push_i_8(0x1FF)), vec![0xFF]);
    assert_eq!(written(|e| e.push_i_16(0x1234)), vec![0x12, 0x34]);
    assert_eq!(written(|e| e.push_i_20(0xABCDE)), vec![0x0A, 0xBC, 0xDE]);
    assert_eq!(written(|e| e.push_i_20(0x7FABCDE)), vec![0x0A, 0xBC, 0xDE]);
    assert_eq!(written(|e| e.push_i_32(i32::MIN)), vec![0x80, 0, 0, 0]);
}

#[test]
fn byte_and_string_writers() {
    assert_eq!(written(|e| e.push_byte(9)), vec![9]);
    let mut more = vec![1, 2, 3];
    assert_eq!(written(|e| e.push_bytes(&mut more)), vec![1, 2, 3]);
    assert!(more.is_empty());
    assert_eq!(written(|e| e.push_string("h\u{e9}")), vec![b'h', 0xC3, 0xA9]);
    assert_eq!(written(|e| e.write_string_raw("hi")), vec![252, 2, b'h', b'i']);
    assert_eq!(written(|e| e.write_bytes(&vec![7, 8])), vec![252, 2, 7, 8]);
    assert_eq!(written(|e| e.write_packed_bytes("1\u{0}", 255)), vec![255, 1, 0x1F]);
}

#[test]
fn integer_readers() {
    let data = vec![1, 2, 3, 4];
    assert_eq!(BinaryDecoder::new(&data).read_i_n(4, false), Ok(0x01020304));
    assert_eq!(BinaryDecoder::new(&data).read_i_n(4, true), Ok(0x04030201));
    assert_eq!(BinaryDecoder::new(&data).read_i_n(0, true), Ok(0));
    assert_eq!(BinaryDecoder::new(&data).read_i_8(false), Ok(1));
    assert_eq!(BinaryDecoder::new(&data).read_i_16(false), Ok(0x0102));
    assert_eq!(BinaryDecoder::new(&data).read_i_16(true), Ok(0x0201));
    assert_eq!(BinaryDecoder::new(&vec![0xFF, 0xFF, 0xFF]).read_i_20(), Ok(0xFFFFF));
    assert_eq!(BinaryDecoder::new(&vec![0xFF; 4]).read_i_32(false), Ok(-1));
    assert_eq!(
        BinaryDecoder::new(&vec![1, 2, 3]).read_i_32(false),
        Err(DecoderError::ErrUnexpectedEnd)
    );
    let mut decoder = BinaryDecoder::new(&data);
    assert_eq!(decoder.read_byte(), Ok(1));
    assert_eq!(decoder.check_eos(3), Ok(()));
    assert_eq!(decoder.check_eos(4), Err(DecoderError::ErrUnexpectedEnd));
    assert_eq!(decoder.read_bytes(2), Ok(vec![2, 3]));
    assert_eq!(decoder.read_bytes(2), Err(DecoderError::ErrUnexpectedEnd));
    assert_eq!(decoder.read_byte(), Ok(4));
    assert_eq!(decoder.read_byte(), Err(DecoderError::ErrUnexpectedEnd));
}

#[test]
fn list_size_reader() {
    assert_eq!(BinaryDecoder::new(&vec![9]).read_list_size(0), Ok(0));
    assert_eq!(BinaryDecoder::new(&vec![9]).read_list_size(248), Ok(9));
    assert_eq!(BinaryDecoder::new(&vec![1, 44]).read_list_size(249), Ok(300));
    assert_eq!(
        BinaryDecoder::new(&vec![1, 44]).read_list_size(250),
        Err(DecoderError::ErrInvalidToken)
    );
}

#[test]
fn string_reader_checks_utf8() {
    assert_eq!(BinaryDecoder::new(&vec![0xC3, 0xA9]).read_string(2), Ok("\u{e9}".to_string()));
    assert_eq!(
        BinaryDecoder::new(&vec![0xC3, 0x28]).read_string(2),
        Err(DecoderError::ErrInvalidUtf8)
    );
    let mut decoder = BinaryDecoder::new(&vec![252, 1, 0xFF]);
    assert!(matches!(decoder.read(true), Err(DecoderError::ErrInvalidUtf8)));
    let mut decoder = BinaryDecoder::new(&vec![252, 1, 0xFF]);
    assert!(matches!(decoder.read(false), Ok(NodeContentType::ByteArray(b)) if b == vec![0xFF]));
}

#[test]
fn blocks_of_every_size_class_are_read() {
    let mut decoder = BinaryDecoder::new(&vec![253, 0xF0, 0x00, 0x02, 7, 8]);
    assert!(matches!(decoder.read(false), Ok(NodeContentType::ByteArray(b)) if b == vec![7, 8]));
    let mut decoder = BinaryDecoder::new(&vec![254, 0, 0, 0, 1, b'x']);
    assert!(matches!(decoder.read(true), Ok(NodeContentType::String(s)) if s == "x"));
    let mut decoder = BinaryDecoder::new(&vec![254, 0xFF, 0xFF, 0xFF, 0xFF, b'x']);
    assert!(matches!(decoder.read(true), Err(DecoderError::ErrUnexpectedEnd)));
}

#[test]
fn decoder_errors() {
    assert!(matches!(decode(&vec![0]), Err(DecoderError::ErrUnexpectedEnd)));
    assert!(matches!(decode(&vec![0, 248]), Err(DecoderError::ErrUnexpectedEnd)));
    assert!(matches!(decode(&vec![0, 248, 0]), Err(DecoderError::ErrInvalidNode)));
    assert!(matches!(decode(&vec![0, 0]), Err(DecoderError::ErrInvalidNode)));
    assert!(matches!(decode(&vec![0, 248, 1, 255, 0]), Err(DecoderError::ErrInvalidNode)));
    assert!(matches!(decode(&vec![0, 248, 1, 0]), Err(DecoderError::ErrInvalidNode)));
    assert!(matches!(decode(&vec![0, 7, 1, 25]), Err(DecoderError::ErrInvalidToken)));
    assert!(matches!(decode(&vec![0, 248, 1, 240]), Err(DecoderError::ErrInvalidToken)));
    assert!(matches!(decode(&vec![0, 248, 3, 25, 0, 0]), Err(DecoderError::ErrNonStringKey)));
    assert!(matches!(decode(&vec![0, 248, 3, 25, 8, 0]), Err(DecoderError::ErrInvalidType)));
    assert!(matches!(
        decode(&vec![0, 248, 3, 25, 8, 252, 1, 0xFF]),
        Err(DecoderError::ErrInvalidUtf8)
    ));
    let mut decoder = BinaryDecoder::new(&vec![250, 25, 0]);
    assert!(matches!(decoder.read(false), Err(DecoderError::ErrInvalidJIDType)));
    let mut decoder = BinaryDecoder::new(&vec![250, 25, 25, 25]);
    assert!(matches!(decoder.read_jid_pair(), Err(DecoderError::ErrInvalidJIDType)));
    let mut decoder = BinaryDecoder::new(&vec![1, 2, 0]);
    assert!(matches!(decoder.read_ad_jid(), Err(DecoderError::ErrInvalidJIDType)));
    let mut decoder = BinaryDecoder::new(&vec![255, 0x80]);
    assert!(matches!(decoder.read(true), Err(DecoderError::ErrInvalidToken)));
    let mut decoder = BinaryDecoder::new(&vec![255, 1, 0xC0]);
    assert!(matches!(decoder.read(true), Err(DecoderError::ErrInvalidToken)));
    let mut decoder = BinaryDecoder::new(&vec![255, 2, 0x12]);
    assert!(matches!(decoder.read(true), Err(DecoderError::ErrUnexpectedEnd)));
    let mut decoder = BinaryDecoder::new(&vec![236]);
    assert!(matches!(decoder.read(true), Err(DecoderError::ErrUnexpectedEnd)));
    let mut decoder = BinaryDecoder::new(&vec![239, 200]);
    assert!(matches!(decoder.read(true), Err(DecoderError::ErrInvalidToken)));
}

#[test]
fn decoder_error_messages() {
    assert_eq!(DecoderError::ErrInvalidType.to_string(), "unsupported payload type");
    assert_eq!(DecoderError::ErrInvalidJIDType.to_string(), "invalid JID type");
    assert_eq!(DecoderError::ErrInvalidNode.to_string(), "invalid node");
    assert_eq!(DecoderError::ErrInvalidToken.to_string(), "invalid token with tag");
    assert_eq!(DecoderError::ErrNonStringKey.to_string(), "non-string key");
    assert_eq!(DecoderError::ErrUnexpectedEnd.to_string(), "unexpected end of data");
    assert_eq!(DecoderError::ErrInvalidUtf8.to_string(), "invalid UTF-8 in string");
    assert_eq!(DecoderError::ErrDecompressFailed.to_string(), "failed to decompress data");
}

#[test]
fn attribute_that_comes_twice_keeps_the_last_value() {
    let back = decode(&vec![0, 248, 5, 25, 8, 41, 8, 4]).unwrap();
    assert_eq!(back.attrs.len(), 1);
    assert_eq!(string_attr(&back, "id"), "type");
}

#[test]
fn attribute_with_empty_value_is_left_out() {
    let bytes = written(|e| {
        let mut attrs = Attrs::new();
        attrs.insert("id".to_string(), text(""));
        attrs.insert("type".to_string(), text("get"));
        e.write_attributes(&attrs)
    });
    assert_eq!(bytes, vec![4, 41]);
}

#[test]
fn node_with_tag_zero_is_written_as_an_empty_list() {
    let n = node("0", vec![("id", text("xyz"))], NodeContentType::Absent);
    assert_eq!(encode(&n), vec![0, 248, 0]);
    assert!(matches!(decode(&encode(&n)), Err(DecoderError::ErrInvalidNode)));
}

#[test]
fn scalar_contents_are_read_back_as_their_text() {
    let cases: Vec<(NodeContentType, &str)> = vec![
        (NodeContentType::I32(-42), "-42"),
        (NodeContentType::U32(4_000_000_000), "4000000000"),
        (NodeContentType::I64(i64::MIN), "-9223372036854775808"),
        (NodeContentType::U64(u64::MAX), "18446744073709551615"),
        (NodeContentType::Bool(true), "true"),
        (NodeContentType::Bool(false), "false"),
        (NodeContentType::String("iq".to_string()), "iq"),
    ];
    for (content, expected) in cases {
        let back = decode(&encode(&node("message", vec![], content))).unwrap();
        match back.content {
            NodeContentType::String(s) => assert_eq!(s, expected),
            other => panic!("unexpected content {:?}", other),
        }
    }
}

#[test]
fn raw_string_content_is_read_back_as_bytes() {
    let n = node("message", vec![], NodeContentType::String("hello world".to_string()));
    let back = decode(&encode(&n)).unwrap();
    match back.content {
        NodeContentType::ByteArray(b) => assert_eq!(b, b"hello world".to_vec()),
        other => panic!("unexpected content {:?}", other),
    }
}

#[test]
fn identifier_content_is_read_back() {
    let n = node("message", vec![], NodeContentType::JID(JID::new("12345", "s.whatsapp.net")));
    let bytes = encode(&n);
    assert_eq!(bytes, vec![0, 248, 2, 19, 250, 255, 0x83, 0x12, 0x34, 0x5F, 3]);
    match decode(&bytes).unwrap().content {
        NodeContentType::JID(jid) => assert_eq!(jid, JID::new("12345", "s.whatsapp.net")),
        other => panic!("unexpected content {:?}", other),
    }
}

#[test]
fn empty_list_of_children_is_read_back_as_no_content() {
    let n = node("message", vec![], NodeContentType::ListOfNodes(vec![]));
    let bytes = encode(&n);
    assert_eq!(bytes, vec![0, 248, 2, 19, 0]);
    assert!(matches!(decode(&bytes).unwrap().content, NodeContentType::Absent));
}

#[test]
fn three_levels_with_three_hundred_children() {
    let mut children = Vec::new();
    for i in 0..300 {
        children.push(node(
            "item",
            vec![("id", text(&format!("n{}", i))), ("index", text(&format!("{}", i)))],
            NodeContentType::ByteArray(vec![(i % 256) as u8; i % 7]),
        ));
    }
    let middle = node("list", vec![("type", text("get"))], NodeContentType::ListOfNodes(children));
    let root = node("iq", vec![("to", AttributeTypes::JID(JID::new("", "s.whatsapp.net")))],
        NodeContentType::ListOfNodes(vec![middle]));
    let bytes = encode(&root);
    let back = decode(&bytes).unwrap();
    assert_eq!(back.tag, "iq");
    let middle = back.get_optional_child_by_tag(&["list"]).unwrap();
    assert_eq!(string_attr(&middle, "type"), "get");
    let children = middle.get_children().unwrap();
    assert_eq!(children.len(), 300);
    for (i, child) in children.iter().enumerate() {
        assert_eq!(child.tag, "item");
        assert_eq!(string_attr(child, "id"), format!("n{}", i));
        assert_eq!(string_attr(child, "index"), format!("{}", i));
        match &child.content {
            NodeContentType::ByteArray(b) => assert_eq!(b, &vec![(i % 256) as u8; i % 7]),
            other => panic!("unexpected content {:?}", other),
        }
    }
    // The list of 300 children starts with the two-byte size class.
    let mut encoder = BinaryEncoder::new();
    encoder.write(&root.get_children().unwrap()[0].content);
    assert_eq!(&encoder.get_data()[1..4], &[249, 1, 44]);
    assert_eq!(back.xml_string(), root.xml_string());
}

#[test]
fn what_is_written_is_read_back() {
    let inner = node("participant", vec![("jid", AttributeTypes::JID(JID::new_ad("4915", 3, 7)))],
        NodeContentType::ByteArray(vec![]));
    let n = node(
        "message",
        vec![
            ("id", text("3EB0-1.2")),
            ("from", AttributeTypes::JID(JID::new("49151234", "s.whatsapp.net"))),
            ("notify", text("J\u{fc}rgen")),
            ("t", text("1700000000")),
            ("", text("ABCDEF")),
        ],
        NodeContentType::ListOfNodes(vec![inner.clone(), inner]),
    );
    let bytes = encode(&n);
    let mut rest = bytes.clone();
    rest.extend_from_slice(&[1, 2, 3]);
    let data = unpack_data(&rest).unwrap();
    let mut decoder = BinaryDecoder::new(&data);
    let back = decoder.read_node().unwrap();
    assert_eq!(decoder.read_bytes(3), Ok(vec![1, 2, 3]));
    assert_eq!(back.xml_string(), n.xml_string());
    assert_eq!(encode(&back), bytes);
    assert_eq!(back.attrs.len(), 5);
    assert_eq!(string_attr(&back, "notify"), "J\u{fc}rgen");
    assert_eq!(string_attr(&back, ""), "ABCDEF");
}

#[test]
fn encodability_checks() {
    assert!(BinaryEncoder::can_write_string("anything"));
    assert!(BinaryEncoder::can_write_jid(&JID::new("a", "b")));
    assert!(BinaryEncoder::can_write(&NodeContentType::ByteArray(vec![1])));
    let mut attrs = Attrs::new();
    for i in 0..32768 {
        attrs.insert(format!("k{}", i), text("v"));
    }
    let wide = Node { tag: "iq".to_string(), attrs, content: NodeContentType::Absent };
    assert!(!BinaryEncoder::can_write_node(&wide));
    let zero = Node { tag: "0".to_string(), attrs: wide.attrs.clone(), content: NodeContentType::Absent };
    assert!(BinaryEncoder::can_write_node(&zero));
    assert!(marshal(&wide).is_none());
    let nested = node("iq", vec![], NodeContentType::ListOfNodes(vec![wide]));
    assert!(!BinaryEncoder::can_write_node(&nested));
    assert!(marshal(&nested).is_none());
    assert_eq!(unmarshal(&vec![]).unwrap_err(), DecoderError::ErrUnexpectedEnd);
    assert_eq!(unmarshal(&vec![2, 0]).unwrap_err(), DecoderError::ErrDecompressFailed);
}

#[test]
fn envelope() {
    assert_eq!(unpack_data(&vec![0, 1, 2, 3]), Ok(vec![1, 2, 3]));
    assert_eq!(unpack_data(&vec![0]), Ok(vec![]));
    assert_eq!(unpack_data(&vec![1, 9]), Ok(vec![9]));
    assert_eq!(unpack_data(&vec![]), Err(DecoderError::ErrUnexpectedEnd));
    assert_eq!(unpack_data(&vec![2, 1, 2, 3]), Err(DecoderError::ErrDecompressFailed));
}

#[test]
fn envelope_inflates_compressed_payloads() {
    let rest: Vec<u8> = vec![248, 1, 25, 0xFF, 0x00, 0x80];
    let mut encoder =
        flate2::write::ZlibEncoder::new(Vec::new(), flate2::Compression::default());
    std::io::Write::write_all(&mut encoder, &rest).unwrap();
    let compressed = encoder.finish().unwrap();
    assert_ne!(compressed, rest);
    let mut payload = vec![2u8];
    payload.extend_from_slice(&compressed);
    assert_eq!(unpack_data(&payload), Ok(rest.clone()));
    payload[0] = 0x0A;
    assert_eq!(unpack_data(&payload), Ok(rest));
}

#[test]
fn inflate_result_maps_failure() {
    assert_eq!(inflate_result(Some(vec![1])), Ok(vec![1]));
    assert_eq!(inflate_result(None), Err(DecoderError::ErrDecompressFailed));
}
