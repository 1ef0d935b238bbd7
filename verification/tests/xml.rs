use rhustapp::binary::attrs::{AttributeTypes, Attrs};
use rhustapp::binary::node::{Node, NodeContentType};
use rhustapp::binary::xml::{all_alphanumeric, lines, printable, printable_when};
use rhustapp::types::jid::JID;

fn node(tag: &str, attrs: Vec<(&str, &str)>, content: NodeContentType) -> Node {
    let mut map = Attrs::new();
    for (key, value) in attrs {
        map.insert(key.to_string(), AttributeTypes::String(value.to_string()));
    }
    Node { tag: tag.to_string(), attrs: map, content }
}

#[test]
fn element_without_content() {
    let n = node("iq", vec![("type", "get"), ("id", "abc")], NodeContentType::Absent);
    assert_eq!(n.attribute_string(), "id=\"abc\" type=\"get\"");
    assert_eq!(n.content_string(), Vec::<String>::new());
    assert_eq!(n.xml_string(), "<iq id=\"abc\" type=\"get\" />");
    assert_eq!(node("iq", vec![], NodeContentType::Absent).xml_string(), "<iq  />");
    assert_eq!(node("iq", vec![], NodeContentType::Absent).attribute_string(), "");
}

#[test]
fn attributes_in_the_order_of_their_keys() {
    let n = node(
        "x",
        vec![("b", "2"), ("a!", "4"), ("a", "1"), ("ab", "3"), ("", "0"), ("B", "5"), ("\u{e9}", "6")],
        NodeContentType::Absent,
    );
    assert_eq!(
        n.attribute_string(),
        "=\"0\" B=\"5\" a=\"1\" a!=\"4\" ab=\"3\" b=\"2\" \u{e9}=\"6\""
    );
}

#[test]
fn identifier_attribute() {
    let mut attrs = Attrs::new();
    attrs.insert("to".to_string(), AttributeTypes::JID(JID::new_ad("555", 0, 1)));
    let n = Node {
        tag: "message".to_string(),
        attrs,
        content: NodeContentType::ByteArray(vec![0xDE, 0xAD, 0xBE, 0xEF]),
    };
    assert_eq!(n.xml_string(), "<message to=\"555.0:1@s.whatsapp.net\">deadbeef</message>");
}

#[test]
fn bytes_as_text_or_hexadecimal() {
    assert_eq!(printable(&b"hello1".to_vec()), "hello1");
    assert_eq!(printable(&"J\u{fc}rgen".as_bytes().to_vec()), "J\u{fc}rgen");
    assert_eq!(printable(&b"hello world".to_vec()), "");
    assert_eq!(printable(&vec![0xFF, 0x41]), "");
    assert_eq!(printable(&vec![]), "");
    assert!(all_alphanumeric("abc\u{e9}9"));
    assert!(all_alphanumeric(""));
    assert!(!all_alphanumeric("a b"));
    assert_eq!(printable_when(Some("ab".to_string()), true), "ab");
    assert_eq!(printable_when(Some("ab".to_string()), false), "");
    assert_eq!(printable_when(None, true), "");
    let n = node("m", vec![], NodeContentType::ByteArray(b"abc123".to_vec()));
    assert_eq!(n.content_string(), vec!["abc123".to_string()]);
    let n = node("m", vec![], NodeContentType::ByteArray(vec![0x00, 0x0F, 0xA0, 0xFF]));
    assert_eq!(n.content_string(), vec!["000fa0ff".to_string()]);
    assert_eq!(n.xml_string(), "<m >000fa0ff</m>");
    let n = node("m", vec![], NodeContentType::ByteArray(vec![]));
    assert_eq!(n.content_string(), vec!["".to_string()]);
    assert_eq!(n.xml_string(), "<m ></m>");
}

#[test]
fn scalar_contents() {
    let n = node("m", vec![], NodeContentType::String("a\nb\n".to_string()));
    assert_eq!(n.content_string(), vec!["a\\nb\\n".to_string()]);
    assert_eq!(n.xml_string(), "<m >a\\nb\\n</m>");
    assert_eq!(node("m", vec![], NodeContentType::I32(-5)).xml_string(), "<m >-5</m>");
    assert_eq!(node("m", vec![], NodeContentType::U64(u64::MAX)).xml_string(),
        "<m >18446744073709551615</m>");
    assert_eq!(node("m", vec![], NodeContentType::Bool(false)).xml_string(), "<m >false</m>");
    assert_eq!(
        node("m", vec![], NodeContentType::JID(JID::new("1", "g.us"))).xml_string(),
        "<m >1@g.us</m>"
    );
    assert_eq!(NodeContentType::Absent.other_types_to_string(), "");
    assert_eq!(NodeContentType::ByteArray(vec![65]).other_types_to_string(), "");
    assert_eq!(NodeContentType::ListOfNodes(vec![]).other_types_to_string(), "");
    assert_eq!(NodeContentType::I64(i64::MIN).other_types_to_string(), "-9223372036854775808");
    assert_eq!(NodeContentType::U32(7).other_types_to_string(), "7");
    assert_eq!(NodeContentType::Bool(true).other_types_to_string(), "true");
}

#[test]
fn children() {
    let a = node("a", vec![("k", "v")], NodeContentType::Absent);
    let b = node("b", vec![("k", "line\nbreak")], NodeContentType::I32(1));
    let n = node("list", vec![], NodeContentType::ListOfNodes(vec![a, b]));
    assert_eq!(
        n.content_string(),
        vec!["<a k=\"v\" />".to_string(), "<b k=\"line".to_string(), "break\">1</b>".to_string()]
    );
    assert_eq!(n.xml_string(), "<list ><a k=\"v\" /><b k=\"linebreak\">1</b></list>");
    let empty = node("list", vec![], NodeContentType::ListOfNodes(vec![]));
    assert_eq!(empty.xml_string(), "<list  />");
}

#[test]
fn lines_of_a_text() {
    assert_eq!(lines(""), vec!["".to_string()]);
    assert_eq!(lines("abc"), vec!["abc".to_string()]);
    assert_eq!(lines("a\nb"), vec!["a".to_string(), "b".to_string()]);
    assert_eq!(lines("\na\n\n"), vec!["", "a", "", ""]);
    assert_eq!(lines("\u{e9}\n\u{fc}"), vec!["\u{e9}", "\u{fc}"]);
}

#[test]
fn child_lookup() {
    let leaf = node("leaf", vec![("n", "1")], NodeContentType::Absent);
    let other = node("leaf", vec![("n", "2")], NodeContentType::Absent);
    let branch = node("branch", vec![], NodeContentType::ListOfNodes(vec![leaf, other]));
    let twig = node("twig", vec![], NodeContentType::ByteArray(vec![1]));
    let root = node("root", vec![], NodeContentType::ListOfNodes(vec![twig, branch]));

    assert_eq!(root.get_children().unwrap().len(), 2);
    assert!(node("x", vec![], NodeContentType::Absent).get_children().is_none());
    assert!(node("x", vec![], NodeContentType::ByteArray(vec![])).get_children().is_none());

    let leaves = root.get_optional_child_by_tag(&["branch"]).unwrap().get_children_by_tag("leaf");
    let leaves = leaves.unwrap();
    assert_eq!(leaves.len(), 2);
    assert_eq!(leaves[0].attrs.get("n").unwrap().to_string(), "1");
    assert_eq!(leaves[1].attrs.get("n").unwrap().to_string(), "2");
    assert_eq!(root.get_children_by_tag("leaf").unwrap().len(), 0);
    assert_eq!(root.get_children_by_tag("twig").unwrap().len(), 1);
    assert!(node("x", vec![], NodeContentType::Absent).get_children_by_tag("x").is_none());

    assert_eq!(root.get_optional_child_by_tag(&[]).unwrap().tag, "root");
    let first = root.get_optional_child_by_tag(&["branch", "leaf"]).unwrap();
    assert_eq!(first.attrs.get("n").unwrap().to_string(), "1");
    assert!(root.get_optional_child_by_tag(&["leaf"]).is_none());
    assert!(root.get_optional_child_by_tag(&["twig", "leaf"]).is_none());
    assert!(root.get_optional_child_by_tag(&["branch", "leaf", "deeper"]).is_none());
}

#[test]
fn defaults_and_copies() {
    let n = Node::default();
    assert_eq!(n.tag, "");
    assert_eq!(n.attrs.len(), 0);
    assert!(matches!(n.content, NodeContentType::Absent));
    assert!(matches!(NodeContentType::default(), NodeContentType::Absent));
    let tree = node("a", vec![("k", "v")], NodeContentType::ListOfNodes(vec![
        node("b", vec![], NodeContentType::ByteArray(vec![1, 2])),
    ]));
    assert_eq!(tree.clone().xml_string(), tree.xml_string());
    assert_eq!(tree.xml_string(), "<a k=\"v\"><b >0102</b></a>");
}
