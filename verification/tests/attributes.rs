use rhustapp::binary::attr_utility::{unix_time_from, UnixTime};
use rhustapp::binary::attrs::{AttributeTypes, Attrs};
use rhustapp::binary::node::{Node, NodeContentType};
use rhustapp::types::jid::JID;

fn sample() -> Node {
    let mut attrs = Attrs::new();
    attrs.insert("name".to_string(), AttributeTypes::String("value".to_string()));
    attrs.insert("from".to_string(), AttributeTypes::JID(JID::new("1", "g.us")));
    attrs.insert("count".to_string(), AttributeTypes::String("-12".to_string()));
    attrs.insert("big".to_string(), AttributeTypes::String("4294967301".to_string()));
    attrs.insert("flag".to_string(), AttributeTypes::String("TRUE".to_string()));
    attrs.insert("t".to_string(), AttributeTypes::String("1546300800".to_string()));
    attrs.insert("zero".to_string(), AttributeTypes::String("0".to_string()));
    attrs.insert("far".to_string(), AttributeTypes::String("9223372036854775807".to_string()));
    Node { tag: "iq".to_string(), attrs, content: NodeContentType::Absent }
}

#[test]
fn attribute_mapping() {
    let mut attrs = Attrs::new();
    assert!(attrs.is_empty());
    assert_eq!(attrs.len(), 0);
    attrs.insert("a".to_string(), AttributeTypes::String("1".to_string()));
    attrs.insert("b".to_string(), AttributeTypes::String("2".to_string()));
    attrs.insert("a".to_string(), AttributeTypes::String("3".to_string()));
    assert_eq!(attrs.len(), 2);
    assert!(!attrs.is_empty());
    assert!(attrs.contains_key("a"));
    assert!(!attrs.contains_key("c"));
    assert_eq!(attrs.key_at(0), "a");
    assert_eq!(attrs.key_at(1), "b");
    assert_eq!(attrs.value_at(0).to_string(), "3");
    assert_eq!(attrs.get("b").unwrap().to_string(), "2");
    assert!(attrs.get("c").is_none());
    let copy = attrs.clone();
    assert_eq!(copy.len(), 2);
    assert_eq!(copy.get("a").unwrap().to_string(), "3");
    assert_eq!(Attrs::default().len(), 0);
    assert_eq!(AttributeTypes::JID(JID::new("1", "g.us")).to_string(), "1@g.us");
}

#[test]
fn missing_attribute_without_and_with_error() {
    let node = sample();
    let mut getter = node.attr_getter();
    assert!(getter.ok());
    assert_eq!(getter.optional_string("missing"), None);
    assert_eq!(getter.optional_jid("missing"), None);
    assert_eq!(getter.optional_jid_or_empty("missing"), JID::new("", ""));
    assert_eq!(getter.optional_bool("missing"), None);
    assert_eq!(getter.optional_i32("missing"), None);
    assert_eq!(getter.optional_unix_time("missing"), None);
    assert!(getter.ok());
    assert_eq!(getter.errors.len(), 0);
    assert!(getter.error().is_none());

    assert_eq!(getter.string("missing"), None);
    assert_eq!(getter.errors.len(), 1);
    assert_eq!(getter.errors[0].description, "didn't find required String attribute 'missing'");
    assert_eq!(getter.errors[0].error, None);
    assert_eq!(getter.jid("missing"), None);
    assert_eq!(getter.errors.len(), 2);
    assert_eq!(getter.errors[1].description, "didn't find required JID attribute 'missing'");
    assert_eq!(getter.i64("missing"), None);
    assert_eq!(getter.errors.len(), 3);
    assert_eq!(getter.u64("missing"), None);
    assert_eq!(getter.errors.len(), 4);
    assert_eq!(getter.bool("missing"), None);
    assert_eq!(getter.errors.len(), 5);
    assert_eq!(getter.unix_time("missing"), None);
    assert_eq!(getter.errors.len(), 6);
    assert_eq!(getter.i32("missing"), None);
    assert_eq!(getter.errors.len(), 7);
    assert!(!getter.ok());
    for error in &getter.errors[2..] {
        assert_eq!(error.description, "didn't find required String attribute 'missing'");
    }
}

#[test]
fn values_that_are_there() {
    let node = sample();
    let mut getter = node.attr_getter();
    assert_eq!(getter.string("name"), Some("value".to_string()));
    assert_eq!(getter.optional_string("name"), Some("value".to_string()));
    assert_eq!(getter.jid("from"), Some(JID::new("1", "g.us")));
    assert_eq!(getter.optional_jid("from"), Some(JID::new("1", "g.us")));
    assert_eq!(getter.optional_jid_or_empty("from"), JID::new("1", "g.us"));
    assert_eq!(getter.i64("count"), Some(-12));
    assert_eq!(getter.i32("count"), Some(-12));
    assert_eq!(getter.optional_i32("count"), Some(-12));
    assert_eq!(getter.i64("big"), Some(4294967301));
    assert_eq!(getter.u64("big"), Some(4294967301));
    assert_eq!(getter.i32("big"), Some(5));
    assert_eq!(getter.bool("flag"), Some(true));
    assert_eq!(getter.optional_bool("flag"), Some(true));
    assert_eq!(getter.unix_time("t"), Some(UnixTime { seconds: 1546300800 }));
    assert_eq!(getter.optional_unix_time("zero"), Some(UnixTime { seconds: 0 }));
    assert!(getter.ok());
    assert!(getter.error().is_none());
}

#[test]
fn instant_that_cannot_be_held() {
    let node = sample();
    let mut getter = node.attr_getter();
    assert_eq!(getter.unix_time("far"), None);
    assert_eq!(getter.optional_unix_time("far"), None);
    assert!(getter.ok());
    assert_eq!(unix_time_from(5, true), Some(UnixTime { seconds: 5 }));
    assert_eq!(unix_time_from(5, false), None);
    assert_eq!(unix_time_from(0, false), Some(UnixTime { seconds: 0 }));
}

#[test]
fn values_of_the_wrong_kind() {
    let node = sample();
    let mut getter = node.attr_getter();
    assert_eq!(getter.optional_jid("name"), None);
    assert_eq!(getter.optional_string("from"), None);
    assert_eq!(getter.optional_bool("name"), None);
    assert_eq!(getter.optional_i32("name"), None);
    assert!(getter.ok());
    assert_eq!(getter.jid("name"), None);
    assert_eq!(getter.string("from"), None);
    assert_eq!(getter.i64("name"), None);
    assert_eq!(getter.u64("count"), None);
    assert_eq!(getter.bool("name"), None);
    assert_eq!(getter.i64("from"), None);
    let descriptions: Vec<&str> = getter.errors.iter().map(|e| e.description.as_str()).collect();
    assert_eq!(
        descriptions,
        vec![
            "expected attribute 'name' to be JID, but was String",
            "expected attribute 'from' to be String, but was JID",
            "failed to parse i64 in attribute 'name'",
            "failed to parse u64 in attribute 'count'",
            "failed to parse bool in attribute 'name'",
            "expected attribute 'from' to be String, but was JID",
        ]
    );
    assert_eq!(getter.errors[2].error, Some("invalid digit found in string".to_string()));
    assert_eq!(getter.errors[3].error, Some("invalid digit found in string".to_string()));
    assert_eq!(getter.errors[4].error, None);
    assert_eq!(getter.errors[0].location, "AttrUtility::get_jid");
}

#[test]
fn truth_values() {
    for (text, expected) in [
        ("1", Some(true)), ("t", Some(true)), ("T", Some(true)), ("true", Some(true)),
        ("TRUE", Some(true)), ("True", Some(true)), ("0", Some(false)), ("f", Some(false)),
        ("F", Some(false)), ("false", Some(false)), ("FALSE", Some(false)),
        ("False", Some(false)), ("yes", None), ("tRUE", None), ("", None), ("2", None),
    ] {
        let mut attrs = Attrs::new();
        attrs.insert("b".to_string(), AttributeTypes::String(text.to_string()));
        let node = Node { tag: "iq".to_string(), attrs, content: NodeContentType::Absent };
        let mut getter = node.attr_getter();
        assert_eq!(getter.bool("b"), expected, "for {:?}", text);
        assert_eq!(getter.ok(), expected.is_some());
    }
}

#[test]
fn errors_reported_together() {
    let node = sample();
    let mut getter = node.attr_getter();
    getter.string("a");
    let one = getter.error().unwrap();
    assert_eq!(one.description, "error(s) occured while fetching attributes");
    assert_eq!(one.error, Some(format!("[ {} ]", getter.errors[0].to_string())));
    getter.jid("b");
    let both = getter.error().unwrap();
    assert_eq!(
        both.error,
        Some(format!("[ {}, {} ]", getter.errors[0].to_string(), getter.errors[1].to_string()))
    );
    assert_eq!(both.location, "AttrUtility::error");
}
