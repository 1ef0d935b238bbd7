//! The wire grammar of writing, as mathematics: the bytes that an element
//! is written as. The encoder is held to these functions by its contracts.

use crate::binary::attrs::{AttrEntryView, AttrView};
use crate::binary::node::{ContentView, NodeView, scalar_text};
use crate::binary::token::{
    ADJID, BINARY20, BINARY32, BINARY8, DICTIONARY0, double_index, HEX8, JID_PAIR, LIST16, LIST8,
    LIST_EMPTY, NIBBLE8, PACKED_MAX, single_index,
};
use crate::types::jid::JidView;
use vstd::prelude::*;
use vstd::utf8::*;

verus! {

/// 256 to the power `k`, for `k` up to 3.
pub open spec fn pow256(k: int) -> int {
    if k <= 0 {
        1
    } else if k == 1 {
        256
    } else if k == 2 {
        65536
    } else {
        16777216
    }
}

/// Byte `k` of a number in two's complement, byte 0 being the lowest.
pub open spec fn int_byte(value: int, k: int) -> u8 {
    ((value / pow256(k)) % 256) as u8
}

/// The `n` lowest bytes of a number, in the order given.
pub open spec fn int_bytes(value: int, n: int, little_endian: bool) -> Seq<u8> {
    Seq::new(
        n as nat,
        |i: int|
            int_byte(
                value,
                if little_endian {
                    i
                } else {
                    n - 1 - i
                },
            ),
    )
}

/// The three bytes of a twenty-bit number: its top four bits, then the
/// other sixteen, highest first.
pub open spec fn int20_bytes(value: int) -> Seq<u8> {
    seq![((value / 65536) % 16) as u8, int_byte(value, 1), int_byte(value, 0)]
}

/// The start of a list of `size` items.
pub open spec fn list_start(size: int) -> Seq<u8> {
    if size == 0 {
        seq![LIST_EMPTY]
    } else if size < 256 {
        seq![LIST8, size as u8]
    } else {
        seq![LIST16, (size / 256) as u8, (size % 256) as u8]
    }
}

/// The length prefix of a block of `length` bytes, in the smallest of the
/// three size classes that holds it.
pub open spec fn byte_length(length: int) -> Seq<u8> {
    if length < 256 {
        seq![BINARY8, length as u8]
    } else if length < 0x10_0000 {
        seq![BINARY20, (length / 65536) as u8, ((length / 256) % 256) as u8, (length % 256) as u8]
    } else {
        seq![
            BINARY32,
            (length / 16777216) as u8,
            ((length / 65536) % 256) as u8,
            ((length / 256) % 256) as u8,
            (length % 256) as u8,
        ]
    }
}

/// The largest block length that has a size class.
pub open spec fn max_block_length() -> int {
    0x7FFF_FFFF
}

/// Whether a character is of the alphabet of digits, `-` and `.`.
pub open spec fn is_nibble_char(c: char) -> bool {
    ('0' <= c <= '9') || c == '-' || c == '.'
}

/// Whether a character is a hexadecimal digit.
pub open spec fn is_hex_char(c: char) -> bool {
    ('0' <= c <= '9') || ('A' <= c <= 'F') || ('a' <= c <= 'f')
}

/// Whether a string is packed over the alphabet of digits, `-` and `.`.
pub open spec fn is_nibble_text(s: Seq<char>) -> bool {
    s.len() <= PACKED_MAX && forall|i: int| 0 <= i < s.len() ==> is_nibble_char(#[trigger] s[i])
}

/// Whether a string is packed over the hexadecimal alphabet.
pub open spec fn is_hex_text(s: Seq<char>) -> bool {
    s.len() <= PACKED_MAX && forall|i: int| 0 <= i < s.len() ==> is_hex_char(#[trigger] s[i])
}

/// Whether a byte is a symbol that `NIBBLE8` packs: a character of its
/// alphabet, or the padding 0.
pub open spec fn is_nibble_symbol(symbol: u8) -> bool {
    (48 <= symbol <= 57) || symbol == 45 || symbol == 46 || symbol == 0
}

/// Whether a byte is a symbol that `HEX8` packs: a hexadecimal digit, or
/// the padding 0.
pub open spec fn is_hex_symbol(symbol: u8) -> bool {
    (48 <= symbol <= 57) || (65 <= symbol <= 70) || (97 <= symbol <= 102) || symbol == 0
}

/// The four bits of a symbol under `NIBBLE8`.
pub open spec fn nibble_code(symbol: u8) -> u8 {
    if symbol == 45 {
        10
    } else if symbol == 46 {
        11
    } else if symbol == 0 {
        15
    } else {
        (symbol - 48) as u8
    }
}

/// The four bits of a symbol under `HEX8`.
pub open spec fn hex_code(symbol: u8) -> u8 {
    if 48 <= symbol <= 57 {
        (symbol - 48) as u8
    } else if 65 <= symbol <= 70 {
        (10 + symbol - 65) as u8
    } else if 97 <= symbol <= 102 {
        (10 + symbol - 97) as u8
    } else {
        15
    }
}

/// Whether `tag` is one of the two tags of packed strings.
pub open spec fn is_packed_tag(tag: u8) -> bool {
    tag == NIBBLE8 || tag == HEX8
}

/// Whether a byte is a symbol that the packed form `tag` packs.
pub open spec fn is_packed_symbol(tag: u8, symbol: u8) -> bool {
    if tag == NIBBLE8 {
        is_nibble_symbol(symbol)
    } else {
        tag == HEX8 && is_hex_symbol(symbol)
    }
}

/// Whether a string can be packed in the form `tag`: it is short enough and
/// made of symbols of that form.
pub open spec fn packable(tag: u8, s: Seq<char>) -> bool {
    &&& is_packed_tag(tag)
    &&& s.len() <= PACKED_MAX
    &&& forall|i: int|
        0 <= i < s.len() ==> (#[trigger] s[i]) as u32 <= 127 && is_packed_symbol(tag, s[i] as u8)
}

/// The four bits of a symbol under the packed form `tag`.
pub open spec fn packed_code(tag: u8, symbol: u8) -> u8 {
    if tag == NIBBLE8 {
        nibble_code(symbol)
    } else {
        hex_code(symbol)
    }
}

/// Two symbols in one byte, the first in the high half.
pub open spec fn packed_pair(tag: u8, first: u8, second: u8) -> u8 {
    (packed_code(tag, first) * 16 + packed_code(tag, second)) as u8
}

/// The symbol at position `i` of a string, or the padding past its end.
pub open spec fn symbol_at(s: Seq<char>, i: int) -> u8 {
    if 0 <= i < s.len() {
        s[i] as u8
    } else {
        0
    }
}

/// The length byte of a packed string: the number of payload bytes, with
/// the top bit set where the string has an odd number of characters.
pub open spec fn packed_length_byte(length: int) -> u8 {
    if length % 2 == 0 {
        (length / 2) as u8
    } else {
        ((length + 1) / 2 + 128) as u8
    }
}

/// The payload of a packed string: its characters two by two.
pub open spec fn packed_payload(tag: u8, s: Seq<char>) -> Seq<u8> {
    Seq::new(
        ((s.len() + 1) / 2) as nat,
        |i: int| packed_pair(tag, symbol_at(s, 2 * i), symbol_at(s, 2 * i + 1)),
    )
}

/// A string in the packed form `tag`.
pub open spec fn packed_text(tag: u8, s: Seq<char>) -> Seq<u8> {
    seq![tag, packed_length_byte(s.len() as int)] + packed_payload(tag, s)
}

/// A string in its raw form: the length prefix, then its UTF-8 bytes.
pub open spec fn raw_text(s: Seq<char>) -> Seq<u8> {
    byte_length(encode_utf8(s).len() as int) + encode_utf8(s)
}

/// The form in which a string is written.
pub enum TextForm {
    /// One byte of the primary dictionary.
    Single(u8),
    /// A dictionary tag and a byte of that secondary dictionary.
    Double(u8, u8),
    /// Packed over digits, `-` and `.`.
    Nibble,
    /// Packed over hexadecimal digits.
    Hex,
    /// Length prefix and UTF-8 bytes.
    Raw,
}

/// The form in which `s` is written: the first that applies, in the order
/// of the variants of `TextForm`.
pub open spec fn text_form(s: Seq<char>) -> TextForm {
    match single_index(s) {
        Some(index) => TextForm::Single(index),
        None => match double_index(s) {
            Some((dictionary, index)) => TextForm::Double(dictionary, index),
            None => if is_nibble_text(s) {
                TextForm::Nibble
            } else if is_hex_text(s) {
                TextForm::Hex
            } else {
                TextForm::Raw
            },
        },
    }
}

/// The bytes of a string.
pub open spec fn encode_text(s: Seq<char>) -> Seq<u8> {
    match text_form(s) {
        TextForm::Single(index) => seq![index],
        TextForm::Double(dictionary, index) => seq![(DICTIONARY0 + dictionary) as u8, index],
        TextForm::Nibble => packed_text(NIBBLE8, s),
        TextForm::Hex => packed_text(HEX8, s),
        TextForm::Raw => raw_text(s),
    }
}

/// Whether a string can be written: every form but the raw one always can,
/// and the raw one needs a length that has a size class.
pub open spec fn text_encodable(s: Seq<char>) -> bool {
    text_form(s) is Raw ==> encode_utf8(s).len() <= max_block_length()
}

/// The bytes of an identifier: with agent and device, the tag, the two
/// bytes and the user; else the tag, the user (an empty list where there
/// is none) and the server.
pub open spec fn encode_jid(jid: JidView) -> Seq<u8> {
    if jid.is_ad() {
        seq![ADJID, jid.agent->0, jid.device->0] + encode_text(jid.user)
    } else {
        seq![JID_PAIR] + (if jid.user.len() == 0 {
            seq![LIST_EMPTY]
        } else {
            encode_text(jid.user)
        }) + encode_text(jid.server)
    }
}

/// Whether an identifier can be written.
pub open spec fn jid_encodable(jid: JidView) -> bool {
    text_encodable(jid.user) && (!jid.is_ad() ==> text_encodable(jid.server))
}

/// The bytes of an attribute value.
pub open spec fn encode_attr_value(value: AttrView) -> Seq<u8> {
    match value {
        AttrView::Jid(jid) => encode_jid(jid),
        AttrView::Text(text) => encode_text(text),
    }
}

/// Whether an attribute value is the empty string.
pub open spec fn is_empty_text(value: AttrView) -> bool {
    match value {
        AttrView::Jid(_) => false,
        AttrView::Text(text) => text.len() == 0,
    }
}

/// The bytes of one attribute: its key and its value. An attribute whose
/// value is the empty string is not written.
pub open spec fn encode_attr(entry: AttrEntryView) -> Seq<u8> {
    if is_empty_text(entry.1) {
        Seq::empty()
    } else {
        encode_text(entry.0) + encode_attr_value(entry.1)
    }
}

/// Whether one attribute can be written.
pub open spec fn attr_encodable(entry: AttrEntryView) -> bool {
    !is_empty_text(entry.1) ==> text_encodable(entry.0) && match entry.1 {
        AttrView::Jid(jid) => jid_encodable(jid),
        AttrView::Text(text) => text_encodable(text),
    }
}

/// The bytes of the first `k` attributes, in order.
pub open spec fn encode_attrs(attrs: Seq<AttrEntryView>, k: int) -> Seq<u8>
    decreases k,
{
    if k <= 0 || k > attrs.len() {
        Seq::empty()
    } else {
        encode_attrs(attrs, k - 1) + encode_attr(attrs[k - 1])
    }
}

/// Whether every attribute can be written.
pub open spec fn attrs_encodable(attrs: Seq<AttrEntryView>) -> bool {
    forall|i: int| 0 <= i < attrs.len() ==> attr_encodable(#[trigger] attrs[i])
}

/// The number of items in the list that an element is written as: the tag,
/// key and value of each attribute, and the content where there is one.
/// Every attribute counts, also one that is not written because its value
/// is the empty string.
pub open spec fn node_list_size(node: NodeView) -> int {
    2 * node.attrs.len() + 1 + (if node.content is Absent {
        0int
    } else {
        1int
    })
}

/// The bytes of a content.
pub open spec fn encode_content(content: ContentView) -> Seq<u8>
    decreases content, 0int,
{
    match content {
        ContentView::Absent => seq![LIST_EMPTY],
        ContentView::List(nodes) => list_start(nodes.len() as int) + encode_nodes(
            nodes,
            nodes.len() as int,
        ),
        ContentView::Bytes(bytes) => byte_length(bytes.len() as int) + bytes,
        ContentView::Jid(jid) => encode_jid(jid),
        _ => encode_text(scalar_text(content)),
    }
}

/// The bytes of an element: the start of its list, the tag, the attributes
/// and, where there is one, the content. The element with tag `0` is
/// written as a list of size 0.
pub open spec fn encode_node(node: NodeView) -> Seq<u8>
    decreases node, 0int,
{
    if node.tag == "0"@ {
        seq![LIST8, LIST_EMPTY]
    } else {
        list_start(node_list_size(node)) + encode_text(node.tag) + encode_attrs(
            node.attrs,
            node.attrs.len() as int,
        ) + (if node.content is Absent {
            Seq::empty()
        } else {
            encode_content(node.content)
        })
    }
}

/// The bytes of the first `k` elements of a list, in order.
pub open spec fn encode_nodes(nodes: Seq<NodeView>, k: int) -> Seq<u8>
    decreases nodes, k,
{
    if k <= 0 || k > nodes.len() {
        Seq::empty()
    } else {
        encode_nodes(nodes, k - 1) + encode_node(nodes[k - 1])
    }
}

/// Whether a content can be written: every length has a size class and
/// every list a size of at most 65535.
pub open spec fn content_encodable(content: ContentView) -> bool
    decreases content, 0int,
{
    match content {
        ContentView::Absent => true,
        ContentView::List(nodes) => nodes.len() <= 65535 && nodes_encodable(
            nodes,
            nodes.len() as int,
        ),
        ContentView::Bytes(bytes) => bytes.len() <= max_block_length(),
        ContentView::Jid(jid) => jid_encodable(jid),
        ContentView::Text(text) => text_encodable(text),
        _ => true,
    }
}

/// Whether an element can be written.
pub open spec fn node_encodable(node: NodeView) -> bool
    decreases node, 0int,
{
    node.tag != "0"@ ==> {
        &&& node_list_size(node) <= 65535
        &&& text_encodable(node.tag)
        &&& attrs_encodable(node.attrs)
        &&& content_encodable(node.content)
    }
}

/// Whether the first `k` elements of a list can be written.
pub open spec fn nodes_encodable(nodes: Seq<NodeView>, k: int) -> bool
    decreases nodes, k,
{
    if k <= 0 || k > nodes.len() {
        true
    } else {
        nodes_encodable(nodes, k - 1) && node_encodable(nodes[k - 1])
    }
}

} // verus!
