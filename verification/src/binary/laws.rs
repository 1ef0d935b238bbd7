//! What holds of encoder and decoder together: what is written is read back.

use crate::binary::attrs::{
    AttrEntryView, attrs_insert, AttrView, key_position, lemma_key_position, unique_keys,
};
use crate::binary::encoder::{lemma_bool_encodable, lemma_scalar_encodable};
use crate::binary::errors::DecoderError;
use crate::binary::node::{ContentView, NodeView, scalar_text};
use crate::binary::reading::{
    available, left, lemma_parse_ad_jid, lemma_parse_attrs, lemma_parse_jid_pair, lemma_parse_list,
    lemma_parse_node, lemma_parse_nodes, lemma_parse_packed_symbols, lemma_parse_value,
    parse_ad_jid, parse_attrs, parse_block, parse_jid_pair, parse_list, parse_node, parse_nodes,
    parse_packed, parse_packed_symbols, parse_value, Parsed, taken_of, uint_at, unpack_byte_spec,
};
use crate::binary::token::{
    ADJID, BINARY20, BINARY32, BINARY8, DICTIONARY0, double_index, HEX8, is_single_token_byte,
    JID_PAIR, lemma_double_index, lemma_single_index, lemma_single_token_has_index, LIST16, LIST8,
    LIST_EMPTY, NIBBLE8, PACKED_MAX, SINGLE_BYTE_TOKENS, single_index, single_token,
};
use crate::binary::wire::{
    byte_length, encode_attr, encode_attr_value, encode_attrs, encode_content, encode_jid,
    encode_node, encode_nodes, encode_text, is_hex_char, is_hex_text, is_nibble_char,
    is_nibble_text, list_start, max_block_length, node_list_size, packed_code, packed_length_byte,
    packed_pair, packed_payload, packed_text, raw_text, symbol_at, text_encodable, text_form,
    TextForm,
};
use crate::text::ascii_text;
use crate::types::jid::JidView;
use vstd::prelude::*;
use vstd::utf8::*;

verus! {

/// Whether `bytes` stand in `data` from `pos` on.
pub open spec fn stands_at(data: Seq<u8>, pos: int, bytes: Seq<u8>) -> bool {
    &&& 0 <= pos
    &&& pos + bytes.len() <= data.len()
    &&& forall|i: int| 0 <= i < bytes.len() ==> data[pos + i] == #[trigger] bytes[i]
}

/// Two runs of bytes stand one after the other exactly when their
/// concatenation stands.
pub proof fn lemma_stands_at_concat(data: Seq<u8>, pos: int, first: Seq<u8>, second: Seq<u8>)
    ensures
        stands_at(data, pos, first + second) == (stands_at(data, pos, first) && stands_at(
            data,
            pos + first.len(),
            second,
        )),
{
    let both = first + second;
    if stands_at(data, pos, both) {
        assert forall|i: int| 0 <= i < first.len() implies data[pos + i] == #[trigger] first[i] by {
            assert(both[i] == first[i]);
        }
        assert forall|i: int| 0 <= i < second.len() implies data[pos + first.len() + i]
            == #[trigger] second[i] by {
            assert(both[first.len() + i] == second[i]);
        }
    }
    if stands_at(data, pos, first) && stands_at(data, pos + first.len(), second) {
        assert forall|i: int| 0 <= i < both.len() implies data[pos + i] == #[trigger] both[i] by {
            if i < first.len() {
                assert(both[i] == first[i]);
            } else {
                assert(both[i] == second[i - first.len()]);
            }
        }
    }
}

/// Whether a string is read back as it was written: it can be written, and
/// it is not packed over the hexadecimal alphabet while it holds a small
/// letter, which the decoder gives back as a capital.
pub open spec fn text_round_trips(s: Seq<char>) -> bool {
    &&& text_encodable(s)
    &&& text_form(s) is Hex ==> forall|i: int| 0 <= i < s.len() ==> !('a' <= #[trigger] s[i] <= 'f')
}

/// As what a string is read back where content is read: as bytes where it
/// was written raw, as a string in every other form.
pub open spec fn decoded_text(s: Seq<char>) -> ContentView {
    if text_form(s) is Raw {
        ContentView::Bytes(encode_utf8(s))
    } else {
        ContentView::Text(s)
    }
}

/// A string written as a token of the primary dictionary is read back.
proof fn lemma_read_single(data: Seq<u8>, pos: int, s: Seq<char>, as_text: bool)
    requires
        text_form(s) is Single,
        stands_at(data, pos, encode_text(s)),
    ensures
        parse_value(data, pos, as_text) == Ok::<(ContentView, nat), DecoderError>(
            (ContentView::Text(s), 1nat),
        ),
{
    lemma_single_index(s);
    lemma_parse_value(data, pos, as_text);
    let index = single_index(s)->0;
    assert(encode_text(s) == seq![index]);
    assert(encode_text(s)[0] == index);
    assert(data[pos + 0] == index);
    assert(SINGLE_BYTE_TOKENS@.len() == 236);
}

/// A string written as a token of a secondary dictionary is read back.
proof fn lemma_read_double(data: Seq<u8>, pos: int, s: Seq<char>, as_text: bool)
    requires
        text_form(s) is Double,
        stands_at(data, pos, encode_text(s)),
    ensures
        parse_value(data, pos, as_text) == Ok::<(ContentView, nat), DecoderError>(
            (ContentView::Text(s), 2nat),
        ),
{
    lemma_double_index(s);
    lemma_parse_value(data, pos, as_text);
    let (dictionary, index) = double_index(s)->0;
    let bytes = encode_text(s);
    assert(bytes == seq![(DICTIONARY0 + dictionary) as u8, index]);
    assert(bytes[0] == (DICTIONARY0 + dictionary) as u8);
    assert(bytes[1] == index);
    assert(data[pos + 0] == bytes[0]);
    assert(data[pos + 1] == bytes[1]);
}

/// Whether `s` is a string that is written in the packed form `tag` and
/// read back as it is.
pub open spec fn packs_back(tag: u8, s: Seq<char>) -> bool {
    if tag == NIBBLE8 {
        is_nibble_text(s)
    } else {
        tag == HEX8 && is_hex_text(s) && forall|i: int|
            0 <= i < s.len() ==> !('a' <= #[trigger] s[i] <= 'f')
    }
}

/// The symbol that is read at position `j` of a packed string: its
/// character, or past its end what the padding unpacks to.
pub open spec fn read_symbol(tag: u8, s: Seq<char>, j: int) -> u8 {
    if 0 <= j < s.len() {
        s[j] as u8
    } else if tag == NIBBLE8 {
        0
    } else {
        70
    }
}

/// The symbols that are read from the first `k` payload bytes of a packed
/// string.
pub open spec fn read_symbols(tag: u8, s: Seq<char>, k: int) -> Seq<u8> {
    Seq::new((2 * k) as nat, |j: int| read_symbol(tag, s, j))
}

/// Packing a symbol and unpacking it gives the symbol back.
proof fn lemma_unpack_pack(tag: u8, s: Seq<char>, j: int)
    requires
        packs_back(tag, s),
    ensures
        packed_code(tag, symbol_at(s, j)) < 16,
        unpack_byte_spec(tag, packed_code(tag, symbol_at(s, j))) == Ok::<u8, DecoderError>(
            read_symbol(tag, s, j),
        ),
        0 <= j < s.len() ==> (s[j] as u8) < 128 && (s[j] as u8) as char == s[j],
{
    if 0 <= j < s.len() {
        let c = s[j];
        if tag == NIBBLE8 {
            assert(is_nibble_char(c));
        } else {
            assert(is_hex_char(c));
            assert(!('a' <= c <= 'f'));
        }
    }
}

/// The payload of a packed string is read back symbol by symbol.
proof fn lemma_read_packed_symbols(data: Seq<u8>, pos: int, k: int, tag: u8, s: Seq<char>)
    requires
        packs_back(tag, s),
        stands_at(data, pos, packed_payload(tag, s)),
        0 <= k <= (s.len() + 1) / 2,
    ensures
        parse_packed_symbols(data, pos, k, tag) == Ok::<Seq<u8>, DecoderError>(
            read_symbols(tag, s, k),
        ),
    decreases k,
{
    if k <= 0 {
        assert(read_symbols(tag, s, k) =~= Seq::<u8>::empty());
    } else {
        lemma_read_packed_symbols(data, pos, k - 1, tag, s);
        let payload = packed_payload(tag, s);
        let byte = data[pos + k - 1];
        assert(payload[k - 1] == packed_pair(
            tag,
            symbol_at(s, 2 * (k - 1)),
            symbol_at(s, 2 * (k - 1) + 1),
        ));
        assert(data[pos + (k - 1)] == payload[k - 1]);
        lemma_unpack_pack(tag, s, 2 * (k - 1));
        lemma_unpack_pack(tag, s, 2 * (k - 1) + 1);
        let high = packed_code(tag, symbol_at(s, 2 * (k - 1)));
        let low = packed_code(tag, symbol_at(s, 2 * (k - 1) + 1));
        assert(byte == high * 16 + low);
        assert(byte / 16 == high && byte % 16 == low);
        assert(read_symbols(tag, s, k) =~= read_symbols(tag, s, k - 1).push(
            read_symbol(tag, s, 2 * (k - 1)),
        ).push(read_symbol(tag, s, 2 * (k - 1) + 1)));
    }
}

/// A string written in a packed form is read back.
proof fn lemma_read_packed(data: Seq<u8>, pos: int, tag: u8, s: Seq<char>, as_text: bool)
    requires
        packs_back(tag, s),
        stands_at(data, pos, packed_text(tag, s)),
    ensures
        parse_value(data, pos, as_text) == Ok::<(ContentView, nat), DecoderError>(
            (ContentView::Text(s), packed_text(tag, s).len()),
        ),
{
    let header = seq![tag, packed_length_byte(s.len() as int)];
    let payload = packed_payload(tag, s);
    let count: int = ((s.len() + 1) / 2) as int;
    lemma_stands_at_concat(data, pos, header, payload);
    assert(header[0] == tag && header[1] == packed_length_byte(s.len() as int));
    assert(data[pos + 0] == header[0]);
    assert(data[pos + 1] == header[1]);
    lemma_parse_value(data, pos, as_text);
    lemma_read_packed_symbols(data, pos + 2, count, tag, s);
    let symbols = read_symbols(tag, s, count);
    assert(data[pos + 1] % 128 == count);
    assert(s.len() <= PACKED_MAX);
    if s.len() % 2 == 0 {
        assert(data[pos + 1] < 128);
        assert forall|j: int| 0 <= j < s.len() implies ascii_text(symbols)[j] == s[j] by {
            lemma_unpack_pack(tag, s, j);
        }
        assert(ascii_text(symbols) =~= s);
    } else {
        assert(data[pos + 1] >= 128);
        assert forall|j: int| 0 <= j < s.len() implies ascii_text(symbols.drop_last())[j]
            == s[j] by {
            lemma_unpack_pack(tag, s, j);
        }
        assert(ascii_text(symbols.drop_last()) =~= s);
    }
    assert(parse_packed(data, pos + 1, tag) == Ok::<(Seq<char>, nat), DecoderError>(
        (s, (1 + count) as nat),
    ));
}

/// The length prefix of a block is read back as the length.
proof fn lemma_read_block_length(data: Seq<u8>, pos: int, length: int)
    requires
        0 <= length <= max_block_length(),
        stands_at(data, pos, byte_length(length)),
    ensures
        data[pos] == BINARY8 || data[pos] == BINARY20 || data[pos] == BINARY32,
        crate::binary::reading::parse_block_length(data, pos + 1, data[pos]) == Ok::<
            (int, nat),
            DecoderError,
        >((length, (byte_length(length).len() - 1) as nat)),
{
    let prefix = byte_length(length);
    reveal_with_fuel(uint_at, 5);
    assert(data[pos + 0] == prefix[0]);
    assert(data[pos + 1] == prefix[1]);
    if length >= 256 {
        assert(data[pos + 2] == prefix[2]);
        assert(data[pos + 3] == prefix[3]);
        if length >= 0x10_0000 {
            assert(data[pos + 4] == prefix[4]);
        }
    }
}

/// A string written raw is read back: as a string where one is asked for,
/// as its bytes else.
proof fn lemma_read_raw(data: Seq<u8>, pos: int, s: Seq<char>)
    requires
        encode_utf8(s).len() <= max_block_length(),
        stands_at(data, pos, raw_text(s)),
    ensures
        parse_value(data, pos, true) == Ok::<(ContentView, nat), DecoderError>(
            (ContentView::Text(s), raw_text(s).len()),
        ),
        parse_value(data, pos, false) == Ok::<(ContentView, nat), DecoderError>(
            (ContentView::Bytes(encode_utf8(s)), raw_text(s).len()),
        ),
{
    let bytes = encode_utf8(s);
    lemma_read_bytes(data, pos, bytes);
    encode_utf8_valid_utf8(s);
    encode_utf8_decode_utf8(s);
    lemma_parse_value(data, pos, true);
}

/// A block of bytes is read back.
proof fn lemma_read_bytes(data: Seq<u8>, pos: int, bytes: Seq<u8>)
    requires
        bytes.len() <= max_block_length(),
        stands_at(data, pos, byte_length(bytes.len() as int) + bytes),
    ensures
        data[pos] == BINARY8 || data[pos] == BINARY20 || data[pos] == BINARY32,
        parse_block(data, pos + 1, data[pos], false) == Ok::<(ContentView, nat), DecoderError>(
            (ContentView::Bytes(bytes), (byte_length(bytes.len() as int).len() - 1 + bytes.len()) as nat),
        ),
        data.subrange(
            pos + byte_length(bytes.len() as int).len(),
            pos + byte_length(bytes.len() as int).len() + bytes.len(),
        ) == bytes,
        parse_value(data, pos, false) == Ok::<(ContentView, nat), DecoderError>(
            (ContentView::Bytes(bytes), (byte_length(bytes.len() as int) + bytes).len()),
        ),
{
    let prefix = byte_length(bytes.len() as int);
    lemma_stands_at_concat(data, pos, prefix, bytes);
    lemma_read_block_length(data, pos, bytes.len() as int);
    let start = pos + prefix.len();
    assert forall|i: int| 0 <= i < bytes.len() implies data.subrange(
        start,
        start + bytes.len(),
    )[i] == bytes[i] by {
        assert(data[start + i] == bytes[i]);
    }
    assert(data.subrange(start, start + bytes.len()) =~= bytes);
    lemma_parse_value(data, pos, false);
}

/// A string is read back as it was written.
pub proof fn lemma_read_text(data: Seq<u8>, pos: int, s: Seq<char>)
    requires
        text_round_trips(s),
        stands_at(data, pos, encode_text(s)),
    ensures
        parse_value(data, pos, true) == Ok::<(ContentView, nat), DecoderError>(
            (ContentView::Text(s), encode_text(s).len()),
        ),
        parse_value(data, pos, false) == Ok::<(ContentView, nat), DecoderError>(
            (decoded_text(s), encode_text(s).len()),
        ),
        encode_text(s).len() >= 1,
{
    match text_form(s) {
        TextForm::Single(_) => {
            lemma_read_single(data, pos, s, true);
            lemma_read_single(data, pos, s, false);
        },
        TextForm::Double(_, _) => {
            lemma_read_double(data, pos, s, true);
            lemma_read_double(data, pos, s, false);
        },
        TextForm::Nibble => {
            lemma_read_packed(data, pos, NIBBLE8, s, true);
            lemma_read_packed(data, pos, NIBBLE8, s, false);
        },
        TextForm::Hex => {
            lemma_read_packed(data, pos, HEX8, s, true);
            lemma_read_packed(data, pos, HEX8, s, false);
        },
        TextForm::Raw => {
            lemma_read_raw(data, pos, s);
        },
    }
}

/// Whether an identifier is read back as it was written: it keeps the
/// invariant of identifiers, and its parts are read back.
pub open spec fn jid_round_trips(jid: JidView) -> bool {
    &&& jid.wf()
    &&& text_round_trips(jid.user)
    &&& !jid.is_ad() ==> text_round_trips(jid.server)
}

/// An identifier is read back as it was written.
pub proof fn lemma_read_jid(data: Seq<u8>, pos: int, jid: JidView, as_text: bool)
    requires
        jid_round_trips(jid),
        stands_at(data, pos, encode_jid(jid)),
    ensures
        parse_value(data, pos, as_text) == Ok::<(ContentView, nat), DecoderError>(
            (ContentView::Jid(jid), encode_jid(jid).len()),
        ),
        encode_jid(jid).len() >= 1,
{
    lemma_parse_value(data, pos, as_text);
    if jid.is_ad() {
        let header = seq![ADJID, jid.agent->0, jid.device->0];
        lemma_stands_at_concat(data, pos, header, encode_text(jid.user));
        assert(data[pos + 0] == header[0]);
        assert(data[pos + 1] == header[1]);
        assert(data[pos + 2] == header[2]);
        lemma_read_text(data, pos + 3, jid.user);
        lemma_parse_ad_jid(data, pos + 1);
        assert(JidView::ad(jid.user, jid.agent->0, jid.device->0) == jid);
    } else {
        let header = seq![JID_PAIR];
        let user = if jid.user.len() == 0 {
            seq![LIST_EMPTY]
        } else {
            encode_text(jid.user)
        };
        let server = encode_text(jid.server);
        assert(encode_jid(jid) == header + user + server);
        lemma_stands_at_concat(data, pos, header + user, server);
        lemma_stands_at_concat(data, pos, header, user);
        assert(data[pos + 0] == header[0]);
        lemma_parse_jid_pair(data, pos + 1);
        if jid.user.len() == 0 {
            assert(data[pos + 1 + 0] == user[0]);
            lemma_parse_value(data, pos + 1, true);
            assert(jid.user =~= Seq::<char>::empty());
        } else {
            lemma_read_text(data, pos + 1, jid.user);
        }
        lemma_read_text(data, pos + 1 + user.len(), jid.server);
        assert(JidView::pair(jid.user, jid.server) == jid);
    }
}

/// Whether an attribute is read back as it was written: its value is not
/// the empty string, which is not written, and key and value are read
/// back.
pub open spec fn attr_round_trips(entry: AttrEntryView) -> bool {
    &&& text_round_trips(entry.0)
    &&& match entry.1 {
        AttrView::Jid(jid) => jid_round_trips(jid),
        AttrView::Text(text) => text.len() > 0 && text_round_trips(text),
    }
}

/// Whether attributes are read back as they were written: no key comes
/// twice, and each attribute is read back.
pub open spec fn attrs_round_trip(attrs: Seq<AttrEntryView>) -> bool {
    &&& unique_keys(attrs)
    &&& forall|i: int| 0 <= i < attrs.len() ==> attr_round_trips(#[trigger] attrs[i])
}

/// Attributes are read back as they were written.
pub proof fn lemma_read_attrs(data: Seq<u8>, pos: int, attrs: Seq<AttrEntryView>, k: int)
    requires
        attrs_round_trip(attrs),
        0 <= k <= attrs.len(),
        stands_at(data, pos, encode_attrs(attrs, k)),
    ensures
        parse_attrs(data, pos, k) == Ok::<(Seq<AttrEntryView>, nat), DecoderError>(
            (attrs.subrange(0, k), encode_attrs(attrs, k).len()),
        ),
    decreases k,
{
    lemma_parse_attrs(data, pos, k);
    if k <= 0 {
        assert(attrs.subrange(0, k) =~= Seq::<AttrEntryView>::empty());
    } else {
        let before = encode_attrs(attrs, k - 1);
        let entry = attrs[k - 1];
        assert(attr_round_trips(entry));
        let key = encode_text(entry.0);
        let value = encode_attr_value(entry.1);
        assert(encode_attr(entry) == key + value);
        lemma_stands_at_concat(data, pos, before, key + value);
        lemma_stands_at_concat(data, pos + before.len(), key, value);
        lemma_read_attrs(data, pos, attrs, k - 1);
        lemma_read_text(data, pos + before.len(), entry.0);
        match entry.1 {
            AttrView::Jid(jid) => {
                lemma_read_jid(data, pos + before.len() + key.len(), jid, true);
            },
            AttrView::Text(text) => {
                lemma_read_text(data, pos + before.len() + key.len(), text);
            },
        }
        let earlier = attrs.subrange(0, k - 1);
        lemma_key_position(earlier, entry.0, k - 1);
        assert(key_position(earlier, entry.0, k - 1) is None) by {
            if key_position(earlier, entry.0, k - 1) is Some {
                let j = key_position(earlier, entry.0, k - 1)->0;
                assert(earlier[j] == attrs[j]);
                assert(attrs[j].0 != attrs[k - 1].0);
            }
        }
        assert(attrs_insert(earlier, entry.0, entry.1) =~= attrs.subrange(0, k));
        assert(encode_attrs(attrs, k).len() == before.len() + key.len() + value.len());
    }
}

/// Whether a content is read back as `decoded_content` says.
pub open spec fn content_round_trips(content: ContentView) -> bool
    decreases content, 0int,
{
    match content {
        ContentView::Absent => true,
        ContentView::List(nodes) => nodes.len() <= 65535 && nodes_round_trip(
            nodes,
            nodes.len() as int,
        ),
        ContentView::Bytes(bytes) => bytes.len() <= max_block_length(),
        ContentView::Jid(jid) => jid_round_trips(jid),
        ContentView::Text(text) => text_round_trips(text),
        _ => true,
    }
}

/// Whether an element is read back as `decoded_node` says: its tag is
/// neither empty nor `0`, its list has at most 65535 items, and tag,
/// attributes and content are read back.
pub open spec fn node_round_trips(node: NodeView) -> bool
    decreases node, 0int,
{
    &&& node.tag.len() > 0
    &&& node.tag != "0"@
    &&& text_round_trips(node.tag)
    &&& attrs_round_trip(node.attrs)
    &&& node_list_size(node) <= 65535
    &&& content_round_trips(node.content)
}

/// Whether the first `k` elements of a list are read back.
pub open spec fn nodes_round_trip(nodes: Seq<NodeView>, k: int) -> bool
    decreases nodes, k,
{
    if k <= 0 || k > nodes.len() {
        true
    } else {
        nodes_round_trip(nodes, k - 1) && node_round_trips(nodes[k - 1])
    }
}

/// As what a content is read back: an empty list as no content, a string
/// and every scalar as `decoded_text` says of its text, and everything
/// else as it is.
pub open spec fn decoded_content(content: ContentView) -> ContentView
    decreases content, 0int,
{
    match content {
        ContentView::Absent => ContentView::Absent,
        ContentView::List(nodes) => if nodes.len() == 0 {
            ContentView::Absent
        } else {
            ContentView::List(decoded_nodes(nodes, nodes.len() as int))
        },
        ContentView::Bytes(bytes) => ContentView::Bytes(bytes),
        ContentView::Jid(jid) => ContentView::Jid(jid),
        _ => decoded_text(scalar_text(content)),
    }
}

/// As what an element is read back: with the tag and the attributes that
/// it has, and with its content as `decoded_content` says.
pub open spec fn decoded_node(node: NodeView) -> NodeView
    decreases node, 0int,
{
    NodeView { tag: node.tag, attrs: node.attrs, content: decoded_content(node.content) }
}

/// As what the first `k` elements of a list are read back.
pub open spec fn decoded_nodes(nodes: Seq<NodeView>, k: int) -> Seq<NodeView>
    decreases nodes, k,
{
    if k <= 0 || k > nodes.len() {
        Seq::empty()
    } else {
        decoded_nodes(nodes, k - 1).push(decoded_node(nodes[k - 1]))
    }
}

/// The text of a scalar content is read back.
proof fn lemma_scalar_round_trips(content: ContentView)
    requires
        content_round_trips(content),
        !(content is Absent),
        !(content is List),
        !(content is Bytes),
        !(content is Jid),
    ensures
        text_round_trips(scalar_text(content)),
{
    match content {
        ContentView::I32(n) => {
            lemma_scalar_encodable(n as int);
        },
        ContentView::U32(n) => {
            lemma_scalar_encodable(n as int);
        },
        ContentView::I64(n) => {
            lemma_scalar_encodable(n as int);
        },
        ContentView::U64(n) => {
            lemma_scalar_encodable(n as int);
        },
        ContentView::Bool(b) => {
            lemma_bool_encodable();
            reveal_strlit("true");
            reveal_strlit("false");
            assert(!is_hex_char("true"@[0]));
            assert(!is_hex_char("false"@[2]));
        },
        _ => {},
    }
}

/// The start of a list is read back as its size.
proof fn lemma_read_list_start(data: Seq<u8>, pos: int, size: int)
    requires
        1 <= size <= 65535,
        stands_at(data, pos, list_start(size)),
    ensures
        data[pos] == LIST8 || data[pos] == LIST16,
        crate::binary::reading::parse_list_size(data, pos + 1, data[pos]) == Ok::<
            (int, nat),
            DecoderError,
        >((size, (list_start(size).len() - 1) as nat)),
{
    let start = list_start(size);
    reveal_with_fuel(uint_at, 3);
    assert(data[pos + 0] == start[0]);
    assert(data[pos + 1] == start[1]);
    if size >= 256 {
        assert(data[pos + 2] == start[2]);
    }
}

/// A content is read back as `decoded_content` says.
pub proof fn lemma_read_content(data: Seq<u8>, pos: int, content: ContentView)
    requires
        content_round_trips(content),
        stands_at(data, pos, encode_content(content)),
    ensures
        parse_value(data, pos, false) == Ok::<(ContentView, nat), DecoderError>(
            (decoded_content(content), encode_content(content).len()),
        ),
    decreases content, 1int,
{
    match content {
        ContentView::Absent => {
            lemma_parse_value(data, pos, false);
            assert(data[pos + 0] == encode_content(content)[0]);
        },
        ContentView::List(nodes) => {
            lemma_parse_value(data, pos, false);
            let n = nodes.len() as int;
            if n == 0 {
                assert(data[pos + 0] == encode_content(content)[0]);
            } else {
                let start = list_start(n);
                lemma_stands_at_concat(data, pos, start, encode_nodes(nodes, n));
                lemma_read_list_start(data, pos, n);
                lemma_parse_list(data, pos + 1, data[pos]);
                lemma_read_nodes(data, pos + start.len(), nodes, n);
            }
        },
        ContentView::Bytes(bytes) => {
            lemma_read_bytes(data, pos, bytes);
        },
        ContentView::Jid(jid) => {
            lemma_read_jid(data, pos, jid, false);
        },
        _ => {
            lemma_scalar_round_trips(content);
            lemma_read_text(data, pos, scalar_text(content));
        },
    }
}

/// An element is read back as `decoded_node` says.
pub proof fn lemma_read_node(data: Seq<u8>, pos: int, node: NodeView)
    requires
        node_round_trips(node),
        stands_at(data, pos, encode_node(node)),
    ensures
        parse_node(data, pos) == Ok::<(NodeView, nat), DecoderError>(
            (decoded_node(node), encode_node(node).len()),
        ),
    decreases node, 1int,
{
    let size = node_list_size(node);
    let start = list_start(size);
    let tag = encode_text(node.tag);
    let attrs = encode_attrs(node.attrs, node.attrs.len() as int);
    let content = if node.content is Absent {
        Seq::<u8>::empty()
    } else {
        encode_content(node.content)
    };
    assert(encode_node(node) == start + tag + attrs + content);
    lemma_stands_at_concat(data, pos, start + tag + attrs, content);
    lemma_stands_at_concat(data, pos, start + tag, attrs);
    lemma_stands_at_concat(data, pos, start, tag);
    lemma_read_list_start(data, pos, size);
    lemma_parse_node(data, pos);
    lemma_read_text(data, pos + start.len(), node.tag);
    lemma_read_attrs(data, pos + start.len() + tag.len(), node.attrs, node.attrs.len() as int);
    assert(node.attrs.subrange(0, node.attrs.len() as int) =~= node.attrs);
    if !(node.content is Absent) {
        lemma_read_content(data, pos + start.len() + tag.len() + attrs.len(), node.content);
    }
    assert(encode_node(node).len() == start.len() + tag.len() + attrs.len() + content.len());
}

/// The first `k` elements of a list are read back as `decoded_nodes` says.
pub proof fn lemma_read_nodes(data: Seq<u8>, pos: int, nodes: Seq<NodeView>, k: int)
    requires
        0 <= k <= nodes.len(),
        nodes_round_trip(nodes, k),
        stands_at(data, pos, encode_nodes(nodes, k)),
    ensures
        parse_nodes(data, pos, k) == Ok::<(Seq<NodeView>, nat), DecoderError>(
            (decoded_nodes(nodes, k), encode_nodes(nodes, k).len()),
        ),
    decreases nodes, k,
{
    lemma_parse_nodes(data, pos, k);
    if k > 0 {
        let before = encode_nodes(nodes, k - 1);
        lemma_stands_at_concat(data, pos, before, encode_node(nodes[k - 1]));
        lemma_read_nodes(data, pos, nodes, k - 1);
        lemma_read_node(data, pos + before.len(), nodes[k - 1]);
    }
}

/// What is written is read back. An element that `node_round_trips`
/// admits, written and followed by any bytes, is read as `decoded_node`
/// says, and the reader takes exactly the bytes that were written. The same
/// holds behind the byte that stands before an uncompressed payload.
pub proof fn law_round_trip(node: NodeView, rest: Seq<u8>)
    requires
        node_round_trips(node),
    ensures
        parse_node(encode_node(node) + rest, 0) == Ok::<(NodeView, nat), DecoderError>(
            (decoded_node(node), encode_node(node).len()),
        ),
        parse_node(seq![0u8] + encode_node(node) + rest, 1) == Ok::<(NodeView, nat), DecoderError>(
            (decoded_node(node), encode_node(node).len()),
        ),
{
    let bytes = encode_node(node);
    let data = bytes + rest;
    assert forall|i: int| 0 <= i < bytes.len() implies data[0 + i] == #[trigger] bytes[i] by {}
    lemma_read_node(data, 0, node);
    let framed = seq![0u8] + bytes + rest;
    assert forall|i: int| 0 <= i < bytes.len() implies framed[1 + i] == #[trigger] bytes[i] by {}
    lemma_read_node(framed, 1, node);
}

/// A token of the primary dictionary is written as one byte, the byte of a
/// token, as a string and as content alike.
pub proof fn law_single_token_one_byte(index: int)
    requires
        is_single_token_byte(index),
    ensures
        encode_text(single_token(index)).len() == 1,
        is_single_token_byte(encode_text(single_token(index))[0] as int),
        single_token(encode_text(single_token(index))[0] as int) == single_token(index),
        encode_content(ContentView::Text(single_token(index))) == encode_text(single_token(index)),
{
    lemma_single_token_has_index(index);
    lemma_single_index(single_token(index));
}

/// A string over the alphabet of digits, `-` and `.` that is no token is
/// written packed: the tag, the length byte and one byte for every two
/// characters. The top bit of the length byte is set exactly when the
/// number of characters is odd, and its other bits count the bytes that
/// follow.
pub proof fn law_nibble_packed(s: Seq<char>)
    requires
        is_nibble_text(s),
        single_index(s) is None,
        double_index(s) is None,
    ensures
        encode_text(s) == packed_text(NIBBLE8, s),
        encode_text(s).len() == 2 + (s.len() + 1) / 2,
        encode_text(s)[0] == NIBBLE8,
        encode_text(s)[1] % 128 == (s.len() + 1) / 2,
        encode_text(s)[1] >= 128 <==> s.len() % 2 == 1,
{
    let header = seq![NIBBLE8, packed_length_byte(s.len() as int)];
    assert(packed_text(NIBBLE8, s) == header + packed_payload(NIBBLE8, s));
    assert(encode_text(s)[0] == header[0]);
    assert(encode_text(s)[1] == header[1]);
    assert(s.len() <= PACKED_MAX);
}

/// The length prefix of a block is of the smallest size class that holds
/// the length: two bytes below 256, four below 2 to the 20, five up to the
/// largest length. The reader gives the length back.
pub proof fn law_size_classes(length: int, rest: Seq<u8>)
    requires
        0 <= length <= max_block_length(),
    ensures
        length < 256 ==> byte_length(length).len() == 2 && byte_length(length)[0] == BINARY8,
        256 <= length < 0x10_0000 ==> byte_length(length).len() == 4 && byte_length(length)[0]
            == BINARY20,
        0x10_0000 <= length ==> byte_length(length).len() == 5 && byte_length(length)[0]
            == BINARY32,
        crate::binary::reading::parse_block_length(
            byte_length(length) + rest,
            1,
            byte_length(length)[0],
        ) == Ok::<(int, nat), DecoderError>((length, (byte_length(length).len() - 1) as nat)),
{
    let prefix = byte_length(length);
    let data = prefix + rest;
    assert forall|i: int| 0 <= i < prefix.len() implies data[0 + i] == #[trigger] prefix[i] by {}
    lemma_read_block_length(data, 0, length);
    assert(data[0] == prefix[0]);
}

/// The start of a list says its size: one byte for the empty list, the tag
/// and one byte below 256, the tag and two bytes up to 65535. The reader
/// gives the size back.
pub proof fn law_list_framing(size: int, rest: Seq<u8>)
    requires
        0 <= size <= 65535,
    ensures
        size == 0 ==> list_start(size) == seq![LIST_EMPTY],
        1 <= size < 256 ==> list_start(size) == seq![LIST8, size as u8],
        256 <= size ==> list_start(size) == seq![LIST16, (size / 256) as u8, (size % 256) as u8],
        crate::binary::reading::parse_list_size(list_start(size) + rest, 1, list_start(size)[0])
            == Ok::<(int, nat), DecoderError>((size, (list_start(size).len() - 1) as nat)),
{
    let start = list_start(size);
    let data = start + rest;
    assert forall|i: int| 0 <= i < start.len() implies data[0 + i] == #[trigger] start[i] by {}
    if size >= 1 {
        lemma_read_list_start(data, 0, size);
        assert(data[0] == start[0]);
    }
}

/// Whether a reader that took bytes took them from within the data.
pub open spec fn within<T>(data: Seq<u8>, pos: int, parsed: Parsed<T>) -> bool {
    match parsed {
        Ok((_, taken)) => taken == 0 || (0 <= pos && pos + taken <= data.len()),
        Err(_) => true,
    }
}

/// A value is read from within the data, and takes at least one byte.
proof fn lemma_value_within(data: Seq<u8>, pos: int, as_text: bool)
    ensures
        within(data, pos, parse_value(data, pos, as_text)),
        parse_value(data, pos, as_text) is Ok ==> taken_of(parse_value(data, pos, as_text)) >= 1,
    decreases left(data, pos), 0int, 0int,
{
    lemma_parse_value(data, pos, as_text);
    if available(data, pos, 1) {
        let tag = data[pos];
        if tag == LIST8 || tag == LIST16 {
            lemma_list_within(data, pos + 1, tag);
        } else if tag == JID_PAIR {
            lemma_jid_pair_within(data, pos + 1);
        } else if tag == ADJID {
            lemma_ad_jid_within(data, pos + 1);
        } else if tag == NIBBLE8 || tag == HEX8 {
            if parse_packed(data, pos + 1, tag) is Ok {
                lemma_parse_packed_symbols(data, pos + 2, (data[pos + 1] % 128) as int, tag);
            }
        }
    }
}

/// An identifier of the pair form is read from within the data.
proof fn lemma_jid_pair_within(data: Seq<u8>, pos: int)
    ensures
        within(data, pos, parse_jid_pair(data, pos)),
    decreases left(data, pos), 1int, 0int,
{
    lemma_parse_jid_pair(data, pos);
    let user = parse_value(data, pos, true);
    lemma_value_within(data, pos, true);
    lemma_value_within(data, pos + taken_of(user), true);
}

/// A device identifier is read from within the data.
proof fn lemma_ad_jid_within(data: Seq<u8>, pos: int)
    ensures
        within(data, pos, parse_ad_jid(data, pos)),
    decreases left(data, pos), 1int, 0int,
{
    lemma_parse_ad_jid(data, pos);
    lemma_value_within(data, pos + 2, true);
}

/// Attributes are read from within the data.
proof fn lemma_attrs_within(data: Seq<u8>, pos: int, count: int)
    ensures
        within(data, pos, parse_attrs(data, pos, count)),
    decreases left(data, pos), 2int, count,
{
    lemma_parse_attrs(data, pos, count);
    if count > 0 {
        let previous = parse_attrs(data, pos, count - 1);
        lemma_attrs_within(data, pos, count - 1);
        let key = parse_value(data, pos + taken_of(previous), true);
        lemma_value_within(data, pos + taken_of(previous), true);
        lemma_value_within(data, pos + taken_of(previous) + taken_of(key), true);
    }
}

/// An element is read from within the data, and takes at least one byte.
proof fn lemma_node_within(data: Seq<u8>, pos: int)
    ensures
        within(data, pos, parse_node(data, pos)),
        parse_node(data, pos) is Ok ==> taken_of(parse_node(data, pos)) >= 1,
    decreases left(data, pos), 1int, 0int,
{
    lemma_parse_node(data, pos);
    if available(data, pos, 1) {
        let size = crate::binary::reading::parse_list_size(data, pos + 1, data[pos]);
        let at_tag = pos + 1 + taken_of(size);
        let tag = parse_value(data, at_tag, true);
        lemma_value_within(data, at_tag, true);
        let at_attrs = at_tag + taken_of(tag);
        let attrs = parse_attrs(
            data,
            at_attrs,
            crate::binary::reading::attr_count(crate::binary::reading::number_of(size)),
        );
        lemma_attrs_within(
            data,
            at_attrs,
            crate::binary::reading::attr_count(crate::binary::reading::number_of(size)),
        );
        lemma_value_within(data, at_attrs + taken_of(attrs), false);
    }
}

/// Elements are read from within the data.
proof fn lemma_nodes_within(data: Seq<u8>, pos: int, count: int)
    ensures
        within(data, pos, parse_nodes(data, pos, count)),
    decreases left(data, pos), 2int, count,
{
    lemma_parse_nodes(data, pos, count);
    if count > 0 {
        lemma_nodes_within(data, pos, count - 1);
        lemma_node_within(data, pos + taken_of(parse_nodes(data, pos, count - 1)));
    }
}

/// A list is read from within the data.
proof fn lemma_list_within(data: Seq<u8>, pos: int, tag: u8)
    ensures
        within(data, pos, parse_list(data, pos, tag)),
    decreases left(data, pos), 3int, 0int,
{
    lemma_parse_list(data, pos, tag);
    let size = crate::binary::reading::parse_list_size(data, pos, tag);
    lemma_nodes_within(
        data,
        pos + taken_of(size),
        crate::binary::reading::number_of(size),
    );
}

/// A reader never takes bytes that are not there: a value or an element
/// that is read stands within the data, and takes at least one byte.
pub proof fn law_readers_stay_within(data: Seq<u8>, pos: int, as_text: bool)
    ensures
        match parse_value(data, pos, as_text) {
            Ok((_, taken)) => 0 <= pos && 1 <= taken && pos + taken <= data.len(),
            Err(_) => true,
        },
        match parse_node(data, pos) {
            Ok((_, taken)) => 0 <= pos && 1 <= taken && pos + taken <= data.len(),
            Err(_) => true,
        },
{
    lemma_value_within(data, pos, as_text);
    lemma_node_within(data, pos);
}

} // verus!
