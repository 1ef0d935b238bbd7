//! The wire grammar of reading, as mathematics: what a sequence of bytes is
//! read as. The decoder is held to these functions by its contracts.
//!
//! The readers that call each other are stated in two layers: a function
//! that says what is read at which position, and beside it a function that
//! says what the parts that were read amount to.

use crate::binary::attrs::{AttrEntryView, attrs_insert, AttrView};
use crate::binary::errors::DecoderError;
use crate::binary::node::{ContentView, NodeView};
use crate::binary::token::{
    ADJID, BINARY20, BINARY32, BINARY8, DICTIONARY0, DICTIONARY3, double_token, HEX8,
    is_double_token, is_single_token_byte, JID_PAIR, LIST16, LIST8, LIST_EMPTY, NIBBLE8,
    single_token,
};
use crate::text::{ascii_text, is_ascii_bytes};
use crate::types::jid::JidView;
use vstd::prelude::*;
use vstd::utf8::*;

verus! {

/// What a reader returns: the value and the number of bytes it took, or the
/// error.
pub type Parsed<T> = Result<(T, nat), DecoderError>;

/// The number of bytes that a reader took: none where it failed.
pub open spec fn taken_of<T>(parsed: Parsed<T>) -> nat {
    match parsed {
        Ok((_, taken)) => taken,
        Err(_) => 0,
    }
}

/// The number that a reader read: 0 where it failed.
pub open spec fn number_of(parsed: Parsed<int>) -> int {
    match parsed {
        Ok((number, _)) => number,
        Err(_) => 0,
    }
}

/// The number of bytes from `pos` to the end.
pub open spec fn left(data: Seq<u8>, pos: int) -> nat {
    if pos <= data.len() {
        (data.len() - pos) as nat
    } else {
        0
    }
}

/// Whether `n` bytes stand at `pos`.
pub open spec fn available(data: Seq<u8>, pos: int, n: int) -> bool {
    0 <= pos && 0 <= n && pos + n <= data.len()
}

/// The number that `n` bytes at `pos` spell, in the order given.
pub open spec fn uint_at(data: Seq<u8>, pos: int, n: int, little_endian: bool) -> int
    decreases n,
{
    if n <= 0 {
        0
    } else if little_endian {
        data[pos] + 256 * uint_at(data, pos + 1, n - 1, true)
    } else {
        uint_at(data, pos, n - 1, false) * 256 + data[pos + n - 1]
    }
}

/// 256 to the power `n`, for `n` up to 4.
pub open spec fn uint_bound(n: int) -> int {
    if n <= 0 {
        1
    } else if n == 1 {
        0x100
    } else if n == 2 {
        0x1_0000
    } else if n == 3 {
        0x100_0000
    } else {
        0x1_0000_0000
    }
}

/// The value of `n` bytes is below 256 to the `n`.
pub proof fn lemma_uint_at_bound(data: Seq<u8>, pos: int, n: int, little_endian: bool)
    requires
        0 <= n <= 4,
    ensures
        0 <= uint_at(data, pos, n, little_endian) < uint_bound(n),
    decreases n,
{
    if n > 0 {
        if little_endian {
            lemma_uint_at_bound(data, pos + 1, n - 1, true);
        } else {
            lemma_uint_at_bound(data, pos, n - 1, false);
        }
    }
}

/// The number that an unsigned 32-bit number is when its top bit is read
/// as the sign.
pub open spec fn as_signed32(value: int) -> int {
    if value < 0x8000_0000 {
        value
    } else {
        value - 0x1_0000_0000
    }
}

/// The twenty-bit number that three bytes at `pos` spell: the low four bits
/// of the first, then the other two.
pub open spec fn uint20_at(data: Seq<u8>, pos: int) -> int {
    (data[pos] % 16) * 65536 + data[pos + 1] * 256 + data[pos + 2]
}

/// Reads `n` bytes at `pos` as an unsigned number.
pub open spec fn parse_uint(data: Seq<u8>, pos: int, n: int, little_endian: bool) -> Parsed<int> {
    if !available(data, pos, n) {
        Err(DecoderError::ErrUnexpectedEnd)
    } else {
        Ok((uint_at(data, pos, n, little_endian), n as nat))
    }
}

/// Reads three bytes at `pos` as a twenty-bit number.
pub open spec fn parse_uint20(data: Seq<u8>, pos: int) -> Parsed<int> {
    if !available(data, pos, 3) {
        Err(DecoderError::ErrUnexpectedEnd)
    } else {
        Ok((uint20_at(data, pos), 3nat))
    }
}

/// Reads the size of a list whose tag is `tag`: nothing for the empty
/// list, one byte or two.
pub open spec fn parse_list_size(data: Seq<u8>, pos: int, tag: u8) -> Parsed<int> {
    if tag == LIST_EMPTY {
        Ok((0int, 0nat))
    } else if tag == LIST8 {
        parse_uint(data, pos, 1, false)
    } else if tag == LIST16 {
        parse_uint(data, pos, 2, false)
    } else {
        Err(DecoderError::ErrInvalidToken)
    }
}

/// Reads the length of a block whose tag is `tag`.
pub open spec fn parse_block_length(data: Seq<u8>, pos: int, tag: u8) -> Parsed<int> {
    if tag == BINARY8 {
        parse_uint(data, pos, 1, false)
    } else if tag == BINARY20 {
        parse_uint20(data, pos)
    } else {
        parse_uint(data, pos, 4, false)
    }
}

/// Reads `n` raw bytes at `pos`.
pub open spec fn parse_bytes(data: Seq<u8>, pos: int, n: int) -> Parsed<Seq<u8>> {
    if !available(data, pos, n) {
        Err(DecoderError::ErrUnexpectedEnd)
    } else {
        Ok((data.subrange(pos, pos + n), n as nat))
    }
}

/// Reads `n` bytes at `pos` as a string.
pub open spec fn parse_string(data: Seq<u8>, pos: int, n: int) -> Parsed<Seq<char>> {
    match parse_bytes(data, pos, n) {
        Err(e) => Err(e),
        Ok((bytes, taken)) => if valid_utf8(bytes) {
            Ok((decode_utf8(bytes), taken))
        } else {
            Err(DecoderError::ErrInvalidUtf8)
        },
    }
}

/// Reads the block that follows the tag `tag`: its length, then its bytes,
/// as a string where `as_text` holds.
pub open spec fn parse_block(data: Seq<u8>, pos: int, tag: u8, as_text: bool) -> Parsed<
    ContentView,
> {
    match parse_block_length(data, pos, tag) {
        Err(e) => Err(e),
        Ok((length, taken)) => if as_text {
            match parse_string(data, pos + taken, length) {
                Err(e) => Err(e),
                Ok((text, more)) => Ok((ContentView::Text(text), taken + more)),
            }
        } else {
            match parse_bytes(data, pos + taken, length) {
                Err(e) => Err(e),
                Ok((bytes, more)) => Ok((ContentView::Bytes(bytes), taken + more)),
            }
        },
    }
}

/// The symbol that four bits stand for under `NIBBLE8`.
pub open spec fn unpack_nibble_spec(value: u8) -> Result<u8, DecoderError> {
    if value < 10 {
        Ok((48 + value) as u8)
    } else if value == 10 {
        Ok(45u8)
    } else if value == 11 {
        Ok(46u8)
    } else if value == 15 {
        Ok(0u8)
    } else {
        Err(DecoderError::ErrInvalidToken)
    }
}

/// The symbol that four bits stand for under `HEX8`: a digit or a capital
/// letter.
pub open spec fn unpack_hex_spec(value: u8) -> Result<u8, DecoderError> {
    if value < 10 {
        Ok((48 + value) as u8)
    } else if value < 16 {
        Ok((65 + value - 10) as u8)
    } else {
        Err(DecoderError::ErrInvalidToken)
    }
}

/// The symbol that four bits stand for under the packed form `tag`.
pub open spec fn unpack_byte_spec(tag: u8, value: u8) -> Result<u8, DecoderError> {
    if tag == NIBBLE8 {
        unpack_nibble_spec(value)
    } else if tag == HEX8 {
        unpack_hex_spec(value)
    } else {
        Err(DecoderError::ErrInvalidToken)
    }
}

/// Reads `k` payload bytes at `pos` as `2 * k` symbols, byte by byte.
pub open spec fn parse_packed_symbols(data: Seq<u8>, pos: int, k: int, tag: u8) -> Result<
    Seq<u8>,
    DecoderError,
>
    decreases k,
{
    if k <= 0 {
        Ok(Seq::empty())
    } else {
        match parse_packed_symbols(data, pos, k - 1, tag) {
            Err(e) => Err(e),
            Ok(symbols) => if !available(data, pos + k - 1, 1) {
                Err(DecoderError::ErrUnexpectedEnd)
            } else {
                match unpack_byte_spec(tag, data[pos + k - 1] / 16) {
                    Err(e) => Err(e),
                    Ok(first) => match unpack_byte_spec(tag, data[pos + k - 1] % 16) {
                        Err(e) => Err(e),
                        Ok(second) => Ok(symbols.push(first).push(second)),
                    },
                }
            },
        }
    }
}

/// A failure to read packed symbols stays when more are asked for.
pub proof fn lemma_parse_packed_error_stays(data: Seq<u8>, pos: int, k: int, n: int, tag: u8)
    requires
        0 <= k <= n,
        parse_packed_symbols(data, pos, k, tag) is Err,
    ensures
        parse_packed_symbols(data, pos, n, tag) == parse_packed_symbols(data, pos, k, tag),
    decreases n - k,
{
    if k < n {
        lemma_parse_packed_error_stays(data, pos, k, n - 1, tag);
    }
}

/// The symbols read from packed bytes are two for each byte, and ASCII.
pub proof fn lemma_parse_packed_symbols(data: Seq<u8>, pos: int, k: int, tag: u8)
    requires
        0 <= k,
        0 <= pos,
        parse_packed_symbols(data, pos, k, tag) is Ok,
    ensures
        parse_packed_symbols(data, pos, k, tag)->Ok_0.len() == 2 * k,
        is_ascii_bytes(parse_packed_symbols(data, pos, k, tag)->Ok_0),
        k > 0 ==> available(data, pos, k),
    decreases k,
{
    if k > 0 {
        lemma_parse_packed_symbols(data, pos, k - 1, tag);
    }
}

/// Reads a packed string at `pos`: the length byte, then the payload. With
/// the top bit of the length byte set, the last symbol is padding and is
/// dropped; a length byte that sets it on an empty payload is refused.
pub open spec fn parse_packed(data: Seq<u8>, pos: int, tag: u8) -> Parsed<Seq<char>> {
    if !available(data, pos, 1) {
        Err(DecoderError::ErrUnexpectedEnd)
    } else {
        let count = data[pos] % 128;
        match parse_packed_symbols(data, pos + 1, count as int, tag) {
            Err(e) => Err(e),
            Ok(symbols) => if data[pos] < 128 {
                Ok((ascii_text(symbols), (1 + count) as nat))
            } else if count == 0 {
                Err(DecoderError::ErrInvalidToken)
            } else {
                Ok((ascii_text(symbols.drop_last()), (1 + count) as nat))
            },
        }
    }
}

/// The value at `pos`, given what the readers of a list and of the two
/// forms of identifier give behind its tag byte.
pub open spec fn value_from(
    data: Seq<u8>,
    pos: int,
    as_text: bool,
    list: Parsed<Seq<NodeView>>,
    pair: Parsed<JidView>,
    ad: Parsed<JidView>,
) -> Parsed<ContentView> {
    let tag = data[pos];
    if tag == LIST_EMPTY {
        Ok((ContentView::Absent, 1nat))
    } else if tag == LIST8 || tag == LIST16 {
        match list {
            Err(e) => Err(e),
            Ok((nodes, taken)) => Ok((ContentView::List(nodes), 1 + taken)),
        }
    } else if tag == BINARY8 || tag == BINARY20 || tag == BINARY32 {
        match parse_block(data, pos + 1, tag, as_text) {
            Err(e) => Err(e),
            Ok((block, taken)) => Ok((block, 1 + taken)),
        }
    } else if DICTIONARY0 <= tag <= DICTIONARY3 {
        if !available(data, pos + 1, 1) {
            Err(DecoderError::ErrUnexpectedEnd)
        } else if is_double_token(tag - DICTIONARY0, data[pos + 1] as int) {
            Ok((ContentView::Text(double_token(tag - DICTIONARY0, data[pos + 1] as int)), 2nat))
        } else {
            Err(DecoderError::ErrInvalidToken)
        }
    } else if tag == JID_PAIR {
        match pair {
            Err(e) => Err(e),
            Ok((jid, taken)) => Ok((ContentView::Jid(jid), 1 + taken)),
        }
    } else if tag == ADJID {
        match ad {
            Err(e) => Err(e),
            Ok((jid, taken)) => Ok((ContentView::Jid(jid), 1 + taken)),
        }
    } else if tag == NIBBLE8 || tag == HEX8 {
        match parse_packed(data, pos + 1, tag) {
            Err(e) => Err(e),
            Ok((text, taken)) => Ok((ContentView::Text(text), 1 + taken)),
        }
    } else if is_single_token_byte(tag as int) {
        Ok((ContentView::Text(single_token(tag as int)), 1nat))
    } else {
        Err(DecoderError::ErrInvalidToken)
    }
}

/// The identifier of the pair form that two values make: the user, which
/// may be absent, and the server.
pub open spec fn jid_pair_from(user: Parsed<ContentView>, server: Parsed<ContentView>) -> Parsed<
    JidView,
> {
    match user {
        Err(e) => Err(e),
        Ok((user, taken)) => match server {
            Err(e) => Err(e),
            Ok((server, more)) => match (user, server) {
                (ContentView::Absent, ContentView::Text(server)) => Ok(
                    (JidView::pair(Seq::empty(), server), taken + more),
                ),
                (ContentView::Text(user), ContentView::Text(server)) => Ok(
                    (JidView::pair(user, server), taken + more),
                ),
                _ => Err(DecoderError::ErrInvalidJIDType),
            },
        },
    }
}

/// The device identifier that the two bytes at `pos` and the value behind
/// them make.
pub open spec fn ad_jid_from(data: Seq<u8>, pos: int, user: Parsed<ContentView>) -> Parsed<
    JidView,
> {
    if !available(data, pos, 1) || !available(data, pos + 1, 1) {
        Err(DecoderError::ErrUnexpectedEnd)
    } else {
        match user {
            Err(e) => Err(e),
            Ok((user, taken)) => match user {
                ContentView::Text(user) => Ok(
                    (JidView::ad(user, data[pos], data[pos + 1]), 2 + taken),
                ),
                _ => Err(DecoderError::ErrInvalidJIDType),
            },
        }
    }
}

/// The attributes read so far and one more, given as its key and its
/// value. A key that comes again replaces the earlier value.
pub open spec fn attrs_from(
    previous: Parsed<Seq<AttrEntryView>>,
    key: Parsed<ContentView>,
    value: Parsed<ContentView>,
) -> Parsed<Seq<AttrEntryView>> {
    match previous {
        Err(e) => Err(e),
        Ok((attrs, taken)) => match key {
            Err(e) => Err(e),
            Ok((key, more)) => match key {
                ContentView::Text(key) => match value {
                    Err(e) => Err(e),
                    Ok((value, last)) => match value {
                        ContentView::Jid(jid) => Ok(
                            (attrs_insert(attrs, key, AttrView::Jid(jid)), taken + more + last),
                        ),
                        ContentView::Text(text) => Ok(
                            (attrs_insert(attrs, key, AttrView::Text(text)), taken + more + last),
                        ),
                        _ => Err(DecoderError::ErrInvalidType),
                    },
                },
                _ => Err(DecoderError::ErrNonStringKey),
            },
        },
    }
}

/// The number of attributes of an element whose list has `size` items.
pub open spec fn attr_count(size: int) -> int {
    (size - 1) / 2
}

/// The element that its parts make: the size of its list, the tag, the
/// attributes and, where the size is even, the content. One byte stands
/// before the size.
pub open spec fn node_from(
    size: Parsed<int>,
    tag: Parsed<ContentView>,
    attrs: Parsed<Seq<AttrEntryView>>,
    content: Parsed<ContentView>,
) -> Parsed<NodeView> {
    match size {
        Err(e) => Err(e),
        Ok((size, taken)) => if size == 0 {
            Err(DecoderError::ErrInvalidNode)
        } else {
            match tag {
                Err(e) => Err(e),
                Ok((tag, more)) => match tag {
                    ContentView::Text(tag) => if tag.len() == 0 {
                        Err(DecoderError::ErrInvalidNode)
                    } else {
                        match attrs {
                            Err(e) => Err(e),
                            Ok((attrs, third)) => if size % 2 == 1 {
                                Ok(
                                    (
                                        NodeView { tag, attrs, content: ContentView::Absent },
                                        1 + taken + more + third,
                                    ),
                                )
                            } else {
                                match content {
                                    Err(e) => Err(e),
                                    Ok((content, last)) => Ok(
                                        (
                                            NodeView { tag, attrs, content },
                                            1 + taken + more + third + last,
                                        ),
                                    ),
                                }
                            },
                        }
                    },
                    _ => Err(DecoderError::ErrInvalidNode),
                },
            }
        },
    }
}

/// The elements read so far and one more.
pub open spec fn nodes_from(previous: Parsed<Seq<NodeView>>, node: Parsed<NodeView>) -> Parsed<
    Seq<NodeView>,
> {
    match previous {
        Err(e) => Err(e),
        Ok((nodes, taken)) => match node {
            Err(e) => Err(e),
            Ok((node, more)) => Ok((nodes.push(node), taken + more)),
        },
    }
}

/// The list that its size and its elements make.
pub open spec fn list_from(size: Parsed<int>, nodes: Parsed<Seq<NodeView>>) -> Parsed<
    Seq<NodeView>,
> {
    match size {
        Err(e) => Err(e),
        Ok((_, taken)) => match nodes {
            Err(e) => Err(e),
            Ok((nodes, more)) => Ok((nodes, taken + more)),
        },
    }
}

/// Reads one value at `pos`: a tag byte, and what the tag announces.
#[verifier::opaque]
pub open spec fn parse_value(data: Seq<u8>, pos: int, as_text: bool) -> Parsed<ContentView>
    decreases left(data, pos), 0int, 0int,
{
    if !available(data, pos, 1) {
        Err(DecoderError::ErrUnexpectedEnd)
    } else {
        value_from(
            data,
            pos,
            as_text,
            parse_list(data, pos + 1, data[pos]),
            parse_jid_pair(data, pos + 1),
            parse_ad_jid(data, pos + 1),
        )
    }
}

/// Reads the two parts of an identifier of the pair form, one after the
/// other.
#[verifier::opaque]
pub open spec fn parse_jid_pair(data: Seq<u8>, pos: int) -> Parsed<JidView>
    decreases left(data, pos), 1int, 0int,
{
    let user = parse_value(data, pos, true);
    jid_pair_from(user, parse_value(data, pos + taken_of(user), true))
}

/// Reads the parts of a device identifier: a byte each for agent and
/// device, then the user.
#[verifier::opaque]
pub open spec fn parse_ad_jid(data: Seq<u8>, pos: int) -> Parsed<JidView>
    decreases left(data, pos), 1int, 0int,
{
    ad_jid_from(data, pos, parse_value(data, pos + 2, true))
}

/// Reads `count` attributes at `pos`, each a key and a value.
#[verifier::opaque]
pub open spec fn parse_attrs(data: Seq<u8>, pos: int, count: int) -> Parsed<Seq<AttrEntryView>>
    decreases left(data, pos), 2int, count,
{
    if count <= 0 {
        Ok((Seq::empty(), 0nat))
    } else {
        let previous = parse_attrs(data, pos, count - 1);
        let key = parse_value(data, pos + taken_of(previous), true);
        let value = parse_value(data, pos + taken_of(previous) + taken_of(key), true);
        attrs_from(previous, key, value)
    }
}

/// Reads one element at `pos`: a byte that says how the size of its list
/// is written, the size, the tag, the attributes and the content.
#[verifier::opaque]
pub open spec fn parse_node(data: Seq<u8>, pos: int) -> Parsed<NodeView>
    decreases left(data, pos), 1int, 0int,
{
    if !available(data, pos, 1) {
        Err(DecoderError::ErrUnexpectedEnd)
    } else {
        let size = parse_list_size(data, pos + 1, data[pos]);
        let at_tag = pos + 1 + taken_of(size);
        let tag = parse_value(data, at_tag, true);
        let at_attrs = at_tag + taken_of(tag);
        let attrs = parse_attrs(data, at_attrs, attr_count(number_of(size)));
        let content = parse_value(data, at_attrs + taken_of(attrs), false);
        node_from(size, tag, attrs, content)
    }
}

/// Reads `count` elements at `pos`, one after the other.
#[verifier::opaque]
pub open spec fn parse_nodes(data: Seq<u8>, pos: int, count: int) -> Parsed<Seq<NodeView>>
    decreases left(data, pos), 2int, count,
{
    if count <= 0 {
        Ok((Seq::empty(), 0nat))
    } else {
        let previous = parse_nodes(data, pos, count - 1);
        nodes_from(previous, parse_node(data, pos + taken_of(previous)))
    }
}

/// Reads the list that follows the tag `tag`: its size, then that many
/// elements.
#[verifier::opaque]
pub open spec fn parse_list(data: Seq<u8>, pos: int, tag: u8) -> Parsed<Seq<NodeView>>
    decreases left(data, pos), 3int, 0int,
{
    let size = parse_list_size(data, pos, tag);
    list_from(size, parse_nodes(data, pos + taken_of(size), number_of(size)))
}

/// `parse_value`, one step unfolded.
pub proof fn lemma_parse_value(data: Seq<u8>, pos: int, as_text: bool)
    ensures
        parse_value(data, pos, as_text) == if !available(data, pos, 1) {
            Err::<(ContentView, nat), DecoderError>(DecoderError::ErrUnexpectedEnd)
        } else {
            value_from(
                data,
                pos,
                as_text,
                parse_list(data, pos + 1, data[pos]),
                parse_jid_pair(data, pos + 1),
                parse_ad_jid(data, pos + 1),
            )
        },
{
    reveal(parse_value);
    reveal(parse_list);
    reveal(parse_jid_pair);
    reveal(parse_ad_jid);
}

/// `parse_jid_pair`, one step unfolded.
pub proof fn lemma_parse_jid_pair(data: Seq<u8>, pos: int)
    ensures
        parse_jid_pair(data, pos) == jid_pair_from(
            parse_value(data, pos, true),
            parse_value(data, pos + taken_of(parse_value(data, pos, true)), true),
        ),
{
    reveal(parse_jid_pair);
    reveal(parse_value);
}

/// `parse_ad_jid`, one step unfolded.
pub proof fn lemma_parse_ad_jid(data: Seq<u8>, pos: int)
    ensures
        parse_ad_jid(data, pos) == ad_jid_from(data, pos, parse_value(data, pos + 2, true)),
{
    reveal(parse_ad_jid);
    reveal(parse_value);
}

/// `parse_attrs`, one step unfolded.
pub proof fn lemma_parse_attrs(data: Seq<u8>, pos: int, count: int)
    ensures
        count <= 0 ==> parse_attrs(data, pos, count) == Ok::<
            (Seq<AttrEntryView>, nat),
            DecoderError,
        >((Seq::empty(), 0nat)),
        count > 0 ==> parse_attrs(data, pos, count) == ({
            let previous = parse_attrs(data, pos, count - 1);
            let key = parse_value(data, pos + taken_of(previous), true);
            let value = parse_value(data, pos + taken_of(previous) + taken_of(key), true);
            attrs_from(previous, key, value)
        }),
{
    reveal(parse_attrs);
    reveal(parse_value);
}

/// `parse_node`, one step unfolded.
pub proof fn lemma_parse_node(data: Seq<u8>, pos: int)
    ensures
        !available(data, pos, 1) ==> parse_node(data, pos) == Err::<(NodeView, nat), DecoderError>(
            DecoderError::ErrUnexpectedEnd,
        ),
        available(data, pos, 1) ==> parse_node(data, pos) == ({
            let size = parse_list_size(data, pos + 1, data[pos]);
            let at_tag = pos + 1 + taken_of(size);
            let tag = parse_value(data, at_tag, true);
            let at_attrs = at_tag + taken_of(tag);
            let attrs = parse_attrs(data, at_attrs, attr_count(number_of(size)));
            let content = parse_value(data, at_attrs + taken_of(attrs), false);
            node_from(size, tag, attrs, content)
        }),
{
    reveal(parse_node);
    reveal(parse_value);
    reveal(parse_attrs);
}

/// `parse_nodes`, one step unfolded.
pub proof fn lemma_parse_nodes(data: Seq<u8>, pos: int, count: int)
    ensures
        count <= 0 ==> parse_nodes(data, pos, count) == Ok::<(Seq<NodeView>, nat), DecoderError>(
            (Seq::empty(), 0nat),
        ),
        count > 0 ==> parse_nodes(data, pos, count) == nodes_from(
            parse_nodes(data, pos, count - 1),
            parse_node(data, pos + taken_of(parse_nodes(data, pos, count - 1))),
        ),
{
    reveal(parse_nodes);
    reveal(parse_node);
}

/// `parse_list`, one step unfolded.
pub proof fn lemma_parse_list(data: Seq<u8>, pos: int, tag: u8)
    ensures
        parse_list(data, pos, tag) == list_from(
            parse_list_size(data, pos, tag),
            parse_nodes(
                data,
                pos + taken_of(parse_list_size(data, pos, tag)),
                number_of(parse_list_size(data, pos, tag)),
            ),
        ),
{
    reveal(parse_list);
    reveal(parse_nodes);
}

/// A failure to read elements stays when more are asked for.
pub proof fn lemma_parse_nodes_error_stays(data: Seq<u8>, pos: int, k: int, n: int)
    requires
        0 <= k <= n,
        parse_nodes(data, pos, k) is Err,
    ensures
        parse_nodes(data, pos, n) == parse_nodes(data, pos, k),
    decreases n - k,
{
    if k < n {
        lemma_parse_nodes_error_stays(data, pos, k, n - 1);
        lemma_parse_nodes(data, pos, n);
    }
}

/// A failure to read attributes stays when more are asked for.
pub proof fn lemma_parse_attrs_error_stays(data: Seq<u8>, pos: int, k: int, n: int)
    requires
        0 <= k <= n,
        parse_attrs(data, pos, k) is Err,
    ensures
        parse_attrs(data, pos, n) == parse_attrs(data, pos, k),
    decreases n - k,
{
    if k < n {
        lemma_parse_attrs_error_stays(data, pos, k, n - 1);
        lemma_parse_attrs(data, pos, n);
    }
}

} // verus!
