//! The decoder: reads elements from bytes.

use crate::binary::attrs::{AttrEntryView, AttributeTypes, Attrs, unique_keys};
use crate::binary::errors::DecoderError;
use crate::binary::node::{ContentView, lemma_nodes_view, Node, NodeContentType, nodes_view};
use crate::binary::token::{
    ADJID, BINARY20, BINARY32, BINARY8, DICTIONARY0, DICTIONARY3, get_double_token,
    get_single_token, HEX8, JID_PAIR, LIST16, LIST8, LIST_EMPTY, NIBBLE8,
};
use crate::binary::reading::{
    as_signed32, available, left, lemma_parse_ad_jid, lemma_parse_attrs,
    lemma_parse_attrs_error_stays, lemma_parse_jid_pair, lemma_parse_list, lemma_parse_node,
    lemma_parse_nodes, lemma_parse_nodes_error_stays, lemma_parse_packed_error_stays,
    lemma_parse_packed_symbols, lemma_parse_value, lemma_uint_at_bound, parse_ad_jid, parse_attrs,
    parse_block, parse_bytes, parse_jid_pair, parse_list, parse_list_size, parse_node, parse_nodes,
    parse_packed, parse_packed_symbols, parse_string, parse_uint, parse_uint20, parse_value,
    uint_at, uint_bound, unpack_byte_spec, unpack_hex_spec, unpack_nibble_spec,
};
use crate::text::{string_from_ascii, string_from_utf8};
use crate::types::jid::{JID, JidView};
use vstd::prelude::*;
use vstd::slice::{slice_subrange, slice_to_vec};
use vstd::string::*;

verus! {

/// A payload and a cursor into it, and the readers of the wire format.
pub struct BinaryDecoder {
    data: Vec<u8>,
    index: usize,
}

impl Default for BinaryDecoder {
    fn default() -> (decoder: Self)
        ensures
            decoder.data() == Seq::<u8>::empty(),
            decoder.position() == 0,
    {
        BinaryDecoder { data: Vec::new(), index: 0 }
    }
}

impl BinaryDecoder {
    /// The payload.
    pub closed spec fn data(&self) -> Seq<u8> {
        self.data@
    }

    /// The position of the cursor: the number of bytes read.
    pub closed spec fn position(&self) -> int {
        self.index as int
    }

    /// Whether `self` is the decoder `before` after it read `taken` bytes.
    pub open spec fn follows(&self, before: &Self, taken: nat) -> bool {
        self.data() == before.data() && self.position() == before.position() + taken
    }

    /// A decoder at the start of a copy of `data`.
    pub fn new(data: &Vec<u8>) -> (decoder: Self)
        ensures
            decoder.data() == data@,
            decoder.position() == 0,
    {
        BinaryDecoder { data: data.clone(), index: 0 }
    }

    /// Fails with `ErrUnexpectedEnd` unless `length` bytes are left.
    pub fn check_eos(&self, length: usize) -> (checked: Result<(), DecoderError>)
        ensures
            checked is Ok <==> available(self.data(), self.position(), length as int),
            checked is Ok ==> self.position() + length <= usize::MAX,
            checked is Err ==> checked == Err::<(), DecoderError>(DecoderError::ErrUnexpectedEnd),
    {
        if self.index > self.data.len() || length > self.data.len() - self.index {
            return Err(DecoderError::ErrUnexpectedEnd);
        }
        Ok(())
    }

    /// Reads one byte.
    pub fn read_byte(&mut self) -> (byte: Result<u8, DecoderError>)
        ensures
            match byte {
                Ok(b) => {
                    &&& available(old(self).data(), old(self).position(), 1)
                    &&& b == old(self).data()[old(self).position()]
                    &&& final(self).follows(old(self), 1)
                },
                Err(e) => !available(old(self).data(), old(self).position(), 1) && e
                    == DecoderError::ErrUnexpectedEnd && final(self).follows(old(self), 0),
            },
    {
        match self.check_eos(1) {
            Err(e) => Err(e),
            Ok(_) => {
                let b = self.data[self.index];
                self.index += 1;
                Ok(b)
            },
        }
    }

    /// Reads `n` bytes as an unsigned number.
    fn read_uint(&mut self, n: usize, little_endian: bool) -> (value: Result<u32, DecoderError>)
        requires
            n <= 4,
        ensures
            match value {
                Ok(v) => parse_uint(
                    old(self).data(),
                    old(self).position(),
                    n as int,
                    little_endian,
                ) == Ok::<(int, nat), DecoderError>((v as int, n as nat)) && final(self).follows(
                    old(self),
                    n as nat,
                ),
                Err(e) => parse_uint(
                    old(self).data(),
                    old(self).position(),
                    n as int,
                    little_endian,
                ) == Err::<(int, nat), DecoderError>(e) && final(self).follows(old(self), 0),
            },
    {
        match self.check_eos(n) {
            Err(e) => Err(e),
            Ok(_) => {
                let start = self.index;
                let mut acc: u64 = 0;
                let mut i: usize = 0;
                while i < n
                    invariant
                        i <= n <= 4,
                        start == self.index,
                        start + n <= self.data.len(),
                        acc < uint_bound(i as int),
                        little_endian ==> acc == uint_at(
                            self.data@,
                            start + n - i,
                            i as int,
                            true,
                        ),
                        !little_endian ==> acc == uint_at(self.data@, start as int, i as int, false),
                    decreases n - i,
                {
                    let byte = if little_endian {
                        self.data[start + n - i - 1]
                    } else {
                        self.data[start + i]
                    };
                    acc = acc * 256 + byte as u64;
                    i += 1;
                }
                self.index += n;
                Ok(acc as u32)
            },
        }
    }

    /// Reads `n` bytes as a number, lowest byte first where `little_endian`
    /// holds, highest first else. The top bit of four bytes is the sign.
    pub fn read_i_n(&mut self, n: usize, little_endian: bool) -> (value: Result<i32, DecoderError>)
        requires
            n <= 4,
        ensures
            match value {
                Ok(v) => available(old(self).data(), old(self).position(), n as int) && v
                    == as_signed32(
                    uint_at(old(self).data(), old(self).position(), n as int, little_endian),
                ) && final(self).follows(old(self), n as nat),
                Err(e) => !available(old(self).data(), old(self).position(), n as int) && e
                    == DecoderError::ErrUnexpectedEnd && final(self).follows(old(self), 0),
            },
    {
        match self.read_uint(n, little_endian) {
            Err(e) => Err(e),
            Ok(v) => {
                if v < 0x8000_0000 {
                    Ok(v as i32)
                } else {
                    Ok((v as i64 - 0x1_0000_0000) as i32)
                }
            },
        }
    }

    /// Reads one byte as a number.
    pub fn read_i_8(&mut self, little_endian: bool) -> (value: Result<i32, DecoderError>)
        ensures
            match value {
                Ok(v) => {
                    &&& available(old(self).data(), old(self).position(), 1)
                    &&& v == old(self).data()[old(self).position()]
                    &&& final(self).follows(old(self), 1)
                },
                Err(e) => !available(old(self).data(), old(self).position(), 1) && e
                    == DecoderError::ErrUnexpectedEnd && final(self).follows(old(self), 0),
            },
    {
        proof {
            reveal_with_fuel(uint_at, 2);
        }
        self.read_i_n(1, little_endian)
    }

    /// Reads two bytes as a number.
    pub fn read_i_16(&mut self, little_endian: bool) -> (value: Result<i32, DecoderError>)
        ensures
            match value {
                Ok(v) => available(old(self).data(), old(self).position(), 2) && v == uint_at(
                    old(self).data(),
                    old(self).position(),
                    2,
                    little_endian,
                ) && final(self).follows(old(self), 2),
                Err(e) => !available(old(self).data(), old(self).position(), 2) && e
                    == DecoderError::ErrUnexpectedEnd && final(self).follows(old(self), 0),
            },
    {
        proof {
            lemma_uint_at_bound(self.data(), self.position(), 2, little_endian);
        }
        self.read_i_n(2, little_endian)
    }

    /// Reads three bytes as a twenty-bit number.
    pub fn read_i_20(&mut self) -> (value: Result<i32, DecoderError>)
        ensures
            match value {
                Ok(v) => parse_uint20(old(self).data(), old(self).position()) == Ok::<
                    (int, nat),
                    DecoderError,
                >((v as int, 3nat)) && final(self).follows(old(self), 3),
                Err(e) => parse_uint20(old(self).data(), old(self).position()) == Err::<
                    (int, nat),
                    DecoderError,
                >(e) && final(self).follows(old(self), 0),
            },
    {
        match self.check_eos(3) {
            Err(e) => Err(e),
            Ok(_) => {
                let high: i32 = (self.data[self.index] % 16) as i32;
                let middle: i32 = self.data[self.index + 1] as i32;
                let low: i32 = self.data[self.index + 2] as i32;
                self.index += 3;
                Ok(high * 65536 + middle * 256 + low)
            },
        }
    }

    /// Reads four bytes as a number; the top bit is the sign.
    pub fn read_i_32(&mut self, little_endian: bool) -> (value: Result<i32, DecoderError>)
        ensures
            match value {
                Ok(v) => available(old(self).data(), old(self).position(), 4) && v
                    == as_signed32(
                    uint_at(old(self).data(), old(self).position(), 4, little_endian),
                ) && final(self).follows(old(self), 4),
                Err(e) => !available(old(self).data(), old(self).position(), 4) && e
                    == DecoderError::ErrUnexpectedEnd && final(self).follows(old(self), 0),
            },
    {
        self.read_i_n(4, little_endian)
    }

    /// The symbol that four bits stand for under `NIBBLE8`.
    pub fn unpack_nibble(value: u8) -> (symbol: Result<u8, DecoderError>)
        ensures
            symbol == unpack_nibble_spec(value),
    {
        if value < 10 {
            Ok(48 + value)
        } else if value == 10 {
            Ok(45)
        } else if value == 11 {
            Ok(46)
        } else if value == 15 {
            Ok(0)
        } else {
            Err(DecoderError::ErrInvalidToken)
        }
    }

    /// The symbol that four bits stand for under `HEX8`.
    pub fn unpack_hex(value: u8) -> (symbol: Result<u8, DecoderError>)
        ensures
            symbol == unpack_hex_spec(value),
    {
        if value < 10 {
            Ok(48 + value)
        } else if value < 16 {
            Ok(65 + value - 10)
        } else {
            Err(DecoderError::ErrInvalidToken)
        }
    }

    /// The symbol that four bits stand for under the packed form `tag`.
    pub fn unpack_byte(tag: u8, value: u8) -> (symbol: Result<u8, DecoderError>)
        ensures
            symbol == unpack_byte_spec(tag, value),
    {
        if tag == NIBBLE8 {
            Self::unpack_nibble(value)
        } else if tag == HEX8 {
            Self::unpack_hex(value)
        } else {
            Err(DecoderError::ErrInvalidToken)
        }
    }

    /// Reads a packed string of the form `tag`.
    pub fn read_packed_8(&mut self, tag: u8) -> (text: Result<String, DecoderError>)
        ensures
            final(self).data() == old(self).data(),
            match text {
                Ok(s) => final(self).position() >= old(self).position() && parse_packed(
                    old(self).data(),
                    old(self).position(),
                    tag,
                ) == Ok::<(Seq<char>, nat), DecoderError>(
                    (s@, (final(self).position() - old(self).position()) as nat),
                ),
                Err(e) => parse_packed(old(self).data(), old(self).position(), tag) == Err::<
                    (Seq<char>, nat),
                    DecoderError,
                >(e),
            },
    {
        let ghost data = self.data();
        let ghost pos = self.position();
        let start_byte = match self.read_byte() {
            Ok(b) => b,
            Err(e) => {
                return Err(e);
            },
        };
        let count: u8 = start_byte % 128;
        let mut bytes: Vec<u8> = Vec::new();
        let mut k: u8 = 0;
        while k < count
            invariant
                k <= count,
                self.data() == data,
                data == old(self).data(),
                pos == old(self).position(),
                available(data, pos, 1),
                start_byte == data[pos],
                count == start_byte % 128,
                self.position() == pos + 1 + k,
                parse_packed_symbols(data, pos + 1, k as int, tag) == Ok::<Seq<u8>, DecoderError>(
                    bytes@,
                ),
            decreases count - k,
        {
            let curr_byte = match self.read_byte() {
                Ok(b) => b,
                Err(e) => {
                    proof {
                        lemma_parse_packed_error_stays(data, pos + 1, k + 1, count as int, tag);
                    }
                    return Err(e);
                },
            };
            let first = match Self::unpack_byte(tag, curr_byte / 16) {
                Ok(symbol) => symbol,
                Err(e) => {
                    proof {
                        lemma_parse_packed_error_stays(data, pos + 1, k + 1, count as int, tag);
                    }
                    return Err(e);
                },
            };
            let second = match Self::unpack_byte(tag, curr_byte % 16) {
                Ok(symbol) => symbol,
                Err(e) => {
                    proof {
                        lemma_parse_packed_error_stays(data, pos + 1, k + 1, count as int, tag);
                    }
                    return Err(e);
                },
            };
            bytes.push(first);
            bytes.push(second);
            k += 1;
        }
        proof {
            lemma_parse_packed_symbols(data, pos + 1, count as int, tag);
        }
        if start_byte >= 128 {
            if count == 0 {
                return Err(DecoderError::ErrInvalidToken);
            }
            bytes.pop();
        }
        Ok(string_from_ascii(bytes))
    }

    /// Reads the size of a list whose tag is `tag`.
    pub fn read_list_size(&mut self, tag: u8) -> (size: Result<i32, DecoderError>)
        ensures
            final(self).data() == old(self).data(),
            match size {
                Ok(n) => 0 <= n <= 65535 && final(self).position() >= old(self).position()
                    && parse_list_size(old(self).data(), old(self).position(), tag) == Ok::<
                    (int, nat),
                    DecoderError,
                >((n as int, (final(self).position() - old(self).position()) as nat)),
                Err(e) => parse_list_size(old(self).data(), old(self).position(), tag) == Err::<
                    (int, nat),
                    DecoderError,
                >(e),
            },
    {
        proof {
            reveal_with_fuel(uint_at, 3);
        }
        if tag == LIST_EMPTY {
            Ok(0)
        } else if tag == LIST8 {
            self.read_i_8(false)
        } else if tag == LIST16 {
            self.read_i_16(false)
        } else {
            Err(DecoderError::ErrInvalidToken)
        }
    }

    /// Reads `length` raw bytes.
    pub fn read_bytes(&mut self, length: usize) -> (bytes: Result<Vec<u8>, DecoderError>)
        ensures
            match bytes {
                Ok(b) => parse_bytes(old(self).data(), old(self).position(), length as int)
                    == Ok::<(Seq<u8>, nat), DecoderError>((b@, length as nat)) && final(self).follows(
                    old(self),
                    length as nat,
                ),
                Err(e) => parse_bytes(old(self).data(), old(self).position(), length as int)
                    == Err::<(Seq<u8>, nat), DecoderError>(e) && final(self).follows(old(self), 0),
            },
    {
        match self.check_eos(length) {
            Err(e) => Err(e),
            Ok(_) => {
                let return_value = slice_to_vec(
                    slice_subrange(self.data.as_slice(), self.index, self.index + length),
                );
                self.index += length;
                Ok(return_value)
            },
        }
    }

    /// Reads `length` bytes as a string.
    pub fn read_string(&mut self, length: usize) -> (text: Result<String, DecoderError>)
        ensures
            final(self).data() == old(self).data(),
            match text {
                Ok(s) => parse_string(old(self).data(), old(self).position(), length as int)
                    == Ok::<(Seq<char>, nat), DecoderError>((s@, length as nat)) && final(self).follows(
                    old(self),
                    length as nat,
                ),
                Err(e) => parse_string(old(self).data(), old(self).position(), length as int)
                    == Err::<(Seq<char>, nat), DecoderError>(e),
            },
    {
        match self.read_bytes(length) {
            Err(e) => Err(e),
            Ok(bytes) => match string_from_utf8(bytes) {
                Some(text) => Ok(text),
                None => Err(DecoderError::ErrInvalidUtf8),
            },
        }
    }

    /// Reads the block that follows the tag `tag`.
    fn read_block(&mut self, tag: u8, as_string: bool) -> (block: Result<
        NodeContentType,
        DecoderError,
    >)
        requires
            tag == BINARY8 || tag == BINARY20 || tag == BINARY32,
        ensures
            final(self).data() == old(self).data(),
            match block {
                Ok(v) => final(self).position() >= old(self).position() && parse_block(
                    old(self).data(),
                    old(self).position(),
                    tag,
                    as_string,
                ) == Ok::<(ContentView, nat), DecoderError>(
                    (v@, (final(self).position() - old(self).position()) as nat),
                ),
                Err(e) => parse_block(old(self).data(), old(self).position(), tag, as_string)
                    == Err::<(ContentView, nat), DecoderError>(e),
            },
    {
        proof {
            reveal_with_fuel(uint_at, 2);
        }
        let size: usize = if tag == BINARY8 {
            match self.read_uint(1, false) {
                Ok(n) => n as usize,
                Err(e) => {
                    return Err(e);
                },
            }
        } else if tag == BINARY20 {
            match self.read_i_20() {
                Ok(n) => n as usize,
                Err(e) => {
                    return Err(e);
                },
            }
        } else {
            match self.read_uint(4, false) {
                Ok(n) => n as usize,
                Err(e) => {
                    return Err(e);
                },
            }
        };
        if as_string {
            match self.read_string(size) {
                Ok(s) => Ok(NodeContentType::String(s)),
                Err(e) => Err(e),
            }
        } else {
            match self.read_bytes(size) {
                Ok(b) => Ok(NodeContentType::ByteArray(b)),
                Err(e) => Err(e),
            }
        }
    }

    /// Reads one value: a tag byte, and what the tag announces. A block of
    /// bytes is given as a string where `as_string` holds.
    pub fn read(&mut self, as_string: bool) -> (value: Result<NodeContentType, DecoderError>)
        ensures
            final(self).data() == old(self).data(),
            match value {
                Ok(v) => final(self).position() >= old(self).position() && parse_value(
                    old(self).data(),
                    old(self).position(),
                    as_string,
                ) == Ok::<(ContentView, nat), DecoderError>(
                    (v@, (final(self).position() - old(self).position()) as nat),
                ),
                Err(e) => parse_value(old(self).data(), old(self).position(), as_string) == Err::<
                    (ContentView, nat),
                    DecoderError,
                >(e),
            },
        decreases left(old(self).data(), old(self).position()), 0int,
    {
        proof {
            lemma_parse_value(self.data(), self.position(), as_string);
        }
        let tag_byte = match self.read_byte() {
            Ok(b) => b,
            Err(e) => {
                return Err(e);
            },
        };
        if tag_byte == LIST_EMPTY {
            Ok(NodeContentType::Absent)
        } else if tag_byte == LIST8 || tag_byte == LIST16 {
            match self.read_list(tag_byte) {
                Ok(nodes) => Ok(NodeContentType::ListOfNodes(nodes)),
                Err(e) => Err(e),
            }
        } else if tag_byte == BINARY8 || tag_byte == BINARY20 || tag_byte == BINARY32 {
            self.read_block(tag_byte, as_string)
        } else if tag_byte >= DICTIONARY0 && tag_byte <= DICTIONARY3 {
            let i = match self.read_byte() {
                Ok(b) => b,
                Err(e) => {
                    return Err(e);
                },
            };
            match get_double_token(tag_byte - DICTIONARY0, i) {
                Ok(token) => Ok(NodeContentType::String(token)),
                Err(e) => Err(e),
            }
        } else if tag_byte == JID_PAIR {
            match self.read_jid_pair() {
                Ok(jid) => Ok(NodeContentType::JID(jid)),
                Err(e) => Err(e),
            }
        } else if tag_byte == ADJID {
            match self.read_ad_jid() {
                Ok(jid) => Ok(NodeContentType::JID(jid)),
                Err(e) => Err(e),
            }
        } else if tag_byte == NIBBLE8 || tag_byte == HEX8 {
            match self.read_packed_8(tag_byte) {
                Ok(text) => Ok(NodeContentType::String(text)),
                Err(e) => Err(e),
            }
        } else {
            match get_single_token(tag_byte) {
                Ok(token) => Ok(NodeContentType::String(token)),
                Err(e) => Err(e),
            }
        }
    }

    /// Reads the two parts of an identifier of the pair form.
    pub fn read_jid_pair(&mut self) -> (jid: Result<JID, DecoderError>)
        ensures
            final(self).data() == old(self).data(),
            match jid {
                Ok(j) => final(self).position() >= old(self).position() && parse_jid_pair(
                    old(self).data(),
                    old(self).position(),
                ) == Ok::<(JidView, nat), DecoderError>(
                    (j@, (final(self).position() - old(self).position()) as nat),
                ),
                Err(e) => parse_jid_pair(old(self).data(), old(self).position()) == Err::<
                    (JidView, nat),
                    DecoderError,
                >(e),
            },
        decreases left(old(self).data(), old(self).position()), 1int,
    {
        proof {
            lemma_parse_jid_pair(self.data(), self.position());
        }
        let user = match self.read(true) {
            Ok(v) => v,
            Err(e) => {
                return Err(e);
            },
        };
        let server = match self.read(true) {
            Ok(v) => v,
            Err(e) => {
                return Err(e);
            },
        };
        match server {
            NodeContentType::String(s) => match user {
                NodeContentType::Absent => {
                    proof {
                        reveal_strlit("");
                        assert(""@ =~= Seq::<char>::empty());
                    }
                    Ok(JID::new("", s.as_str()))
                },
                NodeContentType::String(u) => Ok(JID::new(u.as_str(), s.as_str())),
                _ => Err(DecoderError::ErrInvalidJIDType),
            },
            _ => Err(DecoderError::ErrInvalidJIDType),
        }
    }

    /// Reads the parts of a device identifier.
    pub fn read_ad_jid(&mut self) -> (jid: Result<JID, DecoderError>)
        ensures
            final(self).data() == old(self).data(),
            match jid {
                Ok(j) => final(self).position() >= old(self).position() && parse_ad_jid(
                    old(self).data(),
                    old(self).position(),
                ) == Ok::<(JidView, nat), DecoderError>(
                    (j@, (final(self).position() - old(self).position()) as nat),
                ),
                Err(e) => parse_ad_jid(old(self).data(), old(self).position()) == Err::<
                    (JidView, nat),
                    DecoderError,
                >(e),
            },
        decreases left(old(self).data(), old(self).position()), 1int,
    {
        proof {
            lemma_parse_ad_jid(self.data(), self.position());
        }
        let agent = match self.read_byte() {
            Ok(b) => b,
            Err(e) => {
                return Err(e);
            },
        };
        let device = match self.read_byte() {
            Ok(b) => b,
            Err(e) => {
                return Err(e);
            },
        };
        let user = match self.read(true) {
            Ok(v) => v,
            Err(e) => {
                return Err(e);
            },
        };
        match user {
            NodeContentType::String(u) => Ok(JID::new_ad(u.as_str(), agent, device)),
            _ => Err(DecoderError::ErrInvalidJIDType),
        }
    }

    /// Reads `n` attributes, each a key and a value.
    pub fn read_attributes(&mut self, n: i32) -> (attributes: Result<Attrs, DecoderError>)
        ensures
            final(self).data() == old(self).data(),
            match attributes {
                Ok(a) => final(self).position() >= old(self).position() && unique_keys(a@)
                    && parse_attrs(old(self).data(), old(self).position(), n as int) == Ok::<
                    (Seq<AttrEntryView>, nat),
                    DecoderError,
                >((a@, (final(self).position() - old(self).position()) as nat)),
                Err(e) => parse_attrs(old(self).data(), old(self).position(), n as int) == Err::<
                    (Seq<AttrEntryView>, nat),
                    DecoderError,
                >(e),
            },
        decreases left(old(self).data(), old(self).position()), 2int,
    {
        let ghost data = self.data();
        let ghost pos = self.position();
        proof {
            lemma_parse_attrs(data, pos, 0);
            if n < 0 {
                lemma_parse_attrs(data, pos, n as int);
            }
        }
        let mut attrs = Attrs::new();
        let mut i: i32 = 0;
        while i < n
            invariant
                0 <= i,
                i <= n || n < 0,
                n < 0 ==> i == 0,
                self.data() == data,
                self.position() >= pos,
                data == old(self).data(),
                pos == old(self).position(),
                unique_keys(attrs@),
                parse_attrs(data, pos, i as int) == Ok::<(Seq<AttrEntryView>, nat), DecoderError>(
                    (attrs@, (self.position() - pos) as nat),
                ),
            decreases n - i,
        {
            proof {
                lemma_parse_attrs(data, pos, i + 1);
            }
            let key_ifc = match self.read(true) {
                Ok(v) => v,
                Err(e) => {
                    proof {
                        lemma_parse_attrs_error_stays(data, pos, i + 1, n as int);
                    }
                    return Err(e);
                },
            };
            match key_ifc {
                NodeContentType::String(key) => {
                    let value = match self.read(true) {
                        Ok(v) => v,
                        Err(e) => {
                            proof {
                                lemma_parse_attrs_error_stays(data, pos, i + 1, n as int);
                            }
                            return Err(e);
                        },
                    };
                    match value {
                        NodeContentType::JID(j) => {
                            attrs.insert(key, AttributeTypes::JID(j));
                        },
                        NodeContentType::String(s) => {
                            attrs.insert(key, AttributeTypes::String(s));
                        },
                        _ => {
                            proof {
                                lemma_parse_attrs_error_stays(data, pos, i + 1, n as int);
                            }
                            return Err(DecoderError::ErrInvalidType);
                        },
                    }
                },
                _ => {
                    proof {
                        lemma_parse_attrs_error_stays(data, pos, i + 1, n as int);
                    }
                    return Err(DecoderError::ErrNonStringKey);
                },
            }
            i += 1;
        }
        Ok(attrs)
    }

    /// Reads the list that follows the tag `tag`: its size, then that many
    /// elements.
    pub fn read_list(&mut self, tag: u8) -> (nodes: Result<Vec<Node>, DecoderError>)
        ensures
            final(self).data() == old(self).data(),
            match nodes {
                Ok(list) => final(self).position() >= old(self).position() && parse_list(
                    old(self).data(),
                    old(self).position(),
                    tag,
                ) == Ok::<(Seq<crate::binary::node::NodeView>, nat), DecoderError>(
                    (
                        nodes_view(list@, list@.len() as int),
                        (final(self).position() - old(self).position()) as nat,
                    ),
                ),
                Err(e) => parse_list(old(self).data(), old(self).position(), tag) == Err::<
                    (Seq<crate::binary::node::NodeView>, nat),
                    DecoderError,
                >(e),
            },
        decreases left(old(self).data(), old(self).position()), 3int,
    {
        let ghost data = self.data();
        let ghost pos = self.position();
        proof {
            lemma_parse_list(data, pos, tag);
        }
        let size = match self.read_list_size(tag) {
            Ok(n) => n,
            Err(e) => {
                return Err(e);
            },
        };
        let ghost start = self.position();
        proof {
            lemma_parse_nodes(data, start, 0);
        }
        let mut nodes: Vec<Node> = Vec::new();
        let mut i: i32 = 0;
        while i < size
            invariant
                0 <= i <= size,
                self.data() == data,
                self.position() >= start >= pos,
                parse_list_size(data, pos, tag) == Ok::<(int, nat), DecoderError>(
                    (size as int, (start - pos) as nat),
                ),
                data == old(self).data(),
                pos == old(self).position(),
                nodes@.len() == i,
                parse_nodes(data, start, i as int) == Ok::<
                    (Seq<crate::binary::node::NodeView>, nat),
                    DecoderError,
                >((nodes_view(nodes@, i as int), (self.position() - start) as nat)),
            decreases size - i,
        {
            proof {
                lemma_parse_nodes(data, start, i + 1);
            }
            let ghost before = nodes@;
            let node = match self.read_node() {
                Ok(node) => node,
                Err(e) => {
                    proof {
                        lemma_parse_nodes_error_stays(data, start, i + 1, size as int);
                        lemma_parse_list(data, pos, tag);
                    }
                    return Err(e);
                },
            };
            nodes.push(node);
            proof {
                lemma_nodes_view(before, i as int);
                lemma_nodes_view(nodes@, i as int);
                assert(nodes_view(nodes@, i as int) =~= nodes_view(before, i as int));
            }
            i += 1;
        }
        Ok(nodes)
    }

    /// Reads one element.
    pub fn read_node(&mut self) -> (node: Result<Node, DecoderError>)
        ensures
            final(self).data() == old(self).data(),
            match node {
                Ok(n) => final(self).position() > old(self).position() && parse_node(
                    old(self).data(),
                    old(self).position(),
                ) == Ok::<(crate::binary::node::NodeView, nat), DecoderError>(
                    (n@, (final(self).position() - old(self).position()) as nat),
                ),
                Err(e) => parse_node(old(self).data(), old(self).position()) == Err::<
                    (crate::binary::node::NodeView, nat),
                    DecoderError,
                >(e),
            },
        decreases left(old(self).data(), old(self).position()), 1int,
    {
        proof {
            lemma_parse_node(self.data(), self.position());
        }
        let size = match self.read_byte() {
            Ok(b) => b,
            Err(e) => {
                return Err(e);
            },
        };
        let list_size = match self.read_list_size(size) {
            Ok(n) => n,
            Err(e) => {
                return Err(e);
            },
        };
        if list_size == 0 {
            return Err(DecoderError::ErrInvalidNode);
        }
        let raw_description = match self.read(true) {
            Ok(v) => v,
            Err(e) => {
                return Err(e);
            },
        };
        match raw_description {
            NodeContentType::String(s) => {
                if s.as_str().is_empty() {
                    return Err(DecoderError::ErrInvalidNode);
                }
                let attributes = match self.read_attributes((list_size - 1) / 2) {
                    Ok(a) => a,
                    Err(e) => {
                        return Err(e);
                    },
                };
                if list_size % 2 == 1 {
                    return Ok(Node { tag: s, attrs: attributes, content: NodeContentType::Absent });
                }
                let content = match self.read(false) {
                    Ok(v) => v,
                    Err(e) => {
                        return Err(e);
                    },
                };
                Ok(Node { tag: s, attrs: attributes, content })
            },
            _ => Err(DecoderError::ErrInvalidNode),
        }
    }
}

} // verus!
