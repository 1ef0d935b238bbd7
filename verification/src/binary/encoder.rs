//! The encoder: writes elements as bytes.

use crate::binary::attrs::{AttributeTypes, Attrs};
use crate::binary::node::{lemma_nodes_view, Node, NodeContentType, nodes_view};
use crate::binary::token::{
    ADJID, BINARY20, BINARY32, BINARY8, DICTIONARY0, HEX8, index_of_double_token,
    index_of_single_token, JID_PAIR, lemma_double_index, LIST16, LIST8, LIST_EMPTY, NIBBLE8,
    PACKED_MAX,
};
use crate::binary::wire::{
    attr_encodable, attrs_encodable, byte_length, content_encodable, encode_attr, encode_attrs,
    encode_content, encode_jid, encode_node, encode_nodes, encode_text, hex_code, int20_bytes,
    int_byte, int_bytes, is_hex_char, is_hex_symbol, is_hex_text, is_nibble_char, is_nibble_symbol,
    is_nibble_text, is_packed_symbol, jid_encodable, list_start, max_block_length, nibble_code,
    node_encodable, nodes_encodable, packable, packed_length_byte, packed_pair, packed_payload,
    packed_text, pow256, raw_text, text_encodable,
};
use crate::text::{
    i64_to_string, lemma_ascii_text_bytes, lemma_decimal_text_short, str_chars, str_eq,
    u64_to_string,
};
use crate::types::jid::JID;
use vstd::prelude::*;
use vstd::string::*;
use vstd::utf8::*;

verus! {

/// A buffer of bytes that only grows, and the writers of the wire format.
pub struct BinaryEncoder {
    data: Vec<u8>,
}

impl View for BinaryEncoder {
    type V = Seq<u8>;

    closed spec fn view(&self) -> Seq<u8> {
        self.data@
    }
}

impl Default for BinaryEncoder {
    fn default() -> (encoder: Self)
        ensures
            encoder@ == Seq::<u8>::empty(),
    {
        BinaryEncoder { data: Vec::new() }
    }
}

/// A string of one of the two packed alphabets can be packed.
pub proof fn lemma_packable(s: Seq<char>)
    ensures
        is_nibble_text(s) ==> packable(NIBBLE8, s) && is_ascii_chars(s),
        is_hex_text(s) ==> packable(HEX8, s) && is_ascii_chars(s),
{
    if is_nibble_text(s) {
        assert forall|i: int| 0 <= i < s.len() implies (#[trigger] s[i]) as u32 <= 127
            && is_packed_symbol(NIBBLE8, s[i] as u8) by {
            assert(is_nibble_char(s[i]));
        }
        assert forall|i: int| 0 <= i < s.len() implies '\0' <= #[trigger] s[i] <= '\u{7f}' by {
            assert(is_nibble_char(s[i]));
        }
    }
    if is_hex_text(s) {
        assert forall|i: int| 0 <= i < s.len() implies (#[trigger] s[i]) as u32 <= 127
            && is_packed_symbol(HEX8, s[i] as u8) by {
            assert(is_hex_char(s[i]));
        }
        assert forall|i: int| 0 <= i < s.len() implies '\0' <= #[trigger] s[i] <= '\u{7f}' by {
            assert(is_hex_char(s[i]));
        }
    }
}

/// Each of the first `k` elements of a list that can be written can be.
pub proof fn lemma_nodes_encodable(nodes: Seq<crate::binary::node::NodeView>, k: int, i: int)
    requires
        0 <= i < k <= nodes.len(),
        nodes_encodable(nodes, k),
    ensures
        node_encodable(nodes[i]),
    decreases k,
{
    if i < k - 1 {
        lemma_nodes_encodable(nodes, k - 1, i);
    }
}

/// Byte `k` of a 32-bit number is byte `k` of the number plus 2 to the 32.
pub proof fn lemma_int_byte_unsigned(value: int, k: int)
    requires
        0 <= k <= 3,
    ensures
        int_byte(value, k) == ((value + 0x1_0000_0000) / pow256(k)) % 256,
{
    if k == 0 {
        assert((value + 0x1_0000_0000) / 1 == value / 1 + 0x1_0000_0000);
    } else if k == 1 {
        assert((value + 0x1_0000_0000) / 256 == value / 256 + 0x100_0000);
    } else if k == 2 {
        assert((value + 0x1_0000_0000) / 65536 == value / 65536 + 0x1_0000);
    } else {
        assert((value + 0x1_0000_0000) / 16777216 == value / 16777216 + 0x100);
    }
}

/// The bytes of a number, highest first, one by one.
pub proof fn lemma_int_bytes_big_endian(value: int)
    ensures
        int_bytes(value, 1, false) == seq![int_byte(value, 0)],
        int_bytes(value, 2, false) == seq![int_byte(value, 1), int_byte(value, 0)],
        int_bytes(value, 4, false) == seq![
            int_byte(value, 3),
            int_byte(value, 2),
            int_byte(value, 1),
            int_byte(value, 0),
        ],
{
    assert(int_bytes(value, 1, false) =~= seq![int_byte(value, 0)]);
    assert(int_bytes(value, 2, false) =~= seq![int_byte(value, 1), int_byte(value, 0)]);
    assert(int_bytes(value, 4, false) =~= seq![
        int_byte(value, 3),
        int_byte(value, 2),
        int_byte(value, 1),
        int_byte(value, 0),
    ]);
}

/// Byte `k` of a number, for `k` up to 3.
fn byte_of(value: i32, k: i32) -> (byte: u8)
    requires
        0 <= k <= 3,
    ensures
        byte == int_byte(value as int, k as int),
{
    let unsigned: i64 = value as i64 + 0x1_0000_0000;
    let scale: i64 = if k == 0 {
        1
    } else if k == 1 {
        256
    } else if k == 2 {
        65536
    } else {
        16777216
    };
    proof {
        lemma_int_byte_unsigned(value as int, k as int);
    }
    ((unsigned / scale) % 256) as u8
}

impl BinaryEncoder {
    /// A buffer that holds the one byte that tells an uncompressed payload.
    pub fn new() -> (encoder: Self)
        ensures
            encoder@ == seq![0u8],
    {
        let mut enc = Self::default();
        enc.push_byte(0);
        assert(enc@ =~= seq![0u8]);
        enc
    }

    /// The bytes written so far.
    pub fn get_data(&self) -> (data: Vec<u8>)
        ensures
            data@ == self@,
    {
        self.data.clone()
    }

    /// Appends one byte.
    pub fn push_byte(&mut self, byte: u8)
        ensures
            final(self)@ == old(self)@.push(byte),
    {
        self.data.push(byte)
    }

    /// Appends the bytes of `bytes` and leaves it empty.
    pub fn push_bytes(&mut self, bytes: &mut Vec<u8>)
        ensures
            final(self)@ == old(self)@ + old(bytes)@,
            final(bytes)@ == Seq::<u8>::empty(),
    {
        self.data.append(bytes)
    }

    /// Appends the `n` lowest bytes of `value`, lowest first where
    /// `little_endian` holds, highest first else.
    pub fn push_i_n(&mut self, value: i32, n: i32, little_endian: bool)
        requires
            0 <= n <= 4,
        ensures
            final(self)@ == old(self)@ + int_bytes(value as int, n as int, little_endian),
    {
        let mut i: i32 = 0;
        assert(self@ =~= old(self)@ + int_bytes(value as int, n as int, little_endian).subrange(0, 0));
        while i < n
            invariant
                0 <= i <= n <= 4,
                self@ == old(self)@ + int_bytes(value as int, n as int, little_endian).subrange(
                    0,
                    i as int,
                ),
            decreases n - i,
        {
            let current_shift: i32 = if little_endian {
                i
            } else {
                n - i - 1
            };
            let byte = byte_of(value, current_shift);
            self.push_byte(byte);
            assert(self@ =~= old(self)@ + int_bytes(value as int, n as int, little_endian).subrange(
                0,
                i + 1,
            ));
            i += 1;
        }
        assert(int_bytes(value as int, n as int, little_endian).subrange(0, n as int)
            =~= int_bytes(value as int, n as int, little_endian));
    }

    /// Appends the twenty lowest bits of `value` as three bytes.
    pub fn push_i_20(&mut self, value: i32)
        ensures
            final(self)@ == old(self)@ + int20_bytes(value as int),
    {
        let high: u8 = byte_of(value, 2) % 16;
        let middle: u8 = byte_of(value, 1);
        let low: u8 = byte_of(value, 0);
        assert(high == (value / 65536) % 16);
        self.push_byte(high);
        self.push_byte(middle);
        self.push_byte(low);
        assert(self@ =~= old(self)@ + int20_bytes(value as int));
    }

    /// Appends the lowest byte of `value`.
    pub fn push_i_8(&mut self, value: i32)
        ensures
            final(self)@ == old(self)@ + int_bytes(value as int, 1, false),
    {
        self.push_i_n(value, 1, false)
    }

    /// Appends the two lowest bytes of `value`, the higher first.
    pub fn push_i_16(&mut self, value: i32)
        ensures
            final(self)@ == old(self)@ + int_bytes(value as int, 2, false),
    {
        self.push_i_n(value, 2, false)
    }

    /// Appends the four bytes of `value`, highest first.
    pub fn push_i_32(&mut self, value: i32)
        ensures
            final(self)@ == old(self)@ + int_bytes(value as int, 4, false),
    {
        self.push_i_n(value, 4, false)
    }

    /// Appends the UTF-8 bytes of a string.
    pub fn push_string(&mut self, value: &str)
        ensures
            final(self)@ == old(self)@ + encode_utf8(value@),
    {
        self.data.extend_from_slice(value.as_bytes());
    }

    /// Writes the length prefix of a block of `length` bytes, in the
    /// smallest size class that holds it.
    pub fn write_byte_length(&mut self, length: usize)
        requires
            length <= max_block_length(),
        ensures
            final(self)@ == old(self)@ + byte_length(length as int),
    {
        proof {
            lemma_int_bytes_big_endian(length as int);
        }
        if length < 256 {
            self.push_byte(BINARY8);
            self.push_i_8(length as i32);
            assert(int_byte(length as int, 0) == length as u8);
            assert(self@ =~= old(self)@ + seq![BINARY8, length as u8]);
        } else if length < 0x10_0000 {
            self.push_byte(BINARY20);
            self.push_i_20(length as i32);
            assert(int20_bytes(length as int) =~= seq![
                (length / 65536) as u8,
                ((length / 256) % 256) as u8,
                (length % 256) as u8,
            ]);
            assert(self@ =~= old(self)@ + seq![
                BINARY20,
                (length / 65536) as u8,
                ((length / 256) % 256) as u8,
                (length % 256) as u8,
            ]);
        } else {
            self.push_byte(BINARY32);
            self.push_i_32(length as i32);
            assert(int_byte(length as int, 3) == (length / 16777216) as u8);
            assert(int_byte(length as int, 2) == ((length / 65536) % 256) as u8);
            assert(int_byte(length as int, 1) == ((length / 256) % 256) as u8);
            assert(int_byte(length as int, 0) == (length % 256) as u8);
            assert(self@ =~= old(self)@ + seq![
                BINARY32,
                (length / 16777216) as u8,
                ((length / 65536) % 256) as u8,
                ((length / 256) % 256) as u8,
                (length % 256) as u8,
            ]);
        }
    }

    /// Writes the start of a list of `list_size` items.
    pub fn write_list_start(&mut self, list_size: i32)
        requires
            0 <= list_size <= 65535,
        ensures
            final(self)@ == old(self)@ + list_start(list_size as int),
    {
        if list_size == 0 {
            self.push_byte(LIST_EMPTY);
        } else if list_size < 256 {
            self.push_byte(LIST8);
            self.push_i_8(list_size);
        } else {
            self.push_byte(LIST16);
            self.push_i_16(list_size);
        }
        proof {
            lemma_int_bytes_big_endian(list_size as int);
        }
        assert(self@ =~= old(self)@ + list_start(list_size as int));
    }

    /// Whether a string is packed over the alphabet of digits, `-` and `.`.
    pub fn validate_nibble(value: &str) -> (valid: bool)
        ensures
            valid == is_nibble_text(value@),
    {
        proof {
            lemma_packable(value@);
            if is_nibble_text(value@) {
                lemma_ascii_text_bytes(value@);
            }
        }
        if value.len() > PACKED_MAX {
            return false;
        }
        let chars = str_chars(value);
        if chars.len() > PACKED_MAX {
            return false;
        }
        let mut i: usize = 0;
        while i < chars.len()
            invariant
                i <= chars.len(),
                chars@ == value@,
                forall|j: int| 0 <= j < i ==> is_nibble_char(#[trigger] chars@[j]),
            decreases chars.len() - i,
        {
            let c = chars[i];
            if !(c >= '0' && c <= '9') && c != '-' && c != '.' {
                return false;
            }
            i += 1;
        }
        true
    }

    /// Whether a string is packed over the hexadecimal alphabet.
    pub fn validate_hex(value: &str) -> (valid: bool)
        ensures
            valid == is_hex_text(value@),
    {
        proof {
            lemma_packable(value@);
            if is_hex_text(value@) {
                lemma_ascii_text_bytes(value@);
            }
        }
        if value.len() > PACKED_MAX {
            return false;
        }
        let chars = str_chars(value);
        if chars.len() > PACKED_MAX {
            return false;
        }
        let mut i: usize = 0;
        while i < chars.len()
            invariant
                i <= chars.len(),
                chars@ == value@,
                forall|j: int| 0 <= j < i ==> is_hex_char(#[trigger] chars@[j]),
            decreases chars.len() - i,
        {
            let c = chars[i];
            if !(c >= '0' && c <= '9') && !(c >= 'A' && c <= 'F') && !(c >= 'a' && c <= 'f') {
                return false;
            }
            i += 1;
        }
        true
    }

    /// The four bits of a symbol under `NIBBLE8`.
    pub fn pack_nibble(value: u8) -> (code: u8)
        requires
            is_nibble_symbol(value),
        ensures
            code == nibble_code(value),
            code < 16,
    {
        if value == 45 {
            10
        } else if value == 46 {
            11
        } else if value == 0 {
            15
        } else {
            value - 48
        }
    }

    /// The four bits of a symbol under `HEX8`.
    pub fn pack_hex(value: u8) -> (code: u8)
        requires
            is_hex_symbol(value),
        ensures
            code == hex_code(value),
            code < 16,
    {
        if value >= 48 && value <= 57 {
            value - 48
        } else if value >= 65 && value <= 70 {
            10 + value - 65
        } else if value >= 97 && value <= 102 {
            10 + value - 97
        } else {
            15
        }
    }

    /// Two symbols of the packed form `data_type` in one byte.
    pub fn pack_byte_pair(data_type: u8, part_1: u8, part_2: u8) -> (packed: u8)
        requires
            is_packed_symbol(data_type, part_1),
            is_packed_symbol(data_type, part_2),
        ensures
            packed == packed_pair(data_type, part_1, part_2),
    {
        let (high, low) = if data_type == NIBBLE8 {
            (Self::pack_nibble(part_1), Self::pack_nibble(part_2))
        } else {
            (Self::pack_hex(part_1), Self::pack_hex(part_2))
        };
        assert((high << 4) | low == high * 16 + low) by (bit_vector)
            requires
                high < 16,
                low < 16,
        ;
        (high << 4) | low
    }

    /// Writes a string in the packed form `data_type`.
    pub fn write_packed_bytes(&mut self, value: &str, data_type: u8)
        requires
            packable(data_type, value@),
        ensures
            final(self)@ == old(self)@ + packed_text(data_type, value@),
    {
        let chars = str_chars(value);
        let n = chars.len();
        self.push_byte(data_type);
        let mut rounded_length: u8 = ((n + 1) / 2) as u8;
        if n % 2 != 0 {
            rounded_length = rounded_length + 128;
        }
        self.push_byte(rounded_length);
        let ghost start = self@;
        let ghost payload = packed_payload(data_type, value@);
        assert(start =~= old(self)@ + seq![data_type, packed_length_byte(n as int)]);
        assert(self@ =~= start + payload.subrange(0, 0));
        let mut i: usize = 0;
        while i < n / 2
            invariant
                i <= n / 2,
                n == chars.len(),
                chars@ == value@,
                packable(data_type, value@),
                payload == packed_payload(data_type, value@),
                self@ == start + payload.subrange(0, i as int),
            decreases n / 2 - i,
        {
            let first = chars[2 * i];
            let second = chars[2 * i + 1];
            assert(first == value@[2 * i]);
            assert(second == value@[2 * i + 1]);
            let packed_byte = Self::pack_byte_pair(data_type, first as u8, second as u8);
            self.push_byte(packed_byte);
            assert(self@ =~= start + payload.subrange(0, i + 1));
            i += 1;
        }
        if n % 2 != 0 {
            let last = chars[n - 1];
            assert(last == value@[n - 1]);
            let packed_byte = Self::pack_byte_pair(data_type, last as u8, 0);
            self.push_byte(packed_byte);
            assert(self@ =~= start + payload);
        } else {
            assert(payload.subrange(0, i as int) =~= payload);
        }
        assert(self@ =~= old(self)@ + packed_text(data_type, value@));
    }

    /// Writes a string in its raw form.
    pub fn write_string_raw(&mut self, data: &str)
        requires
            encode_utf8(data@).len() <= max_block_length(),
        ensures
            final(self)@ == old(self)@ + raw_text(data@),
    {
        self.write_byte_length(data.len());
        self.push_string(data);
        assert(self@ =~= old(self)@ + raw_text(data@));
    }

    /// Writes a block of bytes: its length prefix, then the bytes.
    pub fn write_bytes(&mut self, data: &Vec<u8>)
        requires
            data@.len() <= max_block_length(),
        ensures
            final(self)@ == old(self)@ + (byte_length(data@.len() as int) + data@),
    {
        self.write_byte_length(data.len());
        self.data.extend_from_slice(data.as_slice());
        assert(self@ =~= old(self)@ + (byte_length(data@.len() as int) + data@));
    }

    /// Writes a string in the first form that applies: a token of the
    /// primary dictionary, one of a secondary dictionary, packed over
    /// digits, `-` and `.`, packed over hexadecimal digits, raw.
    pub fn write_string(&mut self, data: &str)
        requires
            text_encodable(data@),
        ensures
            final(self)@ == old(self)@ + encode_text(data@),
    {
        proof {
            lemma_packable(data@);
            lemma_double_index(data@);
        }
        if let Some(token_index) = index_of_single_token(data) {
            self.push_byte(token_index);
            assert(self@ =~= old(self)@ + encode_text(data@));
        } else if let Some((dict_index, token_index)) = index_of_double_token(data) {
            self.push_byte(DICTIONARY0 + dict_index);
            self.push_byte(token_index);
            assert(self@ =~= old(self)@ + encode_text(data@));
        } else if Self::validate_nibble(data) {
            self.write_packed_bytes(data, NIBBLE8);
        } else if Self::validate_hex(data) {
            self.write_packed_bytes(data, HEX8);
        } else {
            self.write_string_raw(data);
        }
    }

    /// Writes an identifier.
    pub fn write_jid(&mut self, jid: &JID)
        requires
            jid_encodable(jid@),
        ensures
            final(self)@ == old(self)@ + encode_jid(jid@),
    {
        match (jid.agent, jid.device) {
            (Some(agent), Some(device)) => {
                self.push_byte(ADJID);
                self.push_byte(agent);
                self.push_byte(device);
                let ghost start = self@;
                self.write_string(jid.user.as_str());
                assert(start =~= old(self)@ + seq![ADJID, agent, device]);
                assert(self@ =~= old(self)@ + encode_jid(jid@));
            },
            _ => {
                self.push_byte(JID_PAIR);
                if jid.user.as_str().is_empty() {
                    self.push_byte(LIST_EMPTY);
                } else {
                    self.write_string(jid.user.as_str());
                }
                self.write_string(jid.server.as_str());
                assert(self@ =~= old(self)@ + encode_jid(jid@));
            },
        }
    }

    /// Writes the attributes, each as its key and its value, in their
    /// order. An attribute whose value is the empty string is left out.
    pub fn write_attributes(&mut self, attributes: &Attrs)
        requires
            attrs_encodable(attributes@),
        ensures
            final(self)@ == old(self)@ + encode_attrs(attributes@, attributes@.len() as int),
    {
        let n = attributes.len();
        let mut i: usize = 0;
        assert(self@ =~= old(self)@ + encode_attrs(attributes@, 0));
        while i < n
            invariant
                i <= n,
                n == attributes@.len(),
                attrs_encodable(attributes@),
                self@ == old(self)@ + encode_attrs(attributes@, i as int),
            decreases n - i,
        {
            let key = attributes.key_at(i);
            let value = attributes.value_at(i);
            let ghost before = self@;
            assert(attr_encodable(attributes@[i as int]));
            match value {
                AttributeTypes::String(s) => {
                    if !s.as_str().is_empty() {
                        self.write_string(key.as_str());
                        self.write_string(s.as_str());
                    }
                },
                AttributeTypes::JID(j) => {
                    self.write_string(key.as_str());
                    self.write_jid(j);
                },
            }
            assert(self@ =~= before + encode_attr(attributes@[i as int]));
            assert(self@ =~= old(self)@ + encode_attrs(attributes@, i + 1));
            i += 1;
        }
    }

    /// Writes an element.
    pub fn write_node(&mut self, n: &Node)
        requires
            node_encodable(n@),
        ensures
            final(self)@ == old(self)@ + encode_node(n@),
        decreases n,
    {
        if str_eq(n.tag.as_str(), "0") {
            self.push_byte(LIST8);
            self.push_byte(LIST_EMPTY);
            assert(self@ =~= old(self)@ + encode_node(n@));
            return ;
        }
        let has_content: i32 = match n.content {
            NodeContentType::Absent => 0,
            _ => 1,
        };
        let attr_count = n.attrs.len();
        self.write_list_start((2 * attr_count as i32) + 1 + has_content);
        self.write_string(n.tag.as_str());
        self.write_attributes(&n.attrs);
        if has_content == 1 {
            self.write(&n.content);
        }
        assert(self@ =~= old(self)@ + encode_node(n@));
    }

    /// Writes a content: nothing as the empty list, an identifier in its
    /// wire form, bytes as a block, children as a list, and every other
    /// value as its text.
    pub fn write(&mut self, data: &NodeContentType)
        requires
            content_encodable(data@),
        ensures
            final(self)@ == old(self)@ + encode_content(data@),
        decreases data,
    {
        match data {
            NodeContentType::Absent => {
                self.push_byte(LIST_EMPTY);
                assert(self@ =~= old(self)@ + encode_content(data@));
            },
            NodeContentType::JID(j) => self.write_jid(j),
            NodeContentType::String(s) => self.write_string(s.as_str()),
            NodeContentType::I32(i) => self.write_number(*i as i128),
            NodeContentType::U32(u) => self.write_number(*u as i128),
            NodeContentType::I64(i) => self.write_number(*i as i128),
            NodeContentType::U64(u) => self.write_number(*u as i128),
            NodeContentType::Bool(b) => {
                proof {
                    lemma_bool_encodable();
                }
                if *b {
                    self.write_string("true")
                } else {
                    self.write_string("false")
                }
            },
            NodeContentType::ByteArray(b) => self.write_bytes(b),
            NodeContentType::ListOfNodes(l) => {
                proof {
                    assert(data->ListOfNodes_0 == *l);
                    lemma_nodes_view(l@, l@.len() as int);
                }
                self.write_list(l);
            },
        }
    }

    /// Writes a number as its decimal text.
    fn write_number(&mut self, number: i128)
        requires
            -0x8000_0000_0000_0000 <= number <= 0xFFFF_FFFF_FFFF_FFFF,
        ensures
            final(self)@ == old(self)@ + encode_text(crate::text::decimal_text(number as int)),
    {
        proof {
            lemma_scalar_encodable(number as int);
        }
        let text = if number < 0 {
            i64_to_string(number as i64)
        } else {
            u64_to_string(number as u64)
        };
        self.write_string(text.as_str())
    }

    /// Writes a list of elements: its start, then each element.
    fn write_list(&mut self, list: &Vec<Node>)
        requires
            list@.len() <= 65535,
            nodes_encodable(nodes_view(list@, list@.len() as int), list@.len() as int),
        ensures
            final(self)@ == old(self)@ + (list_start(list@.len() as int) + encode_nodes(
                nodes_view(list@, list@.len() as int),
                list@.len() as int,
            )),
        decreases list,
    {
        let ghost nodes = nodes_view(list@, list@.len() as int);
        proof {
            lemma_nodes_view(list@, list@.len() as int);
        }
        self.write_list_start(list.len() as i32);
        let ghost start = self@;
        assert(start =~= start + encode_nodes(nodes, 0));
        let mut i: usize = 0;
        while i < list.len()
            invariant
                i <= list.len(),
                nodes == nodes_view(list@, list@.len() as int),
                nodes.len() == list@.len(),
                forall|j: int| 0 <= j < list@.len() ==> (#[trigger] nodes[j]) == list@[j]@,
                nodes_encodable(nodes, nodes.len() as int),
                self@ == start + encode_nodes(nodes, i as int),
            decreases list.len() - i,
        {
            proof {
                lemma_nodes_encodable(nodes, nodes.len() as int, i as int);
                vstd::std_specs::vec::axiom_vec_index_decreases(*list, i as int);
            }
            self.write_node(&list[i]);
            assert(self@ =~= start + encode_nodes(nodes, i + 1));
            i += 1;
        }
        assert(self@ =~= old(self)@ + (list_start(list@.len() as int) + encode_nodes(
            nodes,
            list@.len() as int,
        )));
    }
}

/// The decimal text of a 64-bit number can be written.
pub proof fn lemma_scalar_encodable(n: int)
    requires
        -0x8000_0000_0000_0000 <= n <= 0xFFFF_FFFF_FFFF_FFFF,
    ensures
        is_nibble_text(crate::text::decimal_text(n)),
        text_encodable(crate::text::decimal_text(n)),
{
    lemma_decimal_text_short(n);
}

/// The texts of the two truth values can be written.
pub proof fn lemma_bool_encodable()
    ensures
        text_encodable("true"@),
        text_encodable("false"@),
{
    reveal_strlit("true");
    reveal_strlit("false");
    assert forall|i: int| 0 <= i < "true"@.len() implies '\0' <= #[trigger] "true"@[i]
        <= '\u{7f}' by {}
    assert forall|i: int| 0 <= i < "false"@.len() implies '\0' <= #[trigger] "false"@[i]
        <= '\u{7f}' by {}
    lemma_ascii_text_bytes("true"@);
    lemma_ascii_text_bytes("false"@);
}

/// Whether every attribute can be written.
fn can_write_attributes(attributes: &Attrs) -> (can: bool)
    ensures
        can == attrs_encodable(attributes@),
{
    let n = attributes.len();
    let mut i: usize = 0;
    while i < n
        invariant
            i <= n,
            n == attributes@.len(),
            forall|j: int| 0 <= j < i ==> attr_encodable(#[trigger] attributes@[j]),
        decreases n - i,
    {
        let key = attributes.key_at(i);
        let can = match attributes.value_at(i) {
            AttributeTypes::String(s) => s.as_str().is_empty() || (
            BinaryEncoder::can_write_string(key.as_str()) && BinaryEncoder::can_write_string(
                s.as_str(),
            )),
            AttributeTypes::JID(j) => BinaryEncoder::can_write_string(key.as_str())
                && BinaryEncoder::can_write_jid(j),
        };
        if !can {
            assert(!attr_encodable(attributes@[i as int]));
            return false;
        }
        i += 1;
    }
    true
}

/// Whether each element of a list can be written.
fn can_write_nodes(list: &Vec<Node>) -> (can: bool)
    ensures
        can == nodes_encodable(nodes_view(list@, list@.len() as int), list@.len() as int),
    decreases list, 0int,
{
    let ghost nodes = nodes_view(list@, list@.len() as int);
    proof {
        lemma_nodes_view(list@, list@.len() as int);
    }
    let mut i: usize = 0;
    while i < list.len()
        invariant
            i <= list.len(),
            nodes == nodes_view(list@, list@.len() as int),
            nodes.len() == list@.len(),
            forall|j: int| 0 <= j < list@.len() ==> (#[trigger] nodes[j]) == list@[j]@,
            nodes_encodable(nodes, i as int),
        decreases list.len() - i,
    {
        proof {
            vstd::std_specs::vec::axiom_vec_index_decreases(*list, i as int);
        }
        if !BinaryEncoder::can_write_node(&list[i]) {
            proof {
                lemma_nodes_not_encodable(nodes, i + 1, nodes.len() as int);
            }
            return false;
        }
        i += 1;
    }
    true
}

/// A list whose first `k` elements cannot all be written cannot be
/// written.
pub proof fn lemma_nodes_not_encodable(nodes: Seq<crate::binary::node::NodeView>, k: int, n: int)
    requires
        0 <= k <= n <= nodes.len(),
        !nodes_encodable(nodes, k),
    ensures
        !nodes_encodable(nodes, n),
    decreases n - k,
{
    if k < n {
        lemma_nodes_not_encodable(nodes, k, n - 1);
    }
}

impl BinaryEncoder {
    /// Whether `write_string` can write the string.
    pub fn can_write_string(data: &str) -> (can: bool)
        ensures
            can == text_encodable(data@),
    {
        if data.as_bytes().len() <= 0x7FFF_FFFF {
            return true;
        }
        proof {
            lemma_packable(data@);
            if is_nibble_text(data@) || is_hex_text(data@) {
                lemma_ascii_text_bytes(data@);
            }
        }
        index_of_single_token(data).is_some() || index_of_double_token(data).is_some()
    }

    /// Whether `write_jid` can write the identifier.
    pub fn can_write_jid(jid: &JID) -> (can: bool)
        ensures
            can == jid_encodable(jid@),
    {
        Self::can_write_string(jid.user.as_str()) && (jid.is_ad() || Self::can_write_string(
            jid.server.as_str(),
        ))
    }

    /// Whether `write` can write the content.
    pub fn can_write(data: &NodeContentType) -> (can: bool)
        ensures
            can == content_encodable(data@),
        decreases data, 1int,
    {
        match data {
            NodeContentType::ListOfNodes(l) => {
                proof {
                    assert(data->ListOfNodes_0 == *l);
                    lemma_nodes_view(l@, l@.len() as int);
                }
                l.len() <= 65535 && can_write_nodes(l)
            },
            NodeContentType::ByteArray(b) => b.len() <= 0x7FFF_FFFF,
            NodeContentType::JID(j) => Self::can_write_jid(j),
            NodeContentType::String(s) => Self::can_write_string(s.as_str()),
            _ => true,
        }
    }

    /// Whether `write_node` can write the element.
    pub fn can_write_node(n: &Node) -> (can: bool)
        ensures
            can == node_encodable(n@),
        decreases n, 2int,
    {
        if str_eq(n.tag.as_str(), "0") {
            return true;
        }
        let has_content: usize = match n.content {
            NodeContentType::Absent => 0,
            _ => 1,
        };
        let attr_count = n.attrs.len();
        attr_count <= 32767 && 2 * attr_count + 1 + has_content <= 65535 && Self::can_write_string(
            n.tag.as_str(),
        ) && can_write_attributes(&n.attrs) && Self::can_write(&n.content)
    }
}

} // verus!
