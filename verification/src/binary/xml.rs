//! A printer of elements as XML text, for logs.

use crate::binary::attrs::{AttrEntryView, Attrs};
use crate::binary::node::{
    ContentView, lemma_nodes_view, Node, NodeContentType, nodes_view, NodeView, scalar_text,
};
use crate::text::{find_char, index_of_char, replace_char, replaced, str_chars, string_from_utf8};
use vstd::prelude::*;
use vstd::string::*;
use vstd::utf8::*;

verus! {

/// Whether Unicode counts a character as a letter or a number.
pub uninterp spec fn is_alphanumeric_char(c: char) -> bool;

/// `char::is_alphanumeric`. The contract only names its result.
#[verifier::external_body]
fn char_is_alphanumeric(c: char) -> (alphanumeric: bool)
    ensures
        alphanumeric == is_alphanumeric_char(c),
{
    c.is_alphanumeric()
}

/// The character of a hexadecimal digit, in lower case.
pub open spec fn hex_digit(value: int) -> char {
    if value < 10 {
        (48 + value) as u8 as char
    } else {
        (87 + value) as u8 as char
    }
}

/// Bytes as hexadecimal text: two digits for each byte, the high one
/// first, in lower case.
pub open spec fn hex_text(bytes: Seq<u8>) -> Seq<char> {
    Seq::new(
        (2 * bytes.len()) as nat,
        |i: int|
            hex_digit(
                if i % 2 == 0 {
                    bytes[i / 2] as int / 16
                } else {
                    bytes[i / 2] as int % 16
                },
            ),
    )
}

/// `hex::encode`: gives two lower-case hexadecimal digits for each byte.
#[verifier::external_body]
fn hex_encode(data: &Vec<u8>) -> (text: String)
    ensures
        text@ == hex_text(data@),
{
    hex::encode(data)
}

/// The text with each line feed written as a backslash and `n`.
pub open spec fn escape_newlines(text: Seq<char>) -> Seq<char> {
    replaced(text, '\n', seq!['\\', 'n'])
}

/// The text that bytes spell where they are UTF-8 and every character is
/// a letter or a number, and the empty text else.
pub open spec fn printable_text(data: Seq<u8>) -> Seq<char> {
    if valid_utf8(data) && is_alphanumeric_text(decode_utf8(data)) {
        decode_utf8(data)
    } else {
        Seq::empty()
    }
}

/// Whether every character of a text is a letter or a number.
pub open spec fn is_alphanumeric_text(text: Seq<char>) -> bool {
    forall|i: int| 0 <= i < text.len() ==> is_alphanumeric_char(#[trigger] text[i])
}

/// Whether every character of a text is a letter or a number.
pub fn all_alphanumeric(text: &str) -> (all: bool)
    ensures
        all == is_alphanumeric_text(text@),
{
    let chars = str_chars(text);
    let mut i: usize = 0;
    while i < chars.len()
        invariant
            i <= chars.len(),
            chars@ == text@,
            forall|j: int| 0 <= j < i ==> is_alphanumeric_char(#[trigger] chars@[j]),
        decreases chars.len() - i,
    {
        if !char_is_alphanumeric(chars[i]) {
            return false;
        }
        i += 1;
    }
    true
}

/// The text to show for bytes, given the text that they spell, where they
/// spell one, and whether all of it is letters and numbers: that text
/// where it is, the empty text else.
pub fn printable_when(spelled: Option<String>, alphanumeric: bool) -> (text: String)
    ensures
        text@ == match spelled {
            Some(s) => if alphanumeric {
                s@
            } else {
                Seq::<char>::empty()
            },
            None => Seq::<char>::empty(),
        },
{
    match spelled {
        Some(s) => if alphanumeric {
            s
        } else {
            String::new()
        },
        None => String::new(),
    }
}

/// The text that bytes spell, where all of it is letters and numbers.
pub fn printable(data: &Vec<u8>) -> (text: String)
    ensures
        text@ == printable_text(data@),
{
    let spelled = string_from_utf8(data.clone());
    let alphanumeric = match &spelled {
        Some(s) => all_alphanumeric(s.as_str()),
        None => false,
    };
    printable_when(spelled, alphanumeric)
}

/// The texts of strings.
pub open spec fn texts_of(strings: Seq<String>) -> Seq<Seq<char>> {
    Seq::new(strings.len(), |i: int| strings[i]@)
}

/// The pieces of `s` from position `from` on, cut at each line feed.
pub open spec fn split_from(s: Seq<char>, from: int) -> Seq<Seq<char>>
    decreases s.len() - from,
{
    match index_of_char(s, '\n', from) {
        Some(i) => if from <= i < s.len() {
            seq![s.subrange(from, i)] + split_from(s, i + 1)
        } else {
            seq![s.subrange(from, s.len() as int)]
        },
        None => seq![s.subrange(from, s.len() as int)],
    }
}

/// The lines of a text: its pieces between line feeds.
pub open spec fn split_lines(s: Seq<char>) -> Seq<Seq<char>> {
    split_from(s, 0)
}

/// Cuts a text at each line feed.
pub fn lines(text: &str) -> (pieces: Vec<String>)
    ensures
        texts_of(pieces@) == split_lines(text@),
{
    let chars = str_chars(text);
    let n = chars.len();
    let mut pieces: Vec<String> = Vec::new();
    let mut start: usize = 0;
    assert(texts_of(pieces@) =~= Seq::<Seq<char>>::empty());
    loop
        invariant
            start <= n,
            n == chars.len(),
            chars@ == text@,
            split_lines(text@) == texts_of(pieces@) + split_from(text@, start as int),
        decreases n - start,
    {
        match find_char(&chars, '\n', start) {
            Some(i) => {
                let ghost before = pieces@;
                pieces.push(text.substring_char(start, i).to_owned());
                assert(texts_of(pieces@) =~= texts_of(before) + seq![
                    text@.subrange(start as int, i as int),
                ]);
                assert(texts_of(pieces@) + split_from(text@, i + 1) =~= texts_of(before)
                    + split_from(text@, start as int));
                start = i + 1;
            },
            None => {
                let ghost before = pieces@;
                pieces.push(text.substring_char(start, n).to_owned());
                assert(texts_of(pieces@) =~= texts_of(before) + seq![
                    text@.subrange(start as int, n as int),
                ]);
                return pieces;
            },
        }
    }
}

/// The texts one after the other, the first `k` of them.
pub open spec fn concat_all(parts: Seq<Seq<char>>, k: int) -> Seq<char>
    decreases k,
{
    if k <= 0 || k > parts.len() {
        Seq::empty()
    } else {
        concat_all(parts, k - 1) + parts[k - 1]
    }
}

/// The first `k` texts with a space between each two.
pub open spec fn joined(parts: Seq<Seq<char>>, k: int) -> Seq<char>
    decreases k,
{
    if k <= 0 || k > parts.len() {
        Seq::empty()
    } else if k == 1 {
        parts[0]
    } else {
        joined(parts, k - 1) + seq![' '] + parts[k - 1]
    }
}

/// Whether `a[i..]` comes before or with `b[i..]` in the order of
/// dictionaries, where `a` and `b` agree before `i`.
pub open spec fn bytes_le_from(a: Seq<u8>, b: Seq<u8>, i: int) -> bool
    decreases a.len() - i,
{
    if i < 0 || i >= a.len() {
        true
    } else if i >= b.len() {
        false
    } else if a[i] != b[i] {
        a[i] < b[i]
    } else {
        bytes_le_from(a, b, i + 1)
    }
}

/// Whether the key `a` comes before or with the key `b`: the order of
/// strings, byte by byte.
pub open spec fn key_le(a: Seq<char>, b: Seq<char>) -> bool {
    bytes_le_from(encode_utf8(a), encode_utf8(b), 0)
}

/// Whether one string comes before or with another.
fn str_le(a: &str, b: &str) -> (le: bool)
    ensures
        le == key_le(a@, b@),
{
    let x = a.as_bytes();
    let y = b.as_bytes();
    let mut i: usize = 0;
    while i < x.len()
        invariant
            i <= x@.len(),
            x@ == encode_utf8(a@),
            y@ == encode_utf8(b@),
            key_le(a@, b@) == bytes_le_from(x@, y@, i as int),
        decreases x@.len() - i,
    {
        if i >= y.len() {
            return false;
        }
        if x[i] != y[i] {
            return x[i] < y[i];
        }
        i += 1;
    }
    true
}

/// The attributes with one more, put behind the last whose key comes
/// before or with its key.
pub open spec fn insert_by_key(sorted: Seq<AttrEntryView>, entry: AttrEntryView) -> Seq<
    AttrEntryView,
>
    decreases sorted.len(),
{
    if sorted.len() == 0 {
        seq![entry]
    } else if key_le(sorted.last().0, entry.0) {
        sorted.push(entry)
    } else {
        insert_by_key(sorted.drop_last(), entry).push(sorted.last())
    }
}

/// The first `k` attributes in the order of their keys.
pub open spec fn sorted_by_key(attrs: Seq<AttrEntryView>, k: int) -> Seq<AttrEntryView>
    decreases k,
{
    if k <= 0 || k > attrs.len() {
        Seq::empty()
    } else {
        insert_by_key(sorted_by_key(attrs, k - 1), attrs[k - 1])
    }
}

/// `insert_by_key` puts the attribute at the position behind which every
/// key comes after its key, and before which stands a key that does not.
pub proof fn lemma_insert_by_key(sorted: Seq<AttrEntryView>, entry: AttrEntryView, p: int)
    requires
        0 <= p <= sorted.len(),
        p > 0 ==> key_le(sorted[p - 1].0, entry.0),
        forall|j: int| p <= j < sorted.len() ==> !key_le((#[trigger] sorted[j]).0, entry.0),
    ensures
        insert_by_key(sorted, entry) == sorted.insert(p, entry),
    decreases sorted.len(),
{
    if sorted.len() == 0 {
        assert(sorted.insert(p, entry) =~= seq![entry]);
    } else if p == sorted.len() {
        assert(sorted.insert(p, entry) =~= sorted.push(entry));
    } else {
        let shorter = sorted.drop_last();
        assert(!key_le(sorted[sorted.len() - 1].0, entry.0));
        assert forall|j: int| p <= j < shorter.len() implies !key_le(
            (#[trigger] shorter[j]).0,
            entry.0,
        ) by {
            assert(shorter[j] == sorted[j]);
        }
        if p > 0 {
            assert(shorter[p - 1] == sorted[p - 1]);
        }
        lemma_insert_by_key(shorter, entry, p);
        assert(shorter.insert(p, entry).push(sorted.last()) =~= sorted.insert(p, entry));
    }
}

/// The attributes at the positions that `order` names, in its order.
pub open spec fn picked(attrs: Seq<AttrEntryView>, order: Seq<usize>) -> Seq<AttrEntryView> {
    Seq::new(order.len(), |i: int| attrs[order[i] as int])
}

/// The positions of the attributes in the order of their keys.
fn sorted_order(attrs: &Attrs) -> (order: Vec<usize>)
    ensures
        order@.len() == attrs@.len(),
        forall|i: int| 0 <= i < order@.len() ==> (#[trigger] order@[i]) < attrs@.len(),
        picked(attrs@, order@) == sorted_by_key(attrs@, attrs@.len() as int),
{
    let n = attrs.len();
    let mut order: Vec<usize> = Vec::new();
    let mut k: usize = 0;
    assert(picked(attrs@, order@) =~= sorted_by_key(attrs@, 0));
    while k < n
        invariant
            k <= n,
            n == attrs@.len(),
            order@.len() == k,
            forall|i: int| 0 <= i < order@.len() ==> (#[trigger] order@[i]) < attrs@.len(),
            picked(attrs@, order@) == sorted_by_key(attrs@, k as int),
        decreases n - k,
    {
        let key = attrs.key_at(k);
        let mut p: usize = order.len();
        while p > 0 && !str_le(attrs.key_at(order[p - 1]).as_str(), key.as_str())
            invariant
                p <= order@.len(),
                k < n,
                n == attrs@.len(),
                key@ == attrs@[k as int].0,
                forall|i: int| 0 <= i < order@.len() ==> (#[trigger] order@[i]) < attrs@.len(),
                forall|j: int|
                    p <= j < order@.len() ==> !key_le(
                        (#[trigger] picked(attrs@, order@)[j]).0,
                        key@,
                    ),
            decreases p,
        {
            assert(picked(attrs@, order@)[p - 1] == attrs@[order@[p - 1] as int]);
            p -= 1;
        }
        let ghost before = order@;
        proof {
            if p > 0 {
                assert(picked(attrs@, before)[p - 1] == attrs@[before[p - 1] as int]);
            }
            lemma_insert_by_key(picked(attrs@, before), attrs@[k as int], p as int);
        }
        order.insert(p, k);
        assert(picked(attrs@, order@) =~= picked(attrs@, before).insert(p as int, attrs@[k as int]));
        k += 1;
    }
    order
}

/// One attribute as text: the key, `=` and the value between quotes.
pub open spec fn quoted_attr(entry: AttrEntryView) -> Seq<char> {
    entry.0 + seq!['=', '"'] + entry.1.text() + seq!['"']
}

/// The texts of attributes.
pub open spec fn quoted_attrs(attrs: Seq<AttrEntryView>) -> Seq<Seq<char>> {
    Seq::new(attrs.len(), |i: int| quoted_attr(attrs[i]))
}

/// The attributes as text: each as `quoted_attr` says, in the order of
/// their keys, with a space between each two.
pub open spec fn attribute_text(attrs: Seq<AttrEntryView>) -> Seq<char> {
    let sorted = quoted_attrs(sorted_by_key(attrs, attrs.len() as int));
    joined(sorted, sorted.len() as int)
}

/// Bytes as text: what they spell where that is letters and numbers, and
/// hexadecimal digits else.
pub open spec fn bytes_text(bytes: Seq<u8>) -> Seq<char> {
    if printable_text(bytes).len() > 0 {
        escape_newlines(printable_text(bytes))
    } else {
        hex_text(bytes)
    }
}

/// The content of an element as pieces of text: none for no content, the
/// lines of each child in turn, the text of bytes, and the text of any
/// other value with its line feeds escaped.
pub open spec fn content_texts(node: NodeView) -> Seq<Seq<char>>
    decreases node, 0int,
{
    match node.content {
        ContentView::Absent => Seq::empty(),
        ContentView::List(children) => children_texts(children, children.len() as int),
        ContentView::Bytes(bytes) => seq![bytes_text(bytes)],
        _ => seq![escape_newlines(scalar_text(node.content))],
    }
}

/// The lines of the first `k` of the children, in turn.
pub open spec fn children_texts(children: Seq<NodeView>, k: int) -> Seq<Seq<char>>
    decreases children, k,
{
    if k <= 0 || k > children.len() {
        Seq::empty()
    } else {
        children_texts(children, k - 1) + split_lines(xml_text(children[k - 1]))
    }
}

/// An element as XML text: `<tag attributes />` where it has no piece of
/// content, `<tag attributes>content</tag>` else.
pub open spec fn xml_text(node: NodeView) -> Seq<char>
    decreases node, 1int,
{
    let pieces = content_texts(node);
    let open = seq!['<'] + node.tag + seq![' '] + attribute_text(node.attrs);
    if pieces.len() == 0 {
        open + seq![' ', '/', '>']
    } else {
        open + seq!['>'] + concat_all(pieces, pieces.len() as int) + seq!['<', '/'] + node.tag
            + seq!['>']
    }
}

impl Node {
    /// The attributes as text, in the order of their keys.
    pub fn attribute_string(&self) -> (text: String)
        ensures
            text@ == attribute_text(self@.attrs),
    {
        let order = sorted_order(&self.attrs);
        let n = order.len();
        let ghost sorted = quoted_attrs(sorted_by_key(self.attrs@, self.attrs@.len() as int));
        proof {
            reveal_strlit(" ");
            reveal_strlit("=\"");
            reveal_strlit("\"");
            assert(" "@ =~= seq![' ']);
            assert("=\""@ =~= seq!['=', '"']);
            assert("\""@ =~= seq!['"']);
        }
        let mut text = String::new();
        let mut i: usize = 0;
        assert(text@ =~= joined(sorted, 0));
        while i < n
            invariant
                i <= n,
                n == order@.len(),
                n == self.attrs@.len(),
                sorted == quoted_attrs(picked(self.attrs@, order@)),
                sorted.len() == n,
                forall|j: int| 0 <= j < order@.len() ==> (#[trigger] order@[j]) < self.attrs@.len(),
                " "@ == seq![' '],
                "=\""@ == seq!['=', '"'],
                "\""@ == seq!['"'],
                text@ == joined(sorted, i as int),
            decreases n - i,
        {
            let ghost before = text@;
            let at = order[i];
            let value = self.attrs.value_at(at).to_string();
            let mut entry = String::new();
            entry.append(self.attrs.key_at(at).as_str());
            entry.append("=\"");
            entry.append(value.as_str());
            entry.append("\"");
            assert(entry@ =~= quoted_attr(self.attrs@[at as int]));
            assert(sorted[i as int] == quoted_attr(picked(self.attrs@, order@)[i as int]));
            if i > 0 {
                text.append(" ");
            }
            text.append(entry.as_str());
            assert(text@ =~= joined(sorted, i + 1));
            i += 1;
        }
        text
    }

    /// The content as pieces of text.
    pub fn content_string(&self) -> (pieces: Vec<String>)
        ensures
            texts_of(pieces@) == content_texts(self@),
        decreases self, 0int,
    {
        let mut content_vec: Vec<String> = Vec::new();
        assert(texts_of(content_vec@) =~= Seq::<Seq<char>>::empty());
        match &self.content {
            NodeContentType::Absent => {},
            NodeContentType::ListOfNodes(nodes) => {
                let ghost children = nodes_view(nodes@, nodes@.len() as int);
                proof {
                    lemma_nodes_view(nodes@, nodes@.len() as int);
                }
                let mut i: usize = 0;
                while i < nodes.len()
                    invariant
                        i <= nodes.len(),
                        self.content == NodeContentType::ListOfNodes(*nodes),
                        children == nodes_view(nodes@, nodes@.len() as int),
                        children.len() == nodes@.len(),
                        forall|j: int|
                            0 <= j < nodes@.len() ==> (#[trigger] children[j]) == nodes@[j]@,
                        texts_of(content_vec@) == children_texts(children, i as int),
                    decreases nodes.len() - i,
                {
                    proof {
                        assert(self.content->ListOfNodes_0 == *nodes);
                        vstd::std_specs::vec::axiom_vec_index_decreases(*nodes, i as int);
                    }
                    let ghost before = content_vec@;
                    let text = nodes[i].xml_string();
                    let mut more = lines(text.as_str());
                    let ghost added = more@;
                    content_vec.append(&mut more);
                    assert(texts_of(content_vec@) =~= texts_of(before) + texts_of(added));
                    i += 1;
                }
            },
            NodeContentType::ByteArray(bytes) => {
                let content = printable(bytes);
                if !content.as_str().is_empty() {
                    content_vec.push(replace_char(content.as_str(), '\n', "\\n"));
                } else {
                    content_vec.push(hex_encode(bytes));
                }
                proof {
                    reveal_strlit("\\n");
                    assert("\\n"@ =~= seq!['\\', 'n']);
                }
                assert(texts_of(content_vec@) =~= seq![bytes_text(bytes@)]);
            },
            c => {
                let content = c.other_types_to_string();
                content_vec.push(replace_char(content.as_str(), '\n', "\\n"));
                proof {
                    reveal_strlit("\\n");
                    assert("\\n"@ =~= seq!['\\', 'n']);
                }
                assert(texts_of(content_vec@) =~= seq![escape_newlines(scalar_text(self@.content))]);
            },
        }
        content_vec
    }

    /// The element as XML text.
    pub fn xml_string(&self) -> (text: String)
        ensures
            text@ == xml_text(self@),
        decreases self, 1int,
    {
        let attributes = self.attribute_string();
        let content = self.content_string();
        proof {
            reveal_strlit("<");
            reveal_strlit(" ");
            reveal_strlit(" />");
            reveal_strlit(">");
            reveal_strlit("</");
            assert("<"@ =~= seq!['<']);
            assert(" "@ =~= seq![' ']);
            assert(" />"@ =~= seq![' ', '/', '>']);
            assert(">"@ =~= seq!['>']);
            assert("</"@ =~= seq!['<', '/']);
        }
        let mut text = String::new();
        text.append("<");
        text.append(self.tag.as_str());
        text.append(" ");
        text.append(attributes.as_str());
        if content.len() == 0 {
            text.append(" />");
            assert(text@ =~= xml_text(self@));
            return text;
        }
        text.append(">");
        let ghost open = text@;
        let ghost pieces = texts_of(content@);
        let mut i: usize = 0;
        assert(text@ =~= open + concat_all(pieces, 0));
        while i < content.len()
            invariant
                i <= content.len(),
                pieces == texts_of(content@),
                text@ == open + concat_all(pieces, i as int),
            decreases content.len() - i,
        {
            text.append(content[i].as_str());
            assert(text@ =~= open + concat_all(pieces, i + 1));
            i += 1;
        }
        text.append("</");
        text.append(self.tag.as_str());
        text.append(">");
        assert(text@ =~= xml_text(self@));
        text
    }
}

/// Of two runs of bytes that agree before `i`, one comes before or with
/// the other.
pub proof fn lemma_bytes_le_total(a: Seq<u8>, b: Seq<u8>, i: int)
    requires
        0 <= i,
    ensures
        bytes_le_from(a, b, i) || bytes_le_from(b, a, i),
    decreases a.len() - i,
{
    if i < a.len() && i < b.len() && a[i] == b[i] {
        lemma_bytes_le_total(a, b, i + 1);
    }
}

/// Whether each attribute but the last stands before one whose key comes
/// after or with its key.
pub open spec fn in_key_order(attrs: Seq<AttrEntryView>) -> bool {
    forall|i: int| 0 <= i < attrs.len() - 1 ==> key_le((#[trigger] attrs[i]).0, attrs[i + 1].0)
}

/// The position at which `insert_by_key` puts an attribute.
pub proof fn lemma_insert_position(sorted: Seq<AttrEntryView>, entry: AttrEntryView) -> (p: int)
    ensures
        0 <= p <= sorted.len(),
        insert_by_key(sorted, entry) == sorted.insert(p, entry),
        p > 0 ==> key_le(sorted[p - 1].0, entry.0),
        forall|j: int| p <= j < sorted.len() ==> !key_le((#[trigger] sorted[j]).0, entry.0),
    decreases sorted.len(),
{
    if sorted.len() == 0 {
        assert(sorted.insert(0, entry) =~= seq![entry]);
        0
    } else if key_le(sorted.last().0, entry.0) {
        assert(sorted.insert(sorted.len() as int, entry) =~= sorted.push(entry));
        sorted.len() as int
    } else {
        let shorter = sorted.drop_last();
        let p = lemma_insert_position(shorter, entry);
        assert(shorter.insert(p, entry).push(sorted.last()) =~= sorted.insert(p, entry));
        assert forall|j: int| p <= j < sorted.len() implies !key_le(
            (#[trigger] sorted[j]).0,
            entry.0,
        ) by {
            if j < shorter.len() {
                assert(shorter[j] == sorted[j]);
            }
        }
        if p > 0 {
            assert(shorter[p - 1] == sorted[p - 1]);
        }
        p
    }
}

/// The attributes in the order of their keys are the same attributes, each
/// as often as before, and each but the last stands before one whose key
/// comes after or with its key.
pub proof fn law_sorted_by_key(attrs: Seq<AttrEntryView>, k: int)
    requires
        0 <= k <= attrs.len(),
    ensures
        sorted_by_key(attrs, k).len() == k,
        in_key_order(sorted_by_key(attrs, k)),
        sorted_by_key(attrs, k).to_multiset() == attrs.subrange(0, k).to_multiset(),
    decreases k,
{
    if k <= 0 {
        assert(attrs.subrange(0, k) =~= Seq::<AttrEntryView>::empty());
        assert(sorted_by_key(attrs, k) =~= Seq::<AttrEntryView>::empty());
    } else {
        law_sorted_by_key(attrs, k - 1);
        let before = sorted_by_key(attrs, k - 1);
        let entry = attrs[k - 1];
        let p = lemma_insert_position(before, entry);
        let after = before.insert(p, entry);
        vstd::seq_lib::to_multiset_insert(before, p, entry);
        vstd::seq_lib::to_multiset_build(attrs.subrange(0, k - 1), entry);
        assert(attrs.subrange(0, k - 1).push(entry) =~= attrs.subrange(0, k));
        assert forall|i: int| 0 <= i < after.len() - 1 implies key_le(
            (#[trigger] after[i]).0,
            after[i + 1].0,
        ) by {
            if i + 1 < p {
                assert(after[i] == before[i]);
                assert(after[i + 1] == before[i + 1]);
            } else if i + 1 == p {
                assert(after[i] == before[p - 1]);
            } else if i == p {
                assert(after[i + 1] == before[p]);
                lemma_bytes_le_total(encode_utf8(before[p].0), encode_utf8(entry.0), 0);
            } else {
                assert(after[i] == before[i - 1]);
                assert(after[i + 1] == before[i]);
            }
        }
    }
}

} // verus!
