//! The attributes of an element: a mapping from keys to values that keeps
//! the order in which the keys came.

use crate::text::str_eq;
use crate::types::jid::{JID, JidView};
use vstd::prelude::*;
use vstd::string::*;

verus! {

/// The value of an attribute.
#[derive(Debug)]
pub enum AttributeTypes {
    JID(JID),
    String(String),
}

/// What an attribute value holds, as plain values.
pub enum AttrView {
    Jid(JidView),
    Text(Seq<char>),
}

impl View for AttributeTypes {
    type V = AttrView;

    open spec fn view(&self) -> AttrView {
        match self {
            AttributeTypes::JID(jid) => AttrView::Jid(jid@),
            AttributeTypes::String(text) => AttrView::Text(text@),
        }
    }
}

impl Clone for AttributeTypes {
    fn clone(&self) -> (copy: Self)
        ensures
            copy@ == self@,
    {
        match self {
            AttributeTypes::JID(jid) => AttributeTypes::JID(jid.clone()),
            AttributeTypes::String(text) => AttributeTypes::String(text.clone()),
        }
    }
}

impl AttrView {
    /// The text of the value: a string as it is, an identifier in its
    /// canonical form.
    pub open spec fn text(self) -> Seq<char> {
        match self {
            AttrView::Jid(jid) => jid.text(),
            AttrView::Text(text) => text,
        }
    }
}

impl AttributeTypes {
    /// Renders the value as text.
    pub fn to_string(&self) -> (text: String)
        ensures
            text@ == self@.text(),
    {
        match self {
            Self::String(s) => s.clone(),
            Self::JID(j) => j.to_string(),
        }
    }
}

/// One attribute: its key and its value.
pub type AttrEntryView = (Seq<char>, AttrView);

/// Whether no key occurs twice.
pub open spec fn unique_keys(entries: Seq<AttrEntryView>) -> bool {
    forall|i: int, j: int| 0 <= i < j < entries.len() ==> entries[i].0 != entries[j].0
}

/// The position of the entry with the given key, among the first `k`.
pub open spec fn key_position(entries: Seq<AttrEntryView>, key: Seq<char>, k: int) -> Option<int>
    decreases k,
{
    if k <= 0 || k > entries.len() {
        None
    } else {
        match key_position(entries, key, k - 1) {
            Some(i) => Some(i),
            None => if entries[k - 1].0 == key {
                Some(k - 1)
            } else {
                None
            },
        }
    }
}

/// The value under `key`, if there is one.
pub open spec fn attrs_get(entries: Seq<AttrEntryView>, key: Seq<char>) -> Option<AttrView> {
    match key_position(entries, key, entries.len() as int) {
        Some(i) => Some(entries[i].1),
        None => None,
    }
}

/// The attributes after `key` is set to `value`: an entry with that key is
/// replaced where it stands, a new key comes last.
pub open spec fn attrs_insert(entries: Seq<AttrEntryView>, key: Seq<char>, value: AttrView) -> Seq<
    AttrEntryView,
> {
    match key_position(entries, key, entries.len() as int) {
        Some(i) => entries.update(i, (key, value)),
        None => entries.push((key, value)),
    }
}

/// The attributes as a mapping.
pub open spec fn attrs_map(entries: Seq<AttrEntryView>) -> Map<Seq<char>, AttrView> {
    Map::new(
        |key: Seq<char>| attrs_get(entries, key) is Some,
        |key: Seq<char>| attrs_get(entries, key)->0,
    )
}

/// What `key_position` finds is the first entry with the key among the
/// first `k`, and it finds one whenever there is one.
pub proof fn lemma_key_position(entries: Seq<AttrEntryView>, key: Seq<char>, k: int)
    requires
        0 <= k <= entries.len(),
    ensures
        match key_position(entries, key, k) {
            Some(i) => 0 <= i < k && entries[i].0 == key && forall|j: int|
                0 <= j < i ==> entries[j].0 != key,
            None => forall|j: int| 0 <= j < k ==> entries[j].0 != key,
        },
    decreases k,
{
    if k > 0 {
        lemma_key_position(entries, key, k - 1);
    }
}

/// Setting a key keeps the keys unique, and the key then has the value set.
pub proof fn lemma_attrs_insert(entries: Seq<AttrEntryView>, key: Seq<char>, value: AttrView)
    requires
        unique_keys(entries),
    ensures
        unique_keys(attrs_insert(entries, key, value)),
        attrs_get(attrs_insert(entries, key, value), key) == Some(value),
        forall|other: Seq<char>|
            other != key ==> attrs_get(attrs_insert(entries, key, value), other) == attrs_get(
                entries,
                other,
            ),
{
    let after = attrs_insert(entries, key, value);
    let n = entries.len() as int;
    lemma_key_position(entries, key, n);
    lemma_key_position(after, key, after.len() as int);
    match key_position(entries, key, n) {
        Some(i) => {
            assert(after[i] == (key, value));
            assert forall|j: int| 0 <= j < after.len() && j != i implies after[j] == entries[j] by {}
            let found = key_position(after, key, n)->0;
            if found < i {
                assert(after[found] == entries[found]);
            }
            if found > i {
                assert(after[i].0 == key);
            }
        },
        None => {
            assert(after[n] == (key, value));
            assert forall|j: int| 0 <= j < n implies after[j] == entries[j] by {}
            let found = key_position(after, key, n + 1)->0;
            if found < n {
                assert(after[found] == entries[found]);
            }
        },
    }
    assert forall|other: Seq<char>| other != key implies attrs_get(after, other) == attrs_get(
        entries,
        other,
    ) by {
        lemma_key_position(entries, other, n);
        lemma_key_position(after, other, after.len() as int);
        let before_pos = key_position(entries, other, n);
        let after_pos = key_position(after, other, after.len() as int);
        assert forall|j: int| 0 <= j < n implies (#[trigger] after[j]).0 == other <==> entries[j].0
            == other by {}
        if after.len() > n {
            assert(after[n].0 == key);
        }
        match (before_pos, after_pos) {
            (Some(x), Some(y)) => {
                assert(after[x].0 == other);
                assert(entries[y].0 == other);
                assert(x == y);
                assert(after[x].1 == entries[x].1);
            },
            (Some(x), None) => {
                assert(after[x].0 == other);
            },
            (None, Some(y)) => {
                assert(y < n);
                assert(entries[y].0 == other);
            },
            (None, None) => {},
        }
    }
    assert forall|a: int, b: int| 0 <= a < b < after.len() implies after[a].0 != after[b].0 by {
        match key_position(entries, key, n) {
            Some(i) => {
                if a != i && b != i {
                    assert(entries[a].0 != entries[b].0);
                } else if a == i {
                    assert(entries[i].0 == key);
                    assert(entries[a].0 != entries[b].0);
                } else {
                    assert(entries[i].0 == key);
                    assert(entries[a].0 != entries[b].0);
                }
            },
            None => {
                if b < n {
                    assert(entries[a].0 != entries[b].0);
                } else {
                    assert(entries[a].0 != key);
                }
            },
        }
    }
}

/// Setting a key in the attributes sets it in the mapping that they are.
pub proof fn law_insert_sets_key(entries: Seq<AttrEntryView>, key: Seq<char>, value: AttrView)
    requires
        unique_keys(entries),
    ensures
        attrs_map(attrs_insert(entries, key, value)) == attrs_map(entries).insert(key, value),
{
    lemma_attrs_insert(entries, key, value);
    assert(attrs_map(attrs_insert(entries, key, value)) =~= attrs_map(entries).insert(key, value));
}

/// The attributes of an element. No key occurs twice: `new` gives none, and
/// `insert` keeps the keys apart.
#[derive(Debug)]
pub struct Attrs {
    entries: Vec<(String, AttributeTypes)>,
}

/// The plain values of the first `k` entries.
pub open spec fn entries_view(entries: Seq<(String, AttributeTypes)>, k: int) -> Seq<AttrEntryView>
    decreases k,
{
    if k <= 0 || k > entries.len() {
        Seq::empty()
    } else {
        entries_view(entries, k - 1).push((entries[k - 1].0@, entries[k - 1].1@))
    }
}

/// `entries_view` gives one plain entry for each entry, in order.
pub proof fn lemma_entries_view(entries: Seq<(String, AttributeTypes)>, k: int)
    requires
        0 <= k <= entries.len(),
    ensures
        entries_view(entries, k).len() == k,
        forall|i: int|
            0 <= i < k ==> (#[trigger] entries_view(entries, k)[i]) == (
                entries[i].0@,
                entries[i].1@,
            ),
    decreases k,
{
    if k > 0 {
        lemma_entries_view(entries, k - 1);
    }
}

impl View for Attrs {
    type V = Seq<AttrEntryView>;

    closed spec fn view(&self) -> Seq<AttrEntryView> {
        entries_view(self.entries@, self.entries@.len() as int)
    }
}

impl Attrs {
    /// No attributes.
    pub fn new() -> (attrs: Self)
        ensures
            attrs@ == Seq::<AttrEntryView>::empty(),
    {
        Attrs { entries: Vec::new() }
    }

    /// The number of attributes.
    pub fn len(&self) -> (n: usize)
        ensures
            n == self@.len(),
    {
        proof {
            lemma_entries_view(self.entries@, self.entries@.len() as int);
        }
        self.entries.len()
    }

    /// Whether there is no attribute.
    pub fn is_empty(&self) -> (empty: bool)
        ensures
            empty == (self@.len() == 0),
    {
        self.len() == 0
    }

    /// The key of the attribute at position `i`.
    pub fn key_at(&self, i: usize) -> (key: &String)
        requires
            i < self@.len(),
        ensures
            key@ == self@[i as int].0,
    {
        proof {
            lemma_entries_view(self.entries@, self.entries@.len() as int);
        }
        &self.entries[i].0
    }

    /// The value of the attribute at position `i`.
    pub fn value_at(&self, i: usize) -> (value: &AttributeTypes)
        requires
            i < self@.len(),
        ensures
            value@ == self@[i as int].1,
    {
        proof {
            lemma_entries_view(self.entries@, self.entries@.len() as int);
        }
        &self.entries[i].1
    }

    /// The position of `key`, if it is present.
    fn position(&self, key: &str) -> (found: Option<usize>)
        ensures
            match found {
                Some(i) => key_position(self@, key@, self@.len() as int) == Some(i as int) && i
                    < self@.len(),
                None => key_position(self@, key@, self@.len() as int) is None,
            },
    {
        proof {
            lemma_entries_view(self.entries@, self.entries@.len() as int);
        }
        let mut i: usize = 0;
        while i < self.entries.len()
            invariant
                i <= self.entries.len(),
                self@.len() == self.entries.len(),
                forall|j: int|
                    0 <= j < self.entries.len() ==> (#[trigger] self@[j]) == (
                        self.entries[j].0@,
                        self.entries[j].1@,
                    ),
                key_position(self@, key@, i as int) is None,
            decreases self.entries.len() - i,
        {
            if str_eq(self.entries[i].0.as_str(), key) {
                proof {
                    lemma_position_stays(self@, key@, i + 1, self@.len() as int);
                }
                return Some(i);
            }
            i += 1;
        }
        None
    }

    /// The value under `key`, if there is one.
    pub fn get(&self, key: &str) -> (value: Option<&AttributeTypes>)
        ensures
            match value {
                Some(v) => attrs_get(self@, key@) == Some(v@),
                None => attrs_get(self@, key@) is None,
            },
    {
        proof {
            lemma_entries_view(self.entries@, self.entries@.len() as int);
        }
        match self.position(key) {
            Some(i) => Some(&self.entries[i].1),
            None => None,
        }
    }

    /// Whether `key` has a value.
    pub fn contains_key(&self, key: &str) -> (present: bool)
        ensures
            present == attrs_get(self@, key@) is Some,
    {
        self.position(key).is_some()
    }

    /// Sets `key` to `value`.
    pub fn insert(&mut self, key: String, value: AttributeTypes)
        ensures
            final(self)@ == attrs_insert(old(self)@, key@, value@),
            unique_keys(old(self)@) ==> unique_keys(final(self)@),
    {
        proof {
            lemma_entries_view(self.entries@, self.entries@.len() as int);
            if unique_keys(self@) {
                lemma_attrs_insert(self@, key@, value@);
            }
        }
        let ghost before = self.entries@;
        let ghost key_text = key@;
        let ghost value_view = value@;
        match self.position(key.as_str()) {
            Some(i) => {
                self.entries[i] = (key, value);
                proof {
                    lemma_entries_view(self.entries@, self.entries@.len() as int);
                    assert(entries_view(self.entries@, self.entries@.len() as int) =~= attrs_insert(
                        entries_view(before, before.len() as int),
                        key_text,
                        value_view,
                    ));
                }
            },
            None => {
                self.entries.push((key, value));
                proof {
                    lemma_entries_view(self.entries@, self.entries@.len() as int);
                    assert(entries_view(self.entries@, self.entries@.len() as int) =~= attrs_insert(
                        entries_view(before, before.len() as int),
                        key_text,
                        value_view,
                    ));
                }
            },
        }
    }
}

/// Once `key_position` has found an entry, it finds the same among more.
pub proof fn lemma_position_stays(entries: Seq<AttrEntryView>, key: Seq<char>, k: int, n: int)
    requires
        0 <= k <= n <= entries.len(),
        key_position(entries, key, k) is Some,
    ensures
        key_position(entries, key, n) == key_position(entries, key, k),
    decreases n - k,
{
    if k < n {
        lemma_position_stays(entries, key, k, n - 1);
    }
}

impl Clone for Attrs {
    fn clone(&self) -> (copy: Self)
        ensures
            copy@ == self@,
    {
        proof {
            lemma_entries_view(self.entries@, self.entries@.len() as int);
        }
        let mut entries: Vec<(String, AttributeTypes)> = Vec::new();
        let mut i: usize = 0;
        while i < self.entries.len()
            invariant
                i <= self.entries.len(),
                entries@.len() == i,
                forall|m: int|
                    0 <= m < i ==> (#[trigger] entries@[m].0@, entries@[m].1@) == (
                        self.entries@[m].0@,
                        self.entries@[m].1@,
                    ),
            decreases self.entries.len() - i,
        {
            entries.push((self.entries[i].0.clone(), self.entries[i].1.clone()));
            i += 1;
        }
        proof {
            lemma_entries_view(entries@, entries@.len() as int);
            assert(entries_view(entries@, entries@.len() as int) =~= entries_view(
                self.entries@,
                self.entries@.len() as int,
            ));
        }
        Attrs { entries }
    }
}

impl Default for Attrs {
    fn default() -> (attrs: Self)
        ensures
            attrs@ == Seq::<AttrEntryView>::empty(),
    {
        Attrs::new()
    }
}

} // verus!
