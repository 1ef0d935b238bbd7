//! The document model: elements with a tag, attributes and content.

use crate::binary::attrs::{AttrEntryView, Attrs};
use crate::text::{decimal_text, i64_to_string, str_eq, u64_to_string};
use crate::types::jid::{JID, JidView};
use vstd::prelude::*;
use vstd::string::*;

verus! {

/// What an element holds inside.
#[derive(Debug)]
pub enum NodeContentType {
    /// Nothing.
    Absent,
    /// Child elements, in order.
    ListOfNodes(Vec<Node>),
    /// Raw bytes.
    ByteArray(Vec<u8>),
    /// An identifier; written in its wire form, never read back as content.
    JID(JID),
    /// A string; written as text, read back as bytes.
    String(String),
    /// A number, written as its decimal text.
    I32(i32),
    /// A number, written as its decimal text.
    U32(u32),
    /// A number, written as its decimal text.
    I64(i64),
    /// A number, written as its decimal text.
    U64(u64),
    /// A truth value, written as `true` or `false`.
    Bool(bool),
}

/// An element.
#[derive(Debug)]
pub struct Node {
    /// The tag of the element.
    pub tag: String,
    /// The attributes of the element.
    pub attrs: Attrs,
    /// The content inside the element.
    pub content: NodeContentType,
}

/// What a `NodeContentType` holds, as plain values.
pub enum ContentView {
    Absent,
    List(Seq<NodeView>),
    Bytes(Seq<u8>),
    Jid(JidView),
    Text(Seq<char>),
    I32(i32),
    U32(u32),
    I64(i64),
    U64(u64),
    Bool(bool),
}

/// What a `Node` holds, as plain values.
pub struct NodeView {
    pub tag: Seq<char>,
    pub attrs: Seq<AttrEntryView>,
    pub content: ContentView,
}

/// The plain values of a content.
pub open spec fn content_view(content: NodeContentType) -> ContentView
    decreases content, 0int,
{
    match content {
        NodeContentType::Absent => ContentView::Absent,
        NodeContentType::ListOfNodes(nodes) => ContentView::List(
            nodes_view(nodes@, nodes@.len() as int),
        ),
        NodeContentType::ByteArray(bytes) => ContentView::Bytes(bytes@),
        NodeContentType::JID(jid) => ContentView::Jid(jid@),
        NodeContentType::String(text) => ContentView::Text(text@),
        NodeContentType::I32(n) => ContentView::I32(n),
        NodeContentType::U32(n) => ContentView::U32(n),
        NodeContentType::I64(n) => ContentView::I64(n),
        NodeContentType::U64(n) => ContentView::U64(n),
        NodeContentType::Bool(b) => ContentView::Bool(b),
    }
}

/// The plain values of an element.
pub open spec fn node_view(node: Node) -> NodeView
    decreases node, 0int,
{
    NodeView { tag: node.tag@, attrs: node.attrs@, content: content_view(node.content) }
}

/// The plain values of the first `k` elements of a list.
pub open spec fn nodes_view(nodes: Seq<Node>, k: int) -> Seq<NodeView>
    decreases nodes, k,
{
    if k <= 0 || k > nodes.len() {
        Seq::empty()
    } else {
        nodes_view(nodes, k - 1).push(node_view(nodes[k - 1]))
    }
}

/// `nodes_view` gives the plain values of each element, in order.
pub proof fn lemma_nodes_view(nodes: Seq<Node>, k: int)
    requires
        0 <= k <= nodes.len(),
    ensures
        nodes_view(nodes, k).len() == k,
        forall|i: int| 0 <= i < k ==> (#[trigger] nodes_view(nodes, k)[i]) == node_view(nodes[i]),
    decreases k,
{
    if k > 0 {
        lemma_nodes_view(nodes, k - 1);
    }
}

impl View for NodeContentType {
    type V = ContentView;

    open spec fn view(&self) -> ContentView {
        content_view(*self)
    }
}

impl View for Node {
    type V = NodeView;

    open spec fn view(&self) -> NodeView {
        node_view(*self)
    }
}

impl Default for NodeContentType {
    fn default() -> (content: Self)
        ensures
            content@ == ContentView::Absent,
    {
        NodeContentType::Absent
    }
}

impl Default for Node {
    fn default() -> (node: Self)
        ensures
            node@ == (NodeView {
                tag: Seq::empty(),
                attrs: Seq::empty(),
                content: ContentView::Absent,
            }),
    {
        Node { tag: String::new(), attrs: Attrs::new(), content: NodeContentType::Absent }
    }
}

/// Copies a list of elements.
fn clone_nodes(nodes: &Vec<Node>) -> (copy: Vec<Node>)
    ensures
        copy@.len() == nodes@.len(),
        nodes_view(copy@, copy@.len() as int) == nodes_view(nodes@, nodes@.len() as int),
    decreases nodes, 0int,
{
    let mut copy: Vec<Node> = Vec::new();
    let mut i: usize = 0;
    while i < nodes.len()
        invariant
            i <= nodes.len(),
            copy@.len() == i,
            nodes_view(copy@, i as int) == nodes_view(nodes@, i as int),
        decreases nodes.len() - i,
    {
        let ghost before = copy@;
        let node = clone_node(&nodes[i]);
        copy.push(node);
        proof {
            lemma_nodes_view(before, i as int);
            lemma_nodes_view(copy@, i as int);
            assert(nodes_view(copy@, i as int) =~= nodes_view(before, i as int));
        }
        i += 1;
    }
    copy
}

/// Copies a content.
fn clone_content(content: &NodeContentType) -> (copy: NodeContentType)
    ensures
        copy@ == content@,
    decreases content, 1int,
{
    match content {
        NodeContentType::Absent => NodeContentType::Absent,
        NodeContentType::ListOfNodes(nodes) => {
            assert(content->ListOfNodes_0 == *nodes);
            NodeContentType::ListOfNodes(clone_nodes(nodes))
        },
        NodeContentType::ByteArray(bytes) => NodeContentType::ByteArray(bytes.clone()),
        NodeContentType::JID(jid) => NodeContentType::JID(jid.clone()),
        NodeContentType::String(text) => NodeContentType::String(text.clone()),
        NodeContentType::I32(n) => NodeContentType::I32(*n),
        NodeContentType::U32(n) => NodeContentType::U32(*n),
        NodeContentType::I64(n) => NodeContentType::I64(*n),
        NodeContentType::U64(n) => NodeContentType::U64(*n),
        NodeContentType::Bool(b) => NodeContentType::Bool(*b),
    }
}

/// Copies an element.
fn clone_node(node: &Node) -> (copy: Node)
    ensures
        copy@ == node@,
    decreases node, 2int,
{
    Node {
        tag: node.tag.clone(),
        attrs: node.attrs.clone(),
        content: clone_content(&node.content),
    }
}

impl Clone for NodeContentType {
    fn clone(&self) -> (copy: Self)
        ensures
            copy@ == self@,
    {
        clone_content(self)
    }
}

impl Clone for Node {
    fn clone(&self) -> (copy: Self)
        ensures
            copy@ == self@,
    {
        clone_node(self)
    }
}

/// The text of a content that is one value: an identifier in its canonical
/// form, a string as it is, a number in decimal, a truth value as `true` or
/// `false`. Every other content has the empty text.
pub open spec fn scalar_text(content: ContentView) -> Seq<char> {
    match content {
        ContentView::Jid(jid) => jid.text(),
        ContentView::Text(text) => text,
        ContentView::I32(n) => decimal_text(n as int),
        ContentView::U32(n) => decimal_text(n as int),
        ContentView::I64(n) => decimal_text(n as int),
        ContentView::U64(n) => decimal_text(n as int),
        ContentView::Bool(b) => if b {
            "true"@
        } else {
            "false"@
        },
        _ => Seq::empty(),
    }
}

/// The plain values of a list of elements.
pub open spec fn list_view(nodes: Vec<Node>) -> Seq<NodeView> {
    nodes_view(nodes@, nodes@.len() as int)
}

/// The test whether an element has the tag `tag`.
pub open spec fn has_tag(tag: Seq<char>) -> spec_fn(NodeView) -> bool {
    |node: NodeView| node.tag == tag
}

/// The first element with the tag `tag` at or after position `from`.
pub open spec fn first_with_tag(nodes: Seq<NodeView>, tag: Seq<char>, from: int) -> Option<int>
    decreases nodes.len() - from,
{
    if from < 0 || from >= nodes.len() {
        None
    } else if nodes[from].tag == tag {
        Some(from)
    } else {
        first_with_tag(nodes, tag, from + 1)
    }
}

/// The element that the path `tags[k..]` leads to from `node`: each tag
/// names the first child with that tag. The empty path leads to the
/// element itself.
pub open spec fn child_by_path(node: NodeView, tags: Seq<&str>, k: int) -> Option<NodeView>
    decreases tags.len() - k,
{
    if k < 0 || k >= tags.len() {
        Some(node)
    } else {
        match node.content {
            ContentView::List(children) => match first_with_tag(children, tags[k]@, 0) {
                Some(i) => child_by_path(children[i], tags, k + 1),
                None => None,
            },
            _ => None,
        }
    }
}

/// The position of the first element with the tag `tag`.
fn find_child(children: &Vec<Node>, tag: &str) -> (found: Option<usize>)
    ensures
        match found {
            Some(i) => i < children@.len() && first_with_tag(list_view(*children), tag@, 0)
                == Some(i as int),
            None => first_with_tag(list_view(*children), tag@, 0) is None,
        },
{
    proof {
        lemma_nodes_view(children@, children@.len() as int);
    }
    let mut i: usize = 0;
    while i < children.len()
        invariant
            i <= children.len(),
            list_view(*children).len() == children@.len(),
            forall|j: int|
                0 <= j < children@.len() ==> (#[trigger] list_view(*children)[j]) == children@[j]@,
            first_with_tag(list_view(*children), tag@, 0) == first_with_tag(
                list_view(*children),
                tag@,
                i as int,
            ),
        decreases children.len() - i,
    {
        if str_eq(children[i].tag.as_str(), tag) {
            return Some(i);
        }
        i += 1;
    }
    None
}

impl NodeContentType {
    /// The text of a content that is one value; the empty text for no
    /// content, children and bytes.
    pub fn other_types_to_string(&self) -> (text: String)
        ensures
            text@ == scalar_text(self@),
    {
        match self {
            Self::Absent | Self::ListOfNodes(_) | Self::ByteArray(_) => String::new(),
            Self::JID(v) => v.to_string(),
            Self::String(v) => v.clone(),
            Self::I32(v) => i64_to_string(*v as i64),
            Self::U32(v) => u64_to_string(*v as u64),
            Self::I64(v) => i64_to_string(*v),
            Self::U64(v) => u64_to_string(*v),
            Self::Bool(v) => if *v {
                "true".to_owned()
            } else {
                "false".to_owned()
            },
        }
    }
}

impl Node {
    /// The children of the element, where its content is a list of
    /// elements.
    pub fn get_children(&self) -> (children: Option<Vec<Node>>)
        ensures
            match self@.content {
                ContentView::List(nodes) => children is Some && list_view(children->0) == nodes,
                _ => children is None,
            },
    {
        match &self.content {
            NodeContentType::ListOfNodes(nodes) => Some(clone_nodes(nodes)),
            _ => None,
        }
    }

    /// The children of the element that have the tag `tag`, in order.
    pub fn get_children_by_tag(&self, tag: &str) -> (children: Option<Vec<Node>>)
        ensures
            match self@.content {
                ContentView::List(nodes) => children is Some && list_view(children->0)
                    == nodes.filter(has_tag(tag@)),
                _ => children is None,
            },
    {
        match &self.content {
            NodeContentType::ListOfNodes(nodes) => {
                let ghost all = list_view(*nodes);
                let ghost test = has_tag(tag@);
                proof {
                    lemma_nodes_view(nodes@, nodes@.len() as int);
                    reveal(Seq::filter);
                    assert(all.subrange(0, 0).filter(test) =~= Seq::<NodeView>::empty());
                }
                let mut found: Vec<Node> = Vec::new();
                let mut i: usize = 0;
                while i < nodes.len()
                    invariant
                        i <= nodes.len(),
                        all == list_view(*nodes),
                        all.len() == nodes@.len(),
                        test == has_tag(tag@),
                        forall|j: int| 0 <= j < nodes@.len() ==> (#[trigger] all[j]) == nodes@[j]@,
                        list_view(found) == all.subrange(0, i as int).filter(test),
                    decreases nodes.len() - i,
                {
                    let ghost before = found@;
                    proof {
                        reveal(Seq::filter);
                        assert(all.subrange(0, i + 1).drop_last() =~= all.subrange(0, i as int));
                        assert(all.subrange(0, i + 1).last() == all[i as int]);
                    }
                    if str_eq(nodes[i].tag.as_str(), tag) {
                        found.push(nodes[i].clone());
                        proof {
                            lemma_nodes_view(before, before.len() as int);
                            lemma_nodes_view(found@, found@.len() as int);
                            assert(list_view(found) =~= nodes_view(before, before.len() as int).push(
                                all[i as int],
                            ));
                        }
                    }
                    i += 1;
                }
                assert(all.subrange(0, nodes@.len() as int) =~= all);
                Some(found)
            },
            _ => None,
        }
    }

    /// The element that the path `tags` leads to: each tag names the first
    /// child with that tag, and the next tag is looked for among the
    /// children of that child.
    pub fn get_optional_child_by_tag(&self, tags: &[&str]) -> (child: Option<Node>)
        ensures
            match child {
                Some(node) => child_by_path(self@, tags@, 0) == Some(node@),
                None => child_by_path(self@, tags@, 0) is None,
            },
    {
        let mut current: &Node = self;
        let mut k: usize = 0;
        while k < tags.len()
            invariant
                k <= tags.len(),
                child_by_path(self@, tags@, 0) == child_by_path(current@, tags@, k as int),
            decreases tags.len() - k,
        {
            match &current.content {
                NodeContentType::ListOfNodes(children) => {
                    proof {
                        lemma_nodes_view(children@, children@.len() as int);
                    }
                    match find_child(children, tags[k]) {
                        Some(i) => {
                            current = &children[i];
                        },
                        None => {
                            return None;
                        },
                    }
                },
                _ => {
                    return None;
                },
            }
            k += 1;
        }
        Some(current.clone())
    }
}

} // verus!
