//! The two ends of the codec: an element to a payload, and a payload to
//! the element that it holds.

use crate::binary::decoder::BinaryDecoder;
use crate::binary::encoder::BinaryEncoder;
use crate::binary::envelope::{law_unpack_plain, unpack_data, unpacked};
use crate::binary::errors::DecoderError;
use crate::binary::laws::{
    attrs_round_trip, content_round_trips, decoded_node, jid_round_trips, law_round_trip,
    node_round_trips, nodes_round_trip, text_round_trips,
};
use crate::binary::node::{ContentView, Node, NodeView};
use crate::binary::reading::parse_node;
use crate::binary::wire::{
    attr_encodable, attrs_encodable, content_encodable, encode_node, jid_encodable,
    node_encodable, nodes_encodable,
};
use vstd::prelude::*;

verus! {

/// What a payload holds: the element that is read behind the envelope, or
/// why there is none.
pub open spec fn unmarshalled(payload: Seq<u8>) -> Result<NodeView, DecoderError> {
    match unpacked(payload) {
        Err(e) => Err(e),
        Ok(data) => match parse_node(data, 0) {
            Err(e) => Err(e),
            Ok((node, _)) => Ok(node),
        },
    }
}

/// Writes an element as a payload: the byte that tells an uncompressed
/// payload, then the element. Gives nothing where the element cannot be
/// written, because a string or a block is too long or a list too large.
pub fn marshal(node: &Node) -> (payload: Option<Vec<u8>>)
    ensures
        match payload {
            Some(bytes) => node_encodable(node@) && bytes@ == seq![0u8] + encode_node(node@),
            None => !node_encodable(node@),
        },
{
    if !BinaryEncoder::can_write_node(node) {
        return None;
    }
    let mut encoder = BinaryEncoder::new();
    encoder.write_node(node);
    Some(encoder.get_data())
}

/// Reads the element that a payload holds.
pub fn unmarshal(payload: &Vec<u8>) -> (node: Result<Node, DecoderError>)
    ensures
        match node {
            Ok(n) => unmarshalled(payload@) == Ok::<NodeView, DecoderError>(n@),
            Err(e) => unmarshalled(payload@) == Err::<NodeView, DecoderError>(e),
        },
{
    match unpack_data(payload) {
        Err(e) => Err(e),
        Ok(data) => {
            let mut decoder = BinaryDecoder::new(&data);
            decoder.read_node()
        },
    }
}

/// The first `k` elements of a list that are read back can be written.
proof fn lemma_nodes_can_be_written(nodes: Seq<NodeView>, k: int)
    requires
        0 <= k <= nodes.len(),
        nodes_round_trip(nodes, k),
    ensures
        nodes_encodable(nodes, k),
    decreases nodes, k,
{
    if k > 0 {
        lemma_nodes_can_be_written(nodes, k - 1);
        lemma_node_can_be_written(nodes[k - 1]);
    }
}

/// A content that is read back can be written.
proof fn lemma_content_can_be_written(content: ContentView)
    requires
        content_round_trips(content),
    ensures
        content_encodable(content),
    decreases content, 1int,
{
    match content {
        ContentView::List(nodes) => {
            lemma_nodes_can_be_written(nodes, nodes.len() as int);
        },
        _ => {},
    }
}

/// An element that is read back can be written.
proof fn lemma_node_can_be_written(node: NodeView)
    requires
        node_round_trips(node),
    ensures
        node_encodable(node),
    decreases node, 1int,
{
    assert forall|i: int| 0 <= i < node.attrs.len() implies attr_encodable(
        #[trigger] node.attrs[i],
    ) by {
        assert(crate::binary::laws::attr_round_trips(node.attrs[i]));
    }
    lemma_content_can_be_written(node.content);
}

/// What `marshal` writes, `unmarshal` reads back: for an element that
/// `node_round_trips` admits, `marshal` gives a payload, and the payload
/// holds the element as `decoded_node` says.
pub proof fn law_unmarshal_marshal(node: NodeView)
    requires
        node_round_trips(node),
    ensures
        node_encodable(node),
        unmarshalled(seq![0u8] + encode_node(node)) == Ok::<NodeView, DecoderError>(
            decoded_node(node),
        ),
{
    lemma_node_can_be_written(node);
    law_unpack_plain(encode_node(node));
    law_round_trip(node, Seq::empty());
    assert(encode_node(node) + Seq::<u8>::empty() =~= encode_node(node));
}

} // verus!
