//! The node card: an identifier and three coordinates.

use crate::decode::FloatLiteral;
use crate::error::{agrees, Diagnostics, Error, ErrorMode, ErrorView, Outcome};
use crate::record::{
    check_tag, expect_tag, finish, float_fields, read_float_fields, read_unsigned_fields,
    settle_extraneous, unsigned_fields,
};
use crate::text::{split_whitespace, tokens, views};
use vstd::prelude::*;

verus! {

pub const NODE_TAG: &'static str = "ND";

/// A node: its identifier and the spellings of its x, y and z coordinates.
pub struct NodeView {
    pub id: u32,
    pub coordinate: Seq<Seq<char>>,
}

/// A point of the mesh. Its card has the tag `ND`.
#[derive(Clone, Debug)]
pub struct Node {
    /// The identifier of the node.
    pub id: u32,
    /// The x, y and z coordinates of the point.
    pub coordinate: [FloatLiteral; 3],
}

impl View for Node {
    type V = NodeView;

    open spec fn view(&self) -> NodeView {
        NodeView { id: self.id, coordinate: views(self.coordinate@) }
    }
}

/// What reading `line` as a node card comes to.
pub open spec fn node_outcome(line: Seq<char>, mode: ErrorMode) -> Outcome<NodeView> {
    let toks = tokens(line);
    match check_tag(toks, NODE_TAG@) {
        Err(e) => Outcome::fail(e),
        Ok(_) => match unsigned_fields(toks, 1, 1) {
            Err(e) => Outcome::fail(e),
            Ok(ids) => match float_fields(toks, 2, 3) {
                Err(e) => Outcome::fail(e),
                Ok(coordinate) => finish(NodeView { id: ids[0], coordinate }, toks, 5, mode),
            },
        },
    }
}

impl Node {
    /// Reads an `ND` card.
    pub fn from_str(line: &str, mode: ErrorMode, sink: &mut Diagnostics) -> (result: Result<
        Node,
        Error,
    >)
        ensures
            agrees(result, node_outcome(line@, mode).result),
            final(sink)@ == old(sink)@ + node_outcome(line@, mode).reported,
    {
        let toks = split_whitespace(line);
        proof {
            assert(sink@ =~= old(sink)@ + Seq::<ErrorView>::empty());
        }
        match expect_tag(&toks, NODE_TAG) {
            Err(e) => {
                return Err(e);
            },
            Ok(_) => {},
        }
        let ids = match read_unsigned_fields(&toks, 1, 1) {
            Err(e) => {
                return Err(e);
            },
            Ok(ids) => ids,
        };
        let mut coordinate = match read_float_fields(&toks, 2, 3) {
            Err(e) => {
                return Err(e);
            },
            Ok(coordinate) => coordinate,
        };
        let ghost spelled = views(coordinate@);
        match settle_extraneous(&toks, 5, mode, sink) {
            Err(e) => Err(e),
            Ok(_) => {
                let z = coordinate.pop().unwrap();
                let y = coordinate.pop().unwrap();
                let x = coordinate.pop().unwrap();
                let node = Node { id: ids[0], coordinate: [x, y, z] };
                assert(node@.coordinate =~= spelled);
                Ok(node)
            },
        }
    }
}

} // verus!
