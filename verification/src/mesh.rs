//! The mesh and the loop that reads it: one card per line, each sent to the
//! reader of its tag, a nodestring carried from line to line until its tail.

use crate::element::{
    element_outcome, ElementView, E2L, E2L_TAG, E3L, E3L_TAG, E3T, E3T_TAG, E4Q, E4Q_TAG, E6T,
    E6T_TAG, E8Q, E8Q_TAG, E9Q, E9Q_TAG,
};
use crate::error::{
    agrees, weak_error, weak_outcome, Diagnostics, Error, ErrorMode, ErrorView, Outcome,
};
use crate::node::{node_outcome, Node, NodeView, NODE_TAG};
use crate::nodestring::{ingest_outcome, Nodestring, NODESTRING_TAG};
use crate::record::{
    check_tag, expect_tag, finish, read_unsigned_fields, settle_extraneous, unsigned_fields,
};
use crate::text::{lines, split_lines, split_whitespace, str_eq, tokens, views};
use std::ops::ControlFlow;
use vstd::prelude::*;

verus! {

pub const MESH_2D_TAG: &'static str = "MESH2D";

pub const MATERIAL_COUNT_PER_ELEMENT_TAG: &'static str = "NUM_MATERIALS_PER_ELEM";

/// How many materials an element has. Its card has the tag
/// `NUM_MATERIALS_PER_ELEM`.
#[derive(Copy, Clone, Debug, PartialEq)]
pub struct MaterialCountPerElement(pub u32);

impl View for MaterialCountPerElement {
    type V = u32;

    open spec fn view(&self) -> u32 {
        self.0
    }
}

/// What reading `line` as a material count card comes to.
pub open spec fn material_count_outcome(line: Seq<char>, mode: ErrorMode) -> Outcome<u32> {
    let toks = tokens(line);
    match check_tag(toks, MATERIAL_COUNT_PER_ELEMENT_TAG@) {
        Err(e) => Outcome::fail(e),
        Ok(_) => match unsigned_fields(toks, 1, 1) {
            Err(e) => Outcome::fail(e),
            Ok(counts) => finish(counts[0], toks, 2, mode),
        },
    }
}

impl MaterialCountPerElement {
    /// Reads a `NUM_MATERIALS_PER_ELEM` card.
    pub fn from_str(line: &str, mode: ErrorMode, sink: &mut Diagnostics) -> (result: Result<
        MaterialCountPerElement,
        Error,
    >)
        ensures
            agrees(result, material_count_outcome(line@, mode).result),
            final(sink)@ == old(sink)@ + material_count_outcome(line@, mode).reported,
    {
        let toks = split_whitespace(line);
        proof {
            assert(sink@ =~= old(sink)@ + Seq::<ErrorView>::empty());
        }
        match expect_tag(&toks, MATERIAL_COUNT_PER_ELEMENT_TAG) {
            Err(e) => {
                return Err(e);
            },
            Ok(_) => {},
        }
        let counts = match read_unsigned_fields(&toks, 1, 1) {
            Err(e) => {
                return Err(e);
            },
            Ok(counts) => counts,
        };
        match settle_extraneous(&toks, 2, mode, sink) {
            Err(e) => Err(e),
            Ok(_) => Ok(MaterialCountPerElement(counts[0])),
        }
    }
}

/// A mesh as plain sequences, each in the order of the input.
pub struct MeshView {
    pub material_count_per_element: Option<u32>,
    pub nodes: Seq<NodeView>,
    pub e2ls: Seq<ElementView>,
    pub e3ls: Seq<ElementView>,
    pub e3ts: Seq<ElementView>,
    pub e6ts: Seq<ElementView>,
    pub e4qs: Seq<ElementView>,
    pub e8qs: Seq<ElementView>,
    pub e9qs: Seq<ElementView>,
    pub nodestring: Seq<Seq<u32>>,
}

impl MeshView {
    /// The mesh that holds nothing.
    pub open spec fn empty() -> MeshView {
        MeshView {
            material_count_per_element: None,
            nodes: Seq::empty(),
            e2ls: Seq::empty(),
            e3ls: Seq::empty(),
            e3ts: Seq::empty(),
            e6ts: Seq::empty(),
            e4qs: Seq::empty(),
            e8qs: Seq::empty(),
            e9qs: Seq::empty(),
            nodestring: Seq::empty(),
        }
    }
}

/// A two-dimensional mesh as its cards describe it.
#[derive(Clone, Debug)]
pub struct Mesh2D {
    /// The number of materials per element, where a card gives it.
    pub material_count_per_element: Option<MaterialCountPerElement>,
    /// The nodes.
    pub nodes: Vec<Node>,
    /// The linear elements of two nodes.
    pub e2ls: Vec<E2L>,
    /// The linear elements of three nodes.
    pub e3ls: Vec<E3L>,
    /// The triangular elements of three nodes.
    pub e3ts: Vec<E3T>,
    /// The triangular elements of six nodes.
    pub e6ts: Vec<E6T>,
    /// The quadrilateral elements of four nodes.
    pub e4qs: Vec<E4Q>,
    /// The quadrilateral elements of eight nodes.
    pub e8qs: Vec<E8Q>,
    /// The quadrilateral elements of nine nodes.
    pub e9qs: Vec<E9Q>,
    /// The nodestrings.
    pub nodestring: Vec<Nodestring>,
}

impl View for Mesh2D {
    type V = MeshView;

    open spec fn view(&self) -> MeshView {
        MeshView {
            material_count_per_element: match self.material_count_per_element {
                Some(count) => Some(count@),
                None => None,
            },
            nodes: views(self.nodes@),
            e2ls: views(self.e2ls@),
            e3ls: views(self.e3ls@),
            e3ts: views(self.e3ts@),
            e6ts: views(self.e6ts@),
            e4qs: views(self.e4qs@),
            e8qs: views(self.e8qs@),
            e9qs: views(self.e9qs@),
            nodestring: views(self.nodestring@),
        }
    }
}

/// Where the reading of the cards stands: the mesh so far, and the nodes of
/// a nodestring that has begun and not ended.
pub struct ParseState {
    pub mesh: MeshView,
    pub pending: Option<Seq<u32>>,
}

/// Feeds `line` to the nodestring that holds `nodes`. With its tail the
/// nodestring joins the mesh; without it the next line goes on.
pub open spec fn nodestring_step(
    line: Seq<char>,
    nodes: Seq<u32>,
    mesh: MeshView,
    mode: ErrorMode,
) -> Outcome<ParseState> {
    let fed = ingest_outcome(nodes, line, mode);
    Outcome {
        result: match fed.ended {
            Err(e) => Err(e),
            Ok(true) => Ok(
                ParseState {
                    mesh: MeshView { nodestring: mesh.nodestring.push(fed.nodes), ..mesh },
                    pending: None,
                },
            ),
            Ok(false) => Ok(ParseState { mesh, pending: Some(fed.nodes) }),
        },
        reported: fed.reported,
    }
}

/// Reads a material count card into a mesh. A mesh that has its count
/// already meets a weak violation first; where that is tolerated, the later
/// card replaces the count.
pub open spec fn material_count_step(line: Seq<char>, mesh: MeshView, mode: ErrorMode) -> Outcome<
    MeshView,
> {
    let twice = if mesh.material_count_per_element is Some {
        weak_outcome(ErrorView::ExtraneousCard(MATERIAL_COUNT_PER_ELEMENT_TAG@), mode)
    } else {
        Outcome::ok(())
    };
    match twice.result {
        Err(e) => Outcome { result: Err(e), reported: twice.reported },
        Ok(_) => material_count_outcome(line, mode).map(
            |count: u32| MeshView { material_count_per_element: Some(count), ..mesh },
        ).after(twice.reported),
    }
}

/// Reads a line that begins a card into a mesh: the tag in front of it
/// chooses the reader, and what that reads joins the sequence of its kind.
/// A line without tokens is a weak violation; a line with a tag that has no
/// reader changes nothing.
pub open spec fn card_step(line: Seq<char>, mesh: MeshView, mode: ErrorMode) -> Outcome<
    ParseState,
> {
    let toks = tokens(line);
    if toks.len() == 0 {
        weak_outcome(ErrorView::EmptyLine, mode).map(
            |u: ()| ParseState { mesh, pending: None },
        )
    } else if toks[0] == MATERIAL_COUNT_PER_ELEMENT_TAG@ {
        material_count_step(line, mesh, mode).map(
            |next: MeshView| ParseState { mesh: next, pending: None },
        )
    } else if toks[0] == NODE_TAG@ {
        node_outcome(line, mode).map(
            |node: NodeView|
                ParseState { mesh: MeshView { nodes: mesh.nodes.push(node), ..mesh }, pending: None },
        )
    } else if toks[0] == E2L_TAG@ {
        element_outcome(line, E2L_TAG@, 2, mode).map(
            |e: ElementView|
                ParseState { mesh: MeshView { e2ls: mesh.e2ls.push(e), ..mesh }, pending: None },
        )
    } else if toks[0] == E3L_TAG@ {
        element_outcome(line, E3L_TAG@, 3, mode).map(
            |e: ElementView|
                ParseState { mesh: MeshView { e3ls: mesh.e3ls.push(e), ..mesh }, pending: None },
        )
    } else if toks[0] == E3T_TAG@ {
        element_outcome(line, E3T_TAG@, 3, mode).map(
            |e: ElementView|
                ParseState { mesh: MeshView { e3ts: mesh.e3ts.push(e), ..mesh }, pending: None },
        )
    } else if toks[0] == E6T_TAG@ {
        element_outcome(line, E6T_TAG@, 6, mode).map(
            |e: ElementView|
                ParseState { mesh: MeshView { e6ts: mesh.e6ts.push(e), ..mesh }, pending: None },
        )
    } else if toks[0] == E4Q_TAG@ {
        element_outcome(line, E4Q_TAG@, 4, mode).map(
            |e: ElementView|
                ParseState { mesh: MeshView { e4qs: mesh.e4qs.push(e), ..mesh }, pending: None },
        )
    } else if toks[0] == E8Q_TAG@ {
        element_outcome(line, E8Q_TAG@, 8, mode).map(
            |e: ElementView|
                ParseState { mesh: MeshView { e8qs: mesh.e8qs.push(e), ..mesh }, pending: None },
        )
    } else if toks[0] == E9Q_TAG@ {
        element_outcome(line, E9Q_TAG@, 9, mode).map(
            |e: ElementView|
                ParseState { mesh: MeshView { e9qs: mesh.e9qs.push(e), ..mesh }, pending: None },
        )
    } else if toks[0] == NODESTRING_TAG@ {
        nodestring_step(line, Seq::empty(), mesh, mode)
    } else {
        Outcome::ok(ParseState { mesh, pending: None })
    }
}

/// What one line does to the state of the reading.
pub open spec fn line_step(line: Seq<char>, state: ParseState, mode: ErrorMode) -> Outcome<
    ParseState,
> {
    match state.pending {
        Some(nodes) => nodestring_step(line, nodes, state.mesh, mode),
        None => card_step(line, state.mesh, mode),
    }
}

/// What reading the lines `rest` from `state` on comes to: the state behind
/// the last of them. Each line is read once, in order; the first failure
/// ends the reading.
pub open spec fn read_lines(rest: Seq<Seq<char>>, state: ParseState, mode: ErrorMode) -> Outcome<
    ParseState,
>
    decreases rest.len(),
{
    if rest.len() == 0 {
        Outcome::ok(state)
    } else {
        let step = line_step(rest[0], state, mode);
        match step.result {
            Err(e) => Outcome { result: Err(e), reported: step.reported },
            Ok(next) => read_lines(rest.drop_first(), next, mode).after(step.reported),
        }
    }
}

/// What the end of the input makes of a state: inside a nodestring it is a
/// failure, whatever the mode; elsewhere the mesh is complete.
pub open spec fn close(state: ParseState) -> Result<MeshView, ErrorView> {
    match state.pending {
        Some(_) => Err(ErrorView::MissingCard(NODESTRING_TAG@)),
        None => Ok(state.mesh),
    }
}

/// What reading the lines `rest` from `state` on, up to the end of the
/// input, comes to.
pub open spec fn cards_outcome(rest: Seq<Seq<char>>, state: ParseState, mode: ErrorMode) -> Outcome<
    MeshView,
> {
    let read = read_lines(rest, state, mode);
    Outcome {
        result: match read.result {
            Err(e) => Err(e),
            Ok(last) => close(last),
        },
        reported: read.reported,
    }
}

/// What the first line comes to: anything but the header, or no line at
/// all, is a weak violation.
pub open spec fn header_outcome(all: Seq<Seq<char>>, mode: ErrorMode) -> Outcome<()> {
    if all.len() > 0 && all[0] == MESH_2D_TAG@ {
        Outcome::ok(())
    } else {
        weak_outcome(ErrorView::MissingCard(MESH_2D_TAG@), mode)
    }
}

/// The lines behind the first.
pub open spec fn cards_of(all: Seq<Seq<char>>) -> Seq<Seq<char>> {
    if all.len() == 0 {
        all
    } else {
        all.drop_first()
    }
}

/// What parsing the lines `all` under `mode` comes to: the first line is
/// taken for the header, whatever it holds, the lines behind it for the
/// cards.
pub open spec fn lines_outcome(all: Seq<Seq<char>>, mode: ErrorMode) -> Outcome<MeshView> {
    let header = header_outcome(all, mode);
    match header.result {
        Err(e) => Outcome { result: Err(e), reported: header.reported },
        Ok(_) => cards_outcome(
            cards_of(all),
            ParseState { mesh: MeshView::empty(), pending: None },
            mode,
        ).after(header.reported),
    }
}

/// What parsing `text` under `mode` comes to.
pub open spec fn mesh_outcome(text: Seq<char>, mode: ErrorMode) -> Outcome<MeshView> {
    lines_outcome(lines(text), mode)
}

/// Adding a member to a list adds its view to the views.
pub proof fn lemma_views_push<T: View>(list: Seq<T>, member: T)
    ensures
        views(list.push(member)) == views(list).push(member@),
{
    assert(views(list.push(member)) =~= views(list).push(member@));
}

/// The state that a mesh and a nodestring in progress stand for.
pub open spec fn state_of(mesh: Mesh2D, pending: Option<Nodestring>) -> ParseState {
    ParseState {
        mesh: mesh@,
        pending: match pending {
            Some(nodestring) => Some(nodestring@),
            None => None,
        },
    }
}

/// Feeds `line` to a nodestring; with its tail the nodestring joins the
/// mesh.
fn feed_nodestring(
    mesh: Mesh2D,
    nodestring: Nodestring,
    line: &str,
    mode: ErrorMode,
    sink: &mut Diagnostics,
) -> (result: Result<(Mesh2D, Option<Nodestring>), Error>)
    ensures
        match result {
            Ok(next) => nodestring_step(line@, nodestring@, mesh@, mode).result == Ok::<
                ParseState,
                ErrorView,
            >(state_of(next.0, next.1)),
            Err(e) => nodestring_step(line@, nodestring@, mesh@, mode).result == Err::<
                ParseState,
                ErrorView,
            >(e@),
        },
        final(sink)@ == old(sink)@ + nodestring_step(line@, nodestring@, mesh@, mode).reported,
{
    let mut mesh = mesh;
    let mut nodestring = nodestring;
    match nodestring.ingest(line, mode, sink) {
        Err(e) => Err(e),
        Ok(flow) => match flow {
            ControlFlow::Break(_) => {
                proof {
                    lemma_views_push(mesh.nodestring@, nodestring);
                }
                mesh.nodestring.push(nodestring);
                Ok((mesh, None))
            },
            ControlFlow::Continue(_) => Ok((mesh, Some(nodestring))),
        },
    }
}

/// Reads a material count card into the mesh.
fn read_material_count(mesh: Mesh2D, line: &str, mode: ErrorMode, sink: &mut Diagnostics) -> (result:
    Result<Mesh2D, Error>)
    ensures
        agrees(result, material_count_step(line@, mesh@, mode).result),
        final(sink)@ == old(sink)@ + material_count_step(line@, mesh@, mode).reported,
{
    let mut mesh = mesh;
    if mesh.material_count_per_element.is_some() {
        match weak_error(Error::ExtraneousCard(MATERIAL_COUNT_PER_ELEMENT_TAG.to_owned()), mode, sink) {
            Err(e) => {
                return Err(e);
            },
            Ok(_) => {},
        }
    } else {
        assert(sink@ =~= old(sink)@ + Seq::<ErrorView>::empty());
    }
    let ghost twice = sink@;
    match MaterialCountPerElement::from_str(line, mode, sink) {
        Err(e) => {
            assert(sink@ =~= old(sink)@ + material_count_step(line@, mesh@, mode).reported);
            Err(e)
        },
        Ok(count) => {
            assert(sink@ =~= old(sink)@ + material_count_step(line@, mesh@, mode).reported);
            mesh.material_count_per_element = Some(count);
            Ok(mesh)
        },
    }
}

/// Reads a line that begins a card into the mesh.
fn read_card(mesh: Mesh2D, line: &str, mode: ErrorMode, sink: &mut Diagnostics) -> (result: Result<
    (Mesh2D, Option<Nodestring>),
    Error,
>)
    ensures
        match result {
            Ok(next) => card_step(line@, mesh@, mode).result == Ok::<ParseState, ErrorView>(
                state_of(next.0, next.1),
            ),
            Err(e) => card_step(line@, mesh@, mode).result == Err::<ParseState, ErrorView>(e@),
        },
        final(sink)@ == old(sink)@ + card_step(line@, mesh@, mode).reported,
{
    let mut mesh = mesh;
    let toks = split_whitespace(line);
    if toks.len() == 0 {
        return match weak_error(Error::EmptyLine, mode, sink) {
            Err(e) => Err(e),
            Ok(_) => Ok((mesh, None)),
        };
    }
    let tag = toks[0].as_str();
    assert(tag@ == tokens(line@)[0]);
    if str_eq(tag, MATERIAL_COUNT_PER_ELEMENT_TAG) {
        match read_material_count(mesh, line, mode, sink) {
            Err(e) => Err(e),
            Ok(next) => Ok((next, None)),
        }
    } else if str_eq(tag, NODE_TAG) {
        match Node::from_str(line, mode, sink) {
            Err(e) => Err(e),
            Ok(node) => {
                proof {
                    lemma_views_push(mesh.nodes@, node);
                }
                mesh.nodes.push(node);
                Ok((mesh, None))
            },
        }
    } else if str_eq(tag, E2L_TAG) {
        match E2L::from_str(line, mode, sink) {
            Err(e) => Err(e),
            Ok(element) => {
                proof {
                    lemma_views_push(mesh.e2ls@, element);
                }
                mesh.e2ls.push(element);
                Ok((mesh, None))
            },
        }
    } else if str_eq(tag, E3L_TAG) {
        match E3L::from_str(line, mode, sink) {
            Err(e) => Err(e),
            Ok(element) => {
                proof {
                    lemma_views_push(mesh.e3ls@, element);
                }
                mesh.e3ls.push(element);
                Ok((mesh, None))
            },
        }
    } else if str_eq(tag, E3T_TAG) {
        match E3T::from_str(line, mode, sink) {
            Err(e) => Err(e),
            Ok(element) => {
                proof {
                    lemma_views_push(mesh.e3ts@, element);
                }
                mesh.e3ts.push(element);
                Ok((mesh, None))
            },
        }
    } else if str_eq(tag, E6T_TAG) {
        match E6T::from_str(line, mode, sink) {
            Err(e) => Err(e),
            Ok(element) => {
                proof {
                    lemma_views_push(mesh.e6ts@, element);
                }
                mesh.e6ts.push(element);
                Ok((mesh, None))
            },
        }
    } else if str_eq(tag, E4Q_TAG) {
        match E4Q::from_str(line, mode, sink) {
            Err(e) => Err(e),
            Ok(element) => {
                proof {
                    lemma_views_push(mesh.e4qs@, element);
                }
                mesh.e4qs.push(element);
                Ok((mesh, None))
            },
        }
    } else if str_eq(tag, E8Q_TAG) {
        match E8Q::from_str(line, mode, sink) {
            Err(e) => Err(e),
            Ok(element) => {
                proof {
                    lemma_views_push(mesh.e8qs@, element);
                }
                mesh.e8qs.push(element);
                Ok((mesh, None))
            },
        }
    } else if str_eq(tag, E9Q_TAG) {
        match E9Q::from_str(line, mode, sink) {
            Err(e) => Err(e),
            Ok(element) => {
                proof {
                    lemma_views_push(mesh.e9qs@, element);
                }
                mesh.e9qs.push(element);
                Ok((mesh, None))
            },
        }
    } else if str_eq(tag, NODESTRING_TAG) {
        feed_nodestring(mesh, Nodestring::new(), line, mode, sink)
    } else {
        assert(sink@ =~= old(sink)@ + Seq::<ErrorView>::empty());
        Ok((mesh, None))
    }
}

/// Reads one line in the state that the lines before it have left.
fn read_line(
    mesh: Mesh2D,
    pending: Option<Nodestring>,
    line: &str,
    mode: ErrorMode,
    sink: &mut Diagnostics,
) -> (result: Result<(Mesh2D, Option<Nodestring>), Error>)
    ensures
        match result {
            Ok(next) => line_step(line@, state_of(mesh, pending), mode).result == Ok::<
                ParseState,
                ErrorView,
            >(state_of(next.0, next.1)),
            Err(e) => line_step(line@, state_of(mesh, pending), mode).result == Err::<
                ParseState,
                ErrorView,
            >(e@),
        },
        final(sink)@ == old(sink)@ + line_step(line@, state_of(mesh, pending), mode).reported,
{
    match pending {
        Some(nodestring) => feed_nodestring(mesh, nodestring, line, mode, sink),
        None => read_card(mesh, line, mode, sink),
    }
}

impl Mesh2D {
    /// A mesh that holds nothing.
    pub fn new() -> (mesh: Self)
        ensures
            mesh@ == MeshView::empty(),
    {
        let mesh = Mesh2D {
            material_count_per_element: None,
            nodes: Vec::new(),
            e2ls: Vec::new(),
            e3ls: Vec::new(),
            e3ts: Vec::new(),
            e6ts: Vec::new(),
            e4qs: Vec::new(),
            e8qs: Vec::new(),
            e9qs: Vec::new(),
            nodestring: Vec::new(),
        };
        assert(mesh@.nodes =~= Seq::<NodeView>::empty());
        assert(mesh@.e2ls =~= Seq::<ElementView>::empty());
        assert(mesh@.e3ls =~= Seq::<ElementView>::empty());
        assert(mesh@.e3ts =~= Seq::<ElementView>::empty());
        assert(mesh@.e6ts =~= Seq::<ElementView>::empty());
        assert(mesh@.e4qs =~= Seq::<ElementView>::empty());
        assert(mesh@.e8qs =~= Seq::<ElementView>::empty());
        assert(mesh@.e9qs =~= Seq::<ElementView>::empty());
        assert(mesh@.nodestring =~= Seq::<Seq<u32>>::empty());
        mesh
    }

    /// Parses a whole `.2dm` text. Under [`ErrorMode::Strict`] the first
    /// violation of any kind is returned; under [`ErrorMode::Lenient`] the
    /// weak ones go to `sink`, in the order of the input, and the parse goes
    /// on. A failure returns no mesh.
    pub fn from_str(text: &str, mode: ErrorMode, sink: &mut Diagnostics) -> (result: Result<
        Mesh2D,
        Error,
    >)
        ensures
            agrees(result, mesh_outcome(text@, mode).result),
            final(sink)@ == old(sink)@ + mesh_outcome(text@, mode).reported,
    {
        let all = split_lines(text);
        if all.len() > 0 && str_eq(all[0].as_str(), MESH_2D_TAG) {
            assert(sink@ =~= old(sink)@ + Seq::<ErrorView>::empty());
        } else {
            match weak_error(Error::MissingCard(MESH_2D_TAG.to_owned()), mode, sink) {
                Err(e) => {
                    return Err(e);
                },
                Ok(_) => {},
            }
        }
        let mut mesh = Mesh2D::new();
        let mut pending: Option<Nodestring> = None;
        let mut i: usize = if all.len() == 0 {
            0
        } else {
            1
        };
        let ghost mut reported = header_outcome(views(all@), mode).reported;
        proof {
            if all.len() == 0 {
                assert(views(all@).skip(0) =~= views(all@));
            } else {
                assert(views(all@).skip(1) =~= views(all@).drop_first());
            }
        }
        while i < all.len()
            invariant
                i <= all.len(),
                views(all@) == lines(text@),
                sink@ == old(sink)@ + reported,
                read_lines(
                    cards_of(lines(text@)),
                    ParseState { mesh: MeshView::empty(), pending: None },
                    mode,
                ).after(header_outcome(lines(text@), mode).reported) == read_lines(
                    views(all@).skip(i as int),
                    state_of(mesh, pending),
                    mode,
                ).after(reported),
                header_outcome(lines(text@), mode).result is Ok,
            decreases all.len() - i,
        {
            let ghost rest = views(all@).skip(i as int);
            let ghost step = line_step(rest[0], state_of(mesh, pending), mode);
            proof {
                assert(rest[0] == all@[i as int]@);
                assert(rest.drop_first() =~= views(all@).skip(i + 1));
                assert((old(sink)@ + reported) + step.reported =~= old(sink)@ + (reported
                    + step.reported));
            }
            match read_line(mesh, pending, all[i].as_str(), mode, sink) {
                Err(e) => {
                    return Err(e);
                },
                Ok(next) => {
                    mesh = next.0;
                    pending = next.1;
                },
            }
            proof {
                let tail = read_lines(views(all@).skip(i + 1), state_of(mesh, pending), mode);
                assert(tail.after(step.reported).after(reported).reported =~= tail.after(
                    reported + step.reported,
                ).reported);
                reported = reported + step.reported;
            }
            i += 1;
        }
        assert(views(all@).skip(i as int).len() == 0);
        match pending {
            Some(_) => Err(Error::MissingCard(NODESTRING_TAG.to_owned())),
            None => Ok(mesh),
        }
    }
}

/// Parses a whole `.2dm` text under `mode` and keeps no diagnostics.
pub fn parse(text: &str, mode: ErrorMode) -> (result: Result<Mesh2D, Error>)
    ensures
        agrees(result, mesh_outcome(text@, mode).result),
{
    let mut sink = Diagnostics::new();
    Mesh2D::from_str(text, mode, &mut sink)
}

} // verus!
