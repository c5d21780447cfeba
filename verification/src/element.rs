//! The seven element cards. They differ in their tag and in the number of
//! nodes that an element joins, and in nothing else.

use crate::error::{agrees, Diagnostics, Error, ErrorMode, ErrorView, Outcome};
use crate::record::{check_tag, expect_tag, finish, read_unsigned_fields, settle_extraneous, unsigned_fields};
use crate::text::{split_whitespace, tokens};
use vstd::prelude::*;

verus! {

pub const E2L_TAG: &'static str = "E2L";

pub const E3L_TAG: &'static str = "E3L";

pub const E3T_TAG: &'static str = "E3T";

pub const E6T_TAG: &'static str = "E6T";

pub const E4Q_TAG: &'static str = "E4Q";

pub const E8Q_TAG: &'static str = "E8Q";

pub const E9Q_TAG: &'static str = "E9Q";

/// An element of any shape: its identifier, the identifiers of its nodes in
/// the order of the card, and the identifier of its material.
pub struct ElementView {
    pub id: u32,
    pub nodes: Seq<u32>,
    pub material: u32,
}

/// The element that `values` describe: the identifier first, the material
/// last, the nodes between them.
pub open spec fn element_of(values: Seq<u32>) -> ElementView {
    ElementView {
        id: values[0],
        nodes: values.subrange(1, values.len() - 1),
        material: values.last(),
    }
}

/// What reading `line` as the element card `tag` with `arity` nodes comes
/// to.
pub open spec fn element_outcome(
    line: Seq<char>,
    tag: Seq<char>,
    arity: nat,
    mode: ErrorMode,
) -> Outcome<ElementView> {
    let toks = tokens(line);
    match check_tag(toks, tag) {
        Err(e) => Outcome::fail(e),
        Ok(_) => match unsigned_fields(toks, 1, arity + 2) {
            Err(e) => Outcome::fail(e),
            Ok(values) => finish(element_of(values), toks, arity as int + 3, mode),
        },
    }
}

/// Reads the fields of an element card of any shape.
fn read_element(line: &str, tag: &str, arity: usize, mode: ErrorMode, sink: &mut Diagnostics) -> (result:
    Result<Vec<u32>, Error>)
    requires
        arity <= 9,
    ensures
        match result {
            Ok(values) => values@.len() == arity + 2 && element_outcome(
                line@,
                tag@,
                arity as nat,
                mode,
            ).result == Ok::<ElementView, ErrorView>(element_of(values@)),
            Err(e) => element_outcome(line@, tag@, arity as nat, mode).result == Err::<
                ElementView,
                ErrorView,
            >(e@),
        },
        final(sink)@ == old(sink)@ + element_outcome(line@, tag@, arity as nat, mode).reported,
{
    let toks = split_whitespace(line);
    match expect_tag(&toks, tag) {
        Err(e) => {
            assert(sink@ =~= old(sink)@ + Seq::<ErrorView>::empty());
            return Err(e);
        },
        Ok(_) => {},
    }
    let values = match read_unsigned_fields(&toks, 1, arity + 2) {
        Err(e) => {
            assert(sink@ =~= old(sink)@ + Seq::<ErrorView>::empty());
            return Err(e);
        },
        Ok(values) => values,
    };
    match settle_extraneous(&toks, arity + 3, mode, sink) {
        Err(e) => Err(e),
        Ok(_) => Ok(values),
    }
}

/// A linear element of two nodes. Its card has the tag `E2L`.
#[derive(Copy, Clone, Debug, PartialEq)]
pub struct E2L {
    /// The identifier of the element.
    pub id: u32,
    /// The identifiers of the nodes that it joins.
    pub nodes: [u32; 2],
    /// The identifier of its material.
    pub material: u32,
}

impl View for E2L {
    type V = ElementView;

    open spec fn view(&self) -> ElementView {
        ElementView { id: self.id, nodes: self.nodes@, material: self.material }
    }
}

impl E2L {
    /// Reads an `E2L` card.
    pub fn from_str(line: &str, mode: ErrorMode, sink: &mut Diagnostics) -> (result: Result<
        E2L,
        Error,
    >)
        ensures
            agrees(result, element_outcome(line@, E2L_TAG@, 2, mode).result),
            final(sink)@ == old(sink)@ + element_outcome(line@, E2L_TAG@, 2, mode).reported,
    {
        match read_element(line, E2L_TAG, 2, mode, sink) {
            Err(e) => Err(e),
            Ok(values) => {
                let element = E2L {
                    id: values[0],
                    nodes: [values[1], values[2]],
                    material: values[3],
                };
                assert(element.nodes@ =~= values@.subrange(1, 3));
                Ok(element)
            },
        }
    }
}

/// A linear element of three nodes. Its card has the tag `E3L`.
#[derive(Copy, Clone, Debug, PartialEq)]
pub struct E3L {
    /// The identifier of the element.
    pub id: u32,
    /// The identifiers of the nodes that it joins.
    pub nodes: [u32; 3],
    /// The identifier of its material.
    pub material: u32,
}

impl View for E3L {
    type V = ElementView;

    open spec fn view(&self) -> ElementView {
        ElementView { id: self.id, nodes: self.nodes@, material: self.material }
    }
}

impl E3L {
    /// Reads an `E3L` card.
    pub fn from_str(line: &str, mode: ErrorMode, sink: &mut Diagnostics) -> (result: Result<
        E3L,
        Error,
    >)
        ensures
            agrees(result, element_outcome(line@, E3L_TAG@, 3, mode).result),
            final(sink)@ == old(sink)@ + element_outcome(line@, E3L_TAG@, 3, mode).reported,
    {
        match read_element(line, E3L_TAG, 3, mode, sink) {
            Err(e) => Err(e),
            Ok(values) => {
                let element = E3L {
                    id: values[0],
                    nodes: [values[1], values[2], values[3]],
                    material: values[4],
                };
                assert(element.nodes@ =~= values@.subrange(1, 4));
                Ok(element)
            },
        }
    }
}

/// A triangular element of three nodes. Its card has the tag `E3T`.
#[derive(Copy, Clone, Debug, PartialEq)]
pub struct E3T {
    /// The identifier of the element.
    pub id: u32,
    /// The identifiers of the nodes that it joins.
    pub nodes: [u32; 3],
    /// The identifier of its material.
    pub material: u32,
}

impl View for E3T {
    type V = ElementView;

    open spec fn view(&self) -> ElementView {
        ElementView { id: self.id, nodes: self.nodes@, material: self.material }
    }
}

impl E3T {
    /// Reads an `E3T` card.
    pub fn from_str(line: &str, mode: ErrorMode, sink: &mut Diagnostics) -> (result: Result<
        E3T,
        Error,
    >)
        ensures
            agrees(result, element_outcome(line@, E3T_TAG@, 3, mode).result),
            final(sink)@ == old(sink)@ + element_outcome(line@, E3T_TAG@, 3, mode).reported,
    {
        match read_element(line, E3T_TAG, 3, mode, sink) {
            Err(e) => Err(e),
            Ok(values) => {
                let element = E3T {
                    id: values[0],
                    nodes: [values[1], values[2], values[3]],
                    material: values[4],
                };
                assert(element.nodes@ =~= values@.subrange(1, 4));
                Ok(element)
            },
        }
    }
}

/// A triangular element of six nodes. Its card has the tag `E6T`.
#[derive(Copy, Clone, Debug, PartialEq)]
pub struct E6T {
    /// The identifier of the element.
    pub id: u32,
    /// The identifiers of the nodes that it joins.
    pub nodes: [u32; 6],
    /// The identifier of its material.
    pub material: u32,
}

impl View for E6T {
    type V = ElementView;

    open spec fn view(&self) -> ElementView {
        ElementView { id: self.id, nodes: self.nodes@, material: self.material }
    }
}

impl E6T {
    /// Reads an `E6T` card.
    pub fn from_str(line: &str, mode: ErrorMode, sink: &mut Diagnostics) -> (result: Result<
        E6T,
        Error,
    >)
        ensures
            agrees(result, element_outcome(line@, E6T_TAG@, 6, mode).result),
            final(sink)@ == old(sink)@ + element_outcome(line@, E6T_TAG@, 6, mode).reported,
    {
        match read_element(line, E6T_TAG, 6, mode, sink) {
            Err(e) => Err(e),
            Ok(values) => {
                let element = E6T {
                    id: values[0],
                    nodes: [values[1], values[2], values[3], values[4], values[5], values[6]],
                    material: values[7],
                };
                assert(element.nodes@ =~= values@.subrange(1, 7));
                Ok(element)
            },
        }
    }
}

/// A quadrilateral element of four nodes. Its card has the tag `E4Q`.
#[derive(Copy, Clone, Debug, PartialEq)]
pub struct E4Q {
    /// The identifier of the element.
    pub id: u32,
    /// The identifiers of the nodes that it joins.
    pub nodes: [u32; 4],
    /// The identifier of its material.
    pub material: u32,
}

impl View for E4Q {
    type V = ElementView;

    open spec fn view(&self) -> ElementView {
        ElementView { id: self.id, nodes: self.nodes@, material: self.material }
    }
}

impl E4Q {
    /// Reads an `E4Q` card.
    pub fn from_str(line: &str, mode: ErrorMode, sink: &mut Diagnostics) -> (result: Result<
        E4Q,
        Error,
    >)
        ensures
            agrees(result, element_outcome(line@, E4Q_TAG@, 4, mode).result),
            final(sink)@ == old(sink)@ + element_outcome(line@, E4Q_TAG@, 4, mode).reported,
    {
        match read_element(line, E4Q_TAG, 4, mode, sink) {
            Err(e) => Err(e),
            Ok(values) => {
                let element = E4Q {
                    id: values[0],
                    nodes: [values[1], values[2], values[3], values[4]],
                    material: values[5],
                };
                assert(element.nodes@ =~= values@.subrange(1, 5));
                Ok(element)
            },
        }
    }
}

/// A quadrilateral element of eight nodes. Its card has the tag `E8Q`.
#[derive(Copy, Clone, Debug, PartialEq)]
pub struct E8Q {
    /// The identifier of the element.
    pub id: u32,
    /// The identifiers of the nodes that it joins.
    pub nodes: [u32; 8],
    /// The identifier of its material.
    pub material: u32,
}

impl View for E8Q {
    type V = ElementView;

    open spec fn view(&self) -> ElementView {
        ElementView { id: self.id, nodes: self.nodes@, material: self.material }
    }
}

impl E8Q {
    /// Reads an `E8Q` card.
    pub fn from_str(line: &str, mode: ErrorMode, sink: &mut Diagnostics) -> (result: Result<
        E8Q,
        Error,
    >)
        ensures
            agrees(result, element_outcome(line@, E8Q_TAG@, 8, mode).result),
            final(sink)@ == old(sink)@ + element_outcome(line@, E8Q_TAG@, 8, mode).reported,
    {
        match read_element(line, E8Q_TAG, 8, mode, sink) {
            Err(e) => Err(e),
            Ok(values) => {
                let element = E8Q {
                    id: values[0],
                    nodes: [values[1], values[2], values[3], values[4], values[5], values[6], values[7], values[8]],
                    material: values[9],
                };
                assert(element.nodes@ =~= values@.subrange(1, 9));
                Ok(element)
            },
        }
    }
}

/// A quadrilateral element of nine nodes. Its card has the tag `E9Q`.
#[derive(Copy, Clone, Debug, PartialEq)]
pub struct E9Q {
    /// The identifier of the element.
    pub id: u32,
    /// The identifiers of the nodes that it joins.
    pub nodes: [u32; 9],
    /// The identifier of its material.
    pub material: u32,
}

impl View for E9Q {
    type V = ElementView;

    open spec fn view(&self) -> ElementView {
        ElementView { id: self.id, nodes: self.nodes@, material: self.material }
    }
}

impl E9Q {
    /// Reads an `E9Q` card.
    pub fn from_str(line: &str, mode: ErrorMode, sink: &mut Diagnostics) -> (result: Result<
        E9Q,
        Error,
    >)
        ensures
            agrees(result, element_outcome(line@, E9Q_TAG@, 9, mode).result),
            final(sink)@ == old(sink)@ + element_outcome(line@, E9Q_TAG@, 9, mode).reported,
    {
        match read_element(line, E9Q_TAG, 9, mode, sink) {
            Err(e) => Err(e),
            Ok(values) => {
                let element = E9Q {
                    id: values[0],
                    nodes: [values[1], values[2], values[3], values[4], values[5], values[6], values[7], values[8], values[9]],
                    material: values[10],
                };
                assert(element.nodes@ =~= values@.subrange(1, 10));
                Ok(element)
            },
        }
    }
}

} // verus!
