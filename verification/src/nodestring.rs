//! The nodestring card, the one record that may run over several lines. A
//! nodestring is read line by line; the node with a minus sign in front of
//! it is the last.

use crate::decode::{decode_unsigned, unsigned_outcome};
use crate::error::{Diagnostics, Error, ErrorMode, ErrorView};
use crate::record::{check_tag, expect_tag, extraneous, settle_extraneous};
use crate::text::{split_whitespace, tokens, views};
use std::ops::ControlFlow;
use vstd::prelude::*;
use vstd::string::StrSliceExecFns;

verus! {

pub const NODESTRING_TAG: &'static str = "NS";

/// A string of nodes, in the order in which the cards name them.
#[derive(Clone, Debug, PartialEq)]
pub struct Nodestring {
    pub nodes: Vec<u32>,
}

impl View for Nodestring {
    type V = Seq<u32>;

    open spec fn view(&self) -> Seq<u32> {
        self.nodes@
    }
}

/// Whether `token` names the last node of a nodestring: it begins with a
/// minus sign.
pub open spec fn is_tail(token: Seq<char>) -> bool {
    token.len() > 0 && token[0] == '-'
}

/// What one line does to a nodestring: the nodes that it holds afterwards,
/// whether the line ended it, and what was tolerated.
pub struct Ingested {
    pub nodes: Seq<u32>,
    pub ended: Result<bool, ErrorView>,
    pub reported: Seq<ErrorView>,
}

/// Reads the tokens from position `k` on into `nodes`, from left to right.
/// A plain token adds its node. A tail token adds the node behind its minus
/// sign and ends the nodestring; a token behind it is extraneous. A token
/// that cannot be decoded stops the reading, with what was added before it
/// left in place.
pub open spec fn scan_nodes(toks: Seq<Seq<char>>, k: int, nodes: Seq<u32>, mode: ErrorMode) -> Ingested
    decreases toks.len() - k,
{
    if k >= toks.len() {
        Ingested { nodes, ended: Ok(false), reported: Seq::empty() }
    } else if is_tail(toks[k]) {
        match unsigned_outcome(toks[k].drop_first()) {
            Err(e) => Ingested { nodes, ended: Err(e), reported: Seq::empty() },
            Ok(node) => {
                let settled = extraneous(toks, k + 1, mode);
                Ingested {
                    nodes: nodes.push(node),
                    ended: match settled.result {
                        Ok(_) => Ok(true),
                        Err(e) => Err(e),
                    },
                    reported: settled.reported,
                }
            },
        }
    } else {
        match unsigned_outcome(toks[k]) {
            Err(e) => Ingested { nodes, ended: Err(e), reported: Seq::empty() },
            Ok(node) => scan_nodes(toks, k + 1, nodes.push(node), mode),
        }
    }
}

/// What feeding `line` to a nodestring that holds `nodes` comes to.
pub open spec fn ingest_outcome(nodes: Seq<u32>, line: Seq<char>, mode: ErrorMode) -> Ingested {
    let toks = tokens(line);
    match check_tag(toks, NODESTRING_TAG@) {
        Err(e) => Ingested { nodes, ended: Err(e), reported: Seq::empty() },
        Ok(_) => scan_nodes(toks, 1, nodes, mode),
    }
}

impl Nodestring {
    /// A nodestring without nodes.
    pub fn new() -> (nodestring: Self)
        ensures
            nodestring@ == Seq::<u32>::empty(),
    {
        Nodestring { nodes: Vec::new() }
    }

    /// Feeds one `NS` card to the nodestring. `Break` says that the card
    /// held the tail node and the nodestring is complete, `Continue` that
    /// the next line goes on with it.
    pub fn ingest(&mut self, line: &str, mode: ErrorMode, sink: &mut Diagnostics) -> (result:
        Result<ControlFlow<()>, Error>)
        ensures
            final(self)@ == ingest_outcome(old(self)@, line@, mode).nodes,
            match result {
                Ok(flow) => ingest_outcome(old(self)@, line@, mode).ended == Ok::<bool, ErrorView>(
                    flow is Break,
                ),
                Err(e) => ingest_outcome(old(self)@, line@, mode).ended == Err::<bool, ErrorView>(
                    e@,
                ),
            },
            final(sink)@ == old(sink)@ + ingest_outcome(old(self)@, line@, mode).reported,
    {
        let toks = split_whitespace(line);
        proof {
            assert(sink@ =~= old(sink)@ + Seq::<ErrorView>::empty());
        }
        match expect_tag(&toks, NODESTRING_TAG) {
            Err(e) => {
                return Err(e);
            },
            Ok(_) => {},
        }
        let mut k: usize = 1;
        while k < toks.len()
            invariant
                1 <= k <= toks.len(),
                *sink == *old(sink),
                views(toks@) == tokens(line@),
                check_tag(views(toks@), NODESTRING_TAG@) is Ok,
                scan_nodes(views(toks@), 1, old(self)@, mode) == scan_nodes(
                    views(toks@),
                    k as int,
                    self@,
                    mode,
                ),
            decreases toks.len() - k,
        {
            let token = toks[k].as_str();
            let len = token.unicode_len();
            proof {
                assert(views(toks@)[k as int] == token@);
                assert(sink@ =~= old(sink)@ + Seq::<ErrorView>::empty());
            }
            if len > 0 && token.get_char(0) == '-' {
                let magnitude = token.substring_char(1, len);
                assert(magnitude@ =~= token@.drop_first());
                match decode_unsigned(magnitude) {
                    Err(e) => {
                        return Err(e);
                    },
                    Ok(node) => {
                        self.nodes.push(node);
                        return match settle_extraneous(&toks, k + 1, mode, sink) {
                            Err(e) => Err(e),
                            Ok(_) => Ok(ControlFlow::Break(())),
                        };
                    },
                }
            }
            match decode_unsigned(token) {
                Err(e) => {
                    return Err(e);
                },
                Ok(node) => {
                    self.nodes.push(node);
                },
            }
            k += 1;
        }
        Ok(ControlFlow::Continue(()))
    }
}

} // verus!
