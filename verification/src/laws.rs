//! What holds of the readers taken together.

use crate::decode::unsigned_outcome;
use crate::element::{
    element_of, element_outcome, ElementView, E2L_TAG, E3L_TAG, E3T_TAG, E4Q_TAG, E6T_TAG,
    E8Q_TAG, E9Q_TAG,
};
use crate::error::{agrees, Error, ErrorMode, ErrorView, Outcome};
use crate::mesh::{
    card_step, cards_of, cards_outcome, header_outcome, line_step, lines_outcome,
    material_count_outcome, material_count_step, mesh_outcome, nodestring_step, read_lines,
    Mesh2D, MeshView, ParseState, MATERIAL_COUNT_PER_ELEMENT_TAG,
};
use crate::node::{node_outcome, NodeView, NODE_TAG};
use crate::nodestring::{ingest_outcome, is_tail, scan_nodes, Ingested, NODESTRING_TAG};
use crate::record::{check_tag, finish, float_fields, unsigned_fields};
use crate::text::{lines, tokens};
use vstd::prelude::*;

verus! {

/// A parse is decided by the text and the mode: two results that are both
/// what parsing the same text under the same mode comes to are the same
/// mesh or the same error, and two sinks that began alike and received the
/// reports of such a parse hold the same.
pub proof fn parse_is_deterministic(
    text: Seq<char>,
    mode: ErrorMode,
    first: Result<Mesh2D, Error>,
    second: Result<Mesh2D, Error>,
    sink_before: Seq<ErrorView>,
    first_sink: Seq<ErrorView>,
    second_sink: Seq<ErrorView>,
)
    requires
        agrees(first, mesh_outcome(text, mode).result),
        agrees(second, mesh_outcome(text, mode).result),
        first_sink == sink_before + mesh_outcome(text, mode).reported,
        second_sink == sink_before + mesh_outcome(text, mode).reported,
    ensures
        match (first, second) {
            (Ok(a), Ok(b)) => a@ == b@,
            (Err(a), Err(b)) => a@ == b@,
            _ => false,
        },
        first_sink == second_sink,
{
}

proof fn lemma_scan_appends(
    toks: Seq<Seq<char>>,
    k: int,
    front: Seq<u32>,
    nodes: Seq<u32>,
    mode: ErrorMode,
)
    requires
        0 <= k,
    ensures
        scan_nodes(toks, k, front + nodes, mode) == (Ingested {
            nodes: front + scan_nodes(toks, k, nodes, mode).nodes,
            ..scan_nodes(toks, k, nodes, mode)
        }),
    decreases toks.len() - k,
{
    if k < toks.len() {
        if is_tail(toks[k]) {
            match unsigned_outcome(toks[k].drop_first()) {
                Err(_) => {},
                Ok(node) => {
                    assert((front + nodes).push(node) =~= front + nodes.push(node));
                },
            }
        } else {
            match unsigned_outcome(toks[k]) {
                Err(_) => {},
                Ok(node) => {
                    assert((front + nodes).push(node) =~= front + nodes.push(node));
                    lemma_scan_appends(toks, k + 1, front, nodes.push(node), mode);
                },
            }
        }
    }
}

/// What a line adds to a nodestring, whether it ends it and what it reports
/// do not depend on the nodes that the nodestring holds already: the line's
/// nodes come behind them.
pub proof fn ingest_appends(nodes: Seq<u32>, line: Seq<char>, mode: ErrorMode)
    ensures
        ingest_outcome(nodes, line, mode) == (Ingested {
            nodes: nodes + ingest_outcome(Seq::empty(), line, mode).nodes,
            ..ingest_outcome(Seq::empty(), line, mode)
        }),
{
    let toks = tokens(line);
    assert(nodes + Seq::<u32>::empty() =~= nodes);
    if check_tag(toks, NODESTRING_TAG@) is Ok {
        lemma_scan_appends(toks, 1, nodes, Seq::empty(), mode);
    }
}

proof fn lemma_scan_in_order(toks: Seq<Seq<char>>, k: int, nodes: Seq<u32>, mode: ErrorMode)
    requires
        0 <= k <= toks.len(),
        scan_nodes(toks, k, nodes, mode).ended is Ok,
    ensures
        ({
            let read = scan_nodes(toks, k, nodes, mode);
            let t = nodes.len() - k;
            &&& nodes.len() <= read.nodes.len() <= nodes.len() + toks.len() - k
            &&& read.nodes.take(nodes.len() as int) == nodes
            &&& forall|j: int|
                k <= j < read.nodes.len() - t && !is_tail(#[trigger] toks[j]) ==> unsigned_outcome(
                    toks[j],
                ) == Ok::<u32, ErrorView>(read.nodes[j + t])
            &&& forall|j: int|
                k <= j < read.nodes.len() - t && is_tail(#[trigger] toks[j]) ==> unsigned_outcome(
                    toks[j].drop_first(),
                ) == Ok::<u32, ErrorView>(read.nodes[j + t]) && j == read.nodes.len() - t - 1
            &&& read.ended == Ok::<bool, ErrorView>(false) ==> read.nodes.len() - t == toks.len()
                && forall|j: int| k <= j < toks.len() ==> !is_tail(#[trigger] toks[j])
            &&& read.ended == Ok::<bool, ErrorView>(true) ==> read.nodes.len() > nodes.len()
                && is_tail(toks[read.nodes.len() - t - 1])
        }),
    decreases toks.len() - k,
{
    let read = scan_nodes(toks, k, nodes, mode);
    if k < toks.len() {
        if is_tail(toks[k]) {
            let node = unsigned_outcome(toks[k].drop_first())->Ok_0;
            assert(read.nodes == nodes.push(node));
            assert(read.nodes.take(nodes.len() as int) =~= nodes);
        } else {
            let node = unsigned_outcome(toks[k])->Ok_0;
            let longer = nodes.push(node);
            lemma_scan_in_order(toks, k + 1, longer, mode);
            assert(read.nodes.take(nodes.len() as int) =~= longer.take(nodes.len() as int));
            assert(longer.take(nodes.len() as int) =~= nodes);
            assert(read.nodes.take(longer.len() as int)[nodes.len() as int] == node);
        }
    } else {
        assert(read.nodes.take(nodes.len() as int) =~= nodes);
    }
}

/// A line that a nodestring accepts adds one node for each of its fields,
/// from left to right, up to and with the first field that has a minus sign
/// in front. The nodestring ends with the line exactly if such a field
/// exists, and that field gives its last node.
pub proof fn ingest_reads_fields_in_order(nodes: Seq<u32>, line: Seq<char>, mode: ErrorMode)
    requires
        ingest_outcome(nodes, line, mode).ended is Ok,
    ensures
        ({
            let toks = tokens(line);
            let fed = ingest_outcome(nodes, line, mode);
            let added = fed.nodes.len() - nodes.len();
            &&& 0 <= added < toks.len()
            &&& fed.nodes.take(nodes.len() as int) == nodes
            &&& forall|j: int|
                1 <= j <= added && !is_tail(#[trigger] toks[j]) ==> unsigned_outcome(toks[j])
                    == Ok::<u32, ErrorView>(fed.nodes[nodes.len() + j - 1])
            &&& forall|j: int|
                1 <= j <= added && is_tail(#[trigger] toks[j]) ==> j == added && unsigned_outcome(
                    toks[j].drop_first(),
                ) == Ok::<u32, ErrorView>(fed.nodes.last())
            &&& fed.ended == Ok::<bool, ErrorView>(false) ==> added == toks.len() - 1
                && forall|j: int| 1 <= j < toks.len() ==> !is_tail(#[trigger] toks[j])
            &&& fed.ended == Ok::<bool, ErrorView>(true) ==> added >= 1 && is_tail(toks[added])
        }),
{
    let toks = tokens(line);
    lemma_scan_in_order(toks, 1, nodes, mode);
}

/// The tags that have a reader.
pub open spec fn is_known_tag(tag: Seq<char>) -> bool {
    ||| tag == MATERIAL_COUNT_PER_ELEMENT_TAG@
    ||| tag == NODE_TAG@
    ||| tag == E2L_TAG@
    ||| tag == E3L_TAG@
    ||| tag == E3T_TAG@
    ||| tag == E6T_TAG@
    ||| tag == E4Q_TAG@
    ||| tag == E8Q_TAG@
    ||| tag == E9Q_TAG@
    ||| tag == NODESTRING_TAG@
}

/// The nodestring tag is spelled like no other tag.
proof fn lemma_nodestring_tag_is_no_other()
    ensures
        NODESTRING_TAG@ != MATERIAL_COUNT_PER_ELEMENT_TAG@,
        NODESTRING_TAG@ != NODE_TAG@,
        NODESTRING_TAG@ != E2L_TAG@,
        NODESTRING_TAG@ != E3L_TAG@,
        NODESTRING_TAG@ != E3T_TAG@,
        NODESTRING_TAG@ != E6T_TAG@,
        NODESTRING_TAG@ != E4Q_TAG@,
        NODESTRING_TAG@ != E8Q_TAG@,
        NODESTRING_TAG@ != E9Q_TAG@,
{
    reveal_strlit("NS");
    reveal_strlit("NUM_MATERIALS_PER_ELEM");
    reveal_strlit("ND");
    reveal_strlit("E2L");
    reveal_strlit("E3L");
    reveal_strlit("E3T");
    reveal_strlit("E6T");
    reveal_strlit("E4Q");
    reveal_strlit("E8Q");
    reveal_strlit("E9Q");
    assert(NODESTRING_TAG@[1] == 'S');
    assert(NODE_TAG@[1] == 'D');
}

/// The nodes that the lines `ls` add to a nodestring, line after line.
pub open spec fn nodes_of(ls: Seq<Seq<char>>, mode: ErrorMode) -> Seq<u32>
    decreases ls.len(),
{
    if ls.len() == 0 {
        Seq::empty()
    } else {
        ingest_outcome(Seq::empty(), ls[0], mode).nodes + nodes_of(ls.drop_first(), mode)
    }
}

/// What the lines `ls` report while a nodestring reads them, line after
/// line.
pub open spec fn reports_of(ls: Seq<Seq<char>>, mode: ErrorMode) -> Seq<ErrorView>
    decreases ls.len(),
{
    if ls.len() == 0 {
        Seq::empty()
    } else {
        ingest_outcome(Seq::empty(), ls[0], mode).reported + reports_of(ls.drop_first(), mode)
    }
}

/// Whether the lines `ls` are one nodestring: each of them is accepted, the
/// last one ends the nodestring and no line before it does.
pub open spec fn spans_nodestring(ls: Seq<Seq<char>>, mode: ErrorMode) -> bool {
    &&& ls.len() >= 1
    &&& forall|i: int|
        0 <= i < ls.len() - 1 ==> (#[trigger] ingest_outcome(Seq::empty(), ls[i], mode)).ended
            == Ok::<bool, ErrorView>(false)
    &&& ingest_outcome(Seq::empty(), ls.last(), mode).ended == Ok::<bool, ErrorView>(true)
}

/// The mesh with one nodestring more.
pub open spec fn with_nodestring(mesh: MeshView, nodes: Seq<u32>) -> MeshView {
    MeshView { nodestring: mesh.nodestring.push(nodes), ..mesh }
}

proof fn lemma_pending_spans_lines(
    ls: Seq<Seq<char>>,
    rest: Seq<Seq<char>>,
    held: Seq<u32>,
    mesh: MeshView,
    mode: ErrorMode,
)
    requires
        spans_nodestring(ls, mode),
    ensures
        read_lines(ls + rest, ParseState { mesh, pending: Some(held) }, mode) == read_lines(
            rest,
            ParseState { mesh: with_nodestring(mesh, held + nodes_of(ls, mode)), pending: None },
            mode,
        ).after(reports_of(ls, mode)),
    decreases ls.len(),
{
    let all = ls + rest;
    let state = ParseState { mesh, pending: Some(held) };
    let alone = ingest_outcome(Seq::empty(), ls[0], mode);
    ingest_appends(held, ls[0], mode);
    assert(all[0] == ls[0]);
    assert(all.drop_first() =~= ls.drop_first() + rest);
    let step = line_step(all[0], state, mode);
    assert(step == nodestring_step(ls[0], held, mesh, mode));
    if ls.len() == 1 {
        assert(ls.last() == ls[0]);
        assert(ls.drop_first() =~= Seq::<Seq<char>>::empty());
        assert(ls.drop_first() + rest =~= rest);
        assert(nodes_of(ls.drop_first(), mode) =~= Seq::<u32>::empty());
        assert(reports_of(ls.drop_first(), mode) =~= Seq::<ErrorView>::empty());
        assert(nodes_of(ls, mode) =~= alone.nodes);
        assert(reports_of(ls, mode) =~= alone.reported);
    } else {
        let shorter = ls.drop_first();
        assert(shorter.last() == ls.last());
        assert forall|i: int| 0 <= i < shorter.len() - 1 implies (#[trigger] ingest_outcome(
            Seq::empty(),
            shorter[i],
            mode,
        )).ended == Ok::<bool, ErrorView>(false) by {
            assert(shorter[i] == ls[i + 1]);
        }
        assert(alone.ended == Ok::<bool, ErrorView>(false));
        lemma_pending_spans_lines(shorter, rest, held + alone.nodes, mesh, mode);
        assert((held + alone.nodes) + nodes_of(shorter, mode) =~= held + nodes_of(ls, mode));
        let end = read_lines(
            rest,
            ParseState { mesh: with_nodestring(mesh, held + nodes_of(ls, mode)), pending: None },
            mode,
        );
        assert(end.after(reports_of(shorter, mode)).after(alone.reported).reported =~= end.after(
            reports_of(ls, mode),
        ).reported);
    }
}

/// A nodestring that runs over the lines `ls` joins the mesh as one
/// nodestring. It holds the nodes of all these lines, in the order of the
/// lines and, within a line, of its fields; the reading goes on behind the
/// line that ended it.
pub proof fn nodestring_spans_lines(
    ls: Seq<Seq<char>>,
    rest: Seq<Seq<char>>,
    mesh: MeshView,
    mode: ErrorMode,
)
    requires
        spans_nodestring(ls, mode),
    ensures
        read_lines(ls + rest, ParseState { mesh, pending: None }, mode) == read_lines(
            rest,
            ParseState { mesh: with_nodestring(mesh, nodes_of(ls, mode)), pending: None },
            mode,
        ).after(reports_of(ls, mode)),
{
    let all = ls + rest;
    let empty = Seq::<u32>::empty();
    lemma_pending_spans_lines(ls, rest, empty, mesh, mode);
    assert(empty + nodes_of(ls, mode) =~= nodes_of(ls, mode));
    lemma_nodestring_tag_is_no_other();
    assert(all[0] == ls[0]);
    assert(ingest_outcome(empty, ls[0], mode).ended is Ok);
    assert(check_tag(tokens(ls[0]), NODESTRING_TAG@) is Ok);
    assert(card_step(ls[0], mesh, mode) == nodestring_step(ls[0], empty, mesh, mode));
}

/// Reading two runs of lines one after the other is reading the first and,
/// where that succeeds, the second from the state that it left.
pub proof fn read_lines_in_two(
    a: Seq<Seq<char>>,
    b: Seq<Seq<char>>,
    state: ParseState,
    mode: ErrorMode,
)
    ensures
        read_lines(a + b, state, mode) == match read_lines(a, state, mode).result {
            Err(e) => read_lines(a, state, mode),
            Ok(mid) => read_lines(b, mid, mode).after(read_lines(a, state, mode).reported),
        },
    decreases a.len(),
{
    let all = a + b;
    if a.len() == 0 {
        assert(all =~= b);
        assert(read_lines(b, state, mode).after(Seq::empty()).reported =~= read_lines(
            b,
            state,
            mode,
        ).reported);
    } else {
        assert(all[0] == a[0]);
        assert(all.drop_first() =~= a.drop_first() + b);
        let step = line_step(a[0], state, mode);
        match step.result {
            Err(_) => {},
            Ok(next) => {
                read_lines_in_two(a.drop_first(), b, next, mode);
                let first = read_lines(a.drop_first(), next, mode);
                match first.result {
                    Err(_) => {},
                    Ok(mid) => {
                        let second = read_lines(b, mid, mode);
                        assert(second.after(first.reported).after(step.reported).reported
                            =~= second.after(first.after(step.reported).reported).reported);
                    },
                }
            },
        }
    }
}

/// A card whose tag has no reader changes nothing: with it or without it,
/// the lines read to the same state and the same reports. This holds where
/// the card is read as a card, that is, where the lines before it do not
/// leave a nodestring open; a nodestring takes every line for one of its
/// own.
pub proof fn unknown_card_changes_nothing(
    before: Seq<Seq<char>>,
    line: Seq<char>,
    after: Seq<Seq<char>>,
    state: ParseState,
    mode: ErrorMode,
)
    requires
        tokens(line).len() > 0,
        !is_known_tag(tokens(line)[0]),
        read_lines(before, state, mode).result matches Ok(mid) ==> mid.pending is None,
    ensures
        read_lines(before + seq![line] + after, state, mode) == read_lines(
            before + after,
            state,
            mode,
        ),
        cards_outcome(before + seq![line] + after, state, mode) == cards_outcome(
            before + after,
            state,
            mode,
        ),
{
    let with = seq![line] + after;
    assert(before + seq![line] + after =~= before + with);
    read_lines_in_two(before, with, state, mode);
    read_lines_in_two(before, after, state, mode);
    match read_lines(before, state, mode).result {
        Err(_) => {},
        Ok(mid) => {
            assert(with[0] == line);
            assert(with.drop_first() =~= after);
            assert(line_step(line, mid, mode) == Outcome::ok(mid));
            assert(read_lines(after, mid, mode).after(Seq::empty()).reported =~= read_lines(
                after,
                mid,
                mode,
            ).reported);
        },
    }
}

/// In a whole input, a card whose tag has no reader changes neither the
/// mesh nor the error nor the reports, where the cards before it do not
/// leave a nodestring open.
pub proof fn unknown_card_changes_no_parse(
    first: Seq<char>,
    before: Seq<Seq<char>>,
    line: Seq<char>,
    after: Seq<Seq<char>>,
    mode: ErrorMode,
)
    requires
        tokens(line).len() > 0,
        !is_known_tag(tokens(line)[0]),
        read_lines(
            before,
            ParseState { mesh: MeshView::empty(), pending: None },
            mode,
        ).result matches Ok(mid) ==> mid.pending is None,
    ensures
        lines_outcome(seq![first] + before + seq![line] + after, mode) == lines_outcome(
            seq![first] + before + after,
            mode,
        ),
{
    let with = seq![first] + before + seq![line] + after;
    let without = seq![first] + before + after;
    assert(with[0] == first && without[0] == first);
    assert(cards_of(with) =~= before + seq![line] + after);
    assert(cards_of(without) =~= before + after);
    unknown_card_changes_nothing(
        before,
        line,
        after,
        ParseState { mesh: MeshView::empty(), pending: None },
        mode,
    );
}

/// How a strict reading stands to the lenient reading of the same input:
/// it reports nothing; it comes to the same result where the lenient one
/// has nothing to report, and fails with the first report where it has.
pub open spec fn strict_mirrors<T>(strict: Outcome<T>, lenient: Outcome<T>) -> bool {
    &&& strict.reported == Seq::<ErrorView>::empty()
    &&& if lenient.reported.len() == 0 {
        strict.result == lenient.result
    } else {
        strict.result == Err::<T, ErrorView>(lenient.reported[0])
    }
}

proof fn lemma_scan_mirrors(toks: Seq<Seq<char>>, k: int, nodes: Seq<u32>)
    requires
        0 <= k,
    ensures
        ({
            let strict = scan_nodes(toks, k, nodes, ErrorMode::Strict);
            let lenient = scan_nodes(toks, k, nodes, ErrorMode::Lenient);
            &&& strict.nodes == lenient.nodes
            &&& strict_mirrors(
                Outcome { result: strict.ended, reported: strict.reported },
                Outcome { result: lenient.ended, reported: lenient.reported },
            )
        }),
    decreases toks.len() - k,
{
    if k < toks.len() && !is_tail(toks[k]) {
        match unsigned_outcome(toks[k]) {
            Err(_) => {},
            Ok(node) => {
                lemma_scan_mirrors(toks, k + 1, nodes.push(node));
            },
        }
    }
}

proof fn lemma_line_step_mirrors(line: Seq<char>, state: ParseState)
    ensures
        strict_mirrors(
            line_step(line, state, ErrorMode::Strict),
            line_step(line, state, ErrorMode::Lenient),
        ),
{
    let toks = tokens(line);
    lemma_scan_mirrors(toks, 1, Seq::empty());
    match state.pending {
        Some(nodes) => {
            lemma_scan_mirrors(toks, 1, nodes);
        },
        None => {
            let mesh = state.mesh;
            if toks.len() > 0 && toks[0] == MATERIAL_COUNT_PER_ELEMENT_TAG@ {
                let strict = material_count_step(line, mesh, ErrorMode::Strict);
                let lenient = material_count_step(line, mesh, ErrorMode::Lenient);
                assert(strict.reported =~= Seq::<ErrorView>::empty());
                if mesh.material_count_per_element is Some {
                    assert(lenient.reported[0] == ErrorView::ExtraneousCard(
                        MATERIAL_COUNT_PER_ELEMENT_TAG@,
                    ));
                } else {
                    assert(lenient.reported =~= material_count_outcome(
                        line,
                        ErrorMode::Lenient,
                    ).reported);
                }
                assert(strict_mirrors(strict, lenient));
            }
        },
    }
}

proof fn lemma_read_lines_mirrors(rest: Seq<Seq<char>>, state: ParseState)
    ensures
        strict_mirrors(
            read_lines(rest, state, ErrorMode::Strict),
            read_lines(rest, state, ErrorMode::Lenient),
        ),
    decreases rest.len(),
{
    if rest.len() > 0 {
        let strict = line_step(rest[0], state, ErrorMode::Strict);
        let lenient = line_step(rest[0], state, ErrorMode::Lenient);
        lemma_line_step_mirrors(rest[0], state);
        if lenient.reported.len() == 0 {
            match lenient.result {
                Err(_) => {},
                Ok(next) => {
                    lemma_read_lines_mirrors(rest.drop_first(), next);
                    let tail_strict = read_lines(rest.drop_first(), next, ErrorMode::Strict);
                    let tail_lenient = read_lines(rest.drop_first(), next, ErrorMode::Lenient);
                    assert(tail_strict.after(strict.reported).reported =~= Seq::<
                        ErrorView,
                    >::empty());
                    assert(tail_lenient.after(lenient.reported).reported
                        =~= tail_lenient.reported);
                },
            }
        } else {
            match lenient.result {
                Err(_) => {},
                Ok(next) => {
                    let tail_lenient = read_lines(rest.drop_first(), next, ErrorMode::Lenient);
                    assert(tail_lenient.after(lenient.reported).reported[0]
                        == lenient.reported[0]);
                },
            }
        }
    }
}

/// A strict parse fails exactly where the lenient parse of the same lines
/// has something to report, and with the first thing that it reports;
/// where it has nothing to report, both come to the same mesh or the same
/// error. A strict parse reports nothing.
pub proof fn strict_fails_with_first_report_of_lines(all: Seq<Seq<char>>)
    ensures
        strict_mirrors(
            lines_outcome(all, ErrorMode::Strict),
            lines_outcome(all, ErrorMode::Lenient),
        ),
{
    let start = ParseState { mesh: MeshView::empty(), pending: None };
    lemma_read_lines_mirrors(cards_of(all), start);
    let strict = lines_outcome(all, ErrorMode::Strict);
    let lenient = lines_outcome(all, ErrorMode::Lenient);
    let header = header_outcome(all, ErrorMode::Lenient);
    let cards_strict = cards_outcome(cards_of(all), start, ErrorMode::Strict);
    let cards_lenient = cards_outcome(cards_of(all), start, ErrorMode::Lenient);
    if header.reported.len() == 0 {
        assert(cards_strict.after(Seq::empty()).reported =~= Seq::<ErrorView>::empty());
        assert(cards_lenient.after(Seq::empty()).reported =~= cards_lenient.reported);
    } else {
        assert(lenient.reported[0] == header.reported[0]);
    }
}

/// The same of a text: under [`ErrorMode::Strict`] the parse fails with the
/// first violation that the parse under [`ErrorMode::Lenient`] would have
/// tolerated, and agrees with it where there is none.
pub proof fn strict_fails_with_first_report(text: Seq<char>)
    ensures
        strict_mirrors(
            mesh_outcome(text, ErrorMode::Strict),
            mesh_outcome(text, ErrorMode::Lenient),
        ),
{
    strict_fails_with_first_report_of_lines(lines(text));
}

/// A token behind the last field of a card, where the fields themselves are
/// in order: a strict reading fails with `ExtraneousValue` and names the
/// token; a lenient reading reports the same and still gives the record.
pub proof fn extraneous_value_by_mode<T>(value: T, toks: Seq<Seq<char>>, end: int)
    requires
        0 <= end < toks.len(),
    ensures
        finish(value, toks, end, ErrorMode::Strict) == Outcome::<T>::fail(
            ErrorView::ExtraneousValue(toks[end]),
        ),
        finish(value, toks, end, ErrorMode::Lenient) == (Outcome {
            result: Ok::<T, ErrorView>(value),
            reported: seq![ErrorView::ExtraneousValue(toks[end])],
        }),
{
}

/// An element card with a token too many: strict reading fails with
/// `ExtraneousValue`, lenient reading gives the element that the fields
/// describe.
pub proof fn element_with_extraneous_value(line: Seq<char>, tag: Seq<char>, arity: nat)
    requires
        check_tag(tokens(line), tag) is Ok,
        unsigned_fields(tokens(line), 1, arity + 2) is Ok,
        tokens(line).len() > arity + 3,
    ensures
        element_outcome(line, tag, arity, ErrorMode::Strict) == Outcome::<ElementView>::fail(
            ErrorView::ExtraneousValue(tokens(line)[arity as int + 3]),
        ),
        element_outcome(line, tag, arity, ErrorMode::Lenient) == (Outcome {
            result: Ok::<ElementView, ErrorView>(
                element_of(unsigned_fields(tokens(line), 1, arity + 2)->Ok_0),
            ),
            reported: seq![ErrorView::ExtraneousValue(tokens(line)[arity as int + 3])],
        }),
{
}

/// A node card with a token too many: strict reading fails with
/// `ExtraneousValue`, lenient reading gives the node that the fields
/// describe.
pub proof fn node_with_extraneous_value(line: Seq<char>)
    requires
        check_tag(tokens(line), NODE_TAG@) is Ok,
        unsigned_fields(tokens(line), 1, 1) is Ok,
        float_fields(tokens(line), 2, 3) is Ok,
        tokens(line).len() > 5,
    ensures
        node_outcome(line, ErrorMode::Strict) == Outcome::<NodeView>::fail(
            ErrorView::ExtraneousValue(tokens(line)[5]),
        ),
        node_outcome(line, ErrorMode::Lenient) == (Outcome {
            result: Ok::<NodeView, ErrorView>(
                NodeView {
                    id: unsigned_fields(tokens(line), 1, 1)->Ok_0[0],
                    coordinate: float_fields(tokens(line), 2, 3)->Ok_0,
                },
            ),
            reported: seq![ErrorView::ExtraneousValue(tokens(line)[5])],
        }),
{
}

/// A material count card with a token too many: strict reading fails with
/// `ExtraneousValue`, lenient reading gives the count.
pub proof fn material_count_with_extraneous_value(line: Seq<char>)
    requires
        check_tag(tokens(line), MATERIAL_COUNT_PER_ELEMENT_TAG@) is Ok,
        unsigned_fields(tokens(line), 1, 1) is Ok,
        tokens(line).len() > 2,
    ensures
        material_count_outcome(line, ErrorMode::Strict) == Outcome::<u32>::fail(
            ErrorView::ExtraneousValue(tokens(line)[2]),
        ),
        material_count_outcome(line, ErrorMode::Lenient) == (Outcome {
            result: Ok::<u32, ErrorView>(unsigned_fields(tokens(line), 1, 1)->Ok_0[0]),
            reported: seq![ErrorView::ExtraneousValue(tokens(line)[2])],
        }),
{
}

/// A nodestring card with a token behind its tail: strict reading fails
/// with `ExtraneousValue`, lenient reading ends the nodestring with the
/// tail as its last node. Either way the nodes of the card are added.
pub proof fn nodestring_with_extraneous_value(nodes: Seq<u32>, line: Seq<char>)
    requires
        ingest_outcome(nodes, line, ErrorMode::Lenient).ended == Ok::<bool, ErrorView>(true),
        ingest_outcome(nodes, line, ErrorMode::Lenient).reported.len() > 0,
    ensures
        ({
            let strict = ingest_outcome(nodes, line, ErrorMode::Strict);
            let lenient = ingest_outcome(nodes, line, ErrorMode::Lenient);
            let behind = tokens(line)[lenient.nodes.len() - nodes.len() + 1];
            &&& lenient.nodes.len() - nodes.len() + 1 < tokens(line).len()
            &&& strict.ended == Err::<bool, ErrorView>(ErrorView::ExtraneousValue(behind))
            &&& strict.nodes == lenient.nodes
            &&& lenient.reported == seq![ErrorView::ExtraneousValue(behind)]
        }),
{
    lemma_scan_extraneous(tokens(line), 1, nodes);
}

proof fn lemma_scan_extraneous(toks: Seq<Seq<char>>, k: int, nodes: Seq<u32>)
    requires
        0 <= k,
        scan_nodes(toks, k, nodes, ErrorMode::Lenient).ended == Ok::<bool, ErrorView>(true),
        scan_nodes(toks, k, nodes, ErrorMode::Lenient).reported.len() > 0,
    ensures
        ({
            let strict = scan_nodes(toks, k, nodes, ErrorMode::Strict);
            let lenient = scan_nodes(toks, k, nodes, ErrorMode::Lenient);
            let at = lenient.nodes.len() - nodes.len() + k;
            &&& k < at < toks.len()
            &&& strict.ended == Err::<bool, ErrorView>(ErrorView::ExtraneousValue(toks[at]))
            &&& strict.nodes == lenient.nodes
            &&& lenient.reported == seq![ErrorView::ExtraneousValue(toks[at])]
        }),
    decreases toks.len() - k,
{
    if k < toks.len() && !is_tail(toks[k]) {
        match unsigned_outcome(toks[k]) {
            Err(_) => {},
            Ok(node) => {
                lemma_scan_extraneous(toks, k + 1, nodes.push(node));
            },
        }
    }
}

/// In a run of lines: where a strict reading gets as far as a card that a
/// lenient reading would accept with a report of a token too many, the
/// strict reading fails there with `ExtraneousValue` for that token,
/// whatever follows.
pub proof fn extraneous_value_stops_strict_reading(
    before: Seq<Seq<char>>,
    line: Seq<char>,
    after: Seq<Seq<char>>,
    state: ParseState,
    token: Seq<char>,
)
    requires
        read_lines(before, state, ErrorMode::Strict).result matches Ok(mid) && ({
            let lenient = line_step(line, mid, ErrorMode::Lenient);
            lenient.reported.len() > 0 && lenient.reported[0] == ErrorView::ExtraneousValue(token)
        }),
    ensures
        read_lines(before + seq![line] + after, state, ErrorMode::Strict).result == Err::<
            ParseState,
            ErrorView,
        >(ErrorView::ExtraneousValue(token)),
        cards_outcome(before + seq![line] + after, state, ErrorMode::Strict).result == Err::<
            MeshView,
            ErrorView,
        >(ErrorView::ExtraneousValue(token)),
{
    let with = seq![line] + after;
    assert(before + seq![line] + after =~= before + with);
    read_lines_in_two(before, with, state, ErrorMode::Strict);
    let mid = read_lines(before, state, ErrorMode::Strict).result->Ok_0;
    assert(with[0] == line);
    lemma_line_step_mirrors(line, mid);
}

/// A second material count card: a strict reading fails with
/// `ExtraneousCard` before it looks at the card; a lenient reading reports
/// the same, reads the card, and the count of the later card replaces the
/// earlier one.
pub proof fn second_material_count_by_mode(line: Seq<char>, mesh: MeshView)
    requires
        mesh.material_count_per_element is Some,
    ensures
        material_count_step(line, mesh, ErrorMode::Strict) == Outcome::<MeshView>::fail(
            ErrorView::ExtraneousCard(MATERIAL_COUNT_PER_ELEMENT_TAG@),
        ),
        material_count_step(line, mesh, ErrorMode::Lenient).reported == seq![
            ErrorView::ExtraneousCard(MATERIAL_COUNT_PER_ELEMENT_TAG@),
        ] + material_count_outcome(line, ErrorMode::Lenient).reported,
        material_count_step(line, mesh, ErrorMode::Lenient).result == match material_count_outcome(
            line,
            ErrorMode::Lenient,
        ).result {
            Ok(count) => Ok::<MeshView, ErrorView>(
                MeshView { material_count_per_element: Some(count), ..mesh },
            ),
            Err(e) => Err::<MeshView, ErrorView>(e),
        },
        tokens(line).len() > 0 && tokens(line)[0] == MATERIAL_COUNT_PER_ELEMENT_TAG@
            ==> card_step(line, mesh, ErrorMode::Strict) == Outcome::<ParseState>::fail(
            ErrorView::ExtraneousCard(MATERIAL_COUNT_PER_ELEMENT_TAG@),
        ),
{
}

/// Whether every report of a list is a weak violation.
pub open spec fn all_weak(reports: Seq<ErrorView>) -> bool {
    forall|i: int| 0 <= i < reports.len() ==> (#[trigger] reports[i]).is_weak()
}

proof fn lemma_scan_reports_weak(toks: Seq<Seq<char>>, k: int, nodes: Seq<u32>, mode: ErrorMode)
    requires
        0 <= k,
    ensures
        all_weak(scan_nodes(toks, k, nodes, mode).reported),
    decreases toks.len() - k,
{
    if k < toks.len() && !is_tail(toks[k]) {
        match unsigned_outcome(toks[k]) {
            Err(_) => {},
            Ok(node) => {
                lemma_scan_reports_weak(toks, k + 1, nodes.push(node), mode);
            },
        }
    }
}

proof fn lemma_line_step_reports_weak(line: Seq<char>, state: ParseState, mode: ErrorMode)
    ensures
        all_weak(line_step(line, state, mode).reported),
{
    let toks = tokens(line);
    lemma_scan_reports_weak(toks, 1, Seq::empty(), mode);
    match state.pending {
        Some(nodes) => {
            lemma_scan_reports_weak(toks, 1, nodes, mode);
        },
        None => {},
    }
}

proof fn lemma_read_lines_reports_weak(rest: Seq<Seq<char>>, state: ParseState, mode: ErrorMode)
    ensures
        all_weak(read_lines(rest, state, mode).reported),
    decreases rest.len(),
{
    if rest.len() > 0 {
        lemma_line_step_reports_weak(rest[0], state, mode);
        match line_step(rest[0], state, mode).result {
            Err(_) => {},
            Ok(next) => {
                lemma_read_lines_reports_weak(rest.drop_first(), next, mode);
            },
        }
    }
}

/// Only weak violations are ever tolerated: whatever a parse reports is a
/// missing header, a second material count, an empty line or a token too
/// many. Every other violation ends the parse, whatever the mode.
pub proof fn reports_are_weak(text: Seq<char>, mode: ErrorMode)
    ensures
        all_weak(mesh_outcome(text, mode).reported),
{
    let all = lines(text);
    lemma_read_lines_reports_weak(
        cards_of(all),
        ParseState { mesh: MeshView::empty(), pending: None },
        mode,
    );
}

/// Input that ends inside a nodestring fails with `MissingCard`, whatever
/// the mode.
pub proof fn open_nodestring_fails(rest: Seq<Seq<char>>, state: ParseState, mode: ErrorMode)
    requires
        read_lines(rest, state, mode).result matches Ok(last) && last.pending is Some,
    ensures
        cards_outcome(rest, state, mode).result == Err::<MeshView, ErrorView>(
            ErrorView::MissingCard(NODESTRING_TAG@),
        ),
{
}

} // verus!
