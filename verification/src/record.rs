//! What all cards have in common: the tag in front, fields of a fixed number
//! behind it, and the policy for what stands after the last field.

use crate::decode::{decode_float, decode_unsigned, float_outcome, unsigned_outcome, FloatLiteral};
use crate::error::{
    agrees, weak_error, weak_outcome, Diagnostics, Error, ErrorMode, ErrorView, Outcome,
};
use crate::text::{str_eq, views};
use vstd::prelude::*;

verus! {

/// Whether the tokens of a line begin with `tag`.
pub open spec fn check_tag(toks: Seq<Seq<char>>, tag: Seq<char>) -> Result<(), ErrorView> {
    if toks.len() == 0 {
        Err(ErrorView::EmptyLine)
    } else if toks[0] != tag {
        Err(ErrorView::WrongCardTag { expect: tag, actual: toks[0] })
    } else {
        Ok(())
    }
}

/// The `count` tokens from position `first` on, decoded as identifiers. The
/// leftmost token that is missing or is no identifier decides the error.
pub open spec fn unsigned_fields(toks: Seq<Seq<char>>, first: int, count: nat) -> Result<
    Seq<u32>,
    ErrorView,
>
    decreases count,
{
    if count == 0 {
        Ok(Seq::empty())
    } else {
        match unsigned_fields(toks, first, (count - 1) as nat) {
            Err(e) => Err(e),
            Ok(values) => if first + count - 1 >= toks.len() {
                Err(ErrorView::MissingValue)
            } else {
                match unsigned_outcome(toks[first + count - 1]) {
                    Ok(value) => Ok(values.push(value)),
                    Err(e) => Err(e),
                }
            },
        }
    }
}

/// The `count` tokens from position `first` on, decoded as coordinates. The
/// leftmost token that is missing or is no literal decides the error.
pub open spec fn float_fields(toks: Seq<Seq<char>>, first: int, count: nat) -> Result<
    Seq<Seq<char>>,
    ErrorView,
>
    decreases count,
{
    if count == 0 {
        Ok(Seq::empty())
    } else {
        match float_fields(toks, first, (count - 1) as nat) {
            Err(e) => Err(e),
            Ok(values) => if first + count - 1 >= toks.len() {
                Err(ErrorView::MissingValue)
            } else {
                match float_outcome(toks[first + count - 1]) {
                    Ok(value) => Ok(values.push(value)),
                    Err(e) => Err(e),
                }
            },
        }
    }
}

/// What a token at position `end`, behind the last field, comes to: a weak
/// violation that names it.
pub open spec fn extraneous(toks: Seq<Seq<char>>, end: int, mode: ErrorMode) -> Outcome<()> {
    if toks.len() > end {
        weak_outcome(ErrorView::ExtraneousValue(toks[end]), mode)
    } else {
        Outcome::ok(())
    }
}

/// A record whose fields are read, once what stands behind them is settled.
pub open spec fn finish<T>(value: T, toks: Seq<Seq<char>>, end: int, mode: ErrorMode) -> Outcome<
    T,
> {
    let settled = extraneous(toks, end, mode);
    Outcome {
        result: match settled.result {
            Ok(_) => Ok(value),
            Err(e) => Err(e),
        },
        reported: settled.reported,
    }
}

/// Tests the tag in front of a card.
pub fn expect_tag(toks: &Vec<String>, tag: &str) -> (result: Result<(), Error>)
    ensures
        agrees(result, check_tag(views(toks@), tag@)),
{
    if toks.len() == 0 {
        Err(Error::EmptyLine)
    } else if !str_eq(toks[0].as_str(), tag) {
        Err(Error::WrongCardTag { expect: tag.to_owned(), actual: toks[0].clone() })
    } else {
        Ok(())
    }
}

/// Decodes `count` identifiers, the first of them at position `first`.
pub fn read_unsigned_fields(toks: &Vec<String>, first: usize, count: usize) -> (result: Result<
    Vec<u32>,
    Error,
>)
    requires
        first + count <= usize::MAX,
    ensures
        agrees(result, unsigned_fields(views(toks@), first as int, count as nat)),
        result matches Ok(values) ==> values@.len() == count,
{
    let mut values: Vec<u32> = Vec::new();
    let mut k: usize = 0;
    while k < count
        invariant
            k <= count,
            first + count <= usize::MAX,
            values@.len() == k,
            unsigned_fields(views(toks@), first as int, k as nat) == Ok::<Seq<u32>, ErrorView>(
                values@,
            ),
        decreases count - k,
    {
        if first + k >= toks.len() {
            proof {
                lemma_fields_error_stays(views(toks@), first as int, (k + 1) as nat, count as nat);
            }
            return Err(Error::MissingValue);
        }
        match decode_unsigned(toks[first + k].as_str()) {
            Ok(value) => {
                values.push(value);
            },
            Err(e) => {
                proof {
                    lemma_fields_error_stays(
                        views(toks@),
                        first as int,
                        (k + 1) as nat,
                        count as nat,
                    );
                }
                return Err(e);
            },
        }
        k += 1;
    }
    Ok(values)
}

/// Decodes `count` coordinates, the first of them at position `first`.
pub fn read_float_fields(toks: &Vec<String>, first: usize, count: usize) -> (result: Result<
    Vec<FloatLiteral>,
    Error,
>)
    requires
        first + count <= usize::MAX,
    ensures
        match result {
            Ok(values) => float_fields(views(toks@), first as int, count as nat) == Ok::<
                Seq<Seq<char>>,
                ErrorView,
            >(views(values@)) && values@.len() == count,
            Err(e) => float_fields(views(toks@), first as int, count as nat) == Err::<
                Seq<Seq<char>>,
                ErrorView,
            >(e@),
        },
{
    let mut values: Vec<FloatLiteral> = Vec::new();
    let mut k: usize = 0;
    assert(views(values@) =~= Seq::<Seq<char>>::empty());
    while k < count
        invariant
            k <= count,
            first + count <= usize::MAX,
            values@.len() == k,
            float_fields(views(toks@), first as int, k as nat) == Ok::<Seq<Seq<char>>, ErrorView>(
                views(values@),
            ),
        decreases count - k,
    {
        if first + k >= toks.len() {
            proof {
                lemma_float_error_stays(views(toks@), first as int, (k + 1) as nat, count as nat);
            }
            return Err(Error::MissingValue);
        }
        match decode_float(toks[first + k].as_str()) {
            Ok(value) => {
                assert(views(values@.push(value)) =~= views(values@).push(value@));
                values.push(value);
            },
            Err(e) => {
                proof {
                    lemma_float_error_stays(
                        views(toks@),
                        first as int,
                        (k + 1) as nat,
                        count as nat,
                    );
                }
                return Err(e);
            },
        }
        k += 1;
    }
    Ok(values)
}

/// An error among the first `k` fields is the error of any longer run.
proof fn lemma_fields_error_stays(toks: Seq<Seq<char>>, first: int, k: nat, count: nat)
    requires
        k <= count,
        unsigned_fields(toks, first, k) is Err,
    ensures
        unsigned_fields(toks, first, count) == unsigned_fields(toks, first, k),
    decreases count,
{
    if k < count {
        lemma_fields_error_stays(toks, first, k, (count - 1) as nat);
    }
}

proof fn lemma_float_error_stays(toks: Seq<Seq<char>>, first: int, k: nat, count: nat)
    requires
        k <= count,
        float_fields(toks, first, k) is Err,
    ensures
        float_fields(toks, first, count) == float_fields(toks, first, k),
    decreases count,
{
    if k < count {
        lemma_float_error_stays(toks, first, k, (count - 1) as nat);
    }
}

/// Settles what stands at position `end`, behind the last field of a card.
pub fn settle_extraneous(toks: &Vec<String>, end: usize, mode: ErrorMode, sink: &mut Diagnostics) -> (result:
    Result<(), Error>)
    ensures
        agrees(result, extraneous(views(toks@), end as int, mode).result),
        final(sink)@ == old(sink)@ + extraneous(views(toks@), end as int, mode).reported,
{
    if toks.len() > end {
        weak_error(Error::ExtraneousValue(toks[end].clone()), mode, sink)
    } else {
        assert(sink@ =~= old(sink)@ + Seq::<ErrorView>::empty());
        Ok(())
    }
}

} // verus!
