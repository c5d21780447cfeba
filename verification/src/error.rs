//! The errors of a parse, the two modes that decide which of them stop it,
//! and the sink that receives the ones that do not.

use std::num::ParseIntError;
use vstd::prelude::*;

verus! {

/// `std::num::ParseIntError`, carried through as it comes from the integer
/// decoder. Nothing of what it holds is visible to the proofs.
#[verifier::external_type_specification]
#[verifier::external_body]
pub struct ExParseIntError(ParseIntError);

/// Why a token is no decimal floating-point literal.
#[derive(Clone, Copy, Debug, PartialEq, Eq, Structural)]
pub enum FloatErrorKind {
    /// The token holds no character.
    Empty,
    /// The token holds something that the literal grammar does not allow.
    Invalid,
}

/// What can go wrong while a mesh is read.
#[derive(Debug)]
pub enum Error {
    /// The card with this tag is expected but missing.
    MissingCard(String),
    /// The card with this tag is seen more often than allowed.
    ExtraneousCard(String),
    /// A line without any token stands where a card is expected.
    EmptyLine,
    /// A card carries another tag than the one expected.
    WrongCardTag { expect: String, actual: String },
    /// A token is no unsigned decimal integer in range.
    InvalidInt(ParseIntError),
    /// A token is no decimal floating-point literal.
    InvalidFloat(FloatErrorKind),
    /// A card ends before all of its fields are given.
    MissingValue,
    /// A card holds this token after all of its fields.
    ExtraneousValue(String),
}

/// An [`Error`] with its strings as character sequences.
pub enum ErrorView {
    MissingCard(Seq<char>),
    ExtraneousCard(Seq<char>),
    EmptyLine,
    WrongCardTag { expect: Seq<char>, actual: Seq<char> },
    InvalidInt(ParseIntError),
    InvalidFloat(FloatErrorKind),
    MissingValue,
    ExtraneousValue(Seq<char>),
}

impl View for Error {
    type V = ErrorView;

    open spec fn view(&self) -> ErrorView {
        match self {
            Error::MissingCard(tag) => ErrorView::MissingCard(tag@),
            Error::ExtraneousCard(tag) => ErrorView::ExtraneousCard(tag@),
            Error::EmptyLine => ErrorView::EmptyLine,
            Error::WrongCardTag { expect, actual } => ErrorView::WrongCardTag {
                expect: expect@,
                actual: actual@,
            },
            Error::InvalidInt(cause) => ErrorView::InvalidInt(*cause),
            Error::InvalidFloat(kind) => ErrorView::InvalidFloat(*kind),
            Error::MissingValue => ErrorView::MissingValue,
            Error::ExtraneousValue(token) => ErrorView::ExtraneousValue(token@),
        }
    }
}

impl ErrorView {
    /// The kinds of violation after which the rest of the input can still
    /// be read. A lenient parse tolerates no violation of another kind.
    pub open spec fn is_weak(self) -> bool {
        self is MissingCard || self is ExtraneousCard || self is EmptyLine
            || self is ExtraneousValue
    }
}

/// Whether a weak violation stops the parse.
#[derive(Clone, Copy, Debug, PartialEq, Eq, Structural)]
pub enum ErrorMode {
    /// Every violation stops the parse.
    Strict,
    /// A weak violation is reported to the sink and the parse goes on.
    Lenient,
}

/// What a step of the parse comes to: its result, and the violations that it
/// tolerated on the way, in the order in which it met them.
pub struct Outcome<T> {
    pub result: Result<T, ErrorView>,
    pub reported: Seq<ErrorView>,
}

impl<T> Outcome<T> {
    /// Success with nothing to report.
    pub open spec fn ok(value: T) -> Self {
        Outcome { result: Ok(value), reported: Seq::empty() }
    }

    /// Failure with nothing tolerated before it.
    pub open spec fn fail(error: ErrorView) -> Self {
        Outcome { result: Err(error), reported: Seq::empty() }
    }

    /// The same reports, with `f` applied to what succeeded.
    pub open spec fn map<U>(self, f: spec_fn(T) -> U) -> Outcome<U> {
        Outcome {
            result: match self.result {
                Ok(value) => Ok(f(value)),
                Err(e) => Err(e),
            },
            reported: self.reported,
        }
    }

    /// The same result, reached after `earlier` had been reported.
    pub open spec fn after(self, earlier: Seq<ErrorView>) -> Self {
        Outcome { result: self.result, reported: earlier + self.reported }
    }
}

/// What a weak violation comes to under `mode`: the failure itself when
/// strict, one report and no failure when lenient.
pub open spec fn weak_outcome(error: ErrorView, mode: ErrorMode) -> Outcome<()> {
    match mode {
        ErrorMode::Strict => Outcome::fail(error),
        ErrorMode::Lenient => Outcome { result: Ok(()), reported: seq![error] },
    }
}

/// Whether `result` is what `outcome` says: the value with this view, or the
/// error with this view.
pub open spec fn agrees<T: View>(result: Result<T, Error>, outcome: Result<T::V, ErrorView>) -> bool {
    match result {
        Ok(value) => outcome == Ok::<T::V, ErrorView>(value@),
        Err(e) => outcome == Err::<T::V, ErrorView>(e@),
    }
}

/// Receives the violations that a lenient parse tolerates, oldest first.
pub struct Diagnostics {
    pub entries: Vec<Error>,
}

impl View for Diagnostics {
    type V = Seq<ErrorView>;

    open spec fn view(&self) -> Seq<ErrorView> {
        Seq::new(self.entries@.len(), |i: int| self.entries@[i]@)
    }
}

impl Diagnostics {
    /// A sink that has received nothing.
    pub fn new() -> (sink: Self)
        ensures
            sink@ == Seq::<ErrorView>::empty(),
    {
        let sink = Diagnostics { entries: Vec::new() };
        assert(sink@ =~= Seq::<ErrorView>::empty());
        sink
    }

    /// Adds `error` behind what was received before.
    pub fn report(&mut self, error: Error)
        ensures
            final(self)@ == old(self)@.push(error@),
    {
        self.entries.push(error);
        assert(self@ =~= old(self)@.push(error@));
    }

    /// How many violations were received.
    pub fn len(&self) -> (n: usize)
        ensures
            n == self@.len(),
    {
        self.entries.len()
    }
}

/// Settles a weak violation: under [`ErrorMode::Strict`] it is handed back as
/// the failure, under [`ErrorMode::Lenient`] it goes to the sink and the
/// caller may go on.
pub fn weak_error(error: Error, mode: ErrorMode, sink: &mut Diagnostics) -> (result: Result<
    (),
    Error,
>)
    ensures
        agrees(result, weak_outcome(error@, mode).result),
        final(sink)@ == old(sink)@ + weak_outcome(error@, mode).reported,
{
    match mode {
        ErrorMode::Strict => {
            assert(sink@ =~= old(sink)@ + Seq::<ErrorView>::empty());
            Err(error)
        },
        ErrorMode::Lenient => {
            sink.report(error);
            assert(sink@ =~= old(sink)@ + seq![error@]);
            Ok(())
        },
    }
}

} // verus!
