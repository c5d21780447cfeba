//! The numeric decoder: a token to an unsigned integer, or to a decimal
//! floating-point literal whose spelling has been checked.

use crate::error::{agrees, Error, ErrorView, FloatErrorKind};
use crate::text::chars_of;
use std::num::ParseIntError;
use vstd::prelude::*;

verus! {

/// The ten decimal digits.
pub open spec fn is_digit(c: char) -> bool {
    0x30 <= c as u32 <= 0x39
}

/// What a decimal digit counts.
pub open spec fn digit_value(c: char) -> nat {
    (c as u32 - 0x30) as nat
}

/// Whether `s` holds decimal digits only.
pub open spec fn all_digits(s: Seq<char>) -> bool {
    forall|i: int| 0 <= i < s.len() ==> is_digit(#[trigger] s[i])
}

/// The number that a run of decimal digits writes.
pub open spec fn digits_value(s: Seq<char>) -> nat
    decreases s.len(),
{
    if s.len() == 0 {
        0
    } else {
        10 * digits_value(s.drop_last()) + digit_value(s.last())
    }
}

/// The number that `token` writes: a plus sign or none, then one decimal
/// digit or more. Anything else writes no number.
pub open spec fn unsigned_value(token: Seq<char>) -> Option<nat> {
    let digits = if token.len() > 0 && token[0] == '+' {
        token.drop_first()
    } else {
        token
    };
    if digits.len() > 0 && all_digits(digits) {
        Some(digits_value(digits))
    } else {
        None
    }
}

/// The identifier that `token` decodes to: the number it writes, where it
/// writes one that 32 bits can hold.
pub open spec fn decoded_unsigned(token: Seq<char>) -> Option<u32> {
    match unsigned_value(token) {
        Some(value) if value <= u32::MAX => Some(value as u32),
        _ => None,
    }
}

/// The diagnostic that the integer decoder gives for a token that it refuses.
pub uninterp spec fn int_diagnostic(token: Seq<char>) -> ParseIntError;

/// What decoding `token` as an identifier comes to.
pub open spec fn unsigned_outcome(token: Seq<char>) -> Result<u32, ErrorView> {
    match decoded_unsigned(token) {
        Some(value) => Ok(value),
        None => Err(ErrorView::InvalidInt(int_diagnostic(token))),
    }
}

/// `<u32 as num_traits::Num>::from_str_radix` in base 10, which hands the
/// token to `u32::from_str_radix`. That one accepts an optional plus sign
/// followed by decimal digits only, at least one, and refuses a number that
/// 32 bits cannot hold; its diagnostic depends on the token alone.
#[verifier::external_body]
fn u32_from_decimal(token: &str) -> (result: Result<u32, ParseIntError>)
    ensures
        match result {
            Ok(value) => decoded_unsigned(token@) == Some(value),
            Err(cause) => decoded_unsigned(token@) is None && cause == int_diagnostic(token@),
        },
{
    <u32 as num_traits::Num>::from_str_radix(token, 10)
}

/// Decodes `token` as an unsigned identifier in base 10.
pub fn decode_unsigned(token: &str) -> (result: Result<u32, Error>)
    ensures
        agrees(result, unsigned_outcome(token@)),
{
    match u32_from_decimal(token) {
        Ok(value) => Ok(value),
        Err(cause) => Err(Error::InvalidInt(cause)),
    }
}

/// A plus or a minus sign.
pub open spec fn is_sign(c: char) -> bool {
    c == '+' || c == '-'
}

/// An ASCII capital letter as its small letter, any other character as
/// itself.
pub open spec fn ascii_lower(c: char) -> char {
    if 0x41 <= c as u32 <= 0x5A {
        ((c as u32 + 0x20) as u8) as char
    } else {
        c
    }
}

/// Whether `s` spells `word`, capitals and small letters taken alike.
pub open spec fn spells(s: Seq<char>, word: Seq<char>) -> bool {
    s.len() == word.len() && forall|i: int| 0 <= i < s.len() ==> ascii_lower(#[trigger] s[i]) == word[i]
}

/// How many decimal digits `s` begins with.
pub open spec fn digit_run(s: Seq<char>) -> int
    decreases s.len(),
{
    if s.len() == 0 || !is_digit(s[0]) {
        0
    } else {
        1 + digit_run(s.drop_first())
    }
}

/// An exponent: the letter `e`, a sign or none, one decimal digit or more.
pub open spec fn is_exponent(s: Seq<char>) -> bool {
    &&& s.len() >= 2
    &&& ascii_lower(s[0]) == 'e'
    &&& {
        let digits = if is_sign(s[1]) {
            s.skip(2)
        } else {
            s.skip(1)
        };
        digits.len() > 0 && all_digits(digits)
    }
}

/// A number: digits, a point among them or none, at least one digit on one
/// side of it, and an exponent or none.
pub open spec fn is_number(s: Seq<char>) -> bool {
    let whole = digit_run(s);
    let tail = s.skip(whole);
    if tail.len() > 0 && tail[0] == '.' {
        let fraction = digit_run(tail.skip(1));
        let rest = tail.skip(1 + fraction);
        whole + fraction > 0 && (rest.len() == 0 || is_exponent(rest))
    } else {
        whole > 0 && (tail.len() == 0 || is_exponent(tail))
    }
}

/// The three words that stand for values that are no numbers.
pub open spec fn is_special(s: Seq<char>) -> bool {
    ||| spells(s, seq!['i', 'n', 'f'])
    ||| spells(s, seq!['i', 'n', 'f', 'i', 'n', 'i', 't', 'y'])
    ||| spells(s, seq!['n', 'a', 'n'])
}

/// The decimal floating-point literals: a sign or none, then a number or one
/// of the special words.
pub open spec fn is_float_literal(token: Seq<char>) -> bool {
    let body = if token.len() > 0 && is_sign(token[0]) {
        token.drop_first()
    } else {
        token
    };
    is_special(body) || is_number(body)
}

/// Why a token that is no literal is refused.
pub open spec fn float_error_kind(token: Seq<char>) -> FloatErrorKind {
    if token.len() == 0 {
        FloatErrorKind::Empty
    } else {
        FloatErrorKind::Invalid
    }
}

/// What decoding `token` as a coordinate comes to: its own spelling, where
/// that is a literal.
pub open spec fn float_outcome(token: Seq<char>) -> Result<Seq<char>, ErrorView> {
    if is_float_literal(token) {
        Ok(token)
    } else {
        Err(ErrorView::InvalidFloat(float_error_kind(token)))
    }
}

proof fn lemma_digit_run_is(s: Seq<char>, n: int)
    requires
        0 <= n <= s.len(),
        forall|j: int| 0 <= j < n ==> is_digit(s[j]),
        n == s.len() || !is_digit(s[n]),
    ensures
        digit_run(s) == n,
    decreases n,
{
    if n > 0 {
        let rest = s.drop_first();
        assert forall|j: int| 0 <= j < n - 1 implies is_digit(rest[j]) by {
            assert(rest[j] == s[j + 1]);
        }
        lemma_digit_run_is(rest, n - 1);
    }
}

fn is_decimal_digit(c: char) -> (r: bool)
    ensures
        r == is_digit(c),
{
    let n: u32 = c as u32;
    0x30 <= n && n <= 0x39
}

fn to_ascii_lower(c: char) -> (r: char)
    ensures
        r == ascii_lower(c),
{
    let n: u32 = c as u32;
    if 0x41 <= n && n <= 0x5A {
        ((n + 0x20) as u8) as char
    } else {
        c
    }
}

/// The end of the run of digits that begins at `from`.
fn skip_digits(chars: &Vec<char>, from: usize) -> (end: usize)
    requires
        from <= chars.len(),
    ensures
        from <= end <= chars.len(),
        end - from == digit_run(chars@.skip(from as int)),
        all_digits(chars@.skip(from as int)) <==> end == chars.len(),
{
    let mut end: usize = from;
    while end < chars.len() && is_decimal_digit(chars[end])
        invariant
            from <= end <= chars.len(),
            forall|j: int| from <= j < end ==> is_digit(chars@[j]),
        decreases chars.len() - end,
    {
        end += 1;
    }
    proof {
        let rest = chars@.skip(from as int);
        lemma_digit_run_is(rest, end - from);
        if end < chars.len() {
            assert(rest[end - from] == chars@[end as int]);
        }
    }
    end
}

/// Whether what stands from `from` on spells `word`.
fn spells_from(chars: &Vec<char>, from: usize, word: &[char]) -> (r: bool)
    requires
        from <= chars.len(),
    ensures
        r == spells(chars@.skip(from as int), word@),
{
    if chars.len() - from != word.len() {
        return false;
    }
    let mut i: usize = 0;
    while i < word.len()
        invariant
            from <= chars.len(),
            chars.len() - from == word.len(),
            i <= word.len(),
            forall|j: int| 0 <= j < i ==> ascii_lower(chars@[from + j]) == word@[j],
        decreases word.len() - i,
    {
        if to_ascii_lower(chars[from + i]) != word[i] {
            assert(chars@.skip(from as int)[i as int] == chars@[from + i]);
            return false;
        }
        i += 1;
    }
    assert forall|j: int| 0 <= j < chars@.skip(from as int).len() implies ascii_lower(
        #[trigger] chars@.skip(from as int)[j],
    ) == word@[j] by {
        assert(chars@.skip(from as int)[j] == chars@[from + j]);
    }
    true
}

/// Whether what stands from `from` on is an exponent.
fn exponent_from(chars: &Vec<char>, from: usize) -> (r: bool)
    requires
        from <= chars.len(),
    ensures
        r == is_exponent(chars@.skip(from as int)),
{
    let ghost s = chars@.skip(from as int);
    if chars.len() - from < 2 {
        return false;
    }
    assert(s[0] == chars@[from as int]);
    assert(s[1] == chars@[from + 1]);
    if to_ascii_lower(chars[from]) != 'e' {
        return false;
    }
    let c = chars[from + 1];
    let digits_from: usize = if c == '+' || c == '-' {
        from + 2
    } else {
        from + 1
    };
    assert(chars@.skip(digits_from as int) =~= if is_sign(s[1]) {
        s.skip(2)
    } else {
        s.skip(1)
    });
    let end = skip_digits(chars, digits_from);
    digits_from < chars.len() && end == chars.len()
}

/// Whether what stands from `from` on is a number.
fn number_from(chars: &Vec<char>, from: usize) -> (r: bool)
    requires
        from <= chars.len(),
    ensures
        r == is_number(chars@.skip(from as int)),
{
    let ghost s = chars@.skip(from as int);
    let point = skip_digits(chars, from);
    assert(s.skip(point - from) =~= chars@.skip(point as int));
    if point < chars.len() && chars[point] == '.' {
        let ghost tail = chars@.skip(point as int);
        assert(tail.skip(1) =~= chars@.skip(point + 1));
        let end = skip_digits(chars, point + 1);
        assert(tail.skip(1 + (end - (point + 1))) =~= chars@.skip(end as int));
        let has_digit = point > from || end > point + 1;
        if end == chars.len() {
            has_digit
        } else {
            let exponent = exponent_from(chars, end);
            has_digit && exponent
        }
    } else if point == chars.len() {
        point > from
    } else {
        let exponent = exponent_from(chars, point);
        point > from && exponent
    }
}

/// Whether `chars` spell a decimal floating-point literal.
fn float_literal_chars(chars: &Vec<char>) -> (r: bool)
    ensures
        r == is_float_literal(chars@),
{
    let from: usize = if chars.len() > 0 && (chars[0] == '+' || chars[0] == '-') {
        1
    } else {
        0
    };
    assert(chars@.skip(from as int) =~= if chars@.len() > 0 && is_sign(chars@[0]) {
        chars@.drop_first()
    } else {
        chars@
    });
    let inf: [char; 3] = ['i', 'n', 'f'];
    let infinity: [char; 8] = ['i', 'n', 'f', 'i', 'n', 'i', 't', 'y'];
    let nan: [char; 3] = ['n', 'a', 'n'];
    assert(inf@ =~= seq!['i', 'n', 'f']);
    assert(infinity@ =~= seq!['i', 'n', 'f', 'i', 'n', 'i', 't', 'y']);
    assert(nan@ =~= seq!['n', 'a', 'n']);
    if spells_from(chars, from, inf.as_slice()) {
        true
    } else if spells_from(chars, from, infinity.as_slice()) {
        true
    } else if spells_from(chars, from, nan.as_slice()) {
        true
    } else {
        number_from(chars, from)
    }
}

/// A decimal floating-point literal, kept as it was written. The value it
/// stands for is the caller's to compute.
#[derive(Debug)]
pub struct FloatLiteral {
    text: String,
}

impl View for FloatLiteral {
    type V = Seq<char>;

    closed spec fn view(&self) -> Seq<char> {
        self.text@
    }
}

impl FloatLiteral {
    #[verifier::type_invariant]
    spec fn well_formed(&self) -> bool {
        is_float_literal(self.text@)
    }

    /// The literal as it was written.
    pub fn as_str(&self) -> (s: &str)
        ensures
            s@ == self@,
            is_float_literal(s@),
    {
        proof {
            use_type_invariant(self);
        }
        self.text.as_str()
    }
}

impl Clone for FloatLiteral {
    fn clone(&self) -> (copy: Self)
        ensures
            copy@ == self@,
    {
        proof {
            use_type_invariant(self);
        }
        FloatLiteral { text: self.text.clone() }
    }
}

/// Decodes `token` as a coordinate: accepts it where it spells a decimal
/// floating-point literal.
pub fn decode_float(token: &str) -> (result: Result<FloatLiteral, Error>)
    ensures
        agrees(result, float_outcome(token@)),
{
    let chars = chars_of(token);
    if float_literal_chars(&chars) {
        Ok(FloatLiteral { text: token.to_owned() })
    } else if chars.len() == 0 {
        Err(Error::InvalidFloat(FloatErrorKind::Empty))
    } else {
        Err(Error::InvalidFloat(FloatErrorKind::Invalid))
    }
}

} // verus!
