//! The text layer of the format: lines of a buffer, tokens of a line.

use vstd::prelude::*;
use vstd::slice::slice_subrange;

verus! {

/// The characters that separate tokens: those with the Unicode property
/// `White_Space`.
pub open spec fn is_whitespace(c: char) -> bool {
    let n = c as u32;
    ||| 0x09 <= n <= 0x0D
    ||| n == 0x20
    ||| n == 0x85
    ||| n == 0xA0
    ||| n == 0x1680
    ||| 0x2000 <= n <= 0x200A
    ||| n == 0x2028
    ||| n == 0x2029
    ||| n == 0x202F
    ||| n == 0x205F
    ||| n == 0x3000
}

/// How many characters stand before the first line feed of `text`, or in all
/// of it where it holds none.
pub open spec fn line_end(text: Seq<char>) -> int
    decreases text.len(),
{
    if text.len() == 0 || text[0] == '\n' {
        0
    } else {
        1 + line_end(text.drop_first())
    }
}

/// A line without the carriage return in front of its line feed.
pub open spec fn strip_cr(line: Seq<char>) -> Seq<char> {
    if line.len() > 0 && line.last() == '\r' {
        line.drop_last()
    } else {
        line
    }
}

/// The lines of `text`. A line ends at a line feed, or at a carriage return
/// directly followed by one; neither belongs to the line. What stands after
/// the last line feed is a line too, unless it is empty.
pub open spec fn lines(text: Seq<char>) -> Seq<Seq<char>>
    decreases text.len(),
    via lines_decreases
{
    if text.len() == 0 {
        Seq::empty()
    } else {
        let n = line_end(text);
        if n >= text.len() {
            seq![text]
        } else {
            seq![strip_cr(text.take(n))] + lines(text.skip(n + 1))
        }
    }
}

#[via_fn]
proof fn lines_decreases(text: Seq<char>) {
    lemma_line_end_bounds(text);
}

/// How many characters stand before the first whitespace of `s`, or in all of
/// it where it holds none.
pub open spec fn token_end(s: Seq<char>) -> int
    decreases s.len(),
{
    if s.len() == 0 || is_whitespace(s[0]) {
        0
    } else {
        1 + token_end(s.drop_first())
    }
}

/// The tokens of `line`: its longest runs of characters that are no
/// whitespace, from left to right.
pub open spec fn tokens(line: Seq<char>) -> Seq<Seq<char>>
    decreases line.len(),
    via tokens_decreases
{
    if line.len() == 0 {
        Seq::empty()
    } else if is_whitespace(line[0]) {
        tokens(line.drop_first())
    } else {
        let n = token_end(line);
        seq![line.take(n)] + tokens(line.skip(n))
    }
}

#[via_fn]
proof fn tokens_decreases(line: Seq<char>) {
    if line.len() > 0 && !is_whitespace(line[0]) {
        lemma_token_end_bounds(line);
        lemma_token_end_bounds(line.drop_first());
    }
}

pub proof fn lemma_line_end_bounds(text: Seq<char>)
    ensures
        0 <= line_end(text) <= text.len(),
    decreases text.len(),
{
    if text.len() > 0 && text[0] != '\n' {
        lemma_line_end_bounds(text.drop_first());
    }
}

pub proof fn lemma_token_end_bounds(s: Seq<char>)
    ensures
        0 <= token_end(s) <= s.len(),
    decreases s.len(),
{
    if s.len() > 0 && !is_whitespace(s[0]) {
        lemma_token_end_bounds(s.drop_first());
    }
}

/// `line_end` is the one position that has no line feed before it and a line
/// feed, or the end, at it.
pub proof fn lemma_line_end_is(text: Seq<char>, n: int)
    requires
        0 <= n <= text.len(),
        forall|j: int| 0 <= j < n ==> text[j] != '\n',
        n == text.len() || text[n] == '\n',
    ensures
        line_end(text) == n,
    decreases n,
{
    if n > 0 {
        let rest = text.drop_first();
        assert forall|j: int| 0 <= j < n - 1 implies rest[j] != '\n' by {
            assert(rest[j] == text[j + 1]);
        }
        lemma_line_end_is(rest, n - 1);
    }
}

/// `token_end` is the one position that has no whitespace before it and
/// whitespace, or the end, at it.
pub proof fn lemma_token_end_is(s: Seq<char>, n: int)
    requires
        0 <= n <= s.len(),
        forall|j: int| 0 <= j < n ==> !is_whitespace(s[j]),
        n == s.len() || is_whitespace(s[n]),
    ensures
        token_end(s) == n,
    decreases n,
{
    if n > 0 {
        let rest = s.drop_first();
        assert forall|j: int| 0 <= j < n - 1 implies !is_whitespace(rest[j]) by {
            assert(rest[j] == s[j + 1]);
        }
        lemma_token_end_is(rest, n - 1);
    }
}

/// Whether `c` separates tokens.
pub fn is_space(c: char) -> (r: bool)
    ensures
        r == is_whitespace(c),
{
    let n: u32 = c as u32;
    (0x09 <= n && n <= 0x0D) || n == 0x20 || n == 0x85 || n == 0xA0 || n == 0x1680 || (0x2000 <= n
        && n <= 0x200A) || n == 0x2028 || n == 0x2029 || n == 0x202F || n == 0x205F || n
        == 0x3000
}

/// The characters of `s`, one by one.
pub fn chars_of(s: &str) -> (chars: Vec<char>)
    ensures
        chars@ == s@,
{
    let mut chars: Vec<char> = Vec::new();
    for c in it: s.chars()
        invariant
            chars.len() == it.index(),
            forall|i: int| 0 <= i < chars.len() ==> chars@[i] == it.seq()[i],
    {
        chars.push(c);
    }
    assert(chars@ =~= s@);
    chars
}

/// `String::from_iter` over a slice of characters: the string that holds
/// exactly these characters in this order.
#[verifier::external_body]
fn string_of(chars: &[char]) -> (s: String)
    ensures
        s@ == chars@,
{
    String::from_iter(chars.iter())
}

/// `str::eq`: whether two string slices hold the same characters.
#[verifier::external_body]
pub(crate) fn str_eq(a: &str, b: &str) -> (same: bool)
    ensures
        same == (a@ == b@),
{
    a == b
}

/// The members of a list, each by its view.
pub open spec fn views<T: View>(list: Seq<T>) -> Seq<T::V> {
    Seq::new(list.len(), |i: int| list[i]@)
}

/// Splits `text` into its lines.
pub fn split_lines(text: &str) -> (out: Vec<String>)
    ensures
        views(out@) == lines(text@),
{
    let chars = chars_of(text);
    let n = chars.len();
    let mut out: Vec<String> = Vec::new();
    let mut start: usize = 0;
    let mut i: usize = 0;
    assert(chars@.skip(0) =~= chars@);
    assert(views(out@) =~= Seq::<Seq<char>>::empty());
    while i < n
        invariant
            n == chars.len(),
            start <= i <= n,
            forall|j: int| start <= j < i ==> chars@[j] != '\n',
            lines(chars@) == views(out@) + lines(chars@.skip(start as int)),
        decreases n - i,
    {
        if chars[i] == '\n' {
            let end: usize = if i > start && chars[i - 1] == '\r' {
                i - 1
            } else {
                i
            };
            let line = string_of(slice_subrange(chars.as_slice(), start, end));
            proof {
                let rest = chars@.skip(start as int);
                let len = i - start;
                lemma_line_end_is(rest, len);
                assert(rest.take(len) =~= chars@.subrange(start as int, i as int));
                assert(strip_cr(rest.take(len)) =~= line@);
                assert(rest.skip(len + 1) =~= chars@.skip(i + 1));
                assert(views(out@.push(line)) =~= views(out@) + seq![line@]);
            }
            out.push(line);
            start = i + 1;
        }
        i += 1;
    }
    if start < n {
        let line = string_of(slice_subrange(chars.as_slice(), start, n));
        proof {
            let rest = chars@.skip(start as int);
            lemma_line_end_is(rest, n - start);
            assert(rest =~= line@);
            assert(views(out@.push(line)) =~= views(out@) + seq![line@]);
        }
        out.push(line);
    } else {
        assert(chars@.skip(start as int).len() == 0);
        assert(views(out@) + Seq::<Seq<char>>::empty() =~= views(out@));
    }
    out
}

/// Splits `line` into its tokens.
pub fn split_whitespace(line: &str) -> (out: Vec<String>)
    ensures
        views(out@) == tokens(line@),
{
    let chars = chars_of(line);
    let n = chars.len();
    let mut out: Vec<String> = Vec::new();
    let mut i: usize = 0;
    assert(chars@.skip(0) =~= chars@);
    assert(views(out@) =~= Seq::<Seq<char>>::empty());
    while i < n
        invariant
            n == chars.len(),
            i <= n,
            tokens(chars@) == views(out@) + tokens(chars@.skip(i as int)),
        decreases n - i,
    {
        if is_space(chars[i]) {
            assert(chars@.skip(i as int).drop_first() =~= chars@.skip(i + 1));
            i += 1;
        } else {
            let start: usize = i;
            while i < n && !is_space(chars[i])
                invariant
                    n == chars.len(),
                    start <= i <= n,
                    forall|j: int| start <= j < i ==> !is_whitespace(chars@[j]),
                decreases n - i,
            {
                i += 1;
            }
            let token = string_of(slice_subrange(chars.as_slice(), start, i));
            proof {
                let rest = chars@.skip(start as int);
                let len = i - start;
                lemma_token_end_is(rest, len);
                assert(rest.take(len) =~= token@);
                assert(rest.skip(len) =~= chars@.skip(i as int));
                assert(views(out@.push(token)) =~= views(out@) + seq![token@]);
            }
            out.push(token);
        }
    }
    assert(chars@.skip(n as int).len() == 0);
    assert(views(out@) + Seq::<Seq<char>>::empty() =~= views(out@));
    out
}

} // verus!
