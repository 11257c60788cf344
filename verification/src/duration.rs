//! Reading durations such as "10s", "1.5m" or "30": the text is trimmed and
//! split into its number and its unit suffix. Reading the number itself (a
//! decimal fraction) is left to the caller.
use vstd::prelude::*;

use crate::text::{chars_of, string_of};

verus! {

/// The unit a duration text is written in.
#[derive(Debug, Clone, Copy, PartialEq, Eq)]
pub enum DurationUnit {
    /// A trailing `s`: seconds, possibly fractional.
    Seconds,
    /// A trailing `ms`: whole milliseconds.
    Millis,
    /// A trailing `m`: minutes, possibly fractional.
    Minutes,
    /// No suffix: seconds, possibly fractional.
    Bare,
}

/// A character with the Unicode `White_Space` property (what `char::is_whitespace` accepts).
pub open spec fn white_space(c: char) -> bool {
    ('\u{9}' <= c && c <= '\u{d}') || c == ' ' || c == '\u{85}' || c == '\u{a0}' || c
        == '\u{1680}' || ('\u{2000}' <= c && c <= '\u{200a}') || c == '\u{2028}' || c
        == '\u{2029}' || c == '\u{202f}' || c == '\u{205f}' || c == '\u{3000}'
}

/// The text without its leading white space.
pub open spec fn trim_start(s: Seq<char>) -> Seq<char>
    decreases s.len(),
{
    if s.len() > 0 && white_space(s[0]) {
        trim_start(s.drop_first())
    } else {
        s
    }
}

/// The text without its trailing white space.
pub open spec fn trim_end(s: Seq<char>) -> Seq<char>
    decreases s.len(),
{
    if s.len() > 0 && white_space(s.last()) {
        trim_end(s.drop_last())
    } else {
        s
    }
}

/// The text without leading and trailing white space.
pub open spec fn trimmed(s: Seq<char>) -> Seq<char> {
    trim_end(trim_start(s))
}

/// The number text and the unit of a duration text: a trailing `ms` means
/// milliseconds, else a trailing `s` seconds, else a trailing `m` minutes, and
/// a text without a suffix is seconds.
pub open spec fn duration_parts(s: Seq<char>) -> (DurationUnit, Seq<char>) {
    let t = trimmed(s);
    if t.len() >= 2 && t[t.len() - 2] == 'm' && t.last() == 's' {
        (DurationUnit::Millis, t.subrange(0, t.len() - 2))
    } else if t.len() >= 1 && t.last() == 's' {
        (DurationUnit::Seconds, t.drop_last())
    } else if t.len() >= 1 && t.last() == 'm' {
        (DurationUnit::Minutes, t.drop_last())
    } else {
        (DurationUnit::Bare, t)
    }
}

/// Whether a character has the Unicode `White_Space` property.
pub fn is_white_space(c: char) -> (r: bool)
    ensures
        r == white_space(c),
{
    ('\u{9}' <= c && c <= '\u{d}') || c == ' ' || c == '\u{85}' || c == '\u{a0}' || c
        == '\u{1680}' || ('\u{2000}' <= c && c <= '\u{200a}') || c == '\u{2028}' || c
        == '\u{2029}' || c == '\u{202f}' || c == '\u{205f}' || c == '\u{3000}'
}

/// Trimming from the front stops at the first character that is not white space.
proof fn lemma_trim_start_at(s: Seq<char>, i: int)
    requires
        0 <= i <= s.len(),
        forall|j: int| 0 <= j < i ==> white_space(#[trigger] s[j]),
    ensures
        trim_start(s) == trim_start(s.skip(i)),
    decreases i,
{
    if i > 0 {
        assert(s.skip(1).skip(i - 1) =~= s.skip(i));
        lemma_trim_start_at(s.drop_first(), i - 1);
        assert(s.drop_first() =~= s.skip(1));
    } else {
        assert(s.skip(0) =~= s);
    }
}

/// Trimming from the back stops at the last character that is not white space.
proof fn lemma_trim_end_at(s: Seq<char>, j: int)
    requires
        0 <= j <= s.len(),
        forall|k: int| j <= k < s.len() ==> white_space(#[trigger] s[k]),
    ensures
        trim_end(s) == trim_end(s.subrange(0, j)),
    decreases s.len() - j,
{
    if j < s.len() {
        assert(s.drop_last().subrange(0, j) =~= s.subrange(0, j));
        lemma_trim_end_at(s.drop_last(), j);
    } else {
        assert(s.subrange(0, j) =~= s);
    }
}

/// The text without leading and trailing white space.
pub fn trim_text(s: &str) -> (r: String)
    ensures
        r@ == trimmed(s@),
{
    let cs = chars_of(s);
    let n = cs.len();
    let mut i: usize = 0;
    while i < n && is_white_space(cs[i])
        invariant
            i <= n,
            n == cs@.len(),
            forall|j: int| 0 <= j < i ==> white_space(#[trigger] cs@[j]),
        decreases n - i,
    {
        i = i + 1;
    }
    proof {
        lemma_trim_start_at(cs@, i as int);
        let rest = cs@.skip(i as int);
        if rest.len() > 0 {
            assert(rest[0] == cs@[i as int]);
        }
        assert(trim_start(rest) == rest);
    }
    let mut j: usize = n;
    while j > i && is_white_space(cs[j - 1])
        invariant
            i <= j <= n,
            n == cs@.len(),
            forall|k: int| j <= k < n ==> white_space(#[trigger] cs@[k]),
        decreases j - i,
    {
        j = j - 1;
    }
    let ghost rest = cs@.skip(i as int);
    let ghost kept = cs@.subrange(i as int, j as int);
    proof {
        assert forall|k: int| j - i <= k < rest.len() implies white_space(#[trigger] rest[k]) by {
            assert(rest[k] == cs@[i + k]);
        }
        lemma_trim_end_at(rest, j - i);
        assert(rest.subrange(0, j - i) =~= kept);
        if kept.len() > 0 {
            assert(kept.last() == cs@[j - 1]);
        }
        assert(trim_end(kept) == kept);
    }
    let mut out: Vec<char> = Vec::new();
    let mut k: usize = i;
    while k < j
        invariant
            i <= k <= j <= n,
            n == cs@.len(),
            out@ == cs@.subrange(i as int, k as int),
        decreases j - k,
    {
        out.push(cs[k]);
        assert(cs@.subrange(i as int, k + 1) =~= cs@.subrange(i as int, k as int).push(cs@[k as int]));
        k = k + 1;
    }
    string_of(out.as_slice())
}

/// The first `len` characters.
fn take_chars(cs: &Vec<char>, len: usize) -> (r: String)
    requires
        len <= cs@.len(),
    ensures
        r@ == cs@.subrange(0, len as int),
{
    let mut out: Vec<char> = Vec::new();
    let mut k: usize = 0;
    while k < len
        invariant
            k <= len <= cs@.len(),
            out@ == cs@.subrange(0, k as int),
        decreases len - k,
    {
        out.push(cs[k]);
        assert(cs@.subrange(0, k + 1) =~= cs@.subrange(0, k as int).push(cs@[k as int]));
        k = k + 1;
    }
    string_of(out.as_slice())
}

/// The unit of a duration text and the text of its number: the text is
/// trimmed, then a trailing `ms`, `s` or `m` (tried in that order) is taken off.
pub fn split_duration_str(s: &str) -> (r: (DurationUnit, String))
    ensures
        (r.0, r.1@) == duration_parts(s@),
{
    let t = trim_text(s);
    let cs = chars_of(t.as_str());
    let n = cs.len();
    if n >= 2 && cs[n - 2] == 'm' && cs[n - 1] == 's' {
        (DurationUnit::Millis, take_chars(&cs, n - 2))
    } else if n >= 1 && cs[n - 1] == 's' {
        (DurationUnit::Seconds, take_chars(&cs, n - 1))
    } else if n >= 1 && cs[n - 1] == 'm' {
        (DurationUnit::Minutes, take_chars(&cs, n - 1))
    } else {
        assert(cs@.subrange(0, n as int) =~= cs@);
        (DurationUnit::Bare, take_chars(&cs, n))
    }
}

} // verus!
