//! A plain model of an HTTP header map: an ordered list of (name, value)
//! entries whose names are kept in ASCII lower case, looked up without regard
//! to case, with values as raw bytes.
use vstd::prelude::*;

use vstd::string::StringSliceAdditionalSpecFns;
use crate::text::{chars_equal, chars_of, lemma_lower_idempotent, lower_chars, lower_text, string_of};

verus! {

/// One header line: a lower-case name and the raw bytes of its value.
#[derive(Clone, Debug)]
pub struct HeaderEntry {
    pub name: String,
    pub value: Vec<u8>,
}

/// An ordered collection of header lines. A name may occur more than once;
/// a lookup sees the first line of that name.
#[derive(Debug)]
pub struct HeaderList {
    entries: Vec<HeaderEntry>,
}

/// The first value stored under `key` (a lower-case name), if any.
pub open spec fn lookup(entries: Seq<(Seq<char>, Seq<u8>)>, key: Seq<char>) -> Option<Seq<u8>>
    decreases entries.len(),
{
    if entries.len() == 0 {
        None
    } else if entries[0].0 == key {
        Some(entries[0].1)
    } else {
        lookup(entries.drop_first(), key)
    }
}

/// The entries that remain once every line named `key` is taken out.
pub open spec fn without(entries: Seq<(Seq<char>, Seq<u8>)>, key: Seq<char>) -> Seq<(Seq<char>, Seq<u8>)> {
    entries.filter(other_name(key))
}

/// The lines whose name is not `key`.
pub open spec fn other_name(key: Seq<char>) -> spec_fn((Seq<char>, Seq<u8>)) -> bool {
    |e: (Seq<char>, Seq<u8>)| e.0 != key
}

/// A byte that a header value may hold when read as text: visible ASCII or tab.
pub open spec fn visible_ascii(b: u8) -> bool {
    (32 <= b && b < 127) || b == 9
}

/// Every byte is visible ASCII or tab.
pub open spec fn all_visible(s: Seq<u8>) -> bool {
    forall|i: int| 0 <= i < s.len() ==> visible_ascii(#[trigger] s[i])
}

/// The text whose characters are the given (ASCII) bytes.
pub open spec fn bytes_text(s: Seq<u8>) -> Seq<char> {
    s.map_values(|b: u8| b as char)
}

/// A header value read as text: defined only when every byte is visible ASCII or tab.
pub open spec fn value_text(s: Seq<u8>) -> Option<Seq<char>> {
    if all_visible(s) {
        Some(bytes_text(s))
    } else {
        None
    }
}

/// A character that a header name may hold (an HTTP token character).
pub open spec fn token_char(c: char) -> bool {
    ('a' <= c && c <= 'z') || ('A' <= c && c <= 'Z') || ('0' <= c && c <= '9') || c == '!'
        || c == '#' || c == '$' || c == '%' || c == '&' || c == '\'' || c == '*' || c == '+'
        || c == '-' || c == '.' || c == '^' || c == '_' || c == '`' || c == '|' || c == '~'
}

/// A valid header name: one to 65535 token characters.
pub open spec fn valid_header_name(s: Seq<char>) -> bool {
    1 <= s.len() <= 65535 && forall|i: int| 0 <= i < s.len() ==> token_char(#[trigger] s[i])
}

/// A byte that a header value may hold when it is built from text.
pub open spec fn value_byte(b: u8) -> bool {
    (32 <= b && b != 127) || b == 9
}

/// Every byte may stand in a header value.
pub open spec fn valid_header_value(s: Seq<u8>) -> bool {
    forall|i: int| 0 <= i < s.len() ==> value_byte(#[trigger] s[i])
}

impl View for HeaderList {
    type V = Seq<(Seq<char>, Seq<u8>)>;

    closed spec fn view(&self) -> Seq<(Seq<char>, Seq<u8>)> {
        self.entries@.map_values(|e: HeaderEntry| (e.name@, e.value@))
    }
}

impl HeaderList {
    /// Every stored name is in lower case.
    #[verifier::type_invariant]
    spec fn names_lower(self) -> bool {
        forall|i: int|
            0 <= i < self.entries@.len() ==> lower_text(#[trigger] self.entries@[i].name@)
                == self.entries@[i].name@
    }

    /// The value under `key`, compared without regard to ASCII case.
    pub open spec fn spec_get(&self, key: Seq<char>) -> Option<Seq<u8>> {
        lookup(self@, lower_text(key))
    }

    /// An empty header list.
    pub fn new() -> (r: HeaderList)
        ensures
            r@ == Seq::<(Seq<char>, Seq<u8>)>::empty(),
    {
        let r = HeaderList { entries: Vec::new() };
        assert(r@ =~= Seq::<(Seq<char>, Seq<u8>)>::empty());
        r
    }

    /// The number of header lines.
    pub fn len(&self) -> (r: usize)
        ensures
            r == self@.len(),
    {
        self.entries.len()
    }

    /// Whether there is no header line at all.
    pub fn is_empty(&self) -> (r: bool)
        ensures
            r == (self@.len() == 0),
    {
        self.entries.len() == 0
    }

    /// The name and value of the `i`-th line; the name is in lower case.
    pub fn entry(&self, i: usize) -> (r: &HeaderEntry)
        requires
            i < self@.len(),
        ensures
            (r.name@, r.value@) == self@[i as int],
            lower_text(r.name@) == r.name@,
    {
        proof {
            use_type_invariant(self);
        }
        &self.entries[i]
    }

    /// The index of the first line named `lowered` (a lower-case name).
    fn position(&self, lowered: &[char]) -> (r: Option<usize>)
        ensures
            match r {
                Some(i) => i < self@.len() && self@[i as int].0 == lowered@ && lookup(self@, lowered@)
                    == Some(self@[i as int].1),
                None => lookup(self@, lowered@) is None,
            },
    {
        let mut i: usize = 0;
        assert(self@.skip(0) =~= self@);
        while i < self.entries.len()
            invariant
                i <= self@.len(),
                self@.len() == self.entries@.len(),
                lookup(self@, lowered@) == lookup(self@.skip(i as int), lowered@),
            decreases self@.len() - i,
        {
            let name_chars = chars_of(self.entries[i].name.as_str());
            assert(self@[i as int].0 == self.entries@[i as int].name@);
            if chars_equal(name_chars.as_slice(), lowered) {
                assert(self@.skip(i as int)[0] == self@[i as int]);
                return Some(i);
            }
            assert(self@.skip(i as int).drop_first() =~= self@.skip(i + 1));
            i = i + 1;
        }
        None
    }

    /// The first value stored under `key`, compared without regard to ASCII case.
    pub fn get(&self, key: &str) -> (r: Option<&Vec<u8>>)
        ensures
            match r {
                Some(v) => self.spec_get(key@) == Some(v@),
                None => self.spec_get(key@) is None,
            },
    {
        let k = chars_of(key);
        let lowered = lower_chars(k.as_slice());
        match self.position(lowered.as_slice()) {
            Some(i) => Some(&self.entries[i].value),
            None => None,
        }
    }

    /// Whether some line is named `key`, compared without regard to ASCII case.
    pub fn contains_key(&self, key: &str) -> (r: bool)
        ensures
            r == self.spec_get(key@) is Some,
    {
        self.get(key).is_some()
    }

    /// Adds a line at the end; its name is stored in lower case.
    pub fn append(&mut self, name: &str, value: &[u8])
        ensures
            final(self)@ == old(self)@.push((lower_text(name@), value@)),
    {
        let k = chars_of(name);
        let lowered = lower_chars(k.as_slice());
        let entry = HeaderEntry { name: string_of(lowered.as_slice()), value: vstd::slice::slice_to_vec(value) };
        proof {
            use_type_invariant(&*self);
            lemma_lower_idempotent(name@);
        }
        let mut entries: Vec<HeaderEntry> = Vec::new();
        std::mem::swap(&mut entries, &mut self.entries);
        entries.push(entry);
        self.entries = entries;
        assert(self@ =~= old(self)@.push((lower_text(name@), value@)));
    }

    /// Takes out every line named `key`, compared without regard to ASCII case.
    pub fn remove(&mut self, key: &str)
        ensures
            final(self)@ == without(old(self)@, lower_text(key@)),
    {
        let k = chars_of(key);
        let lowered = lower_chars(k.as_slice());
        let ghost key_l = lower_text(key@);
        let mut kept: Vec<HeaderEntry> = Vec::new();
        let mut i: usize = 0;
        let ghost v = self@;
        proof {
            use_type_invariant(&*self);
        }
        while i < self.entries.len()
            invariant
                i <= self.entries@.len(),
                v == self@,
                v.len() == self.entries@.len(),
                lowered@ == key_l,
                kept@.map_values(|e: HeaderEntry| (e.name@, e.value@)) == without(
                    v.subrange(0, i as int),
                    key_l,
                ),
                forall|j: int|
                    0 <= j < self.entries@.len() ==> lower_text(#[trigger] self.entries@[j].name@)
                        == self.entries@[j].name@,
                forall|j: int|
                    0 <= j < kept@.len() ==> lower_text(#[trigger] kept@[j].name@) == kept@[j].name@,
            decreases self.entries@.len() - i,
        {
            let name_chars = chars_of(self.entries[i].name.as_str());
            let same = chars_equal(name_chars.as_slice(), lowered.as_slice());
            assert(v.subrange(0, i + 1) =~= v.subrange(0, i as int).push(v[i as int]));
            assert(v[i as int] == (self.entries@[i as int].name@, self.entries@[i as int].value@));
            let ghost before = kept@;
            if !same {
                let e = HeaderEntry {
                    name: self.entries[i].name.clone(),
                    value: vstd::slice::slice_to_vec(self.entries[i].value.as_slice()),
                };
                assert((e.name@, e.value@) == v[i as int]);
                assert(lower_text(e.name@) == e.name@);
                kept.push(e);
                assert(kept@.map_values(|e: HeaderEntry| (e.name@, e.value@)) =~= before.map_values(
                    |e: HeaderEntry| (e.name@, e.value@),
                ).push(v[i as int]));
            }
            proof {
                v.subrange(0, i as int).lemma_filter_push(v[i as int], other_name(key_l));
            }
            assert(same == (v[i as int].0 == key_l));
            assert(without(v.subrange(0, i + 1), key_l) == if v[i as int].0 != key_l {
                without(v.subrange(0, i as int), key_l).push(v[i as int])
            } else {
                without(v.subrange(0, i as int), key_l)
            });
            i = i + 1;
        }
        assert(v.subrange(0, v.len() as int) =~= v);
        self.entries = kept;
    }

    /// Replaces every line named `name` by a single line holding `value`.
    pub fn insert(&mut self, name: &str, value: &[u8])
        ensures
            final(self)@ == without(old(self)@, lower_text(name@)).push((lower_text(name@), value@)),
    {
        self.remove(name);
        self.append(name, value);
    }
}

impl Clone for HeaderList {
    /// A copy with the same lines.
    fn clone(&self) -> (r: Self)
        ensures
            r@ == self@,
    {
        proof {
            use_type_invariant(self);
        }
        let mut entries: Vec<HeaderEntry> = Vec::new();
        let mut i: usize = 0;
        while i < self.entries.len()
            invariant
                i <= self.entries@.len(),
                entries@.map_values(|e: HeaderEntry| (e.name@, e.value@)) == self@.subrange(0, i as int),
                forall|j: int|
                    0 <= j < self.entries@.len() ==> lower_text(#[trigger] self.entries@[j].name@)
                        == self.entries@[j].name@,
                forall|j: int|
                    0 <= j < entries@.len() ==> lower_text(#[trigger] entries@[j].name@) == entries@[j].name@,
            decreases self.entries@.len() - i,
        {
            let e = HeaderEntry {
                name: self.entries[i].name.clone(),
                value: vstd::slice::slice_to_vec(self.entries[i].value.as_slice()),
            };
            let ghost before = entries@;
            assert(self@[i as int] == (self.entries@[i as int].name@, self.entries@[i as int].value@));
            entries.push(e);
            assert(entries@.map_values(|e: HeaderEntry| (e.name@, e.value@)) =~= before.map_values(
                |e: HeaderEntry| (e.name@, e.value@),
            ).push(self@[i as int]));
            assert(self@.subrange(0, i + 1) =~= self@.subrange(0, i as int).push(self@[i as int]));
            i = i + 1;
        }
        assert(self@.subrange(0, self@.len() as int) =~= self@);
        HeaderList { entries }
    }
}

/// The header value read as text, when every byte is visible ASCII or tab.
pub fn value_to_text(v: &[u8]) -> (r: Option<String>)
    ensures
        match r {
            Some(s) => value_text(v@) == Some(s@),
            None => value_text(v@) is None,
        },
{
    let mut out: Vec<char> = Vec::new();
    let mut i: usize = 0;
    while i < v.len()
        invariant
            i <= v@.len(),
            forall|j: int| 0 <= j < i ==> visible_ascii(#[trigger] v@[j]),
            out@ == bytes_text(v@.subrange(0, i as int)),
        decreases v@.len() - i,
    {
        let b = v[i];
        if !((32 <= b && b < 127) || b == 9) {
            return None;
        }
        out.push(b as char);
        assert(bytes_text(v@.subrange(0, i + 1)) =~= bytes_text(v@.subrange(0, i as int)).push(
            b as char,
        ));
        i = i + 1;
    }
    assert(v@.subrange(0, v@.len() as int) =~= v@);
    Some(string_of(out.as_slice()))
}

/// Whether a character is an HTTP token character.
pub fn is_token_char(c: char) -> (r: bool)
    ensures
        r == token_char(c),
{
    ('a' <= c && c <= 'z') || ('A' <= c && c <= 'Z') || ('0' <= c && c <= '9') || c == '!'
        || c == '#' || c == '$' || c == '%' || c == '&' || c == '\'' || c == '*' || c == '+'
        || c == '-' || c == '.' || c == '^' || c == '_' || c == '`' || c == '|' || c == '~'
}

/// The normalised (lower-case) form of a header name, when it is valid.
pub fn parse_header_name(s: &str) -> (r: Option<String>)
    ensures
        match r {
            Some(n) => valid_header_name(s@) && n@ == lower_text(s@),
            None => !valid_header_name(s@),
        },
{
    let cs = chars_of(s);
    if cs.len() == 0 || cs.len() > 65535 {
        return None;
    }
    let mut i: usize = 0;
    while i < cs.len()
        invariant
            i <= cs@.len(),
            cs@ == s@,
            forall|j: int| 0 <= j < i ==> token_char(#[trigger] cs@[j]),
        decreases cs@.len() - i,
    {
        if !is_token_char(cs[i]) {
            return None;
        }
        i = i + 1;
    }
    let lowered = lower_chars(cs.as_slice());
    Some(string_of(lowered.as_slice()))
}

/// The bytes of a header value built from text, when every byte is allowed.
pub fn parse_header_value(s: &str) -> (r: Option<Vec<u8>>)
    ensures
        match r {
            Some(v) => valid_header_value(s.spec_bytes()) && v@ == s.spec_bytes(),
            None => !valid_header_value(s.spec_bytes()),
        },
{
    let bytes = s.as_bytes();
    let mut out: Vec<u8> = Vec::new();
    let mut i: usize = 0;
    while i < bytes.len()
        invariant
            i <= bytes@.len(),
            bytes@ == s.spec_bytes(),
            out@ == bytes@.subrange(0, i as int),
            forall|j: int| 0 <= j < i ==> value_byte(#[trigger] bytes@[j]),
        decreases bytes@.len() - i,
    {
        let b = bytes[i];
        if !((32 <= b && b != 127) || b == 9) {
            return None;
        }
        out.push(b);
        assert(out@ =~= bytes@.subrange(0, i + 1));
        i = i + 1;
    }
    assert(out@ =~= bytes@);
    Some(out)
}

/// The bytes of an ASCII text, one per character.
pub open spec fn ascii_bytes(s: Seq<char>) -> Seq<u8> {
    s.map_values(|c: char| c as u8)
}

/// The bytes of a text whose characters are ASCII, one per character.
pub fn text_bytes(s: &str) -> (r: Vec<u8>)
    ensures
        r@ == ascii_bytes(s@),
{
    let cs = chars_of(s);
    let mut out: Vec<u8> = Vec::new();
    let mut i: usize = 0;
    while i < cs.len()
        invariant
            i <= cs@.len(),
            cs@ == s@,
            out@ == ascii_bytes(cs@.subrange(0, i as int)),
        decreases cs@.len() - i,
    {
        let c = cs[i];
        out.push(c as u8);
        assert(ascii_bytes(cs@.subrange(0, i + 1)) =~= ascii_bytes(cs@.subrange(0, i as int)).push(
            c as u8,
        ));
        i = i + 1;
    }
    assert(cs@.subrange(0, cs@.len() as int) =~= cs@);
    out
}

/// A lookup in a list with one more line at the end: the earlier lines win.
pub(crate) proof fn lemma_lookup_push(s: Seq<(Seq<char>, Seq<u8>)>, e: (Seq<char>, Seq<u8>), key: Seq<char>)
    ensures
        lookup(s.push(e), key) == match lookup(s, key) {
            Some(v) => Some(v),
            None => if e.0 == key {
                Some(e.1)
            } else {
                None
            },
        },
    decreases s.len(),
{
    if s.len() == 0 {
        assert(s.push(e).drop_first() =~= s);
    } else {
        assert(s.push(e)[0] == s[0]);
        assert(s.push(e).drop_first() =~= s.drop_first().push(e));
        lemma_lookup_push(s.drop_first(), e, key);
    }
}

/// Taking out the lines of one name leaves that name absent and every other
/// name as it was.
pub(crate) proof fn lemma_lookup_without(s: Seq<(Seq<char>, Seq<u8>)>, key: Seq<char>, other: Seq<char>)
    ensures
        lookup(without(s, key), key) is None,
        other != key ==> lookup(without(s, key), other) == lookup(s, other),
    decreases s.len(),
{
    if s.len() > 0 {
        let rest = s.drop_last();
        let x = s.last();
        assert(s =~= rest.push(x));
        lemma_lookup_without(rest, key, other);
        rest.lemma_filter_push(x, other_name(key));
        lemma_lookup_push(rest, x, other);
        lemma_lookup_push(rest, x, key);
        if x.0 != key {
            lemma_lookup_push(without(rest, key), x, other);
            lemma_lookup_push(without(rest, key), x, key);
        }
    }
}

/// What a read gives back after `insert`: the inserted value under its name
/// (in any case), and every other name as before.
pub proof fn lemma_get_after_insert(
    before: HeaderList,
    after: HeaderList,
    name: Seq<char>,
    value: Seq<u8>,
    other: Seq<char>,
)
    requires
        after@ == without(before@, lower_text(name)).push((lower_text(name), value)),
    ensures
        after.spec_get(name) == Some(value),
        lower_text(other) != lower_text(name) ==> after.spec_get(other) == before.spec_get(other),
{
    lemma_lookup_without(before@, lower_text(name), lower_text(other));
    lemma_lookup_push(without(before@, lower_text(name)), (lower_text(name), value), lower_text(name));
    lemma_lookup_push(without(before@, lower_text(name)), (lower_text(name), value), lower_text(other));
}

/// What a read gives back after `remove`: nothing under the removed name, and
/// every other name as before.
pub proof fn lemma_get_after_remove(before: HeaderList, after: HeaderList, name: Seq<char>, other: Seq<char>)
    requires
        after@ == without(before@, lower_text(name)),
    ensures
        after.spec_get(name) is None,
        lower_text(other) != lower_text(name) ==> after.spec_get(other) == before.spec_get(other),
{
    lemma_lookup_without(before@, lower_text(name), lower_text(other));
}

/// What a read gives back after `append`: the first line of a name still wins,
/// so the appended value shows only where the name was absent; every other
/// name reads as before.
pub proof fn lemma_get_after_append(
    before: HeaderList,
    after: HeaderList,
    name: Seq<char>,
    value: Seq<u8>,
    other: Seq<char>,
)
    requires
        after@ == before@.push((lower_text(name), value)),
    ensures
        after.spec_get(name) == match before.spec_get(name) {
            Some(v) => Some(v),
            None => Some(value),
        },
        lower_text(other) != lower_text(name) ==> after.spec_get(other) == before.spec_get(other),
{
    lemma_lookup_push(before@, (lower_text(name), value), lower_text(name));
    lemma_lookup_push(before@, (lower_text(name), value), lower_text(other));
}

} // verus!
