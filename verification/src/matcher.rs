//! Request matchers: by path (prefix, exact or regular expression), by the Host
//! header, by another header, or by method. Regular expressions are compiled on
//! first use and kept.
use vstd::prelude::*;

use crate::headers::{value_text, value_to_text, HeaderList};
use crate::text::{chars_equal, chars_of, has_prefix, str_starts_with};

verus! {

#[verifier::external_type_specification]
#[verifier::external_body]
pub struct ExRegex(regex::Regex);

/// `<regex::Regex as Clone>::clone`: a copy of the compiled expression.
pub assume_specification[ <regex::Regex as Clone>::clone ](re: &regex::Regex) -> regex::Regex;

/// A compiled regular expression together with the pattern it was compiled from.
#[derive(Debug)]
pub struct CompiledRegex {
    source: String,
    re: regex::Regex,
}

impl CompiledRegex {
    /// The pattern the expression was compiled from.
    pub closed spec fn pattern(&self) -> Seq<char> {
        self.source@
    }
}

impl Clone for CompiledRegex {
    fn clone(&self) -> (r: Self)
        ensures
            r.pattern() == self.pattern(),
    {
        CompiledRegex { source: self.source.clone(), re: self.re.clone() }
    }
}

/// Whether `regex::Regex::new` accepts the pattern.
pub uninterp spec fn regex_compiles(pattern: Seq<char>) -> bool;

/// Whether the expression compiled from `pattern` matches somewhere in `haystack`.
pub uninterp spec fn regex_matches(pattern: Seq<char>, haystack: Seq<char>) -> bool;

/// `regex::Regex::new`: the compiled expression, or `None` when the pattern is
/// not accepted. Whether it is accepted is named.
#[verifier::external_body]
pub(crate) fn compile_regex(pattern: &str) -> (r: Option<CompiledRegex>)
    ensures
        r is Some <==> regex_compiles(pattern@),
        r matches Some(c) ==> c.pattern() == pattern@,
{
    match regex::Regex::new(pattern) {
        Ok(re) => Some(CompiledRegex { source: pattern.to_string(), re }),
        Err(_) => None,
    }
}

/// `regex::Regex::is_match`: whether the expression matches somewhere in the
/// haystack. The answer is named by the pattern and the haystack.
#[verifier::external_body]
pub(crate) fn regex_is_match(re: &CompiledRegex, haystack: &str) -> (r: bool)
    ensures
        r == regex_matches(re.pattern(), haystack@),
{
    re.re.is_match(haystack)
}

/// How a path matcher compares the path with its value.
#[derive(Debug, Clone, Copy, PartialEq, Eq, Structural)]
pub enum PathMatchType {
    Prefix,
    Exact,
    Regex,
}

impl Default for PathMatchType {
    fn default() -> (r: Self)
        ensures
            r == PathMatchType::Prefix,
    {
        PathMatchType::Prefix
    }
}

/// A rule a request must meet to be routed.
#[derive(Debug, Clone)]
pub enum MatcherRule {
    /// The path starts with, equals, or matches `value`.
    Path { value: String, match_type: PathMatchType, regex: Option<CompiledRegex> },
    /// The Host header matches the regular expression `value`.
    Host { value: String, regex: Option<CompiledRegex> },
    /// The header `name` matches the regular expression `value`.
    Header { name: String, value: String, regex: Option<CompiledRegex> },
    /// The method is one of `values`.
    Method { values: Vec<String> },
}

/// The texts of a list of strings, as a set.
pub open spec fn text_set(v: Seq<String>) -> Set<Seq<char>> {
    v.map_values(|s: String| s@).to_set()
}

/// The cache after a match: a kept expression stays; otherwise it holds the
/// compiled `value` when that compiles.
pub open spec fn cache_after(before: Option<CompiledRegex>, after: Option<CompiledRegex>, value: Seq<char>) -> bool {
    match before {
        Some(_) => after == before,
        None => (after is Some <==> regex_compiles(value)) && (after matches Some(c) ==> c.pattern()
            == value),
    }
}

/// Whether the cached expression (if any) matches the text (if any).
pub open spec fn cached_match(cache: Option<CompiledRegex>, text: Option<Seq<char>>) -> bool {
    match (cache, text) {
        (Some(c), Some(t)) => regex_matches(c.pattern(), t),
        _ => false,
    }
}

/// A header's value read as text, if the header is there and readable.
pub open spec fn header_text(headers: HeaderList, name: Seq<char>) -> Option<Seq<char>> {
    match headers.spec_get(name) {
        None => None,
        Some(v) => value_text(v),
    }
}

/// Two rules are the same when they agree on everything but their cached expressions.
pub open spec fn same_rule(a: MatcherRule, b: MatcherRule) -> bool {
    match (a, b) {
        (
            MatcherRule::Path { value: lv, match_type: lm, .. },
            MatcherRule::Path { value: rv, match_type: rm, .. },
        ) => lv@ == rv@ && lm == rm,
        (MatcherRule::Host { value: lv, .. }, MatcherRule::Host { value: rv, .. }) => lv@ == rv@,
        (
            MatcherRule::Header { name: ln, value: lv, .. },
            MatcherRule::Header { name: rn, value: rv, .. },
        ) => ln@ == rn@ && lv@ == rv@,
        (MatcherRule::Method { values: l }, MatcherRule::Method { values: r }) => text_set(l@)
            =~= text_set(r@),
        _ => false,
    }
}

/// Whether the list holds the text.
fn list_holds(list: &Vec<String>, item: &str) -> (r: bool)
    ensures
        r == text_set(list@).contains(item@),
{
    let ic = chars_of(item);
    let mut i: usize = 0;
    while i < list.len()
        invariant
            i <= list@.len(),
            ic@ == item@,
            forall|j: int| 0 <= j < i ==> #[trigger] list@[j]@ != item@,
        decreases list@.len() - i,
    {
        let lc = chars_of(list[i].as_str());
        if chars_equal(lc.as_slice(), ic.as_slice()) {
            assert(list@.map_values(|s: String| s@)[i as int] == item@);
            return true;
        }
        i = i + 1;
    }
    let ghost m = list@.map_values(|s: String| s@);
    assert forall|j: int| 0 <= j < m.len() implies #[trigger] m[j] != item@ by {
        assert(list@[j]@ != item@);
    }
    false
}

/// Whether every text of `a` is a text of `b`.
fn list_within(a: &Vec<String>, b: &Vec<String>) -> (r: bool)
    ensures
        r == text_set(a@).subset_of(text_set(b@)),
{
    let mut i: usize = 0;
    while i < a.len()
        invariant
            i <= a@.len(),
            forall|j: int| 0 <= j < i ==> text_set(b@).contains(#[trigger] a@[j]@),
        decreases a@.len() - i,
    {
        if !list_holds(b, a[i].as_str()) {
            assert(text_set(a@).contains(a@[i as int]@)) by {
                assert(a@.map_values(|s: String| s@)[i as int] == a@[i as int]@);
            }
            return false;
        }
        i = i + 1;
    }
    let ghost ma = a@.map_values(|s: String| s@);
    assert forall|x: Seq<char>| text_set(a@).contains(x) implies text_set(b@).contains(x) by {
        let k = choose|k: int| 0 <= k < ma.len() && #[trigger] ma[k] == x;
        assert(a@[k]@ == x);
    }
    true
}

/// Compiles `value` into the cache when the cache is empty.
fn fill_cache(cache: &mut Option<CompiledRegex>, value: &str)
    ensures
        cache_after(*old(cache), *final(cache), value@),
{
    if cache.is_none() {
        *cache = compile_regex(value);
    }
}

impl MatcherRule {
    /// Whether a request with this method, path and headers meets the rule.
    pub open spec fn spec_matches(
        self,
        after: MatcherRule,
        method: Seq<char>,
        path: Seq<char>,
        headers: HeaderList,
    ) -> bool {
        match (self, after) {
            (
                MatcherRule::Path { value, match_type, regex },
                MatcherRule::Path { value: v2, match_type: m2, regex: r2 },
            ) => v2 == value && m2 == match_type && match match_type {
                PathMatchType::Prefix => r2 == regex,
                PathMatchType::Exact => r2 == regex,
                PathMatchType::Regex => cache_after(regex, r2, value@),
            },
            (MatcherRule::Method { values }, MatcherRule::Method { values: v2 }) => v2 == values,
            (MatcherRule::Host { value, regex }, MatcherRule::Host { value: v2, regex: r2 }) => v2
                == value && cache_after(regex, r2, value@),
            (
                MatcherRule::Header { name, value, regex },
                MatcherRule::Header { name: n2, value: v2, regex: r2 },
            ) => n2 == name && v2 == value && cache_after(regex, r2, value@),
            _ => false,
        }
    }

    /// The verdict on a request, given the rule after its cache is filled.
    pub open spec fn verdict(after: MatcherRule, method: Seq<char>, path: Seq<char>, headers: HeaderList) -> bool {
        match after {
            MatcherRule::Path { value, match_type, regex } => match match_type {
                PathMatchType::Prefix => has_prefix(path, value@),
                PathMatchType::Exact => path == value@,
                PathMatchType::Regex => cached_match(regex, Some(path)),
            },
            MatcherRule::Method { values } => text_set(values@).contains(method),
            MatcherRule::Host { regex, .. } => cached_match(regex, header_text(headers, "Host"@)),
            MatcherRule::Header { name, regex, .. } => cached_match(regex, header_text(headers, name@)),
        }
    }

    /// Whether a request with this method, path and headers meets the rule.
    /// A regular expression is compiled on first use and kept; a pattern that
    /// does not compile never matches.
    pub fn matches(&mut self, method: &str, path: &str, headers: &HeaderList) -> (r: bool)
        ensures
            old(self).spec_matches(*final(self), method@, path@, *headers),
            r == MatcherRule::verdict(*final(self), method@, path@, *headers),
    {
        match self {
            MatcherRule::Path { value, match_type, regex } => match match_type {
                PathMatchType::Prefix => str_starts_with(path, value.as_str()),
                PathMatchType::Exact => {
                    let a = chars_of(path);
                    let b = chars_of(value.as_str());
                    chars_equal(a.as_slice(), b.as_slice())
                },
                PathMatchType::Regex => {
                    fill_cache(regex, value.as_str());
                    match regex {
                        Some(re) => regex_is_match(re, path),
                        None => false,
                    }
                },
            },
            MatcherRule::Method { values } => list_holds(values, method),
            MatcherRule::Host { value, regex } => {
                fill_cache(regex, value.as_str());
                let host_text = match headers.get("Host") {
                    None => None,
                    Some(v) => value_to_text(v.as_slice()),
                };
                match (host_text, regex) {
                    (Some(h), Some(re)) => regex_is_match(re, h.as_str()),
                    _ => false,
                }
            },
            MatcherRule::Header { name, value, regex } => {
                fill_cache(regex, value.as_str());
                let header_value = match headers.get(name.as_str()) {
                    None => None,
                    Some(v) => value_to_text(v.as_slice()),
                };
                match (header_value, regex) {
                    (Some(h), Some(re)) => regex_is_match(re, h.as_str()),
                    _ => false,
                }
            },
        }
    }

    /// Whether two rules agree on everything but their cached expressions.
    pub fn same_as(&self, other: &MatcherRule) -> (r: bool)
        ensures
            r == same_rule(*self, *other),
    {
        match (self, other) {
            (
                MatcherRule::Path { value: l_val, match_type: l_mt, .. },
                MatcherRule::Path { value: r_val, match_type: r_mt, .. },
            ) => {
                let a = chars_of(l_val.as_str());
                let b = chars_of(r_val.as_str());
                chars_equal(a.as_slice(), b.as_slice()) && *l_mt == *r_mt
            },
            (MatcherRule::Host { value: l_val, .. }, MatcherRule::Host { value: r_val, .. }) => {
                let a = chars_of(l_val.as_str());
                let b = chars_of(r_val.as_str());
                chars_equal(a.as_slice(), b.as_slice())
            },
            (
                MatcherRule::Header { name: l_name, value: l_val, .. },
                MatcherRule::Header { name: r_name, value: r_val, .. },
            ) => {
                let a = chars_of(l_name.as_str());
                let b = chars_of(r_name.as_str());
                let c = chars_of(l_val.as_str());
                let d = chars_of(r_val.as_str());
                chars_equal(a.as_slice(), b.as_slice()) && chars_equal(c.as_slice(), d.as_slice())
            },
            (MatcherRule::Method { values: l_vals }, MatcherRule::Method { values: r_vals }) => {
                let x = list_within(l_vals, r_vals);
                let y = list_within(r_vals, l_vals);
                proof {
                    if x && y {
                        assert(text_set(l_vals@) =~= text_set(r_vals@));
                    }
                }
                x && y
            },
            _ => false,
        }
    }
}

/// The cache holds nothing, or the expression compiled from `value`.
pub open spec fn cache_fits(cache: Option<CompiledRegex>, value: Seq<char>) -> bool {
    cache matches Some(c) ==> c.pattern() == value && regex_compiles(value)
}

/// Whether the expression compiled afresh from `value` matches the text (if any).
pub open spec fn fresh_match(value: Seq<char>, text: Option<Seq<char>>) -> bool {
    regex_compiles(value) && match text {
        Some(t) => regex_matches(value, t),
        None => false,
    }
}

impl MatcherRule {
    /// Every cached expression is the one compiled from the rule's pattern.
    pub open spec fn cache_consistent(self) -> bool {
        match self {
            MatcherRule::Path { value, regex, .. } => cache_fits(regex, value@),
            MatcherRule::Host { value, regex } => cache_fits(regex, value@),
            MatcherRule::Header { value, regex, .. } => cache_fits(regex, value@),
            MatcherRule::Method { .. } => true,
        }
    }

    /// The verdict of the rule with every pattern compiled afresh.
    pub open spec fn plain_verdict(self, method: Seq<char>, path: Seq<char>, headers: HeaderList) -> bool {
        match self {
            MatcherRule::Path { value, match_type, .. } => match match_type {
                PathMatchType::Prefix => has_prefix(path, value@),
                PathMatchType::Exact => path == value@,
                PathMatchType::Regex => fresh_match(value@, Some(path)),
            },
            MatcherRule::Method { values } => text_set(values@).contains(method),
            MatcherRule::Host { value, .. } => fresh_match(value@, header_text(headers, "Host"@)),
            MatcherRule::Header { name, value, .. } => fresh_match(value@, header_text(headers, name@)),
        }
    }
}

/// Caching compiled expressions changes nothing that can be observed: a match
/// keeps the rule equal to what it was and its cache consistent, and answers as
/// if every pattern were compiled afresh.
pub proof fn lemma_cache_is_transparent(
    before: MatcherRule,
    after: MatcherRule,
    method: Seq<char>,
    path: Seq<char>,
    headers: HeaderList,
)
    requires
        before.cache_consistent(),
        before.spec_matches(after, method, path, headers),
    ensures
        after.cache_consistent(),
        same_rule(before, after),
        MatcherRule::verdict(after, method, path, headers) == before.plain_verdict(method, path, headers),
{
    match (before, after) {
        (MatcherRule::Method { values }, MatcherRule::Method { values: v2 }) => {
            assert(text_set(values@) =~= text_set(v2@));
        },
        _ => {},
    }
}

/// Rule equality is an equivalence: reflexive, symmetric and transitive.
pub proof fn lemma_same_rule_equivalence(a: MatcherRule, b: MatcherRule, c: MatcherRule)
    ensures
        same_rule(a, a),
        same_rule(a, b) ==> same_rule(b, a),
        same_rule(a, b) && same_rule(b, c) ==> same_rule(a, c),
{
    match a {
        MatcherRule::Method { values } => {
            assert(text_set(values@) =~= text_set(values@));
        },
        _ => {},
    }
    match (a, b, c) {
        (
            MatcherRule::Method { values: x },
            MatcherRule::Method { values: y },
            MatcherRule::Method { values: z },
        ) => {
            if same_rule(a, b) {
                assert(text_set(y@) =~= text_set(x@));
            }
            if same_rule(a, b) && same_rule(b, c) {
                assert(text_set(x@) =~= text_set(z@));
            }
        },
        (MatcherRule::Method { values: x }, MatcherRule::Method { values: y }, _) => {
            if same_rule(a, b) {
                assert(text_set(y@) =~= text_set(x@));
            }
        },
        _ => {},
    }
}

impl PartialEq for MatcherRule {
    fn eq(&self, other: &Self) -> (r: bool) {
        self.same_as(other)
    }
}

impl vstd::std_specs::cmp::PartialEqSpecImpl for MatcherRule {
    open spec fn obeys_eq_spec() -> bool {
        true
    }

    open spec fn eq_spec(&self, other: &Self) -> bool {
        same_rule(*self, *other)
    }
}

} // verus!
