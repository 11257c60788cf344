//! Rewriting of request headers: some names are taken out, then some lines are set.
use vstd::prelude::*;

use crate::error::AppError;
use crate::headers::{
    lemma_lookup_push, lemma_lookup_without, lookup, parse_header_name, parse_header_value,
    valid_header_name, valid_header_value, without, HeaderList,
};
use crate::net::PeerAddr;
use crate::text::{concat, lemma_lower_idempotent, lower_text};
use vstd::string::StringSliceAdditionalSpecFns;

verus! {

/// Headers to set (name, value), applied in order, and header names to take out.
#[derive(Debug, Clone, PartialEq, Eq)]
pub struct RequestHeaders {
    pub add: Vec<(String, String)>,
    pub remove: Vec<String>,
}

/// Header lines as a contract sees them.
pub type Lines = Seq<(Seq<char>, Seq<u8>)>;

/// The lines after taking out the first `n` names of `names`; names that are
/// not valid header names are skipped.
pub open spec fn removed_upto(h: Lines, names: Seq<String>, n: nat) -> Lines
    decreases n,
{
    if n == 0 || n > names.len() {
        h
    } else {
        let before = removed_upto(h, names, (n - 1) as nat);
        let k = names[n - 1]@;
        if valid_header_name(k) {
            without(before, lower_text(k))
        } else {
            before
        }
    }
}

/// The message of an invalid header name.
pub open spec fn bad_name_message(k: Seq<char>) -> Seq<char> {
    "Invalid header name '"@ + k + "': invalid HTTP header name"@
}

/// The message of an invalid header value.
pub open spec fn bad_value_message(k: Seq<char>) -> Seq<char> {
    "Invalid header value for '"@ + k + "': failed to parse header value"@
}

/// The lines after setting the first `n` headers of `adds`, and the message of
/// the first header that could not be set (the lines stay as they were before it).
pub open spec fn added_upto(h: Lines, adds: Seq<(String, String)>, n: nat) -> (Lines, Option<Seq<char>>)
    decreases n,
{
    if n == 0 || n > adds.len() {
        (h, None)
    } else {
        let (before, err) = added_upto(h, adds, (n - 1) as nat);
        if err is Some {
            (before, err)
        } else {
            let k = adds[n - 1].0@;
            let v = vstd::utf8::encode_utf8(adds[n - 1].1@);
            if !valid_header_name(k) {
                (before, Some(bad_name_message(k)))
            } else if !valid_header_value(v) {
                (before, Some(bad_value_message(k)))
            } else {
                (without(before, lower_text(k)).push((lower_text(k), v)), None)
            }
        }
    }
}

impl RequestHeaders {
    /// The lines after the rewrite, and the message of the header that stopped it.
    pub open spec fn rewritten(self, h: Lines) -> (Lines, Option<Seq<char>>) {
        added_upto(removed_upto(h, self.remove@, self.remove@.len()), self.add@, self.add@.len())
    }

    /// Takes out the `remove` names, then sets each `add` header in order. A
    /// name or value that is not valid stops the rewrite with an error; the
    /// headers set before it stay.
    pub fn handle_request(&mut self, _peer_addr: &PeerAddr, headers: &mut HeaderList) -> (r: Result<(), AppError>)
        ensures
            *final(self) == *old(self),
            final(headers)@ == old(self).rewritten(old(headers)@).0,
            match old(self).rewritten(old(headers)@).1 {
                None => r is Ok,
                Some(m) => r matches Err(e) && e.0@ == m,
            },
    {
        let ghost h0 = headers@;
        let mut i: usize = 0;
        while i < self.remove.len()
            invariant
                i <= self.remove@.len(),
                headers@ == removed_upto(h0, self.remove@, i as nat),
                h0 == old(headers)@,
                *self == *old(self),
            decreases self.remove@.len() - i,
        {
            match parse_header_name(self.remove[i].as_str()) {
                Some(n) => {
                    proof {
                        lemma_lower_idempotent(self.remove@[i as int]@);
                    }
                    headers.remove(n.as_str());
                },
                None => {},
            }
            i = i + 1;
        }
        let ghost h1 = headers@;
        let mut j: usize = 0;
        while j < self.add.len()
            invariant
                j <= self.add@.len(),
                headers@ == added_upto(h1, self.add@, j as nat).0,
                added_upto(h1, self.add@, j as nat).1 is None,
                h1 == removed_upto(h0, self.remove@, self.remove@.len()),
                h0 == old(headers)@,
                *self == *old(self),
            decreases self.add@.len() - j,
        {
            let key = &self.add[j].0;
            let value = &self.add[j].1;
            let name = match parse_header_name(key.as_str()) {
                Some(n) => n,
                None => {
                    let a = concat("Invalid header name '", key.as_str());
                    let m = concat(a.as_str(), "': invalid HTTP header name");
                    proof {
                        lemma_added_stops(h1, self.add@, j as nat, self.add@.len());
                    }
                    return Err(AppError(m));
                },
            };
            let bytes = match parse_header_value(value.as_str()) {
                Some(b) => b,
                None => {
                    let a = concat("Invalid header value for '", key.as_str());
                    let m = concat(a.as_str(), "': failed to parse header value");
                    proof {
                        lemma_added_stops(h1, self.add@, j as nat, self.add@.len());
                    }
                    return Err(AppError(m));
                },
            };
            proof {
                lemma_lower_idempotent(self.add@[j as int].0@);
            }
            headers.insert(name.as_str(), bytes.as_slice());
            j = j + 1;
        }
        Ok(())
    }
}

/// Once a header cannot be set, nothing after it changes the outcome.
proof fn lemma_added_stops(h: Lines, adds: Seq<(String, String)>, failed: nat, n: nat)
    requires
        failed < n <= adds.len(),
        added_upto(h, adds, failed).1 is None,
        added_upto(h, adds, (failed + 1) as nat).1 is Some,
    ensures
        added_upto(h, adds, n) == added_upto(h, adds, (failed + 1) as nat),
    decreases n,
{
    if n > failed + 1 {
        lemma_added_stops(h, adds, failed, (n - 1) as nat);
    }
}

/// No header after the `i`-th of the first `n` sets the same name.
pub open spec fn last_setting(adds: Seq<(String, String)>, i: int, n: int) -> bool {
    forall|j: int| i < j < n ==> lower_text(#[trigger] adds[j].0@) != lower_text(adds[i].0@)
}

/// No header among the first `n` sets the name `key` (a lower-case name).
pub open spec fn never_set(adds: Seq<(String, String)>, key: Seq<char>, n: int) -> bool {
    forall|j: int| 0 <= j < n ==> lower_text(#[trigger] adds[j].0@) != key
}

/// Setting the first `n` headers without error: each reads back the value of
/// its last setting, and every name none of them sets reads as before.
proof fn lemma_added_reads(h: Lines, adds: Seq<(String, String)>, n: nat)
    requires
        n <= adds.len(),
        added_upto(h, adds, n).1 is None,
    ensures
        forall|i: int|
            0 <= i < n && last_setting(adds, i, n as int) ==> lookup(
                added_upto(h, adds, n).0,
                lower_text(#[trigger] adds[i].0@),
            ) == Some(vstd::utf8::encode_utf8(adds[i].1@)),
        forall|key: Seq<char>|
            never_set(adds, key, n as int) ==> #[trigger] lookup(added_upto(h, adds, n).0, key)
                == lookup(h, key),
    decreases n,
{
    if n > 0 {
        let m = (n - 1) as nat;
        lemma_added_reads(h, adds, m);
        let before = added_upto(h, adds, m).0;
        let k = lower_text(adds[m as int].0@);
        let v = vstd::utf8::encode_utf8(adds[m as int].1@);
        let after = added_upto(h, adds, n).0;
        assert(after == without(before, k).push((k, v)));
        assert forall|i: int|
            0 <= i < n && last_setting(adds, i, n as int) implies lookup(
                after,
                lower_text(#[trigger] adds[i].0@),
            ) == Some(vstd::utf8::encode_utf8(adds[i].1@)) by {
            let ki = lower_text(adds[i].0@);
            lemma_lookup_without(before, k, ki);
            lemma_lookup_push(without(before, k), (k, v), ki);
            if i < m {
                assert(lower_text(adds[m as int].0@) != ki);
                assert(last_setting(adds, i, m as int));
            }
        }
        assert forall|key: Seq<char>| never_set(adds, key, n as int) implies #[trigger] lookup(
            after,
            key,
        ) == lookup(h, key) by {
            assert(lower_text(adds[m as int].0@) != key);
            assert(never_set(adds, key, m as int));
            lemma_lookup_without(before, k, key);
            lemma_lookup_push(without(before, k), (k, v), key);
        }
    }
}

/// Taking out the first `n` names: each valid one is absent afterwards, and
/// every name none of them takes out reads as before.
proof fn lemma_removed_reads(h: Lines, names: Seq<String>, n: nat)
    requires
        n <= names.len(),
    ensures
        forall|i: int|
            0 <= i < n && valid_header_name(#[trigger] names[i]@) ==> lookup(
                removed_upto(h, names, n),
                lower_text(names[i]@),
            ) is None,
        forall|key: Seq<char>|
            (forall|j: int| 0 <= j < n ==> lower_text(#[trigger] names[j]@) != key)
                ==> #[trigger] lookup(removed_upto(h, names, n), key) == lookup(h, key),
    decreases n,
{
    if n > 0 {
        let m = (n - 1) as nat;
        lemma_removed_reads(h, names, m);
        let before = removed_upto(h, names, m);
        let k = lower_text(names[m as int]@);
        assert forall|i: int|
            0 <= i < n && valid_header_name(#[trigger] names[i]@) implies lookup(
                removed_upto(h, names, n),
                lower_text(names[i]@),
            ) is None by {
            let ki = lower_text(names[i]@);
            if valid_header_name(names[m as int]@) {
                lemma_lookup_without(before, k, ki);
            }
        }
        assert forall|key: Seq<char>|
            (forall|j: int| 0 <= j < n ==> lower_text(#[trigger] names[j]@) != key) implies #[trigger] lookup(
            removed_upto(h, names, n),
            key,
        ) == lookup(h, key) by {
            assert(lower_text(names[m as int]@) != key);
            if valid_header_name(names[m as int]@) {
                lemma_lookup_without(before, k, key);
            }
        }
    }
}

/// A rewrite that succeeds leaves every header it sets holding the value of
/// its last setting, and every valid name it takes out and does not set again
/// absent; a name it neither takes out nor sets reads as before.
pub proof fn lemma_rewrite_reads_back(rh: RequestHeaders, h: Lines, i: int, r: int, key: Seq<char>)
    requires
        rh.rewritten(h).1 is None,
    ensures
        0 <= i < rh.add@.len() && last_setting(rh.add@, i, rh.add@.len() as int) ==> lookup(
            rh.rewritten(h).0,
            lower_text(rh.add@[i].0@),
        ) == Some(vstd::utf8::encode_utf8(rh.add@[i].1@)),
        0 <= r < rh.remove@.len() && valid_header_name(rh.remove@[r]@) && never_set(
            rh.add@,
            lower_text(rh.remove@[r]@),
            rh.add@.len() as int,
        ) ==> lookup(rh.rewritten(h).0, lower_text(rh.remove@[r]@)) is None,
        (forall|j: int| 0 <= j < rh.remove@.len() ==> lower_text(#[trigger] rh.remove@[j]@) != key)
            && never_set(rh.add@, key, rh.add@.len() as int) ==> lookup(rh.rewritten(h).0, key)
            == lookup(h, key),
{
    let removed = removed_upto(h, rh.remove@, rh.remove@.len());
    lemma_removed_reads(h, rh.remove@, rh.remove@.len());
    lemma_added_reads(removed, rh.add@, rh.add@.len());
    if 0 <= r < rh.remove@.len() && valid_header_name(rh.remove@[r]@) {
        let kr = lower_text(rh.remove@[r]@);
        assert(lookup(removed, kr) is None);
    }
}

/// A header that can be set: its name is a valid header name and its value a
/// valid header value.
pub open spec fn settable(add: (String, String)) -> bool {
    valid_header_name(add.0@) && valid_header_value(vstd::utf8::encode_utf8(add.1@))
}

/// Setting the first `n` headers fails exactly when one of them cannot be set.
proof fn lemma_added_ok_iff(h: Lines, adds: Seq<(String, String)>, n: nat)
    requires
        n <= adds.len(),
    ensures
        (added_upto(h, adds, n).1 is None) <==> (forall|i: int| 0 <= i < n ==> #[trigger] settable(adds[i])),
    decreases n,
{
    if n > 0 {
        let m = (n - 1) as nat;
        lemma_added_ok_iff(h, adds, m);
        if added_upto(h, adds, m).1 is Some {
            let i = choose|i: int| 0 <= i < m && !#[trigger] settable(adds[i]);
            assert(!settable(adds[i]));
        } else if settable(adds[m as int]) {
            assert forall|i: int| 0 <= i < n implies #[trigger] settable(adds[i]) by {
                if i < m {
                    assert(0 <= i < m);
                }
            }
        } else {
            assert(!settable(adds[m as int]));
        }
    }
}

/// A rewrite succeeds exactly when every header it sets has a valid name and
/// a valid value; the names it takes out never make it fail.
pub proof fn lemma_rewrite_ok_iff_valid(rh: RequestHeaders, h: Lines)
    ensures
        (rh.rewritten(h).1 is None) <==> (forall|i: int|
            0 <= i < rh.add@.len() ==> #[trigger] settable(rh.add@[i])),
{
    lemma_added_ok_iff(removed_upto(h, rh.remove@, rh.remove@.len()), rh.add@, rh.add@.len());
}

} // verus!
