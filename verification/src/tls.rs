//! Choosing the certificate for a TLS handshake by the server name the client
//! asks for (SNI), with a default for the other names.
use vstd::prelude::*;

use crate::text::{chars_equal, chars_of};

verus! {

/// The certificates by domain name, and the default certificate.
pub struct SniCertResolver<C> {
    certs: Vec<(String, C)>,
    default_cert: Option<C>,
}

/// The value an optional reference points to.
pub open spec fn deref_option<C>(r: Option<&C>) -> Option<C> {
    match r {
        Some(c) => Some(*c),
        None => None,
    }
}

/// The certificate stored for `name`, if any.
pub open spec fn cert_for<C>(certs: Seq<(Seq<char>, C)>, name: Seq<char>) -> Option<C>
    decreases certs.len(),
{
    if certs.len() == 0 {
        None
    } else if certs[0].0 == name {
        Some(certs[0].1)
    } else {
        cert_for(certs.drop_first(), name)
    }
}

impl<C> SniCertResolver<C> {
    /// The certificates by name, in the order they were first added.
    pub closed spec fn certs(&self) -> Seq<(Seq<char>, C)> {
        self.certs@.map_values(|e: (String, C)| (e.0@, e.1))
    }

    /// The default certificate.
    pub closed spec fn default_cert(&self) -> Option<C> {
        self.default_cert
    }

    /// No name occurs twice.
    #[verifier::type_invariant]
    spec fn names_distinct(self) -> bool {
        forall|i: int, j: int|
            0 <= i < j < self.certs@.len() ==> #[trigger] self.certs@[i].0@ != #[trigger] self.certs@[j].0@
    }

    /// A resolver with no certificate.
    pub fn new() -> (r: Self)
        ensures
            r.certs().len() == 0,
            r.default_cert() is None,
    {
        let r = SniCertResolver { certs: Vec::new(), default_cert: None };
        assert(r.certs() =~= Seq::<(Seq<char>, C)>::empty());
        r
    }

    /// Stores `cert` for `domain`, in place of any earlier one.
    pub fn add_cert(&mut self, domain: &str, cert: C)
        ensures
            cert_for(final(self).certs(), domain@) == Some(cert),
            forall|other: Seq<char>|
                other != domain@ ==> #[trigger] cert_for(final(self).certs(), other) == cert_for(
                    old(self).certs(),
                    other,
                ),
            final(self).default_cert() == old(self).default_cert(),
    {
        proof {
            use_type_invariant(&*self);
        }
        let dc = chars_of(domain);
        let ghost m = self.certs();
        let mut i: usize = 0;
        while i < self.certs.len()
            invariant
                i <= self.certs@.len(),
                m == self.certs@.map_values(|e: (String, C)| (e.0@, e.1)),
                m.len() == self.certs@.len(),
                dc@ == domain@,
                forall|j: int| 0 <= j < i ==> #[trigger] m[j].0 != domain@,
            ensures
                i <= self.certs@.len(),
                i < self.certs@.len() ==> m[i as int].0 == domain@,
                forall|j: int| 0 <= j < i ==> #[trigger] m[j].0 != domain@,
            decreases self.certs@.len() - i,
        {
            let nc = chars_of(self.certs[i].0.as_str());
            assert(m[i as int].0 == self.certs@[i as int].0@);
            if chars_equal(nc.as_slice(), dc.as_slice()) {
                break;
            }
            i = i + 1;
        }
        let mut certs: Vec<(String, C)> = Vec::new();
        std::mem::swap(&mut certs, &mut self.certs);
        assert(certs@.map_values(|e: (String, C)| (e.0@, e.1)) == m);
        if i < certs.len() {
            let name = certs[i].0.clone();
            assert(name@ == m[i as int].0);
            certs.set(i, (name, cert));
            proof {
                let n = certs@.map_values(|e: (String, C)| (e.0@, e.1));
                assert(n =~= m.update(i as int, (domain@, cert)));
                lemma_cert_for_update(m, i as int, cert);
            }
        } else {
            let ghost before = certs@;
            certs.push((domain.to_owned(), cert));
            proof {
                let n = certs@.map_values(|e: (String, C)| (e.0@, e.1));
                assert(n =~= m.push((domain@, cert)));
                lemma_cert_for_push(m, domain@, cert);
                assert forall|a: int, b: int|
                    0 <= a < b < certs@.len() implies #[trigger] certs@[a].0@ != #[trigger] certs@[b].0@ by {
                    if b == before.len() {
                        assert(m[a].0 == certs@[a].0@);
                    }
                }
            }
        }
        self.certs = certs;
    }

    /// Makes `cert` the default certificate.
    pub fn set_default(&mut self, cert: C)
        ensures
            final(self).default_cert() == Some(cert),
            final(self).certs() == old(self).certs(),
    {
        proof {
            use_type_invariant(&*self);
        }
        self.default_cert = Some(cert);
    }

    /// The certificate for the name the client asks for: the one stored for it,
    /// or else the default one.
    pub fn resolve(&self, server_name: Option<&str>) -> (r: Option<&C>)
        ensures
            deref_option(r) == match server_name {
                Some(n) => match cert_for(self.certs(), n@) {
                    Some(c) => Some(c),
                    None => self.default_cert(),
                },
                None => self.default_cert(),
            },
    {
        if let Some(name) = server_name {
            let nc = chars_of(name);
            let mut i: usize = 0;
            let ghost m = self.certs();
            assert(m.skip(0) =~= m);
            while i < self.certs.len()
                invariant
                    i <= self.certs@.len(),
                    m == self.certs@.map_values(|e: (String, C)| (e.0@, e.1)),
                    m.len() == self.certs@.len(),
                    nc@ == name@,
                    m == self.certs(),
                    server_name == Some(name),
                    cert_for(m, name@) == cert_for(m.skip(i as int), name@),
                decreases self.certs@.len() - i,
            {
                let cc = chars_of(self.certs[i].0.as_str());
                assert(m.skip(i as int)[0] == m[i as int]);
                assert(m[i as int] == (self.certs@[i as int].0@, self.certs@[i as int].1));
                if chars_equal(cc.as_slice(), nc.as_slice()) {
                    assert(m[i as int].0 == name@);
                    assert(cert_for(m.skip(i as int), name@) == Some(m[i as int].1));
                    let found = &self.certs[i].1;
                    return Some(found);
                }
                assert(m.skip(i as int).drop_first() =~= m.skip(i + 1));
                i = i + 1;
            }
        }
        self.default_cert.as_ref()
    }
}

/// Replacing the certificate of the `i`-th name, when no name occurs twice.
proof fn lemma_cert_for_update<C>(m: Seq<(Seq<char>, C)>, i: int, cert: C)
    requires
        0 <= i < m.len(),
        forall|a: int, b: int| 0 <= a < b < m.len() ==> #[trigger] m[a].0 != #[trigger] m[b].0,
    ensures
        cert_for(m.update(i, (m[i].0, cert)), m[i].0) == Some(cert),
        forall|other: Seq<char>|
            other != m[i].0 ==> #[trigger] cert_for(m.update(i, (m[i].0, cert)), other) == cert_for(m, other),
    decreases m.len(),
{
    let n = m.update(i, (m[i].0, cert));
    if i > 0 {
        let t = m.drop_first();
        assert(t[i - 1] == m[i]);
        let tn = t.update(i - 1, (t[i - 1].0, cert));
        assert(n.drop_first() =~= tn);
        lemma_cert_for_update(t, i - 1, cert);
        assert(m[0].0 != m[i].0);
        assert(n[0] == m[0]);
        assert forall|other: Seq<char>| other != m[i].0 implies #[trigger] cert_for(n, other)
            == cert_for(m, other) by {
            if m[0].0 != other {
                assert(cert_for(n, other) == cert_for(tn, other));
                assert(cert_for(tn, other) == cert_for(t, other));
            }
        }
    } else {
        assert(n.drop_first() =~= m.drop_first());
    }
}

/// Adding a certificate under a new name at the end.
proof fn lemma_cert_for_push<C>(m: Seq<(Seq<char>, C)>, name: Seq<char>, cert: C)
    requires
        forall|j: int| 0 <= j < m.len() ==> #[trigger] m[j].0 != name,
    ensures
        cert_for(m.push((name, cert)), name) == Some(cert),
        forall|other: Seq<char>|
            other != name ==> #[trigger] cert_for(m.push((name, cert)), other) == cert_for(m, other),
    decreases m.len(),
{
    if m.len() > 0 {
        assert(m.push((name, cert)).drop_first() =~= m.drop_first().push((name, cert)));
        lemma_cert_for_push(m.drop_first(), name, cert);
    } else {
        assert(m.push((name, cert)).drop_first() =~= m);
    }
}

} // verus!
