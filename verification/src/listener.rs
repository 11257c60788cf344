//! Which listener each configured service gets, and when a change in a
//! certificate directory asks for the TLS configuration to be reloaded.
use vstd::prelude::*;

use crate::error::AppError;
use crate::text::{chars_equal, chars_of, concat, i64_to_decimal, signed_decimal};

verus! {

/// The protocol a service listens with.
#[derive(Debug, Clone, Copy, PartialEq, Eq)]
pub enum ServiceType {
    Http,
    Https,
    Tcp,
    Http2,
    Http2Tls,
}

/// The listener started for a service: plain HTTP, HTTPS with the service's
/// domains, raw TCP, gRPC over HTTP/2, or gRPC over HTTP/2 with TLS and the
/// service's domains.
#[derive(Debug, Clone, PartialEq, Eq)]
pub enum ListenerPlan {
    Http { port: i32 },
    Https { port: i32, domains: Vec<String> },
    Tcp { port: i32 },
    Grpc { port: i32 },
    GrpcTls { port: i32, domains: Vec<String> },
}

/// The error of a TLS service whose configuration cannot be found for its port.
pub open spec fn missing_domains_error(port: i32) -> Seq<char> {
    "Missing 'domains' configuration for HTTPS service on port "@ + signed_decimal(port as int)
}

/// The listener of a service of type `server_type` on `port`. `domains` is the
/// domain list of the service configured on that port, `None` when no service
/// is configured there; the TLS listeners need it and fail without it.
pub fn listener_plan(server_type: ServiceType, port: i32, domains: Option<&Vec<String>>) -> (r:
    Result<ListenerPlan, AppError>)
    ensures
        match server_type {
            ServiceType::Http => r matches Ok(ListenerPlan::Http { port: p }) && p == port,
            ServiceType::Tcp => r matches Ok(ListenerPlan::Tcp { port: p }) && p == port,
            ServiceType::Http2 => r matches Ok(ListenerPlan::Grpc { port: p }) && p == port,
            ServiceType::Https => match domains {
                Some(d) => r matches Ok(ListenerPlan::Https { port: p, domains: v }) && p == port
                    && v@ == d@,
                None => r matches Err(e) && e.0@ == missing_domains_error(port),
            },
            ServiceType::Http2Tls => match domains {
                Some(d) => r matches Ok(ListenerPlan::GrpcTls { port: p, domains: v }) && p
                    == port && v@ == d@,
                None => r matches Err(e) && e.0@ == missing_domains_error(port),
            },
        },
{
    match server_type {
        ServiceType::Http => Ok(ListenerPlan::Http { port }),
        ServiceType::Tcp => Ok(ListenerPlan::Tcp { port }),
        ServiceType::Http2 => Ok(ListenerPlan::Grpc { port }),
        ServiceType::Https | ServiceType::Http2Tls => match domains {
            None => {
                let number = i64_to_decimal(port as i64);
                let message = concat(
                    "Missing 'domains' configuration for HTTPS service on port ",
                    number.as_str(),
                );
                Err(AppError(message))
            },
            Some(d) => {
                let v = copy_texts(d);
                match server_type {
                    ServiceType::Https => Ok(ListenerPlan::Https { port, domains: v }),
                    _ => Ok(ListenerPlan::GrpcTls { port, domains: v }),
                }
            },
        },
    }
}

/// A copy of a list of texts.
fn copy_texts(v: &Vec<String>) -> (r: Vec<String>)
    ensures
        r@ == v@,
{
    let mut r: Vec<String> = Vec::new();
    let mut i: usize = 0;
    while i < v.len()
        invariant
            i <= v@.len(),
            r@ == v@.subrange(0, i as int),
        decreases v@.len() - i,
    {
        r.push(v[i].clone());
        assert(r@ =~= v@.subrange(0, i + 1));
        i = i + 1;
    }
    assert(r@ =~= v@);
    r
}

/// The kind of a change that a file watcher reports.
#[derive(Debug, Clone, Copy, PartialEq, Eq)]
pub enum FsEventKind {
    Access,
    Create,
    Modify,
    Remove,
    Other,
}

/// A change asks for a reload when it creates or modifies a file and one of
/// its paths is the certificate or the key.
pub open spec fn reload_wanted(kind: FsEventKind, paths: Seq<String>, cert_path: Seq<char>, key_path: Seq<
    char,
>) -> bool {
    (kind is Modify || kind is Create) && exists|i: int|
        0 <= i < paths.len() && (#[trigger] paths[i]@ == cert_path || paths[i]@ == key_path)
}

/// Whether a file-system change in the certificate directory asks for the TLS
/// configuration to be reloaded: it creates or modifies a file, and one of its
/// paths is the certificate's or the key's.
pub fn triggers_reload(kind: FsEventKind, paths: &Vec<String>, cert_path: &str, key_path: &str) -> (r:
    bool)
    ensures
        r == reload_wanted(kind, paths@, cert_path@, key_path@),
{
    match kind {
        FsEventKind::Modify | FsEventKind::Create => {},
        _ => {
            return false;
        },
    }
    let cert = chars_of(cert_path);
    let key = chars_of(key_path);
    let mut i: usize = 0;
    while i < paths.len()
        invariant
            i <= paths@.len(),
            kind is Modify || kind is Create,
            cert@ == cert_path@,
            key@ == key_path@,
            forall|j: int|
                0 <= j < i ==> !(#[trigger] paths@[j]@ == cert_path@ || paths@[j]@ == key_path@),
        decreases paths@.len() - i,
    {
        let p = chars_of(paths[i].as_str());
        if chars_equal(p.as_slice(), cert.as_slice()) || chars_equal(p.as_slice(), key.as_slice()) {
            assert(paths@[i as int]@ == cert_path@ || paths@[i as int]@ == key_path@);
            return true;
        }
        i = i + 1;
    }
    false
}

} // verus!
