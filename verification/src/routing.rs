//! Decisions the proxy takes on a matched request: CORS preflight, WebSocket
//! upgrade, the scheme of the upstream, and the gRPC service and method named by
//! the path.
use vstd::prelude::*;

use crate::error::AppError;
use crate::headers::HeaderList;
use crate::middleware::check::Denial;
use crate::text::{
    chars_equal, chars_of, concat, chars_start_with, has_prefix, has_substring, lower_chars, lower_text,
    str_contains, str_starts_with, string_of,
};

verus! {

/// A CORS preflight: an OPTIONS request with Origin and Access-Control-Request-Method headers.
pub open spec fn spec_is_preflight(method: Seq<char>, headers: HeaderList) -> bool {
    method == "OPTIONS"@ && headers.spec_get("origin"@) is Some && headers.spec_get(
        "access-control-request-method"@,
    ) is Some
}

/// Whether the request is a CORS preflight.
pub fn is_preflight(method: &str, headers: &HeaderList) -> (r: bool)
    ensures
        r == spec_is_preflight(method@, *headers),
{
    let m = chars_of(method);
    let o = chars_of("OPTIONS");
    chars_equal(m.as_slice(), o.as_slice()) && headers.contains_key("origin") && headers.contains_key(
        "access-control-request-method",
    )
}

/// A WebSocket upgrade: Connection and Sec-WebSocket-Key headers are present.
pub open spec fn spec_is_websocket_upgrade(headers: HeaderList) -> bool {
    headers.spec_get("connection"@) is Some && headers.spec_get("sec-websocket-key"@) is Some
}

/// Whether the request asks for a WebSocket upgrade.
pub fn is_websocket_upgrade(headers: &HeaderList) -> (r: bool)
    ensures
        r == spec_is_websocket_upgrade(*headers),
{
    headers.contains_key("connection") && headers.contains_key("sec-websocket-key")
}

/// Whether the upstream is reached over TLS: the target mentions "https".
pub fn upstream_is_https(request_path: &str) -> (r: bool)
    ensures
        r == has_substring(request_path@, "https"@),
{
    str_contains(request_path, "https")
}

/// Reading a text left to right: the non-empty pieces between slashes seen so
/// far, and the piece being read.
pub open spec fn segment_state(s: Seq<char>) -> (Seq<Seq<char>>, Seq<char>)
    decreases s.len(),
{
    if s.len() == 0 {
        (seq![], seq![])
    } else {
        let (done, cur) = segment_state(s.drop_last());
        if s.last() == '/' {
            (
                if cur.len() > 0 {
                    done.push(cur)
                } else {
                    done
                },
                seq![],
            )
        } else {
            (done, cur.push(s.last()))
        }
    }
}

/// The non-empty pieces of a text split at each slash, in order.
pub open spec fn segments(s: Seq<char>) -> Seq<Seq<char>> {
    let (done, cur) = segment_state(s);
    if cur.len() > 0 {
        done.push(cur)
    } else {
        done
    }
}

/// The non-empty pieces of a path split at each slash, in order.
pub fn path_segments(path: &str) -> (r: Vec<String>)
    ensures
        r@.map_values(|s: String| s@) == segments(path@),
{
    let cs = chars_of(path);
    let mut done: Vec<String> = Vec::new();
    let mut cur: Vec<char> = Vec::new();
    let mut i: usize = 0;
    while i < cs.len()
        invariant
            i <= cs@.len(),
            cs@ == path@,
            (done@.map_values(|s: String| s@), cur@) == segment_state(cs@.take(i as int)),
        decreases cs@.len() - i,
    {
        let c = cs[i];
        assert(cs@.take(i + 1).drop_last() =~= cs@.take(i as int));
        assert(cs@.take(i + 1).last() == c);
        if c == '/' {
            if cur.len() > 0 {
                let piece = string_of(cur.as_slice());
                let ghost before = done@;
                done.push(piece);
                assert(done@.map_values(|s: String| s@) =~= before.map_values(|s: String| s@).push(
                    cur@,
                ));
            }
            cur = Vec::new();
            assert(cur@ =~= Seq::<char>::empty());
        } else {
            cur.push(c);
        }
        i = i + 1;
    }
    assert(cs@.take(cs@.len() as int) =~= cs@);
    if cur.len() > 0 {
        let piece = string_of(cur.as_slice());
        let ghost before = done@;
        done.push(piece);
        assert(done@.map_values(|s: String| s@) =~= before.map_values(|s: String| s@).push(cur@));
    }
    done
}

/// The gRPC service and method named by a path `/service/method`: its first
/// two non-empty pieces; a path with fewer pieces is an error that carries the path.
pub fn grpc_service_and_method(request_path: &str) -> (r: Result<(String, String), AppError>)
    ensures
        match r {
            Ok((s, m)) => segments(request_path@).len() >= 2 && s@ == segments(request_path@)[0]
                && m@ == segments(request_path@)[1],
            Err(e) => segments(request_path@).len() < 2 && e.0@ == request_path@,
        },
{
    let parts = path_segments(request_path);
    if parts.len() < 2 {
        return Err(AppError(request_path.to_owned()));
    }
    assert(parts@.map_values(|s: String| s@)[0] == parts@[0]@);
    assert(parts@.map_values(|s: String| s@)[1] == parts@[1]@);
    Ok((parts[0].clone(), parts[1].clone()))
}


/// Where a matched route sends the request.
#[derive(Debug, Clone, Copy, PartialEq, Eq)]
pub enum DestinationKind {
    /// Static files.
    File,
    /// An HTTP upstream.
    Http,
    /// A gRPC upstream, reached by transcoding.
    Grpc,
}

/// What routing found for a request.
#[derive(Debug)]
pub enum RouteOutcome {
    /// A route matched; `request_path` is the target it rewrote the request to.
    Matched { kind: DestinationKind, request_path: String },
    /// A middleware refused the request.
    NotAllowed(Denial),
    /// No route matched.
    NoMatchFound,
}

/// What the proxy does with a request once routing has answered.
#[derive(Debug)]
pub enum ProxyAction {
    /// Answer at once with this response.
    Respond(Denial),
    /// Answer the CORS preflight from the route's CORS settings.
    Preflight,
    /// Upgrade the connection to a WebSocket.
    Upgrade,
    /// Serve a file for the path.
    ServeFile { request_path: String },
    /// Forward to the HTTP upstream, over TLS when `https`.
    Forward { request_path: String, https: bool },
    /// Call the method of the gRPC service.
    CallGrpc { service: String, method: String },
}

/// The message of a request that no route matched.
pub open spec fn not_found_body() -> Seq<char> {
    "Not Found"@
}

/// The action for a matched request: a preflight is answered when the route
/// has CORS settings, then a WebSocket upgrade goes first, then the kind of
/// destination decides; a gRPC path must name a service and a method.
pub open spec fn matched_action_ok(
    kind: DestinationKind,
    request_path: Seq<char>,
    method: Seq<char>,
    headers: HeaderList,
    cors_configured: bool,
    r: Result<ProxyAction, AppError>,
) -> bool {
    if spec_is_preflight(method, headers) && cors_configured {
        r matches Ok(ProxyAction::Preflight)
    } else if spec_is_websocket_upgrade(headers) {
        r matches Ok(ProxyAction::Upgrade)
    } else {
        match kind {
            DestinationKind::File => r matches Ok(ProxyAction::ServeFile { request_path: p })
                && p@ == request_path,
            DestinationKind::Http => r matches Ok(ProxyAction::Forward { request_path: p, https })
                && p@ == request_path && https == has_substring(request_path, "https"@),
            DestinationKind::Grpc => if segments(request_path).len() >= 2 {
                r matches Ok(ProxyAction::CallGrpc { service, method: m }) && service@ == segments(
                    request_path,
                )[0] && m@ == segments(request_path)[1]
            } else {
                r matches Err(e) && e.0@ == request_path
            },
        }
    }
}

/// What the proxy does with a request, given what routing found, the request's
/// method and headers, and whether the route has CORS settings.
pub fn proxy_action(
    outcome: RouteOutcome,
    method: &str,
    headers: &HeaderList,
    cors_configured: bool,
) -> (r: Result<ProxyAction, AppError>)
    ensures
        match outcome {
            RouteOutcome::NotAllowed(d) => r matches Ok(ProxyAction::Respond(x)) && x == d,
            RouteOutcome::NoMatchFound => r matches Ok(ProxyAction::Respond(x)) && x.status == 404
                && x.headers@.len() == 0 && x.body@ == not_found_body(),
            RouteOutcome::Matched { kind, request_path } => matched_action_ok(
                kind,
                request_path@,
                method@,
                *headers,
                cors_configured,
                r,
            ),
        },
{
    let (kind, request_path) = match outcome {
        RouteOutcome::NotAllowed(denial) => {
            return Ok(ProxyAction::Respond(denial));
        },
        RouteOutcome::NoMatchFound => {
            return Ok(
                ProxyAction::Respond(
                    Denial { status: 404, headers: HeaderList::new(), body: "Not Found".to_owned() },
                ),
            );
        },
        RouteOutcome::Matched { kind, request_path } => (kind, request_path),
    };
    if is_preflight(method, headers) && cors_configured {
        return Ok(ProxyAction::Preflight);
    }
    if is_websocket_upgrade(headers) {
        return Ok(ProxyAction::Upgrade);
    }
    match kind {
        DestinationKind::File => Ok(ProxyAction::ServeFile { request_path }),
        DestinationKind::Http => {
            let https = upstream_is_https(request_path.as_str());
            Ok(ProxyAction::Forward { request_path, https })
        },
        DestinationKind::Grpc => match grpc_service_and_method(request_path.as_str()) {
            Ok((service, method)) => Ok(ProxyAction::CallGrpc { service, method }),
            Err(e) => Err(e),
        },
    }
}

/// The first step of a WebSocket upgrade.
#[derive(Debug)]
pub enum UpgradeStart {
    /// Answer at once: the request asks for no upgrade.
    Respond(Denial),
    /// Forward the upgrade request upstream, over TLS when `https`.
    Forward { https: bool },
}

/// How an upgrade request starts: without an Upgrade header it is answered
/// with status 400 and no body; otherwise it is forwarded upstream, over TLS
/// when the target starts with "https".
pub fn websocket_upgrade_start(headers: &HeaderList, request_path: &str) -> (r: UpgradeStart)
    ensures
        headers.spec_get("upgrade"@) is None ==> (r matches UpgradeStart::Respond(d) && d.status
            == 400 && d.headers@.len() == 0 && d.body@.len() == 0),
        headers.spec_get("upgrade"@) is Some ==> (r matches UpgradeStart::Forward { https }
            && https == has_prefix(request_path@, "https"@)),
{
    if !headers.contains_key("upgrade") {
        return UpgradeStart::Respond(Denial { status: 400, headers: HeaderList::new(), body: String::new() });
    }
    UpgradeStart::Forward { https: str_starts_with(request_path, "https") }
}

/// The hexadecimal digit, lower case, of a number below 16.
pub open spec fn hex_digit(n: nat) -> char {
    "0123456789abcdef"@[n as int]
}

/// How a character stands inside a JSON string literal as `serde_json` writes
/// it: a quote, a backslash and the control characters below 0x20 escaped
/// (`\b \t \n \f \r` where JSON has a short form, `\u00XX` otherwise), any
/// other character as itself.
pub open spec fn json_char(c: char) -> Seq<char> {
    let n = c as nat;
    if c == '"' {
        seq!['\\', '"']
    } else if c == '\\' {
        seq!['\\', '\\']
    } else if n == 8 {
        seq!['\\', 'b']
    } else if n == 9 {
        seq!['\\', 't']
    } else if n == 10 {
        seq!['\\', 'n']
    } else if n == 12 {
        seq!['\\', 'f']
    } else if n == 13 {
        seq!['\\', 'r']
    } else if n < 32 {
        seq!['\\', 'u', '0', '0', hex_digit(n / 16), hex_digit(n % 16)]
    } else {
        seq![c]
    }
}

/// The characters of a text, each as it stands inside a JSON string literal.
pub open spec fn json_chars(text: Seq<char>) -> Seq<char>
    decreases text.len(),
{
    if text.len() == 0 {
        seq![]
    } else {
        json_chars(text.drop_last()) + json_char(text.last())
    }
}

/// A text as a JSON string literal: quoted, its characters escaped.
pub open spec fn json_quoted(text: Seq<char>) -> Seq<char> {
    seq!['"'] + json_chars(text) + seq!['"']
}

/// `serde_json::Value::to_string` of the JSON string holding the text. Its
/// compact formatter writes a quote, each byte of the text (escaping the quote,
/// the backslash and the bytes below 0x20, all of them single-byte characters),
/// and a closing quote.
#[verifier::external_body]
fn json_quote(text: &str) -> (r: String)
    ensures
        r@ == json_quoted(text@),
{
    serde_json::Value::from(text).to_string()
}

/// The body of an error response: the JSON object whose `response_code` is -1
/// and whose `response_object` is the message, keys in order.
pub open spec fn error_body(message: Seq<char>) -> Seq<char> {
    "{\"response_code\":-1,\"response_object\":"@ + json_quoted(message) + "}"@
}

/// The response to a request whose handling failed: status 500 and a JSON
/// body that carries the error's message.
pub fn error_response(error: &AppError) -> (r: Denial)
    ensures
        r.status == 500,
        r.headers@.len() == 0,
        r.body@ == error_body(error.0@),
{
    let quoted = json_quote(error.0.as_str());
    let a = concat("{\"response_code\":-1,\"response_object\":", quoted.as_str());
    let body = concat(a.as_str(), "}");
    Denial { status: 500, headers: HeaderList::new(), body }
}

/// What a route configuration offers the gRPC clients: the endpoints of its
/// routes (`None` when its router cannot list them) and the proto descriptor
/// set of its transcoding, if it has one.
#[derive(Debug, Clone, PartialEq, Eq)]
pub struct RouteGrpcSource {
    pub endpoints: Option<Vec<String>>,
    pub proto_descriptor_set: Option<String>,
}

/// An endpoint served over gRPC: it starts with `grpc://`, in any case.
/// (Full Unicode lower-casing agrees with ASCII lower-casing here: no other
/// character lower-cases to text starting with one of `grpc:/`.)
pub open spec fn is_grpc_endpoint(endpoint: Seq<char>) -> bool {
    has_prefix(lower_text(endpoint), "grpc://"@)
}

/// The gRPC endpoints among a route's endpoints, in order.
pub open spec fn grpc_endpoints(endpoints: Seq<String>) -> Seq<Seq<char>>
    decreases endpoints.len(),
{
    if endpoints.len() == 0 {
        seq![]
    } else {
        let rest = grpc_endpoints(endpoints.drop_last());
        if is_grpc_endpoint(endpoints.last()@) {
            rest.push(endpoints.last()@)
        } else {
            rest
        }
    }
}

/// Each endpoint paired with the descriptor set.
pub open spec fn with_descriptor(endpoints: Seq<Seq<char>>, descriptor: Seq<char>) -> Seq<(Seq<char>, Seq<char>)> {
    endpoints.map_values(|e: Seq<char>| (e, descriptor))
}

/// How a scan of route configurations ends.
pub enum GrpcScan {
    /// A router could not list its routes.
    Unlisted,
    /// A route configuration has gRPC endpoints but no transcoding.
    MissingTranscode,
    /// The (endpoint, descriptor set) pairs found.
    Found(Seq<(Seq<char>, Seq<char>)>),
}

/// The scan of route configurations in order: it ends at the first one whose
/// routes cannot be listed, or the first with gRPC endpoints and no transcoding.
pub open spec fn scan_grpc(sources: Seq<RouteGrpcSource>) -> GrpcScan
    decreases sources.len(),
{
    if sources.len() == 0 {
        GrpcScan::Found(seq![])
    } else {
        match sources[0].endpoints {
            None => GrpcScan::Unlisted,
            Some(eps) => {
                let g = grpc_endpoints(eps@);
                if g.len() == 0 {
                    scan_grpc(sources.drop_first())
                } else {
                    match sources[0].proto_descriptor_set {
                        None => GrpcScan::MissingTranscode,
                        Some(d) => match scan_grpc(sources.drop_first()) {
                            GrpcScan::Found(l) => GrpcScan::Found(with_descriptor(g, d@) + l),
                            other => other,
                        },
                    }
                }
            },
        }
    }
}

/// The scan's result after `found` pairs were collected ahead of it.
pub open spec fn after_found(found: Seq<(Seq<char>, Seq<char>)>, scan: GrpcScan) -> GrpcScan {
    match scan {
        GrpcScan::Found(l) => GrpcScan::Found(found + l),
        other => other,
    }
}

/// The message of gRPC routes without transcoding.
pub open spec fn missing_transcode_message() -> Seq<char> {
    "Transcode config is required for gRPC routes but was not found."@
}

/// The gRPC endpoints of a route's endpoints, in order.
fn collect_grpc_endpoints(endpoints: &Vec<String>) -> (r: Vec<String>)
    ensures
        r@.map_values(|s: String| s@) == grpc_endpoints(endpoints@),
{
    let prefix = chars_of("grpc://");
    let mut out: Vec<String> = Vec::new();
    let mut i: usize = 0;
    while i < endpoints.len()
        invariant
            i <= endpoints@.len(),
            prefix@ == "grpc://"@,
            out@.map_values(|s: String| s@) == grpc_endpoints(endpoints@.subrange(0, i as int)),
        decreases endpoints@.len() - i,
    {
        let e = &endpoints[i];
        let ec = chars_of(e.as_str());
        let lowered = lower_chars(ec.as_slice());
        assert(endpoints@.subrange(0, i + 1).drop_last() =~= endpoints@.subrange(0, i as int));
        let ghost before = out@;
        if chars_start_with(lowered.as_slice(), prefix.as_slice()) {
            out.push(e.clone());
            assert(out@.map_values(|s: String| s@) =~= before.map_values(|s: String| s@).push(e@));
        }
        i = i + 1;
    }
    assert(endpoints@.subrange(0, endpoints@.len() as int) =~= endpoints@);
    out
}

/// The gRPC endpoints of the route configurations, each with the proto
/// descriptor set of its configuration's transcoding. When a router cannot list
/// its routes the answer is no endpoint at all; gRPC endpoints without
/// transcoding are an error.
pub fn extract_grpc_configs(route_configs: &Vec<RouteGrpcSource>) -> (r: Result<Vec<(String, String)>, AppError>)
    ensures
        match scan_grpc(route_configs@) {
            GrpcScan::Unlisted => r matches Ok(v) && v@.len() == 0,
            GrpcScan::MissingTranscode => r matches Err(e) && e.0@ == missing_transcode_message(),
            GrpcScan::Found(l) => r matches Ok(v) && v@.map_values(|p: (String, String)| (p.0@, p.1@)) == l,
        },
{
    let mut grpc_list: Vec<(String, String)> = Vec::new();
    let mut i: usize = 0;
    assert(route_configs@.skip(0) =~= route_configs@);
    while i < route_configs.len()
        invariant
            i <= route_configs@.len(),
            scan_grpc(route_configs@) == after_found(
                grpc_list@.map_values(|p: (String, String)| (p.0@, p.1@)),
                scan_grpc(route_configs@.skip(i as int)),
            ),
        decreases route_configs@.len() - i,
    {
        let item = &route_configs[i];
        let ghost found = grpc_list@.map_values(|p: (String, String)| (p.0@, p.1@));
        let ghost rest = route_configs@.skip(i as int);
        assert(rest[0] == route_configs@[i as int]);
        assert(rest.drop_first() =~= route_configs@.skip(i + 1));
        let endpoints = match &item.endpoints {
            None => {
                return Ok(Vec::new());
            },
            Some(eps) => eps,
        };
        let grpc = collect_grpc_endpoints(endpoints);
        if grpc.len() == 0 {
            i = i + 1;
            continue;
        }
        let descriptor = match &item.proto_descriptor_set {
            None => {
                return Err(AppError("Transcode config is required for gRPC routes but was not found.".to_owned()));
            },
            Some(d) => d,
        };
        let ghost g = grpc_endpoints(endpoints@);
        let mut j: usize = 0;
        while j < grpc.len()
            invariant
                j <= grpc@.len(),
                grpc@.map_values(|s: String| s@) == g,
                grpc_list@.map_values(|p: (String, String)| (p.0@, p.1@)) == found + with_descriptor(
                    g.subrange(0, j as int),
                    descriptor@,
                ),
            decreases grpc@.len() - j,
        {
            let ghost before = grpc_list@;
            grpc_list.push((grpc[j].clone(), descriptor.clone()));
            assert(g[j as int] == grpc@[j as int]@);
            assert(grpc_list@.map_values(|p: (String, String)| (p.0@, p.1@)) =~= before.map_values(
                |p: (String, String)| (p.0@, p.1@),
            ).push((g[j as int], descriptor@)));
            assert(with_descriptor(g.subrange(0, j + 1), descriptor@) =~= with_descriptor(
                g.subrange(0, j as int),
                descriptor@,
            ).push((g[j as int], descriptor@)));
            j = j + 1;
        }
        assert(g.subrange(0, g.len() as int) =~= g);
        proof {
            let added = with_descriptor(g, descriptor@);
            match scan_grpc(route_configs@.skip(i + 1)) {
                GrpcScan::Found(l) => {
                    assert(found + (added + l) =~= (found + added) + l);
                },
                _ => {},
            }
        }
        i = i + 1;
    }
    assert(grpc_list@.map_values(|p: (String, String)| (p.0@, p.1@)) + seq![] =~= grpc_list@.map_values(
        |p: (String, String)| (p.0@, p.1@),
    ));
    Ok(grpc_list)
}

/// A request that is not an answered preflight and carries both a Connection
/// and a Sec-WebSocket-Key header, whatever their values (`keep-alive, Upgrade`
/// as much as `Upgrade`), is upgraded to a WebSocket, whatever its destination.
pub proof fn lemma_upgrade_on_both_headers(
    kind: DestinationKind,
    request_path: Seq<char>,
    method: Seq<char>,
    headers: HeaderList,
    cors_configured: bool,
    r: Result<ProxyAction, AppError>,
)
    requires
        matched_action_ok(kind, request_path, method, headers, cors_configured, r),
        !(spec_is_preflight(method, headers) && cors_configured),
        headers.spec_get("connection"@) is Some,
        headers.spec_get("sec-websocket-key"@) is Some,
    ensures
        r matches Ok(ProxyAction::Upgrade),
{
}

/// A request lacking the Connection or the Sec-WebSocket-Key header is never
/// upgraded.
pub proof fn lemma_no_upgrade_without_both_headers(
    kind: DestinationKind,
    request_path: Seq<char>,
    method: Seq<char>,
    headers: HeaderList,
    cors_configured: bool,
    r: Result<ProxyAction, AppError>,
)
    requires
        matched_action_ok(kind, request_path, method, headers, cors_configured, r),
        headers.spec_get("connection"@) is None || headers.spec_get("sec-websocket-key"@) is None,
    ensures
        !(r matches Ok(ProxyAction::Upgrade)),
{
}

/// Whether a request is an upgrade depends only on which of the two headers
/// it carries, never on their values.
pub proof fn lemma_upgrade_ignores_values(a: HeaderList, b: HeaderList)
    requires
        (a.spec_get("connection"@) is Some) == (b.spec_get("connection"@) is Some),
        (a.spec_get("sec-websocket-key"@) is Some) == (b.spec_get("sec-websocket-key"@) is Some),
    ensures
        spec_is_websocket_upgrade(a) == spec_is_websocket_upgrade(b),
{
}

} // verus!
