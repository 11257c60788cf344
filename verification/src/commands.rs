//! The decisions behind the command-line tools: the control-plane endpoints
//! they call, and which configuration example a name refers to.
use vstd::prelude::*;

use crate::text::{
    chars_of, string_of, concat, decimal, has_prefix, has_substring, replace_all, replace_text, str_contains,
    str_starts_with, u64_to_decimal,
};

verus! {

/// The control-plane endpoint that returns the running configuration.
pub open spec fn app_config_endpoint() -> Seq<char> {
    "/appConfig"@
}

/// The control-plane endpoint that reloads the configuration.
pub open spec fn reload_endpoint() -> Seq<char> {
    "/reload"@
}

/// `http://host:port` followed by an endpoint.
pub open spec fn endpoint_url(host: Seq<char>, port: u16, endpoint: Seq<char>) -> Seq<char> {
    "http://"@ + host + ":"@ + decimal(port as nat) + endpoint
}

/// `http://host:port` followed by `endpoint`.
pub fn control_plane_url(host: &str, port: u16, endpoint: &str) -> (r: String)
    ensures
        r@ == endpoint_url(host@, port, endpoint@),
{
    let a = concat("http://", host);
    let b = concat(a.as_str(), ":");
    let c = concat(b.as_str(), u64_to_decimal(port as u64).as_str());
    concat(c.as_str(), endpoint)
}

/// The URL the query command fetches the configuration from.
pub fn query_url(host: &str, port: u16) -> (r: String)
    ensures
        r@ == endpoint_url(host@, port, app_config_endpoint()),
{
    control_plane_url(host, port, "/appConfig")
}

/// The URL the reload command posts the configuration to.
pub fn reload_url(host: &str, port: u16) -> (r: String)
    ensures
        r@ == endpoint_url(host@, port, reload_endpoint()),
{
    control_plane_url(host, port, "/reload")
}

/// The configuration examples, by name, with what each shows.
pub open spec fn examples() -> Seq<(Seq<char>, Seq<char>)> {
    seq![
        ("app_config_simple"@, "Minimal configuration with single backend forwarding"@),
        ("app_config_https"@, "HTTPS proxy with TLS certificate configuration"@),
        ("http_weight_route"@, "Weight-based load balancing across multiple backends"@),
        ("http_random_route"@, "Random backend selection for load distribution"@),
        ("http_poll_route"@, "Round-robin (poll) load balancing"@),
        ("http_header_based_route"@, "Header-based routing with text/regex/split matching"@),
        ("http_to_grpc"@, "HTTP to gRPC transcoding with proto descriptors"@),
        ("http_cors"@, "CORS (Cross-Origin Resource Sharing) configuration"@),
        ("health_check"@, "Active/passive health checking with automatic failover"@),
        ("circuit_breaker"@, "Circuit breaker pattern for fault tolerance"@),
        ("reverse_proxy"@, "Basic reverse proxy with forward headers"@),
        ("tcp_proxy"@, "TCP layer proxy with IP filtering"@),
        ("jwt_auth"@, "JWT authentication middleware"@),
        ("matchers"@, "Advanced request matching (path/host/header/method)"@),
        ("middle_wares"@, "Multiple middleware combination (auth + rate limit + allow/deny + CORS)"@),
        ("ratelimit_token_bucket"@, "Token bucket rate limiting algorithm"@),
        ("ratelimit_fixed_window"@, "Fixed window rate limiting algorithm"@),
        ("request_headers"@, "Add/remove custom request headers"@),
        ("static_file"@, "Static file serving with caching headers"@),
        ("openapi_convert"@, "OpenAPI spec conversion to routing rules"@),
        ("forward_ip_examples"@, "Forward client IP via X-Real-IP and X-Forwarded-For headers"@),
    ]
}

/// The configuration examples, by name, with what each shows, in the order
/// they are listed.
pub fn example_list() -> (r: Vec<(String, String)>)
    ensures
        r@.map_values(|e: (String, String)| (e.0@, e.1@)) == examples(),
{
    let r = vec![
        ("app_config_simple".to_owned(), "Minimal configuration with single backend forwarding".to_owned()),
        ("app_config_https".to_owned(), "HTTPS proxy with TLS certificate configuration".to_owned()),
        ("http_weight_route".to_owned(), "Weight-based load balancing across multiple backends".to_owned()),
        ("http_random_route".to_owned(), "Random backend selection for load distribution".to_owned()),
        ("http_poll_route".to_owned(), "Round-robin (poll) load balancing".to_owned()),
        ("http_header_based_route".to_owned(), "Header-based routing with text/regex/split matching".to_owned()),
        ("http_to_grpc".to_owned(), "HTTP to gRPC transcoding with proto descriptors".to_owned()),
        ("http_cors".to_owned(), "CORS (Cross-Origin Resource Sharing) configuration".to_owned()),
        ("health_check".to_owned(), "Active/passive health checking with automatic failover".to_owned()),
        ("circuit_breaker".to_owned(), "Circuit breaker pattern for fault tolerance".to_owned()),
        ("reverse_proxy".to_owned(), "Basic reverse proxy with forward headers".to_owned()),
        ("tcp_proxy".to_owned(), "TCP layer proxy with IP filtering".to_owned()),
        ("jwt_auth".to_owned(), "JWT authentication middleware".to_owned()),
        ("matchers".to_owned(), "Advanced request matching (path/host/header/method)".to_owned()),
        ("middle_wares".to_owned(), "Multiple middleware combination (auth + rate limit + allow/deny + CORS)".to_owned()),
        ("ratelimit_token_bucket".to_owned(), "Token bucket rate limiting algorithm".to_owned()),
        ("ratelimit_fixed_window".to_owned(), "Fixed window rate limiting algorithm".to_owned()),
        ("request_headers".to_owned(), "Add/remove custom request headers".to_owned()),
        ("static_file".to_owned(), "Static file serving with caching headers".to_owned()),
        ("openapi_convert".to_owned(), "OpenAPI spec conversion to routing rules".to_owned()),
        ("forward_ip_examples".to_owned(), "Forward client IP via X-Real-IP and X-Forwarded-For headers".to_owned()),
    ];
    assert(r@.map_values(|e: (String, String)| (e.0@, e.1@)) =~= examples());
    r
}

/// A text padded with spaces on the right to at least `width` characters.
pub open spec fn pad_right(s: Seq<char>, width: nat) -> Seq<char> {
    if s.len() >= width {
        s
    } else {
        s + Seq::new((width - s.len()) as nat, |i: int| ' ')
    }
}

/// A line of the examples table: the number in a column of 5, the name in a
/// column of 35, then the description.
pub open spec fn example_line_text(number: nat, name: Seq<char>, description: Seq<char>) -> Seq<char> {
    pad_right(decimal(number), 5) + " "@ + pad_right(name, 35) + " "@ + description
}

/// A text padded with spaces on the right to at least `width` characters.
fn pad_text(s: &str, width: usize) -> (r: String)
    ensures
        r@ == pad_right(s@, width as nat),
{
    let mut cs = chars_of(s);
    let ghost start = cs@;
    if cs.len() >= width {
        return string_of(cs.as_slice());
    }
    let n = cs.len();
    while cs.len() < width
        invariant
            n <= cs@.len() <= width,
            n == start.len(),
            cs@ == start + Seq::new((cs@.len() - n) as nat, |i: int| ' '),
        decreases width - cs@.len(),
    {
        let ghost before = cs@;
        cs.push(' ');
        assert(cs@ =~= start + Seq::new((cs@.len() - n) as nat, |i: int| ' '));
    }
    string_of(cs.as_slice())
}

/// A line of the examples table.
pub fn example_line(number: u64, name: &str, description: &str) -> (r: String)
    ensures
        r@ == example_line_text(number as nat, name@, description@),
{
    let a = pad_text(u64_to_decimal(number).as_str(), 5);
    let b = concat(a.as_str(), " ");
    let c = concat(b.as_str(), pad_text(name, 35).as_str());
    let d = concat(c.as_str(), " ");
    concat(d.as_str(), description)
}

/// The directory that holds the configuration examples.
pub open spec fn examples_dir() -> Seq<char> {
    "config/examples"@
}

/// The path of a file in the examples directory.
pub open spec fn example_path(file: Seq<char>) -> Seq<char> {
    examples_dir() + "/"@ + file
}

/// Whether the listing holds the file name.
pub open spec fn listed(files: Seq<String>, file: Seq<char>) -> bool {
    exists|i: int| 0 <= i < files.len() && #[trigger] files[i]@ == file
}

/// A file name that a partial search accepts for `name`.
pub open spec fn partial_hit(file: Seq<char>, name: Seq<char>) -> bool {
    has_prefix(file, name) || has_substring(file, name)
}

/// The example file for `name`, given the file names in the examples directory
/// (in the order the directory lists them): `name.yaml` if it is there, else
/// `name_examples.yaml`, else the first file whose name starts with or contains
/// `name`; `None` when there is none.
pub open spec fn example_for(name: Seq<char>, files: Seq<String>) -> Option<Seq<char>> {
    if listed(files, name + ".yaml"@) {
        Some(example_path(name + ".yaml"@))
    } else if listed(files, name + "_examples.yaml"@) {
        Some(example_path(name + "_examples.yaml"@))
    } else if exists|i: int| 0 <= i < files.len() && partial_hit(#[trigger] files[i]@, name) {
        let i = choose|i: int|
            0 <= i < files.len() && partial_hit(#[trigger] files[i]@, name) && forall|j: int|
                0 <= j < i ==> !partial_hit(#[trigger] files[j]@, name);
        Some(example_path(files[i]@))
    } else {
        None
    }
}

/// Whether the listing holds the file name.
fn is_listed(files: &Vec<String>, file: &str) -> (r: bool)
    ensures
        r == listed(files@, file@),
{
    let fc = chars_of(file);
    let mut i: usize = 0;
    while i < files.len()
        invariant
            i <= files@.len(),
            fc@ == file@,
            forall|j: int| 0 <= j < i ==> #[trigger] files@[j]@ != file@,
        decreases files@.len() - i,
    {
        let c = chars_of(files[i].as_str());
        if crate::text::chars_equal(c.as_slice(), fc.as_slice()) {
            return true;
        }
        i = i + 1;
    }
    false
}

/// The message of an example that is not found.
pub open spec fn example_not_found(name: Seq<char>) -> Seq<char> {
    "Example '"@ + name + "' not found. Use --list to see available examples."@
}

/// The path of the example file for `name`, given the file names in the
/// examples directory; the error names the example when none fits.
pub fn find_example_file(name: &str, files: &Vec<String>) -> (r: Result<String, String>)
    ensures
        match example_for(name@, files@) {
            Some(p) => r matches Ok(s) && s@ == p,
            None => r matches Err(m) && m@ == example_not_found(name@),
        },
{
    let exact = concat(name, ".yaml");
    if is_listed(files, exact.as_str()) {
        let a = concat("config/examples", "/");
        return Ok(concat(a.as_str(), exact.as_str()));
    }
    let with_suffix = concat(name, "_examples.yaml");
    if is_listed(files, with_suffix.as_str()) {
        let a = concat("config/examples", "/");
        return Ok(concat(a.as_str(), with_suffix.as_str()));
    }
    let mut i: usize = 0;
    while i < files.len()
        invariant
            i <= files@.len(),
            forall|j: int| 0 <= j < i ==> !partial_hit(#[trigger] files@[j]@, name@),
            !listed(files@, name@ + ".yaml"@),
            !listed(files@, name@ + "_examples.yaml"@),
        decreases files@.len() - i,
    {
        let f = files[i].as_str();
        if str_starts_with(f, name) || str_contains(f, name) {
            let ghost w = choose|k: int|
                0 <= k < files@.len() && partial_hit(#[trigger] files@[k]@, name@) && forall|j: int|
                    0 <= j < k ==> !partial_hit(#[trigger] files@[j]@, name@);
            proof {
                assert(partial_hit(files@[i as int]@, name@));
                assert(0 <= i < files@.len() && partial_hit(files@[i as int]@, name@) && forall|j: int|
                    0 <= j < i ==> !partial_hit(#[trigger] files@[j]@, name@));
                if w < i {
                    assert(!partial_hit(files@[w]@, name@));
                } else if w > i {
                    assert(!partial_hit(files@[i as int]@, name@));
                }
                assert(w == i);
            }
            let a = concat("config/examples", "/");
            return Ok(concat(a.as_str(), f));
        }
        i = i + 1;
    }
    let b = concat("Example '", name);
    Err(concat(b.as_str(), "' not found. Use --list to see available examples."))
}

/// Nanoseconds in a day.
pub open spec fn day_nanos() -> int {
    86400000000000
}

/// The largest distance from the epoch, in nanoseconds, of the times compared
/// for renewal (far beyond the years 1 to 9999 that certificates can name).
pub const TIME_NANOS_BOUND: i128 = 1000000000000000000000000000000i128;

/// Whether a certificate expiring at `not_after` (nanoseconds since the epoch)
/// should be renewed at `now`: it has expired, or fewer than 30 whole days remain.
pub open spec fn spec_renewal_due(now: i128, not_after: i128) -> bool {
    now > not_after || (not_after - now) / day_nanos() < 30
}

/// Whether a certificate expiring at `not_after` should be renewed at `now`.
pub fn renewal_due(now: i128, not_after: i128) -> (r: bool)
    requires
        -TIME_NANOS_BOUND <= now <= TIME_NANOS_BOUND,
        -TIME_NANOS_BOUND <= not_after <= TIME_NANOS_BOUND,
    ensures
        r == spec_renewal_due(now, not_after),
{
    if now > not_after {
        return true;
    }
    let remaining_days = (not_after - now) / 86400000000000i128;
    remaining_days < 30
}

/// Whether the certificate of a domain should be renewed at `now`, given the
/// expiry read from its certificate file (`None` when there is no file, or it
/// holds no readable certificate): always for an empty domain name or a missing
/// expiry, otherwise when it has expired or fewer than 30 whole days remain.
pub fn certificate_needs_renewal(domain_name: &str, not_after: Option<i128>, now: i128) -> (r: bool)
    requires
        -TIME_NANOS_BOUND <= now <= TIME_NANOS_BOUND,
        not_after matches Some(t) ==> -TIME_NANOS_BOUND <= t <= TIME_NANOS_BOUND,
    ensures
        r == (domain_name@.len() == 0 || match not_after {
            None => true,
            Some(t) => spec_renewal_due(now, t),
        }),
{
    if domain_name.is_empty() {
        return true;
    }
    match not_after {
        None => true,
        Some(t) => renewal_due(now, t),
    }
}

/// The message of a YAML error for a reader: "EOF while parsing a value"
/// reads "unexpected end of file", and the line and column follow when known.
pub open spec fn yaml_error_text(message: Seq<char>, location: Option<(usize, usize)>) -> Seq<char> {
    match location {
        Some((line, column)) => replace_all(
            message,
            "EOF while parsing a value"@,
            "unexpected end of file"@,
        ) + " at line "@ + decimal(line as nat) + ", column "@ + decimal(column as nat),
        None => message,
    }
}

/// The readable form of a YAML parse error, given its message and, when
/// known, its line and column.
pub fn format_yaml_error(message: &str, location: Option<(usize, usize)>) -> (r: String)
    ensures
        r@ == yaml_error_text(message@, location),
{
    match location {
        Some((line, column)) => {
            proof {
                reveal_strlit("EOF while parsing a value");
            }
            let cleaned = replace_text(message, "EOF while parsing a value", "unexpected end of file");
            let a = concat(cleaned.as_str(), " at line ");
            let b = concat(a.as_str(), u64_to_decimal(line as u64).as_str());
            let c = concat(b.as_str(), ", column ");
            concat(c.as_str(), u64_to_decimal(column as u64).as_str())
        },
        None => message.to_owned(),
    }
}

} // verus!
