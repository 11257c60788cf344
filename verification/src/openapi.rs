//! Turning an OpenAPI description into routes: the upstream servers, and the
//! matchers of the route made for each path and method.
use vstd::prelude::*;

use crate::error::AppError;
use crate::matcher::{MatcherRule, PathMatchType};
use crate::text::{chars_of, concat, has_substring, str_contains, string_of};

verus! {

/// The server used when the description declares none.
pub open spec fn default_server() -> Seq<char> {
    "http://127.0.0.1:8080"@
}

/// The servers the routes are made for: the declared ones, or the default
/// server when none is declared. The first one is the upstream of every route.
pub fn server_urls(declared: Vec<String>) -> (r: Vec<String>)
    ensures
        declared@.len() == 0 ==> r@.len() == 1 && r@[0]@ == default_server(),
        declared@.len() > 0 ==> r@ == declared@,
{
    if declared.len() == 0 {
        vec!["http://127.0.0.1:8080".to_owned()]
    } else {
        declared
    }
}

/// The position of the first brace in a text, or its length when it holds none.
pub open spec fn first_brace(t: Seq<char>) -> nat
    decreases t.len(),
{
    if t.len() == 0 || t[0] == '{' || t[0] == '}' {
        0
    } else {
        1 + first_brace(t.drop_first())
    }
}

/// The length of the parameter that starts a path template, if one does: a
/// `{`, one or more characters that are not braces, and a `}`.
pub open spec fn param_len(s: Seq<char>) -> Option<nat> {
    if s.len() > 0 && s[0] == '{' {
        let b = first_brace(s.drop_first());
        if 1 <= b && b + 1 < s.len() && s[b + 1 as int] == '}' {
            Some(b + 2)
        } else {
            None
        }
    } else {
        None
    }
}

/// A path template with each parameter, from left to right, replaced by the
/// expression `[^/]+` that reads one path segment.
pub open spec fn params_replaced(s: Seq<char>) -> Seq<char>
    decreases s.len(),
{
    if s.len() == 0 {
        seq![]
    } else {
        match param_len(s) {
            Some(n) => "[^/]+"@ + params_replaced(s.skip(n as int)),
            None => seq![s[0]] + params_replaced(s.drop_first()),
        }
    }
}

/// Skipping characters that are not braces moves the first brace back by as many.
proof fn lemma_first_brace_skip(t: Seq<char>, k: int)
    requires
        0 <= k <= t.len(),
        forall|m: int| 0 <= m < k ==> #[trigger] t[m] != '{' && t[m] != '}',
    ensures
        first_brace(t) == k + first_brace(t.skip(k)),
    decreases k,
{
    if k > 0 {
        assert(t.drop_first().skip(k - 1) =~= t.skip(k));
        lemma_first_brace_skip(t.drop_first(), k - 1);
    } else {
        assert(t.skip(0) =~= t);
    }
}

/// A path template with each parameter replaced by `[^/]+`.
pub fn replace_params(path: &str) -> (r: String)
    ensures
        r@ == params_replaced(path@),
{
    let cs = chars_of(path);
    let n = cs.len();
    let mut out: Vec<char> = Vec::new();
    let mut i: usize = 0;
    assert(cs@.skip(0) =~= cs@);
    while i < n
        invariant
            i <= n,
            n == cs@.len(),
            cs@ == path@,
            out@ + params_replaced(cs@.skip(i as int)) == params_replaced(cs@),
        decreases n - i,
    {
        let ghost rest = cs@.skip(i as int);
        let ghost before = out@;
        assert(rest[0] == cs@[i as int]);
        assert(rest.drop_first() =~= cs@.skip(i + 1));
        let mut replaced = false;
        if cs[i] == '{' {
            let mut j: usize = i + 1;
            while j < n && cs[j] != '{' && cs[j] != '}'
                invariant
                    i < j <= n,
                    n == cs@.len(),
                    forall|m: int| i < m < j ==> #[trigger] cs@[m] != '{' && cs@[m] != '}',
                decreases n - j,
            {
                j = j + 1;
            }
            proof {
                let t = cs@.skip(i + 1);
                assert forall|m: int| 0 <= m < j - (i + 1) implies #[trigger] t[m] != '{' && t[m]
                    != '}' by {
                    assert(t[m] == cs@[i + 1 + m]);
                }
                lemma_first_brace_skip(t, j - (i + 1));
                assert(t.skip(j - (i + 1)) =~= cs@.skip(j as int));
                if j < n {
                    assert(cs@.skip(j as int)[0] == cs@[j as int]);
                }
                assert(first_brace(t) == j - (i + 1));
            }
            if j < n && cs[j] == '}' && j > i + 1 {
                assert(rest[j - i] == cs@[j as int]);
                assert(param_len(rest) == Some((j - i + 1) as nat));
                assert(rest.skip(j - i + 1) =~= cs@.skip(j + 1));
                out.push('[');
                out.push('^');
                out.push('/');
                out.push(']');
                out.push('+');
                proof {
                    reveal_strlit("[^/]+");
                }
                assert(out@ =~= before + "[^/]+"@);
                assert(out@ + params_replaced(cs@.skip(j + 1)) =~= before + params_replaced(rest));
                i = j + 1;
                replaced = true;
            } else {
                assert(param_len(rest) is None) by {
                    if j < n {
                        assert(rest[j - i] == cs@[j as int]);
                    }
                }
            }
        } else {
            assert(param_len(rest) is None);
        }
        if !replaced {
            out.push(cs[i]);
            assert(out@ + params_replaced(cs@.skip(i + 1)) =~= before + params_replaced(rest));
            i = i + 1;
        }
    }
    assert(cs@.skip(n as int) =~= Seq::<char>::empty());
    assert(out@ + Seq::<char>::empty() =~= out@);
    string_of(out.as_slice())
}

/// A path template with parameters: it holds both `{` and `}`.
pub open spec fn is_template(path: Seq<char>) -> bool {
    has_substring(path, "{"@) && has_substring(path, "}"@)
}

/// The value and kind of the path matcher made for a path: the path itself,
/// matched exactly, or for a template the anchored expression that reads each
/// parameter as one path segment.
pub open spec fn path_matcher_for(path: Seq<char>) -> (Seq<char>, PathMatchType) {
    if is_template(path) {
        ("^"@ + params_replaced(path) + "$"@, PathMatchType::Regex)
    } else {
        (path, PathMatchType::Exact)
    }
}

/// A path rule with this value and kind and nothing compiled yet.
pub open spec fn is_path_rule(rule: MatcherRule, value: Seq<char>, match_type: PathMatchType) -> bool {
    match rule {
        MatcherRule::Path { value: v, match_type: t, regex } => v@ == value && t == match_type
            && regex is None,
        _ => false,
    }
}

/// A method rule that accepts exactly this method.
pub open spec fn is_method_rule(rule: MatcherRule, method: Seq<char>) -> bool {
    match rule {
        MatcherRule::Method { values } => values@.len() == 1 && values@[0]@ == method,
        _ => false,
    }
}

/// The matchers of the route for one path and method of the description: the
/// path matcher, then the method. Every path gives them.
pub fn route_matchers(path: &str, method: &str) -> (r: Result<Vec<MatcherRule>, AppError>)
    ensures
        r is Ok,
        match r {
            Ok(v) => v@.len() == 2 && is_path_rule(
                v@[0],
                path_matcher_for(path@).0,
                path_matcher_for(path@).1,
            ) && is_method_rule(v@[1], method@),
            Err(_) => false,
        },
{
    let (value, match_type) = if str_contains(path, "{") && str_contains(path, "}") {
        let replaced = replace_params(path);
        let a = concat("^", replaced.as_str());
        (concat(a.as_str(), "$"), PathMatchType::Regex)
    } else {
        (path.to_owned(), PathMatchType::Exact)
    };
    let methods = vec![method.to_owned()];
    let rules = vec![
        MatcherRule::Path { value, match_type, regex: None },
        MatcherRule::Method { values: methods },
    ];
    Ok(rules)
}

/// A route made for one path and method: its matchers and its upstream.
#[derive(Debug)]
pub struct ConvertedRoute {
    pub matchers: Vec<MatcherRule>,
    pub upstream: String,
}

/// A service of the converted configuration: the port it listens on, whether
/// it serves TLS, and its routes.
#[derive(Debug)]
pub struct ServiceRoutes {
    pub listen_port: i32,
    pub https: bool,
    pub routes: Vec<ConvertedRoute>,
}

/// The ports of the servers, each once, in the order they first occur, each
/// with the scheme of the first server on it (`true` for https).
pub open spec fn distinct_ports(servers: Seq<(i32, bool)>) -> Seq<(i32, bool)>
    decreases servers.len(),
{
    if servers.len() == 0 {
        seq![]
    } else {
        let d = distinct_ports(servers.drop_last());
        if exists|k: int| 0 <= k < d.len() && #[trigger] d[k].0 == servers.last().0 {
            d
        } else {
            d.push(servers.last())
        }
    }
}

/// How many servers listen on the port.
pub open spec fn port_count(servers: Seq<(i32, bool)>, port: i32) -> nat
    decreases servers.len(),
{
    if servers.len() == 0 {
        0
    } else {
        port_count(servers.drop_last(), port) + if servers.last().0 == port {
            1nat
        } else {
            0nat
        }
    }
}

/// Each path paired with each of its methods, paths in order, methods in order.
pub open spec fn method_pairs(paths: Seq<(String, Vec<String>)>) -> Seq<(Seq<char>, Seq<char>)>
    decreases paths.len(),
{
    if paths.len() == 0 {
        seq![]
    } else {
        method_pairs(paths.drop_last()) + paths.last().1@.map_values(
            |m: String| (paths.last().0@, m@),
        )
    }
}

/// Each pair repeated `copies` times, in order.
pub open spec fn repeated(pairs: Seq<(Seq<char>, Seq<char>)>, copies: nat) -> Seq<(Seq<char>, Seq<char>)>
    decreases pairs.len(),
{
    if pairs.len() == 0 {
        seq![]
    } else {
        repeated(pairs.drop_last(), copies) + Seq::new(copies, |k: int| pairs.last())
    }
}

/// The route made for a path and method, with the upstream.
pub open spec fn route_for(route: ConvertedRoute, pair: (Seq<char>, Seq<char>), upstream: Seq<char>) -> bool {
    &&& route.matchers@.len() == 2
    &&& is_path_rule(route.matchers@[0], path_matcher_for(pair.0).0, path_matcher_for(pair.0).1)
    &&& is_method_rule(route.matchers@[1], pair.1)
    &&& route.upstream@ == upstream
}

/// The routes are those made for the pairs, in order.
pub open spec fn routes_for(routes: Seq<ConvertedRoute>, pairs: Seq<(Seq<char>, Seq<char>)>, upstream: Seq<char>) -> bool {
    routes.len() == pairs.len() && forall|k: int|
        0 <= k < routes.len() ==> route_for(#[trigger] routes[k], pairs[k], upstream)
}

/// The path and method pairs, as texts.
pub open spec fn pair_texts(v: Seq<(String, String)>) -> Seq<(Seq<char>, Seq<char>)> {
    v.map_values(|p: (String, String)| (p.0@, p.1@))
}

/// Each path paired with each of its methods.
fn collect_pairs(paths: &Vec<(String, Vec<String>)>) -> (r: Vec<(String, String)>)
    ensures
        pair_texts(r@) == method_pairs(paths@),
{
    let mut out: Vec<(String, String)> = Vec::new();
    let mut j: usize = 0;
    while j < paths.len()
        invariant
            j <= paths@.len(),
            pair_texts(out@) == method_pairs(paths@.take(j as int)),
        decreases paths@.len() - j,
    {
        let path = &paths[j].0;
        let methods = &paths[j].1;
        let ghost start = pair_texts(out@);
        let mut m: usize = 0;
        while m < methods.len()
            invariant
                m <= methods@.len(),
                methods == paths@[j as int].1,
                path == paths@[j as int].0,
                pair_texts(out@) == start + methods@.take(m as int).map_values(
                    |x: String| (path@, x@),
                ),
            decreases methods@.len() - m,
        {
            let ghost before = pair_texts(out@);
            out.push((path.clone(), methods[m].clone()));
            assert(pair_texts(out@) =~= before.push((path@, methods@[m as int]@)));
            assert(methods@.take(m + 1).map_values(|x: String| (path@, x@)) =~= methods@.take(
                m as int,
            ).map_values(|x: String| (path@, x@)).push((path@, methods@[m as int]@)));
            m = m + 1;
        }
        assert(methods@.take(methods@.len() as int) =~= methods@);
        assert(paths@.take(j + 1).drop_last() =~= paths@.take(j as int));
        assert(paths@.take(j + 1).last() == paths@[j as int]);
        j = j + 1;
    }
    assert(paths@.take(paths@.len() as int) =~= paths@);
    out
}

/// The ports of the servers, each once, in the order they first occur.
fn collect_ports(servers: &Vec<(i32, bool)>) -> (r: Vec<(i32, bool)>)
    ensures
        r@ == distinct_ports(servers@),
{
    let mut out: Vec<(i32, bool)> = Vec::new();
    let mut t: usize = 0;
    while t < servers.len()
        invariant
            t <= servers@.len(),
            out@ == distinct_ports(servers@.take(t as int)),
        decreases servers@.len() - t,
    {
        let (port, https) = servers[t];
        let mut k: usize = 0;
        let mut found = false;
        while k < out.len()
            invariant
                k <= out@.len(),
                !found ==> forall|q: int| 0 <= q < k ==> #[trigger] out@[q].0 != port,
                found ==> exists|q: int| 0 <= q < out@.len() && #[trigger] out@[q].0 == port,
            decreases out@.len() - k,
        {
            if out[k].0 == port {
                found = true;
            }
            k = k + 1;
        }
        assert(servers@.take(t + 1).drop_last() =~= servers@.take(t as int));
        assert(servers@.take(t + 1).last() == (port, https));
        if !found {
            out.push((port, https));
        }
        t = t + 1;
    }
    assert(servers@.take(servers@.len() as int) =~= servers@);
    out
}

/// How many servers before the `t`-th listen on the port, one more for it when it does.
proof fn lemma_port_count_step(servers: Seq<(i32, bool)>, port: i32, t: int)
    requires
        0 <= t < servers.len(),
    ensures
        port_count(servers.take(t + 1), port) == port_count(servers.take(t), port) + if servers[t].0
            == port {
            1nat
        } else {
            0nat
        },
{
    assert(servers.take(t + 1).drop_last() =~= servers.take(t));
}

/// The routes of the service on one port: for each pair, one route per server
/// on that port.
fn service_routes(
    servers: &Vec<(i32, bool)>,
    pairs: &Vec<(String, String)>,
    port: i32,
    upstream: &str,
) -> (r: Vec<ConvertedRoute>)
    ensures
        routes_for(r@, repeated(pair_texts(pairs@), port_count(servers@, port)), upstream@),
{
    let ghost c = port_count(servers@, port);
    let ghost pt = pair_texts(pairs@);
    let mut routes: Vec<ConvertedRoute> = Vec::new();
    let mut j: usize = 0;
    while j < pairs.len()
        invariant
            j <= pairs@.len(),
            c == port_count(servers@, port),
            pt == pair_texts(pairs@),
            routes_for(routes@, repeated(pt.take(j as int), c), upstream@),
        decreases pairs@.len() - j,
    {
        let ghost done = repeated(pt.take(j as int), c);
        let ghost pair = pt[j as int];
        let mut t: usize = 0;
        while t < servers.len()
            invariant
                j < pairs@.len(),
                t <= servers@.len(),
                pt == pair_texts(pairs@),
                pair == pt[j as int],
                routes_for(
                    routes@,
                    done + Seq::new(port_count(servers@.take(t as int), port), |k: int| pair),
                    upstream@,
                ),
            decreases servers@.len() - t,
        {
            proof {
                lemma_port_count_step(servers@, port, t as int);
            }
            if servers[t].0 == port {
                let matchers = match route_matchers(pairs[j].0.as_str(), pairs[j].1.as_str()) {
                    Ok(v) => v,
                    Err(_) => {
                        proof {
                            assert(false);
                        }
                        Vec::new()
                    },
                };
                let route = ConvertedRoute { matchers, upstream: upstream.to_owned() };
                let ghost before = routes@;
                let ghost target = done + Seq::new(
                    port_count(servers@.take(t as int), port),
                    |k: int| pair,
                );
                assert(pair == (pairs@[j as int].0@, pairs@[j as int].1@));
                assert(route_for(route, pair, upstream@));
                routes.push(route);
                let ghost next = done + Seq::new(
                    port_count(servers@.take(t + 1), port),
                    |k: int| pair,
                );
                assert(next =~= target.push(pair));
                assert forall|k: int| 0 <= k < routes@.len() implies route_for(
                    #[trigger] routes@[k],
                    next[k],
                    upstream@,
                ) by {
                    if k < before.len() {
                        assert(routes@[k] == before[k]);
                    }
                }
            } else {
                assert(done + Seq::new(port_count(servers@.take(t + 1), port), |k: int| pair)
                    =~= done + Seq::new(port_count(servers@.take(t as int), port), |k: int| pair));
            }
            t = t + 1;
        }
        assert(servers@.take(servers@.len() as int) =~= servers@);
        assert(pt.take(j + 1).drop_last() =~= pt.take(j as int));
        assert(pt.take(j + 1).last() == pair);
        j = j + 1;
    }
    assert(pt.take(pairs@.len() as int) =~= pt);
    routes
}

/// The services of the converted configuration: one per distinct server port,
/// in the order the ports first occur, serving TLS when the first server on the
/// port does; each holds, for every path and method in order, one route per
/// server on its port, all forwarding to `upstream`. With no path and method
/// there is no service at all.
pub fn group_routes(
    servers: &Vec<(i32, bool)>,
    paths: &Vec<(String, Vec<String>)>,
    upstream: &str,
) -> (r: Vec<ServiceRoutes>)
    ensures
        method_pairs(paths@).len() == 0 ==> r@.len() == 0,
        method_pairs(paths@).len() > 0 ==> r@.len() == distinct_ports(servers@).len(),
        forall|i: int|
            0 <= i < r@.len() ==> (#[trigger] r@[i]).listen_port == distinct_ports(servers@)[i].0
                && r@[i].https == distinct_ports(servers@)[i].1 && routes_for(
                r@[i].routes@,
                repeated(method_pairs(paths@), port_count(servers@, distinct_ports(servers@)[i].0)),
                upstream@,
            ),
{
    let pairs = collect_pairs(paths);
    let mut services: Vec<ServiceRoutes> = Vec::new();
    if pairs.len() == 0 {
        return services;
    }
    let ports = collect_ports(servers);
    let mut i: usize = 0;
    while i < ports.len()
        invariant
            i <= ports@.len(),
            ports@ == distinct_ports(servers@),
            pair_texts(pairs@) == method_pairs(paths@),
            services@.len() == i,
            forall|q: int|
                0 <= q < i ==> (#[trigger] services@[q]).listen_port == ports@[q].0
                    && services@[q].https == ports@[q].1 && routes_for(
                    services@[q].routes@,
                    repeated(method_pairs(paths@), port_count(servers@, ports@[q].0)),
                    upstream@,
                ),
        decreases ports@.len() - i,
    {
        let (port, https) = ports[i];
        let routes = service_routes(servers, &pairs, port, upstream);
        services.push(ServiceRoutes { listen_port: port, https, routes });
        i = i + 1;
    }
    services
}

} // verus!
