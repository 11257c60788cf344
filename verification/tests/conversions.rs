use spire::commands::{certificate_needs_renewal, format_yaml_error};
use spire::duration::{split_duration_str, trim_text, DurationUnit};
use spire::error::AppError;
use spire::headers::HeaderList;
use spire::matcher::{MatcherRule, PathMatchType};
use spire::middleware::check::Denial;
use spire::middleware::rate_limit::{default_time, LimitLocation, TimeUnit, TokenBucketRateLimit};
use spire::openapi::{group_routes, replace_params, route_matchers, server_urls};
use spire::routing::{
    error_response, extract_grpc_configs, proxy_action, websocket_upgrade_start, DestinationKind,
    ProxyAction, RouteGrpcSource, RouteOutcome, UpgradeStart,
};
use spire::text::replace_text;

#[test]
fn test_format_yaml_error() {
    let yaml = "invalid: yaml: content: [";
    let error = serde_yaml::from_str::<serde_yaml::Value>(yaml).unwrap_err();
    let formatted = format_yaml_error(
        &error.to_string(),
        error.location().map(|l| (l.line(), l.column())),
    );
    assert!(formatted.contains("line"));
}

#[test]
fn yaml_error_text_is_cleaned_and_located() {
    assert_eq!(
        format_yaml_error("EOF while parsing a value", Some((3, 7))),
        "unexpected end of file at line 3, column 7"
    );
    assert_eq!(format_yaml_error("EOF while parsing a value", None), "EOF while parsing a value");
}

#[test]
fn replace_text_replaces_every_occurrence() {
    assert_eq!(replace_text("aXbXXc", "X", "--"), "a--b----c");
    assert_eq!(replace_text("aaaa", "aa", "b"), "bb");
    assert_eq!(replace_text("abc", "zz", "y"), "abc");
}

#[test]
fn duration_texts_split_into_number_and_unit() {
    assert_eq!(split_duration_str("10s"), (DurationUnit::Seconds, "10".to_string()));
    assert_eq!(split_duration_str(" 1.5m \n"), (DurationUnit::Minutes, "1.5".to_string()));
    assert_eq!(split_duration_str("30"), (DurationUnit::Bare, "30".to_string()));
    assert_eq!(split_duration_str("100ms"), (DurationUnit::Millis, "100".to_string()));
    assert_eq!(split_duration_str("ms"), (DurationUnit::Millis, String::new()));
    assert_eq!(split_duration_str("   "), (DurationUnit::Bare, String::new()));
    assert_eq!(trim_text("\u{3000}\tx y\u{a0}"), "x y");
}

#[test]
fn grpc_configs_collect_grpc_endpoints_with_descriptors() {
    let routes = vec![
        RouteGrpcSource {
            endpoints: Some(vec!["http://a".to_string(), "GRPC://b:50051".to_string()]),
            proto_descriptor_set: Some("desc1".to_string()),
        },
        RouteGrpcSource {
            endpoints: Some(vec!["http://c".to_string()]),
            proto_descriptor_set: None,
        },
        RouteGrpcSource {
            endpoints: Some(vec!["grpc://d".to_string(), "grpc://e".to_string()]),
            proto_descriptor_set: Some("desc2".to_string()),
        },
    ];
    assert_eq!(
        extract_grpc_configs(&routes),
        Ok(vec![
            ("GRPC://b:50051".to_string(), "desc1".to_string()),
            ("grpc://d".to_string(), "desc2".to_string()),
            ("grpc://e".to_string(), "desc2".to_string()),
        ])
    );
}

#[test]
fn grpc_configs_errors_and_unlisted_routes() {
    let missing = vec![RouteGrpcSource {
        endpoints: Some(vec!["grpc://x".to_string()]),
        proto_descriptor_set: None,
    }];
    assert_eq!(
        extract_grpc_configs(&missing).unwrap_err().0,
        "Transcode config is required for gRPC routes but was not found."
    );
    let unlisted = vec![
        RouteGrpcSource {
            endpoints: Some(vec!["grpc://x".to_string()]),
            proto_descriptor_set: Some("d".to_string()),
        },
        RouteGrpcSource { endpoints: None, proto_descriptor_set: None },
    ];
    assert_eq!(extract_grpc_configs(&unlisted), Ok(vec![]));
}

#[test]
fn proxy_actions() {
    let plain = HeaderList::new();
    let refused = Denial { status: 401, headers: HeaderList::new(), body: "no".to_string() };
    match proxy_action(RouteOutcome::NotAllowed(refused), "GET", &plain, false) {
        Ok(ProxyAction::Respond(d)) => assert_eq!((d.status, d.body.as_str()), (401, "no")),
        other => panic!("unexpected {other:?}"),
    }
    match proxy_action(RouteOutcome::NoMatchFound, "GET", &plain, false) {
        Ok(ProxyAction::Respond(d)) => {
            assert_eq!((d.status, d.body.as_str()), (404, "Not Found"));
            assert!(d.headers.is_empty());
        }
        other => panic!("unexpected {other:?}"),
    }
    let http = |p: &str| RouteOutcome::Matched { kind: DestinationKind::Http, request_path: p.to_string() };
    match proxy_action(http("https://up/x"), "GET", &plain, false) {
        Ok(ProxyAction::Forward { request_path, https }) => {
            assert_eq!(request_path, "https://up/x");
            assert!(https);
        }
        other => panic!("unexpected {other:?}"),
    }
    let mut preflight = HeaderList::new();
    preflight.insert("Origin", b"http://o");
    preflight.insert("Access-Control-Request-Method", b"PUT");
    assert!(matches!(proxy_action(http("http://up"), "OPTIONS", &preflight, true), Ok(ProxyAction::Preflight)));
    assert!(matches!(
        proxy_action(http("http://up"), "OPTIONS", &preflight, false),
        Ok(ProxyAction::Forward { https: false, .. })
    ));
    let mut ws = HeaderList::new();
    ws.insert("Connection", b"Upgrade");
    ws.insert("Sec-WebSocket-Key", b"k");
    assert!(matches!(proxy_action(http("http://up"), "GET", &ws, false), Ok(ProxyAction::Upgrade)));
    let file = RouteOutcome::Matched { kind: DestinationKind::File, request_path: "/a.txt".to_string() };
    assert!(matches!(proxy_action(file, "GET", &plain, false), Ok(ProxyAction::ServeFile { .. })));
    let grpc = RouteOutcome::Matched { kind: DestinationKind::Grpc, request_path: "/pkg.Svc/Call".to_string() };
    match proxy_action(grpc, "POST", &plain, false) {
        Ok(ProxyAction::CallGrpc { service, method }) => {
            assert_eq!(service, "pkg.Svc");
            assert_eq!(method, "Call");
        }
        other => panic!("unexpected {other:?}"),
    }
    let bad_grpc = RouteOutcome::Matched { kind: DestinationKind::Grpc, request_path: "/x".to_string() };
    assert_eq!(proxy_action(bad_grpc, "POST", &plain, false).unwrap_err().0, "/x");
}

#[test]
fn error_response_is_json_with_status_500() {
    let d = error_response(&AppError("boom \"x\"".to_string()));
    assert_eq!(d.status, 500);
    assert!(d.headers.is_empty());
    assert_eq!(d.body, r#"{"response_code":-1,"response_object":"boom \"x\""}"#);
}

#[test]
fn error_response_escapes_control_characters() {
    let d = error_response(&AppError("a\\b\tc\nd\u{1}e\u{1f}\u{7f}é".to_string()));
    assert_eq!(d.body, "{\"response_code\":-1,\"response_object\":\"a\\\\b\\tc\\nd\\u0001e\\u001f\u{7f}é\"}");
}

#[test]
fn certificate_renewal_decision() {
    let day: i128 = 86_400_000_000_000;
    assert!(certificate_needs_renewal("", Some(100 * day), 0));
    assert!(certificate_needs_renewal("a.com", None, 0));
    assert!(certificate_needs_renewal("a.com", Some(10 * day), 0));
    assert!(!certificate_needs_renewal("a.com", Some(45 * day), 0));
    assert!(certificate_needs_renewal("a.com", Some(-day), 0));
}

#[test]
fn openapi_servers_and_matchers() {
    assert_eq!(server_urls(vec![]), vec!["http://127.0.0.1:8080".to_string()]);
    assert_eq!(
        server_urls(vec!["https://api.example.com:8443".to_string()]),
        vec!["https://api.example.com:8443".to_string()]
    );
    let m = route_matchers("/users/{id}", "GET").unwrap();
    assert_eq!(m.len(), 2);
    match &m[0] {
        MatcherRule::Path { value, match_type, regex } => {
            assert_eq!(value, "^/users/[^/]+$");
            assert_eq!(*match_type, PathMatchType::Regex);
            assert!(regex.is_none());
        }
        other => panic!("unexpected {other:?}"),
    }
    assert_eq!(m[1], MatcherRule::Method { values: vec!["GET".to_string()] });
    let exact = route_matchers("/test", "POST").unwrap();
    assert_eq!(
        exact[0],
        MatcherRule::Path { value: "/test".to_string(), match_type: PathMatchType::Exact, regex: None }
    );
    let two = route_matchers("/a/{x}/b/{y}", "GET").unwrap();
    assert!(matches!(&two[0], MatcherRule::Path { value, .. } if value == "^/a/[^/]+/b/[^/]+$"));
}

#[test]
fn token_bucket_default_reads_the_clock() {
    let tb = TokenBucketRateLimit::default();
    assert_eq!(tb.rate_per_unit, 0);
    assert_eq!(tb.capacity, 0);
    assert_eq!(tb.current_count, 0);
    assert_eq!(tb.unit, TimeUnit::MillionSecond);
    assert_eq!(tb.scope, LimitLocation::default());
    assert!(tb.last_update_time > 1_600_000_000_000_000_000);
    assert!(default_time() >= tb.last_update_time);
}

#[test]
fn websocket_upgrade_starts() {
    let plain = HeaderList::new();
    match websocket_upgrade_start(&plain, "http://up/ws") {
        UpgradeStart::Respond(d) => {
            assert_eq!(d.status, 400);
            assert!(d.body.is_empty());
        }
        other => panic!("unexpected {other:?}"),
    }
    let mut up = HeaderList::new();
    up.insert("Upgrade", b"websocket");
    assert!(matches!(websocket_upgrade_start(&up, "https://up/ws"), UpgradeStart::Forward { https: true }));
    assert!(matches!(websocket_upgrade_start(&up, "ws://https/x"), UpgradeStart::Forward { https: false }));
}

fn path_of(rule: &MatcherRule) -> (String, PathMatchType) {
    match rule {
        MatcherRule::Path { value, match_type, .. } => (value.clone(), *match_type),
        other => panic!("Expected Path matcher, got {other:?}"),
    }
}

fn methods_of(rule: &MatcherRule) -> Vec<String> {
    match rule {
        MatcherRule::Method { values } => values.clone(),
        _ => panic!("Expected Method matcher"),
    }
}

#[test]
fn test_handle_convert_command_no_servers() {
    let servers = server_urls(vec![]);
    let upstream = servers[0].clone();
    let paths = vec![
        ("/test".to_string(), vec!["GET".to_string()]),
        ("/users/{id}".to_string(), vec!["POST".to_string()]),
    ];
    let services = group_routes(&vec![(8080, false)], &paths, &upstream);
    assert_eq!(services.len(), 1);
    let service = &services[0];
    assert_eq!(service.listen_port, 8080);
    assert!(!service.https);
    assert_eq!(service.routes.len(), 2);

    let test_route = service
        .routes
        .iter()
        .find(|r| r.matchers.iter().any(|m| matches!(m, MatcherRule::Path { value, .. } if value == "/test")))
        .unwrap();
    assert_eq!(test_route.matchers.len(), 2);
    assert_eq!(path_of(&test_route.matchers[0]), ("/test".to_string(), PathMatchType::Exact));
    assert!(methods_of(&test_route.matchers[1]).contains(&"GET".to_string()));

    let user_route = service
        .routes
        .iter()
        .find(|r| r.matchers.iter().any(|m| matches!(m, MatcherRule::Path { value, .. } if value.contains("users"))))
        .unwrap();
    assert_eq!(user_route.matchers.len(), 2);
    assert_eq!(path_of(&user_route.matchers[0]), ("^/users/[^/]+$".to_string(), PathMatchType::Regex));
    assert!(methods_of(&user_route.matchers[1]).contains(&"POST".to_string()));
    assert_eq!(user_route.upstream, "http://127.0.0.1:8080".to_string());
}

#[test]
fn test_handle_convert_command_with_servers() {
    let servers = server_urls(vec![
        "https://api.example.com:8443".to_string(),
        "http://localhost:9000".to_string(),
    ]);
    let upstream = servers[0].clone();
    let paths = vec![("/status".to_string(), vec!["GET".to_string()])];
    let services = group_routes(&vec![(8443, true), (9000, false)], &paths, &upstream);
    assert_eq!(services.len(), 2);

    let https_service = services.iter().find(|s| s.listen_port == 8443).unwrap();
    assert!(https_service.https);
    assert_eq!(https_service.routes.len(), 1);
    let https_route = &https_service.routes[0];
    assert_eq!(https_route.matchers.len(), 2);
    assert_eq!(path_of(&https_route.matchers[0]), ("/status".to_string(), PathMatchType::Exact));
    assert_eq!(https_route.upstream, "https://api.example.com:8443");

    let http_service = services.iter().find(|s| s.listen_port == 9000).unwrap();
    assert!(!http_service.https);
    assert_eq!(http_service.routes.len(), 1);
    let http_route = &http_service.routes[0];
    assert_eq!(http_route.matchers.len(), 2);
    assert_eq!(path_of(&http_route.matchers[0]), ("/status".to_string(), PathMatchType::Exact));
    assert_eq!(http_route.upstream, "https://api.example.com:8443");
}

#[test]
fn convert_groups_servers_sharing_a_port() {
    // Two servers on one port: that service gets each route once per server,
    // and takes its scheme from the first of them.
    let paths = vec![
        ("/a".to_string(), vec!["GET".to_string(), "PUT".to_string()]),
        ("/b".to_string(), vec![]),
    ];
    let services = group_routes(&vec![(80, false), (443, true), (80, true)], &paths, "http://up");
    assert_eq!(services.len(), 2);
    assert_eq!((services[0].listen_port, services[0].https), (80, false));
    assert_eq!((services[1].listen_port, services[1].https), (443, true));
    assert_eq!(services[0].routes.len(), 4);
    assert_eq!(services[1].routes.len(), 2);
    let methods: Vec<Vec<String>> = services[0].routes.iter().map(|r| methods_of(&r.matchers[1])).collect();
    assert_eq!(
        methods,
        vec![
            vec!["GET".to_string()],
            vec!["GET".to_string()],
            vec!["PUT".to_string()],
            vec!["PUT".to_string()]
        ]
    );
    assert!(services[1].routes.iter().all(|r| r.upstream == "http://up"));
}

#[test]
fn convert_without_operations_has_no_services() {
    let paths = vec![("/a".to_string(), vec![])];
    assert!(group_routes(&vec![(80, false)], &paths, "http://up").is_empty());
    assert!(group_routes(&vec![(80, false)], &vec![], "http://up").is_empty());
}

#[test]
fn path_parameters_are_replaced() {
    assert_eq!(replace_params("/users/{id}"), "/users/[^/]+");
    assert_eq!(replace_params("/{a}/{b}"), "/[^/]+/[^/]+");
    assert_eq!(replace_params("/x/{}"), "/x/{}");
    assert_eq!(replace_params("{a{b}"), "{a[^/]+");
    assert_eq!(replace_params("/plain"), "/plain");
    assert_eq!(replace_params("/open{"), "/open{");
}
