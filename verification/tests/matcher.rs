use spire::headers::HeaderList;
use spire::matcher::{MatcherRule, PathMatchType};

#[test]
fn test_path_prefix_match_success() {
    let mut rule = MatcherRule::Path {
        value: "/api/v1".to_string(),
        match_type: PathMatchType::Prefix,
        regex: None,
    };
    let headers = HeaderList::new();
    assert!(rule.matches("GET", "/api/v1/users", &headers));
}

#[test]
fn test_path_prefix_match_failure() {
    let mut rule = MatcherRule::Path {
        value: "/api/v1".to_string(),
        match_type: PathMatchType::Prefix,
        regex: None,
    };
    let headers = HeaderList::new();
    assert!(!rule.matches("GET", "/app/v1/users", &headers));
}

#[test]
fn test_path_exact_match_success() {
    let mut rule = MatcherRule::Path {
        value: "/api/v1/users".to_string(),
        match_type: PathMatchType::Exact,
        regex: None,
    };
    let headers = HeaderList::new();
    assert!(rule.matches("GET", "/api/v1/users", &headers));
}

#[test]
fn test_path_exact_match_failure() {
    let mut rule = MatcherRule::Path {
        value: "/api/v1/users".to_string(),
        match_type: PathMatchType::Exact,
        regex: None,
    };
    let headers = HeaderList::new();
    assert!(!rule.matches("GET", "/api/v1/users/1", &headers));
}

#[test]
fn test_path_regex_match_success() {
    let mut rule = MatcherRule::Path {
        value: "^/users/\\d+$".to_string(),
        match_type: PathMatchType::Regex,
        regex: None,
    };
    let headers = HeaderList::new();
    assert!(rule.matches("GET", "/users/123", &headers));
}

#[test]
fn test_path_regex_match_failure() {
    let mut rule = MatcherRule::Path {
        value: "^/users/\\d+$".to_string(),
        match_type: PathMatchType::Regex,
        regex: None,
    };
    let headers = HeaderList::new();
    assert!(!rule.matches("GET", "/users/abc", &headers));
}

#[test]
fn test_path_regex_invalid_pattern() {
    let mut rule = MatcherRule::Path {
        value: "[".to_string(),
        match_type: PathMatchType::Regex,
        regex: None,
    };
    let headers = HeaderList::new();
    assert!(!rule.matches("GET", "/users/123", &headers));
}

#[test]
fn test_method_match_success() {
    let mut rule = MatcherRule::Method {
        values: vec!["GET".to_string(), "POST".to_string()],
    };
    let headers = HeaderList::new();
    assert!(rule.matches("GET", "/any/path", &headers));
}

#[test]
fn test_method_match_failure() {
    let mut rule = MatcherRule::Method {
        values: vec!["GET".to_string(), "POST".to_string()],
    };
    let headers = HeaderList::new();
    assert!(!rule.matches("PUT", "/any/path", &headers));
}

#[test]
fn test_host_match_success() {
    let mut rule = MatcherRule::Host {
        value: r"^(api|www)\.example\.com$".to_string(),
        regex: None,
    };
    let mut headers = HeaderList::new();
    headers.insert("host", b"api.example.com");
    assert!(rule.matches("GET", "/", &headers));
}

#[test]
fn test_host_match_failure() {
    let mut rule = MatcherRule::Host {
        value: r"^(api|www)\.example\.com$".to_string(),
        regex: None,
    };
    let mut headers = HeaderList::new();
    headers.insert("host", b"other.example.com");
    assert!(!rule.matches("GET", "/", &headers));
}

#[test]
fn test_host_match_header_missing() {
    let mut rule = MatcherRule::Host {
        value: r"^(api|www)\.example\.com$".to_string(),
        regex: None,
    };
    let headers = HeaderList::new();
    assert!(!rule.matches("GET", "/", &headers));
}

#[test]
fn test_host_match_invalid_regex() {
    let mut rule = MatcherRule::Host {
        value: "[invalid".to_string(),
        regex: None,
    };
    let mut headers = HeaderList::new();
    headers.insert("host", b"api.example.com");
    assert!(!rule.matches("GET", "/", &headers));
}

#[test]
fn test_header_match_success() {
    let mut rule = MatcherRule::Header {
        name: "x-request-id".to_string(),
        value: r"^token-\d+$".to_string(),
        regex: None,
    };
    let mut headers = HeaderList::new();
    headers.insert("x-request-id", b"token-12345");
    assert!(rule.matches("GET", "/", &headers));
}

#[test]
fn test_header_match_failure_value() {
    let mut rule = MatcherRule::Header {
        name: "x-request-id".to_string(),
        value: r"^token-\d+$".to_string(),
        regex: None,
    };
    let mut headers = HeaderList::new();
    headers.insert("x-request-id", b"invalid-token-format");
    assert!(!rule.matches("GET", "/", &headers));
}

#[test]
fn test_header_match_failure_missing() {
    let mut rule = MatcherRule::Header {
        name: "x-request-id".to_string(),
        value: r"^token-\d+$".to_string(),
        regex: None,
    };
    let headers = HeaderList::new();
    assert!(!rule.matches("GET", "/", &headers));
}

#[test]
fn test_header_match_invalid_regex() {
    let mut rule = MatcherRule::Header {
        name: "x-request-id".to_string(),
        value: "[invalid".to_string(),
        regex: None,
    };
    let mut headers = HeaderList::new();
    headers.insert("x-request-id", b"token-12345");
    assert!(!rule.matches("GET", "/", &headers));
}

#[test]
fn test_partialeq_path_equal() {
    let r1 = MatcherRule::Path {
        value: "/path".to_string(),
        match_type: PathMatchType::Prefix,
        regex: None,
    };
    let r2 = MatcherRule::Path {
        value: "/path".to_string(),
        match_type: PathMatchType::Prefix,
        regex: None,
    };
    assert_eq!(r1, r2);
}

#[test]
fn test_partialeq_path_not_equal() {
    let r1 = MatcherRule::Path {
        value: "/path".to_string(),
        match_type: PathMatchType::Prefix,
        regex: None,
    };
    let r2 = MatcherRule::Path {
        value: "/path".to_string(),
        match_type: PathMatchType::Exact,
        regex: None,
    };
    assert_ne!(r1, r2);
}

#[test]
fn test_partialeq_different_variants() {
    let r1 = MatcherRule::Path {
        value: "/path".to_string(),
        match_type: PathMatchType::Prefix,
        regex: None,
    };
    let r2 = MatcherRule::Host {
        value: "example.com".to_string(),
        regex: None,
    };
    assert_ne!(r1, r2);
}

#[test]
fn test_partialeq_ignores_cached_regex() {
    let mut r1 = MatcherRule::Path {
        value: "^/users/\\d+$".to_string(),
        match_type: PathMatchType::Regex,
        regex: None,
    };
    let r2 = MatcherRule::Path {
        value: "^/users/\\d+$".to_string(),
        match_type: PathMatchType::Regex,
        regex: None,
    };

    assert_eq!(r1, r2);

    let headers = HeaderList::new();
    r1.matches("GET", "/users/123", &headers);

    assert!(matches!(&r1, MatcherRule::Path { regex, .. } if regex.is_some()));
    assert!(matches!(&r2, MatcherRule::Path { regex, .. } if regex.is_none()));

    assert_eq!(r1, r2);
}

#[test]
fn host_is_looked_up_without_regard_to_case() {
    let mut rule = MatcherRule::Host { value: "^api$".to_string(), regex: None };
    let mut headers = HeaderList::new();
    headers.insert("HOST", b"api");
    assert!(rule.matches("GET", "/", &headers));
}

#[test]
fn compiled_expression_is_kept_and_reused() {
    let mut rule = MatcherRule::Header {
        name: "x".to_string(),
        value: "^a+$".to_string(),
        regex: None,
    };
    let mut headers = HeaderList::new();
    headers.insert("x", b"aaa");
    assert!(rule.matches("GET", "/", &headers));
    assert!(matches!(&rule, MatcherRule::Header { regex, .. } if regex.is_some()));
    headers.insert("x", b"ab");
    assert!(!rule.matches("GET", "/", &headers));
}

#[test]
fn invalid_pattern_leaves_cache_empty() {
    let mut rule = MatcherRule::Path {
        value: "(".to_string(),
        match_type: PathMatchType::Regex,
        regex: None,
    };
    assert!(!rule.matches("GET", "(", &HeaderList::new()));
    assert!(matches!(&rule, MatcherRule::Path { regex, .. } if regex.is_none()));
}

#[test]
fn method_rules_equal_as_sets() {
    let a = MatcherRule::Method { values: vec!["GET".to_string(), "POST".to_string()] };
    let b = MatcherRule::Method { values: vec!["POST".to_string(), "GET".to_string(), "GET".to_string()] };
    let c = MatcherRule::Method { values: vec!["GET".to_string()] };
    assert_eq!(a, b);
    assert_ne!(a, c);
    assert!(a.same_as(&b));
}

#[test]
fn path_match_type_default_is_prefix() {
    assert_eq!(PathMatchType::default(), PathMatchType::Prefix);
}
