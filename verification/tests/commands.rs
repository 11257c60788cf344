use spire::commands::{
    control_plane_url, example_line, example_list, find_example_file, query_url, reload_url,
    renewal_due,
};

fn example_listing() -> Vec<String> {
    example_list().into_iter().map(|(n, _)| format!("{}.yaml", n)).collect()
}

#[test]
fn test_query_url_format() {
    let port: u16 = 8081;
    let host = "127.0.0.1".to_string();
    let expected = "http://127.0.0.1:8081/appConfig";
    let actual = query_url(&host, port);
    assert_eq!(actual, expected);
}

#[test]
fn test_reload_url_format() {
    let port: u16 = 8081;
    let host = "127.0.0.1".to_string();
    let expected = "http://127.0.0.1:8081/reload";
    let actual = reload_url(&host, port);
    assert_eq!(actual, expected);
}

#[test]
fn control_plane_url_joins_host_port_and_endpoint() {
    assert_eq!(control_plane_url("localhost", 0, "/x"), "http://localhost:0/x");
    assert_eq!(control_plane_url("h", 65535, ""), "http://h:65535");
}

#[test]
fn test_find_example_file_exact_match() {
    let result = find_example_file("app_config_simple", &example_listing());
    assert!(result.is_ok());
    let path = result.unwrap();
    assert!(path.contains("app_config_simple.yaml"));
}

#[test]
fn test_find_example_file_with_suffix() {
    let result = find_example_file("forward_ip", &example_listing());
    assert!(result.is_ok());
    let path = result.unwrap();
    assert!(path.contains("forward_ip_examples.yaml"));
}

#[test]
fn test_find_example_file_partial_match() {
    let result = find_example_file("weight", &example_listing());
    assert!(result.is_ok());
    let path = result.unwrap();
    assert!(path.contains("http_weight_route.yaml"));
}

#[test]
fn test_find_example_file_not_found() {
    let result = find_example_file("nonexistent_example", &example_listing());
    assert!(result.is_err());
}

#[test]
fn example_paths_and_not_found_message() {
    assert_eq!(
        find_example_file("app_config_simple", &example_listing()),
        Ok("config/examples/app_config_simple.yaml".to_string())
    );
    assert_eq!(
        find_example_file("nope", &example_listing()),
        Err("Example 'nope' not found. Use --list to see available examples.".to_string())
    );
}

#[test]
fn partial_match_takes_first_listed_file() {
    let files = vec!["b_route.yaml".to_string(), "a_route.yaml".to_string()];
    assert_eq!(
        find_example_file("route", &files),
        Ok("config/examples/b_route.yaml".to_string())
    );
}

#[test]
fn exact_match_wins_over_suffix_and_partial() {
    let files = vec![
        "x_examples.yaml".to_string(),
        "xx.yaml".to_string(),
        "x.yaml".to_string(),
    ];
    assert_eq!(find_example_file("x", &files), Ok("config/examples/x.yaml".to_string()));
}

#[test]
fn renewal_is_due_within_thirty_days_or_after_expiry() {
    let day: i128 = 86_400_000_000_000;
    assert!(renewal_due(10 * day, 5 * day));
    assert!(renewal_due(0, 29 * day));
    assert!(!renewal_due(0, 30 * day));
    assert!(renewal_due(day, 31 * day - 1));
    assert!(!renewal_due(0, 100 * day));
}

#[test]
fn example_table() {
    let list = example_list();
    assert_eq!(list.len(), 21);
    assert_eq!(list[0].0, "app_config_simple");
    assert_eq!(list[20].0, "forward_ip_examples");
    assert_eq!(
        example_line(1, "app_config_simple", "Minimal"),
        format!("{:<5} {:<35} {}", 1, "app_config_simple", "Minimal")
    );
    let long = "x".repeat(40);
    assert_eq!(example_line(123456, &long, "d"), format!("{:<5} {:<35} {}", 123456, long, "d"));
}
