use spire::listener::{listener_plan, triggers_reload, FsEventKind, ListenerPlan, ServiceType};

#[test]
fn plain_listeners_need_no_domains() {
    assert_eq!(listener_plan(ServiceType::Http, 8080, None).unwrap(), ListenerPlan::Http { port: 8080 });
    assert_eq!(listener_plan(ServiceType::Tcp, 9000, None).unwrap(), ListenerPlan::Tcp { port: 9000 });
    assert_eq!(listener_plan(ServiceType::Http2, 50051, None).unwrap(), ListenerPlan::Grpc { port: 50051 });
}

#[test]
fn tls_listeners_take_the_domains() {
    let domains = vec!["example.com".to_string(), "www.example.com".to_string()];
    assert_eq!(
        listener_plan(ServiceType::Https, 443, Some(&domains)).unwrap(),
        ListenerPlan::Https { port: 443, domains: domains.clone() }
    );
    assert_eq!(
        listener_plan(ServiceType::Http2Tls, 8443, Some(&vec![])).unwrap(),
        ListenerPlan::GrpcTls { port: 8443, domains: vec![] }
    );
}

#[test]
fn tls_listeners_without_configuration_fail() {
    assert_eq!(
        listener_plan(ServiceType::Https, 443, None).unwrap_err().0,
        "Missing 'domains' configuration for HTTPS service on port 443"
    );
    assert_eq!(
        listener_plan(ServiceType::Http2Tls, -1, None).unwrap_err().0,
        "Missing 'domains' configuration for HTTPS service on port -1"
    );
}

#[test]
fn certificate_changes_trigger_a_reload() {
    let cert = "/home/u/.spire/domains/a.com/cert.pem";
    let key = "/home/u/.spire/domains/a.com/key.pem";
    let paths = vec!["/tmp/other".to_string(), key.to_string()];
    assert!(triggers_reload(FsEventKind::Modify, &paths, cert, key));
    assert!(triggers_reload(FsEventKind::Create, &vec![cert.to_string()], cert, key));
    assert!(!triggers_reload(FsEventKind::Remove, &paths, cert, key));
    assert!(!triggers_reload(FsEventKind::Access, &paths, cert, key));
    assert!(!triggers_reload(FsEventKind::Modify, &vec!["/tmp/other".to_string()], cert, key));
    assert!(!triggers_reload(FsEventKind::Modify, &vec![], cert, key));
}
