use acheron::load_balancer::{parse_headers, parse_load_balancer_config};

#[test]
fn sample_load_balancer() {
    let input = r#"
[load_balancer]
upstreams = "127.0.0.1:8080,127.0.0.1:8081"
health_check = true
health_check_frequency = 30
parallel_health_check = 5
tls_certificate = "path/to/lb-cert.pem"
tls_certificate_key = "path/to/lb-key.pem"

"#;
    let configs = parse_load_balancer_config(input).unwrap();
    assert_eq!(configs.len(), 1);
    let lb = &configs[0];
    assert_eq!(lb.listener, "");
    assert_eq!(
        lb.upstreams,
        vec!["127.0.0.1:8080".to_string(), "127.0.0.1:8081".to_string()]
    );
    assert_eq!(lb.health_check, Some(true));
    assert_eq!(lb.health_check_frequency, Some(30));
    // `5` is no boolean.
    assert_eq!(lb.parallel_health_check, None);
    assert_eq!(lb.tls_certificate.as_deref(), Some("path/to/lb-cert.pem"));
    assert_eq!(lb.tls_certificate_key.as_deref(), Some("path/to/lb-key.pem"));
    assert!(lb.servers.is_empty());
}

#[test]
fn last_domain_is_filed() {
    let input = "[load_balancer]\nlistener = l\n[[a.com]]\nload_balancer_tls = true\n[[b.com]]\nload_balancer_headers = [[X: 1]]\n";
    let configs = parse_load_balancer_config(input).unwrap();
    let servers = &configs[0].servers;
    assert_eq!(servers.len(), 2);
    assert!(servers.get("a.com").unwrap().load_balancer_tls);
    let b = servers.get("b.com").unwrap();
    assert!(!b.load_balancer_tls);
    assert_eq!(
        b.load_balancer_headers,
        Some(vec![("X".to_string(), "1".to_string())])
    );
}

#[test]
fn sections_in_order() {
    let input = "[load_balancer]\nlistener = a\nparallel_health_check = false\n[load_balancer]\nlistener = b\n";
    let configs = parse_load_balancer_config(input).unwrap();
    assert_eq!(configs.len(), 2);
    assert_eq!(configs[0].listener, "a");
    assert_eq!(configs[0].parallel_health_check, Some(false));
    assert_eq!(configs[1].listener, "b");
}

#[test]
fn lb_malformed_header_fails() {
    let input = "[load_balancer]\n[[a]]\nload_balancer_headers = [[nocolon]]\n";
    assert_eq!(
        parse_load_balancer_config(input).unwrap_err(),
        "Invalid header format: nocolon"
    );
    assert!(parse_headers("[[k: v]]").is_ok());
}

#[test]
fn lb_blank_lines_change_nothing() {
    let a = parse_load_balancer_config("[load_balancer]\nlistener = a\n").unwrap();
    let b = parse_load_balancer_config("\n[load_balancer]\n  \n\nlistener = a\n\n").unwrap();
    assert_eq!(a.len(), b.len());
    assert_eq!(a[0].listener, b[0].listener);
}

#[test]
fn last_domain_filed_when_next_section_opens() {
    let input = "[load_balancer]\n[[a.com]]\nload_balancer_tls = true\n[load_balancer]\n[[b.com]]\n";
    let configs = parse_load_balancer_config(input).unwrap();
    assert_eq!(configs.len(), 2);
    assert_eq!(configs[0].servers.len(), 1);
    assert!(configs[0].servers.get("a.com").unwrap().load_balancer_tls);
    assert_eq!(configs[1].servers.len(), 1);
    assert!(configs[1].servers.contains_key("b.com"));
}

#[test]
fn lines_before_first_section_change_nothing() {
    let s = "\n[load_balancer]\nlistener = a\n[[d]]\n";
    let joined = format!("listener = z\n[[q]]\nload_balancer_tls = true\n{}", s);
    let a = parse_load_balancer_config(s).unwrap();
    let b = parse_load_balancer_config(&joined).unwrap();
    assert_eq!(a.len(), b.len());
    assert_eq!(b[0].listener, "a");
    assert_eq!(b[0].servers.len(), 1);
    assert!(b[0].servers.contains_key("d"));
}
