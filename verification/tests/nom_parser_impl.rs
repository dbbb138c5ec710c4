use acheron::nom_parser_impl::{
    parse_config, parse_lb_main_config, parse_prometheus_addr, parse_proxy_config,
};

#[test]
fn test_parse_prometheus_addr() {
    let input = "prometheus_addr = 127.0.0.1:9090";
    let (rest, addr) = parse_prometheus_addr(input).unwrap();
    assert_eq!(addr, "127.0.0.1:9090");
    assert!(rest.trim().is_empty());
}

#[test]
fn test_parse_proxy_config() {
    let input = r#"
        [proxy]
        listener = 0.0.0.0:8080
        tls_certificate = /path/to/cert
        tls_certificate_key = /path/to/key
        [[domain = example.com]]
        proxy_addr = 192.168.1.1:80
        proxy_tls = true
        proxy_headers = [[["Content-Type" : "application/json"]]]
        "#;
    let (rest, proxy_cfg) = parse_proxy_config(input).unwrap();
    assert_eq!(proxy_cfg.listener, "0.0.0.0:8080");
    assert_eq!(
        proxy_cfg.tls_certificate.unwrap(),
        "/path/to/cert".to_string()
    );
    assert_eq!(
        proxy_cfg.tls_certificate_key.unwrap(),
        "/path/to/key".to_string()
    );
    // Check that domain exists in servers
    let host_cfg = proxy_cfg.servers.get("example.com").unwrap();
    assert_eq!(host_cfg.proxy_addr, "192.168.1.1:80");
    assert_eq!(host_cfg.proxy_tls, true);
    // Check proxy_headers if exist
    assert!(host_cfg.proxy_headers.is_some());
    let headers = host_cfg.proxy_headers.as_ref().unwrap();
    assert_eq!(headers.len(), 1);
    assert_eq!(headers[0].0, "Content-Type");
    assert_eq!(headers[0].1, "application/json");
    // Ensure all input was consumed or valid remaining whitespace.
    assert!(rest.trim().is_empty());
}

#[test]
fn test_parse_lb_main_config() {
    let input = r#"
        [load_balancer]
        listener = 0.0.0.0:9090
        upstreams = [backend1, backend2]
        tls_certificate = /path/to/lb/cert
        tls_certificate_key = /path/to/lb/key
        health_check = true
        health_check_frequency = 30
        parallel_health_check = false
        [[domain = lb.example.com]]
        load_balancer_tls = true
        load_balancer_headers = [[["X-Forwarded-Proto" : "https"]]]
        "#;
    let (rest, lb_cfg) = parse_lb_main_config(input).unwrap();
    assert_eq!(lb_cfg.listener, "0.0.0.0:9090");
    assert_eq!(
        lb_cfg.upstreams,
        vec!["backend1".to_string(), "backend2".to_string()]
    );
    assert_eq!(
        lb_cfg.tls_certificate.unwrap(),
        "/path/to/lb/cert".to_string()
    );
    assert_eq!(
        lb_cfg.tls_certificate_key.unwrap(),
        "/path/to/lb/key".to_string()
    );
    assert_eq!(lb_cfg.health_check, Some(true));
    assert_eq!(lb_cfg.health_check_frequency, Some(30));
    assert_eq!(lb_cfg.parallel_health_check, Some(false));
    let host_cfg = lb_cfg.servers.get("lb.example.com").unwrap();
    assert_eq!(host_cfg.load_balancer_tls, true);
    let headers = host_cfg.load_balancer_headers.as_ref().unwrap();
    assert_eq!(headers.len(), 1);
    assert_eq!(headers[0].0, "X-Forwarded-Proto");
    assert_eq!(headers[0].1, "https");
    assert!(rest.trim().is_empty());
}

#[test]
fn test_parse_config_combined() {
    let input = r#"
        prometheus_addr = 127.0.0.1:9090

        [proxy]
        listener = 0.0.0.0:8080
        tls_certificate = /path/to/cert
        tls_certificate_key = /path/to/key
        [[domain = example.com]]
        proxy_addr = 192.168.1.1:80
        proxy_tls = false

        [load_balancer]
        listener = 0.0.0.0:9090
        upstreams = [backend1, backend2]
        health_check = true
        health_check_frequency = 60
        [[domain = lb.example.com]]
        load_balancer_tls = false
        "#;
    let (rest, cfg) = parse_config(input).unwrap();
    assert_eq!(cfg.prometheus_addr.unwrap(), "127.0.0.1:9090".to_string());
    // Check proxy config exists
    let proxy_cfgs = cfg.proxy.unwrap();
    assert_eq!(proxy_cfgs.len(), 1);
    let proxy_cfg = &proxy_cfgs[0];
    assert_eq!(proxy_cfg.listener, "0.0.0.0:8080");
    let host_cfg = proxy_cfg.servers.get("example.com").unwrap();
    assert_eq!(host_cfg.proxy_addr, "192.168.1.1:80");
    assert_eq!(host_cfg.proxy_tls, false);
    // Check load balancer config exists
    let lb_cfgs = cfg.load_balancer.unwrap();
    assert_eq!(lb_cfgs.len(), 1);
    let lb_cfg = &lb_cfgs[0];
    assert_eq!(lb_cfg.listener, "0.0.0.0:9090");
    assert_eq!(
        lb_cfg.upstreams,
        vec!["backend1".to_string(), "backend2".to_string()]
    );
    assert_eq!(lb_cfg.health_check, Some(true));
    assert_eq!(lb_cfg.health_check_frequency, Some(60));
    let lb_host = lb_cfg.servers.get("lb.example.com").unwrap();
    assert_eq!(lb_host.load_balancer_tls, false);
    assert!(rest.trim().is_empty());
}
