use acheron::manual::{parse_key_value, parse_lb_server_block, parse_proxy_server_block, Config};

const SAMPLE: &str = r#"prometheus_addr = "0.0.0.0:9090"

[proxy]
listener = "0.0.0.0:8080"

default_configs = "some_default_value"

[["example.com"]]
proxy_addr = "/tmp/example.sock"
proxy_tls = false
proxy_headers = [["X-Example-Header", "value"]]
proxy_uds = true

[["another.com"]]
proxy_addr = "127.0.0.1:8001"
proxy_tls = true
proxy_headers = [["X-Another-Header", "another-value"]]
proxy_uds = false

[load_balancer]
listener = "0.0.0.0:7070"
upstreams = ["127.0.0.1:7000", "127.0.0.1:7001"]
health_check = true
health_check_frequency = 30
parallel_health_check = true

default_configs = "lb_default_value"

[["example.com"]]
load_balancer_tls = false
load_balancer_headers = [["X-LB-Example", "value"]]

[proxy]
listener = "0.0.0.0:9090"
tls_certificate = "cert.pem"
tls_certificate_key = "key.pem"

[["newproxy.com"]]
proxy_addr = "127.0.0.1:9001"
"#;

#[test]
fn sample_configuration() {
    let config = Config::from_str(SAMPLE).unwrap();
    assert_eq!(config.prometheus_addr.as_deref(), Some("\"0.0.0.0:9090\""));
    let proxies = config.proxy.unwrap();
    assert_eq!(proxies.len(), 2);
    assert_eq!(proxies[0].listener, "\"0.0.0.0:8080\"");
    assert_eq!(proxies[1].listener, "\"0.0.0.0:9090\"");
    assert_eq!(proxies[1].tls_certificate.as_deref(), Some("\"cert.pem\""));
    assert_eq!(proxies[1].tls_certificate_key.as_deref(), Some("\"key.pem\""));
    // `[["name"]]` lines add domains to the section they stand in.
    assert_eq!(proxies[0].servers.len(), 2);
    assert!(proxies[0].servers.contains_key("example.com"));
    assert!(proxies[0].servers.contains_key("another.com"));
    assert_eq!(proxies[1].servers.len(), 1);
    assert!(proxies[1].servers.contains_key("newproxy.com"));
    let lbs = config.load_balancer.unwrap();
    assert_eq!(lbs.len(), 1);
    assert_eq!(lbs[0].listener, "\"0.0.0.0:7070\"");
    assert_eq!(lbs[0].health_check, Some(true));
    assert_eq!(lbs[0].health_check_frequency, Some(30));
    assert_eq!(lbs[0].parallel_health_check, Some(true));
    assert_eq!(
        lbs[0].upstreams,
        vec!["127.0.0.1:7000".to_string(), "127.0.0.1:7001".to_string()]
    );
    assert_eq!(lbs[0].servers.len(), 1);
    assert!(lbs[0].servers.contains_key("example.com"));
}

#[test]
fn domain_block_inside_proxy_section() {
    let input = "[proxy]\nlistener = 0.0.0.0:8080\n[[\"example.com\"]]\nproxy_addr = 127.0.0.1:8001";
    let config = Config::from_str(input).unwrap();
    let proxies = config.proxy.unwrap();
    assert_eq!(proxies.len(), 1);
    assert_eq!(proxies[0].listener, "0.0.0.0:8080");
    assert!(proxies[0].servers.contains_key("example.com"));
}

#[test]
fn upstreams_one_entry_each() {
    let input = "[load_balancer]\nlistener = 0.0.0.0:9091\nupstreams = [\"192.168.1.4:8000\", \"192.168.1.5:8000\"]";
    let config = Config::from_str(input).unwrap();
    let lbs = config.load_balancer.unwrap();
    assert_eq!(lbs.len(), 1);
    assert_eq!(
        lbs[0].upstreams,
        vec!["192.168.1.4:8000".to_string(), "192.168.1.5:8000".to_string()]
    );
    let config = Config::from_str("[load_balancer]\nupstreams = []\n").unwrap();
    assert!(config.load_balancer.unwrap()[0].upstreams.is_empty());
    let config = Config::from_str("[load_balancer]\nupstreams = a\n").unwrap();
    assert_eq!(config.load_balancer.unwrap()[0].upstreams, vec!["a".to_string()]);
}

#[test]
fn many_comment_and_blank_lines_anywhere() {
    let a = Config::from_str("prometheus_addr = p\n[proxy]\nlistener = l\n[[\"d\"]]").unwrap();
    let b = Config::from_str("\n# top\n\nprometheus_addr = p\n#\n  \n[proxy]\n# x\n# y\nlistener = l\n[[\"d\"]]\n\n# end\n").unwrap();
    assert_eq!(a.prometheus_addr, b.prometheus_addr);
    let (pa, pb) = (a.proxy.unwrap(), b.proxy.unwrap());
    assert_eq!(pa.len(), pb.len());
    assert_eq!(pa[0].listener, pb[0].listener);
    assert_eq!(pa[0].servers.len(), pb[0].servers.len());
}

#[test]
fn comments_and_blank_lines_are_skipped() {
    let input = "# heading\n[proxy]\n  # listener = no\nlistener = yes\n\n";
    let config = Config::from_str(input).unwrap();
    let proxies = config.proxy.unwrap();
    assert_eq!(proxies.len(), 1);
    assert_eq!(proxies[0].listener, "yes");
}

#[test]
fn empty_input_gives_empty_lists() {
    let config = Config::from_str("").unwrap();
    assert_eq!(config.prometheus_addr, None);
    assert!(config.proxy.unwrap().is_empty());
    assert!(config.load_balancer.unwrap().is_empty());
}

#[test]
fn prometheus_only_before_sections() {
    let input = "[proxy]\nprometheus_addr = x\n";
    let config = Config::from_str(input).unwrap();
    assert_eq!(config.prometheus_addr, None);
    let input = "[other]\n[\"proxy\"]\nlistener=q\n";
    let config = Config::from_str(input).unwrap();
    assert_eq!(config.proxy.unwrap()[0].listener, "q");
}

#[test]
fn flags_are_true_only_for_true() {
    let input = "[load_balancer]\nhealth_check = yes\nparallel_health_check = \"true\"\nhealth_check_frequency = x\n";
    let config = Config::from_str(input).unwrap();
    let lb = &config.load_balancer.unwrap()[0];
    assert_eq!(lb.health_check, Some(false));
    assert_eq!(lb.parallel_health_check, Some(false));
    assert_eq!(lb.health_check_frequency, None);
}

#[test]
fn key_value_split_at_first_equals() {
    assert_eq!(
        parse_key_value("  a = b = c "),
        Some(("a".to_string(), "b = c".to_string()))
    );
    assert_eq!(parse_key_value("no equals"), None);
}

#[test]
fn server_block_lines() {
    let (d, h) = parse_proxy_server_block("[[\"example.com\"]]").unwrap();
    assert_eq!(d, "example.com");
    assert_eq!(h.proxy_addr, "");
    assert_eq!(h.proxy_uds, None);
    assert!(parse_proxy_server_block("[[example.com]]").is_none());
    let (d, h) = parse_lb_server_block("[[\"a.b\"]]").unwrap();
    assert_eq!(d, "a.b");
    assert!(!h.load_balancer_tls);
    assert!(parse_lb_server_block("[\"a.b\"]").is_none());
}
