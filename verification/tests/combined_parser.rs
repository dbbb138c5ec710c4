use acheron::combined_parser::{parse_combined_config, parse_headers};

const README_EXAMPLE: &str = r#"prometheus_addr = "127.0.0.1:9090"

[proxy]
listener = "0.0.0.0:8080"
tls_certificate = "cert.pem"
tls_certificate_key = "key.pem"

[[domain=example.com]]
proxy_addr = "192.168.1.1"
proxy_tls = true
proxy_headers = [["Authorization": "Bearer token"]]

[[[route=/api]]]
proxy_addr = "192.168.1.2"
proxy_tls = false

proxy_uds = true

[[domain="example.net"]]
proxy_addr = "127.0.0.1:9799"

[proxy]
listener = "0.0.0.0:443"

[[domain="example.com"]]
proxy_addr = "192.168.1.1"
proxy_tls = true
proxy_headers = [["Authorization": "Bearer token"]]

[[[route="/bpi"]]]
proxy_addr = "192.168.1.2"
proxy_tls = false

proxy_uds = true

[[domain=example.net]]
proxy_addr = "192.168.1.3"

[load_balancer]
listener = "0.0.0.0:9091"
upstreams = ["192.168.1.4:8000", "192.168.1.5:8000"]
tls_certificate = "lb_cert.pem"
tls_certificate_key = "lb_key.pem"
health_check = true
health_check_frequency = 30
parallel_health_check = true

[[domain=load-balancer.com]]
load_balancer_tls = true
load_balancer_headers = [["X-Custom-Header: CustomValue"], ["Accept: */*"]]
"#;

#[test]
fn readme_example_sections() {
    let (proxies, lbs) = parse_combined_config(README_EXAMPLE).unwrap();
    assert_eq!(proxies.len(), 2);
    assert_eq!(lbs.len(), 1);
    assert_eq!(proxies[0].listener, "0.0.0.0:8080");
    assert_eq!(proxies[0].tls_certificate.as_deref(), Some("cert.pem"));
    assert_eq!(proxies[0].tls_certificate_key.as_deref(), Some("key.pem"));
    assert_eq!(proxies[1].listener, "0.0.0.0:443");
    assert_eq!(proxies[1].tls_certificate, None);
}

#[test]
fn readme_example_domains() {
    let (proxies, lbs) = parse_combined_config(README_EXAMPLE).unwrap();
    let first = &proxies[0].servers;
    assert_eq!(first.len(), 2);
    let host = first.get("domain=example.com").unwrap();
    assert_eq!(host.proxy_addr, "192.168.1.1");
    assert!(host.proxy_tls);
    assert!(!host.proxy_uds);
    let headers = host.proxy_headers.as_ref().unwrap();
    assert_eq!(headers.len(), 1);
    assert_eq!(headers[0].0, "\"Authorization\"");
    assert_eq!(headers[0].1, "\"Bearer token\"");
    // The route block belongs to the domain above it, and the keys after
    // it to the route.
    assert_eq!(host.routes.len(), 1);
    let route = host.routes.get("route=/api").unwrap();
    assert_eq!(route.proxy_addr.as_deref(), Some("192.168.1.2"));
    assert!(!route.proxy_tls);
    assert!(route.proxy_uds);
    assert!(route.proxy_headers.is_none());
    // The last domain of a section is filed when the next section opens.
    let net = first.get("domain=\"example.net\"").unwrap();
    assert_eq!(net.proxy_addr, "127.0.0.1:9799");
    assert!(net.routes.is_empty());
    let second = &proxies[1].servers;
    assert_eq!(second.len(), 2);
    let com = second.get("domain=\"example.com\"").unwrap();
    assert!(com.routes.contains_key("route=\"/bpi\""));
    assert_eq!(
        second.get("domain=example.net").unwrap().proxy_addr,
        "192.168.1.3"
    );
    // The last domain of the input is filed when the input ends.
    assert_eq!(lbs[0].servers.len(), 1);
    let lb_host = lbs[0].servers.get("domain=load-balancer.com").unwrap();
    assert!(lb_host.load_balancer_tls);
    let lb_headers = lb_host.load_balancer_headers.as_ref().unwrap();
    assert_eq!(lb_headers.len(), 2);
    assert_eq!(lb_headers[0].0, "\"X-Custom-Header");
    assert_eq!(lb_headers[1].1, "*/*\"");
}

#[test]
fn lone_domain_block_is_filed() {
    let input = "[proxy]\nlistener = 0.0.0.0:8080\n[[example.com]]\nproxy_addr = 192.168.1.1:80\nproxy_tls = true";
    let (proxies, lbs) = parse_combined_config(input).unwrap();
    assert!(lbs.is_empty());
    assert_eq!(proxies.len(), 1);
    assert_eq!(proxies[0].listener, "0.0.0.0:8080");
    assert_eq!(proxies[0].servers.len(), 1);
    let host = proxies[0].servers.get("example.com").unwrap();
    assert_eq!(host.proxy_addr, "192.168.1.1:80");
    assert!(host.proxy_tls);
}

#[test]
fn route_blocks_nest_under_their_domain() {
    let input = "[proxy]\n[[a.com]]\nproxy_addr = x\n[[[/api]]]\nproxy_addr = y\n[[b.com]]";
    let (proxies, _) = parse_combined_config(input).unwrap();
    assert_eq!(proxies.len(), 1);
    let servers = &proxies[0].servers;
    assert_eq!(servers.len(), 2);
    assert!(servers.contains_key("b.com"));
    assert!(!servers.contains_key("/api"));
    let a = servers.get("a.com").unwrap();
    assert_eq!(a.proxy_addr, "x");
    assert_eq!(a.routes.len(), 1);
    assert_eq!(a.routes.get("/api").unwrap().proxy_addr.as_deref(), Some("y"));
    assert!(servers.get("b.com").unwrap().routes.is_empty());
}

#[test]
fn route_block_without_a_domain_takes_the_keys() {
    // In a proxy section the route opens and takes the keys after it,
    // though no domain is open to file it into.
    let input = "[proxy]\n[[[/api]]]\nlistener = a\n[load_balancer]\n[[[/x]]]\nlistener = b";
    let (proxies, lbs) = parse_combined_config(input).unwrap();
    assert_eq!(proxies[0].listener, "");
    assert!(proxies[0].servers.is_empty());
    // Outside a proxy section the line is ignored.
    assert_eq!(lbs[0].listener, "b");
    assert!(lbs[0].servers.is_empty());
    let input = "[proxy]\n[[[x]]]\nproxy_headers=[[y]]";
    assert_eq!(
        parse_combined_config(input).unwrap_err(),
        "Invalid header format: y"
    );
}

#[test]
fn last_domain_filed_when_other_section_opens() {
    let input = "[load_balancer]\n[[lb.com]]\nload_balancer_tls = true\n[proxy]\n[[p.com]]\n[load_balancer]\n";
    let (proxies, lbs) = parse_combined_config(input).unwrap();
    assert_eq!(lbs.len(), 2);
    assert!(lbs[0].servers.get("lb.com").unwrap().load_balancer_tls);
    assert!(lbs[1].servers.is_empty());
    assert!(proxies[0].servers.contains_key("p.com"));
}

#[test]
fn texts_joined_at_a_section_read_in_turn() {
    let s1 = "[proxy]\nlistener = a\n[[d1]]\nproxy_addr = x";
    let s2 = "\n[proxy]\nlistener = b\n[[d2]]\n";
    let joined = format!("{}\n{}", s1, s2);
    let (p1, l1) = parse_combined_config(s1).unwrap();
    let (p2, l2) = parse_combined_config(s2).unwrap();
    let (p, l) = parse_combined_config(&joined).unwrap();
    assert_eq!(p.len(), p1.len() + p2.len());
    assert_eq!(l.len(), l1.len() + l2.len());
    assert_eq!(p[0].listener, "a");
    assert_eq!(p[0].servers.get("d1").unwrap().proxy_addr, "x");
    assert_eq!(p[1].listener, "b");
    assert!(p[1].servers.contains_key("d2"));
    assert!(!p[1].servers.contains_key("d1"));
}

#[test]
fn lines_before_the_first_section_change_nothing() {
    let s = "[proxy]\nlistener = a\n[[d]]\nproxy_addr = y";
    let joined = format!("listener = z\n[[q]]\nproxy_addr = w\n[[[/r]]]\n{}", s);
    let (p, _) = parse_combined_config(s).unwrap();
    let (q, _) = parse_combined_config(&joined).unwrap();
    assert_eq!(p.len(), q.len());
    assert_eq!(q[0].listener, "a");
    assert_eq!(q[0].servers.len(), 1);
    assert_eq!(q[0].servers.get("d").unwrap().proxy_addr, "y");
}

#[test]
fn readme_example_load_balancer() {
    let (_, lbs) = parse_combined_config(README_EXAMPLE).unwrap();
    let lb = &lbs[0];
    assert_eq!(lb.listener, "0.0.0.0:9091");
    assert_eq!(
        lb.upstreams,
        vec![
            "[\"192.168.1.4:8000\"".to_string(),
            "\"192.168.1.5:8000\"]".to_string()
        ]
    );
    assert_eq!(lb.tls_certificate.as_deref(), Some("lb_cert.pem"));
    assert_eq!(lb.tls_certificate_key.as_deref(), Some("lb_key.pem"));
    assert_eq!(lb.health_check, Some(true));
    assert_eq!(lb.health_check_frequency, Some(30));
    // `true` is no number.
    assert_eq!(lb.parallel_health_check, None);
}

#[test]
fn malformed_header_fails() {
    let input = "[proxy]\n[[d]]\nproxy_headers = [[\"bad\"]]\n";
    let err = parse_combined_config(input).unwrap_err();
    assert_eq!(err, "Invalid header format: \"bad\"");
}

#[test]
fn empty_input_gives_nothing() {
    let (proxies, lbs) = parse_combined_config("").unwrap();
    assert!(proxies.is_empty());
    assert!(lbs.is_empty());
}

#[test]
fn one_section_per_header_line() {
    let input = "[proxy]\n  [proxy]  \n[load_balancer]\n[proxy]\n";
    let (proxies, lbs) = parse_combined_config(input).unwrap();
    assert_eq!(proxies.len(), 3);
    assert_eq!(lbs.len(), 1);
}

#[test]
fn blank_lines_change_nothing() {
    let a = "[proxy]\nlistener = a\n[[x]]\nproxy_addr = b\n[[y]]\n";
    let b = "[proxy]\n\n   \nlistener = a\n\n[[x]]\n\t\nproxy_addr = b\n[[y]]\n\n";
    let (pa, _) = parse_combined_config(a).unwrap();
    let (pb, _) = parse_combined_config(b).unwrap();
    assert_eq!(pa.len(), pb.len());
    assert_eq!(pa[0].listener, pb[0].listener);
    assert_eq!(
        pa[0].servers.get("x").unwrap().proxy_addr,
        pb[0].servers.get("x").unwrap().proxy_addr
    );
}

#[test]
fn numbers_read_as_str_parse() {
    let input = "[load_balancer]\nhealth_check_frequency = +30\nparallel_health_check = 18446744073709551616\n";
    let (_, lbs) = parse_combined_config(input).unwrap();
    assert_eq!(lbs[0].health_check_frequency, Some(30));
    assert_eq!(lbs[0].parallel_health_check, None);
    let input = "[load_balancer]\nhealth_check_frequency = 18446744073709551615\nparallel_health_check = 7\n";
    let (_, lbs) = parse_combined_config(input).unwrap();
    assert_eq!(lbs[0].health_check_frequency, Some(u64::MAX));
    assert_eq!(lbs[0].parallel_health_check, Some(7));
}

#[test]
fn keys_before_a_section_are_ignored() {
    let input = "listener = x\n[[d]]\nproxy_addr = y\n[proxy]\n";
    let (proxies, _) = parse_combined_config(input).unwrap();
    assert_eq!(proxies.len(), 1);
    assert_eq!(proxies[0].listener, "");
    assert!(proxies[0].servers.is_empty());
}

#[test]
fn later_key_overrides_earlier() {
    let input = "[proxy]\nlistener = a\nlistener = \"b\"\n";
    let (proxies, _) = parse_combined_config(input).unwrap();
    assert_eq!(proxies[0].listener, "b");
}

#[test]
fn headers_split_at_commas_and_first_colon() {
    let hs = parse_headers("[[A: 1, B : x:y]]").unwrap();
    assert_eq!(
        hs,
        vec![
            ("A".to_string(), "1".to_string()),
            ("B".to_string(), "x:y".to_string())
        ]
    );
    assert_eq!(
        parse_headers("[[]]").unwrap_err(),
        "Invalid header format: "
    );
    assert_eq!(
        parse_headers("[[a:b, c]]").unwrap_err(),
        "Invalid header format: c"
    );
}
