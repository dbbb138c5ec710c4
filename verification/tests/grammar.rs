use acheron::nom_parser_impl::{parse_config, parse_lb_main_config, parse_proxy_config};
use acheron::structures::general::Config;

#[test]
fn domain_gets_one_route_filed_by_address() {
    let input = "[proxy]\nlistener = l\n[[host = h.com]]\nproxy_uds = true\n";
    let (rest, cfg) = parse_proxy_config(input).unwrap();
    assert_eq!(rest, "\n");
    let host = cfg.servers.get("h.com").unwrap();
    assert_eq!(host.proxy_uds, Some(true));
    let routes = host.routes.as_ref().unwrap();
    assert_eq!(routes.len(), 1);
    let route = routes.get("default").unwrap();
    assert_eq!(route.proxy_addr, None);
    assert_eq!(route.proxy_tls, None);

    let input = "[proxy]\nlistener = l\n[[ip = 10.0.0.1]]\n[[[path = /x]]]\nproxy_addr = up:1\nproxy_tls = false\n";
    let (_, cfg) = parse_proxy_config(input).unwrap();
    let host = cfg.servers.get("10.0.0.1").unwrap();
    assert_eq!(host.proxy_addr, "");
    let route = host.routes.as_ref().unwrap().get("up:1").unwrap();
    assert_eq!(route.proxy_tls, Some(false));
}

#[test]
fn proxy_needs_section_and_listener() {
    assert!(parse_proxy_config("[proxy]\ntls_certificate = c\n").is_err());
    assert!(parse_proxy_config("[load_balancer]\nlistener = l\n").is_err());
    // An incomplete certificate pair is not read.
    let (rest, cfg) = parse_proxy_config("[proxy] listener = l tls_certificate = c").unwrap();
    assert_eq!(cfg.listener, "l tls_certificate ");
    assert_eq!(rest, "= c");
}

#[test]
fn overflowing_frequency_is_not_read() {
    let input = "[load_balancer]\nlistener = l\nhealth_check_frequency = 18446744073709551616\n";
    let (rest, cfg) = parse_lb_main_config(input).unwrap();
    assert_eq!(cfg.health_check_frequency, None);
    assert_eq!(rest, "\nhealth_check_frequency = 18446744073709551616\n");
    assert_eq!(cfg.parallel_health_check, None);
    assert!(cfg.upstreams.is_empty());
}

#[test]
fn config_stops_at_unknown_text() {
    let (rest, cfg) = parse_config("  \n[proxy]\nlistener = a\n  junk\n[proxy]\nlistener = b").unwrap();
    assert_eq!(rest, "junk\n[proxy]\nlistener = b");
    assert_eq!(cfg.prometheus_addr, None);
    assert_eq!(cfg.proxy.unwrap().len(), 1);
    assert!(cfg.load_balancer.is_none());
    let (rest, cfg) = parse_config("").unwrap();
    assert_eq!(rest, "");
    assert!(cfg.proxy.is_none());
}

#[test]
fn empty_vector_and_headers() {
    let input = "[load_balancer]\nlistener = l\nupstreams = [ ]\n[[domain = d]]\n[[ ]]\n";
    let (rest, cfg) = parse_lb_main_config(input).unwrap();
    // A space is a value character.
    assert_eq!(cfg.upstreams, vec![" ".to_string()]);
    let host = cfg.servers.get("d").unwrap();
    assert_eq!(host.load_balancer_headers, Some(vec![]));
    assert_eq!(rest, "\n");
}

#[test]
fn general_config_default_is_empty() {
    let c = Config::default();
    assert!(c.prometheus_addr.is_none() && c.proxy.is_none() && c.load_balancer.is_none());
}
