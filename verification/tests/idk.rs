use acheron::idk::{
    parse_config, parse_config_checked, parse_key_value, parse_section_header, parse_server_header,
};

#[test]
fn key_value_reads_to_comma_or_newline() {
    let (rest, (k, v)) = parse_key_value("key_1 =  some value , rest").unwrap();
    assert_eq!(k, "key_1");
    assert_eq!(v, "some value");
    assert_eq!(rest, ", rest");
    let (rest, (k, v)) = parse_key_value("a=b\nc").unwrap();
    assert_eq!((k.as_str(), v.as_str(), rest), ("a", "b", "\nc"));
}

#[test]
fn key_value_keys_are_alphanumeric() {
    let (_, (k, v)) = parse_key_value("\u{e9}t\u{e9} = 1").unwrap();
    assert_eq!(k, "\u{e9}t\u{e9}");
    assert_eq!(v, "1");
    assert!(parse_key_value("a-b = 1").is_err());
    assert!(parse_key_value("= 1").is_err());
    // Whitespace after `=` may hold newlines.
    let (_, (k, v)) = parse_key_value("a =\n1").unwrap();
    assert_eq!((k.as_str(), v.as_str()), ("a", "1"));
}

#[test]
fn section_headers() {
    assert_eq!(parse_section_header("[proxy]rest").unwrap(), ("rest", "proxy".to_string()));
    assert_eq!(
        parse_section_header("[load_balancer]").unwrap(),
        ("", "load_balancer".to_string())
    );
    assert!(parse_section_header("[a-b]").is_err());
    assert!(parse_section_header("[]").is_err());
    assert!(parse_section_header(" [a]").is_err());
}

#[test]
fn server_headers() {
    assert_eq!(
        parse_server_header("[[\"x.com\"]] tail").unwrap(),
        (" tail", "x.com".to_string())
    );
    assert!(parse_server_header("[[\"\"]]").is_err());
    assert!(parse_server_header("[[x.com]]").is_err());
}

#[test]
fn config_reads_the_prometheus_line() {
    let (rest, config) = parse_config("prometheus_addr=  0.0.0.0:9090\n\nrest").unwrap();
    assert_eq!(rest, "rest");
    assert_eq!(config.prometheus_addr.as_deref(), Some("0.0.0.0:9090"));
    assert!(config.proxy.unwrap().is_empty());
    assert!(config.load_balancer.unwrap().is_empty());
    let (rest, config) = parse_config("prometheus_addr = x").unwrap();
    assert_eq!(rest, "prometheus_addr = x");
    assert_eq!(config.prometheus_addr, None);
}

#[test]
fn config_checked_refuses_sections() {
    assert!(parse_config_checked("[proxy]\nlistener = x\n").is_none());
    assert!(parse_config_checked("prometheus_addr=a\n[proxy]").is_none());
    let (rest, config) = parse_config_checked("prometheus_addr=a\nlistener").unwrap();
    assert_eq!(rest, "listener");
    assert_eq!(config.prometheus_addr.as_deref(), Some("a"));
}
