use acheron::sections::{collect_proxy_configs, Record, SectionItem};

fn kv(k: &str, v: &str) -> SectionItem {
    SectionItem::KeyValue(k.to_string(), v.to_string())
}

#[test]
fn sections_need_a_listener() {
    let records = vec![
        Record::ProxySection(vec![kv("tls_certificate", "c1")]),
        Record::Other,
        Record::ProxySection(vec![kv("listener", "127.0.0.1:8080"), SectionItem::DomainSection]),
        Record::ProxySection(vec![
            kv("listener", "127.0.0.1:8081"),
            kv("tls_certificate_key", "k"),
            kv("unknown", "x"),
            SectionItem::Other,
        ]),
    ];
    let configs = collect_proxy_configs(&records);
    assert_eq!(configs.len(), 2);
    // The first record had no listener: its keys flow into the next.
    assert_eq!(configs[0].listener, "127.0.0.1:8080");
    assert_eq!(configs[0].tls_certificate.as_deref(), Some("c1"));
    assert_eq!(configs[1].listener, "127.0.0.1:8081");
    assert_eq!(configs[1].tls_certificate, None);
    assert_eq!(configs[1].tls_certificate_key.as_deref(), Some("k"));
}

#[test]
fn no_listener_no_section() {
    let records = vec![Record::ProxySection(vec![kv("tls_certificate", "c")])];
    assert!(collect_proxy_configs(&records).is_empty());
    assert!(collect_proxy_configs(&vec![]).is_empty());
}
