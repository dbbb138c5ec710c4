use acheron::ini::{collect_properties, IniLine, INIParser};

fn prop(k: &str, v: &str) -> IniLine {
    IniLine::Property(k.to_string(), v.to_string())
}

#[test]
fn properties_filed_by_section() {
    let _parser = INIParser;
    let lines = vec![
        prop("top", "1"),
        IniLine::Section("a".to_string()),
        prop("x", "2"),
        prop("y", "3"),
        IniLine::Section("empty".to_string()),
        IniLine::Section("a".to_string()),
        prop("x", "4"),
        IniLine::EndOfInput,
    ];
    let props = collect_properties(&lines);
    assert_eq!(props.len(), 2);
    assert_eq!(props.get("").unwrap().get("top").unwrap(), "1");
    let a = props.get("a").unwrap();
    assert_eq!(a.len(), 2);
    assert_eq!(a.get("x").unwrap(), "4");
    assert_eq!(a.get("y").unwrap(), "3");
    assert!(props.get("empty").is_none());
}
