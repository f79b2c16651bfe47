use ingot::filters::parse_filters;

#[test]
fn canonical_shape() {
    let m = parse_filters(&Some(r#"{"status":["running"],"label":["a=b"]}"#.into()));
    assert_eq!(*m.get("status").unwrap(), vec!["running".to_string()]);
    assert_eq!(*m.get("label").unwrap(), vec!["a=b".to_string()]);
}

#[test]
fn degenerate_inputs_degrade_to_empty() {
    for raw in [
        None,
        Some("".to_string()),
        Some("not json".to_string()),
        Some("[1,2]".to_string()),
        Some("\"str\"".to_string()),
        Some("42".to_string()),
        Some("null".to_string()),
    ] {
        assert!(parse_filters(&raw).entries.is_empty(), "{raw:?}");
    }
}

#[test]
fn non_string_values_filtered() {
    let m = parse_filters(&Some(r#"{"a":[1,true,null,"x"],"b":"solo","c":{}}"#.into()));
    assert_eq!(*m.get("a").unwrap(), vec!["x".to_string()]);
    assert_eq!(*m.get("b").unwrap(), vec!["solo".to_string()]);
    assert!(m.get("c").unwrap().is_empty());
}

#[test]
fn keys_with_slashes_and_tildes_are_found() {
    let m = parse_filters(&Some(r#"{"a/b~c":["x"]}"#.into()));
    assert_eq!(*m.get("a/b~c").unwrap(), vec!["x".to_string()]);
}
