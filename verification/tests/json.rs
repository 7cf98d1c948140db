use varo::json::{parse_json, Json};

#[test]
fn parse_reads_every_kind_of_value() {
    let tree = parse_json(r#"{"s":"t","b":true,"z":null,"n":-12,"f":1.5,"a":[1,"x"],"o":{}}"#)
        .unwrap();
    assert_eq!(tree.get("s"), Some(&Json::Text("t".to_string())));
    assert_eq!(tree.get("b"), Some(&Json::Bool(true)));
    assert_eq!(tree.get("z"), Some(&Json::Null));
    assert_eq!(tree.get("n"), Some(&Json::Number("-12".to_string())));
    assert_eq!(tree.get("f"), Some(&Json::Number("1.5".to_string())));
    assert_eq!(
        tree.get("a"),
        Some(&Json::Array(vec![Json::Number("1".to_string()), Json::Text("x".to_string())]))
    );
    assert_eq!(tree.get("o"), Some(&Json::Object(vec![])));
    assert_eq!(tree.get("missing"), None);
}

#[test]
fn parse_reports_malformed_text() {
    let err = parse_json("{\"a\": ").unwrap_err();
    assert_eq!(err, "EOF while parsing a value at line 1 column 6");
    assert!(parse_json("").is_err());
    assert!(parse_json("{} trailing").is_err());
}

#[test]
fn parse_keeps_the_last_of_two_equal_keys() {
    let tree = parse_json(r#"{"a":1,"a":2}"#).unwrap();
    assert_eq!(tree, Json::Object(vec![("a".to_string(), Json::Number("2".to_string()))]));
}

#[test]
fn accessors_tell_the_kinds_apart() {
    let tree = parse_json(r#"{"s":"t","b":false,"a":[null]}"#).unwrap();
    assert_eq!(tree.str_at("s"), Some("t".to_string()));
    assert_eq!(tree.str_at("b"), None);
    assert_eq!(tree.bool_at("b"), Some(false));
    assert_eq!(tree.bool_at("s"), None);
    assert_eq!(tree.get("a").unwrap().as_array().unwrap().len(), 1);
    assert!(tree.get("a").unwrap().as_array().unwrap()[0].is_null());
    assert!(tree.as_object().is_some());
    assert!(tree.as_array().is_none());
    assert!(tree.as_str().is_none());
    assert!(tree.as_bool().is_none());
    assert_eq!(Json::Text("x".to_string()).get("x"), None);
}

#[test]
fn duplicate_is_a_deep_copy() {
    let tree = parse_json(r#"{"a":[{"b":[1,2,{"c":"d"}]}],"e":null}"#).unwrap();
    assert_eq!(tree.duplicate(), tree);
    assert_eq!(tree.clone(), tree);
}
