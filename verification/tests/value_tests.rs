use json_tree::parse_json;
use json_tree::JsonValue;

#[test]
fn test_typed_accessors() {
    let v = JsonValue::String("hi".to_string());
    assert_eq!(v.get_string().unwrap().as_str(), "hi");
    assert!(v.get_object().is_none());
    assert!(v.get_array().is_none());
    assert!(v.get_number().is_none());
    assert!(v.get_bool().is_none());
    assert!(!v.is_null());

    let v = JsonValue::Number("2.5".to_string());
    assert_eq!(v.get_number().unwrap().as_str(), "2.5");
    assert!(v.get_string().is_none());

    let v = JsonValue::Bool(true);
    assert_eq!(v.get_bool(), Some(true));

    let v = JsonValue::Null;
    assert!(v.is_null());
    assert!(v.get_bool().is_none());
}

#[test]
fn test_get_first_match_wins() {
    let v = JsonValue::Object(vec![
        ("k".to_string(), JsonValue::Number("1".to_string())),
        ("k".to_string(), JsonValue::Number("2".to_string())),
    ]);
    assert_eq!(*v.get("k").unwrap(), JsonValue::Number("1".to_string()));
    assert!(v.get("missing").is_none());

    let not_object = JsonValue::Array(vec![]);
    assert!(not_object.get("k").is_none());
}

#[test]
fn test_get_mut_replaces_in_place() {
    let mut v = parse_json("{\"a\":1,\"b\":2}").unwrap();
    {
        let slot = v.get_mut("b").unwrap();
        assert_eq!(*slot, JsonValue::Number("2".to_string()));
        *slot = JsonValue::Bool(false);
    }
    let expected = JsonValue::Object(vec![
        ("a".to_string(), JsonValue::Number("1".to_string())),
        ("b".to_string(), JsonValue::Bool(false)),
    ]);
    assert_eq!(v, expected);

    assert!(v.get_mut("missing").is_none());
    assert_eq!(v, expected);

    let mut not_object = JsonValue::Null;
    assert!(not_object.get_mut("a").is_none());
}

#[test]
fn test_round_trip_document() {
    // a serialized document in standard syntax parses back to the same tree
    let tree = JsonValue::Object(vec![
        ("s".to_string(), JsonValue::String("a\"b\\c\nd".to_string())),
        ("n".to_string(), JsonValue::Number("-12.5e3".to_string())),
        (
            "l".to_string(),
            JsonValue::Array(vec![
                JsonValue::Bool(true),
                JsonValue::Bool(false),
                JsonValue::Null,
                JsonValue::Object(vec![]),
                JsonValue::Array(vec![]),
            ]),
        ),
    ]);
    let text = "{\"s\":\"a\\\"b\\\\c\\nd\",\"n\":-12.5e3,\"l\":[true,false,null,{},[]]}";
    assert_eq!(parse_json(text).unwrap(), tree);
}

#[test]
fn test_empty_composites() {
    assert_eq!(parse_json("{}").unwrap(), JsonValue::Object(vec![]));
    assert_eq!(parse_json("[]").unwrap(), JsonValue::Array(vec![]));
    assert_eq!(parse_json("{ }").unwrap(), JsonValue::Object(vec![]));
    assert_eq!(parse_json("[ ]").unwrap(), JsonValue::Array(vec![]));
}
