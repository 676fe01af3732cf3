use json_tree::parse_json;
use json_tree::JsonError;
use json_tree::JsonValue;

#[test]
fn test_parse_object() {
    let json = r#"{"name":"Alice中文","age":30}"#;
    let result = parse_json(json).unwrap();
    let expected = JsonValue::Object(vec![
        ("name".to_string(), JsonValue::String("Alice中文".to_string())),
        ("age".to_string(), JsonValue::Number("30".to_string())),
    ]);
    assert_eq!(result, expected);
}

#[test]
fn test_parse_array() {
    let json = r#"[1, 2, 3, 4]"#;
    let result = parse_json(json).unwrap();
    let expected = JsonValue::Array(vec![
        JsonValue::Number("1".to_string()),
        JsonValue::Number("2".to_string()),
        JsonValue::Number("3".to_string()),
        JsonValue::Number("4".to_string()),
    ]);
    assert_eq!(result, expected);
}

#[test]
fn test_parse_string() {
    let json = r#""Hello, world!""#;
    let result = parse_json(json).unwrap();
    let expected = JsonValue::String("Hello, world!".to_string());
    assert_eq!(result, expected);
}

#[test]
fn test_parse_bool() {
    let json = r#"true"#;
    let result = parse_json(json).unwrap();
    let expected = JsonValue::Bool(true);
    assert_eq!(result, expected);

    let json = r#"false"#;
    let result = parse_json(json).unwrap();
    let expected = JsonValue::Bool(false);
    assert_eq!(result, expected);
}

#[test]
fn test_parse_null() {
    let json = r#"null"#;
    let result = parse_json(json).unwrap();
    let expected = JsonValue::Null;
    assert_eq!(result, expected);
}

#[test]
fn test_parse_number() {
    let json = r#"12345"#;
    let result = parse_json(json).unwrap();
    let expected = JsonValue::Number("12345".to_string());
    assert_eq!(result, expected);
    assert_eq!(result.get_number().unwrap().parse::<f64>().unwrap(), 12345.0);

    let json = r#"-123.45"#;
    let result = parse_json(json).unwrap();
    let expected = JsonValue::Number("-123.45".to_string());
    assert_eq!(result, expected);
    assert_eq!(result.get_number().unwrap().parse::<f64>().unwrap(), -123.45);
}

#[test]
fn test_parse_complex() {
    let json = r#"[{"name":"Alice中文","age":30},true,false,null,123,"test"]"#;
    let result = parse_json(json).unwrap();
    let expected = JsonValue::Array(vec![
        JsonValue::Object(vec![
            ("name".to_string(), JsonValue::String("Alice中文".to_string())),
            ("age".to_string(), JsonValue::Number("30".to_string())),
        ]),
        JsonValue::Bool(true),
        JsonValue::Bool(false),
        JsonValue::Null,
        JsonValue::Number("123".to_string()),
        JsonValue::String("test".to_string()),
    ]);
    assert_eq!(result, expected);
}

#[test]
fn test_long_complex() {
    let json = r#"{
    location: {
        id: "WT3Q0FW9ZJ3Q",
        name: "武汉",
        country: "CN",
        path: "武汉,武汉,湖北,中国",
        timezone: "Asia/Shanghai",
        timezone_offset: "+08:00"
    },
    daily: [
        {
            date: "2024-05-31",
            text_day: "晴",
            code_day: "0",
            text_night: "晴",
            code_night: "1",
            high: "26",
            low: "18",
            rainfall: "0.00",
            precip: "0.00",
            wind_direction: "无持续风向",
            wind_direction_degree: "",
            wind_speed: "8.4",
            wind_scale: "2",
            humidity: "81"
        },
        {
            date: "2024-05-31",
            text_day: "晴",
            code_day: "0",
            text_night: "晴",
            code_night: "1",
            high: "26",
            low: "18",
            rainfall: "0.00",
            precip: "0.00",
            wind_direction: "无持续风向",
            wind_direction_degree: "",
            wind_speed: "8.4",
            wind_scale: "2",
            humidity: "81"
        },
        {
            date: "2024-05-31",
            text_day: "晴",
            code_day: "0",
            text_night: "晴",
            code_night: "1",
            high: "26",
            low: "18",
            rainfall: "0.00",
            precip: "0.00",
            wind_direction: "无持续风向",
            wind_direction_degree: "",
            wind_speed: "8.4",
            wind_scale: "2",
            humidity: "81"
        }
    ]
}
"#;

    let mut is_object = false;
    match parse_json(json) {
        Ok(result) => {
            assert_eq!(3, result.get("daily").unwrap().get_array().unwrap().len());

            assert_eq!(6, result.get("location").unwrap().get_object().unwrap().len());

            if let JsonValue::Object(result) = result {
                is_object = true;
                for member in result {
                    if member.0 == "location".to_string() {
                        let expected = vec![
                            ("id".to_string(), JsonValue::String("WT3Q0FW9ZJ3Q".to_string())),
                            ("name".to_string(), JsonValue::String("武汉".to_string())),
                            ("country".to_string(), JsonValue::String("CN".to_string())),
                            ("path".to_string(), JsonValue::String("武汉,武汉,湖北,中国".to_string())),
                            ("timezone".to_string(), JsonValue::String("Asia/Shanghai".to_string())),
                            ("timezone_offset".to_string(), JsonValue::String("+08:00".to_string())),
                        ];
                        assert_eq!(*member.1.get_object().unwrap(), expected);
                    }

                    if member.0 == "daily".to_string() {
                        assert_eq!(3, member.1.get_array().unwrap().len());
                    }
                }
            }
        }
        Err(_e) => {}
    }
    assert_eq!(is_object, true);
}

#[test]
fn test_unquoted_key() {
    let result = parse_json("{a: 1}").unwrap();
    let expected = JsonValue::Object(vec![("a".to_string(), JsonValue::Number("1".to_string()))]);
    assert_eq!(result, expected);
}

#[test]
fn test_empty_input_unexpected_end() {
    assert!(matches!(parse_json(""), Err(JsonError::UnexpectedEnd)));
}

#[test]
fn test_missing_value_after_colon() {
    // the dispatcher sends `}` to the number production, whose empty
    // literal fails the numeric conversion
    assert!(matches!(parse_json("{\"a\":}"), Err(JsonError::InvalidNumber)));
}

#[test]
fn test_trailing_input_ignored() {
    let result = parse_json("truefoo").unwrap();
    assert_eq!(result, JsonValue::Bool(true));

    let result = parse_json("123abc").unwrap();
    assert_eq!(result, JsonValue::Number("123".to_string()));
}

#[test]
fn test_number_forms() {
    let result = parse_json("-123.45").unwrap();
    assert_eq!(result, JsonValue::Number("-123.45".to_string()));
    assert_eq!(result.get_number().unwrap().parse::<f64>().unwrap(), -123.45);

    let result = parse_json("1e10").unwrap();
    assert_eq!(result, JsonValue::Number("1e10".to_string()));
    assert_eq!(result.get_number().unwrap().parse::<f64>().unwrap(), 1e10);
}

#[test]
fn test_escapes() {
    let result = parse_json("\"a\\nb\"").unwrap();
    assert_eq!(result, JsonValue::String("a\nb".to_string()));

    assert!(matches!(parse_json("\"\\q\""), Err(JsonError::UnexpectedToken)));
}

#[test]
fn test_all_escape_codes() {
    let result = parse_json("\"\\\"\\\\\\/\\b\\f\\n\\r\\t\"").unwrap();
    assert_eq!(result, JsonValue::String("\"\\/\u{8}\u{c}\n\r\t".to_string()));
}

#[test]
fn test_backslash_at_end() {
    assert!(matches!(parse_json("\"ab\\"), Err(JsonError::UnexpectedEnd)));
}

#[test]
fn test_unterminated_string_keeps_accumulated() {
    let result = parse_json("\"abc").unwrap();
    assert_eq!(result, JsonValue::String("abc".to_string()));
}

#[test]
fn test_invalid_numbers() {
    assert!(matches!(parse_json("--1"), Err(JsonError::InvalidNumber)));
    assert!(matches!(parse_json("1e"), Err(JsonError::InvalidNumber)));
    assert!(matches!(parse_json("."), Err(JsonError::InvalidNumber)));
}

#[test]
fn test_short_literals() {
    assert!(matches!(parse_json("n"), Err(JsonError::UnexpectedToken)));
    assert!(matches!(parse_json("tru"), Err(JsonError::UnexpectedToken)));
    assert!(matches!(parse_json("fals"), Err(JsonError::UnexpectedToken)));
    assert!(matches!(parse_json("falsx"), Err(JsonError::UnexpectedToken)));
}

#[test]
fn test_missing_separator() {
    assert!(matches!(parse_json("{\"a\" 1}"), Err(JsonError::UnexpectedToken)));
    assert!(matches!(parse_json("[1 2]"), Err(JsonError::UnexpectedToken)));
    assert!(matches!(parse_json("{\"a\":1;}"), Err(JsonError::UnexpectedToken)));
}

#[test]
fn test_whitespace_between_tokens() {
    let result = parse_json("[ 1 , 2 ]").unwrap();
    let expected = JsonValue::Array(vec![
        JsonValue::Number("1".to_string()),
        JsonValue::Number("2".to_string()),
    ]);
    assert_eq!(result, expected);

    let result = parse_json("{ \"a\" : true }").unwrap();
    let expected = JsonValue::Object(vec![("a".to_string(), JsonValue::Bool(true))]);
    assert_eq!(result, expected);
}

#[test]
fn test_accessor_scenario() {
    let result = parse_json("{\"daily\":[{},{},{}],\"location\":{\"id\":\"X\"}}").unwrap();
    assert_eq!(result.get("daily").unwrap().get_array().unwrap().len(), 3);
    assert_eq!(result.get("location").unwrap().get_object().unwrap().len(), 1);
}

#[test]
fn test_deep_nesting() {
    let depth = 1000;
    let mut text = String::new();
    for _ in 0..depth {
        text.push('[');
    }
    for _ in 0..depth {
        text.push(']');
    }
    let root = parse_json(&text).unwrap();
    let mut cur: &JsonValue = &root;
    let mut levels = 0;
    loop {
        let arr = cur.get_array().expect("every level is an array");
        if arr.is_empty() {
            break;
        }
        assert_eq!(arr.len(), 1);
        cur = &arr[0];
        levels += 1;
    }
    assert_eq!(levels, depth - 1);
}

#[test]
fn test_deep_mixed_nesting() {
    let depth = 500;
    let mut text = String::new();
    for _ in 0..depth {
        text.push_str("{\"a\":[");
    }
    text.push_str("null");
    for _ in 0..depth {
        text.push_str("]}");
    }
    let root = parse_json(&text).unwrap();
    let mut cur: &JsonValue = &root;
    for _ in 0..depth {
        let inner = cur.get("a").expect("member a is present");
        let arr = inner.get_array().expect("member a is an array");
        assert_eq!(arr.len(), 1);
        cur = &arr[0];
    }
    assert!(cur.is_null());
}
