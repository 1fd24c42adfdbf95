use remote_executor::json::value::{json_of, parse_json, pretty_text, value_of};
use remote_executor::json::{Json, Number};

#[test]
fn values_are_shown_over_several_lines() {
    let value = Json::Object(vec![
        ("b".to_string(), Json::Array(vec![Json::Bool(true), Json::Null])),
        ("a".to_string(), Json::Number(Number::Unsigned(1))),
        ("a".to_string(), Json::Number(Number::Negative(-2))),
        ("c".to_string(), Json::Number(Number::Other("1.5".to_string()))),
        ("d".to_string(), Json::Text("x\"y".to_string())),
    ]);
    assert_eq!(
        pretty_text(&value),
        "{\n  \"a\": -2,\n  \"b\": [\n    true,\n    null\n  ],\n  \"c\": 1.5,\n  \"d\": \"x\\\"y\"\n}"
    );
    assert_eq!(pretty_text(&Json::Number(Number::Other("no number".to_string()))), "null");
    assert_eq!(pretty_text(&Json::Number(Number::Negative(7))), "7");
}

#[test]
fn values_are_read_from_bytes() {
    let value = parse_json(b" {\"n\": 3, \"m\": -4, \"f\": 2.5, \"l\": [null, \"t\"]} ").unwrap();
    assert_eq!(value.get("n").unwrap().as_u64(), Some(3));
    assert!(matches!(value.get("m"), Some(Json::Number(Number::Negative(-4)))));
    match value.get("f") {
        Some(Json::Number(Number::Other(text))) => assert_eq!(text, "2.5"),
        _ => panic!("expected a number that is written out"),
    }
    match value.get("l") {
        Some(Json::Array(items)) => {
            assert_eq!(items.len(), 2);
            assert!(matches!(items[0], Json::Null));
            assert!(matches!(&items[1], Json::Text(t) if t == "t"));
        }
        _ => panic!("expected a list"),
    }
    assert!(parse_json(b"{").is_err());
    assert!(parse_json(&[0xff]).is_err());
}

#[test]
fn what_was_read_is_shown_and_read_again() {
    let text = "{\n  \"a\": [\n    1,\n    -1,\n    0.25\n  ],\n  \"b\": {}\n}";
    let value = parse_json(text.as_bytes()).unwrap();
    assert_eq!(pretty_text(&value), text);
    let again = json_of(value_of(&value));
    assert_eq!(pretty_text(&again), text);
}
