use gomqlet::json::Json;
use gomqlet::json_path::{JsonNest, JsonPathError, JsonPathResult, JsonPathRoot};

#[test]
fn json_path_test_empty() {
    let root = JsonPathRoot::from("$").unwrap();
    assert_eq!(0, root.nest.len());
}

#[test]
fn test_key() {
    let root = JsonPathRoot::from("$.foo").unwrap();
    assert_eq!(1, root.nest.len());
    assert_eq!(JsonNest::Key("foo".to_string()), root.nest[0]);
}

#[test]
fn test_index() {
    let root = JsonPathRoot::from("$[2]").unwrap();
    assert_eq!(1, root.nest.len());
    assert_eq!(JsonNest::Index(2), root.nest[0]);
}

#[test]
fn test_complex() {
    let root = JsonPathRoot::from("$.foo.bar[0][1].baz").unwrap();
    assert_eq!(5, root.nest.len());
    assert_eq!(JsonNest::Key("foo".to_string()), root.nest[0]);
    assert_eq!(JsonNest::Key("bar".to_string()), root.nest[1]);
    assert_eq!(JsonNest::Index(0), root.nest[2]);
    assert_eq!(JsonNest::Index(1), root.nest[3]);
    assert_eq!(JsonNest::Key("baz".to_string()), root.nest[4]);
}

#[test]
fn extract_empty() {
    let root = JsonPathRoot::from("$").unwrap();
    let json = Json::parse("12").unwrap();
    let result = root.extract(&json).unwrap();

    assert_eq!(JsonPathResult::Integer(12), result);
}

#[test]
fn extract_deep() {
    let root = JsonPathRoot::from("$.foo.bar[2][0].baz").unwrap();
    let json = Json::parse(
        r#"
                {
                    "foo": {
                        "bar": [
                            [],
                            [],
                            [
                                {
                                    "baz": 42,
                                    "bum": -1
                                }
                            ]
                        ]
                    }
                }
            "#,
    )
    .unwrap();
    let result = root.extract(&json).unwrap();

    assert_eq!(JsonPathResult::Integer(42), result);
}

#[test]
fn extract_string() {
    let root = JsonPathRoot::from("$.data.foo.bar[0].baz").unwrap();
    let json = Json::parse(r#"{"data": {"foo": {"bar": [{"baz": "hello"}]}}}"#).unwrap();
    assert_eq!(Ok(JsonPathResult::String("hello".to_string())), root.extract(&json));
}

#[test]
fn path_errors() {
    assert_eq!(Err(JsonPathError::MissingRoot), JsonPathRoot::from(""));
    assert_eq!(Err(JsonPathError::MissingRoot), JsonPathRoot::from(".foo"));
    assert_eq!(Err(JsonPathError::NullKey { pos: 0 }), JsonPathRoot::from("$."));
    assert_eq!(Err(JsonPathError::NullKey { pos: 4 }), JsonPathRoot::from("$.foo.[1]"));
    assert_eq!(Err(JsonPathError::NullKey { pos: 0 }), JsonPathRoot::from("$.1"));
    assert_eq!(Err(JsonPathError::NullIndex { pos: 0 }), JsonPathRoot::from("$[]"));
    assert_eq!(
        Err(JsonPathError::UnexpectedEndOfIndex { pos: 4 }),
        JsonPathRoot::from("$.foo[12")
    );
    assert_eq!(Err(JsonPathError::InvalidIndex { pos: 0 }), JsonPathRoot::from("$[a]"));
    assert_eq!(Err(JsonPathError::InvalidIndex { pos: 0 }), JsonPathRoot::from("$[-1]"));
    assert_eq!(
        Err(JsonPathError::InvalidIndex { pos: 0 }),
        JsonPathRoot::from("$[99999999999999999999999999]")
    );
    assert_eq!(Err(JsonPathError::UnexpectedChar { pos: 0 }), JsonPathRoot::from("$foo"));
    assert_eq!(Err(JsonPathError::UnexpectedChar { pos: 4 }), JsonPathRoot::from("$.foo_bar"));
    assert_eq!(Err(JsonPathError::UnexpectedChar { pos: 2 }), JsonPathRoot::from("$.xé"));
    assert_eq!(
        Ok(vec![JsonNest::Index(7)]),
        JsonPathRoot::parse_value("[007]")
    );
}

#[test]
fn walk_errors() {
    let json = Json::parse(r#"{"a": [1, "x", 2.5, null, true, {"b": {}}]}"#).unwrap();
    let extract = |path: &str| JsonPathRoot::from(path).unwrap().extract(&json);
    assert_eq!(Ok(JsonPathResult::Integer(1)), extract("$.a[0]"));
    assert_eq!(Ok(JsonPathResult::String("x".into())), extract("$.a[1]"));
    assert_eq!(Err(JsonPathError::UnexpectedValueType), extract("$.a[2]"));
    assert_eq!(Err(JsonPathError::UnexpectedValueType), extract("$.a[3]"));
    assert_eq!(Err(JsonPathError::UnexpectedValueType), extract("$.a[4]"));
    assert_eq!(Err(JsonPathError::UnexpectedValueType), extract("$.a"));
    assert_eq!(Err(JsonPathError::UnexpectedValueType), extract("$"));
    assert_eq!(Err(JsonPathError::MissingIndex { step: 1 }), extract("$.a[6]"));
    assert_eq!(Err(JsonPathError::MissingKey { step: 0 }), extract("$.c"));
    assert_eq!(Err(JsonPathError::ExpectedObject { step: 1 }), extract("$.a.b"));
    assert_eq!(Err(JsonPathError::ExpectedList { step: 0 }), extract("$[0]"));
    assert_eq!(Err(JsonPathError::ExpectedList { step: 3 }), extract("$.a[5].b[0]"));
    let path = JsonPathRoot::from("$.a[5].b").unwrap();
    assert_eq!(
        Ok(&Json::Object(vec![])),
        JsonPathRoot::walk_nesting(&json, &path.nest)
    );
}

#[test]
fn json_values() {
    assert_eq!(None, Json::parse("{"));
    assert_eq!(None, Json::parse(""));
    assert_eq!(Some(Json::Null), Json::parse("null"));
    assert_eq!(Some(Json::Bool(true)), Json::parse(" true "));
    assert_eq!(Some(Json::Integer(-7)), Json::parse("-7"));
    assert_eq!(Some(Json::Integer(i64::MAX)), Json::parse("9223372036854775807"));
    assert_eq!(
        Some(Json::Number("9223372036854775808".into())),
        Json::parse("9223372036854775808")
    );
    assert_eq!(Some(Json::Number("1.5".into())), Json::parse("1.5"));
    assert_eq!(Some(Json::String("a\"b".into())), Json::parse(r#""a\"b""#));
    let value = Json::parse(r#"{"b": [1, {"c": "d"}], "a": null}"#).unwrap();
    assert_eq!(Some(&Json::Null), value.get("a"));
    assert_eq!(None, value.get("c"));
    assert_eq!(None, value.as_str());
    assert_eq!(None, value.as_array().map(|a| a.len()));
    assert_eq!(Some(2), value.get_array("b").map(|a| a.len()));
    assert_eq!(None, value.get_array("a").map(|a| a.len()));
    assert_eq!(None, value.get_str("b"));
    let inner = &value.get_array("b").unwrap()[1];
    assert_eq!(Some(&"d".to_string()), inner.get_str("c"));
    assert_eq!(Some(1), value.get_array("b").unwrap()[0].as_i64());
    assert_eq!(None, inner.as_i64());
    assert_eq!(Json::Integer(3), Json::number(Some(3), "3".into()));
    assert_eq!(Json::Number("3e2".into()), Json::number(None, "3e2".into()));
}
