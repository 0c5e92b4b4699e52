use gomqlet::json::Json;
use gomqlet::json_path::{JsonPathError, JsonPathResult, JsonPathRoot};
use gomqlet::magic::{
    check_spans, escape_quotes, insertable_snippet_from_json_path_result, operation_of_file,
    query_replacement, quote, request_body, response_replacement, variable_replacement,
    MagicError, MagicExpander, MagicStep,
};
use gomqlet::magic_command::MagicCommandError;
use gomqlet::util::{integer_between, letters, random_integer, random_string, random_word, word_at};

fn expand(text: &str, variables: Option<Json>) -> Result<String, MagicError> {
    let mut expander = MagicExpander::new(text, variables)?;
    loop {
        let step = expander.next();
        match step {
            MagicStep::Finished(text) => return Ok(text),
            MagicStep::Failed(e) => return Err(e),
            MagicStep::Replaced => {}
            MagicStep::ReadFile { path } => {
                assert_eq!("/tmp/q.gql", path);
                let step = expander.file_read("{\n  foo {\n    bar { baz }\n  }\n}\n");
                assert_eq!(
                    MagicStep::Execute { operation: "{  foo {    bar { baz }  }}".into() },
                    step
                );
                let response = r#"{"data": {"foo": {"bar": [{"baz": "hello", "n": -3}]}}}"#;
                match expander.executed(response) {
                    MagicStep::Replaced => {}
                    MagicStep::Failed(e) => return Err(e),
                    other => panic!("unexpected step {:?}", other),
                }
            }
            MagicStep::ReadWords => {
                match expander.words_read(&vec!["alpha".to_string()]) {
                    MagicStep::Replaced => {}
                    other => panic!("unexpected step {:?}", other),
                }
            }
            MagicStep::Execute { .. } => panic!("nothing was read"),
        }
    }
}

#[test]
fn random_integer_magic_value() {
    for _ in 0..200 {
        let text = expand("<random_integer::0::10>", None).unwrap();
        let value: i32 = text.parse().unwrap();
        assert!((0..10).contains(&value));
    }
    for _ in 0..200 {
        let text = expand("a(b: <random_integer::-3::-1>)", None).unwrap();
        assert!(text == "a(b: -3)" || text == "a(b: -2)", "{}", text);
    }
    assert_eq!(Err(MagicError::EmptyRange), expand("<random_integer::3::3>", None));
    assert_eq!(Err(MagicError::EmptyRange), expand("<random_integer::4::3>", None));
}

#[test]
fn query_magic_value() {
    assert_eq!(
        Ok("x: \\\"hello\\\"".to_string()),
        expand("x: <query::/tmp/q.gql::$.data.foo.bar[0].baz>", None)
    );
    assert_eq!(
        Ok("x: -3, y".to_string()),
        expand("x: <query::/tmp/q.gql::$.data.foo.bar[0].n>, y", None)
    );
    assert_eq!(
        Err(MagicError::Path(JsonPathError::MissingKey { step: 1 })),
        expand("<query::/tmp/q.gql::$.data.nope>", None)
    );
    assert_eq!(
        Err(MagicError::Path(JsonPathError::MissingRoot)),
        expand("<query::/tmp/q.gql::data>", None)
    );
}

#[test]
fn magic_values_are_replaced_from_the_right() {
    let variables = Json::parse(r#"{"user": {"id": 42, "name": "Ann"}, "list": [1]}"#);
    let text = expand(
        "createUser(id: <variable::$.user.id>, name: <variable::$.user.name>, w: <random_word>) <",
        variables,
    )
    .unwrap();
    assert_eq!("createUser(id: 42, name: \\\"Ann\\\", w: \\\"alpha\\\") <", text);
    assert_eq!(Ok("no magic > here <".to_string()), expand("no magic > here <", None));
    assert_eq!(Ok("".to_string()), expand("", None));
    assert_eq!(Ok("<>".to_string()), expand("<>", None));
    assert_eq!(Ok("é42é".to_string()), expand("é<variable::$>é", Json::parse("42")));
}

#[test]
fn random_string_magic_value() {
    let text = expand("n: <random_string::12>", None).unwrap();
    assert_eq!(4 + 12 + 3, text.len());
    assert!(text.starts_with("n: \\\""));
    assert!(text.ends_with("\\\""));
    assert!(text[5..17].chars().all(|c| c.is_ascii_lowercase()));
    assert_eq!(Ok("\\\"\\\"".to_string()), expand("<random_string::0>", None));
}

#[test]
fn expansion_errors() {
    assert_eq!(
        Err(MagicError::Command(MagicCommandError::UnknownCommand)),
        expand("a <b> c", None)
    );
    assert_eq!(
        Err(MagicError::Command(MagicCommandError::UnknownCommand)),
        expand("<random_word> <b>", None)
    );
    assert_eq!(
        Err(MagicError::Command(MagicCommandError::InvalidLength)),
        expand("<random_string::x>", None)
    );
    assert_eq!(Err(MagicError::NoVariables), expand("<variable::$.a>", None));
    assert_eq!(
        Err(MagicError::Path(JsonPathError::ExpectedObject { step: 0 })),
        expand("<variable::$.a>", Json::parse("[]"))
    );
    assert_eq!(
        Err(MagicError::Path(JsonPathError::UnexpectedValueType)),
        expand("<variable::$>", Json::parse("{}"))
    );
}

#[test]
fn the_expander_keeps_its_turn() {
    let mut expander = MagicExpander::new("<query::f::$>", None).unwrap();
    assert_eq!(MagicStep::Failed(MagicError::OutOfTurn), expander.file_read("x"));
    assert_eq!(MagicStep::Failed(MagicError::OutOfTurn), expander.executed("1"));
    assert_eq!(MagicStep::Failed(MagicError::OutOfTurn), expander.words_read(&vec![]));
    assert_eq!(MagicStep::ReadFile { path: "f".into() }, expander.next());
    assert_eq!(MagicStep::Failed(MagicError::OutOfTurn), expander.next());
    assert_eq!(MagicStep::Failed(MagicError::OutOfTurn), expander.executed("1"));
    assert_eq!(MagicStep::Execute { operation: "{a}".into() }, expander.file_read("{a}\n"));
    assert_eq!(MagicStep::Failed(MagicError::OutOfTurn), expander.file_read("{a}"));
    assert_eq!(MagicStep::Failed(MagicError::Response), expander.executed("{"));
    assert_eq!(MagicStep::Replaced, expander.executed("7"));
    assert_eq!(MagicStep::Finished("7".into()), expander.next());
    assert_eq!(MagicStep::Finished("7".into()), expander.next());

    let mut expander = MagicExpander::new("<random_word>", None).unwrap();
    assert_eq!(MagicStep::ReadWords, expander.next());
    assert_eq!(MagicStep::Failed(MagicError::NoWords), expander.words_read(&vec![]));
    assert_eq!(MagicStep::Replaced, expander.words_read(&vec!["w".into()]));
    assert_eq!(MagicStep::Finished("\\\"w\\\"".into()), expander.next());
}

#[test]
fn places_of_magic_values_are_checked() {
    assert!(check_spans("a <b> <cd>", &vec![(2, 5), (6, 10)]));
    assert!(check_spans("<>", &vec![(0, 2)]));
    assert!(check_spans("", &vec![]));
    assert!(!check_spans("a <b> <cd>", &vec![(6, 10), (2, 5)]));
    assert!(!check_spans("a <b> <cd>", &vec![(2, 5), (4, 10)]));
    assert!(!check_spans("a <b> <cd>", &vec![(2, 4)]));
    assert!(!check_spans("a <b> <cd>", &vec![(1, 5)]));
    assert!(!check_spans("a <b> <cd>", &vec![(6, 11)]));
    assert!(!check_spans("a <b> <cd>", &vec![(2, 3)]));
    assert!(!check_spans("a <b> <cd>", &vec![(5, 2)]));
    assert!(!check_spans("<", &vec![(0, 1)]));
    assert!(MagicExpander::with_spans("a <b>", vec![(2, 5)], None).is_ok());
    assert_eq!(
        Some(MagicError::Matches),
        MagicExpander::with_spans("a <b>", vec![(1, 5)], None).err()
    );
    let mut expander =
        MagicExpander::with_spans("<variable::$> <x>", vec![(0, 13)], Json::parse("1")).unwrap();
    assert_eq!(MagicStep::Replaced, expander.next());
    assert_eq!(MagicStep::Finished("1 <x>".into()), expander.next());
}

#[test]
fn snippets() {
    assert_eq!("\\\"a\\\"", quote("a"));
    assert_eq!("-12", insertable_snippet_from_json_path_result(JsonPathResult::Integer(-12)));
    assert_eq!(
        "\\\"hello\\\"",
        insertable_snippet_from_json_path_result(JsonPathResult::String("hello".into()))
    );
    let json = Json::parse(r#"{"a": ["x", 5]}"#).unwrap();
    assert_eq!(Ok("\\\"x\\\"".to_string()), response_replacement("$.a[0]", &json));
    assert_eq!(Ok("5".to_string()), query_replacement("$.a[1]", r#"{"a": ["x", 5]}"#));
    assert_eq!(Err(MagicError::Response), query_replacement("$.a[1]", "nope"));
    assert_eq!(
        Err(MagicError::Path(JsonPathError::NullKey { pos: 0 })),
        query_replacement("$.", "1")
    );
    let path = JsonPathRoot::from("$.a[1]").unwrap();
    assert_eq!(Ok("5".to_string()), variable_replacement(&Some(json), &path));
    assert_eq!(Err(MagicError::NoVariables), variable_replacement(&None, &path));
}

#[test]
fn request_texts() {
    assert_eq!("{ a(b: \\\"c\\\") }", escape_quotes("{ a(b: \"c\") }"));
    assert_eq!("é\\\"\\\"", escape_quotes("é\"\""));
    assert_eq!("", escape_quotes(""));
    assert_eq!("{ a }", operation_of_file("{\n a\n }\n"));
    assert_eq!("{ \"query\": \"{ a }\" }", request_body("{ a }"));
}

#[test]
fn random_values() {
    assert_eq!(0, integer_between(0, 10, 0));
    assert_eq!(9, integer_between(0, 10, 9));
    assert_eq!(0, integer_between(0, 10, 10));
    assert_eq!(-5, integer_between(-5, 5, 20));
    assert_eq!(4, integer_between(-5, 5, 19));
    assert_eq!(i32::MAX - 1, integer_between(i32::MIN, i32::MAX, (1u64 << 32) - 2));
    assert_eq!(i32::MIN, integer_between(i32::MIN, i32::MAX, (1u64 << 32) - 1));
    assert_eq!(7, integer_between(7, 8, u64::MAX));
    for _ in 0..100 {
        assert!((-2..3).contains(&random_integer(-2, 3)));
    }
    assert_eq!("abz", letters(&vec![0, 27, 25]));
    assert_eq!("", letters(&vec![]));
    let text = random_string(40);
    assert_eq!(40, text.len());
    assert!(text.chars().all(|c| c.is_ascii_lowercase()));
    let words = vec!["a".to_string(), "b".to_string(), "c".to_string()];
    assert_eq!(Some(&"b".to_string()), word_at(&words, 4));
    assert_eq!(None, word_at(&vec![], 4));
    assert_eq!(None, random_word(&vec![]));
    assert!(words.contains(&random_word(&words).unwrap()));
}
