use gomqlet::ast::{Field, Mutation, ParamValue, Query, Root};
use gomqlet::grammar::ParseErrorScope;
use gomqlet::parser::{ParseError, Parser};
use gomqlet::tokenizer::{Token, TokenKind, Tokenizer};

fn parse(raw: &str) -> Result<Root, ParseError> {
    let tokens = Tokenizer::tokenize(raw, false);
    Parser::new(tokens).parse()
}

fn parse_query(raw: &str) -> Query {
    match parse(raw).unwrap() {
        Root::Query(query) => query,
        _ => panic!("This must be called with a valid query"),
    }
}

fn parse_mutation(raw: &str) -> Mutation {
    match parse(raw).unwrap() {
        Root::Mutation(mutation) => mutation,
        _ => panic!("This must be called with a valid mutation"),
    }
}

fn parse_failure(raw: &str) -> ParseError {
    match parse(raw) {
        Ok(_) => panic!("This must be called with an invalid operation"),
        Err(e) => e,
    }
}

fn concrete(field: &Field) -> &gomqlet::ast::ConcreteField {
    assert!(matches!(field, Field::Concrete(_)));
    field.as_concrete_field()
}

#[test]
fn parser_test_empty() {
    let query = parse_query("{}");
    assert_eq!(0, query.field_list.fields.len());
}

#[test]
fn test_optional_query_keywors() {
    let query = parse_query("query { user }");
    assert_eq!(1, query.field_list.fields.len());
}

#[test]
fn test_plan_fields() {
    let query = parse_query("{ user company task }");
    assert_eq!(3, query.field_list.fields.len());
    assert_eq!(
        "user".to_string(),
        concrete(&query.field_list.fields[0]).name.original
    );
    assert_eq!(
        "company".to_string(),
        concrete(&query.field_list.fields[1]).name.original
    );
    assert_eq!(
        "task".to_string(),
        concrete(&query.field_list.fields[2]).name.original
    );
}

#[test]
fn test_nested_fields() {
    let query = parse_query("{ user company { location size } }");
    assert_eq!(2, query.field_list.fields.len());
    assert_eq!(
        2,
        concrete(&query.field_list.fields[1])
            .field_list
            .as_ref()
            .unwrap()
            .fields
            .len()
    );
}

#[test]
fn test_arglist() {
    let query = parse_query("{ user(id: \"gid://user/1\", order: ASC) }");

    assert_eq!(1, query.field_list.fields.len());

    assert_eq!(
        "id".to_string(),
        concrete(&query.field_list.fields[0])
            .arglist
            .as_ref()
            .unwrap()
            .params[0]
            .key
            .original,
    );
}

#[test]
fn test_arglist_with_list_param() {
    let query = parse_query("{ createUser(tags: [11, 22, 33]) }");

    assert_eq!(1, query.field_list.fields.len());
    let arglist = concrete(&query.field_list.fields[0])
        .arglist
        .as_ref()
        .unwrap();
    assert_eq!(1, arglist.params.len());
    assert!(matches!(arglist.params[0].value, ParamValue::List(_)));
    assert_eq!(3, arglist.params[0].value.as_list().elems.len());
    assert!(matches!(
        arglist.params[0].value.as_list().elems[0],
        ParamValue::Simple(_)
    ));
    assert_eq!(
        "11".to_string(),
        arglist.params[0].value.as_list().elems[0]
            .as_simple()
            .original,
    );
}

#[test]
fn test_empty_arglist() {
    let query = parse_query("{ users() }");

    assert_eq!(1, query.field_list.fields.len());
    assert_eq!(
        0,
        concrete(&query.field_list.fields[0])
            .arglist
            .as_ref()
            .unwrap()
            .params
            .len()
    );
}

#[test]
fn test_arglist_without_arg_value() {
    let query = parse_query("{ users(id: ) }");

    assert_eq!(1, query.field_list.fields.len());
    assert_eq!(
        1,
        concrete(&query.field_list.fields[0])
            .arglist
            .as_ref()
            .unwrap()
            .params
            .len()
    );
}

#[test]
fn test_arglist_without_arg_value_and_colon() {
    let query = parse_query("{ users(id ) }");

    assert_eq!(1, query.field_list.fields.len());
    assert_eq!(
        1,
        concrete(&query.field_list.fields[0])
            .arglist
            .as_ref()
            .unwrap()
            .params
            .len()
    );
}

#[test]
fn test_arglist_with_object() {
    let mutation = parse_mutation(
        "mutation { createUser(address: { city: \"London\", codes: [1, 2] }) { id } }",
    );

    assert_eq!(1, mutation.field_list.fields.len());

    let args = concrete(&mutation.field_list.fields[0])
        .arglist
        .as_ref()
        .unwrap();
    assert_eq!(1, args.params.len());

    assert!(matches!(args.params[0].value, ParamValue::Object(_)));
    let first_arg_value = args.params.get(0).unwrap().value.as_object();
    assert_eq!(2, first_arg_value.params.len());
    assert_eq!("city".to_string(), first_arg_value.params[0].key.original);
    assert!(matches!(
        first_arg_value.params[0].value,
        ParamValue::Simple(_)
    ));
    assert_eq!(
        "\"London\"".to_string(),
        first_arg_value.params[0].value.as_simple().original
    );

    assert!(matches!(
        first_arg_value.params[1].value,
        ParamValue::List(_)
    ));
    assert_eq!(2, first_arg_value.params[1].value.as_list().elems.len());
}

#[test]
fn node_ranges() {
    let query = parse_query("query { user(id: 1, tags: [2, 3]) { name } }");
    assert_eq!((0, 44), (query.start_pos, query.end_pos));
    assert_eq!((6, 44), (query.field_list.start_pos, query.field_list.end_pos));
    let user = concrete(&query.field_list.fields[0]);
    assert_eq!((8, 42), (user.start_pos, user.end_pos));
    let args = user.arglist.as_ref().unwrap();
    assert_eq!((12, 33), (args.start_pos, args.end_pos));
    assert_eq!((13, 18), (args.params[0].start_pos, args.params[0].end_pos));
    assert_eq!((17, 18), (args.params[0].value.start_pos(), args.params[0].value.end_pos()));
    let list = args.params[1].value.as_list();
    assert_eq!((26, 31), (list.start_pos, list.end_pos));
    assert_eq!((20, 31), (args.params[1].start_pos, args.params[1].end_pos));
    let names = user.field_list.as_ref().unwrap();
    assert_eq!((34, 42), (names.start_pos, names.end_pos));
    assert!(names.range_exclusive().contains(&41));
    assert!(!names.range_exclusive().contains(&42));
    assert!(query.field_list.fields[0].range_inclusive().contains(&42));
}

#[test]
fn missing_value_spans_the_gap() {
    let query = parse_query("{ users(id: ) }");
    let args = concrete(&query.field_list.fields[0]).arglist.as_ref().unwrap();
    assert_eq!(ParamValue::Missing((11, 12)), args.params[0].value);
    assert_eq!((8, 12), (args.params[0].start_pos, args.params[0].end_pos));

    let query = parse_query("{ users(id ) }");
    let args = concrete(&query.field_list.fields[0]).arglist.as_ref().unwrap();
    assert_eq!(ParamValue::Missing((10, 11)), args.params[0].value);

    let query = parse_query("{ users(a: , b: [1, , 2], c: { d: }) }");
    let args = concrete(&query.field_list.fields[0]).arglist.as_ref().unwrap();
    assert_eq!(3, args.params.len());
    assert_eq!(ParamValue::Missing((10, 11)), args.params[0].value);
    assert_eq!(3, args.params[1].value.as_list().elems.len());
    assert_eq!(ParamValue::Missing((19, 20)), args.params[1].value.as_list().elems[1]);
    assert_eq!(ParamValue::Missing((33, 34)), args.params[2].value.as_object().params[0].value);

    let query = parse_query("{ users(b: [1, ]) }");
    let args = concrete(&query.field_list.fields[0]).arglist.as_ref().unwrap();
    assert_eq!(1, args.params[0].value.as_list().elems.len());
}

#[test]
fn a_key_may_follow_without_a_comma() {
    let query = parse_query("{ users(first: 1 after: \"x\") }");
    let args = concrete(&query.field_list.fields[0]).arglist.as_ref().unwrap();
    assert_eq!(2, args.params.len());
    assert_eq!("after", args.params[1].key.original);
    assert_eq!("\"x\"", args.params[1].value.as_simple().original);
}

#[test]
fn magic_values_are_simple_values() {
    let query = parse_query("{ users(name: <random_string::5>) }");
    let args = concrete(&query.field_list.fields[0]).arglist.as_ref().unwrap();
    assert_eq!(
        TokenKind::MagicValue("random_string::5".into()),
        args.params[0].value.as_simple().kind
    );
}

#[test]
fn union_fields() {
    let query = parse_query("{ node { ... on User { name } id } }");
    let node = concrete(&query.field_list.fields[0]);
    let fields = &node.field_list.as_ref().unwrap().fields;
    assert_eq!(2, fields.len());
    assert!(matches!(fields[0], Field::Union(_)));
    let union = fields[0].as_union_field();
    assert_eq!("User", union.named_type.original);
    assert_eq!((9, 29), (union.start_pos, union.end_pos));
    assert_eq!(1, union.field_list.fields.len());
    assert_eq!((21, 29), (union.field_list.start_pos, union.field_list.end_pos));
}

#[test]
fn union_field_without_type_name() {
    let query = parse_query("{ node { ... on } }");
    let node = concrete(&query.field_list.fields[0]);
    let union = node.field_list.as_ref().unwrap().fields[0].as_union_field();
    assert_eq!(Token::new(TokenKind::Keyword("".into()), 16, 0, "".into()), union.named_type);
    assert_eq!((16, 16), (union.field_list.start_pos, union.field_list.end_pos));
    assert_eq!(0, union.field_list.fields.len());
    assert_eq!((9, 16), (union.start_pos, union.end_pos));

    let error = parse_failure("{ node { ... on} }");
    assert!(matches!(error.scope, ParseErrorScope::Field));
    assert_eq!("Missing union type name", error.message);
    assert_eq!(Some(Token::new(TokenKind::CloseBrace, 15, 1, "}".into())), error.token);
}

#[test]
fn union_field_without_braces() {
    let query = parse_query("{ node { ... on User } }");
    let node = concrete(&query.field_list.fields[0]);
    let union = node.field_list.as_ref().unwrap().fields[0].as_union_field();
    assert_eq!("User", union.named_type.original);
    assert_eq!((20, 20), (union.field_list.start_pos, union.field_list.end_pos));
}

#[test]
fn parse_errors() {
    let error = parse_failure("");
    assert!(matches!(error.scope, ParseErrorScope::Query));
    assert_eq!("Empty query", error.message);
    assert_eq!(None, error.token);

    let error = parse_failure("user");
    assert!(matches!(error.scope, ParseErrorScope::Query));
    assert_eq!("Missing opening brace", error.message);
    assert_eq!(Some(Token::new(TokenKind::Keyword("user".into()), 0, 4, "user".into())), error.token);

    let error = parse_failure("mutation");
    assert_eq!("Missing opening brace", error.message);
    assert_eq!(None, error.token);

    let error = parse_failure("{ user");
    assert!(matches!(error.scope, ParseErrorScope::Query));
    assert_eq!("Missing closing brace", error.message);

    let error = parse_failure("{ : }");
    assert!(matches!(error.scope, ParseErrorScope::Field));
    assert_eq!("Missing field name", error.message);

    let error = parse_failure("{ user(1) }");
    assert!(matches!(error.scope, ParseErrorScope::ArgList));
    assert_eq!("Missing keyword", error.message);

    let error = parse_failure("{ user(a: 1 ] }");
    assert!(matches!(error.scope, ParseErrorScope::ArgList));
    assert_eq!("Missing close paren", error.message);

    let error = parse_failure("{ user(a: ( }");
    assert!(matches!(error.scope, ParseErrorScope::ArgListValue));
    assert_eq!("Unexpected arglist value type", error.message);

    let error = parse_failure("{ user(a: [1 2]) }");
    assert!(matches!(error.scope, ParseErrorScope::ArgListValueListType));
    assert_eq!("Expected list closing backet for list param value", error.message);

    let error = parse_failure("{ user(a:");
    assert!(matches!(error.scope, ParseErrorScope::ArgList));
    assert_eq!("Missing close paren", error.message);
    assert_eq!(None, error.token);

    let error = parse_failure("{ ... User }");
    assert!(matches!(error.scope, ParseErrorScope::Field));
    assert_eq!("Missing `on` of the union field", error.message);
}

#[test]
fn mutation_keyword_selects_the_root() {
    assert!(matches!(parse("mutation { a }"), Ok(Root::Mutation(_))));
    assert!(matches!(parse("query { a }"), Ok(Root::Query(_))));
    assert!(matches!(parse("{ a }"), Ok(Root::Query(_))));
    let mutation = parse_mutation("mutation { a }");
    assert_eq!((0, 14), (mutation.start_pos, mutation.end_pos));
}
