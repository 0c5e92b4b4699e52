use gomqlet::analyzer::{Analyzer, AnalyzerError, Suggestion};
use gomqlet::introspection::SchemaError;
use gomqlet::json::Json;
use gomqlet::parser::Parser;
use gomqlet::schema::{FieldTypeError, Schema, Type, TypeClass};
use gomqlet::tokenizer::{Token, TokenKind, Tokenizer};

const INTROSPECTION: &str = r#"{
  "data": { "__schema": {
    "queryType": { "name": "Query" },
    "mutationType": { "name": "Mutation" },
    "subscriptionType": null,
    "types": [
      { "kind": "OBJECT", "name": "Query", "possibleTypes": null, "fields": [
        { "name": "user", "args": [], "type": { "kind": "OBJECT", "name": "User", "ofType": null } },
        { "name": "users", "args": [],
          "type": { "kind": "LIST", "name": null, "ofType": { "kind": "OBJECT", "name": "User", "ofType": null } } },
        { "name": "node", "args": [
            { "name": "id", "type": { "kind": "NON_NULL", "name": null,
                "ofType": { "kind": "SCALAR", "name": "ID", "ofType": null } } },
            { "name": "tags", "type": { "kind": "NON_NULL", "name": null,
                "ofType": { "kind": "LIST", "name": null,
                  "ofType": { "kind": "ENUM", "name": "Role", "ofType": null } } } }
          ],
          "type": { "kind": "INTERFACE", "name": "Node", "ofType": null } },
        { "name": "search", "args": [],
          "type": { "kind": "UNION", "name": "SearchResult", "ofType": null } },
        { "name": "ghost", "args": [],
          "type": { "kind": "OBJECT", "name": "Ghost", "ofType": null } }
      ] },
      { "kind": "OBJECT", "name": "User", "fields": [
        { "name": "id", "args": [], "type": { "kind": "SCALAR", "name": "ID", "ofType": null } },
        { "name": "name", "args": [], "type": { "kind": "SCALAR", "name": "String", "ofType": null } },
        { "name": "address", "args": [], "type": { "kind": "OBJECT", "name": "Address", "ofType": null } }
      ] },
      { "kind": "OBJECT", "name": "Address", "fields": [
        { "name": "city", "args": [], "type": { "kind": "SCALAR", "name": "String", "ofType": null } }
      ] },
      { "kind": "OBJECT", "name": "Mutation", "fields": [
        { "name": "createUser", "args": [
            { "name": "input", "type": { "kind": "NON_NULL", "name": null,
                "ofType": { "kind": "INPUT_OBJECT", "name": "UserInput", "ofType": null } } }
          ],
          "type": { "kind": "OBJECT", "name": "User", "ofType": null } }
      ] },
      { "kind": "INPUT_OBJECT", "name": "UserInput", "inputFields": [
        { "name": "name", "type": { "kind": "NON_NULL", "name": null,
            "ofType": { "kind": "SCALAR", "name": "String", "ofType": null } } },
        { "name": "age", "type": { "kind": "SCALAR", "name": "Int", "ofType": null } },
        { "name": "role", "type": { "kind": "ENUM", "name": "Role", "ofType": null } }
      ] },
      { "kind": "ENUM", "name": "Role", "enumValues": [ { "name": "ADMIN" }, { "name": "MEMBER" } ] },
      { "kind": "INTERFACE", "name": "Node", "fields": [
        { "name": "id", "args": [], "type": { "kind": "SCALAR", "name": "ID", "ofType": null } }
      ], "possibleTypes": [ { "kind": "OBJECT", "name": "User" }, { "kind": "OBJECT", "name": "Address" } ] },
      { "kind": "UNION", "name": "SearchResult",
        "possibleTypes": [ { "kind": "OBJECT", "name": "User" }, { "kind": "OBJECT", "name": "Address" } ] },
      { "kind": "SCALAR", "name": "String" },
      { "kind": "SCALAR", "name": "ID" }
    ]
  } }
}"#;

fn schema() -> Schema {
    Schema::from_introspection(&Json::parse(INTROSPECTION).unwrap()).unwrap()
}

fn analyze(source: &str, cursor: usize) -> Result<Option<Suggestion>, AnalyzerError> {
    let tokens = Tokenizer::tokenize(source, false);
    let root = match Parser::new(tokens).parse() {
        Ok(root) => root,
        Err(e) => panic!("no parse: {:?}", e),
    };
    Analyzer::new(schema()).analyze(root, cursor)
}

fn names(suggestion: &Suggestion) -> Vec<&str> {
    suggestion.elems.iter().map(|e| e.name.as_str()).collect()
}

fn suggestion(source: &str, cursor: usize) -> Suggestion {
    analyze(source, cursor).unwrap().unwrap()
}

fn error(source: &str, cursor: usize) -> String {
    analyze(source, cursor).unwrap_err().message()
}

#[test]
fn cursor_in_a_field_name() {
    let s = suggestion("{ user }", 3);
    assert_eq!(vec!["user", "users"], names(&s));
    assert_eq!(Some(Token::new(TokenKind::Keyword("user".into()), 2, 4, "user".into())), s.token);
    assert_eq!(vec![0, 1, 2, 3], s.elems[0].fuzzy_match_positions);
    assert_eq!("Obj<User>", s.elems[0].kind);
    assert_eq!("[Obj<User>]", s.elems[1].kind);
}

#[test]
fn cursor_inside_inner_braces() {
    let s = suggestion("{ user {   } }", 9);
    assert_eq!(vec!["id", "name", "address"], names(&s));
    assert_eq!(None, s.token);
    assert_eq!("Scalar<ID>", s.elems[0].kind);
    assert!(s.elems[0].fuzzy_match_positions.is_empty());
}

#[test]
fn cursor_in_arguments_of_a_field_without_arguments() {
    assert_eq!("Invalid field users", error("{ users(  ) }", 8));
    assert_eq!("Invalid field nope", error("{ nope(  ) }", 7));
    let s = suggestion("{ node(  ) }", 7);
    assert_eq!(vec!["id", "tags"], names(&s));
    assert_eq!("!Scalar<ID>", s.elems[0].kind);
    assert_eq!(None, s.token);
}

#[test]
fn cursor_inside_an_object_value() {
    let s = suggestion("mutation { createUser(input: {   }) { id } }", 31);
    assert_eq!(vec!["name", "age", "role"], names(&s));
    assert_eq!(None, s.token);
    assert_eq!("!Scalar<String>", s.elems[0].kind);
    assert_eq!("Enum<Role>", s.elems[2].kind);
}

#[test]
fn cursor_on_a_missing_enum_value() {
    let s = suggestion("mutation { createUser(input: { role:   }) { id } }", 37);
    assert_eq!(vec!["ADMIN", "MEMBER"], names(&s));
    assert_eq!(None, s.token);
    assert_eq!("Enum", s.elems[0].kind);
}

#[test]
fn cursor_in_a_partial_enum_value() {
    let s = suggestion("mutation { createUser(input: { role: AD  }) { id } }", 39);
    assert_eq!(vec!["ADMIN"], names(&s));
    assert_eq!(Some(Token::new(TokenKind::Keyword("AD".into()), 37, 2, "AD".into())), s.token);
    assert_eq!(vec![0, 1], s.elems[0].fuzzy_match_positions);
}

#[test]
fn cursor_at_the_end_of_a_name_is_on_the_name() {
    let s = suggestion("{ user }", 6);
    assert_eq!(vec!["user", "users"], names(&s));
    assert!(s.token.is_some());
    let s = suggestion("{ user }", 2);
    assert!(s.token.is_some());
    let s = suggestion("{ user }", 7);
    assert_eq!(None, s.token);
    assert_eq!(vec!["user", "users", "node", "search", "ghost"], names(&s));
}

#[test]
fn cursor_at_the_end_of_a_field_list_is_outside() {
    assert!(analyze("{ user }", 8).unwrap().is_none());
    assert!(analyze("{ user }", 80).unwrap().is_none());
    assert!(analyze("  { user }", 1).unwrap().is_none());
    assert!(analyze("{ user }", 0).unwrap().is_some());
    let source = "{ user { id } }";
    assert_eq!(vec!["id", "name", "address"], names(&suggestion(source, 12)));
    assert!(analyze(source, 13).unwrap().is_none());
    assert_eq!(vec!["user", "users", "node", "search", "ghost"], names(&suggestion(source, 14)));
}

#[test]
fn the_first_of_two_touching_siblings_wins() {
    let source = "{ node(id:1,tags:[ADMIN]) }";
    assert!(analyze(source, 11).unwrap().is_none());
    assert_eq!(Some(12), suggestion(source, 12).token.map(|t| t.pos));
    let source = "{user{id}users}";
    assert!(analyze(source, 9).unwrap().is_none());
    assert_eq!(Some(9), suggestion(source, 10).token.map(|t| t.pos));
}

#[test]
fn argument_keys() {
    let s = suggestion("{ node(i: 1) }", 8);
    assert_eq!(vec!["id"], names(&s));
    assert_eq!(Some(7), s.token.map(|t| t.pos));
    let s = suggestion("{ node(id: 1,   ) }", 14);
    assert_eq!(vec!["id", "tags"], names(&s));
    assert_eq!(None, s.token);
    let s = suggestion("{ node(  id: 1) }", 8);
    assert_eq!(vec!["id", "tags"], names(&s));
    assert!(analyze("{ node(id: 1) }", 11).unwrap().is_none());
    assert!(analyze("{ node(id  : 1) }", 10).unwrap().is_none());
    assert_eq!("Invalid arg name nope", error("{ node(nope: 1) }", 13));
}

#[test]
fn completion_in_list_values() {
    let source = "{ node(tags: [ADMIN,  M]) }";
    let s = suggestion(source, 23);
    assert_eq!(vec!["ADMIN", "MEMBER"], names(&s));
    assert_eq!(Some(22), s.token.map(|t| t.pos));
    assert_eq!(vec!["ADMIN"], names(&suggestion(source, 16)));
    assert!(analyze(source, 21).unwrap().is_none());
    let s = suggestion("{ node(tags: [ADMIN, , MEMBER]) }", 21);
    assert_eq!(vec!["ADMIN", "MEMBER"], names(&s));
    assert_eq!(None, s.token);
    assert_eq!(
        "Expected list type for arg value. Got: !Scalar<ID>",
        error("{ node(id: [1]) }", 12)
    );
    assert_eq!(
        "Expected list type for arg value. Got: !Scalar<ID>",
        error("{ node(id: [1]) }", 11)
    );
}

#[test]
fn completion_in_object_values() {
    assert_eq!(
        "Expected input type for arg value. Got: !Scalar<ID>",
        error("{ node(id: { a: 1 }) }", 13)
    );
    let source = "mutation { createUser(input: { name: \"x\", age: 1, role: MEMBER }) }";
    assert!(analyze(source, 39).unwrap().is_none());
    assert!(analyze(source, 48).unwrap().is_none());
    assert_eq!(vec!["age"], names(&suggestion(source, 44)));
    assert_eq!(vec!["MEMBER"], names(&suggestion(source, 60)));
    assert!(analyze(source, 29).unwrap().is_some());
    assert!(analyze(source, 64).unwrap().is_none());
}

#[test]
fn completion_in_union_fields() {
    let source = "{ search { ... on Us { name } } }";
    let s = suggestion(source, 19);
    assert_eq!(vec!["User"], names(&s));
    assert_eq!("Object", s.elems[0].kind);
    assert_eq!(Some(18), s.token.map(|t| t.pos));
    assert_eq!("Missing union type: Us", error(source, 23));
    let source = "{ search { ... on User { name } } }";
    assert_eq!(vec!["id", "name", "address"], names(&suggestion(source, 30)));
    assert!(analyze(source, 13).unwrap().is_none());
    let s = suggestion("{ search { ... on  } }", 18);
    assert_eq!(vec!["User", "Address"], names(&s));
    assert_eq!(Some(Token::new(TokenKind::Keyword("".into()), 18, 0, "".into())), s.token);
    let s = suggestion("{ node { ... on A } }", 17);
    assert_eq!(vec!["Address"], names(&s));
    let s = suggestion("{ user { ... on A } }", 17);
    assert!(s.elems.is_empty());
}

#[test]
fn schema_errors_are_reported() {
    assert_eq!("Field nope not found", error("{ nope { id } }", 9));
    assert_eq!(
        "Definition of type Ghost of field ghost not found",
        error("{ ghost { id } }", 10)
    );
    assert_eq!(
        "Definition of type ID of field id not found",
        error("{ user { id { x } } }", 14)
    );
    assert!(analyze("{ search { name } }", 10).unwrap().is_none());
    assert_eq!(
        "Keyword found in a non object/interface scope",
        error("{ search { name } }", 12)
    );
}

#[test]
fn missing_roots() {
    let json = Json::parse(
        r#"{"data": {"__schema": {"queryType": {"name": "Q"}, "mutationType": {"name": "M"},
            "types": []}}}"#,
    )
    .unwrap();
    let analyzer = Analyzer::new(Schema::from_introspection(&json).unwrap());
    let parse = |source: &str| Parser::new(Tokenizer::tokenize(source, false)).parse().unwrap();
    assert_eq!(
        "Query is not found in the schema",
        analyzer.analyze(parse("{ a }"), 1).unwrap_err().message()
    );
    assert_eq!(
        "Mutation is not found in the schema",
        analyzer.analyze(parse("mutation { a }"), 100).unwrap_err().message()
    );
}

#[test]
fn every_cursor_position_is_analyzed() {
    let sources = [
        "{ user { id name address { city } } users(  ) node(id: 1, tags: [ADMIN, , M]) }",
        "mutation { createUser(input: { name: \"x\", age: , role: AD }) { id ... on User { id } } }",
        "query { search { ... on  } ghost { x } nope(a: [1, {b: 2}]) }",
        "{}",
    ];
    let analyzer = Analyzer::new(schema());
    for source in sources {
        for cursor in 0..=source.len() + 1 {
            let root = Parser::new(Tokenizer::tokenize(source, false)).parse().unwrap();
            let _ = analyzer.analyze(root, cursor);
        }
    }
}

#[test]
fn schema_lookups() {
    let schema = schema();
    assert_eq!("Query", schema.query_root_name);
    assert_eq!("Mutation", schema.mutation_root_name);
    assert_eq!(8, schema.types.len());
    let query = schema.type_definition(&"Query".to_string()).unwrap();
    assert!(matches!(query, Type::Object(_)));
    assert_eq!("Query", query.name());
    assert!(schema.type_definition(&"String".to_string()).is_none());
    assert!(schema.type_definition(&"query".to_string()).is_none());
    let users = query.field("users").unwrap();
    assert_eq!("users", users.name);
    assert_eq!("User", users.field_type.underlying_type_name());
    assert!(matches!(users.field_type.skip_non_null(), TypeClass::List(_)));
    assert!(query.field("nope").is_none());
    let node = query.field("node").unwrap();
    let tags = node.args.arg(&"tags".to_string()).unwrap();
    assert_eq!("![Enum<Role>]", tags.arg_type.label());
    assert_eq!("Role", tags.arg_type.underlying_type_name());
    assert!(matches!(tags.arg_type.skip_non_null(), TypeClass::List(_)));
    assert!(node.args.arg(&"nope".to_string()).is_none());
    assert_eq!(
        vec!["tags"],
        node.args.arg_names(&"TG".to_string()).iter().map(|e| e.name.as_str()).collect::<Vec<_>>()
    );
    assert_eq!("Int<Node>", node.field_type.label());
    let user = schema.field_type(query, "users").unwrap();
    assert_eq!("User", user.name());
    assert!(matches!(
        schema.field_type(query, "nope"),
        Err(FieldTypeError::FieldNotFound(name)) if name == "nope"
    ));
    assert_eq!(
        "Field nope not found",
        schema.field_type(query, "nope").err().unwrap().message()
    );
    let role = schema.type_definition(&"Role".to_string()).unwrap();
    assert!(role.field("ADMIN").is_none());
    match role {
        Type::Enum(e) => {
            assert_eq!(vec!["MEMBER"], e.field_names("mb").iter().map(|e| e.name.as_str()).collect::<Vec<_>>());
        }
        _ => panic!("Role is an enum"),
    }
    match schema.type_definition(&"Node".to_string()).unwrap() {
        Type::Interface(t) => {
            assert_eq!(2, t.possible_type_names("").len());
            assert_eq!(1, t.field_names("").len());
        }
        _ => panic!("Node is an interface"),
    }
    match schema.type_definition(&"SearchResult".to_string()).unwrap() {
        Type::Union(t) => {
            assert_eq!(1, t.possible_type_names("dd").len());
        }
        _ => panic!("SearchResult is a union"),
    }
}

#[test]
fn introspection_errors() {
    let load = |text: &str| Schema::from_introspection(&Json::parse(text).unwrap()).err();
    assert_eq!(Some(SchemaError::MissingSchema), load("{}"));
    assert_eq!(Some(SchemaError::MissingSchema), load("[]"));
    assert_eq!(Some(SchemaError::MissingSchema), load(r#"{"data": {}}"#));
    assert_eq!(Some(SchemaError::MissingQueryRoot), load(r#"{"data": {"__schema": {}}}"#));
    assert_eq!(
        Some(SchemaError::MissingMutationRoot),
        load(r#"{"data": {"__schema": {"queryType": {"name": "Q"}, "mutationType": null}}}"#)
    );
    assert_eq!(
        Some(SchemaError::MissingTypes),
        load(r#"{"data": {"__schema": {"queryType": {"name": "Q"}, "mutationType": {"name": "M"}}}}"#)
    );
    let with_types = |types: &str| {
        load(&format!(
            r#"{{"data": {{"__schema": {{"queryType": {{"name": "Q"}},
                "mutationType": {{"name": "M"}}, "types": {}}}}}}}"#,
            types
        ))
    };
    assert_eq!(None, with_types("[]"));
    assert_eq!(None, with_types(r#"[{"kind": "SCALAR", "name": "Int"}]"#));
    assert_eq!(None, with_types(r#"[{"kind": "FUTURE", "name": "X"}]"#));
    assert_eq!(Some(SchemaError::MalformedType), with_types(r#"[{"kind": "SCALAR"}]"#));
    assert_eq!(Some(SchemaError::MalformedType), with_types(r#"[{"name": "X"}]"#));
    assert_eq!(Some(SchemaError::MalformedType), with_types(r#"[{"kind": "OBJECT", "name": "X"}]"#));
    assert_eq!(None, with_types(r#"[{"kind": "OBJECT", "name": "X", "fields": []}]"#));
    assert_eq!(Some(SchemaError::MalformedType), with_types(r#"[{"kind": "ENUM", "name": "X"}]"#));
    assert_eq!(
        Some(SchemaError::MalformedType),
        with_types(r#"[{"kind": "ENUM", "name": "X", "enumValues": [{}]}]"#)
    );
    assert_eq!(Some(SchemaError::MalformedType), with_types(r#"[{"kind": "UNION", "name": "X"}]"#));
    assert_eq!(
        Some(SchemaError::MalformedType),
        with_types(r#"[{"kind": "INPUT_OBJECT", "name": "X", "inputFields": [{"name": "a"}]}]"#)
    );
    assert_eq!(
        Some(SchemaError::MalformedType),
        with_types(
            r#"[{"kind": "OBJECT", "name": "X", "fields": [
                {"name": "a", "args": [], "type": {"kind": "FUTURE", "name": "Y"}}]}]"#
        )
    );
    assert_eq!(
        Some(SchemaError::MalformedType),
        with_types(
            r#"[{"kind": "OBJECT", "name": "X", "fields": [
                {"name": "a", "args": [], "type": {"kind": "LIST", "name": null}}]}]"#
        )
    );
    assert_eq!(
        Some(SchemaError::MalformedType),
        with_types(
            r#"[{"kind": "SCALAR", "name": "ok"}, {"kind": "OBJECT", "name": "X", "fields": [
                {"name": "a", "type": {"kind": "SCALAR", "name": "Y"}}]}]"#
        )
    );
}

#[test]
fn type_references() {
    let class = |text: &str| TypeClass::from_json_value(&Json::parse(text).unwrap());
    assert!(matches!(
        class(r#"{"kind": "UNION", "name": "U"}"#),
        Some(TypeClass::Union(name)) if name == "U"
    ));
    assert!(matches!(
        class(r#"{"kind": "INTERFACE", "name": "I"}"#),
        Some(TypeClass::Interface(name)) if name == "I"
    ));
    let nested = class(
        r#"{"kind": "NON_NULL", "ofType": {"kind": "LIST", "ofType":
            {"kind": "NON_NULL", "ofType": {"kind": "INPUT_OBJECT", "name": "In"}}}}"#,
    )
    .unwrap();
    assert_eq!("![!Input<In>]", nested.label());
    assert_eq!("In", nested.underlying_type_name());
    assert_eq!("[!Input<In>]", nested.skip_non_null().label());
    assert_eq!("[!Input<In>]", nested.skip_non_null().skip_non_null().label());
    assert!(class(r#"{"kind": "NON_NULL"}"#).is_none());
    assert!(class(r#"{"name": "X"}"#).is_none());
    assert!(class(r#""OBJECT""#).is_none());
}

const ODD_INTROSPECTION: &str = r#"{
  "data": { "__schema": {
    "queryType": { "name": "Query" },
    "mutationType": { "name": "Mutation" },
    "types": [
      { "kind": "OBJECT", "name": "Query", "fields": [
        { "name": "role", "args": [
            { "name": "lost", "type": { "kind": "ENUM", "name": "Lost" } },
            { "name": "fake", "type": { "kind": "ENUM", "name": "Query" } },
            { "name": "gone", "type": { "kind": "INPUT_OBJECT", "name": "Gone" } },
            { "name": "wrong", "type": { "kind": "INPUT_OBJECT", "name": "Role" } }
          ],
          "type": { "kind": "ENUM", "name": "Role" } }
      ] },
      { "kind": "ENUM", "name": "Role", "enumValues": [ { "name": "ADMIN" } ] },
      { "kind": "OBJECT", "name": "Mutation", "fields": [] }
    ]
  } }
}"#;

fn odd_error(source: &str, cursor: usize) -> String {
    let schema = Schema::from_introspection(&Json::parse(ODD_INTROSPECTION).unwrap()).unwrap();
    let root = Parser::new(Tokenizer::tokenize(source, false)).parse().unwrap();
    Analyzer::new(schema).analyze(root, cursor).unwrap_err().message()
}

#[test]
fn inconsistent_schemas_are_reported() {
    assert_eq!(
        "Expected union type. Likely not a valid union scope.",
        odd_error("{ role { ... on A } }", 17)
    );
    assert_eq!("Enum type Lost not found", odd_error("{ role(lost: A) }", 14));
    assert_eq!("Enum type Lost not found", odd_error("{ role(lost: ) }", 12));
    assert_eq!("Expected enum type", odd_error("{ role(fake: A) }", 14));
    assert_eq!("Type Gone not found.", odd_error("{ role(gone: { a: 1 }) }", 15));
    assert_eq!(
        "Type Role is expected to be an input object",
        odd_error("{ role(wrong: { a: 1 }) }", 16)
    );
    assert_eq!(
        "Keyword found in a non object/interface scope",
        odd_error("{ role { admin } }", 10)
    );
}
