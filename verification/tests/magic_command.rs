use gomqlet::json_path::{JsonNest, JsonPathError, JsonPathRoot};
use gomqlet::magic_command::{MagicCommand, MagicCommandError, QueryCommand};

#[test]
fn test_query() {
    let mc = MagicCommand::from("query::file.ext::$.path").unwrap();
    assert_eq!(
        MagicCommand::Query(QueryCommand {
            file: "file.ext".to_string(),
            json_path: "$.path".to_string()
        }),
        mc
    );
}

#[test]
fn test_random_string() {
    let mc = MagicCommand::from("random_string::12").unwrap();
    assert_eq!(MagicCommand::RandomString(12), mc);
}

#[test]
fn test_random_integer() {
    let mc = MagicCommand::from("random_integer::10::20").unwrap();
    assert_eq!(MagicCommand::RandomInteger((10, 20)), mc);
}

#[test]
fn other_commands() {
    assert_eq!(Ok(MagicCommand::RandomWord), MagicCommand::from("random_word"));
    assert_eq!(
        Ok(MagicCommand::Variable(JsonPathRoot {
            nest: vec![JsonNest::Key("user".into()), JsonNest::Index(0)]
        })),
        MagicCommand::from("variable::$.user[0]")
    );
    assert_eq!(
        Ok(MagicCommand::RandomInteger((-5, 7))),
        MagicCommand::from("random_integer::-5::+7")
    );
    assert_eq!(
        Ok(MagicCommand::RandomInteger((i32::MIN, i32::MAX))),
        MagicCommand::from("random_integer::-2147483648::2147483647")
    );
    assert_eq!(
        Ok(MagicCommand::Query(QueryCommand { file: "a:b".into(), json_path: ":c".into() })),
        MagicCommand::from("query::a:b:::c")
    );
    assert_eq!(
        Ok(MagicCommand::Query(QueryCommand { file: "héllo.gql".into(), json_path: "".into() })),
        MagicCommand::from("query::héllo.gql::")
    );
}

#[test]
fn command_errors() {
    assert_eq!(Err(MagicCommandError::UnknownCommand), MagicCommand::from(""));
    assert_eq!(Err(MagicCommandError::UnknownCommand), MagicCommand::from("command:params"));
    assert_eq!(Err(MagicCommandError::UnknownCommand), MagicCommand::from("Query::a::b"));
    assert_eq!(Err(MagicCommandError::QueryArguments), MagicCommand::from("query"));
    assert_eq!(Err(MagicCommandError::QueryArguments), MagicCommand::from("query::a"));
    assert_eq!(Err(MagicCommandError::QueryArguments), MagicCommand::from("query::a::b::c"));
    assert_eq!(
        Err(MagicCommandError::RandomStringArguments),
        MagicCommand::from("random_string")
    );
    assert_eq!(
        Err(MagicCommandError::RandomStringArguments),
        MagicCommand::from("random_string::1::2")
    );
    assert_eq!(Err(MagicCommandError::InvalidLength), MagicCommand::from("random_string::-1"));
    assert_eq!(Err(MagicCommandError::InvalidLength), MagicCommand::from("random_string::"));
    assert_eq!(Err(MagicCommandError::InvalidLength), MagicCommand::from("random_string::1x"));
    assert_eq!(
        Err(MagicCommandError::InvalidLength),
        MagicCommand::from("random_string::99999999999999999999999")
    );
    assert_eq!(
        Err(MagicCommandError::RandomIntegerArguments),
        MagicCommand::from("random_integer::1")
    );
    assert_eq!(
        Err(MagicCommandError::InvalidBound),
        MagicCommand::from("random_integer::1::2147483648")
    );
    assert_eq!(
        Err(MagicCommandError::InvalidBound),
        MagicCommand::from("random_integer::-2147483649::1")
    );
    assert_eq!(
        Err(MagicCommandError::InvalidBound),
        MagicCommand::from("random_integer::a::1")
    );
    assert_eq!(
        Err(MagicCommandError::RandomWordArguments),
        MagicCommand::from("random_word::1")
    );
    assert_eq!(Err(MagicCommandError::VariableArguments), MagicCommand::from("variable"));
    assert_eq!(
        Err(MagicCommandError::InvalidPath(JsonPathError::MissingRoot)),
        MagicCommand::from("variable::user")
    );
}
