use gomqlet::tokenizer::{Token, TokenKind, Tokenizer};

#[test]
fn tokenizer_test_empty() {
    let tokens = Tokenizer::tokenize("", false);
    assert_eq!(0, tokens.len());
}

#[test]
fn test_braces() {
    let tokens = Tokenizer::tokenize("{}", false);
    assert_eq!(2, tokens.len());
    assert_eq!(TokenKind::OpenBrace, tokens[0].kind);
    assert_eq!(TokenKind::CloseBrace, tokens[1].kind);
}

#[test]
fn test_brackets() {
    let tokens = Tokenizer::tokenize("[]", false);
    assert_eq!(2, tokens.len());
    assert_eq!(TokenKind::OpenBracket, tokens[0].kind);
    assert_eq!(TokenKind::CloseBracket, tokens[1].kind);
}

#[test]
fn test_keyword() {
    let tokens = Tokenizer::tokenize("{user}", false);
    assert_eq!(3, tokens.len());
    assert_eq!(TokenKind::OpenBrace, tokens[0].kind);
    assert_eq!(TokenKind::Keyword("user".into()), tokens[1].kind);
    assert_eq!(TokenKind::CloseBrace, tokens[2].kind);
}

#[test]
fn test_keyword_with_whitespaces() {
    let tokens = Tokenizer::tokenize("\t {     user  }    ", false);
    assert_eq!(3, tokens.len());
    assert_eq!(TokenKind::OpenBrace, tokens[0].kind);
    assert_eq!(TokenKind::Keyword("user".into()), tokens[1].kind);
    assert_eq!(TokenKind::CloseBrace, tokens[2].kind);
}

#[test]
fn test_paren_and_args() {
    let tokens = Tokenizer::tokenize("{ users(first: 1) }", false);
    assert_eq!(8, tokens.len());
    assert_eq!(TokenKind::OpenBrace, tokens[0].kind);
    assert_eq!(TokenKind::Keyword("users".into()), tokens[1].kind);
    assert_eq!(TokenKind::OpenParen, tokens[2].kind);
    assert_eq!(TokenKind::Keyword("first".into()), tokens[3].kind);
    assert_eq!(TokenKind::Colon, tokens[4].kind);
    assert_eq!(TokenKind::Number("1".to_string()), tokens[5].kind);
    assert_eq!(TokenKind::CloseParen, tokens[6].kind);
    assert_eq!(TokenKind::CloseBrace, tokens[7].kind);
}

#[test]
fn test_string() {
    let tokens = Tokenizer::tokenize("{ user(id: \"gid://user/1\") }", false);
    assert_eq!(8, tokens.len());
    assert_eq!(TokenKind::OpenBrace, tokens[0].kind);
    assert_eq!(TokenKind::Keyword("user".into()), tokens[1].kind);
    assert_eq!(TokenKind::OpenParen, tokens[2].kind);
    assert_eq!(TokenKind::Keyword("id".into()), tokens[3].kind);
    assert_eq!(TokenKind::Colon, tokens[4].kind);
    assert_eq!(TokenKind::Str("gid://user/1".into()), tokens[5].kind);
    assert_eq!(TokenKind::CloseParen, tokens[6].kind);
    assert_eq!(TokenKind::CloseBrace, tokens[7].kind);
}

#[test]
fn test_pos() {
    let tokens = Tokenizer::tokenize("   { \"hello\"\t123\n\n}", false);

    assert_eq!(4, tokens.len());

    assert_eq!(
        Token::new(TokenKind::OpenBrace, 3, 1, "{".into()),
        tokens[0]
    );
    assert_eq!(
        Token::new(TokenKind::Str("hello".into()), 5, 7, "\"hello\"".into()),
        tokens[1]
    );
    assert_eq!(
        Token::new(TokenKind::Number("123".to_string()), 13, 3, "123".into()),
        tokens[2]
    );
    assert_eq!(
        Token::new(TokenKind::CloseBrace, 18, 1, "}".into()),
        tokens[3]
    );
}

#[test]
fn test_comma() {
    let tokens = Tokenizer::tokenize("foo: \"bar\", bar: 123", false);

    assert_eq!(7, tokens.len());
    assert_eq!(TokenKind::Comma, tokens[3].kind);
}

#[test]
fn test_invalid_string() {
    let tokens = Tokenizer::tokenize("\"hello  ", true);

    assert_eq!(1, tokens.len());
    assert_eq!(
        TokenKind::Invalid("Invalid string token".into()),
        tokens[0].kind
    );
    assert_eq!("\"hello  ".to_string(), tokens[0].original);
}

#[test]
fn test_capital_and_snake_keyword() {
    let tokens = Tokenizer::tokenize("HELLO_WORLD", false);

    assert_eq!(1, tokens.len());
    assert_eq!(TokenKind::Keyword("HELLO_WORLD".into()), tokens[0].kind);
}

#[test]
fn test_line_break() {
    let tokens = Tokenizer::tokenize("  \n  ", true);
    assert_eq!(3, tokens.len());
    assert_eq!(TokenKind::LineBreak, tokens[1].kind);
}

#[test]
fn test_string_does_not_consume_newline() {
    let tokens = Tokenizer::tokenize("abc\"\ndef", true);
    assert_eq!(4, tokens.len());
    assert_eq!(TokenKind::LineBreak, tokens[2].kind);
}

#[test]
fn test_float() {
    let tokens = Tokenizer::tokenize("12.12 0.23", false);
    assert_eq!(2, tokens.len());
    assert_eq!(TokenKind::Number("12.12".to_string()), tokens[0].kind);
    assert_eq!(TokenKind::Number("0.23".to_string()), tokens[1].kind);
}

#[test]
fn test_negative() {
    let tokens = Tokenizer::tokenize("-0.12 -3", false);
    assert_eq!(2, tokens.len());
    assert_eq!(TokenKind::Number("-0.12".to_string()), tokens[0].kind);
    assert_eq!(TokenKind::Number("-3".to_string()), tokens[1].kind);
}

#[test]
fn test_magic_value() {
    let tokens = Tokenizer::tokenize("input(name: <command:params>)", false);
    assert_eq!(6, tokens.len());
    assert_eq!(
        TokenKind::MagicValue("command:params".to_string()),
        tokens[4].kind
    );
}

#[test]
fn test_ellipsis() {
    let tokens = Tokenizer::tokenize("... on {}", false);
    assert_eq!(4, tokens.len());
    assert_eq!(TokenKind::Ellipsis, tokens[0].kind);
}

#[test]
fn test_comment() {
    let tokens = Tokenizer::tokenize("foo\n// comment\nbar", true);
    assert_eq!(5, tokens.len());
    assert_eq!(TokenKind::Comment, tokens[2].kind);
}

#[test]
fn test_comment_is_skipped_when_no_whitespace() {
    let tokens = Tokenizer::tokenize("foo\n// comment\nbar", false);
    assert_eq!(2, tokens.len());
    assert_eq!(TokenKind::Keyword("foo".to_string()), tokens[0].kind);
    assert_eq!(TokenKind::Keyword("bar".to_string()), tokens[1].kind);
}

fn concat_originals(tokens: &[Token]) -> String {
    let mut out = String::new();
    for token in tokens {
        out.push_str(&token.original);
    }
    out
}

const SAMPLES: [&str; 12] = [
    "",
    "{ user(id: \"gid://user/1\") { name } }",
    "mutation { createUser(input: { role: AD }) { id } }",
    "\t {\n  users(first: 10, tags: [1, 2.5, -3]) // trailing\n}\n",
    "\"open string\nnext <magic::1> <open magic\n.. ... . / // c",
    "héllo wörld ✓ \u{1F600} {}",
    "a\"é\"b<ü>c//ö\nd",
    "é",
    ".",
    "..",
    "/",
    "\u{80}\u{7ff}\u{800}\u{ffff}\u{10000}",
];

#[test]
fn originals_spell_the_source() {
    for source in SAMPLES {
        let tokens = Tokenizer::tokenize(source, true);
        assert_eq!(source, concat_originals(&tokens));
    }
}

#[test]
fn lengths_add_up_to_the_source_length() {
    for source in SAMPLES {
        let tokens = Tokenizer::tokenize(source, true);
        let total: usize = tokens.iter().map(|t| t.len).sum();
        assert_eq!(source.len(), total);
        let mut pos = 0;
        for token in &tokens {
            assert_eq!(pos, token.pos);
            assert_eq!(token.len, token.original.len());
            assert_eq!(token.end_pos(), token.pos + token.len);
            pos += token.len;
        }
    }
}

#[test]
fn lines_spell_the_source() {
    for source in SAMPLES {
        let lines: Vec<String> = source.split("\n").map(|l| l.to_string()).collect();
        let tokens = Tokenizer::tokenize_lines(&lines, true);
        assert_eq!(source, concat_originals(&tokens));
        assert_eq!(Tokenizer::tokenize(source, true), tokens);
    }
}

#[test]
fn lines_are_joined_by_line_breaks() {
    let lines = vec!["{ user".to_string(), "}".to_string()];
    let tokens = Tokenizer::tokenize_lines(&lines, false);
    assert_eq!(3, tokens.len());
    assert_eq!(Token::new(TokenKind::CloseBrace, 7, 1, "}".into()), tokens[2]);
    assert_eq!(0, Tokenizer::tokenize_lines(&vec![], true).len());
}

#[test]
fn dropping_noise_keeps_positions() {
    for source in SAMPLES {
        let all = Tokenizer::tokenize(source, true);
        let kept: Vec<Token> = all.into_iter().filter(|t| !t.kind.is_noise()).collect();
        assert_eq!(kept, Tokenizer::tokenize(source, false));
    }
}

#[test]
fn invalid_tokens_are_kept() {
    let tokens = Tokenizer::tokenize("a # .. / <x", false);
    assert_eq!(6, tokens.len());
    assert_eq!(TokenKind::Invalid("Invalid character".into()), tokens[1].kind);
    assert_eq!(Token::new(TokenKind::Invalid("Invalid ellipsis chars".into()), 4, 1, ".".into()), tokens[2]);
    assert_eq!(Token::new(TokenKind::Invalid("Invalid ellipsis chars".into()), 5, 1, ".".into()), tokens[3]);
    assert_eq!(Token::new(TokenKind::Invalid("Invalid comment start".into()), 7, 1, "/".into()), tokens[4]);
    assert_eq!(
        Token::new(TokenKind::Invalid("Invalid magic value token".into()), 9, 2, "<x".into()),
        tokens[5]
    );
    let tokens = Tokenizer::tokenize("..", false);
    assert_eq!(2, tokens.len());
    assert_eq!(Token::new(TokenKind::Invalid("Invalid ellipsis length".into()), 0, 1, ".".into()), tokens[0]);
    assert_eq!(Token::new(TokenKind::Invalid("Invalid ellipsis length".into()), 1, 1, ".".into()), tokens[1]);
}

#[test]
fn a_character_outside_ascii_is_one_invalid_token() {
    let tokens = Tokenizer::tokenize("é{", false);
    assert_eq!(2, tokens.len());
    assert_eq!(Token::new(TokenKind::Invalid("Invalid character".into()), 0, 2, "é".into()), tokens[0]);
    assert_eq!(Token::new(TokenKind::OpenBrace, 2, 1, "{".into()), tokens[1]);
}

#[test]
fn token_ranges_include_the_end() {
    let token = Token::new(TokenKind::Keyword("user".into()), 2, 4, "user".into());
    assert_eq!(6, token.end_pos());
    assert!(token.range_inclusive().contains(&2));
    assert!(token.range_inclusive().contains(&6));
    assert!(!token.range_inclusive().contains(&7));
    assert!(!token.range_inclusive().contains(&1));
}

#[test]
fn colour_codes() {
    assert_eq!(92, TokenKind::OpenBrace.vt100_color_code());
    assert_eq!(96, TokenKind::CloseParen.vt100_color_code());
    assert_eq!(97, TokenKind::Comma.vt100_color_code());
    assert_eq!(93, TokenKind::Keyword("a".into()).vt100_color_code());
    assert_eq!(95, TokenKind::Number("1".into()).vt100_color_code());
    assert_eq!(94, TokenKind::Str("s".into()).vt100_color_code());
    assert_eq!(91, TokenKind::Invalid("x".into()).vt100_color_code());
    assert_eq!(44, TokenKind::MagicValue("m".into()).vt100_color_code());
    assert_eq!(90, TokenKind::Comment.vt100_color_code());
    assert_eq!(0, TokenKind::LineBreak.vt100_color_code());
    assert_eq!(0, TokenKind::OpenBracket.vt100_color_code());
}
