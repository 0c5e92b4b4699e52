use gomqlet::analyzer::{Suggestion, SuggestionElem};
use gomqlet::strings::{boundary_after, boundary_at_or_before};
use gomqlet::text::{spaces, visible, SourceFile, Text};
use gomqlet::tokenizer::{Token, TokenKind};

fn text_of(content: &str) -> Text {
    Text::new(Some(SourceFile { path: "a.graphql".into(), content: content.into() }))
}

fn at(content: &str, x: usize, y: usize) -> Text {
    let mut text = text_of(content);
    text.cursor.x = x;
    text.cursor.y = y;
    text
}

fn elem(name: &str) -> SuggestionElem {
    SuggestionElem { name: name.into(), kind: "Object".into(), fuzzy_match_positions: vec![] }
}

#[test]
fn test_minimal_flow() {
    let mut text = Text::new(None);

    assert_eq!(vec![""], text.lines);

    text.insert_visible_char('a');
    text.insert_visible_char('b');
    text.insert_visible_char('c');

    assert_eq!(vec!["abc"], text.lines);

    text.move_cursor_left();
    text.insert_visible_char('d');

    assert_eq!(vec!["abdc"], text.lines);
}

#[test]
fn content_is_split_into_lines() {
    assert_eq!(vec![""], text_of("").lines);
    assert_eq!(vec!["a"], text_of("a").lines);
    assert_eq!(vec!["a"], text_of("a\n").lines);
    assert_eq!(vec!["a", ""], text_of("a\n\n").lines);
    assert_eq!(vec!["a", "b"], text_of("a\r\nb").lines);
    assert_eq!(vec!["a", "b\r"], text_of("a\nb\r").lines);
    assert_eq!(vec!["", "é"], text_of("\né").lines);
    assert_eq!(vec![""], text_of("\n").lines);
    let text = text_of("{\n  a\n}");
    assert_eq!("{\n  a\n}", text.to_string());
    assert_eq!((0, 0), (text.cursor.x, text.cursor.y));
    assert!(text.is_file_saved);
    assert_eq!(Some("a.graphql".to_string()), text.file_path);
    assert_eq!(None, Text::new(None).file_path);
    let mut text = Text::new(None);
    text.insert_visible_char('x');
    text.reload_from_file(SourceFile { path: "b".into(), content: "q\nr".into() });
    assert_eq!(vec!["q", "r"], text.lines);
    assert_eq!(Some("b".to_string()), text.file_path);
    assert!(text.is_file_saved);
}

#[test]
fn typing() {
    let mut text = Text::new(None);
    text.insert_visible_char('{');
    assert_eq!(vec!["{}"], text.lines);
    assert_eq!(1, text.cursor.x);
    assert!(!text.is_file_saved);
    text.insert_visible_char('(');
    text.insert_visible_char('[');
    assert_eq!(vec!["{([])}"], text.lines);
    assert_eq!(3, text.cursor.x);
    text.insert_visible_char('\n');
    text.insert_visible_char('\u{7f}');
    text.insert_visible_char('é');
    text.insert_visible_char('\u{141}');
    assert_eq!(vec!["{([])}"], text.lines);
    text.insert_visible_char('~');
    text.insert_visible_char(' ');
    assert_eq!(vec!["{([~ ])}"], text.lines);
    text.mark_saved();
    assert!(text.is_file_saved);
}

#[test]
fn tabs_fill_up_to_the_next_stop() {
    let mut text = at("abc", 1, 0);
    text.insert_tab();
    assert_eq!(vec!["a bc"], text.lines);
    assert_eq!(2, text.cursor.x);
    text.insert_tab();
    assert_eq!(vec!["a   bc"], text.lines);
    assert_eq!(4, text.cursor.x);
}

#[test]
fn new_lines_keep_the_indentation() {
    let mut text = at("  a {b", 5, 0);
    text.insert_new_line();
    assert_eq!(vec!["  a {", "  b"], text.lines);
    assert_eq!((2, 1), (text.cursor.x, text.cursor.y));
    let mut text = at("    x", 2, 0);
    text.insert_new_line();
    assert_eq!(vec!["  ", "    x"], text.lines);
    assert_eq!((2, 1), (text.cursor.x, text.cursor.y));
    let mut text = at("a\nb", 1, 0);
    text.insert_new_line();
    assert_eq!(vec!["a", "", "b"], text.lines);
    assert_eq!((0, 1), (text.cursor.x, text.cursor.y));
}

#[test]
fn backspace_and_delete() {
    let mut text = at("héllo\nworld", 3, 0);
    text.backspace();
    assert_eq!(vec!["hllo", "world"], text.lines);
    assert_eq!(1, text.cursor.x);
    text.delete();
    assert_eq!(vec!["hlo", "world"], text.lines);
    assert_eq!(1, text.cursor.x);
    let mut text = at("hé\nworld", 0, 1);
    text.backspace();
    assert_eq!(vec!["héworld"], text.lines);
    assert_eq!((3, 0), (text.cursor.x, text.cursor.y));
    let mut text = at("hé\nworld", 3, 0);
    text.delete();
    assert_eq!(vec!["héworld"], text.lines);
    assert_eq!((3, 0), (text.cursor.x, text.cursor.y));
    let mut text = at("a", 0, 0);
    text.backspace();
    assert_eq!(vec!["a"], text.lines);
    assert!(!text.is_file_saved);
    let mut text = at("a", 1, 0);
    text.delete();
    assert_eq!(vec!["a"], text.lines);
    let mut text = at("aé", 1, 0);
    text.delete();
    assert_eq!(vec!["a"], text.lines);
}

#[test]
fn deleting_words() {
    let mut text = at("user(first: 10)", 4, 0);
    text.delete_word();
    assert_eq!(vec!["(first: 10)"], text.lines);
    assert_eq!(0, text.cursor.x);
    let mut text = at("a  \t b", 5, 0);
    text.delete_word();
    assert_eq!(vec!["ab"], text.lines);
    assert_eq!(1, text.cursor.x);
    let mut text = at("ab:{é(c", 7, 0);
    text.delete_word();
    assert_eq!(vec!["abc"], text.lines);
    assert_eq!(2, text.cursor.x);
    let mut text = at("a_b", 3, 0);
    text.delete_word();
    assert_eq!(vec!["a_"], text.lines);
    let mut text = at("a\nb", 0, 1);
    text.delete_word();
    assert_eq!(vec!["ab"], text.lines);
    assert_eq!((1, 0), (text.cursor.x, text.cursor.y));
}

#[test]
fn comments_are_toggled() {
    let mut text = at("  user", 3, 0);
    text.toggle_comment();
    assert_eq!(vec!["//  user"], text.lines);
    assert_eq!(3, text.cursor.x);
    text.toggle_comment();
    assert_eq!(vec!["  user"], text.lines);
    assert_eq!(3, text.cursor.x);
    let mut text = at("//a", 3, 0);
    text.toggle_comment();
    assert_eq!(vec!["a"], text.lines);
    assert_eq!(1, text.cursor.x);
    let mut text = at("/", 1, 0);
    text.toggle_comment();
    assert_eq!(vec!["///"], text.lines);
    let mut text = at("é", 0, 0);
    text.cursor.x = 2;
    text.toggle_comment();
    assert_eq!(vec!["//é"], text.lines);
    assert_eq!(2, text.cursor.x);
}

#[test]
fn cursor_moves() {
    let mut text = at("aé\n\nxyz", 3, 0);
    text.move_cursor_left();
    assert_eq!((1, 0), (text.cursor.x, text.cursor.y));
    text.move_cursor_left();
    text.move_cursor_left();
    assert_eq!((0, 0), (text.cursor.x, text.cursor.y));
    text.move_cursor_up();
    assert_eq!((0, 0), (text.cursor.x, text.cursor.y));
    text.move_cursor_right();
    text.move_cursor_right();
    assert_eq!((3, 0), (text.cursor.x, text.cursor.y));
    text.move_cursor_right();
    assert_eq!((0, 1), (text.cursor.x, text.cursor.y));
    text.move_cursor_left();
    assert_eq!((3, 0), (text.cursor.x, text.cursor.y));
    text.move_cursor_down();
    assert_eq!((0, 1), (text.cursor.x, text.cursor.y));
    text.move_cursor_down();
    text.move_cursor_to_end();
    assert_eq!((3, 2), (text.cursor.x, text.cursor.y));
    text.move_cursor_right();
    text.move_cursor_down();
    assert_eq!((3, 2), (text.cursor.x, text.cursor.y));
    text.move_cursor_up();
    assert_eq!((0, 1), (text.cursor.x, text.cursor.y));
    text.move_cursor_up();
    assert_eq!((0, 0), (text.cursor.x, text.cursor.y));
    text.move_cursor_to_end();
    text.move_cursor_to_home();
    assert_eq!((0, 0), (text.cursor.x, text.cursor.y));
    let mut text = at("xyz\naé", 2, 0);
    text.move_cursor_down();
    assert_eq!((1, 1), (text.cursor.x, text.cursor.y));
    assert!(text.is_file_saved);
}

#[test]
fn cursor_position_in_the_joined_text() {
    assert_eq!(0, at("abc\nde", 0, 0).new_line_adjusted_cursor_position());
    assert_eq!(3, at("abc\nde", 3, 0).new_line_adjusted_cursor_position());
    assert_eq!(4, at("abc\nde", 0, 1).new_line_adjusted_cursor_position());
    assert_eq!(6, at("abc\nde", 2, 1).new_line_adjusted_cursor_position());
    assert_eq!(6, at("é\n\nxyz", 2, 2).new_line_adjusted_cursor_position());
}

#[test]
fn suggestions_replace_their_token() {
    let mut text = at("{ us }", 4, 0);
    let suggestion = Suggestion {
        elems: vec![elem("user"), elem("users")],
        token: Some(Token::new(TokenKind::Keyword("us".into()), 2, 2, "us".into())),
    };
    text.apply_suggestion(&suggestion, 2);
    assert_eq!(vec!["{ us }"], text.lines);
    assert!(text.is_file_saved);
    text.apply_suggestion(&suggestion, 1);
    assert_eq!(vec!["{ users }"], text.lines);
    assert_eq!((7, 0), (text.cursor.x, text.cursor.y));
    assert!(!text.is_file_saved);

    let mut text = at("{\n  user {\n    na\n  }\n}", 6, 2);
    let suggestion = Suggestion {
        elems: vec![elem("name")],
        token: Some(Token::new(TokenKind::Keyword("na".into()), 15, 2, "na".into())),
    };
    text.apply_suggestion(&suggestion, 0);
    assert_eq!(vec!["{", "  user {", "    name", "  }", "}"], text.lines);
    assert_eq!((8, 2), (text.cursor.x, text.cursor.y));

    let mut text = at("{ ... on  }", 9, 0);
    let suggestion = Suggestion {
        elems: vec![elem("User")],
        token: Some(Token::new(TokenKind::Keyword("".into()), 9, 0, "".into())),
    };
    text.apply_suggestion(&suggestion, 0);
    assert_eq!(vec!["{ ... on User }"], text.lines);
    assert_eq!(13, text.cursor.x);

    let mut text = at("ab", 0, 0);
    let suggestion = Suggestion {
        elems: vec![elem("xyz")],
        token: Some(Token::new(TokenKind::Keyword("b".into()), 1, 10, "b".into())),
    };
    text.apply_suggestion(&suggestion, 0);
    assert_eq!(vec!["axyz"], text.lines);
    let suggestion = Suggestion {
        elems: vec![elem("!")],
        token: Some(Token::new(TokenKind::Keyword("".into()), 100, usize::MAX, "".into())),
    };
    text.apply_suggestion(&suggestion, 0);
    assert_eq!(vec!["axyz!"], text.lines);
}

#[test]
fn suggestions_without_token_are_inserted() {
    let mut text = at("{  }", 2, 0);
    let suggestion = Suggestion { elems: vec![elem("id"), elem("name")], token: None };
    text.apply_suggestion(&suggestion, 1);
    assert_eq!(vec!["{ name }"], text.lines);
    assert_eq!(6, text.cursor.x);
    text.apply_suggestion(&suggestion, 7);
    assert_eq!(vec!["{ name }"], text.lines);
}

#[test]
fn character_starts() {
    assert_eq!(0, boundary_at_or_before("aé✓", 0));
    assert_eq!(1, boundary_at_or_before("aé✓", 1));
    assert_eq!(1, boundary_at_or_before("aé✓", 2));
    assert_eq!(3, boundary_at_or_before("aé✓", 3));
    assert_eq!(3, boundary_at_or_before("aé✓", 5));
    assert_eq!(6, boundary_at_or_before("aé✓", 6));
    assert_eq!(6, boundary_at_or_before("aé✓", 60));
    assert_eq!(1, boundary_after("aé✓", 0));
    assert_eq!(3, boundary_after("aé✓", 1));
    assert_eq!(3, boundary_after("aé✓", 2));
    assert_eq!(6, boundary_after("aé✓", 3));
    assert_eq!("   ", spaces(3));
    assert_eq!("", spaces(0));
    for code in 32..=126u8 {
        assert_eq!((code as char).to_string(), visible(code));
    }
}
