use gomqlet::analyzer::Analyzer;
use gomqlet::editor::{strip_noise, Editor, EditorRequest};
use gomqlet::editor_printer::EditorPrinter;
use gomqlet::json::Json;
use gomqlet::schema::Schema;
use gomqlet::stdin_reader::KeyboardInput;
use gomqlet::terminal_handler::TerminalHandler;
use gomqlet::text::{SourceFile, Text};
use gomqlet::tokenizer::{TokenKind, Tokenizer};

const INTROSPECTION: &str = r#"{
  "data": { "__schema": {
    "queryType": { "name": "Query" },
    "mutationType": { "name": "Mutation" },
    "types": [
      { "kind": "OBJECT", "name": "Query", "fields": [
        { "name": "user", "args": [], "type": { "kind": "OBJECT", "name": "User" } },
        { "name": "users", "args": [],
          "type": { "kind": "LIST", "ofType": { "kind": "OBJECT", "name": "User" } } }
      ] },
      { "kind": "OBJECT", "name": "User", "fields": [
        { "name": "id", "args": [], "type": { "kind": "SCALAR", "name": "ID" } },
        { "name": "name", "args": [], "type": { "kind": "SCALAR", "name": "String" } }
      ] },
      { "kind": "OBJECT", "name": "Mutation", "fields": [] }
    ]
  } }
}"#;

fn analyzer() -> Analyzer {
    Analyzer::new(Schema::from_introspection(&Json::parse(INTROSPECTION).unwrap()).unwrap())
}

fn editor(content: &str) -> Editor {
    let text = Text::new(Some(SourceFile { path: "q.graphql".into(), content: content.into() }));
    Editor::new(text, analyzer())
}

fn type_text(editor: &mut Editor, text: &str) {
    for code in text.bytes() {
        assert_eq!(EditorRequest::Nothing, editor.update(KeyboardInput::VisibleChar(code)));
    }
}

fn names(frame: &gomqlet::editor::Frame) -> Vec<&str> {
    frame.suggestions.as_ref().unwrap().elems.iter().map(|e| e.name.as_str()).collect()
}

#[test]
fn an_empty_buffer_offers_the_fields_of_the_query_root() {
    let mut editor = Editor::new(Text::new(None), analyzer());
    let frame = editor.refresh_screen();
    assert!(frame.parse_error.is_none());
    assert!(frame.definition_error.is_none());
    assert_eq!(vec!["user", "users"], names(&frame));
    assert!(frame.suggestions.as_ref().unwrap().token.is_none());
    assert_eq!(0, frame.tokens.len());
    assert_eq!((0, 0), (frame.cursor.x, frame.cursor.y));

    let mut blank = self::editor("  \n// nothing yet\n");
    let frame = blank.refresh_screen();
    assert_eq!(vec!["user", "users"], names(&frame));
    assert_eq!(3, frame.tokens.len());

    let json = Json::parse(
        r#"{"data": {"__schema": {"queryType": {"name": "Q"}, "mutationType": {"name": "M"},
            "types": []}}}"#,
    )
    .unwrap();
    let without_root = Analyzer::new(Schema::from_introspection(&json).unwrap());
    assert!(without_root.root_fields().is_none());
    let mut editor = Editor::new(Text::new(None), without_root);
    let frame = editor.refresh_screen();
    assert!(frame.suggestions.is_none());
    assert!(frame.parse_error.is_none());
    assert!(frame.definition_error.is_none());
}

#[test]
fn typing_and_picking_a_suggestion() {
    let mut editor = Editor::new(Text::new(None), analyzer());
    type_text(&mut editor, "{ us");
    assert_eq!(vec!["{ us}"], editor.content().lines);
    let frame = editor.refresh_screen();
    assert_eq!(vec!["user", "users"], names(&frame));
    assert!(!frame.suggestion_selection_mode);
    assert!(!frame.is_file_saved);

    assert_eq!(EditorRequest::Nothing, editor.update(KeyboardInput::AltDigit(1)));
    assert_eq!(vec!["{ users}"], editor.content().lines);
    assert_eq!(7, editor.content().cursor.x);
    let frame = editor.refresh_screen();
    assert!(frame.parse_error.is_none());
    assert_eq!(vec!["users"], names(&frame));

    type_text(&mut editor, " { ");
    let frame = editor.refresh_screen();
    assert_eq!(vec!["id", "name"], names(&frame));
    assert_eq!(EditorRequest::Nothing, editor.update(KeyboardInput::CtrlO));
    let frame = editor.refresh_screen();
    assert!(frame.suggestion_selection_mode);
    type_text(&mut editor, "1");
    assert_eq!(vec!["{ users { name}}"], editor.content().lines);
    let frame = editor.refresh_screen();
    assert!(!frame.suggestion_selection_mode);
    assert!(frame.parse_error.is_none());

    assert_eq!(EditorRequest::Nothing, editor.update(KeyboardInput::CtrlO));
    type_text(&mut editor, "x");
    assert_eq!(vec!["{ users { name}}"], editor.content().lines);
    assert_eq!(EditorRequest::Nothing, editor.update(KeyboardInput::AltDigit(7)));
    assert_eq!(vec!["{ users { name}}"], editor.content().lines);
}

#[test]
fn keys_edit_the_buffer() {
    let mut editor = editor("{\n  user\n}");
    assert_eq!(EditorRequest::Nothing, editor.update(KeyboardInput::Down));
    assert_eq!(EditorRequest::Nothing, editor.update(KeyboardInput::End));
    assert_eq!((6, 1), (editor.content().cursor.x, editor.content().cursor.y));
    assert_eq!(EditorRequest::Nothing, editor.update(KeyboardInput::Enter));
    assert_eq!(vec!["{", "  user", "  ", "}"], editor.content().lines);
    assert_eq!(EditorRequest::Nothing, editor.update(KeyboardInput::Tab));
    assert_eq!(vec!["{", "  user", "    ", "}"], editor.content().lines);
    assert_eq!(EditorRequest::Nothing, editor.update(KeyboardInput::CtrlW));
    assert_eq!(vec!["{", "  user", "", "}"], editor.content().lines);
    assert_eq!(EditorRequest::Nothing, editor.update(KeyboardInput::Backspace));
    assert_eq!(vec!["{", "  user", "}"], editor.content().lines);
    assert_eq!(EditorRequest::Nothing, editor.update(KeyboardInput::Delete));
    assert_eq!(vec!["{", "  user}"], editor.content().lines);
    assert_eq!(EditorRequest::Nothing, editor.update(KeyboardInput::CtrlSlash));
    assert_eq!(vec!["{", "//  user}"], editor.content().lines);
    assert_eq!(EditorRequest::Nothing, editor.update(KeyboardInput::Home));
    assert_eq!(EditorRequest::Nothing, editor.update(KeyboardInput::Right));
    assert_eq!(EditorRequest::Nothing, editor.update(KeyboardInput::Left));
    assert_eq!(EditorRequest::Nothing, editor.update(KeyboardInput::Left));
    assert_eq!(EditorRequest::Nothing, editor.update(KeyboardInput::Up));
    assert_eq!((1, 0), (editor.content().cursor.x, editor.content().cursor.y));
    assert_eq!(EditorRequest::Nothing, editor.update(KeyboardInput::Escape));
    assert_eq!(EditorRequest::Nothing, editor.update(KeyboardInput::ControlChar(1)));
    assert_eq!(EditorRequest::Nothing, editor.update(KeyboardInput::CtrlG));
    assert_eq!(vec!["{", "//  user}"], editor.content().lines);
    assert_eq!(EditorRequest::ReloadTerminalSize, editor.update(KeyboardInput::CtrlR));
    assert_eq!(EditorRequest::Save, editor.update(KeyboardInput::CtrlS));
    assert_eq!(EditorRequest::Save, editor.update(KeyboardInput::AltS));
    assert!(!editor.content().is_file_saved);
    editor.saved();
    assert!(editor.content().is_file_saved);
    editor.reload_from_file(SourceFile { path: "b".into(), content: "{ user }".into() });
    assert_eq!(vec!["{ user }"], editor.content().lines);
}

#[test]
fn errors_are_shown_in_the_frame() {
    let mut editor = editor("{ user");
    let frame = editor.refresh_screen();
    assert_eq!("Missing closing brace", frame.parse_error.as_ref().unwrap().message);
    assert!(frame.suggestions.is_none());
    assert!(frame.definition_error.is_none());
    assert_eq!(3, frame.tokens.len());
    assert_eq!(Some("q.graphql".to_string()), frame.file_name);
    assert!(frame.is_file_saved);

    let mut editor = self::editor("{ nope { x } }");
    for _ in 0..9 {
        editor.update(KeyboardInput::Right);
    }
    let frame = editor.refresh_screen();
    assert!(frame.parse_error.is_none());
    assert_eq!("Field nope not found", frame.definition_error.as_ref().unwrap().message());
}

#[test]
fn noise_is_stripped() {
    let tokens = Tokenizer::tokenize("{ a // b\n}", true);
    let kept = strip_noise(&tokens);
    assert_eq!(Tokenizer::tokenize("{ a // b\n}", false), kept);
    assert_eq!(3, kept.len());
    assert_eq!(TokenKind::CloseBrace, kept[2].kind);
}

#[test]
fn the_screen_of_a_frame() {
    let mut editor = editor("{\n  us\n}");
    editor.update(KeyboardInput::Down);
    editor.update(KeyboardInput::End);
    let frame = editor.refresh_screen();
    let mut printer = EditorPrinter::new((20, 6));
    let screen = printer.print(&frame);
    let expected = String::new()
        + "\x1b[?25l\x1b[2J\x1b[1;1H"
        + "\x1B[92m{\x1B[0m\n\r"
        + "\x1B[0m  \x1B[0m\x1B[93mus\x1B[0m\n\r"
        + "\x1B[92m}\x1B[0m"
        + "\x1b[1;11H\x1B[92m|\x1B[0m\x1B[90m0 \x1B[0m\x1B[97mu\x1B[0m\x1B[97ms\x1B[0m\x1B[32mer\x1B[0m \x1B[90mOb\x1B[0m"
        + "\x1b[2;11H\x1B[92m|\x1B[0m\x1B[90m1 \x1B[0m\x1B[97mu\x1B[0m\x1B[97ms\x1B[0m\x1B[32mers\x1B[0m \x1B[90m[\x1B[0m"
        + "\x1b[7;1H\x1B[7m GomQLet | q.graphql\x1B[0m"
        + "\x1b[2;5H\x1b[?25h";
    assert_eq!(expected, screen);
}

#[test]
fn the_screen_follows_the_cursor() {
    let mut editor = editor("a\nb\nc\nd\ne");
    for _ in 0..3 {
        editor.update(KeyboardInput::Down);
    }
    let frame = editor.refresh_screen();
    let mut printer = EditorPrinter::new((30, 3));
    let screen = printer.print(&frame);
    assert!(screen.starts_with(
        "\x1b[?25l\x1b[2J\x1b[1;1H\x1B[93mc\x1B[0m\n\r\x1B[93md\x1B[0m\x1b["
    ));
    assert!(screen.contains("PARSE ERROR"));
    assert!(screen.contains("\x1b[1;1H\x1B[1m\x1B[48;5;52mPARSE ERROR                   \x1B[0m"));
    assert!(screen.contains("\x1B[48;5;52mScope: Query                  \x1B[0m"));
    assert!(screen.contains("\x1B[48;5;52mAt token: \"a\" at 0            \x1B[0m"));
    assert!(screen.contains("\x1B[48;5;52mMissing opening brace         \x1B[0m"));
    assert!(screen.contains("\x1B[91m\x1B[4ma\x1B[0m") == false);
    assert!(screen.ends_with("\x1b[2;1H\x1b[?25h"));
    editor.update(KeyboardInput::Up);
    editor.update(KeyboardInput::Up);
    editor.update(KeyboardInput::Up);
    let screen = printer.print(&editor.refresh_screen());
    assert!(screen.starts_with("\x1b[?25l\x1b[2J\x1b[1;1H\x1B[91m\x1B[4ma\x1B[0m\n\r"));
    printer.reload_terminal_size((8, 2));
    let screen = printer.print(&editor.refresh_screen());
    assert!(screen.contains("\x1B[7m GomQLet\x1B[0m"));
    assert!(screen.contains("\x1B[48;5;52mPARSE ER\x1B[0m"));
    assert!(screen.contains("\x1B[48;5;52mROR     \x1B[0m"));
}

#[test]
fn definition_errors_on_the_screen() {
    let mut editor = editor("{ nope { x } }");
    for _ in 0..9 {
        editor.update(KeyboardInput::Right);
    }
    type_text(&mut editor, "é");
    let mut printer = EditorPrinter::new((40, 10));
    let screen = printer.print(&editor.refresh_screen());
    assert!(screen.contains(
        "\x1b[8;1H\x1B[1m\x1B[48;5;52mANALYZER ERROR                          \x1B[0m"
    ));
    assert!(screen.contains(
        "\x1b[9;1H\x1B[48;5;52mField nope not found                    \x1B[0m"
    ));
    assert!(screen.contains(" GomQLet | q.graphql "));
}

#[test]
fn escape_sequences_for_the_terminal() {
    let mut out = String::from("x");
    TerminalHandler::append_cursor_location(&mut out, 0, 0);
    TerminalHandler::append_cursor_location(&mut out, 4, 11);
    TerminalHandler::append_clear_screen(&mut out);
    TerminalHandler::append_hide_cursor(&mut out);
    TerminalHandler::append_show_cursor(&mut out);
    assert_eq!("x\x1b[1;1H\x1b[12;5H\x1b[2J\x1b[?25l\x1b[?25h", out);
    let mut out = String::new();
    TerminalHandler::append_cursor_location(&mut out, usize::MAX, usize::MAX);
    assert_eq!(format!("\x1b[{0};{0}H", usize::MAX as u128 + 1), out);
}
