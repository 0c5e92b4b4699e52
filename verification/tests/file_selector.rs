use gomqlet::file_selector::{Command, FileEntry, FileSelector, FileSelectorPrinter};
use gomqlet::stdin_reader::KeyboardInput;

fn entries() -> Vec<FileEntry> {
    vec![
        FileEntry { path: "/home/q/sub".into(), name: "sub".into(), is_dir: true },
        FileEntry { path: "/home/q/a.graphql".into(), name: "a.graphql".into(), is_dir: false },
    ]
}

fn screen(selected: &str) -> String {
    let line = |text: &str, number: &str| {
        if number == selected {
            format!("\x1B[44m{}\x1B[0m\n\r", text)
        } else {
            format!("\x1B[34m{}\x1B[0m\n\r", text)
        }
    };
    String::from("\x1b[?25l\x1b[2J\x1b[1;1H/home/q\n\r")
        + &line("..", "0")
        + &line("+ /sub/", "1")
        + &line("| a.graphql", "2")
        + &line("[ Create new file ]", "3")
        + "\x1b[?25h"
}

#[test]
fn selection_goes_round() {
    let mut selector = FileSelector::new(entries());
    assert_eq!(screen("0"), selector.refresh_screen("/home/q", entries()));
    assert_eq!(Command::Refresh, selector.update(KeyboardInput::Up));
    assert_eq!(screen("3"), selector.refresh_screen("/home/q", entries()));
    assert_eq!(Command::Refresh, selector.update(KeyboardInput::Down));
    assert_eq!(screen("0"), selector.refresh_screen("/home/q", entries()));
    assert_eq!(Command::Refresh, selector.update(KeyboardInput::Down));
    assert_eq!(Command::Refresh, selector.update(KeyboardInput::Down));
    assert_eq!(screen("2"), selector.refresh_screen("/home/q", entries()));
    assert_eq!(Command::Refresh, selector.update(KeyboardInput::Left));
    assert_eq!(screen("2"), selector.refresh_screen("/home/q", entries()));
}

#[test]
fn entries_are_opened() {
    let mut selector = FileSelector::new(entries());
    assert_eq!(Command::OpenParent, selector.update(KeyboardInput::Enter));
    selector.update(KeyboardInput::Down);
    selector.update(KeyboardInput::Down);
    assert_eq!(
        Command::OpenFile("/home/q/a.graphql".into()),
        selector.update(KeyboardInput::Enter)
    );
    assert_eq!(screen("2"), selector.refresh_screen("/home/q", entries()));
    selector.update(KeyboardInput::Up);
    assert_eq!(Command::OpenFolder("/home/q/sub".into()), selector.update(KeyboardInput::Enter));
    let shown = selector.refresh_screen("/home/q/sub", vec![]);
    assert_eq!(
        "\x1b[?25l\x1b[2J\x1b[1;1H/home/q/sub\n\r\x1B[44m..\x1B[0m\n\r\x1B[34m[ Create new file ]\x1B[0m\n\r\x1b[?25h",
        shown
    );
}

#[test]
fn the_selection_stays_on_the_screen() {
    let mut selector = FileSelector::new(entries());
    selector.update(KeyboardInput::Up);
    let shown = selector.refresh_screen("/", vec![]);
    assert!(shown.contains("\x1B[44m[ Create new file ]\x1B[0m"));
}

#[test]
fn new_files_are_named() {
    let mut selector = FileSelector::new(entries());
    selector.update(KeyboardInput::Up);
    assert_eq!(Command::Refresh, selector.update(KeyboardInput::Enter));
    let shown = selector.refresh_screen("/home/q", entries());
    assert!(shown.contains("\x1B[44mNew file: /home/q/.graphql\x1B[0m"));
    for code in "my_-q /1é.X".bytes() {
        assert_eq!(Command::Refresh, selector.update(KeyboardInput::VisibleChar(code)));
    }
    assert_eq!(Command::Refresh, selector.update(KeyboardInput::Backspace));
    assert_eq!(Command::Refresh, selector.update(KeyboardInput::Up));
    let shown = selector.refresh_screen("/home/q", entries());
    assert!(shown.contains("\x1B[44mNew file: /home/q/my_q1..graphql\x1B[0m"));
    assert_eq!(Command::CreateFile("my_q1..graphql".into()), selector.update(KeyboardInput::Enter));
    assert_eq!(screen("3"), selector.refresh_screen("/home/q", entries()));

    selector.update(KeyboardInput::Enter);
    selector.update(KeyboardInput::Backspace);
    selector.update(KeyboardInput::VisibleChar(b'a'));
    assert_eq!(Command::Refresh, selector.update(KeyboardInput::Escape));
    assert_eq!(screen("3"), selector.refresh_screen("/home/q", entries()));
    assert_eq!(Command::Refresh, selector.update(KeyboardInput::Enter));
    assert_eq!(Command::CreateFile(".graphql".into()), selector.update(KeyboardInput::Enter));
}

#[test]
fn the_printer_draws_the_selector() {
    let _ = FileSelectorPrinter::new();
    assert_eq!(screen("1"), FileSelectorPrinter::print("/home/q", &entries(), 1, &None));
    let shown = FileSelectorPrinter::print("/f", &vec![], 1, &Some("n".to_string()));
    assert_eq!(
        "\x1b[?25l\x1b[2J\x1b[1;1H/f\n\r\x1B[34m..\x1B[0m\n\r\x1B[44mNew file: /f/n.graphql\x1B[0m\n\r\x1b[?25h",
        shown
    );
}
