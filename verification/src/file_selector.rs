//! The file selector's decisions: which entry of a folder is selected, and
//! what a key press asks for. Listing folders and creating files are left
//! to the caller, who hands over what a folder holds.

use crate::stdin_reader::KeyboardInput;
use crate::terminal_handler::{cursor_location, TerminalHandler};
use crate::text::visible;
use vstd::prelude::*;
use vstd::string::*;

verus! {

/// An entry of a folder: a folder, or a file of operations.
pub struct FileEntry {
    pub path: String,
    pub name: String,
    pub is_dir: bool,
}

/// Whether an entry is picked or the name of a new file is typed.
#[derive(Debug, Clone, Copy, PartialEq, Eq, Structural)]
pub enum State {
    Selection,
    NewFileNameTyping,
}

/// What the caller is to do after a key press.
#[derive(Debug, PartialEq, Eq)]
pub enum Command {
    /// Open the file in the editor.
    OpenFile(String),
    /// Create the file of this name in the folder and open it.
    CreateFile(String),
    /// Show the folder above the one shown.
    OpenParent,
    /// Show this folder.
    OpenFolder(String),
    /// Show the folder again.
    Refresh,
}

/// The selector of a file among the entries of a folder.
pub struct FileSelector {
    selection_index: usize,
    files: Vec<FileEntry>,
    state: State,
    new_file_name: Option<String>,
}

/// Mathematical model of a [`FileSelector`].
pub struct FileSelectorView {
    pub selection_index: int,
    /// The number of entries of the folder.
    pub files: int,
    pub state: State,
    pub new_file_name: Option<Seq<char>>,
}

/// Whether a character may stand in the name of a new file.
pub open spec fn is_name_char(code: u8) -> bool {
    (0x30 <= code <= 0x39) || (0x41 <= code <= 0x5a) || (0x61 <= code <= 0x7a) || code == 0x2e
        || code == 0x5f
}

impl FileSelectorView {
    /// The number of lines to select from: the folder above, the entries,
    /// and the line that creates a file.
    pub open spec fn elem_len(self) -> int {
        self.files + 2
    }

    /// The selector after a key press while an entry is picked. `Up` and
    /// `Down` go round; `Enter` on the first line or on a folder starts at
    /// the first line of what is shown next, and on the last line starts
    /// the typing of a name.
    pub open spec fn after_selection_key(self, input: KeyboardInput, on_dir: bool)
        -> FileSelectorView {
        match input {
            KeyboardInput::Up => FileSelectorView {
                selection_index: if self.selection_index == 0 {
                    self.elem_len() - 1
                } else {
                    self.selection_index - 1
                },
                ..self
            },
            KeyboardInput::Down => FileSelectorView {
                selection_index: if self.selection_index == self.elem_len() - 1 {
                    0
                } else {
                    self.selection_index + 1
                },
                ..self
            },
            KeyboardInput::Enter => if self.selection_index == 0 {
                self
            } else if self.selection_index == self.files + 1 {
                FileSelectorView {
                    state: State::NewFileNameTyping,
                    new_file_name: Some(Seq::empty()),
                    ..self
                }
            } else if on_dir {
                FileSelectorView { selection_index: 0, ..self }
            } else {
                self
            },
            _ => self,
        }
    }

    /// The selector after a key press while a name is typed.
    pub open spec fn after_typing_key(self, input: KeyboardInput) -> FileSelectorView {
        let name = match self.new_file_name {
            Some(name) => name,
            None => Seq::empty(),
        };
        match input {
            KeyboardInput::Enter | KeyboardInput::Escape => FileSelectorView {
                state: State::Selection,
                new_file_name: None,
                ..self
            },
            KeyboardInput::Backspace => FileSelectorView {
                new_file_name: Some(
                    if name.len() > 0 {
                        name.drop_last()
                    } else {
                        name
                    },
                ),
                ..self
            },
            KeyboardInput::VisibleChar(code) => if is_name_char(code) {
                FileSelectorView { new_file_name: Some(name.push(code as char)), ..self }
            } else {
                FileSelectorView { new_file_name: Some(name), ..self }
            },
            _ => FileSelectorView { new_file_name: Some(name), ..self },
        }
    }
}

/// The line of an entry: a folder between slashes behind `+`, a file
/// behind `|`.
pub open spec fn entry_line(entry: FileEntry) -> Seq<char> {
    if entry.is_dir {
        "+ /"@ + entry.name@ + "/"@
    } else {
        "| "@ + entry.name@
    }
}

/// A line of the selector: on blue ground if it is selected, else in blue.
pub open spec fn selector_line(line: Seq<char>, selected: bool) -> Seq<char> {
    (if selected {
        "\x1B[44m"@
    } else {
        "\x1B[34m"@
    }) + line + "\x1B[0m"@ + "\n\r"@
}

/// The lines of the entries from the `i`-th on, behind `acc`. The entry of
/// number `i` is line `i + 1`.
pub open spec fn entry_lines(files: Seq<FileEntry>, selected: int, i: int, acc: Seq<char>) -> Seq<
    char,
>
    decreases files.len() - i,
{
    if i < 0 || i >= files.len() {
        acc
    } else {
        entry_lines(
            files,
            selected,
            i + 1,
            acc + selector_line(entry_line(files[i]), selected == i + 1),
        )
    }
}

/// The last line of the selector: the file that the typed name stands for,
/// or the offer to create a file.
pub open spec fn last_line(folder: Seq<char>, new_file_name: Option<Seq<char>>) -> Seq<char> {
    match new_file_name {
        Some(name) => "New file: "@ + folder + "/"@ + name + ".graphql"@,
        None => "[ Create new file ]"@,
    }
}

/// The text of the screen of the selector.
pub open spec fn selector_screen(
    folder: Seq<char>,
    files: Seq<FileEntry>,
    selected: int,
    new_file_name: Option<Seq<char>>,
) -> Seq<char> {
    entry_lines(
        files,
        selected,
        0,
        "\x1b[?25l"@ + "\x1b[2J"@ + cursor_location(0, 0) + folder + "\n\r"@ + selector_line(
            ".."@,
            selected == 0,
        ),
    ) + selector_line(last_line(folder, new_file_name), selected == files.len() + 1)
        + "\x1b[?25h"@
}

impl View for FileSelector {
    type V = FileSelectorView;

    closed spec fn view(&self) -> FileSelectorView {
        FileSelectorView {
            selection_index: self.selection_index as int,
            files: self.files.len() as int,
            state: self.state,
            new_file_name: match self.new_file_name {
                Some(name) => Some(name@),
                None => None,
            },
        }
    }
}

impl FileSelector {
    /// The entries of the folder that is shown.
    pub closed spec fn entries(&self) -> Seq<FileEntry> {
        self.files@
    }

    /// The selector's invariant: the selected line exists, and a name is
    /// there while it is typed.
    pub closed spec fn well_formed(&self) -> bool {
        &&& self.files.len() <= usize::MAX - 2
        &&& self.selection_index < self.files.len() + 2
        &&& (self.state == State::NewFileNameTyping ==> self.new_file_name is Some)
    }

    /// A selector for the entries of a folder.
    pub fn new(files: Vec<FileEntry>) -> (selector: FileSelector)
        requires
            files.len() <= usize::MAX - 2,
        ensures
            selector.well_formed(),
            selector.entries() == files@,
            selector@ == (FileSelectorView {
                selection_index: 0,
                files: files.len() as int,
                state: State::Selection,
                new_file_name: None,
            }),
    {
        FileSelector { selection_index: 0, files, state: State::Selection, new_file_name: None }
    }

    fn elem_len(&self) -> (n: usize)
        requires
            self.well_formed(),
        ensures
            n == self@.elem_len(),
    {
        self.files.len() + 2
    }

    /// Does what the key stands for and says what is left for the caller to
    /// do. After all but `OpenFile` and `CreateFile` the folder is to be
    /// listed and shown again.
    pub fn update(&mut self, input: KeyboardInput) -> (command: Command)
        requires
            old(self).well_formed(),
        ensures
            final(self).well_formed(),
            final(self).entries() == old(self).entries(),
            old(self)@.state == State::Selection ==> {
                let selected = old(self)@.selection_index;
                let on_entry = 0 < selected <= old(self)@.files;
                let on_dir = on_entry && old(self).entries()[selected - 1].is_dir;
                &&& final(self)@ == old(self)@.after_selection_key(input, on_dir)
                &&& command == (if input == KeyboardInput::Enter && selected == 0 {
                    Command::OpenParent
                } else if input == KeyboardInput::Enter && on_entry {
                    if on_dir {
                        Command::OpenFolder(old(self).entries()[selected - 1].path)
                    } else {
                        Command::OpenFile(old(self).entries()[selected - 1].path)
                    }
                } else {
                    Command::Refresh
                })
            },
            old(self)@.state == State::NewFileNameTyping ==> {
                &&& final(self)@ == old(self)@.after_typing_key(input)
                &&& match command {
                    Command::CreateFile(name) => input == KeyboardInput::Enter && name@
                        == old(self)@.new_file_name->0 + ".graphql"@,
                    Command::Refresh => input != KeyboardInput::Enter,
                    _ => false,
                }
            },
    {
        match self.state {
            State::Selection => self.update_selection_state(input),
            State::NewFileNameTyping => self.update_new_file_name_typing_state(input),
        }
    }

    fn update_selection_state(&mut self, input: KeyboardInput) -> (command: Command)
        requires
            old(self).well_formed(),
            old(self).state == State::Selection,
        ensures
            final(self).well_formed(),
            final(self).entries() == old(self).entries(),
            ({
                let selected = old(self)@.selection_index;
                let on_entry = 0 < selected <= old(self)@.files;
                let on_dir = on_entry && old(self).entries()[selected - 1].is_dir;
                &&& final(self)@ == old(self)@.after_selection_key(input, on_dir)
                &&& command == (if input == KeyboardInput::Enter && selected == 0 {
                    Command::OpenParent
                } else if input == KeyboardInput::Enter && on_entry {
                    if on_dir {
                        Command::OpenFolder(old(self).entries()[selected - 1].path)
                    } else {
                        Command::OpenFile(old(self).entries()[selected - 1].path)
                    }
                } else {
                    Command::Refresh
                })
            }),
    {
        let n = self.elem_len();
        match input {
            KeyboardInput::Up => {
                self.selection_index = if self.selection_index == 0 {
                    n - 1
                } else {
                    self.selection_index - 1
                };
                Command::Refresh
            },
            KeyboardInput::Down => {
                self.selection_index = if self.selection_index == n - 1 {
                    0
                } else {
                    self.selection_index + 1
                };
                Command::Refresh
            },
            KeyboardInput::Enter => {
                if self.selection_index == 0 {
                    Command::OpenParent
                } else if self.selection_index == self.files.len() + 1 {
                    self.state_change_to_new_file_name_typing();
                    Command::Refresh
                } else {
                    let entry = &self.files[self.selection_index - 1];
                    if entry.is_dir {
                        let path = entry.path.clone();
                        self.selection_index = 0;
                        Command::OpenFolder(path)
                    } else {
                        Command::OpenFile(entry.path.clone())
                    }
                }
            },
            _ => Command::Refresh,
        }
    }

    fn update_new_file_name_typing_state(&mut self, input: KeyboardInput) -> (command: Command)
        requires
            old(self).well_formed(),
            old(self).state == State::NewFileNameTyping,
        ensures
            final(self).well_formed(),
            final(self).entries() == old(self).entries(),
            final(self)@ == old(self)@.after_typing_key(input),
            match command {
                Command::CreateFile(name) => input == KeyboardInput::Enter && name@
                    == old(self)@.new_file_name->0 + ".graphql"@,
                Command::Refresh => input != KeyboardInput::Enter,
                _ => false,
            },
    {
        let mut name = match &self.new_file_name {
            Some(name) => name.clone(),
            None => String::new(),
        };
        match input {
            KeyboardInput::Enter => {
                self.state_selection();
                Command::CreateFile(name.concat(".graphql"))
            },
            KeyboardInput::Backspace => {
                let len = name.as_str().unicode_len();
                if len > 0 {
                    name = name.as_str().substring_char(0, len - 1).to_owned();
                }
                assert(name@ =~= (if old(self)@.new_file_name->0.len() > 0 {
                    old(self)@.new_file_name->0.drop_last()
                } else {
                    old(self)@.new_file_name->0
                }));
                self.new_file_name = Some(name);
                Command::Refresh
            },
            KeyboardInput::VisibleChar(ch) => {
                if (0x30 <= ch && ch <= 0x39) || (0x41 <= ch && ch <= 0x5a) || (0x61 <= ch && ch
                    <= 0x7a) || ch == 0x2e || ch == 0x5f {
                    name.append(visible(ch));
                    assert(name@ =~= old(self)@.new_file_name->0.push(ch as char));
                }
                self.new_file_name = Some(name);
                Command::Refresh
            },
            KeyboardInput::Escape => {
                self.state_selection();
                Command::Refresh
            },
            _ => {
                self.new_file_name = Some(name);
                Command::Refresh
            },
        }
    }

    /// Takes the entries of the folder that is shown now and gives the
    /// text of the screen. A selected line that is no longer there gives
    /// way to the last line.
    pub fn refresh_screen(&mut self, folder: &str, files: Vec<FileEntry>) -> (screen: String)
        requires
            old(self).well_formed(),
            files.len() <= usize::MAX - 2,
        ensures
            final(self).well_formed(),
            final(self).entries() == files@,
            final(self)@ == (FileSelectorView {
                selection_index: if old(self)@.selection_index <= files.len() + 1 {
                    old(self)@.selection_index
                } else {
                    files.len() + 1
                },
                files: files.len() as int,
                ..old(self)@
            }),
            screen@ == selector_screen(
                folder@,
                files@,
                final(self)@.selection_index,
                final(self)@.new_file_name,
            ),
    {
        self.files = files;
        if self.selection_index > self.files.len() + 1 {
            self.selection_index = self.files.len() + 1;
        }
        FileSelectorPrinter::print(folder, &self.files, self.selection_index, &self.new_file_name)
    }

    fn state_change_to_new_file_name_typing(&mut self)
        requires
            old(self).well_formed(),
        ensures
            final(self).well_formed(),
            final(self).entries() == old(self).entries(),
            final(self)@ == (FileSelectorView {
                state: State::NewFileNameTyping,
                new_file_name: Some(Seq::empty()),
                ..old(self)@
            }),
    {
        self.state = State::NewFileNameTyping;
        self.new_file_name = Some(String::new());
    }

    fn state_selection(&mut self)
        requires
            old(self).well_formed(),
        ensures
            final(self).well_formed(),
            final(self).entries() == old(self).entries(),
            final(self)@ == (FileSelectorView {
                state: State::Selection,
                new_file_name: None,
                ..old(self)@
            }),
    {
        self.state = State::Selection;
        self.new_file_name = None;
    }
}

/// The printer of the file selector.
pub struct FileSelectorPrinter;

impl FileSelectorPrinter {
    pub fn new() -> (printer: FileSelectorPrinter) {
        FileSelectorPrinter
    }

    /// Appends a line of the selector.
    fn append_line(buf: &mut String, line: &str, selected: bool)
        ensures
            final(buf)@ == old(buf)@ + selector_line(line@, selected),
    {
        let ghost before = buf@;
        if selected {
            buf.append("\x1B[44m");
        } else {
            buf.append("\x1B[34m");
        }
        buf.append(line);
        buf.append("\x1B[0m");
        buf.append("\n\r");
        assert(buf@ =~= before + selector_line(line@, selected));
    }

    /// The text of the screen of the selector: the folder, the folder
    /// above, the entries, and the line that creates a file.
    pub fn print(
        folder: &str,
        file_paths: &Vec<FileEntry>,
        selected_index: usize,
        new_file_name: &Option<String>,
    ) -> (buf: String)
        ensures
            buf@ == selector_screen(
                folder@,
                file_paths@,
                selected_index as int,
                match new_file_name {
                    Some(name) => Some(name@),
                    None => None,
                },
            ),
    {
        let mut buf: String = String::new();
        TerminalHandler::append_hide_cursor(&mut buf);
        TerminalHandler::append_clear_screen(&mut buf);
        TerminalHandler::append_cursor_location(&mut buf, 0, 0);
        buf.append(folder);
        buf.append("\n\r");
        FileSelectorPrinter::append_line(&mut buf, "..", selected_index == 0);
        let ghost start = buf@;
        assert(start =~= "\x1b[?25l"@ + "\x1b[2J"@ + cursor_location(0, 0) + folder@ + "\n\r"@
            + selector_line(".."@, selected_index == 0));
        let mut i: usize = 0;
        while i < file_paths.len()
            invariant
                i <= file_paths.len(),
                entry_lines(file_paths@, selected_index as int, 0, start) == entry_lines(
                    file_paths@,
                    selected_index as int,
                    i as int,
                    buf@,
                ),
            decreases file_paths.len() - i,
        {
            let entry = &file_paths[i];
            let line = if entry.is_dir {
                "+ /".to_owned().concat(entry.name.as_str()).concat("/")
            } else {
                "| ".to_owned().concat(entry.name.as_str())
            };
            FileSelectorPrinter::append_line(
                &mut buf,
                line.as_str(),
                i < usize::MAX && selected_index == i + 1,
            );
            i += 1;
        }
        let last_line = match new_file_name {
            Some(file_name) => "New file: ".to_owned().concat(folder).concat("/").concat(
                file_name.as_str(),
            ).concat(".graphql"),
            None => "[ Create new file ]".to_owned(),
        };
        FileSelectorPrinter::append_line(
            &mut buf,
            last_line.as_str(),
            file_paths.len() < usize::MAX && selected_index == file_paths.len() + 1,
        );
        TerminalHandler::append_show_cursor(&mut buf);
        buf
    }
}

} // verus!
