//! The text buffer of the editor: lines without their line breaks and a
//! cursor that counts bytes. The cursor always stands where a character
//! starts or at the end of its line.

use crate::analyzer::Suggestion;
use crate::scan::{in_class, lemma_scan, scan, scan_run, ByteClass};
use crate::strings::{
    boundary_after, boundary_at_or_before, byte_len, floor_boundary, is_ascii_byte,
    lemma_boundary_after_ascii, lemma_boundary_at, lemma_encode_concat, lemma_floor_boundary,
    lemma_floor_boundary_beyond, lemma_floor_boundary_from, next_boundary, slice_string, splice,
    spliced,
};
use crate::tokenizer::join_lines;
use crate::util::CoordUsize;
use vstd::prelude::*;
use vstd::string::*;
use vstd::utf8::*;

verus! {

/// The width that a tab fills up to.
pub const TAB_SIZE: usize = 2;

/// A file that the buffer was read from.
pub struct SourceFile {
    pub path: String,
    pub content: String,
}

/// The text buffer.
pub struct Text {
    pub lines: Vec<String>,
    pub cursor: CoordUsize,
    pub file_path: Option<String>,
    pub is_file_saved: bool,
}

/// Mathematical model of a [`Text`]: the bytes of its lines and its cursor.
pub struct TextView {
    pub lines: Seq<Seq<u8>>,
    pub x: int,
    pub y: int,
    pub saved: bool,
}

/// The bytes of each line.
pub open spec fn line_bytes(lines: Seq<String>) -> Seq<Seq<u8>> {
    Seq::new(lines.len(), |i: int| encode_utf8(lines[i]@))
}

impl View for Text {
    type V = TextView;

    open spec fn view(&self) -> TextView {
        TextView {
            lines: line_bytes(self.lines@),
            x: self.cursor.x as int,
            y: self.cursor.y as int,
            saved: self.is_file_saved,
        }
    }
}

impl TextView {
    /// The line that the cursor is in.
    pub open spec fn line(self) -> Seq<u8> {
        self.lines[self.y]
    }

    /// The buffer's invariant: there is a line, the cursor is in a line,
    /// and it stands where a character starts or at the end of the line.
    pub open spec fn well_formed(self) -> bool {
        &&& self.lines.len() >= 1
        &&& 0 <= self.y < self.lines.len()
        &&& 0 <= self.x <= self.line().len()
        &&& is_char_boundary(self.line(), self.x)
    }

    /// The cursor one character to the left, or at the end of the line
    /// before at the start of a line.
    pub open spec fn moved_left(self) -> TextView {
        if self.x > 0 {
            TextView { x: floor_boundary(self.line(), self.x - 1), ..self }
        } else if self.y > 0 {
            TextView { x: self.lines[self.y - 1].len() as int, y: self.y - 1, ..self }
        } else {
            self
        }
    }

    /// The cursor one character to the right, or at the start of the next
    /// line at the end of a line.
    pub open spec fn moved_right(self) -> TextView {
        if self.x < self.line().len() {
            TextView { x: next_boundary(self.line(), self.x), ..self }
        } else if self.y < self.lines.len() - 1 {
            TextView { x: 0, y: self.y + 1, ..self }
        } else {
            self
        }
    }

    /// The cursor in the given line, as far to the right as it was if the
    /// line is long enough.
    pub open spec fn moved_to_line(self, y: int) -> TextView {
        TextView { x: floor_boundary(self.lines[y], self.x), y, ..self }
    }

    /// The cursor one line up.
    pub open spec fn moved_up(self) -> TextView {
        if self.y > 0 {
            self.moved_to_line(self.y - 1)
        } else {
            self
        }
    }

    /// The cursor one line down.
    pub open spec fn moved_down(self) -> TextView {
        if self.y < self.lines.len() - 1 {
            self.moved_to_line(self.y + 1)
        } else {
            self
        }
    }

    /// The line of the cursor with the bytes `start..end` replaced, and the
    /// cursor at `x`.
    pub open spec fn with_line_spliced(self, start: int, end: int, piece: Seq<u8>, x: int)
        -> TextView {
        TextView {
            lines: self.lines.update(self.y, spliced(self.line(), start, end, piece)),
            x,
            saved: false,
            ..self
        }
    }

    /// The buffer after a visible character was typed.
    pub open spec fn typed(self, code: u8) -> TextView {
        self.with_line_spliced(self.x, self.x, typed_piece(code), self.x + 1)
    }

    /// The buffer after a visible character was typed `n` times.
    pub open spec fn typed_times(self, code: u8, n: nat) -> TextView
        decreases n,
    {
        if n == 0 {
            self
        } else {
            self.typed_times(code, (n - 1) as nat).typed(code)
        }
    }

    /// The buffer after a tab: spaces up to the next multiple of the width
    /// of a tab.
    pub open spec fn tabbed(self) -> TextView {
        TextView { saved: false, ..self.typed_times(0x20, (TAB_SIZE - self.x % TAB_SIZE as int) as nat) }
    }

    /// The buffer after the line was broken at the cursor: what followed
    /// the cursor starts a new line, behind as many spaces as the line
    /// starts with before the cursor.
    pub open spec fn broken(self) -> TextView {
        let head = self.line().subrange(0, self.x);
        let tail = self.line().subrange(self.x, self.line().len() as int);
        let indent = scan(head, 0, ByteClass::Space);
        TextView {
            lines: self.lines.update(self.y, head).insert(
                self.y + 1,
                Seq::new(indent as nat, |i: int| 0x20u8) + tail,
            ),
            x: indent,
            y: self.y + 1,
            saved: false,
        }
    }

    /// The buffer with the line of the cursor and the next one in one line.
    pub open spec fn joined_with_next(self, y: int) -> Seq<Seq<u8>> {
        self.lines.update(y, self.lines[y] + self.lines[y + 1]).remove(y + 1)
    }

    /// The buffer after the character before the cursor was deleted, or the
    /// line break before the line at its start.
    pub open spec fn backspaced(self) -> TextView {
        if self.x > 0 {
            let start = floor_boundary(self.line(), self.x - 1);
            self.with_line_spliced(start, self.x, Seq::empty(), start)
        } else if self.y > 0 {
            TextView {
                lines: self.joined_with_next(self.y - 1),
                x: self.lines[self.y - 1].len() as int,
                y: self.y - 1,
                saved: false,
            }
        } else {
            TextView { saved: false, ..self }
        }
    }

    /// The buffer after the character at the cursor was deleted, or the
    /// line break at the end of the line.
    pub open spec fn deleted(self) -> TextView {
        if self.x < self.line().len() {
            self.with_line_spliced(
                self.x,
                next_boundary(self.line(), self.x),
                Seq::empty(),
                self.x,
            )
        } else if self.y < self.lines.len() - 1 {
            TextView { lines: self.joined_with_next(self.y), saved: false, ..self }
        } else {
            TextView { saved: false, ..self }
        }
    }

    /// The buffer after the word before the cursor was deleted: the run of
    /// letters and digits, of whitespace or of other bytes that ends there.
    pub open spec fn word_deleted(self) -> TextView {
        if self.x == 0 {
            self.backspaced()
        } else {
            let start = run_start(self.line(), self.x, delete_mode(self.line()[self.x - 1]));
            self.with_line_spliced(start, self.x, Seq::empty(), start)
        }
    }

    /// Whether the line of the cursor starts with `//`.
    pub open spec fn commented(self) -> bool {
        self.line().len() >= 2 && self.line()[0] == 0x2f && self.line()[1] == 0x2f
    }

    /// The buffer with `//` taken from the start of the line of the cursor
    /// if it starts with it, else put there. The cursor stays where it is
    /// in the line, if a character starts there.
    pub open spec fn comment_toggled(self) -> TextView {
        let line = if self.commented() {
            spliced(self.line(), 0, 2, Seq::empty())
        } else {
            spliced(self.line(), 0, 0, seq![0x2fu8, 0x2fu8])
        };
        TextView { lines: self.lines.update(self.y, line), x: floor_boundary(line, self.x), ..self }
    }

    /// The position of the cursor in the joined text, in which a line break
    /// follows each line.
    pub open spec fn cursor_position(self) -> int {
        line_offset(self.lines, self.y) + self.x
    }

    /// The place of a position of the joined text: its line, and in the
    /// line the start of the character that holds it.
    pub open spec fn place_of(self, pos: int) -> (int, int) {
        let y = line_of_position(self.lines, pos, 0);
        (floor_boundary(self.lines[y], pos - line_offset(self.lines, y)), y)
    }

    /// The buffer after the bytes of a token were replaced by a name: the
    /// bytes from the token's position on, as many as the token is long and
    /// the line has. The cursor follows the name.
    pub open spec fn with_token_replaced(self, pos: int, len: int, name: Seq<u8>) -> TextView {
        let (x, y) = self.place_of(pos);
        let line = self.lines[y];
        let end = floor_boundary(line, x + len);
        TextView {
            lines: self.lines.update(y, spliced(line, x, end, name)),
            x: x + name.len(),
            y,
            saved: false,
        }
    }

    /// The buffer after a name was put at the cursor. The cursor follows
    /// the name.
    pub open spec fn with_name_inserted(self, name: Seq<u8>) -> TextView {
        self.with_line_spliced(self.x, self.x, name, self.x + name.len())
    }
}

/// The bytes that typing a visible character puts at the cursor: the
/// character, and the closing bracket after an opening one.
pub open spec fn typed_piece(code: u8) -> Seq<u8> {
    if code == 0x5b {
        seq![code, 0x5du8]
    } else if code == 0x28 {
        seq![code, 0x29u8]
    } else if code == 0x7b {
        seq![code, 0x7du8]
    } else {
        seq![code]
    }
}

/// Whether the byte is a visible ASCII character.
pub open spec fn is_visible(code: int) -> bool {
    32 <= code <= 126
}

/// The classes of bytes that deleting a word tells apart.
#[derive(Clone, Copy, Debug, PartialEq, Eq, Structural)]
pub enum WordDeleteMode {
    Whitespace,
    Alphanumeric,
    Other,
}

/// The letters and digits of ASCII.
pub open spec fn is_alphanumeric_byte(c: u8) -> bool {
    (0x30 <= c <= 0x39) || (0x41 <= c <= 0x5a) || (0x61 <= c <= 0x7a)
}

/// The whitespace of ASCII.
pub open spec fn is_whitespace_byte(c: u8) -> bool {
    c == 0x20 || c == 0x09 || c == 0x0a || c == 0x0c || c == 0x0d
}

/// The class of a byte.
pub open spec fn delete_mode(c: u8) -> WordDeleteMode {
    if is_alphanumeric_byte(c) {
        WordDeleteMode::Alphanumeric
    } else if is_whitespace_byte(c) {
        WordDeleteMode::Whitespace
    } else {
        WordDeleteMode::Other
    }
}

/// Where the run of bytes of the class that ends at `x` starts.
pub open spec fn run_start(b: Seq<u8>, x: int, mode: WordDeleteMode) -> int
    decreases x,
{
    if 0 < x <= b.len() && delete_mode(b[x - 1]) == mode {
        run_start(b, x - 1, mode)
    } else {
        x
    }
}

/// The sum of the lengths of the first `y` lines, each with its line break.
pub open spec fn line_offset(lines: Seq<Seq<u8>>, y: int) -> int
    decreases y,
{
    if y <= 0 {
        0
    } else {
        line_offset(lines, y - 1) + lines[y - 1].len() + 1
    }
}

/// The line that holds the position of the joined text: the first one that
/// ends at or after it, from line `y` on, or the last line.
pub open spec fn line_of_position(lines: Seq<Seq<u8>>, pos: int, y: int) -> int
    decreases lines.len() - y,
{
    if y + 1 < lines.len() && line_offset(lines, y) + lines[y].len() < pos {
        line_of_position(lines, pos, y + 1)
    } else {
        y
    }
}

/// The lines of a file's content: what stands between its line breaks,
/// without the carriage return before a line break. A line break at the
/// end starts no line.
pub open spec fn content_lines(b: Seq<u8>, from: int, acc: Seq<Seq<u8>>) -> Seq<Seq<u8>>
    decreases b.len() - from,
{
    let end = scan(b, from, ByteClass::LineBody);
    if 0 <= from <= end < b.len() {
        proof {
            lemma_scan(b, from, ByteClass::LineBody);
        }
        let stop = if from < end && b[end - 1] == 0x0d {
            end - 1
        } else {
            end
        };
        content_lines(b, end + 1, acc.push(b.subrange(from, stop)))
    } else if 0 <= from < b.len() {
        acc.push(b.subrange(from, b.len() as int))
    } else {
        acc
    }
}

/// The lines of a buffer for the given content: its lines, or one empty
/// line where it has none.
pub open spec fn buffer_lines(b: Seq<u8>) -> Seq<Seq<u8>> {
    let lines = content_lines(b, 0, Seq::empty());
    if lines.len() == 0 {
        seq![Seq::empty()]
    } else {
        lines
    }
}

/// Replacing a part of a text by a text leaves a text, in which the
/// replacement starts and ends where characters start.
pub proof fn lemma_spliced(b: Seq<u8>, start: int, end: int, piece: Seq<u8>)
    requires
        valid_utf8(b),
        valid_utf8(piece),
        0 <= start <= end <= b.len(),
        is_char_boundary(b, start),
        is_char_boundary(b, end),
    ensures
        valid_utf8(spliced(b, start, end, piece)),
        is_char_boundary(spliced(b, start, end, piece), start),
        is_char_boundary(spliced(b, start, end, piece), start + piece.len()),
        spliced(b, start, end, piece).len() == b.len() - (end - start) + piece.len(),
{
    let head = b.subrange(0, start);
    let tail = b.subrange(end, b.len() as int);
    let new = spliced(b, start, end, piece);
    valid_utf8_split(b, start);
    valid_utf8_split(b, end);
    valid_utf8_concat(head, piece);
    valid_utf8_concat(head + piece, tail);
    if tail.len() > 0 {
        is_char_boundary_iff_not_is_continuation_byte(b, end);
        assert(new[start + piece.len()] == b[end]);
    }
    lemma_boundary_at(new, start + piece.len());
    if piece.len() > 0 {
        is_char_boundary_start_end_of_seq(piece);
        is_char_boundary_iff_not_is_continuation_byte(piece, 0);
        assert(new[start] == piece[0]);
        lemma_boundary_at(new, start);
    }
}

/// The bytes of a visible character.
pub fn visible(code: u8) -> (r: &'static str)
    requires
        is_visible(code as int),
    ensures
        r.spec_bytes() == seq![code],
        r@ == seq![code as char],
{
    let table =
        " !\"#$%&'()*+,-./0123456789:;<=>?@ABCDEFGHIJKLMNOPQRSTUVWXYZ[\\]^_`abcdefghijklmnopqrstuvwxyz{|}~";
    proof {
        reveal_strlit(
            " !\"#$%&'()*+,-./0123456789:;<=>?@ABCDEFGHIJKLMNOPQRSTUVWXYZ[\\]^_`abcdefghijklmnopqrstuvwxyz{|}~",
        );
    }
    assert(table@.len() == 95);
    assert(table.is_ascii());
    let index = (code - 32) as usize;
    let r = table.substring_ascii(index, index + 1);
    assert(table@[index as int] == code as char);
    assert(r@ =~= seq![code as char]);
    proof {
        is_ascii_chars_encode_utf8(r@);
        assert(r.spec_bytes() =~= seq![code]);
    }
    r
}

/// The given number of spaces.
pub fn spaces(n: usize) -> (r: String)
    ensures
        encode_utf8(r@) == Seq::new(n as nat, |i: int| 0x20u8),
{
    let mut r = String::new();
    let mut i: usize = 0;
    proof {
        assert(encode_utf8(r@) =~= Seq::new(0, |i: int| 0x20u8));
    }
    while i < n
        invariant
            i <= n,
            encode_utf8(r@) == Seq::new(i as nat, |j: int| 0x20u8),
        decreases n - i,
    {
        let space = visible(0x20);
        proof {
            lemma_encode_concat(r@, space@);
        }
        r.append(space);
        assert(encode_utf8(r@) =~= Seq::new((i + 1) as nat, |j: int| 0x20u8));
        i += 1;
    }
    r
}


impl Text {
    /// The buffer's invariant.
    pub open spec fn well_formed(&self) -> bool {
        self@.well_formed()
    }

    /// Moves the cursor one character to the left.
    pub fn move_cursor_left(&mut self)
        requires
            old(self).well_formed(),
        ensures
            final(self).well_formed(),
            final(self)@ == old(self)@.moved_left(),
            final(self).file_path == old(self).file_path,
    {
        proof {
            encode_utf8_valid_utf8(self.lines[self.cursor.y as int]@);
            lemma_floor_boundary(self@.line(), self.cursor.x - 1);
        }
        if self.cursor.x > 0 {
            self.cursor.x = boundary_at_or_before(
                self.lines[self.cursor.y].as_str(),
                self.cursor.x - 1,
            );
        } else if self.cursor.y > 0 {
            self.cursor.y -= 1;
            self.cursor.x = byte_len(self.lines[self.cursor.y].as_str());
            proof {
                encode_utf8_valid_utf8(self.lines[self.cursor.y as int]@);
                is_char_boundary_start_end_of_seq(self@.line());
            }
        }
    }

    /// Moves the cursor one character to the right.
    pub fn move_cursor_right(&mut self)
        requires
            old(self).well_formed(),
        ensures
            final(self).well_formed(),
            final(self)@ == old(self)@.moved_right(),
            final(self).file_path == old(self).file_path,
    {
        if self.cursor.x < byte_len(self.lines[self.cursor.y].as_str()) {
            self.cursor.x = boundary_after(self.lines[self.cursor.y].as_str(), self.cursor.x);
        } else if self.cursor.y < self.lines.len() - 1 {
            self.cursor.y += 1;
            self.cursor.x = 0;
            proof {
                encode_utf8_valid_utf8(self.lines[self.cursor.y as int]@);
                is_char_boundary_start_end_of_seq(self@.line());
            }
        }
    }

    /// Moves the cursor one line up.
    pub fn move_cursor_up(&mut self)
        requires
            old(self).well_formed(),
        ensures
            final(self).well_formed(),
            final(self)@ == old(self)@.moved_up(),
            final(self).file_path == old(self).file_path,
    {
        if self.cursor.y > 0 {
            self.cursor.y -= 1;
            self.cursor.x = boundary_at_or_before(
                self.lines[self.cursor.y].as_str(),
                self.cursor.x,
            );
        }
    }

    /// Moves the cursor one line down.
    pub fn move_cursor_down(&mut self)
        requires
            old(self).well_formed(),
        ensures
            final(self).well_formed(),
            final(self)@ == old(self)@.moved_down(),
            final(self).file_path == old(self).file_path,
    {
        if self.cursor.y < self.lines.len() - 1 {
            self.cursor.y += 1;
            self.cursor.x = boundary_at_or_before(
                self.lines[self.cursor.y].as_str(),
                self.cursor.x,
            );
        }
    }

    /// Moves the cursor to the start of its line.
    pub fn move_cursor_to_home(&mut self)
        requires
            old(self).well_formed(),
        ensures
            final(self).well_formed(),
            final(self)@ == (TextView { x: 0, ..old(self)@ }),
            final(self).file_path == old(self).file_path,
    {
        self.cursor.x = 0;
        proof {
            encode_utf8_valid_utf8(self.lines[self.cursor.y as int]@);
            is_char_boundary_start_end_of_seq(self@.line());
        }
    }

    /// Moves the cursor to the end of its line.
    pub fn move_cursor_to_end(&mut self)
        requires
            old(self).well_formed(),
        ensures
            final(self).well_formed(),
            final(self)@ == (TextView { x: old(self)@.line().len() as int, ..old(self)@ }),
            final(self).file_path == old(self).file_path,
    {
        self.cursor.x = byte_len(self.lines[self.cursor.y].as_str());
        proof {
            encode_utf8_valid_utf8(self.lines[self.cursor.y as int]@);
            is_char_boundary_start_end_of_seq(self@.line());
        }
    }

    /// A buffer for the content of a file, or one empty line.
    pub fn new(file: Option<SourceFile>) -> (text: Text)
        ensures
            text.well_formed(),
            text@ == (TextView {
                lines: match file {
                    Some(source) => buffer_lines(encode_utf8(source.content@)),
                    None => seq![Seq::empty()],
                },
                x: 0,
                y: 0,
                saved: true,
            }),
            text.file_path == (match file {
                Some(source) => Some(source.path),
                None => None,
            }),
    {
        let (lines, file_path) = match file {
            Some(source) => (Text::lines_of(source.content.as_str()), Some(source.path)),
            None => (Text::lines_of(""), None),
        };
        proof {
            reveal_strlit("");
            assert(encode_utf8(""@) =~= Seq::<u8>::empty());
            assert(content_lines(Seq::<u8>::empty(), 0, Seq::empty()) =~= Seq::<Seq<u8>>::empty());
            encode_utf8_valid_utf8(lines[0]@);
            is_char_boundary_start_end_of_seq(encode_utf8(lines[0]@));
        }
        Text { lines, cursor: CoordUsize { x: 0, y: 0 }, file_path, is_file_saved: true }
    }

    /// Takes the content of a file in the place of what the buffer holds.
    pub fn reload_from_file(&mut self, file: SourceFile)
        ensures
            final(self).well_formed(),
            final(self)@ == (TextView {
                lines: buffer_lines(encode_utf8(file.content@)),
                x: 0,
                y: 0,
                saved: true,
            }),
            final(self).file_path == Some(file.path),
    {
        let lines = Text::lines_of(file.content.as_str());
        proof {
            encode_utf8_valid_utf8(lines[0]@);
            is_char_boundary_start_end_of_seq(encode_utf8(lines[0]@));
        }
        self.lines = lines;
        self.cursor = CoordUsize { x: 0, y: 0 };
        self.file_path = Some(file.path);
        self.is_file_saved = true;
    }

    /// The lines of a buffer for the given content.
    fn lines_of(content: &str) -> (lines: Vec<String>)
        ensures
            line_bytes(lines@) == buffer_lines(content.spec_bytes()),
            lines.len() >= 1,
    {
        let bytes = content.as_bytes();
        let mut lines: Vec<String> = Vec::new();
        let mut from: usize = 0;
        proof {
            encode_utf8_valid_utf8(content@);
            is_char_boundary_start_end_of_seq(bytes@);
        }
        assert(line_bytes(lines@) =~= Seq::<Seq<u8>>::empty());
        while from < bytes.len()
            invariant
                bytes@ == content.spec_bytes(),
                valid_utf8(bytes@),
                from <= bytes.len(),
                is_char_boundary(bytes@, from as int),
                content_lines(bytes@, 0, Seq::empty()) == content_lines(
                    bytes@,
                    from as int,
                    line_bytes(lines@),
                ),
            decreases bytes.len() - from,
        {
            let end = scan_run(bytes, from, ByteClass::LineBody);
            let ghost before = line_bytes(lines@);
            proof {
                lemma_scan(bytes@, from as int, ByteClass::LineBody);
                lemma_boundary_at(bytes@, end as int);
            }
            if end < bytes.len() {
                let stop = if from < end && bytes[end - 1] == 0x0d {
                    end - 1
                } else {
                    end
                };
                proof {
                    lemma_boundary_at(bytes@, stop as int);
                    lemma_boundary_after_ascii(bytes@, end as int);
                }
                let line = slice_string(content, from, stop);
                lines.push(line);
                assert(line_bytes(lines@) =~= before.push(bytes@.subrange(from as int, stop as int)));
                from = end + 1;
            } else {
                let line = slice_string(content, from, end);
                lines.push(line);
                assert(line_bytes(lines@) =~= before.push(
                    bytes@.subrange(from as int, bytes.len() as int),
                ));
                from = end;
            }
        }
        if lines.len() == 0 {
            lines.push(String::new());
            assert(line_bytes(lines@) =~= seq![Seq::<u8>::empty()]);
        }
        lines
    }

    /// The lines joined into one text, with a line break between each two.
    pub fn to_string(&self) -> (r: String)
        ensures
            r@ == join_lines(self.lines.deep_view()),
    {
        crate::tokenizer::join(&self.lines)
    }

    /// Notes that the buffer was written to its file.
    pub fn mark_saved(&mut self)
        ensures
            final(self)@ == (TextView { saved: true, ..old(self)@ }),
            final(self).file_path == old(self).file_path,
    {
        self.is_file_saved = true;
    }

    /// Replaces the bytes `start..end` of the line of the cursor and puts
    /// the cursor behind the replacement, or before it.
    fn splice_line(&mut self, start: usize, end: usize, piece: &str, behind: bool)
        requires
            old(self).well_formed(),
            start <= end <= old(self)@.line().len(),
            is_char_boundary(old(self)@.line(), start as int),
            is_char_boundary(old(self)@.line(), end as int),
        ensures
            final(self).well_formed(),
            final(self)@ == old(self)@.with_line_spliced(
                start as int,
                end as int,
                piece.spec_bytes(),
                if behind {
                    start + piece.spec_bytes().len()
                } else {
                    start as int
                },
            ),
            final(self).file_path == old(self).file_path,
    {
        let ghost before = self@;
        proof {
            encode_utf8_valid_utf8(self.lines[self.cursor.y as int]@);
            encode_utf8_valid_utf8(piece@);
            lemma_spliced(before.line(), start as int, end as int, piece.spec_bytes());
        }
        let line = splice(self.lines[self.cursor.y].as_str(), start, end, piece);
        let new_len = byte_len(line.as_str());
        self.lines[self.cursor.y] = line;
        self.cursor.x = if behind {
            start + byte_len(piece)
        } else {
            start
        };
        self.is_file_saved = false;
        assert(self@.lines =~= before.lines.update(
            before.y,
            spliced(before.line(), start as int, end as int, piece.spec_bytes()),
        ));
    }

    /// Breaks the line at the cursor and keeps the indentation.
    pub fn insert_new_line(&mut self)
        requires
            old(self).well_formed(),
            old(self).lines.len() < usize::MAX,
        ensures
            final(self).well_formed(),
            final(self)@ == old(self)@.broken(),
            final(self).file_path == old(self).file_path,
    {
        let ghost before = self@;
        let y = self.cursor.y;
        let x = self.cursor.x;
        proof {
            encode_utf8_valid_utf8(self.lines[y as int]@);
            is_char_boundary_start_end_of_seq(before.line());
        }
        let len = byte_len(self.lines[y].as_str());
        let fragment_to_split = slice_string(self.lines[y].as_str(), x, len);
        let head = slice_string(self.lines[y].as_str(), 0, x);
        let new_line_spaces_len = Text::front_space_length(head.as_str());
        let new_prefix = spaces(new_line_spaces_len);
        proof {
            lemma_encode_concat(new_prefix@, fragment_to_split@);
            encode_utf8_valid_utf8(new_prefix@ + fragment_to_split@);
            assert forall|i: int| 0 <= i < new_line_spaces_len implies is_ascii_byte(
                #[trigger] encode_utf8(new_prefix@ + fragment_to_split@)[i],
            ) by {}
            is_char_boundary_start_end_of_seq(encode_utf8(new_prefix@ + fragment_to_split@));
            crate::strings::lemma_boundary_after_ascii_run(
                encode_utf8(new_prefix@ + fragment_to_split@),
                0,
                new_line_spaces_len as int,
            );
        }
        let new_line = new_prefix.concat(fragment_to_split.as_str());
        self.lines[y] = head;
        self.lines.insert(y + 1, new_line);
        self.cursor.x = new_line_spaces_len;
        self.cursor.y = y + 1;
        self.is_file_saved = false;
        assert(self@.lines =~= before.broken().lines);
    }

    /// Types a character. Only the visible characters of ASCII are taken;
    /// an opening bracket brings its closing bracket with it.
    pub fn insert_visible_char(&mut self, ch: char)
        requires
            old(self).well_formed(),
        ensures
            final(self).well_formed(),
            final(self)@ == (if is_visible(ch as int) {
                old(self)@.typed(ch as u8)
            } else {
                old(self)@
            }),
            final(self).file_path == old(self).file_path,
    {
        let code = ch as u32;
        if code < 32 || code > 126 {
            return ;
        }
        let code = code as u8;
        let opposite: Option<u8> = if code == 0x5b {
            Some(0x5d)
        } else if code == 0x28 {
            Some(0x29)
        } else if code == 0x7b {
            Some(0x7d)
        } else {
            None
        };
        let piece = match opposite {
            Some(opposite) => {
                let first = visible(code);
                let second = visible(opposite);
                proof {
                    lemma_encode_concat(first@, second@);
                }
                let piece = first.to_owned().concat(second);
                assert(encode_utf8(piece@) =~= typed_piece(code));
                piece
            },
            None => visible(code).to_owned(),
        };
        let x = self.cursor.x;
        proof {
            encode_utf8_valid_utf8(self.lines[self.cursor.y as int]@);
            encode_utf8_valid_utf8(piece@);
            lemma_spliced(self@.line(), x as int, x as int, encode_utf8(piece@));
            let line = spliced(self@.line(), x as int, x as int, encode_utf8(piece@));
            assert(line[x as int] == code);
            lemma_boundary_after_ascii(line, x as int);
        }
        self.type_piece(piece.as_str());
    }

    /// Puts the bytes of a typed character at the cursor and moves the
    /// cursor behind the first of them.
    fn type_piece(&mut self, piece: &str)
        requires
            old(self).well_formed(),
            piece.spec_bytes().len() >= 1,
            is_char_boundary(
                spliced(
                    old(self)@.line(),
                    old(self)@.x,
                    old(self)@.x,
                    piece.spec_bytes(),
                ),
                old(self)@.x + 1,
            ),
        ensures
            final(self).well_formed(),
            final(self)@ == old(self)@.with_line_spliced(
                old(self)@.x,
                old(self)@.x,
                piece.spec_bytes(),
                old(self)@.x + 1,
            ),
            final(self).file_path == old(self).file_path,
    {
        let ghost before = self@;
        let x = self.cursor.x;
        proof {
            encode_utf8_valid_utf8(self.lines[self.cursor.y as int]@);
            encode_utf8_valid_utf8(piece@);
            lemma_spliced(before.line(), x as int, x as int, piece.spec_bytes());
        }
        let line = splice(self.lines[self.cursor.y].as_str(), x, x, piece);
        let new_len = byte_len(line.as_str());
        self.lines[self.cursor.y] = line;
        self.cursor.x = x + 1;
        self.is_file_saved = false;
        assert(self@.lines =~= before.lines.update(
            before.y,
            spliced(before.line(), x as int, x as int, piece.spec_bytes()),
        ));
    }

    /// Puts spaces at the cursor up to the next multiple of the width of a
    /// tab.
    pub fn insert_tab(&mut self)
        requires
            old(self).well_formed(),
        ensures
            final(self).well_formed(),
            final(self)@ == old(self)@.tabbed(),
            final(self).file_path == old(self).file_path,
    {
        let remaining_spaces = TAB_SIZE - (self.cursor.x % TAB_SIZE);
        let mut i: usize = 0;
        while i < remaining_spaces
            invariant
                i <= remaining_spaces,
                self.well_formed(),
                self@ == old(self)@.typed_times(0x20, i as nat),
                self.file_path == old(self).file_path,
            decreases remaining_spaces - i,
        {
            self.insert_visible_char(' ');
            i += 1;
        }
        self.is_file_saved = false;
    }

    /// Puts the next line at the end of line `y` and takes it out.
    fn join_with_next(&mut self, y: usize)
        requires
            y + 1 < old(self).lines.len(),
        ensures
            final(self).lines.len() == old(self).lines.len() - 1,
            line_bytes(final(self).lines@) == old(self)@.joined_with_next(y as int),
            final(self).cursor == old(self).cursor,
            final(self).is_file_saved == old(self).is_file_saved,
            final(self).file_path == old(self).file_path,
    {
        let ghost before = self@;
        let next_line_content = self.lines.remove(y + 1);
        proof {
            lemma_encode_concat(self.lines[y as int]@, next_line_content@);
        }
        let mut line = self.lines[y].clone();
        line.append(next_line_content.as_str());
        self.lines[y] = line;
        assert(line_bytes(self.lines@) =~= before.joined_with_next(y as int));
    }

    /// Deletes the character before the cursor, or joins the line to the
    /// one before.
    pub fn backspace(&mut self)
        requires
            old(self).well_formed(),
        ensures
            final(self).well_formed(),
            final(self)@ == old(self)@.backspaced(),
            final(self).file_path == old(self).file_path,
    {
        if self.cursor.x > 0 {
            let x = self.cursor.x;
            let start = boundary_at_or_before(self.lines[self.cursor.y].as_str(), x - 1);
            proof {
                reveal_strlit("");
                assert(""@ =~= Seq::<char>::empty());
                assert(encode_utf8(Seq::<char>::empty()) =~= Seq::<u8>::empty());
            }
            self.splice_line(start, x, "", false);
        } else {
            if self.cursor.y > 0 {
                let y = self.cursor.y - 1;
                let prev_line_len = byte_len(self.lines[y].as_str());
                proof {
                    lemma_encode_concat(self.lines[y as int]@, self.lines[y + 1]@);
                    encode_utf8_valid_utf8(self.lines[y as int]@ + self.lines[y + 1]@);
                    encode_utf8_valid_utf8(self.lines[y as int]@);
                    encode_utf8_valid_utf8(self.lines[y + 1]@);
                    is_char_boundary_start_end_of_seq(encode_utf8(self.lines[y as int]@));
                    lemma_spliced(
                        encode_utf8(self.lines[y as int]@),
                        prev_line_len as int,
                        prev_line_len as int,
                        encode_utf8(self.lines[y + 1]@),
                    );
                    assert(spliced(
                        encode_utf8(self.lines[y as int]@),
                        prev_line_len as int,
                        prev_line_len as int,
                        encode_utf8(self.lines[y + 1]@),
                    ) =~= encode_utf8(self.lines[y as int]@) + encode_utf8(self.lines[y + 1]@));
                }
                self.join_with_next(y);
                self.cursor.y = y;
                self.cursor.x = prev_line_len;
            }
            self.is_file_saved = false;
        }
    }

    /// Deletes the character at the cursor, or joins the next line to the
    /// line.
    pub fn delete(&mut self)
        requires
            old(self).well_formed(),
        ensures
            final(self).well_formed(),
            final(self)@ == old(self)@.deleted(),
            final(self).file_path == old(self).file_path,
    {
        let x = self.cursor.x;
        let y = self.cursor.y;
        if x < byte_len(self.lines[y].as_str()) {
            let end = boundary_after(self.lines[y].as_str(), x);
            proof {
                reveal_strlit("");
                assert(""@ =~= Seq::<char>::empty());
                assert(encode_utf8(Seq::<char>::empty()) =~= Seq::<u8>::empty());
            }
            self.splice_line(x, end, "", false);
        } else {
            if y < self.lines.len() - 1 {
                proof {
                    lemma_encode_concat(self.lines[y as int]@, self.lines[y + 1]@);
                    encode_utf8_valid_utf8(self.lines[y as int]@);
                    encode_utf8_valid_utf8(self.lines[y + 1]@);
                    lemma_spliced(
                        encode_utf8(self.lines[y as int]@),
                        x as int,
                        x as int,
                        encode_utf8(self.lines[y + 1]@),
                    );
                    assert(spliced(
                        encode_utf8(self.lines[y as int]@),
                        x as int,
                        x as int,
                        encode_utf8(self.lines[y + 1]@),
                    ) =~= encode_utf8(self.lines[y as int]@) + encode_utf8(self.lines[y + 1]@));
                }
                self.join_with_next(y);
            }
            self.is_file_saved = false;
        }
    }

    /// Deletes the word before the cursor.
    pub fn delete_word(&mut self)
        requires
            old(self).well_formed(),
        ensures
            final(self).well_formed(),
            final(self)@ == old(self)@.word_deleted(),
            final(self).file_path == old(self).file_path,
    {
        if self.cursor.x == 0 {
            self.backspace();
            return ;
        }
        let x = self.cursor.x;
        let bytes = self.lines[self.cursor.y].as_str().as_bytes();
        let mode = Text::mode_of(bytes[x - 1]);
        let mut i = x;
        while i > 0 && Text::mode_of(bytes[i - 1]) == mode
            invariant
                i <= x <= bytes.len(),
                run_start(bytes@, x as int, mode) == run_start(bytes@, i as int, mode),
                forall|k: int| i <= k < x ==> delete_mode(#[trigger] bytes@[k]) == mode,
            decreases i,
        {
            i -= 1;
        }
        proof {
            reveal_strlit("");
            assert(""@ =~= Seq::<char>::empty());
            assert(encode_utf8(Seq::<char>::empty()) =~= Seq::<u8>::empty());
            encode_utf8_valid_utf8(self.lines[self.cursor.y as int]@);
            is_char_boundary_start_end_of_seq(bytes@);
            if i > 0 {
                // The run starts after a byte of another class. One of the
                // two is a byte of ASCII, so a character starts here.
                if mode == WordDeleteMode::Other {
                    lemma_boundary_before_run(bytes@, i as int);
                } else if i < x {
                    assert(delete_mode(bytes@[i as int]) == mode);
                    lemma_boundary_at(bytes@, i as int);
                }
            }
        }
        self.splice_line(i, x, "", false);
    }

    /// The class of a byte.
    fn mode_of(c: u8) -> (mode: WordDeleteMode)
        ensures
            mode == delete_mode(c),
    {
        if (0x30 <= c && c <= 0x39) || (0x41 <= c && c <= 0x5a) || (0x61 <= c && c <= 0x7a) {
            WordDeleteMode::Alphanumeric
        } else if c == 0x20 || c == 0x09 || c == 0x0a || c == 0x0c || c == 0x0d {
            WordDeleteMode::Whitespace
        } else {
            WordDeleteMode::Other
        }
    }

    /// Makes the line of the cursor a comment, or takes the comment off.
    pub fn toggle_comment(&mut self)
        requires
            old(self).well_formed(),
        ensures
            final(self).well_formed(),
            final(self)@ == old(self)@.comment_toggled(),
            final(self).file_path == old(self).file_path,
    {
        let ghost before = self@;
        let y = self.cursor.y;
        proof {
            reveal_strlit("");
            reveal_strlit("//");
            assert(""@ =~= Seq::<char>::empty());
            assert(encode_utf8(Seq::<char>::empty()) =~= Seq::<u8>::empty());
            assert(is_ascii_chars("//"@));
            is_ascii_chars_encode_utf8("//"@);
            assert(encode_utf8("//"@) =~= seq![0x2fu8, 0x2fu8]);
            encode_utf8_valid_utf8(self.lines[y as int]@);
            is_char_boundary_start_end_of_seq(before.line());
        }
        let line = if self.has_comment_on_current_line() {
            proof {
                lemma_boundary_after_ascii(before.line(), 0);
                lemma_boundary_after_ascii(before.line(), 1);
            }
            splice(self.lines[y].as_str(), 0, 2, "")
        } else {
            splice(self.lines[y].as_str(), 0, 0, "//")
        };
        self.cursor.x = boundary_at_or_before(line.as_str(), self.cursor.x);
        self.lines[y] = line;
        assert(self@.lines =~= before.comment_toggled().lines);
    }

    /// The position of the cursor in the joined text, in which a line break
    /// follows each line; the largest number of the machine word where the
    /// position is beyond it.
    pub fn new_line_adjusted_cursor_position(&self) -> (pos: usize)
        requires
            self.well_formed(),
        ensures
            pos == (if self@.cursor_position() <= usize::MAX {
                self@.cursor_position()
            } else {
                usize::MAX as int
            }),
    {
        let mut pos: usize = 0;
        let mut i: usize = 0;
        while i < self.cursor.y
            invariant
                i <= self.cursor.y < self.lines.len(),
                pos == line_offset(self@.lines, i as int),
            decreases self.cursor.y - i,
        {
            let len = byte_len(self.lines[i].as_str());
            if len >= usize::MAX - pos {
                proof {
                    lemma_line_offset_grows(self@.lines, i + 1, self.cursor.y as int);
                }
                return usize::MAX;
            }
            pos += len + 1;
            i += 1;
        }
        if self.cursor.x > usize::MAX - pos {
            usize::MAX
        } else {
            pos + self.cursor.x
        }
    }

    /// The number of spaces that the line starts with.
    fn front_space_length(line: &str) -> (n: usize)
        ensures
            n == scan(line.spec_bytes(), 0, ByteClass::Space),
            n <= line.spec_bytes().len(),
            forall|i: int| 0 <= i < n ==> line.spec_bytes()[i] == 0x20,
    {
        proof {
            lemma_scan(line.spec_bytes(), 0, ByteClass::Space);
        }
        scan_run(line.as_bytes(), 0, ByteClass::Space)
    }

    /// Applies the element of the suggestion with the given index: its name
    /// replaces the token of the suggestion, or is put at the cursor where
    /// the suggestion has no token. An index that the suggestion does not
    /// have changes nothing.
    pub fn apply_suggestion(&mut self, suggestion: &Suggestion, idx: usize)
        requires
            old(self).well_formed(),
        ensures
            final(self).well_formed(),
            final(self)@ == (if idx >= suggestion.elems.len() {
                old(self)@
            } else {
                match suggestion.token {
                    Some(token) => old(self)@.with_token_replaced(
                        token.pos as int,
                        token.len as int,
                        encode_utf8(suggestion.elems[idx as int].name@),
                    ),
                    None => old(self)@.with_name_inserted(
                        encode_utf8(suggestion.elems[idx as int].name@),
                    ),
                }
            }),
            final(self).file_path == old(self).file_path,
    {
        if idx >= suggestion.elems.len() {
            return ;
        }
        let name = suggestion.elems[idx].name.as_str();
        match &suggestion.token {
            Some(token) => {
                let token_start_cursor = self.cursor_of_absolute_position(token.pos);
                let y = token_start_cursor.y;
                let x = token_start_cursor.x;
                let line_len = byte_len(self.lines[y].as_str());
                let reach = if token.len >= line_len - x {
                    line_len
                } else {
                    x + token.len
                };
                let end = boundary_at_or_before(self.lines[y].as_str(), reach);
                proof {
                    encode_utf8_valid_utf8(self.lines[y as int]@);
                    lemma_floor_boundary_from(self@.lines[y as int], x as int, reach as int);
                    if token.len >= line_len - x {
                        lemma_floor_boundary_beyond(self@.lines[y as int], x + token.len);
                        lemma_floor_boundary_beyond(self@.lines[y as int], line_len as int);
                    }
                }
                self.cursor.y = y;
                self.cursor.x = x;
                self.splice_line(x, end, name, true);
            },
            None => {
                let x = self.cursor.x;
                self.splice_line(x, x, name, true);
            },
        };
    }

    /// The place of a position of the joined text.
    fn cursor_of_absolute_position(&self, pos: usize) -> (place: CoordUsize)
        requires
            self.well_formed(),
        ensures
            (place.x as int, place.y as int) == self@.place_of(pos as int),
            place.y < self.lines.len(),
            place.x <= self@.lines[place.y as int].len(),
            is_char_boundary(self@.lines[place.y as int], place.x as int),
    {
        let mut y: usize = 0;
        let mut i: usize = 0;
        while y + 1 < self.lines.len() && byte_len(self.lines[y].as_str()) < pos - i
            invariant
                y < self.lines.len(),
                i == line_offset(self@.lines, y as int),
                i <= pos,
                line_of_position(self@.lines, pos as int, 0) == line_of_position(
                    self@.lines,
                    pos as int,
                    y as int,
                ),
            decreases self.lines.len() - y,
        {
            i += byte_len(self.lines[y].as_str()) + 1;
            y += 1;
        }
        let x = boundary_at_or_before(self.lines[y].as_str(), pos - i);
        CoordUsize { x, y }
    }

    fn has_comment_on_current_line(&self) -> (r: bool)
        requires
            self.well_formed(),
        ensures
            r == self@.commented(),
    {
        let bytes = self.lines[self.cursor.y].as_str().as_bytes();
        bytes.len() >= 2 && bytes[0] == 0x2f && bytes[1] == 0x2f
    }
}

/// The offsets of later lines are larger.
pub proof fn lemma_line_offset_grows(lines: Seq<Seq<u8>>, a: int, b: int)
    requires
        0 <= a <= b,
    ensures
        line_offset(lines, a) <= line_offset(lines, b),
    decreases b - a,
{
    if a < b {
        lemma_line_offset_grows(lines, a, b - 1);
    }
}

/// A run of bytes that are no letters, digits or whitespace starts where a
/// character starts, where a byte of another class stands before it.
pub proof fn lemma_boundary_before_run(b: Seq<u8>, i: int)
    requires
        valid_utf8(b),
        0 < i <= b.len(),
        delete_mode(b[i - 1]) != WordDeleteMode::Other,
        is_char_boundary(b, 0),
    ensures
        is_char_boundary(b, i),
{
    // The byte before is a letter, a digit or whitespace: a character of its
    // own, which starts at `i - 1`.
    is_char_boundary_iff_not_is_continuation_byte(b, i - 1);
    lemma_boundary_after_ascii(b, i - 1);
}

} // verus!
