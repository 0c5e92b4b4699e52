//! Decoding of the bytes that a terminal in raw mode sends for key presses.

use vstd::prelude::*;

verus! {

/// A key press.
#[derive(Debug, Clone, PartialEq, Eq)]
pub enum KeyboardInput {
    VisibleChar(u8),
    ControlChar(u8),
    CtrlC,
    CtrlD,
    CtrlF,
    CtrlW,
    CtrlS,
    CtrlR,
    CtrlG,
    CtrlO,
    CtrlSlash,
    AltDigit(u8),
    AltF,
    AltS,
    Left,
    Right,
    Up,
    Down,
    Home,
    End,
    Delete,
    Enter,
    Escape,
    Backspace,
    Tab,
}

/// The number of byte sequences that stand for one key press.
pub const COMBO_COUNT: usize = 29;

/// The byte sequences that stand for one key press, with the key: escape
/// sequences first, then what a Mac sends for option and a digit.
pub open spec fn combo_table(k: int) -> (Seq<u8>, KeyboardInput) {
    if k == 0 {
        (seq![27u8, 91, 65], KeyboardInput::Up)
    } else if k == 1 {
        (seq![27u8, 91, 66], KeyboardInput::Down)
    } else if k == 2 {
        (seq![27u8, 91, 67], KeyboardInput::Right)
    } else if k == 3 {
        (seq![27u8, 91, 68], KeyboardInput::Left)
    } else if k == 4 {
        (seq![27u8, 91, 72], KeyboardInput::Home)
    } else if k == 5 {
        (seq![27u8, 91, 70], KeyboardInput::End)
    } else if k == 6 {
        (seq![27u8, 91, 51, 126], KeyboardInput::Delete)
    } else if 7 <= k <= 16 {
        (seq![27u8, (41 + k) as u8], KeyboardInput::AltDigit((k - 7) as u8))
    } else if k == 17 {
        (seq![27u8, 102], KeyboardInput::AltF)
    } else if k == 18 {
        (seq![27u8, 115], KeyboardInput::AltS)
    } else if k == 19 {
        (seq![194u8, 186], KeyboardInput::AltDigit(0))
    } else if k == 20 {
        (seq![194u8, 161], KeyboardInput::AltDigit(1))
    } else if k == 21 {
        (seq![226u8, 132, 162], KeyboardInput::AltDigit(2))
    } else if k == 22 {
        (seq![194u8, 163], KeyboardInput::AltDigit(3))
    } else if k == 23 {
        (seq![194u8, 162], KeyboardInput::AltDigit(4))
    } else if k == 24 {
        (seq![226u8, 136, 158], KeyboardInput::AltDigit(5))
    } else if k == 25 {
        (seq![194u8, 167], KeyboardInput::AltDigit(6))
    } else if k == 26 {
        (seq![194u8, 182], KeyboardInput::AltDigit(7))
    } else if k == 27 {
        (seq![226u8, 128, 162], KeyboardInput::AltDigit(8))
    } else {
        (seq![194u8, 170], KeyboardInput::AltDigit(9))
    }
}

/// Whether the sequence stands at `i` in the first `len` bytes.
pub open spec fn stands_at(sequence: Seq<u8>, b: Seq<u8>, i: int, len: int) -> bool {
    i + sequence.len() <= len && b.subrange(i, i + sequence.len()) == sequence
}

/// The first sequence of the table, from the `k`-th on, that stands at `i`.
pub open spec fn first_combo(b: Seq<u8>, i: int, len: int, k: int) -> Option<KeyboardInput>
    decreases COMBO_COUNT - k,
{
    if k < 0 || k >= COMBO_COUNT {
        None
    } else if stands_at(combo_table(k).0, b, i, len) {
        Some(combo_table(k).1)
    } else {
        first_combo(b, i, len, k + 1)
    }
}

/// The key that a byte stands for on its own.
pub open spec fn single_key(c: u8) -> KeyboardInput {
    if c == 3 {
        KeyboardInput::CtrlC
    } else if c == 4 {
        KeyboardInput::CtrlD
    } else if c == 6 {
        KeyboardInput::CtrlF
    } else if c == 7 {
        KeyboardInput::CtrlG
    } else if c == 9 {
        KeyboardInput::Tab
    } else if c == 13 {
        KeyboardInput::Enter
    } else if c == 15 {
        KeyboardInput::CtrlO
    } else if c == 18 {
        KeyboardInput::CtrlR
    } else if c == 19 {
        KeyboardInput::CtrlS
    } else if c == 23 {
        KeyboardInput::CtrlW
    } else if c == 27 {
        KeyboardInput::Escape
    } else if c == 31 {
        KeyboardInput::CtrlSlash
    } else if c == 127 {
        KeyboardInput::Backspace
    } else if 32 <= c <= 126 {
        KeyboardInput::VisibleChar(c)
    } else {
        KeyboardInput::ControlChar(c)
    }
}

/// Whether a byte starts the sequences of the table.
pub open spec fn starts_combo(c: u8) -> bool {
    c == 27 || c == 194 || c == 226
}

/// The keys that the first `len` bytes stand for from `i` on, after the
/// keys `acc`. Where a byte that starts a sequence is not alone, the table
/// decides: its first sequence that stands there gives the key, and what
/// follows is dropped, as is everything if none stands there.
pub open spec fn keys_from(b: Seq<u8>, len: int, i: int, acc: Seq<KeyboardInput>) -> Seq<
    KeyboardInput,
>
    decreases len - i,
{
    if i < 0 || i >= len {
        acc
    } else if starts_combo(b[i]) && len > 1 {
        match first_combo(b, i, len, 0) {
            Some(key) => acc.push(key),
            None => acc,
        }
    } else {
        keys_from(b, len, i + 1, acc.push(single_key(b[i])))
    }
}

/// The keys that the first `len` bytes stand for.
pub open spec fn keys_of(b: Seq<u8>, len: int) -> Seq<KeyboardInput> {
    keys_from(b, len, 0, Seq::empty())
}

/// The `k`-th sequence of the table, in an array of which `length` bytes
/// count, with its key.
fn combo(k: usize) -> (r: ([u8; 4], usize, KeyboardInput))
    requires
        k < COMBO_COUNT,
    ensures
        r.1 <= 4,
        r.0@.subrange(0, r.1 as int) == combo_table(k as int).0,
        r.2 == combo_table(k as int).1,
{
    let r = if k == 0 {
        ([27u8, 91, 65, 0], 3usize, KeyboardInput::Up)
    } else if k == 1 {
        ([27u8, 91, 66, 0], 3usize, KeyboardInput::Down)
    } else if k == 2 {
        ([27u8, 91, 67, 0], 3usize, KeyboardInput::Right)
    } else if k == 3 {
        ([27u8, 91, 68, 0], 3usize, KeyboardInput::Left)
    } else if k == 4 {
        ([27u8, 91, 72, 0], 3usize, KeyboardInput::Home)
    } else if k == 5 {
        ([27u8, 91, 70, 0], 3usize, KeyboardInput::End)
    } else if k == 6 {
        ([27u8, 91, 51, 126], 4usize, KeyboardInput::Delete)
    } else if k <= 16 {
        ([27u8, (41 + k) as u8, 0, 0], 2usize, KeyboardInput::AltDigit((k - 7) as u8))
    } else if k == 17 {
        ([27u8, 102, 0, 0], 2usize, KeyboardInput::AltF)
    } else if k == 18 {
        ([27u8, 115, 0, 0], 2usize, KeyboardInput::AltS)
    } else if k == 19 {
        ([194u8, 186, 0, 0], 2usize, KeyboardInput::AltDigit(0))
    } else if k == 20 {
        ([194u8, 161, 0, 0], 2usize, KeyboardInput::AltDigit(1))
    } else if k == 21 {
        ([226u8, 132, 162, 0], 3usize, KeyboardInput::AltDigit(2))
    } else if k == 22 {
        ([194u8, 163, 0, 0], 2usize, KeyboardInput::AltDigit(3))
    } else if k == 23 {
        ([194u8, 162, 0, 0], 2usize, KeyboardInput::AltDigit(4))
    } else if k == 24 {
        ([226u8, 136, 158, 0], 3usize, KeyboardInput::AltDigit(5))
    } else if k == 25 {
        ([194u8, 167, 0, 0], 2usize, KeyboardInput::AltDigit(6))
    } else if k == 26 {
        ([194u8, 182, 0, 0], 2usize, KeyboardInput::AltDigit(7))
    } else if k == 27 {
        ([226u8, 128, 162, 0], 3usize, KeyboardInput::AltDigit(8))
    } else {
        ([194u8, 170, 0, 0], 2usize, KeyboardInput::AltDigit(9))
    };
    assert(r.0@.subrange(0, r.1 as int) =~= combo_table(k as int).0);
    r
}

/// Whether the first `length` bytes of the sequence stand at `i`.
fn sequence_stands_at(sequence: &[u8; 4], length: usize, buf: &[u8], i: usize, len: usize) -> (r:
    bool)
    requires
        length <= 4,
        i <= len <= buf.len(),
    ensures
        r == stands_at(sequence@.subrange(0, length as int), buf@, i as int, len as int),
{
    if len - i < length {
        return false;
    }
    let mut j: usize = 0;
    while j < length
        invariant
            j <= length <= 4,
            i + length <= len <= buf.len(),
            forall|m: int| 0 <= m < j ==> buf@[i + m] == sequence@[m],
        decreases length - j,
    {
        if buf[i + j] != sequence[j] {
            assert(buf@.subrange(i as int, i + length)[j as int] != sequence@.subrange(
                0,
                length as int,
            )[j as int]);
            return false;
        }
        j += 1;
    }
    assert(buf@.subrange(i as int, i + length) =~= sequence@.subrange(0, length as int));
    true
}

fn single(c: u8) -> (key: KeyboardInput)
    ensures
        key == single_key(c),
{
    if c == 3 {
        KeyboardInput::CtrlC
    } else if c == 4 {
        KeyboardInput::CtrlD
    } else if c == 6 {
        KeyboardInput::CtrlF
    } else if c == 7 {
        KeyboardInput::CtrlG
    } else if c == 9 {
        KeyboardInput::Tab
    } else if c == 13 {
        KeyboardInput::Enter
    } else if c == 15 {
        KeyboardInput::CtrlO
    } else if c == 18 {
        KeyboardInput::CtrlR
    } else if c == 19 {
        KeyboardInput::CtrlS
    } else if c == 23 {
        KeyboardInput::CtrlW
    } else if c == 27 {
        KeyboardInput::Escape
    } else if c == 31 {
        KeyboardInput::CtrlSlash
    } else if c == 127 {
        KeyboardInput::Backspace
    } else if c >= 32 && c <= 126 {
        KeyboardInput::VisibleChar(c)
    } else {
        KeyboardInput::ControlChar(c)
    }
}

/// The decoder of what the terminal sends.
pub struct StdinReader;

impl StdinReader {
    /// The keys that the first `len` bytes of the buffer stand for.
    pub fn parse_stdin_bytes(buf: &[u8], len: usize) -> (out: Vec<KeyboardInput>)
        requires
            len <= buf.len(),
        ensures
            out@ == keys_of(buf@, len as int),
    {
        let mut i: usize = 0;
        let mut out: Vec<KeyboardInput> = Vec::new();
        while i < len
            invariant
                i <= len <= buf.len(),
                keys_of(buf@, len as int) == keys_from(buf@, len as int, i as int, out@),
            decreases len - i,
        {
            if (buf[i] == 27 || buf[i] == 194 || buf[i] == 226) && len > 1 {
                let mut k: usize = 0;
                let ghost before = out@;
                while k < COMBO_COUNT
                    invariant
                        k <= COMBO_COUNT,
                        i < len <= buf.len(),
                        len > 1,
                        starts_combo(buf@[i as int]),
                        out@ == before,
                        keys_of(buf@, len as int) == keys_from(buf@, len as int, i as int, before),
                        first_combo(buf@, i as int, len as int, 0) == first_combo(
                            buf@,
                            i as int,
                            len as int,
                            k as int,
                        ),
                    decreases COMBO_COUNT - k,
                {
                    let (sequence, length, key) = combo(k);
                    if sequence_stands_at(&sequence, length, buf, i, len) {
                        out.push(key);
                        return out;
                    }
                    k += 1;
                }
                return out;
            } else {
                out.push(single(buf[i]));
                i += 1;
            }
        }
        out
    }
}

} // verus!
