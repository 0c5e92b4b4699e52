//! The escape sequences that move the cursor of a terminal and clear its
//! screen.

use crate::numbers::{decimal_text, u128_to_decimal};
use vstd::prelude::*;
use vstd::string::*;

verus! {

/// The sequence that puts the cursor at a column and a row, both counted
/// from zero.
pub open spec fn cursor_location(row: nat, col: nat) -> Seq<char> {
    "\x1b["@ + decimal_text(col + 1) + ";"@ + decimal_text(row + 1) + "H"@
}

/// The writer of escape sequences.
pub struct TerminalHandler;

impl TerminalHandler {
    /// Appends the sequence that puts the cursor at column `row` of line
    /// `col`, both counted from zero.
    pub fn append_cursor_location(out: &mut String, row: usize, col: usize)
        ensures
            final(out)@ == old(out)@ + cursor_location(row as nat, col as nat),
    {
        let cmd = "\x1b[".to_owned().concat(u128_to_decimal(col as u128 + 1).as_str()).concat(
            ";",
        ).concat(u128_to_decimal(row as u128 + 1).as_str()).concat("H");
        out.append(cmd.as_str());
    }

    /// Appends the sequence that clears the screen.
    pub fn append_clear_screen(out: &mut String)
        ensures
            final(out)@ == old(out)@ + "\x1b[2J"@,
    {
        out.append("\x1b[2J");
    }

    /// Appends the sequence that hides the cursor.
    pub fn append_hide_cursor(out: &mut String)
        ensures
            final(out)@ == old(out)@ + "\x1b[?25l"@,
    {
        out.append("\x1b[?25l");
    }

    /// Appends the sequence that shows the cursor.
    pub fn append_show_cursor(out: &mut String)
        ensures
            final(out)@ == old(out)@ + "\x1b[?25h"@,
    {
        out.append("\x1b[?25h");
    }
}

} // verus!
