//! What the editor shows: the text of the screen for a frame, as escape
//! sequences for a terminal. Writing the text to the terminal is left to
//! the caller.

use crate::analyzer::{elem_views, Suggestion, SuggestionElem, SuggestionElemView};
use crate::editor::Frame;
use crate::grammar::{ParseErrorScope, ParseErrorView};
use crate::numbers::{decimal_text, u128_to_decimal, usize_to_decimal};
use crate::parser::ParseError;
use crate::strings::{
    boundary_after, byte_len, lemma_boundary_at, lemma_next_boundary, next_boundary, slice_string,
    text,
};
use crate::terminal_handler::{cursor_location, TerminalHandler};
use crate::tokenizer::{color_code, Token, TokenKind, TokenView, COLOR_INVALID};
use crate::util::{coloured_views, pad, padded, trim_coloured_string_list, trimmed_from};
use vstd::prelude::*;
use vstd::string::*;
use vstd::utf8::*;

verus! {

/// The part of the terminal's width that the suggestions take.
pub const POPUP_BAR_WIDTH_DIVIDER: usize = 2;

/// The printer of the editor: it knows the size of the terminal and the
/// first line of the text that is shown.
pub struct EditorPrinter {
    terminal_dimension: (usize, usize),
    // The number of the first line of the text that is shown.
    vscroll: usize,
}

/// The text of a token on the screen: in the colour of its kind, underlined
/// if it is invalid or the one that a parse error refers to.
pub open spec fn token_text(token: TokenView, error: Option<TokenView>) -> Seq<char> {
    if error == Some(token) {
        "\x1B["@ + decimal_text(COLOR_INVALID as nat) + "m\x1B[4m"@ + token.original
            + "\x1B[0m"@
    } else if token.kind is Invalid {
        "\x1B["@ + decimal_text(color_code(token.kind) as nat) + "m\x1B[4m"@ + token.original
            + "\x1B[0m"@
    } else {
        "\x1B["@ + decimal_text(color_code(token.kind) as nat) + "m"@ + token.original
            + "\x1B[0m"@
    }
}

/// Whether the token ends a line of the screen.
pub open spec fn breaks_line(token: TokenView, error: Option<TokenView>) -> bool {
    token.kind is LineBreak && error != Some(token)
}

/// The lines of the screen for the tokens from the `i`-th on, after the
/// lines `done` and the start `current` of a line. A line break at the end
/// starts no line.
pub open spec fn screen_lines(
    tokens: Seq<TokenView>,
    error: Option<TokenView>,
    i: int,
    done: Seq<Seq<char>>,
    current: Seq<char>,
) -> Seq<Seq<char>>
    decreases tokens.len() - i,
{
    if i < 0 || i >= tokens.len() {
        if current.len() > 0 {
            done.push(current)
        } else {
            done
        }
    } else if breaks_line(tokens[i], error) {
        screen_lines(tokens, error, i + 1, done.push(current), Seq::empty())
    } else {
        screen_lines(tokens, error, i + 1, done, current + token_text(tokens[i], error))
    }
}

/// The first line that is shown when the cursor is in line `cursor_y`:
/// the one that was, if the cursor is on the screen with it, else the
/// nearest one that brings it there.
pub open spec fn scrolled(vscroll: int, cursor_y: int, height: int) -> int {
    if cursor_y < vscroll || height <= 0 {
        cursor_y
    } else if cursor_y - vscroll >= height {
        cursor_y - height + 1
    } else {
        vscroll
    }
}

/// The lines `i..to`, each but the first of `from..to` after a line break
/// and a carriage return, behind `acc`.
pub open spec fn shown_lines(lines: Seq<Seq<char>>, from: int, i: int, to: int, acc: Seq<char>)
    -> Seq<char>
    decreases to - i,
{
    if i < from || i >= to || i >= lines.len() {
        acc
    } else if i > from {
        shown_lines(lines, from, i + 1, to, acc + "\n\r"@ + lines[i])
    } else {
        shown_lines(lines, from, i + 1, to, acc + lines[i])
    }
}

/// The text in pieces of `width` characters, each filled up with spaces,
/// from the `i`-th character on, after the pieces `acc`.
pub open spec fn chopped(s: Seq<char>, width: int, i: int, acc: Seq<Seq<char>>) -> Seq<Seq<char>>
    decreases s.len() - i,
{
    if width <= 0 || i < 0 || i >= s.len() {
        acc
    } else {
        let end = if i + width <= s.len() {
            i + width
        } else {
            s.len() as int
        };
        chopped(s, width, end, acc.push(padded(s.subrange(i, end), width)))
    }
}

/// The lines of a message at the foot of the text, the first one bold, from
/// the `i`-th on, behind `acc`.
pub open spec fn error_lines(lines: Seq<Seq<char>>, height: int, i: int, acc: Seq<char>) -> Seq<
    char,
>
    decreases lines.len() - i,
{
    if i < 0 || i >= lines.len() {
        acc
    } else {
        let row = if height >= lines.len() {
            height - lines.len() + i
        } else {
            i
        };
        let bold = if i == 0 {
            "\x1B[1m"@
        } else {
            Seq::empty()
        };
        error_lines(
            lines,
            height,
            i + 1,
            acc + cursor_location(0, row as nat) + bold + "\x1B[48;5;52m"@ + lines[i]
                + "\x1B[0m"@,
        )
    }
}

/// The name of a part of the grammar.
pub open spec fn scope_name(scope: ParseErrorScope) -> Seq<char> {
    match scope {
        ParseErrorScope::Query => "Query"@,
        ParseErrorScope::Field => "Field"@,
        ParseErrorScope::ArgList => "ArgList"@,
        ParseErrorScope::ArgListValue => "ArgListValue"@,
        ParseErrorScope::ArgListValueListType => "ArgListValueListType"@,
    }
}

/// The words for the token that a parse error refers to.
pub open spec fn token_words(token: Option<TokenView>) -> Seq<char> {
    match token {
        Some(token) => "\""@ + token.original + "\" at "@ + decimal_text(token.pos),
        None => "none"@,
    }
}

/// The lines of the message for a parse error.
pub open spec fn parse_error_lines(
    token: Option<TokenView>,
    scope: ParseErrorScope,
    message: Seq<char>,
    width: int,
) -> Seq<Seq<char>> {
    chopped(
        message,
        width,
        0,
        chopped(
            "At token: "@ + token_words(token),
            width,
            0,
            chopped(
                "Scope: "@ + scope_name(scope),
                width,
                0,
                chopped("PARSE ERROR"@, width, 0, Seq::empty()),
            ),
        ),
    )
}

/// The lines of the message for an error of the analyzer.
pub open spec fn definition_error_lines(message: Seq<char>, width: int) -> Seq<Seq<char>> {
    chopped(message, width, 0, seq![padded("ANALYZER ERROR"@, width)])
}

/// The first characters of a text, as many as fit the width.
pub open spec fn fitted(text: Seq<char>, width: int) -> Seq<char> {
    if text.len() <= width {
        text
    } else {
        text.subrange(0, width)
    }
}

/// The title bar: the name of the file and whether it is saved, in reverse
/// video over the width of the terminal, below the text.
pub open spec fn title_bar(file_name: Option<Seq<char>>, saved: bool, width: int, height: int)
    -> Seq<char> {
    let text = " GomQLet | "@ + (match file_name {
        Some(name) => name,
        None => "unsaved file"@,
    }) + " "@ + (if saved {
        Seq::empty()
    } else {
        "[not saved]"@
    });
    cursor_location(0, (height + 1) as nat) + "\x1B[7m"@ + padded(fitted(text, width), width)
        + "\x1B[0m"@
}

/// A coloured text of a line of suggestions.
pub type Bit = (Seq<char>, Option<usize>);

/// The name of a suggestion in pieces: the characters that the prefix
/// matched in one colour, what lies between them in another. Positions
/// that lie in the part already shown, outside the name or inside a
/// character are passed over.
pub open spec fn fuzzy_bits(
    name: Seq<u8>,
    positions: Seq<usize>,
    i: int,
    printed: int,
    acc: Seq<Bit>,
) -> Seq<Bit>
    decreases positions.len() - i,
{
    if i < 0 || i >= positions.len() {
        if printed < name.len() {
            acc.push((text(name, printed, name.len() as int), Some(32usize)))
        } else {
            acc
        }
    } else {
        let pos = positions[i] as int;
        if pos < printed || pos >= name.len() || is_continuation_byte(name[pos]) {
            fuzzy_bits(name, positions, i + 1, printed, acc)
        } else {
            let end = next_boundary(name, pos);
            let between = if pos > printed {
                acc.push((text(name, printed, pos), Some(32usize)))
            } else {
                acc
            };
            fuzzy_bits(
                name,
                positions,
                i + 1,
                end,
                between.push((text(name, pos, end), Some(97usize))),
            )
        }
    }
}

/// The pieces of the line of the suggestion of number `i`: a bar, the
/// number if it is a digit, the name, and the kind.
pub open spec fn popup_bits(elem: SuggestionElemView, i: int, selecting: bool) -> Seq<Bit> {
    let bar: Seq<Bit> = seq![("|"@, Some(92usize))];
    let start = if i <= 9 {
        bar.push(
            (
                decimal_text(i as nat) + " "@,
                Some(
                    if selecting {
                        93usize
                    } else {
                        90usize
                    },
                ),
            ),
        )
    } else {
        bar
    };
    fuzzy_bits(encode_utf8(elem.name), elem.fuzzy_match_positions, 0, 0, start).push(
        (" "@, None),
    ).push((elem.kind, Some(90usize)))
}

/// The suggestions from the `i`-th on, one to a line in the right part of
/// the terminal, behind `acc`. The last line of the text says how many
/// more there are.
pub open spec fn popup(
    elems: Seq<SuggestionElemView>,
    selecting: bool,
    width: int,
    height: int,
    i: int,
    acc: Seq<char>,
) -> Seq<char>
    decreases elems.len() - i,
{
    if i < 0 || i >= elems.len() {
        acc
    } else {
        let popup_width = width / (POPUP_BAR_WIDTH_DIVIDER as int);
        let at = acc + cursor_location((width - popup_width) as nat, i as nat);
        if i == height - 1 {
            at + "... "@ + decimal_text((elems.len() - i + 1) as nat) + " more"@
        } else {
            popup(
                elems,
                selecting,
                width,
                height,
                i + 1,
                at + padded(
                    trimmed_from(popup_bits(elems[i], i, selecting), 0, 0, popup_width, Seq::empty()),
                    popup_width,
                ),
            )
        }
    }
}

/// The token that the parse error of a frame refers to.
pub open spec fn error_token(frame: &Frame) -> Option<TokenView> {
    match frame.parse_error {
        Some(e) => e@.token,
        None => None,
    }
}

/// The text of the screen for a frame, on a terminal of the given width
/// and height whose first line shown was `vscroll`: the lines of the text
/// that fit, the suggestions, the error, the title bar, and the cursor at
/// its place.
pub open spec fn screen(frame: &Frame, width: int, height: int, vscroll: int) -> Seq<char> {
    let first = scrolled(vscroll, frame.cursor.y as int, height);
    let lines = shown_lines(
        screen_lines(
            crate::tokenizer::token_views(frame.tokens@),
            error_token(frame),
            0,
            Seq::empty(),
            Seq::empty(),
        ),
        first,
        first,
        first + height,
        "\x1b[?25l"@ + "\x1b[2J"@ + cursor_location(0, 0),
    );
    let suggestions = match frame.suggestions {
        Some(suggestion) => popup(
            elem_views(suggestion.elems@),
            frame.suggestion_selection_mode,
            width,
            height,
            0,
            lines,
        ),
        None => lines,
    };
    let errors = match frame.parse_error {
        Some(e) => error_lines(
            parse_error_lines(e@.token, e@.scope, e@.message, width),
            height,
            0,
            suggestions,
        ),
        None => match frame.definition_error {
            Some(e) => error_lines(
                definition_error_lines(e@.message(), width),
                height,
                0,
                suggestions,
            ),
            None => suggestions,
        },
    };
    errors + title_bar(
        match frame.file_name {
            Some(name) => Some(name@),
            None => None,
        },
        frame.is_file_saved,
        width,
        height,
    ) + cursor_location(frame.cursor.x as nat, (frame.cursor.y - first) as nat) + "\x1b[?25h"@
}

impl EditorPrinter {
    /// The width of the terminal.
    pub closed spec fn width(&self) -> int {
        self.terminal_dimension.0 as int
    }

    /// The height of the part of the terminal that shows the text.
    pub closed spec fn height(&self) -> int {
        if self.terminal_dimension.1 > 0 {
            self.terminal_dimension.1 - 1
        } else {
            0
        }
    }

    /// The number of the first line of the text that is shown.
    pub closed spec fn vscroll(&self) -> int {
        self.vscroll as int
    }

    /// A printer for a terminal of the given width and height.
    pub fn new(terminal_dimension: (usize, usize)) -> (printer: EditorPrinter)
        ensures
            printer.width() == terminal_dimension.0,
            printer.height() == (if terminal_dimension.1 > 0 {
                terminal_dimension.1 - 1
            } else {
                0
            }),
            printer.vscroll() == 0,
    {
        EditorPrinter { terminal_dimension, vscroll: 0 }
    }

    /// Takes the new width and height of the terminal.
    pub fn reload_terminal_size(&mut self, terminal_dimension: (usize, usize))
        ensures
            final(self).width() == terminal_dimension.0,
            final(self).height() == (if terminal_dimension.1 > 0 {
                terminal_dimension.1 - 1
            } else {
                0
            }),
            final(self).vscroll() == old(self).vscroll(),
    {
        self.terminal_dimension = terminal_dimension;
    }

    fn terminal_width(&self) -> (width: usize)
        ensures
            width == self.width(),
    {
        self.terminal_dimension.0
    }

    fn editor_area_height(&self) -> (height: usize)
        ensures
            height == self.height(),
    {
        if self.terminal_dimension.1 > 0 {
            self.terminal_dimension.1 - 1
        } else {
            0
        }
    }

    fn resolve_vscroll(&mut self, cursor_y: usize)
        ensures
            final(self).vscroll() == scrolled(
                old(self).vscroll(),
                cursor_y as int,
                old(self).height(),
            ),
            final(self).vscroll() <= cursor_y,
            final(self).width() == old(self).width(),
            final(self).height() == old(self).height(),
    {
        let height = self.editor_area_height();
        if cursor_y < self.vscroll || height == 0 {
            self.vscroll = cursor_y;
        } else if cursor_y - self.vscroll >= height {
            self.vscroll = cursor_y - height + 1;
        }
    }

    /// The lines of the screen for the tokens.
    fn colorize(tokens: &Vec<Token>, parse_error_token: &Option<Token>) -> (lines: Vec<String>)
        ensures
            lines.deep_view() == screen_lines(
                crate::tokenizer::token_views(tokens@),
                match parse_error_token {
                    Some(token) => Some(token@),
                    None => None,
                },
                0,
                Seq::empty(),
                Seq::empty(),
            ),
    {
        let ghost views = crate::tokenizer::token_views(tokens@);
        let ghost error = match parse_error_token {
            Some(token) => Some(token@),
            None => None,
        };
        let mut lines: Vec<String> = Vec::new();
        let mut current = String::new();
        let mut i: usize = 0;
        assert(lines.deep_view() =~= Seq::<Seq<char>>::empty());
        while i < tokens.len()
            invariant
                i <= tokens.len(),
                views == crate::tokenizer::token_views(tokens@),
                error == (match parse_error_token {
                    Some(token) => Some(token@),
                    None => None,
                }),
                screen_lines(views, error, 0, Seq::empty(), Seq::empty()) == screen_lines(
                    views,
                    error,
                    i as int,
                    lines.deep_view(),
                    current@,
                ),
            decreases tokens.len() - i,
        {
            let token = &tokens[i];
            let ghost done = lines.deep_view();
            let ghost before = current@;
            assert(views[i as int] == token@);
            let is_error_token = match parse_error_token {
                Some(error_token) => error_token.same_as(token),
                None => false,
            };
            if is_error_token {
                current.append("\x1B[");
                current.append(usize_to_decimal(COLOR_INVALID as usize).as_str());
                current.append("m\x1B[4m");
                current.append(token.original.as_str());
                current.append("\x1B[0m");
                assert(current@ =~= before + token_text(token@, error));
            } else {
                match &token.kind {
                    TokenKind::LineBreak => {
                        let ghost line = current@;
                        lines.push(current);
                        current = String::new();
                        assert(lines.deep_view() =~= done.push(line));
                    },
                    TokenKind::Invalid(_) => {
                        current.append("\x1B[");
                        current.append(
                            usize_to_decimal(token.kind.vt100_color_code() as usize).as_str(),
                        );
                        current.append("m\x1B[4m");
                        current.append(token.original.as_str());
                        current.append("\x1B[0m");
                        assert(current@ =~= before + token_text(token@, error));
                    },
                    _ => {
                        current.append("\x1B[");
                        current.append(
                            usize_to_decimal(token.kind.vt100_color_code() as usize).as_str(),
                        );
                        current.append("m");
                        current.append(token.original.as_str());
                        current.append("\x1B[0m");
                        assert(current@ =~= before + token_text(token@, error));
                    },
                }
            }
            i += 1;
        }
        if byte_len(current.as_str()) > 0 {
            let ghost done = lines.deep_view();
            proof {
                if current@.len() == 0 {
                    assert(encode_utf8(current@) =~= Seq::<u8>::empty());
                }
            }
            lines.push(current);
            assert(lines.deep_view() =~= done.push(current@));
        } else {
            proof {
                if current@.len() > 0 {
                    encode_utf8_decode_utf8(current@);
                    assert(decode_utf8(Seq::<u8>::empty()) =~= Seq::<char>::empty());
                }
            }
        }
        lines
    }
    fn print_tokens(
        &mut self,
        buf: &mut String,
        tokens: &Vec<Token>,
        cursor_y: usize,
        parse_error_token: &Option<Token>,
    )
        ensures
            final(self).vscroll() == scrolled(
                old(self).vscroll(),
                cursor_y as int,
                old(self).height(),
            ),
            final(self).vscroll() <= cursor_y,
            final(self).width() == old(self).width(),
            final(self).height() == old(self).height(),
            final(buf)@ == shown_lines(
                screen_lines(
                    crate::tokenizer::token_views(tokens@),
                    match parse_error_token {
                        Some(token) => Some(token@),
                        None => None,
                    },
                    0,
                    Seq::empty(),
                    Seq::empty(),
                ),
                final(self).vscroll(),
                final(self).vscroll(),
                final(self).vscroll() + final(self).height(),
                old(buf)@ + cursor_location(0, 0),
            ),
    {
        TerminalHandler::append_cursor_location(buf, 0, 0);
        self.resolve_vscroll(cursor_y);
        let lines = EditorPrinter::colorize(tokens, parse_error_token);
        let height = self.editor_area_height();
        let from = self.vscroll;
        let last_line_index = if lines.len() - from.min(lines.len()) <= height {
            lines.len()
        } else {
            from + height
        };
        let ghost all = lines.deep_view();
        let ghost start = buf@;
        let mut i = from;
        while i < last_line_index
            invariant
                from <= i,
                last_line_index <= lines.len(),
                last_line_index <= from + height,
                last_line_index == lines.len() || last_line_index == from + height,
                all == lines.deep_view(),
                shown_lines(all, from as int, from as int, from + height, start) == shown_lines(
                    all,
                    from as int,
                    i as int,
                    from + height,
                    buf@,
                ),
            decreases last_line_index - i,
        {
            proof {
                reveal_strlit("\n\r");
                assert(all[i as int] == lines[i as int]@);
            }
            if i > from {
                buf.append("\n\r");
            }
            buf.append(lines[i].as_str());
            i += 1;
        }
    }

    /// The pieces of the name of a suggestion.
    fn add_suggestion_fuzzy_bits_to_line_list(
        line_elems: &mut Vec<(String, Option<usize>)>,
        suggestion: &SuggestionElem,
    )
        ensures
            coloured_views(final(line_elems)@) == fuzzy_bits(
                encode_utf8(suggestion.name@),
                suggestion.fuzzy_match_positions@,
                0,
                0,
                coloured_views(old(line_elems)@),
            ),
    {
        let name = suggestion.name.as_str();
        let bytes = name.as_bytes();
        let ghost b = bytes@;
        let ghost positions = suggestion.fuzzy_match_positions@;
        let mut printed_pos: usize = 0;
        let mut i: usize = 0;
        proof {
            encode_utf8_valid_utf8(name@);
            is_char_boundary_start_end_of_seq(b);
        }
        while i < suggestion.fuzzy_match_positions.len()
            invariant
                i <= suggestion.fuzzy_match_positions.len(),
                positions == suggestion.fuzzy_match_positions@,
                b == bytes@,
                b == name.spec_bytes(),
                valid_utf8(b),
                printed_pos <= bytes.len(),
                is_char_boundary(b, printed_pos as int),
                fuzzy_bits(b, positions, 0, 0, coloured_views(old(line_elems)@)) == fuzzy_bits(
                    b,
                    positions,
                    i as int,
                    printed_pos as int,
                    coloured_views(line_elems@),
                ),
            decreases suggestion.fuzzy_match_positions.len() - i,
        {
            let fuzzy_pos = suggestion.fuzzy_match_positions[i];
            if fuzzy_pos >= printed_pos && fuzzy_pos < bytes.len() && !(0x80 <= bytes[fuzzy_pos]
                && bytes[fuzzy_pos] <= 0xbf) {
                proof {
                    lemma_boundary_at(b, fuzzy_pos as int);
                    lemma_next_boundary(b, fuzzy_pos as int);
                }
                let end = boundary_after(name, fuzzy_pos);
                if fuzzy_pos > printed_pos {
                    let ghost before = coloured_views(line_elems@);
                    let between = slice_string(name, printed_pos, fuzzy_pos);
                    line_elems.push((between, Some(32)));
                    assert(coloured_views(line_elems@) =~= before.push(
                        (text(b, printed_pos as int, fuzzy_pos as int), Some(32usize)),
                    ));
                }
                let ghost before = coloured_views(line_elems@);
                let matched = slice_string(name, fuzzy_pos, end);
                line_elems.push((matched, Some(97)));
                assert(coloured_views(line_elems@) =~= before.push(
                    (text(b, fuzzy_pos as int, end as int), Some(97usize)),
                ));
                printed_pos = end;
            }
            i += 1;
        }
        if printed_pos < bytes.len() {
            let ghost before = coloured_views(line_elems@);
            let rest = slice_string(name, printed_pos, bytes.len());
            line_elems.push((rest, Some(32)));
            assert(coloured_views(line_elems@) =~= before.push(
                (text(b, printed_pos as int, b.len() as int), Some(32usize)),
            ));
        }
    }

    /// The pieces of the line of the suggestion of number `i`.
    fn suggestion_line(suggestion: &SuggestionElem, i: usize, suggestion_selection_mode: bool)
        -> (line_elems: Vec<(String, Option<usize>)>)
        ensures
            coloured_views(line_elems@) == popup_bits(
                suggestion@,
                i as int,
                suggestion_selection_mode,
            ),
    {
        let mut line_elems: Vec<(String, Option<usize>)> = Vec::new();
        line_elems.push(("|".to_owned(), Some(92)));
        assert(coloured_views(line_elems@) =~= seq![("|"@, Some(92usize))]);
        if i <= 9 {
            let number_color: usize = if suggestion_selection_mode {
                93
            } else {
                90
            };
            let ghost before = coloured_views(line_elems@);
            let number = usize_to_decimal(i).concat(" ");
            line_elems.push((number, Some(number_color)));
            assert(coloured_views(line_elems@) =~= before.push(
                (decimal_text(i as nat) + " "@, Some(number_color)),
            ));
        }
        EditorPrinter::add_suggestion_fuzzy_bits_to_line_list(&mut line_elems, suggestion);
        let ghost before = coloured_views(line_elems@);
        line_elems.push((" ".to_owned(), None));
        line_elems.push((suggestion.kind.clone(), Some(90)));
        assert(coloured_views(line_elems@) =~= before.push((" "@, None)).push(
            (suggestion.kind@, Some(90usize)),
        ));
        line_elems
    }

    fn print_analyzer_result_suggestions(
        &self,
        buf: &mut String,
        suggestions: &Suggestion,
        suggestion_selection_mode: bool,
    )
        ensures
            final(buf)@ == popup(
                elem_views(suggestions.elems@),
                suggestion_selection_mode,
                self.width(),
                self.height(),
                0,
                old(buf)@,
            ),
    {
        let width = self.terminal_width();
        let height = self.editor_area_height();
        let popup_width = width / POPUP_BAR_WIDTH_DIVIDER;
        let ghost elems = elem_views(suggestions.elems@);
        let ghost start = buf@;
        let mut i: usize = 0;
        while i < suggestions.elems.len()
            invariant
                i <= suggestions.elems.len(),
                width == self.width(),
                height == self.height(),
                popup_width == width / POPUP_BAR_WIDTH_DIVIDER,
                elems == elem_views(suggestions.elems@),
                start == old(buf)@,
                popup(elems, suggestion_selection_mode, width as int, height as int, 0, start)
                    == popup(
                    elems,
                    suggestion_selection_mode,
                    width as int,
                    height as int,
                    i as int,
                    buf@,
                ),
            decreases suggestions.elems.len() - i,
        {
            let ghost before = buf@;
            assert(elems[i as int] == suggestions.elems[i as int]@);
            TerminalHandler::append_cursor_location(buf, width - popup_width, i);
            if height >= 1 && i == height - 1 {
                buf.append("... ");
                buf.append(
                    u128_to_decimal((suggestions.elems.len() - i) as u128 + 1).as_str(),
                );
                buf.append(" more");
                assert(buf@ =~= before + cursor_location((width - popup_width) as nat, i as nat)
                    + "... "@ + decimal_text((elems.len() - i + 1) as nat) + " more"@);
                assert(buf@ == popup(
                    elems,
                    suggestion_selection_mode,
                    width as int,
                    height as int,
                    i as int,
                    before,
                ));
                return ;
            }
            let line_elems = EditorPrinter::suggestion_line(
                &suggestions.elems[i],
                i,
                suggestion_selection_mode,
            );
            let line = trim_coloured_string_list(line_elems, popup_width);
            buf.append(pad(line.as_str(), popup_width).as_str());
            i += 1;
        }
    }

    /// The text in pieces of `width` characters, each filled up with
    /// spaces.
    fn chop_string(s: &str, width: usize, lines: &mut Vec<String>)
        ensures
            final(lines).deep_view() == chopped(s@, width as int, 0, old(lines).deep_view()),
    {
        if width == 0 {
            return ;
        }
        let len = s.unicode_len();
        let mut i: usize = 0;
        while i < len
            invariant
                i <= len,
                len == s@.len(),
                width > 0,
                chopped(s@, width as int, 0, old(lines).deep_view()) == chopped(
                    s@,
                    width as int,
                    i as int,
                    lines.deep_view(),
                ),
            decreases len - i,
        {
            let end = if len - i >= width {
                i + width
            } else {
                len
            };
            let ghost before = lines.deep_view();
            let piece = pad(s.substring_char(i, end), width);
            lines.push(piece);
            assert(lines.deep_view() =~= before.push(
                padded(s@.subrange(i as int, end as int), width as int),
            ));
            i = end;
        }
    }

    /// The name of a part of the grammar.
    fn scope_name(scope: ParseErrorScope) -> (name: &'static str)
        ensures
            name@ == scope_name(scope),
    {
        match scope {
            ParseErrorScope::Query => "Query",
            ParseErrorScope::Field => "Field",
            ParseErrorScope::ArgList => "ArgList",
            ParseErrorScope::ArgListValue => "ArgListValue",
            ParseErrorScope::ArgListValueListType => "ArgListValueListType",
        }
    }

    fn print_analyzer_result_parse_error(&self, buf: &mut String, error: &ParseError)
        ensures
            final(buf)@ == error_lines(
                parse_error_lines(error@.token, error@.scope, error@.message, self.width()),
                self.height(),
                0,
                old(buf)@,
            ),
    {
        let width = self.terminal_width();
        let token_words = match &error.token {
            Some(token) => "\"".to_owned().concat(token.original.as_str()).concat(
                "\" at ",
            ).concat(usize_to_decimal(token.pos).as_str()),
            None => "none".to_owned(),
        };
        let mut lines: Vec<String> = Vec::new();
        assert(lines.deep_view() =~= Seq::<Seq<char>>::empty());
        EditorPrinter::chop_string("PARSE ERROR", width, &mut lines);
        EditorPrinter::chop_string(
            "Scope: ".to_owned().concat(EditorPrinter::scope_name(error.scope)).as_str(),
            width,
            &mut lines,
        );
        EditorPrinter::chop_string(
            "At token: ".to_owned().concat(token_words.as_str()).as_str(),
            width,
            &mut lines,
        );
        EditorPrinter::chop_string(error.message.as_str(), width, &mut lines);
        self.print_error_message(buf, &lines);
    }

    fn print_analyzer_result_definition_error(&self, buf: &mut String, error: &str)
        ensures
            final(buf)@ == error_lines(
                definition_error_lines(error@, self.width()),
                self.height(),
                0,
                old(buf)@,
            ),
    {
        let width = self.terminal_width();
        let mut lines: Vec<String> = Vec::new();
        lines.push(pad("ANALYZER ERROR", width));
        assert(lines.deep_view() =~= seq![padded("ANALYZER ERROR"@, width as int)]);
        EditorPrinter::chop_string(error, width, &mut lines);
        self.print_error_message(buf, &lines);
    }

    fn print_error_message(&self, buf: &mut String, lines: &Vec<String>)
        ensures
            final(buf)@ == error_lines(lines.deep_view(), self.height(), 0, old(buf)@),
    {
        let height = self.editor_area_height();
        let ghost all = lines.deep_view();
        let ghost start = buf@;
        let mut i: usize = 0;
        while i < lines.len()
            invariant
                i <= lines.len(),
                height == self.height(),
                all == lines.deep_view(),
                error_lines(all, height as int, 0, start) == error_lines(
                    all,
                    height as int,
                    i as int,
                    buf@,
                ),
            decreases lines.len() - i,
        {
            let ghost before = buf@;
            let row = if height >= lines.len() {
                height - lines.len() + i
            } else {
                i
            };
            proof {
                reveal_strlit("");
                assert(all[i as int] == lines[i as int]@);
            }
            TerminalHandler::append_cursor_location(buf, 0, row);
            if i == 0 {
                buf.append("\x1B[1m");
            }
            buf.append("\x1B[48;5;52m");
            buf.append(lines[i].as_str());
            buf.append("\x1B[0m");
            assert(buf@ =~= before + cursor_location(0, row as nat) + (if i == 0 {
                "\x1B[1m"@
            } else {
                Seq::empty()
            }) + "\x1B[48;5;52m"@ + all[i as int] + "\x1B[0m"@);
            i += 1;
        }
    }

    fn print_title_bar(&self, buf: &mut String, file_name: &Option<String>, is_file_save: bool)
        ensures
            final(buf)@ == old(buf)@ + title_bar(
                match file_name {
                    Some(name) => Some(name@),
                    None => None,
                },
                is_file_save,
                self.width(),
                self.height(),
            ),
    {
        let ghost before = buf@;
        let width = self.terminal_width();
        let height = self.editor_area_height();
        TerminalHandler::append_cursor_location(buf, 0, height + 1);
        proof {
            reveal_strlit("");
            assert(""@ =~= Seq::<char>::empty());
        }
        let text = " GomQLet | ".to_owned().concat(
            match file_name {
                Some(path) => path.as_str(),
                None => "unsaved file",
            },
        ).concat(" ").concat(
            if is_file_save {
                ""
            } else {
                "[not saved]"
            },
        );
        let len = text.as_str().unicode_len();
        let shown = if len <= width {
            text.as_str()
        } else {
            text.as_str().substring_char(0, width)
        };
        buf.append("\x1B[7m");
        buf.append(pad(shown, width).as_str());
        buf.append("\x1B[0m");
        assert(buf@ =~= before + title_bar(
            match file_name {
                Some(name) => Some(name@),
                None => None,
            },
            is_file_save,
            width as int,
            height as int,
        ));
    }
    /// The text that shows the frame on the terminal. The first line shown
    /// follows the cursor.
    pub fn print(&mut self, frame: &Frame) -> (buf: String)
        ensures
            buf@ == screen(frame, old(self).width(), old(self).height(), old(self).vscroll()),
            final(self).vscroll() == scrolled(
                old(self).vscroll(),
                frame.cursor.y as int,
                old(self).height(),
            ),
            final(self).width() == old(self).width(),
            final(self).height() == old(self).height(),
    {
        let mut buf: String = String::new();
        TerminalHandler::append_hide_cursor(&mut buf);
        TerminalHandler::append_clear_screen(&mut buf);
        assert(buf@ =~= "\x1b[?25l"@ + "\x1b[2J"@);
        let no_token: Option<Token> = None;
        match &frame.parse_error {
            Some(parse_error) => {
                self.print_tokens(&mut buf, &frame.tokens, frame.cursor.y, &parse_error.token);
            },
            None => {
                self.print_tokens(&mut buf, &frame.tokens, frame.cursor.y, &no_token);
            },
        }
        if let Some(suggestions) = &frame.suggestions {
            self.print_analyzer_result_suggestions(
                &mut buf,
                suggestions,
                frame.suggestion_selection_mode,
            );
        }
        if let Some(parse_error) = &frame.parse_error {
            self.print_analyzer_result_parse_error(&mut buf, parse_error);
        } else if let Some(definition_error) = &frame.definition_error {
            self.print_analyzer_result_definition_error(
                &mut buf,
                definition_error.message().as_str(),
            );
        }
        self.print_title_bar(&mut buf, &frame.file_name, frame.is_file_saved);
        TerminalHandler::append_cursor_location(
            &mut buf,
            frame.cursor.x,
            frame.cursor.y - self.vscroll,
        );
        TerminalHandler::append_show_cursor(&mut buf);
        buf
    }
}

} // verus!
