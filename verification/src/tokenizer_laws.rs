//! What holds of every tokenization: the tokens cover the text byte for
//! byte, and dropping whitespace never moves a token.

use crate::grammar::root_of;
use crate::parser_laws::{lemma_parse_well_formed, ordered, root_wf};
use crate::strings::{lemma_boundary_in_suffix, text};
use crate::tokenizer::{
    is_noise, join_lines, lemma_lexeme_bounds, lemma_lexeme_end, lexeme, lexeme_end, tokens_from,
    tokens_of, TokenView,
};
use vstd::prelude::*;
use vstd::utf8::*;

verus! {

/// The sum of the lengths of the tokens.
pub open spec fn total_len(tokens: Seq<TokenView>) -> nat
    decreases tokens.len(),
{
    if tokens.len() == 0 {
        0
    } else {
        tokens[0].len + total_len(tokens.drop_first())
    }
}

/// The texts of the tokens, one after the other.
pub open spec fn concat_originals(tokens: Seq<TokenView>) -> Seq<char>
    decreases tokens.len(),
{
    if tokens.len() == 0 {
        Seq::empty()
    } else {
        tokens[0].original + concat_originals(tokens.drop_first())
    }
}

/// The tokens without whitespace, line breaks and comments.
pub open spec fn without_noise(tokens: Seq<TokenView>) -> Seq<TokenView>
    decreases tokens.len(),
{
    if tokens.len() == 0 {
        Seq::empty()
    } else if is_noise(tokens[0].kind) {
        without_noise(tokens.drop_first())
    } else {
        seq![tokens[0]] + without_noise(tokens.drop_first())
    }
}

/// Each token follows the one before it without a gap or an overlap, the
/// first one starting at `start`.
pub open spec fn contiguous_from(tokens: Seq<TokenView>, start: int) -> bool
    decreases tokens.len(),
{
    tokens.len() > 0 ==> tokens[0].pos == start && contiguous_from(
        tokens.drop_first(),
        start + tokens[0].len,
    )
}

/// The index of the last line break in `s`, or -1.
pub open spec fn last_line_break(s: Seq<char>) -> int
    decreases s.len(),
{
    if s.len() == 0 {
        -1
    } else if s.last() == '\n' {
        s.len() - 1
    } else {
        last_line_break(s.drop_last())
    }
}

/// The text split at its line breaks: one more line than there are breaks.
pub open spec fn split_lines(s: Seq<char>) -> Seq<Seq<char>>
    decreases s.len(),
{
    let i = last_line_break(s);
    if 0 <= i < s.len() {
        split_lines(s.subrange(0, i)).push(s.subrange(i + 1, s.len() as int))
    } else {
        seq![s]
    }
}

proof fn lemma_last_line_break(s: Seq<char>)
    ensures
        -1 <= last_line_break(s) < s.len(),
        last_line_break(s) >= 0 ==> s[last_line_break(s)] == '\n',
    decreases s.len(),
{
    if s.len() > 0 && s.last() != '\n' {
        lemma_last_line_break(s.drop_last());
    }
}

/// Splitting never yields an empty list of lines.
pub proof fn lemma_split_lines_nonempty(s: Seq<char>)
    ensures
        split_lines(s).len() >= 1,
    decreases s.len(),
{
    lemma_last_line_break(s);
    let i = last_line_break(s);
    if 0 <= i {
        lemma_split_lines_nonempty(s.subrange(0, i));
    }
}

/// Joining the lines of a text gives the text back.
pub proof fn lemma_join_split_lines(s: Seq<char>)
    ensures
        join_lines(split_lines(s)) == s,
    decreases s.len(),
{
    lemma_last_line_break(s);
    let i = last_line_break(s);
    if 0 <= i {
        let head = s.subrange(0, i);
        let last = s.subrange(i + 1, s.len() as int);
        let lines = split_lines(head).push(last);
        lemma_split_lines_nonempty(head);
        lemma_join_split_lines(head);
        assert(lines.drop_last() =~= split_lines(head));
        assert(lines.last() == last);
        assert(head + seq!['\n'] + last =~= s);
    }
}

/// With whitespace recorded, the tokens from `pos` on have lengths that add
/// up to the rest of the text and follow each other without a gap.
pub proof fn lemma_tokens_cover_from(b: Seq<u8>, pos: int)
    requires
        0 <= pos <= b.len(),
    ensures
        total_len(tokens_from(b, pos, true)) == b.len() - pos,
        contiguous_from(tokens_from(b, pos, true), pos),
    decreases b.len() - pos,
{
    if pos < b.len() {
        lemma_lexeme_bounds(b, pos);
        let end = lexeme_end(b, pos);
        let tokens = tokens_from(b, pos, true);
        lemma_tokens_cover_from(b, end);
        assert(tokens.drop_first() =~= tokens_from(b, end, true));
    }
}

/// With whitespace recorded, the lengths of the tokens of a text add up to
/// the length of the text, and no byte lies between two tokens.
pub proof fn lemma_token_lengths_cover_source(b: Seq<u8>)
    ensures
        total_len(tokens_of(b, true)) == b.len(),
        contiguous_from(tokens_of(b, true), 0),
{
    lemma_tokens_cover_from(b, 0);
}

proof fn lemma_originals_spell_from(b: Seq<u8>, pos: int)
    requires
        valid_utf8(b),
        0 <= pos <= b.len(),
        is_char_boundary(b, pos),
    ensures
        concat_originals(tokens_from(b, pos, true)) == text(b, pos, b.len() as int),
    decreases b.len() - pos,
{
    let len = b.len() as int;
    if pos < b.len() {
        lemma_lexeme_end(b, pos);
        let end = lexeme_end(b, pos);
        let tokens = tokens_from(b, pos, true);
        lemma_originals_spell_from(b, end);
        assert(tokens.drop_first() =~= tokens_from(b, end, true));
        let suffix = b.subrange(pos, len);
        lemma_boundary_in_suffix(b, pos, end);
        decode_utf8_split(suffix, end - pos);
        assert(suffix.subrange(0, end - pos) =~= b.subrange(pos, end));
        assert(suffix.subrange(end - pos, suffix.len() as int) =~= b.subrange(end, len));
        assert(tokens[0].original == text(b, pos, end));
    } else {
        assert(b.subrange(pos, len) =~= Seq::<u8>::empty());
        assert(valid_utf8(Seq::<u8>::empty()));
        assert(decode_utf8(Seq::<u8>::empty()) =~= Seq::<char>::empty());
    }
}

/// With whitespace recorded, the texts of the tokens of a source, one after
/// the other, are the source: nothing is dropped and nothing is added.
pub proof fn lemma_originals_spell_source(s: Seq<char>)
    ensures
        concat_originals(tokens_of(encode_utf8(s), true)) == s,
{
    let b = encode_utf8(s);
    encode_utf8_valid_utf8(s);
    is_char_boundary_start_end_of_seq(b);
    lemma_originals_spell_from(b, 0);
    assert(b.subrange(0, b.len() as int) =~= b);
    encode_utf8_decode_utf8(s);
}

/// Tokenizing the lines of a text, split at its line breaks, spells the text.
pub proof fn lemma_lines_spell_source(s: Seq<char>)
    ensures
        concat_originals(tokens_of(encode_utf8(join_lines(split_lines(s))), true)) == s,
{
    lemma_join_split_lines(s);
    lemma_originals_spell_source(s);
}

proof fn lemma_noise_dropped_from(b: Seq<u8>, pos: int)
    requires
        0 <= pos <= b.len(),
    ensures
        tokens_from(b, pos, false) == without_noise(tokens_from(b, pos, true)),
    decreases b.len() - pos,
{
    if pos < b.len() {
        lemma_lexeme_bounds(b, pos);
        let end = lexeme_end(b, pos);
        let all = tokens_from(b, pos, true);
        lemma_noise_dropped_from(b, end);
        assert(all.drop_first() =~= tokens_from(b, end, true));
        assert(all[0] == lexeme(b, pos));
    }
}

/// Tokenizing without whitespace gives the tokens of the tokenization with
/// whitespace that are no whitespace, line break or comment, each with the
/// position and length it has there.
pub proof fn lemma_noise_dropped(b: Seq<u8>)
    ensures
        tokens_of(b, false) == without_noise(tokens_of(b, true)),
{
    lemma_noise_dropped_from(b, 0);
}

/// The tokens from `pos` on stand in the order of the text, none before
/// `pos`.
pub proof fn lemma_tokens_ordered_from(b: Seq<u8>, pos: int, record_whitespace: bool)
    requires
        0 <= pos <= b.len(),
    ensures
        ordered(tokens_from(b, pos, record_whitespace)),
        forall|i: int|
            0 <= i < tokens_from(b, pos, record_whitespace).len() ==> pos <= (
            #[trigger] tokens_from(b, pos, record_whitespace)[i]).pos,
    decreases b.len() - pos,
{
    if pos < b.len() {
        lemma_lexeme_bounds(b, pos);
        let end = lexeme_end(b, pos);
        let token = lexeme(b, pos);
        let rest = tokens_from(b, end, record_whitespace);
        let tokens = tokens_from(b, pos, record_whitespace);
        lemma_tokens_ordered_from(b, end, record_whitespace);
        if record_whitespace || !is_noise(token.kind) {
            assert(tokens =~= seq![token] + rest);
            assert forall|i: int, j: int| 0 <= i < j < tokens.len() implies (
            #[trigger] tokens[i]).end_pos() <= (#[trigger] tokens[j]).pos by {
                assert(tokens[j] == rest[j - 1]);
                if i > 0 {
                    assert(tokens[i] == rest[i - 1]);
                }
            }
            assert forall|i: int| 0 <= i < tokens.len() implies pos <= (#[trigger] tokens[i]).pos by {
                if i > 0 {
                    assert(tokens[i] == rest[i - 1]);
                }
            }
        }
    }
}

/// The tokens of a text stand in the order of the text and do not overlap,
/// with or without whitespace recorded.
pub proof fn lemma_tokens_ordered(b: Seq<u8>, record_whitespace: bool)
    ensures
        ordered(tokens_of(b, record_whitespace)),
{
    lemma_tokens_ordered_from(b, 0, record_whitespace);
}

/// Where the tokens of a text parse, every node of the tree starts no later
/// than it ends and lies inside its parent, and siblings do not overlap.
pub proof fn lemma_parsed_text_is_well_formed(b: Seq<u8>)
    ensures
        root_of(tokens_of(b, false)) matches Ok(root) ==> root_wf(root),
{
    lemma_tokens_ordered(b, false);
    lemma_parse_well_formed(tokens_of(b, false));
}

} // verus!
