//! What holds of the buffer and its text: the text is the lines one after
//! the other, so that replacing a part of a line replaces a part of the
//! text, and applying a suggestion that replaces a keyword by a name makes
//! no parse error.

use crate::grammar::root_of;
use crate::replacement_laws::{
    is_word, is_word_start, lemma_keyword_replacement_parses, token_starts_at, tokens_until,
};
use crate::strings::{
    floor_boundary, lemma_boundary_after_ascii, lemma_boundary_at, lemma_encode_concat, spliced,
};
use crate::text::{line_bytes, line_of_position, line_offset, TextView};
use crate::tokenizer::{join_lines, lexeme_end, tokens_of};
use vstd::prelude::*;
use vstd::utf8::*;

verus! {

/// The bytes of the lines, one line after the other, with a line break
/// between each two.
pub open spec fn joined_bytes(lines: Seq<Seq<u8>>) -> Seq<u8>
    decreases lines.len(),
{
    if lines.len() == 0 {
        Seq::empty()
    } else if lines.len() == 1 {
        lines[0]
    } else {
        joined_bytes(lines.drop_last()) + seq![0x0au8] + lines.last()
    }
}

/// The bytes of the joined text are the joined bytes of the lines.
pub proof fn lemma_joined_text(lines: Seq<Seq<char>>)
    ensures
        encode_utf8(join_lines(lines)) == joined_bytes(
            Seq::new(lines.len(), |i: int| encode_utf8(lines[i])),
        ),
    decreases lines.len(),
{
    let bytes = Seq::new(lines.len(), |i: int| encode_utf8(lines[i]));
    if lines.len() == 0 {
        assert(encode_utf8(Seq::<char>::empty()) =~= Seq::<u8>::empty());
    } else if lines.len() == 1 {
    } else {
        lemma_joined_text(lines.drop_last());
        assert(bytes.drop_last() =~= Seq::new(
            lines.drop_last().len(),
            |i: int| encode_utf8(lines.drop_last()[i]),
        ));
        lemma_encode_concat(join_lines(lines.drop_last()), seq!['\n']);
        lemma_encode_concat(join_lines(lines.drop_last()) + seq!['\n'], lines.last());
        assert(is_ascii_chars(seq!['\n']));
        is_ascii_chars_encode_utf8(seq!['\n']);
        assert(encode_utf8(seq!['\n']) =~= seq![0x0au8]);
    }
}

/// The length of the joined text, and where each line stands in it.
pub proof fn lemma_line_in_joined(lines: Seq<Seq<u8>>, y: int)
    requires
        0 <= y < lines.len(),
    ensures
        0 <= line_offset(lines, y),
        joined_bytes(lines).len() == line_offset(lines, lines.len() as int) - 1,
        line_offset(lines, y) + lines[y].len() <= joined_bytes(lines).len(),
        joined_bytes(lines).subrange(
            line_offset(lines, y),
            line_offset(lines, y) + lines[y].len(),
        ) == lines[y],
    decreases lines.len(),
{
    let n = lines.len() as int;
    crate::text::lemma_line_offset_grows(lines, 0, y);
    if n == 1 {
        assert(line_offset(lines, 0) == 0);
        assert(joined_bytes(lines).subrange(0, lines[0].len() as int) =~= lines[0]);
    } else {
        let head = lines.drop_last();
        lemma_offsets_of_prefix(lines, n - 1, n - 1);
        lemma_line_in_joined(head, if y < n - 1 {
            y
        } else {
            0
        });
        assert(joined_bytes(lines) == joined_bytes(head) + seq![0x0au8] + lines.last());
        assert(line_offset(lines, n) == line_offset(lines, n - 1) + lines[n - 1].len() + 1);
        assert(line_offset(head, n - 1) == line_offset(lines, n - 1));
        if y < n - 1 {
            lemma_offsets_of_prefix(lines, n - 1, y);
            assert(head[y] == lines[y]);
            assert(line_offset(head, y) == line_offset(lines, y));
            assert(joined_bytes(lines).subrange(
                line_offset(lines, y),
                line_offset(lines, y) + lines[y].len(),
            ) =~= joined_bytes(head).subrange(
                line_offset(head, y),
                line_offset(head, y) + head[y].len(),
            ));
        } else {
            assert(joined_bytes(lines).subrange(
                line_offset(lines, y),
                line_offset(lines, y) + lines[y].len(),
            ) =~= lines[y]);
        }
    }
}

/// The offsets of the first lines do not depend on the lines after them.
proof fn lemma_offsets_of_prefix(lines: Seq<Seq<u8>>, n: int, y: int)
    requires
        0 <= y <= n <= lines.len(),
    ensures
        line_offset(lines.subrange(0, n), y) == line_offset(lines, y),
        n == lines.len() - 1 ==> lines.subrange(0, n) == lines.drop_last(),
    decreases y,
{
    if y > 0 {
        lemma_offsets_of_prefix(lines, n, y - 1);
        assert(lines.subrange(0, n)[y - 1] == lines[y - 1]);
    }
    if n == lines.len() - 1 {
        assert(lines.subrange(0, n) =~= lines.drop_last());
    }
}

/// The offsets of the lines up to a line do not depend on that line.
proof fn lemma_offsets_of_update(lines: Seq<Seq<u8>>, y: int, line: Seq<u8>, i: int)
    requires
        0 <= y < lines.len(),
        0 <= i <= y,
    ensures
        line_offset(lines.update(y, line), i) == line_offset(lines, i),
    decreases i,
{
    if i > 0 {
        lemma_offsets_of_update(lines, y, line, i - 1);
    }
}

/// Replacing a part of a line replaces that part of the joined text.
pub proof fn lemma_spliced_line(lines: Seq<Seq<u8>>, y: int, start: int, end: int, piece: Seq<u8>)
    requires
        0 <= y < lines.len(),
        0 <= start <= end <= lines[y].len(),
    ensures
        joined_bytes(lines.update(y, spliced(lines[y], start, end, piece))) == spliced(
            joined_bytes(lines),
            line_offset(lines, y) + start,
            line_offset(lines, y) + end,
            piece,
        ),
    decreases lines.len(),
{
    let n = lines.len() as int;
    let line = spliced(lines[y], start, end, piece);
    let updated = lines.update(y, line);
    let off = line_offset(lines, y);
    lemma_line_in_joined(lines, y);
    if n == 1 {
        assert(off == 0);
        assert(joined_bytes(updated) =~= spliced(joined_bytes(lines), start, end, piece));
    } else {
        let head = lines.drop_last();
        lemma_offsets_of_prefix(lines, n - 1, n - 1);
        assert(joined_bytes(lines) == joined_bytes(head) + seq![0x0au8] + lines.last());
        assert(joined_bytes(updated) == joined_bytes(updated.drop_last()) + seq![0x0au8]
            + updated.last());
        if y < n - 1 {
            lemma_offsets_of_prefix(lines, n - 1, y);
            lemma_spliced_line(head, y, start, end, piece);
            lemma_line_in_joined(head, y);
            assert(head[y] == lines[y]);
            assert(line_offset(head, y) == off);
            assert(updated.drop_last() =~= head.update(y, line));
            assert(updated.last() == lines.last());
            assert(joined_bytes(updated.drop_last()) == spliced(
                joined_bytes(head),
                off + start,
                off + end,
                piece,
            ));
            assert(joined_bytes(updated) =~= spliced(
                joined_bytes(lines),
                off + start,
                off + end,
                piece,
            ));
        } else {
            lemma_line_in_joined(head, 0);
            assert(updated.drop_last() =~= head);
            assert(updated.last() == line);
            assert(line_offset(head, n - 1) == line_offset(lines, n - 1));
            assert(off == joined_bytes(head).len() + 1);
            assert(joined_bytes(updated) =~= spliced(
                joined_bytes(lines),
                off + start,
                off + end,
                piece,
            ));
        }
    }
}

/// The line that holds a position of the joined text that lies in line `y`.
pub proof fn lemma_line_of_position(lines: Seq<Seq<u8>>, y: int, x: int, from: int)
    requires
        0 <= from <= y < lines.len(),
        0 <= x <= lines[y].len(),
    ensures
        line_of_position(lines, line_offset(lines, y) + x, from) == y,
    decreases y - from,
{
    if from < y {
        crate::text::lemma_line_offset_grows(lines, from + 1, y);
        lemma_line_of_position(lines, y, x, from + 1);
    }
}

/// Characters start where a keyword of a line starts and where it ends.
proof fn lemma_keyword_in_line(line: Seq<u8>, x: int, len: int)
    requires
        valid_utf8(line),
        0 <= x,
        0 < len,
        x + len <= line.len(),
        is_word_start(line[x]),
        crate::scan::in_class(crate::scan::ByteClass::Word, line[x + len - 1]),
    ensures
        floor_boundary(line, x) == x,
        floor_boundary(line, x + len) == x + len,
{
    lemma_boundary_at(line, x);
    lemma_boundary_at(line, x + len - 1);
    lemma_boundary_after_ascii(line, x + len - 1);
    if x + len < line.len() {
        is_char_boundary_iff_not_is_continuation_byte(line, x + len);
    }
}

/// Applying a suggestion that replaces a keyword of the buffer by a name
/// makes no parse error and mends none: the text of the buffer parses after
/// it if, and only if, it did before. The keyword stands in line `y` from
/// byte `x` on; it is not the first token and follows no ellipsis and no
/// dot, and the name is one keyword.
pub proof fn lemma_applied_keyword_suggestion_parses(
    text: TextView,
    y: int,
    x: int,
    len: int,
    name: Seq<u8>,
)
    requires
        0 <= y < text.lines.len(),
        0 <= x,
        0 < len,
        x + len <= text.lines[y].len(),
        valid_utf8(text.lines[y]),
        ({
            let b = joined_bytes(text.lines);
            let p = line_offset(text.lines, y) + x;
            &&& token_starts_at(b, 0, p)
            &&& is_word_start(b[p])
            &&& lexeme_end(b, p) == p + len
            &&& b[p - 1] != 0x2e
            &&& tokens_until(b, 0, p, false).len() > 0
            &&& !(tokens_until(b, 0, p, false).last().kind is Ellipsis)
        }),
        is_word(name),
    ensures
        root_of(tokens_of(joined_bytes(text.lines), false)) is Ok <==> root_of(
            tokens_of(
                joined_bytes(
                    text.with_token_replaced(line_offset(text.lines, y) + x, len, name).lines,
                ),
                false,
            ),
        ) is Ok,
{
    let b = joined_bytes(text.lines);
    let line = text.lines[y];
    let off = line_offset(text.lines, y);
    let p = off + x;
    lemma_line_in_joined(text.lines, y);
    lemma_line_of_position(text.lines, y, x, 0);
    assert(line[x] == b[p]) by {
        assert(b.subrange(off, off + line.len())[x] == b[off + x]);
    }
    assert(line[x + len - 1] == b[p + len - 1]) by {
        assert(b.subrange(off, off + line.len())[x + len - 1] == b[off + x + len - 1]);
    }
    assert(crate::scan::in_class(crate::scan::ByteClass::Word, b[p + len - 1])) by {
        crate::scan::lemma_scan(b, p, crate::scan::ByteClass::Word);
    }
    lemma_keyword_in_line(line, x, len);
    let replaced = text.with_token_replaced(p, len, name);
    assert(replaced.lines == text.lines.update(y, spliced(line, x, x + len, name)));
    lemma_spliced_line(text.lines, y, x, x + len, name);
    lemma_keyword_replacement_parses(b, p, name);
}

} // verus!
