//! Byte-level helpers for UTF-8 text: cutting owned strings out of a `&str`
//! at character boundaries and comparing string slices.

use crate::scan::{lemma_scan, scan, scan_run, ByteClass};
use vstd::prelude::*;
use vstd::string::*;
use vstd::utf8::*;

verus! {

/// The characters encoded by the bytes `from..to` of `b`.
pub open spec fn text(b: Seq<u8>, from: int, to: int) -> Seq<char> {
    decode_utf8(b.subrange(from, to))
}

/// True for the bytes of the ASCII range, each of which encodes one character.
pub open spec fn is_ascii_byte(c: u8) -> bool {
    c < 0x80
}

/// In valid UTF-8 the position after an ASCII byte that starts a character
/// starts a character too (or is the end of the text).
pub proof fn lemma_boundary_after_ascii(b: Seq<u8>, i: int)
    requires
        valid_utf8(b),
        0 <= i < b.len(),
        is_char_boundary(b, i),
        is_ascii_byte(b[i]),
    ensures
        is_char_boundary(b, i + 1),
    decreases b.len(),
{
    reveal_with_fuel(is_char_boundary, 2);
    if i == 0 {
        assert(length_of_first_scalar(b) == 1);
    } else {
        let k = length_of_first_scalar(b);
        let rest = pop_first_scalar(b);
        assert(is_char_boundary(rest, i - k));
        if i - k < 0 {
            assert(false);
        }
        if i - k >= rest.len() {
            if i - k > 0 {
                assert(false);
            }
        }
        assert(rest[i - k] == b[i]);
        lemma_boundary_after_ascii(rest, i - k);
    }
}

/// A run of ASCII bytes that starts at a character boundary ends at one.
pub proof fn lemma_boundary_after_ascii_run(b: Seq<u8>, from: int, to: int)
    requires
        valid_utf8(b),
        0 <= from <= to <= b.len(),
        is_char_boundary(b, from),
        forall|i: int| from <= i < to ==> is_ascii_byte(#[trigger] b[i]),
    ensures
        is_char_boundary(b, to),
    decreases to - from,
{
    if from < to {
        lemma_boundary_after_ascii_run(b, from, to - 1);
        lemma_boundary_after_ascii(b, to - 1);
    }
}

/// A position that is not inside a character is a boundary: the end of the
/// text, or a byte that is no continuation byte.
pub proof fn lemma_boundary_at(b: Seq<u8>, i: int)
    requires
        valid_utf8(b),
        0 <= i <= b.len(),
        i < b.len() ==> !is_continuation_byte(b[i]),
    ensures
        is_char_boundary(b, i),
{
    if i == b.len() {
        is_char_boundary_start_end_of_seq(b);
    } else {
        is_char_boundary_iff_not_is_continuation_byte(b, i);
    }
}

/// Two boundaries of a text stay boundaries in the part of the text that
/// starts at the first of them, and the bytes between them are valid UTF-8.
pub proof fn lemma_boundary_in_suffix(b: Seq<u8>, from: int, to: int)
    requires
        valid_utf8(b),
        0 <= from <= to <= b.len(),
        is_char_boundary(b, from),
        is_char_boundary(b, to),
    ensures
        valid_utf8(b.subrange(from, b.len() as int)),
        is_char_boundary(b.subrange(from, b.len() as int), to - from),
        valid_utf8(b.subrange(from, to)),
{
    let tail = b.subrange(from, b.len() as int);
    valid_utf8_split(b, from);
    if to == b.len() {
        is_char_boundary_start_end_of_seq(tail);
    } else {
        is_char_boundary_iff_not_is_continuation_byte(b, to);
        assert(tail[to - from] == b[to]);
        is_char_boundary_iff_not_is_continuation_byte(tail, to - from);
    }
    valid_utf8_split(tail, to - from);
    assert(tail.subrange(0, to - from) =~= b.subrange(from, to));
}

/// Copies the bytes `from..to` of `source` into a new string.
pub fn slice_string(source: &str, from: usize, to: usize) -> (r: String)
    requires
        from <= to <= source.spec_bytes().len(),
        is_char_boundary(source.spec_bytes(), from as int),
        is_char_boundary(source.spec_bytes(), to as int),
    ensures
        r@ == text(source.spec_bytes(), from as int, to as int),
        encode_utf8(r@) == source.spec_bytes().subrange(from as int, to as int),
{
    let ghost b = source.spec_bytes();
    proof {
        encode_utf8_valid_utf8(source@);
        lemma_boundary_in_suffix(b, from as int, to as int);
    }
    let (_, tail) = source.split_at(from);
    assert(tail.spec_bytes() == b.subrange(from as int, b.len() as int));
    let (mid, _) = tail.split_at(to - from);
    assert(mid.spec_bytes() =~= b.subrange(from as int, to as int));
    let r = mid.to_owned();
    proof {
        encode_utf8_decode_utf8(r@);
    }
    r
}

/// Whether two string slices hold the same characters.
pub fn str_eq(a: &str, b: &str) -> (r: bool)
    ensures
        r == (a@ == b@),
{
    let x = a.as_bytes();
    let y = b.as_bytes();
    proof {
        encode_utf8_decode_utf8(a@);
        encode_utf8_decode_utf8(b@);
    }
    if x.len() != y.len() {
        return false;
    }
    let mut i: usize = 0;
    while i < x.len()
        invariant
            x@ == a.spec_bytes(),
            y@ == b.spec_bytes(),
            x.len() == y.len(),
            i <= x.len(),
            x@.subrange(0, i as int) == y@.subrange(0, i as int),
        decreases x.len() - i,
    {
        if x[i] != y[i] {
            return false;
        }
        assert(x@.subrange(0, i + 1) =~= x@.subrange(0, i as int).push(x@[i as int]));
        assert(y@.subrange(0, i + 1) =~= y@.subrange(0, i as int).push(y@[i as int]));
        i += 1;
    }
    assert(x@ =~= x@.subrange(0, i as int));
    assert(y@ =~= y@.subrange(0, i as int));
    true
}

/// The bytes of two texts, one after the other, are the bytes of the texts
/// one after the other.
pub proof fn lemma_encode_concat(a: Seq<char>, b: Seq<char>)
    ensures
        encode_utf8(a + b) == encode_utf8(a) + encode_utf8(b),
{
    let x = encode_utf8(a);
    let y = encode_utf8(b);
    let both = x + y;
    encode_utf8_valid_utf8(a);
    encode_utf8_valid_utf8(b);
    valid_utf8_concat(x, y);
    encode_utf8_decode_utf8(a);
    encode_utf8_decode_utf8(b);
    if y.len() == 0 {
        assert(both =~= x);
        assert(b =~= Seq::<char>::empty());
        assert(a + b =~= a);
    } else {
        is_char_boundary_start_end_of_seq(y);
        is_char_boundary_iff_not_is_continuation_byte(y, 0);
        assert(both[x.len() as int] == y[0]);
        lemma_boundary_at(both, x.len() as int);
        decode_utf8_split(both, x.len() as int);
        assert(both.subrange(0, x.len() as int) =~= x);
        assert(both.subrange(x.len() as int, both.len() as int) =~= y);
        assert(decode_utf8(both) =~= a + b);
        decode_utf8_encode_utf8(both);
    }
}

/// The text with the bytes `start..end` replaced.
pub open spec fn spliced(b: Seq<u8>, start: int, end: int, replacement: Seq<u8>) -> Seq<u8> {
    b.subrange(0, start) + replacement + b.subrange(end, b.len() as int)
}

/// Replaces the bytes `start..end` of the text.
pub fn splice(text: &str, start: usize, end: usize, replacement: &str) -> (r: String)
    requires
        start <= end <= text.spec_bytes().len(),
        is_char_boundary(text.spec_bytes(), start as int),
        is_char_boundary(text.spec_bytes(), end as int),
    ensures
        encode_utf8(r@) == spliced(
            text.spec_bytes(),
            start as int,
            end as int,
            replacement.spec_bytes(),
        ),
{
    let ghost b = text.spec_bytes();
    proof {
        encode_utf8_valid_utf8(text@);
        is_char_boundary_start_end_of_seq(b);
    }
    let head = slice_string(text, 0, start);
    let tail = slice_string(text, end, text.as_bytes().len());
    proof {
        lemma_encode_concat(head@, replacement@);
        lemma_encode_concat(head@ + replacement@, tail@);
    }
    head.concat(replacement).concat(tail.as_str())
}

/// The bytes with `with` in place of each byte that is `target`.
pub open spec fn replaced_all(b: Seq<u8>, target: u8, with: Seq<u8>) -> Seq<u8>
    decreases b.len(),
{
    if b.len() == 0 {
        Seq::empty()
    } else if b.last() == target {
        replaced_all(b.drop_last(), target, with) + with
    } else {
        replaced_all(b.drop_last(), target, with).push(b.last())
    }
}

/// A stretch without the target is kept as it is.
pub proof fn lemma_replaced_all_run(b: Seq<u8>, target: u8, with: Seq<u8>, from: int, to: int)
    requires
        0 <= from <= to <= b.len(),
        forall|i: int| from <= i < to ==> b[i] != target,
    ensures
        replaced_all(b.subrange(0, to), target, with) == replaced_all(
            b.subrange(0, from),
            target,
            with,
        ) + b.subrange(from, to),
    decreases to - from,
{
    if from < to {
        lemma_replaced_all_run(b, target, with, from, to - 1);
        assert(b.subrange(0, to).drop_last() =~= b.subrange(0, to - 1));
        assert(b.subrange(0, to).last() == b[to - 1]);
        assert(b.subrange(from, to) =~= b.subrange(from, to - 1).push(b[to - 1]));
        assert(replaced_all(b.subrange(0, to), target, with) =~= replaced_all(
            b.subrange(0, from),
            target,
            with,
        ) + b.subrange(from, to));
    } else {
        assert(b.subrange(from, to) =~= Seq::<u8>::empty());
        assert(replaced_all(b.subrange(0, from), target, with) + b.subrange(from, to)
            =~= replaced_all(b.subrange(0, from), target, with));
    }
}

/// Puts `with` in the place of each byte of the text that is `target`, an
/// ASCII byte.
pub fn replace_ascii(text: &str, target: u8, with: &str) -> (r: String)
    requires
        is_ascii_byte(target),
    ensures
        encode_utf8(r@) == replaced_all(text.spec_bytes(), target, with.spec_bytes()),
{
    let bytes = text.as_bytes();
    let ghost b = bytes@;
    let ghost w = with.spec_bytes();
    let mut out = String::new();
    let mut pos: usize = 0;
    proof {
        encode_utf8_valid_utf8(text@);
        is_char_boundary_start_end_of_seq(b);
        assert(b.subrange(0, 0) =~= Seq::<u8>::empty());
        assert(encode_utf8(out@) =~= Seq::<u8>::empty());
    }
    while pos < bytes.len()
        invariant
            b == bytes@,
            b == text.spec_bytes(),
            w == with.spec_bytes(),
            valid_utf8(b),
            is_ascii_byte(target),
            pos <= bytes.len(),
            is_char_boundary(b, pos as int),
            encode_utf8(out@) == replaced_all(b.subrange(0, pos as int), target, w),
        decreases bytes.len() - pos,
    {
        let mut end = pos;
        while end < bytes.len() && bytes[end] != target
            invariant
                b == bytes@,
                pos <= end <= bytes.len(),
                forall|i: int| pos <= i < end ==> b[i] != target,
            decreases bytes.len() - end,
        {
            end += 1;
        }
        proof {
            lemma_boundary_at(b, end as int);
            lemma_replaced_all_run(b, target, w, pos as int, end as int);
        }
        let run = slice_string(text, pos, end);
        proof {
            lemma_encode_concat(out@, run@);
        }
        out.append(run.as_str());
        if end < bytes.len() {
            proof {
                lemma_encode_concat(out@, with@);
                lemma_boundary_after_ascii(b, end as int);
                assert(b.subrange(0, end + 1).drop_last() =~= b.subrange(0, end as int));
                assert(b.subrange(0, end + 1).last() == target);
            }
            out.append(with);
            pos = end + 1;
        } else {
            pos = end;
        }
    }
    assert(b.subrange(0, pos as int) =~= b);
    out
}

/// The nearest place at or before `x` at which a character of the line
/// starts or the line ends.
pub open spec fn floor_boundary(b: Seq<u8>, x: int) -> int
    decreases x,
{
    if x <= 0 {
        0
    } else if x >= b.len() {
        b.len() as int
    } else if !is_continuation_byte(b[x]) {
        x
    } else {
        floor_boundary(b, x - 1)
    }
}

/// The nearest place after `x` at which a character of the line starts or
/// the line ends.
pub open spec fn next_boundary(b: Seq<u8>, x: int) -> int {
    scan(b, x + 1, ByteClass::Continuation)
}

/// The nearest start of a character at or before a place is one, and lies
/// before every place after it.
pub proof fn lemma_floor_boundary(b: Seq<u8>, x: int)
    requires
        valid_utf8(b),
    ensures
        0 <= floor_boundary(b, x) <= b.len(),
        floor_boundary(b, x) <= x || x < 0,
        is_char_boundary(b, floor_boundary(b, x)),
        0 <= x <= b.len() && is_char_boundary(b, x) ==> floor_boundary(b, x) == x,
        0 < x <= b.len() ==> floor_boundary(b, x - 1) < x,
    decreases x,
{
    is_char_boundary_start_end_of_seq(b);
    if x > 0 {
        if x >= b.len() || !is_continuation_byte(b[x]) {
            if x < b.len() {
                lemma_boundary_at(b, x);
            }
        } else {
            lemma_floor_boundary(b, x - 1);
            is_char_boundary_iff_not_is_continuation_byte(b, x);
        }
        lemma_floor_boundary_bounds(b, x - 1);
    }
}

proof fn lemma_floor_boundary_bounds(b: Seq<u8>, x: int)
    ensures
        x >= 0 ==> floor_boundary(b, x) <= x,
        floor_boundary(b, x) >= 0,
    decreases x,
{
    if x > 0 && x < b.len() && is_continuation_byte(b[x]) {
        lemma_floor_boundary_bounds(b, x - 1);
    }
}

/// The nearest start of a character after a place is one.
pub proof fn lemma_next_boundary(b: Seq<u8>, x: int)
    requires
        valid_utf8(b),
        0 <= x < b.len(),
    ensures
        x < next_boundary(b, x) <= b.len(),
        is_char_boundary(b, next_boundary(b, x)),
{
    lemma_scan(b, x + 1, ByteClass::Continuation);
    lemma_boundary_at(b, next_boundary(b, x));
}

/// The place at or before `x` at which a character of the line starts.
pub fn boundary_at_or_before(line: &str, x: usize) -> (r: usize)
    ensures
        r == floor_boundary(line.spec_bytes(), x as int),
        r <= line.spec_bytes().len(),
        r <= x,
        is_char_boundary(line.spec_bytes(), r as int),
{
    let bytes = line.as_bytes();
    proof {
        encode_utf8_valid_utf8(line@);
        lemma_floor_boundary(bytes@, x as int);
    }
    if x >= bytes.len() {
        return bytes.len();
    }
    let mut r = x;
    while r > 0 && (0x80 <= bytes[r] && bytes[r] <= 0xbf)
        invariant
            r <= x < bytes.len(),
            floor_boundary(bytes@, x as int) == floor_boundary(bytes@, r as int),
        decreases r,
    {
        r -= 1;
    }
    r
}

/// The place after `x` at which the next character of the line starts.
pub fn boundary_after(line: &str, x: usize) -> (r: usize)
    requires
        x < line.spec_bytes().len(),
    ensures
        r == next_boundary(line.spec_bytes(), x as int),
        x < r <= line.spec_bytes().len(),
        is_char_boundary(line.spec_bytes(), r as int),
{
    let bytes = line.as_bytes();
    proof {
        encode_utf8_valid_utf8(line@);
        lemma_next_boundary(bytes@, x as int);
    }
    assert(x < bytes.len());
    scan_run(bytes, x + 1, ByteClass::Continuation)
}

/// The length of a line in bytes.
pub fn byte_len(line: &str) -> (len: usize)
    ensures
        len == line.spec_bytes().len(),
{
    line.as_bytes().len()
}

/// No character starts between a place and the start of the character that
/// holds it.
pub proof fn lemma_floor_boundary_from(b: Seq<u8>, x: int, v: int)
    requires
        valid_utf8(b),
        0 <= x <= v,
        x <= b.len(),
        is_char_boundary(b, x),
    ensures
        x <= floor_boundary(b, v),
    decreases v,
{
    if v > 0 && v < b.len() && is_continuation_byte(b[v]) {
        if x < b.len() {
            is_char_boundary_iff_not_is_continuation_byte(b, x);
        }
        lemma_floor_boundary_from(b, x, v - 1);
    }
}

/// Beyond the end of a line, the nearest start of a character is the end.
pub proof fn lemma_floor_boundary_beyond(b: Seq<u8>, v: int)
    requires
        v >= b.len(),
    ensures
        floor_boundary(b, v) == b.len(),
{
}


} // verus!
