//! Runs of bytes of one class: the scanning that the tokenizer and the
//! parsers of the small languages share.

use vstd::prelude::*;
use vstd::utf8::*;

verus! {

/// Classes of bytes that a run is made of.
#[derive(Clone, Copy, Debug, PartialEq, Eq)]
pub enum ByteClass {
    /// Space and tab.
    Blank,
    /// Letters, digits and `_`.
    Word,
    /// Digits, `.` and `-`.
    Number,
    /// What may stand between the quotes of a string.
    StringBody,
    /// What may stand between the angle brackets of a magic value.
    MagicBody,
    /// What may stand in a line.
    LineBody,
    /// The second and later bytes of a character's encoding.
    Continuation,
    /// Letters.
    Letter,
    /// Digits.
    Digit,
    /// What may stand between the brackets of an index.
    IndexBody,
    /// The space.
    Space,
}

/// The letters of ASCII.
pub open spec fn is_letter(c: u8) -> bool {
    (0x61 <= c <= 0x7a) || (0x41 <= c <= 0x5a)
}

/// The decimal digits.
pub open spec fn is_digit(c: u8) -> bool {
    0x30 <= c <= 0x39
}

/// Whether the byte is in the class.
pub open spec fn in_class(class: ByteClass, c: u8) -> bool {
    match class {
        ByteClass::Blank => c == 0x20 || c == 0x09,
        ByteClass::Word => is_letter(c) || is_digit(c) || c == 0x5f,
        ByteClass::Number => is_digit(c) || c == 0x2e || c == 0x2d,
        ByteClass::StringBody => c != 0x22 && c != 0x0a,
        ByteClass::MagicBody => c != 0x3e && c != 0x0a,
        ByteClass::LineBody => c != 0x0a,
        ByteClass::Continuation => is_continuation_byte(c),
        ByteClass::Letter => is_letter(c),
        ByteClass::Digit => is_digit(c),
        ByteClass::IndexBody => c != 0x5d,
        ByteClass::Space => c == 0x20,
    }
}

/// The first position at or after `from` whose byte is not in `class`, or
/// the end of the text.
pub open spec fn scan(b: Seq<u8>, from: int, class: ByteClass) -> int
    decreases b.len() - from,
{
    if 0 <= from < b.len() && in_class(class, b[from]) {
        scan(b, from + 1, class)
    } else {
        from
    }
}

/// Facts about where a run of bytes of one class ends.
pub proof fn lemma_scan(b: Seq<u8>, from: int, class: ByteClass)
    requires
        0 <= from <= b.len(),
    ensures
        from <= scan(b, from, class) <= b.len(),
        forall|i: int| from <= i < scan(b, from, class) ==> in_class(class, #[trigger] b[i]),
        scan(b, from, class) < b.len() ==> !in_class(class, b[scan(b, from, class)]),
    decreases b.len() - from,
{
    if from < b.len() && in_class(class, b[from]) {
        lemma_scan(b, from + 1, class);
    }
}

/// Whether the byte is in the class.
pub fn byte_in_class(class: ByteClass, c: u8) -> (r: bool)
    ensures
        r == in_class(class, c),
{
    match class {
        ByteClass::Blank => c == 0x20 || c == 0x09,
        ByteClass::Word => (0x61 <= c && c <= 0x7a) || (0x41 <= c && c <= 0x5a) || (0x30 <= c
            && c <= 0x39) || c == 0x5f,
        ByteClass::Number => (0x30 <= c && c <= 0x39) || c == 0x2e || c == 0x2d,
        ByteClass::StringBody => c != 0x22 && c != 0x0a,
        ByteClass::MagicBody => c != 0x3e && c != 0x0a,
        ByteClass::LineBody => c != 0x0a,
        ByteClass::Continuation => 0x80 <= c && c <= 0xbf,
        ByteClass::Letter => (0x61 <= c && c <= 0x7a) || (0x41 <= c && c <= 0x5a),
        ByteClass::Digit => 0x30 <= c && c <= 0x39,
        ByteClass::IndexBody => c != 0x5d,
        ByteClass::Space => c == 0x20,
    }
}

/// The end of the run of bytes of the class that starts at `from`.
pub fn scan_run(bytes: &[u8], from: usize, class: ByteClass) -> (end: usize)
    requires
        from <= bytes.len(),
    ensures
        end == scan(bytes@, from as int, class),
        from <= end <= bytes.len(),
{
    let mut i = from;
    while i < bytes.len() && byte_in_class(class, bytes[i])
        invariant
            from <= i <= bytes.len(),
            scan(bytes@, from as int, class) == scan(bytes@, i as int, class),
        decreases bytes.len() - i,
    {
        i += 1;
    }
    i
}

} // verus!
