//! Fuzzy matching of names against what the user typed, and random values.

use crate::numbers::{decimal_text, u64_to_decimal};
use crate::strings::{boundary_at_or_before, byte_len, floor_boundary, slice_string, text};
use vstd::prelude::*;
use vstd::string::*;
use vstd::utf8::*;

verus! {

/// A place on the screen or in a text: a column and a line.
#[derive(Debug, Clone)]
pub struct CoordUsize {
    pub x: usize,
    pub y: usize,
}

/// The lowercase equivalent of a text, as the standard library's Unicode
/// tables define it.
pub uninterp spec fn lowercase(s: Seq<char>) -> Seq<char>;

/// Calls `str::to_lowercase`, which returns the lowercase equivalent of the
/// string slice as a new string. The contract only names that result: it is
/// a function of the characters alone.
#[verifier::external_body]
fn to_lowercase(s: &str) -> (r: String)
    ensures
        r@ == lowercase(s@),
{
    s.to_lowercase()
}

/// The leftmost places at which the characters of `pattern` from `j` on
/// occur, in order, in `subject` from `i` on, after the places `acc` found
/// so far; `None` where they do not all occur.
pub open spec fn leftmost_match(
    subject: Seq<char>,
    pattern: Seq<char>,
    i: int,
    j: int,
    acc: Seq<usize>,
) -> Option<Seq<usize>>
    decreases subject.len() - i,
{
    if j >= pattern.len() {
        Some(acc)
    } else if i >= subject.len() || i < 0 || j < 0 {
        None
    } else if subject[i] == pattern[j] {
        leftmost_match(subject, pattern, i + 1, j + 1, acc.push(i as usize))
    } else {
        leftmost_match(subject, pattern, i + 1, j, acc)
    }
}

/// Subsequence matching: the indices of the characters of `subject` that
/// the characters of `pattern` match, each as early as possible. The empty
/// pattern matches at no index.
pub open spec fn subsequence_positions(subject: Seq<char>, pattern: Seq<char>) -> Option<
    Seq<usize>,
> {
    leftmost_match(subject, pattern, 0, 0, Seq::empty())
}

/// What [`fuzzy_match`] returns: subsequence matching without regard to
/// case. The empty pattern matches everything, at no index.
pub open spec fn fuzzy_positions(subject: Seq<char>, pattern: Seq<char>) -> Option<Seq<usize>> {
    if pattern.len() == 0 {
        Some(Seq::empty())
    } else {
        subsequence_positions(lowercase(subject), lowercase(pattern))
    }
}

/// The model of what a match returned.
pub open spec fn positions_view(r: Option<Vec<usize>>) -> Option<Seq<usize>> {
    match r {
        Some(positions) => Some(positions@),
        None => None,
    }
}

/// The characters of a string slice.
pub fn chars_of(s: &str) -> (chars: Vec<char>)
    ensures
        chars@ == s@,
{
    let mut chars: Vec<char> = Vec::new();
    for c in it: s.chars()
        invariant
            it.seq() == s@,
            chars@ == it.seq().subrange(0, it.index() as int),
    {
        chars.push(c);
    }
    chars
}

/// Matches the characters of `pattern`, in order, against characters of
/// `subject`, case as it stands.
pub fn match_subsequence(subject: &str, pattern: &str) -> (r: Option<Vec<usize>>)
    ensures
        positions_view(r) == subsequence_positions(subject@, pattern@),
{
    let subject_chars = chars_of(subject);
    let pattern_chars = chars_of(pattern);
    let mut match_points: Vec<usize> = Vec::new();
    let mut pattern_i: usize = 0;
    let mut i: usize = 0;
    while i < subject_chars.len() && pattern_i < pattern_chars.len()
        invariant
            i <= subject_chars.len(),
            pattern_i <= pattern_chars.len(),
            subject_chars@ == subject@,
            pattern_chars@ == pattern@,
            subsequence_positions(subject@, pattern@) == leftmost_match(
                subject@,
                pattern@,
                i as int,
                pattern_i as int,
                match_points@,
            ),
        decreases subject_chars.len() - i,
    {
        if subject_chars[i] == pattern_chars[pattern_i] {
            match_points.push(i);
            pattern_i += 1;
        }
        i += 1;
    }
    if pattern_i == pattern_chars.len() {
        Some(match_points)
    } else {
        None
    }
}

/// Case-insensitive subsequence matching: the pattern's characters must
/// occur in order in the subject; the result holds the indices at which
/// they were matched.
pub fn fuzzy_match(subject: &str, pattern: &str) -> (r: Option<Vec<usize>>)
    ensures
        positions_view(r) == fuzzy_positions(subject@, pattern@),
{
    if pattern.is_empty() {
        return Some(Vec::new());
    }
    let subject = to_lowercase(subject);
    let pattern = to_lowercase(pattern);
    match_subsequence(subject.as_str(), pattern.as_str())
}

/// Calls `rand::random` for a `u64`: a value of the thread's generator.
/// Nothing is known of the value.
#[verifier::external_body]
fn random_u64() -> u64 {
    rand::random::<u64>()
}

/// The integer between `min` and `max`, `max` left out, that a draw stands
/// for.
pub open spec fn pick_between(min: int, max: int, draw: int) -> int {
    min + draw % (max - min)
}

/// The integer between `min` and `max`, `max` left out, that the draw
/// stands for.
pub fn integer_between(min: i32, max: i32, draw: u64) -> (r: i32)
    requires
        min < max,
    ensures
        r == pick_between(min as int, max as int, draw as int),
        min <= r < max,
{
    let span: u64 = (max as i64 - min as i64) as u64;
    let offset: u64 = draw % span;
    (min as i64 + offset as i64) as i32
}

/// A random integer between `min` and `max`, `max` left out.
pub fn random_integer(min: i32, max: i32) -> (r: i32)
    requires
        min < max,
    ensures
        min <= r < max,
{
    integer_between(min, max, random_u64())
}

/// The lowercase letter of the given index in the alphabet.
pub open spec fn letter_at(index: int) -> char {
    "abcdefghijklmnopqrstuvwxyz"@[index]
}

/// The letters from `a` to `z`.
pub open spec fn is_lowercase_letter(c: char) -> bool {
    'a' <= c <= 'z'
}

/// The letters that the draws stand for, one for one.
pub open spec fn letters_of(draws: Seq<u64>) -> Seq<char> {
    Seq::new(draws.len(), |i: int| letter_at(draws[i] as int % 26))
}

/// A text of lowercase letters, one for each draw.
pub fn letters(draws: &Vec<u64>) -> (r: String)
    ensures
        r@ == letters_of(draws@),
{
    let alphabet = "abcdefghijklmnopqrstuvwxyz";
    proof {
        reveal_strlit("abcdefghijklmnopqrstuvwxyz");
    }
    let mut out = String::new();
    let mut i: usize = 0;
    while i < draws.len()
        invariant
            i <= draws.len(),
            alphabet@ == "abcdefghijklmnopqrstuvwxyz"@,
            alphabet@.len() == 26,
            alphabet.is_ascii(),
            out@ == letters_of(draws@.subrange(0, i as int)),
        decreases draws.len() - i,
    {
        let index = (draws[i] % 26) as usize;
        let letter = alphabet.substring_ascii(index, index + 1);
        out.append(letter);
        assert(out@ =~= letters_of(draws@.subrange(0, i + 1)));
        i += 1;
    }
    assert(draws@.subrange(0, i as int) =~= draws@);
    out
}

/// A random text of lowercase letters of the given length.
pub fn random_string(len: usize) -> (r: String)
    ensures
        r@.len() == len,
        forall|i: int| 0 <= i < len ==> is_lowercase_letter(#[trigger] r@[i]),
{
    let mut draws: Vec<u64> = Vec::new();
    let mut i: usize = 0;
    while i < len
        invariant
            i <= len,
            draws.len() == i,
        decreases len - i,
    {
        draws.push(random_u64());
        i += 1;
    }
    let r = letters(&draws);
    assert forall|i: int| 0 <= i < len implies is_lowercase_letter(#[trigger] r@[i]) by {
        reveal_strlit("abcdefghijklmnopqrstuvwxyz");
        assert(r@[i] == letter_at(draws[i] as int % 26));
    }
    r
}

/// The word that the draw stands for; `None` where there are no words.
pub fn word_at(words: &Vec<String>, draw: u64) -> (r: Option<&String>)
    ensures
        r == (if words.len() == 0 {
            None
        } else {
            Some(&words[draw as int % words.len() as int])
        }),
{
    if words.len() == 0 {
        None
    } else {
        Some(&words[(draw % (words.len() as u64)) as usize])
    }
}

/// A random one of the words; `None` where there are none.
pub fn random_word(words: &Vec<String>) -> (r: Option<String>)
    ensures
        words.len() == 0 <==> r is None,
        r matches Some(word) ==> exists|i: int| 0 <= i < words.len() && words[i] == word,
{
    match word_at(words, random_u64()) {
        Some(word) => Some(word.clone()),
        None => None,
    }
}

/// The text in the given colour of the terminal, or as it is.
pub open spec fn coloured(text: Seq<char>, color: Option<usize>) -> Seq<char> {
    match color {
        Some(color) => "\x1B["@ + decimal_text(color as nat) + "m"@ + text + "\x1B[0m"@,
        None => text,
    }
}

/// The text in the given colour of the terminal, or as it is.
pub fn colour(text: &str, color: Option<usize>) -> (r: String)
    ensures
        r@ == coloured(text@, color),
{
    match color {
        Some(color) => "\x1B[".to_owned().concat(u64_to_decimal(color as u64).as_str()).concat(
            "m",
        ).concat(text).concat("\x1B[0m"),
        None => text.to_owned(),
    }
}

/// The smaller of two numbers.
pub open spec fn least(a: int, b: int) -> int {
    if a <= b {
        a
    } else {
        b
    }
}

/// The coloured texts from the `i`-th on, one after the other behind
/// `acc`, cut where `max_len` bytes of text are reached: of the text that
/// reaches it, only the characters that fit are kept. `len` bytes are used
/// already.
pub open spec fn trimmed_from(
    elems: Seq<(Seq<char>, Option<usize>)>,
    i: int,
    len: int,
    max_len: int,
    acc: Seq<char>,
) -> Seq<char>
    decreases elems.len() - i,
{
    if i < 0 || i >= elems.len() {
        acc
    } else {
        let b = encode_utf8(elems[i].0);
        let used = floor_boundary(b, least(max_len - len, b.len() as int));
        let shown = acc + coloured(text(b, 0, used), elems[i].1);
        if len + used >= max_len {
            shown
        } else {
            trimmed_from(elems, i + 1, len + used, max_len, shown)
        }
    }
}

/// The texts with their colours, one for one.
pub open spec fn coloured_views(elems: Seq<(String, Option<usize>)>) -> Seq<
    (Seq<char>, Option<usize>),
> {
    Seq::new(elems.len(), |i: int| (elems[i].0@, elems[i].1))
}

/// The coloured texts, one after the other, cut where `max_len` bytes of
/// text are reached; the colours take no room.
pub fn trim_coloured_string_list(elems: Vec<(String, Option<usize>)>, max_len: usize) -> (r:
    String)
    ensures
        r@ == trimmed_from(coloured_views(elems@), 0, 0, max_len as int, Seq::empty()),
{
    let mut len: usize = 0;
    let mut out = String::new();
    let mut i: usize = 0;
    while i < elems.len()
        invariant
            i <= elems.len(),
            len < max_len || (i == 0 && len == 0),
            trimmed_from(coloured_views(elems@), 0, 0, max_len as int, Seq::empty())
                == trimmed_from(
                coloured_views(elems@),
                i as int,
                len as int,
                max_len as int,
                out@,
            ),
        decreases elems.len() - i,
    {
        let s = elems[i].0.as_str();
        let room = max_len - len;
        let s_len = byte_len(s);
        let used_len = boundary_at_or_before(
            s,
            if room <= s_len {
                room
            } else {
                s_len
            },
        );
        proof {
            encode_utf8_valid_utf8(s@);
            is_char_boundary_start_end_of_seq(s.spec_bytes());
        }
        let shown = slice_string(s, 0, used_len);
        out.append(colour(shown.as_str(), elems[i].1).as_str());
        len += used_len;
        if len >= max_len {
            return out;
        }
        i += 1;
    }
    out
}

/// The text with spaces behind it up to the given number of characters.
pub open spec fn padded(text: Seq<char>, width: int) -> Seq<char> {
    if text.len() >= width {
        text
    } else {
        text + Seq::new((width - text.len()) as nat, |i: int| ' ')
    }
}

/// The text with spaces behind it up to the given number of characters.
pub fn pad(text: &str, width: usize) -> (r: String)
    ensures
        r@ == padded(text@, width as int),
{
    let mut out = text.to_owned();
    let mut n = text.unicode_len();
    proof {
        reveal_strlit(" ");
        assert(out@ =~= text@ + Seq::new(0, |i: int| ' '));
    }
    while n < width
        invariant
            text@.len() <= n,
            n == text@.len() || n <= width,
            out@ == text@ + Seq::new((n - text@.len()) as nat, |i: int| ' '),
        decreases width - n,
    {
        proof {
            reveal_strlit(" ");
        }
        out.append(" ");
        n += 1;
        assert(out@ =~= text@ + Seq::new((n - text@.len()) as nat, |i: int| ' '));
    }
    assert(text@ + Seq::new(0, |i: int| ' ') =~= text@);
    out
}

} // verus!
