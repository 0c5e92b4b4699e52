//! Decimal numbers: reading them from text and writing them as text.

use crate::scan::is_digit;
use vstd::prelude::*;
use vstd::string::*;

verus! {

/// The number that decimal digits spell.
pub open spec fn digits_value(digits: Seq<u8>) -> nat
    decreases digits.len(),
{
    if digits.len() == 0 {
        0
    } else {
        digits_value(digits.drop_last()) * 10 + (digits.last() - 0x30) as nat
    }
}

/// Whether every byte is a decimal digit.
pub open spec fn all_digits(b: Seq<u8>) -> bool {
    forall|i: int| 0 <= i < b.len() ==> is_digit(#[trigger] b[i])
}

/// The number that the text spells without a sign or after a `+`: at least
/// one digit and nothing else.
pub open spec fn unsigned_of(b: Seq<u8>) -> Option<nat> {
    let digits = if b.len() > 0 && b[0] == 0x2b {
        b.drop_first()
    } else {
        b
    };
    if digits.len() > 0 && all_digits(digits) {
        Some(digits_value(digits))
    } else {
        None
    }
}

/// The number that the text spells, with `-` or `+` or no sign before its
/// digits.
pub open spec fn signed_of(b: Seq<u8>) -> Option<int> {
    if b.len() > 0 && b[0] == 0x2d {
        let digits = b.drop_first();
        if digits.len() > 0 && all_digits(digits) {
            Some(-(digits_value(digits) as int))
        } else {
            None
        }
    } else {
        match unsigned_of(b) {
            Some(value) => Some(value as int),
            None => None,
        }
    }
}

/// More digits never spell a smaller number.
pub proof fn lemma_digits_value_grows(digits: Seq<u8>, n: int)
    requires
        0 <= n <= digits.len(),
        all_digits(digits),
    ensures
        digits_value(digits.subrange(0, n)) <= digits_value(digits),
    decreases digits.len() - n,
{
    if n < digits.len() {
        let next = digits.subrange(0, n + 1);
        assert(next.drop_last() =~= digits.subrange(0, n));
        assert(next.last() == digits[n]);
        lemma_digits_value_grows(digits, n + 1);
    } else {
        assert(digits.subrange(0, n) =~= digits);
    }
}

/// The number that the digits `from..to` spell, if it is at most `limit`;
/// `None` where there is no digit, something else than a digit, or a larger
/// number.
pub fn parse_digits(bytes: &[u8], from: usize, to: usize, limit: u128) -> (r: Option<u128>)
    requires
        from <= to <= bytes.len(),
        limit < 0x1_0000_0000_0000_0000_0000,
    ensures
        r == (if from < to && all_digits(bytes@.subrange(from as int, to as int)) && digits_value(
            bytes@.subrange(from as int, to as int),
        ) <= limit {
            Some(digits_value(bytes@.subrange(from as int, to as int)) as u128)
        } else {
            None
        }),
{
    let ghost digits = bytes@.subrange(from as int, to as int);
    if from >= to {
        return None;
    }
    let mut value: u128 = 0;
    let mut i: usize = from;
    assert(digits.subrange(0, 0) =~= Seq::<u8>::empty());
    while i < to
        invariant
            from <= i <= to <= bytes.len(),
            digits == bytes@.subrange(from as int, to as int),
            limit < 0x1_0000_0000_0000_0000_0000,
            all_digits(digits.subrange(0, i - from)),
            value == digits_value(digits.subrange(0, i - from)),
            value <= limit,
        decreases to - i,
    {
        let c = bytes[i];
        let ghost next = digits.subrange(0, i - from + 1);
        assert(next.drop_last() =~= digits.subrange(0, i - from));
        assert(next.last() == c);
        if !(0x30 <= c && c <= 0x39) {
            assert(digits[i - from] == c);
            return None;
        }
        value = value * 10 + (c - 0x30) as u128;
        if value > limit {
            proof {
                if all_digits(digits) {
                    lemma_digits_value_grows(digits, i - from + 1);
                }
            }
            return None;
        }
        assert forall|j: int| 0 <= j < next.len() implies is_digit(#[trigger] next[j]) by {
            if j < next.len() - 1 {
                assert(next[j] == digits.subrange(0, i - from)[j]);
            }
        }
        i += 1;
    }
    assert(digits.subrange(0, i - from) =~= digits);
    Some(value)
}

/// Reads an unsigned decimal number that fits the machine word.
pub fn parse_usize(text: &str) -> (r: Option<usize>)
    ensures
        r == (match unsigned_of(text.spec_bytes()) {
            Some(value) => if value <= usize::MAX {
                Some(value as usize)
            } else {
                None
            },
            None => None,
        }),
{
    let bytes = text.as_bytes();
    let from: usize = if bytes.len() > 0 && bytes[0] == 0x2b {
        1
    } else {
        0
    };
    assert(bytes@.subrange(from as int, bytes.len() as int) =~= (if from == 1 {
        bytes@.drop_first()
    } else {
        bytes@
    }));
    match parse_digits(bytes, from, bytes.len(), usize::MAX as u128) {
        Some(value) => Some(value as usize),
        None => None,
    }
}

/// Reads a signed decimal number of 32 bits.
pub fn parse_i32(text: &str) -> (r: Option<i32>)
    ensures
        r == (match signed_of(text.spec_bytes()) {
            Some(value) => if i32::MIN <= value <= i32::MAX {
                Some(value as i32)
            } else {
                None
            },
            None => None,
        }),
{
    let bytes = text.as_bytes();
    if bytes.len() > 0 && bytes[0] == 0x2d {
        assert(bytes@.subrange(1, bytes.len() as int) =~= bytes@.drop_first());
        match parse_digits(bytes, 1, bytes.len(), 0x8000_0000) {
            Some(value) => Some((-(value as i64)) as i32),
            None => None,
        }
    } else {
        let from: usize = if bytes.len() > 0 && bytes[0] == 0x2b {
            1
        } else {
            0
        };
        assert(bytes@.subrange(from as int, bytes.len() as int) =~= (if from == 1 {
            bytes@.drop_first()
        } else {
            bytes@
        }));
        match parse_digits(bytes, from, bytes.len(), 0x7fff_ffff) {
            Some(value) => Some(value as i32),
            None => None,
        }
    }
}

/// The character of a decimal digit.
pub open spec fn digit_char(d: int) -> char {
    if d == 0 {
        '0'
    } else if d == 1 {
        '1'
    } else if d == 2 {
        '2'
    } else if d == 3 {
        '3'
    } else if d == 4 {
        '4'
    } else if d == 5 {
        '5'
    } else if d == 6 {
        '6'
    } else if d == 7 {
        '7'
    } else if d == 8 {
        '8'
    } else {
        '9'
    }
}

/// The decimal digits of a number, without leading zeros.
pub open spec fn decimal_text(n: nat) -> Seq<char>
    decreases n,
{
    if n < 10 {
        seq![digit_char(n as int)]
    } else {
        decimal_text(n / 10).push(digit_char((n % 10) as int))
    }
}

/// The decimal text of an integer, with `-` before a negative one.
pub open spec fn signed_decimal_text(n: int) -> Seq<char> {
    if n < 0 {
        seq!['-'] + decimal_text((-n) as nat)
    } else {
        decimal_text(n as nat)
    }
}

fn digit_str(d: u64) -> (r: &'static str)
    requires
        d < 10,
    ensures
        r@ == seq![digit_char(d as int)],
{
    proof {
        reveal_strlit("0");
        reveal_strlit("1");
        reveal_strlit("2");
        reveal_strlit("3");
        reveal_strlit("4");
        reveal_strlit("5");
        reveal_strlit("6");
        reveal_strlit("7");
        reveal_strlit("8");
        reveal_strlit("9");
    }
    let r = if d == 0 {
        "0"
    } else if d == 1 {
        "1"
    } else if d == 2 {
        "2"
    } else if d == 3 {
        "3"
    } else if d == 4 {
        "4"
    } else if d == 5 {
        "5"
    } else if d == 6 {
        "6"
    } else if d == 7 {
        "7"
    } else if d == 8 {
        "8"
    } else {
        "9"
    };
    assert(r@ =~= seq![digit_char(d as int)]);
    r
}

/// Writes an unsigned number in decimal.
pub fn u128_to_decimal(n: u128) -> (r: String)
    ensures
        r@ == decimal_text(n as nat),
    decreases n,
{
    if n < 10 {
        digit_str(n as u64).to_owned()
    } else {
        let head = u128_to_decimal(n / 10);
        let r = head.concat(digit_str((n % 10) as u64));
        assert(r@ =~= decimal_text((n / 10) as nat).push(digit_char((n % 10) as int)));
        r
    }
}

/// Writes an unsigned number in decimal.
pub fn u64_to_decimal(n: u64) -> (r: String)
    ensures
        r@ == decimal_text(n as nat),
{
    u128_to_decimal(n as u128)
}

/// Writes an unsigned number in decimal.
pub fn usize_to_decimal(n: usize) -> (r: String)
    ensures
        r@ == decimal_text(n as nat),
{
    u128_to_decimal(n as u128)
}

/// Writes a signed number in decimal.
pub fn i64_to_decimal(n: i64) -> (r: String)
    ensures
        r@ == signed_decimal_text(n as int),
{
    if n < 0 {
        let magnitude: u64 = ((-(n + 1)) as u64) + 1;
        proof {
            reveal_strlit("-");
        }
        let r = "-".to_owned().concat(u64_to_decimal(magnitude).as_str());
        assert(r@ =~= seq!['-'] + decimal_text((-n) as nat));
        r
    } else {
        u64_to_decimal(n as u64)
    }
}

} // verus!
