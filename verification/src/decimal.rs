//! Decimal text for integers: rendering and parsing, as `Display` renders
//! and `FromStr` parses the primitive integer types.
use crate::text::push_char;
use vstd::prelude::*;

verus! {

/// The character of a decimal digit.
pub open spec fn digit_char(d: nat) -> char {
    if d == 0 { '0' }
    else if d == 1 { '1' }
    else if d == 2 { '2' }
    else if d == 3 { '3' }
    else if d == 4 { '4' }
    else if d == 5 { '5' }
    else if d == 6 { '6' }
    else if d == 7 { '7' }
    else if d == 8 { '8' }
    else { '9' }
}

/// Whether `c` is an ASCII decimal digit.
pub open spec fn is_digit(c: char) -> bool {
    '0' <= c && c <= '9'
}

/// The value of a decimal digit character.
pub open spec fn digit_value(c: char) -> nat {
    ((c as int) - ('0' as int)) as nat
}

/// The decimal representation of `n`, most significant digit first, without
/// leading zeros.
pub open spec fn decimal(n: nat) -> Seq<char>
    decreases n,
{
    if n < 10 {
        seq![digit_char(n)]
    } else {
        decimal(n / 10).push(digit_char(n % 10))
    }
}

/// Whether every character of `s` is a decimal digit.
pub open spec fn all_digits(s: Seq<char>) -> bool {
    forall|i: int| 0 <= i < s.len() ==> is_digit(#[trigger] s[i])
}

/// The number that a sequence of decimal digits denotes.
pub open spec fn digits_value(s: Seq<char>) -> nat
    decreases s.len(),
{
    if s.len() == 0 {
        0
    } else {
        digits_value(s.drop_last()) * 10 + digit_value(s.last())
    }
}

/// The number that `s` denotes when it is a non-empty run of digits no
/// larger than `bound`.
pub open spec fn bounded_digits(s: Seq<char>, bound: nat) -> Option<nat> {
    if s.len() > 0 && all_digits(s) && digits_value(s) <= bound {
        Some(digits_value(s))
    } else {
        None
    }
}

/// What `u8::from_str` gives for `s`: an optional `+` followed by digits,
/// with a value that fits in a `u8`.
pub open spec fn parse_u8_spec(s: Seq<char>) -> Option<u8> {
    let digits = if s.len() > 0 && s[0] == '+' { s.drop_first() } else { s };
    match bounded_digits(digits, 255) {
        Some(v) => Some(v as u8),
        None => None,
    }
}

/// What `i32::from_str` gives for `s`: an optional `+` or `-` followed by
/// digits, with a value that fits in an `i32`.
pub open spec fn parse_i32_spec(s: Seq<char>) -> Option<i32> {
    if s.len() > 0 && s[0] == '-' {
        match bounded_digits(s.drop_first(), 0x8000_0000) {
            Some(v) => Some((-v) as i32),
            None => None,
        }
    } else {
        let digits = if s.len() > 0 && s[0] == '+' { s.drop_first() } else { s };
        match bounded_digits(digits, 0x7fff_ffff) {
            Some(v) => Some(v as i32),
            None => None,
        }
    }
}

proof fn lemma_digit_char(d: nat)
    requires
        d < 10,
    ensures
        is_digit(digit_char(d)),
        digit_value(digit_char(d)) == d,
{
}

/// The decimal text of `n` is a non-empty run of digits that denotes `n`.
pub proof fn lemma_decimal_denotes(n: nat)
    ensures
        decimal(n).len() > 0,
        all_digits(decimal(n)),
        digits_value(decimal(n)) == n,
    decreases n,
{
    if n < 10 {
        lemma_digit_char(n);
        let s = decimal(n);
        assert(s.drop_last() =~= Seq::<char>::empty());
        assert(digits_value(s.drop_last()) == 0);
        assert(digits_value(s) == digits_value(s.drop_last()) * 10 + digit_value(s.last()));
    } else {
        lemma_decimal_denotes(n / 10);
        lemma_digit_char(n % 10);
        let s = decimal(n);
        assert(s.drop_last() =~= decimal(n / 10));
        assert(digits_value(s) == digits_value(s.drop_last()) * 10 + digit_value(s.last()));
        assert(all_digits(s)) by {
            assert forall|i: int| 0 <= i < s.len() implies is_digit(#[trigger] s[i]) by {
                if i < s.len() - 1 {
                    assert(s[i] == decimal(n / 10)[i]);
                }
            }
        }
    }
}

/// A prefix of a run of digits never denotes more than the whole run.
proof fn lemma_prefix_value_le(s: Seq<char>, i: int)
    requires
        0 <= i <= s.len(),
        all_digits(s),
    ensures
        digits_value(s.take(i)) <= digits_value(s),
    decreases s.len(),
{
    if i < s.len() {
        let t = s.drop_last();
        assert(all_digits(t)) by {
            assert forall|j: int| 0 <= j < t.len() implies is_digit(#[trigger] t[j]) by {
                assert(t[j] == s[j]);
            }
        }
        lemma_prefix_value_le(t, i);
        assert(t.take(i) =~= s.take(i));
    } else {
        assert(s.take(i) =~= s);
    }
}

fn digit_to_char(d: u64) -> (c: char)
    requires
        d < 10,
    ensures
        c == digit_char(d as nat),
{
    if d == 0 { '0' }
    else if d == 1 { '1' }
    else if d == 2 { '2' }
    else if d == 3 { '3' }
    else if d == 4 { '4' }
    else if d == 5 { '5' }
    else if d == 6 { '6' }
    else if d == 7 { '7' }
    else if d == 8 { '8' }
    else { '9' }
}

/// The decimal text of `n`, as `n.to_string()` gives it.
pub fn decimal_string(n: u64) -> (res: String)
    ensures
        res@ == decimal(n as nat),
    decreases n,
{
    if n < 10 {
        let mut s = String::new();
        push_char(&mut s, digit_to_char(n));
        proof {
            assert(s@ =~= decimal(n as nat));
        }
        s
    } else {
        let mut s = decimal_string(n / 10);
        push_char(&mut s, digit_to_char(n % 10));
        s
    }
}

/// The value of `text[start..]` when it is a non-empty run of digits no
/// larger than `bound`.
fn parse_bounded_digits(text: &str, start: usize, bound: u64) -> (res: Option<u64>)
    requires
        start <= text@.len(),
        bound < 0x1_0000_0000,
    ensures
        res == (match bounded_digits(text@.skip(start as int), bound as nat) {
            Some(v) => Some(v as u64),
            None => None::<u64>,
        }),
{
    let len = text.unicode_len();
    let ghost digits = text@.skip(start as int);
    if start >= len {
        return None;
    }
    let mut acc: u64 = 0;
    let mut i: usize = start;
    while i < len
        invariant
            start <= i <= len,
            len == text@.len(),
            digits == text@.skip(start as int),
            bound < 0x1_0000_0000,
            all_digits(digits.take(i - start)),
            acc == digits_value(digits.take(i - start)),
            acc <= bound,
        decreases len - i,
    {
        let c = text.get_char(i);
        let ghost k = i - start;
        assert(digits[k] == c);
        assert(digits.take(k + 1).drop_last() =~= digits.take(k));
        if !('0' <= c && c <= '9') {
            proof {
                assert(digits[k] == c);
                assert(!all_digits(digits));
            }
            return None;
        }
        let d: u64 = (c as u32 - '0' as u32) as u64;
        proof {
            assert(all_digits(digits.take(k + 1))) by {
                let t = digits.take(k + 1);
                assert forall|j: int| 0 <= j < t.len() implies is_digit(#[trigger] t[j]) by {
                    if j < k {
                        assert(t[j] == digits.take(k)[j]);
                    }
                }
            }
        }
        if acc * 10 + d > bound {
            proof {
                assert(digits_value(digits.take(k + 1)) > bound);
                if all_digits(digits) {
                    lemma_prefix_value_le(digits, k + 1);
                }
            }
            return None;
        }
        acc = acc * 10 + d;
        i = i + 1;
    }
    proof {
        assert(digits.take(len - start) =~= digits);
    }
    Some(acc)
}

/// `u8::from_str`: an optional `+` followed by decimal digits whose value
/// fits in a `u8`.
pub fn parse_u8(text: &str) -> (res: Option<u8>)
    ensures
        res == parse_u8_spec(text@),
{
    let len = text.unicode_len();
    let start: usize = if len > 0 && text.get_char(0) == '+' { 1 } else { 0 };
    proof {
        if start == 1 {
            assert(text@.skip(1) =~= text@.drop_first());
        } else {
            assert(text@.skip(0) =~= text@);
        }
    }
    match parse_bounded_digits(text, start, 255) {
        Some(v) => Some(v as u8),
        None => None,
    }
}

/// `i32::from_str`: an optional `+` or `-` followed by decimal digits whose
/// value fits in an `i32`.
pub fn parse_i32(text: &str) -> (res: Option<i32>)
    ensures
        res == parse_i32_spec(text@),
{
    let len = text.unicode_len();
    if len > 0 && text.get_char(0) == '-' {
        proof {
            assert(text@.skip(1) =~= text@.drop_first());
        }
        match parse_bounded_digits(text, 1, 0x8000_0000) {
            Some(v) => {
                let r: i64 = -(v as i64);
                Some(r as i32)
            },
            None => None,
        }
    } else {
        let start: usize = if len > 0 && text.get_char(0) == '+' { 1 } else { 0 };
        proof {
            if start == 1 {
                assert(text@.skip(1) =~= text@.drop_first());
            } else {
                assert(text@.skip(0) =~= text@);
            }
        }
        match parse_bounded_digits(text, start, 0x7fff_ffff) {
            Some(v) => Some(v as i32),
            None => None,
        }
    }
}

/// Parsing the decimal text of a `u8` gives the number back.
pub proof fn lemma_parse_u8_decimal(n: u8)
    ensures
        parse_u8_spec(decimal(n as nat)) == Some(n),
{
    lemma_decimal_denotes(n as nat);
    lemma_digit_char(0);
    let s = decimal(n as nat);
    assert(is_digit(s[0]));
}

} // verus!
