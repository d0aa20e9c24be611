//! ULID identifiers and their 26-character Crockford base-32 text.
//!
//! Identifiers are held as the `u128` that a ULID stands for; the text form
//! is produced and read by `diesel_ulid`.
use vstd::prelude::*;

verus! {

/// The Crockford base-32 character for a digit `d` (`0 <= d < 32`), from the
/// alphabet `0123456789ABCDEFGHJKMNPQRSTVWXYZ`.
pub open spec fn crockford_digit(d: int) -> char {
    (if d < 10 {
        d + 48
    } else if d < 18 {
        d + 55
    } else if d < 20 {
        d + 56
    } else if d < 22 {
        d + 57
    } else if d < 27 {
        d + 58
    } else {
        d + 59
    }) as char
}

/// The digit that a character stands for when read as Crockford base-32:
/// letters in either case, with `I` and `L` read as 1 and `O` as 0; `U` and
/// everything else stand for nothing.
pub open spec fn crockford_value(c: char) -> Option<int> {
    let x = c as int;
    let u = if 97 <= x <= 122 { x - 32 } else { x };
    if 48 <= x <= 57 {
        Some(x - 48)
    } else if 65 <= u <= 72 {
        Some(u - 55)
    } else if u == 73 || u == 76 {
        Some(1)
    } else if u == 74 || u == 75 {
        Some(u - 56)
    } else if u == 77 || u == 78 {
        Some(u - 57)
    } else if u == 79 {
        Some(0)
    } else if 80 <= u <= 84 {
        Some(u - 58)
    } else if 86 <= u <= 90 {
        Some(u - 59)
    } else {
        None
    }
}

/// The 26-character text of an identifier: its 128 bits in groups of five,
/// most significant first (the first group has three bits).
pub open spec fn crockford_encode(id: u128) -> Seq<char> {
    Seq::new(26, |k: int| crockford_digit(((id >> ((125 - 5 * k) as u128)) & 31u128) as int))
}

/// The number that a sequence of Crockford digits denotes.
pub open spec fn crockford_number(s: Seq<char>) -> int
    decreases s.len(),
{
    if s.len() == 0 {
        0
    } else {
        crockford_number(s.drop_last()) * 32 + crockford_value(s.last()).unwrap()
    }
}

/// The identifier that a text denotes: 26 Crockford digits whose first digit
/// is at most 7, so that the value fits in 128 bits.
pub open spec fn crockford_decode(s: Seq<char>) -> Option<u128> {
    if s.len() == 26 && (forall|i: int| 0 <= i < 26 ==> #[trigger] crockford_value(s[i]) is Some)
        && crockford_value(s[0]).unwrap() <= 7 {
        Some(crockford_number(s) as u128)
    } else {
        None
    }
}

/// Every digit is read back as itself.
pub proof fn lemma_crockford_digit_value(d: int)
    requires
        0 <= d < 32,
    ensures
        crockford_value(crockford_digit(d)) == Some(d),
        crockford_digit(d) != '_',
{
}

proof fn lemma_group_step(x: u128, s: u128)
    requires
        s <= 120,
    ensures
        (x >> (s + 5) as u128) as int * 32 + ((x >> s) & 31u128) as int == (x >> s) as int,
{
    assert((x >> (s + 5) as u128) * 32 + ((x >> s) & 31u128) == (x >> s)) by (bit_vector)
        requires
            s <= 120,
    ;
}

proof fn lemma_prefix_number(id: u128, j: int)
    requires
        1 <= j <= 26,
    ensures
        crockford_number(crockford_encode(id).take(j)) == (id >> ((130 - 5 * j) as u128)) as int,
        forall|i: int| 0 <= i < j ==> #[trigger] crockford_value(crockford_encode(id)[i]) is Some,
    decreases j,
{
    let e = crockford_encode(id);
    let t = e.take(j);
    if j == 1 {
        assert((id >> 125u128) & 31u128 == id >> 125u128) by (bit_vector);
        assert((id >> 125u128) < 8) by (bit_vector);
        lemma_crockford_digit_value(((id >> 125u128) & 31u128) as int);
        assert(t.drop_last() =~= Seq::<char>::empty());
        assert(crockford_number(t.drop_last()) == 0);
    } else {
        lemma_prefix_number(id, j - 1);
        let s = (125 - 5 * (j - 1)) as u128;
        let d = ((id >> s) & 31u128) as int;
        assert(((id >> s) & 31u128) < 32) by (bit_vector);
        lemma_crockford_digit_value(d);
        assert(t.drop_last() =~= e.take(j - 1));
        assert(t.last() == crockford_digit(d));
        lemma_group_step(id, s);
        assert((s + 5) as u128 == (130 - 5 * (j - 1)) as u128);
    }
}

/// Reading the text of an identifier gives the identifier back.
pub proof fn lemma_crockford_round_trip(id: u128)
    ensures
        crockford_decode(crockford_encode(id)) == Some(id),
        crockford_encode(id).len() == 26,
        forall|i: int| 0 <= i < 26 ==> #[trigger] crockford_encode(id)[i] != '_',
{
    let e = crockford_encode(id);
    lemma_prefix_number(id, 26);
    assert(e.take(26) =~= e);
    assert((id >> 0u128) == id) by (bit_vector);
    assert((id >> 125u128) & 31u128 == id >> 125u128) by (bit_vector);
    assert((id >> 125u128) < 8) by (bit_vector);
    lemma_crockford_digit_value(((id >> 125u128) & 31u128) as int);
    assert forall|i: int| 0 <= i < 26 implies #[trigger] e[i] != '_' by {
        let s = (125 - 5 * i) as u128;
        assert(((id >> s) & 31u128) < 32) by (bit_vector);
        lemma_crockford_digit_value(((id >> s) & 31u128) as int);
    }
}

/// `rusty_ulid::DecodingError`, the error of reading an identifier's text.
#[verifier::external_type_specification]
#[verifier::external_body]
pub struct ExDecodingError(rusty_ulid::DecodingError);

/// The text of an identifier, as `DieselUlid`'s `Display` writes it (through
/// `rusty_ulid::Ulid::to_string`): the contract claims that it is the
/// Crockford base-32 encoding of the identifier's 128 bits.
#[verifier::external_body]
pub(crate) fn ulid_to_string(id: u128) -> (res: String)
    ensures
        res@ == crockford_encode(id),
{
    diesel_ulid::DieselUlid::from(id.to_be_bytes()).to_string()
}

/// `DieselUlid::from_str` (through `rusty_ulid::Ulid::from_str`): the
/// contract claims that it succeeds exactly on the texts that
/// `crockford_decode` reads, with that value.
#[verifier::external_body]
pub(crate) fn ulid_from_str(text: &str) -> (res: Result<u128, rusty_ulid::DecodingError>)
    ensures
        res is Ok <==> crockford_decode(text@) is Some,
        res matches Ok(id) ==> crockford_decode(text@) == Some(id),
{
    match <diesel_ulid::DieselUlid as std::str::FromStr>::from_str(text) {
        Ok(id) => Ok(u128::from_be_bytes(id.as_byte_array())),
        Err(e) => Err(e),
    }
}

} // verus!
