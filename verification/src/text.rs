//! Small facts and helpers about text: positions of a character, fields
//! split off at a separator.
use vstd::prelude::*;

verus! {

/// The position of the first `c` in `s`, or `s.len()` where there is none.
pub open spec fn first_pos(s: Seq<char>, c: char) -> int
    decreases s.len(),
{
    if s.len() == 0 {
        0
    } else if s[0] == c {
        0
    } else {
        1 + first_pos(s.drop_first(), c)
    }
}

/// `first_pos` is the position before which `c` does not occur and at which
/// it does (or the end).
pub proof fn lemma_first_pos(s: Seq<char>, c: char, p: int)
    requires
        0 <= p <= s.len(),
        p < s.len() ==> s[p] == c,
        forall|i: int| 0 <= i < p ==> s[i] != c,
    ensures
        first_pos(s, c) == p,
    decreases s.len(),
{
    if s.len() > 0 && p > 0 {
        let t = s.drop_first();
        assert forall|i: int| 0 <= i < p - 1 implies t[i] != c by {
            assert(t[i] == s[i + 1]);
        }
        lemma_first_pos(t, c, p - 1);
    }
}

/// The position of the first `c` in `text`, or the length of `text` where
/// there is none.
pub fn find_char(text: &str, c: char) -> (res: usize)
    ensures
        res == first_pos(text@, c),
        res <= text@.len(),
{
    let len = text.unicode_len();
    let mut i: usize = 0;
    while i < len
        invariant
            i <= len,
            len == text@.len(),
            forall|j: int| 0 <= j < i ==> text@[j] != c,
        decreases len - i,
    {
        if text.get_char(i) == c {
            proof {
                lemma_first_pos(text@, c, i as int);
            }
            return i;
        }
        i = i + 1;
    }
    proof {
        lemma_first_pos(text@, c, i as int);
    }
    i
}

/// Whether `s` holds the character `c`.
pub open spec fn has_char(s: Seq<char>, c: char) -> bool {
    exists|i: int| 0 <= i < s.len() && s[i] == c
}

/// `first_pos` finds `c` exactly where `s` holds it.
pub proof fn lemma_first_pos_found(s: Seq<char>, c: char)
    ensures
        0 <= first_pos(s, c) <= s.len(),
        has_char(s, c) <==> first_pos(s, c) < s.len(),
        first_pos(s, c) < s.len() ==> s[first_pos(s, c)] == c,
        forall|i: int| 0 <= i < first_pos(s, c) ==> s[i] != c,
    decreases s.len(),
{
    if s.len() > 0 && s[0] != c {
        let t = s.drop_first();
        lemma_first_pos_found(t, c);
        assert forall|i: int| 0 <= i < first_pos(s, c) implies s[i] != c by {
            if i > 0 {
                assert(s[i] == t[i - 1]);
            }
        }
        if has_char(s, c) {
            let i = choose|i: int| 0 <= i < s.len() && s[i] == c;
            assert(t[i - 1] == c);
        }
        if first_pos(s, c) < s.len() {
            assert(s[first_pos(s, c)] == t[first_pos(t, c)]);
        }
    } else if s.len() > 0 {
        assert(has_char(s, c));
    }
}

/// Whether the byte is a visible ASCII character or a tab, the bytes that a
/// header value may hold to be read as text.
pub open spec fn is_visible_ascii(b: u8) -> bool {
    (32 <= b && b < 127) || b == 9
}

/// The characters of a byte string, one per byte.
pub open spec fn ascii_chars(bytes: Seq<u8>) -> Seq<char> {
    bytes.map_values(|b: u8| b as char)
}

/// `String::push`.
#[verifier::external_body]
pub(crate) fn push_char(s: &mut String, c: char)
    ensures
        final(s)@ == old(s)@.push(c),
{
    s.push(c)
}

/// The text of a header value, as `HeaderValue::to_str` reads it: the value
/// is text when every byte is visible ASCII or a tab.
pub fn header_text(bytes: &Vec<u8>) -> (res: Option<String>)
    ensures
        res is Some <==> (forall|i: int| 0 <= i < bytes@.len() ==> is_visible_ascii(#[trigger] bytes@[i])),
        res matches Some(t) ==> t@ == ascii_chars(bytes@),
{
    let mut out = String::new();
    let mut i: usize = 0;
    while i < bytes.len()
        invariant
            i <= bytes@.len(),
            forall|j: int| 0 <= j < i ==> is_visible_ascii(#[trigger] bytes@[j]),
            out@ == ascii_chars(bytes@.take(i as int)),
        decreases bytes@.len() - i,
    {
        let b = bytes[i];
        if !((32 <= b && b < 127) || b == 9) {
            return None;
        }
        push_char(&mut out, b as char);
        proof {
            assert(ascii_chars(bytes@.take(i + 1)) =~= ascii_chars(bytes@.take(i as int)).push(
                b as char,
            ));
        }
        i = i + 1;
    }
    proof {
        assert(bytes@.take(i as int) =~= bytes@);
    }
    Some(out)
}

} // verus!
