//! Chunk footers: the trailing frames of an object stored in chunks, which
//! list how many blocks each chunk took. `aruna_file`'s `FooterParser`
//! reads them; this module builds parsers only from footers that it can
//! read without failing hard, and states what the parser's steps give.
use crate::ranges::ArunaRange;
use aruna_file::helpers::footer_parser::FooterParser;
use vstd::prelude::*;

verus! {

/// `aruna_file::helpers::footer_parser::FooterParser`.
#[verifier::external_type_specification]
#[verifier::external_body]
pub struct ExFooterParser(FooterParser);

/// `anyhow::Error`.
#[verifier::external_type_specification]
#[verifier::external_body]
pub struct ExAnyhowError(anyhow::Error);

/// The plain footer bytes that a parser holds.
pub uninterp spec fn footer_contents(footer: FooterParser) -> Seq<u8>;

/// The block list that a parser holds: for each chunk in turn, the number
/// of blocks it was stored in.
pub uninterp spec fn footer_blocks(footer: FooterParser) -> Seq<u8>;

/// Whether a parser was made from an encrypted footer.
pub uninterp spec fn footer_encrypted(footer: FooterParser) -> bool;

/// The plain footer that an encrypted footer decrypts to under a key, where
/// it decrypts.
pub uninterp spec fn footer_plaintext(encrypted: Seq<u8>, key: Seq<u8>) -> Option<Seq<u8>>;

/// The number of bytes of a plain footer: two frames of 65536 bytes.
pub open spec fn footer_len() -> nat {
    131072
}

/// The number of bytes of an encrypted footer: each frame with a 12-byte
/// nonce and a 16-byte tag.
pub open spec fn encrypted_footer_len() -> nat {
    131128
}

/// The little-endian 32-bit number at `i`.
pub open spec fn u32_le(c: Seq<u8>, i: int) -> int {
    c[i] + c[i + 1] * 256 + c[i + 2] * 65536 + c[i + 3] * 16777216
}

/// Whether a plain footer has the layout that `FooterParser::parse` accepts:
/// either two skippable frames (magic `52 2A 4D 18` at the start) or one
/// (magic `51 2A 4D 18` at the second frame), each with frame size 65528.
pub open spec fn footer_layout_ok(c: Seq<u8>) -> bool {
    if double_footer(c) {
        u32_le(c, 4) == 65528 && u32_le(c, 65540) == 65528
    } else {
        &&& c[65536] == 0x51 && c[65537] == 0x2A && c[65538] == 0x4D && c[65539] == 0x18
        &&& u32_le(c, 65540) == 65528
    }
}

/// Whether the block list of the second frame ends with a zero byte inside
/// the footer.
pub open spec fn block_list_ends(c: Seq<u8>) -> bool {
    exists|i: int| 65548 <= i < c.len() && c[i] == 0
}

/// Whether `FooterParser::parse` runs on a footer without failing hard: a
/// footer of the right length whose layout it accepts must end its block
/// list.
pub open spec fn footer_parse_safe(c: Seq<u8>) -> bool {
    c.len() == footer_len() && (footer_layout_ok(c) ==> block_list_ends(c))
}

/// The position of the first zero byte in `s`, or `s.len()` where there is
/// none.
pub open spec fn first_zero(s: Seq<u8>) -> int
    decreases s.len(),
{
    if s.len() == 0 {
        0
    } else if s[0] == 0 {
        0
    } else {
        1 + first_zero(s.drop_first())
    }
}

/// The bytes of `s` before its first zero byte.
pub open spec fn before_zero(s: Seq<u8>) -> Seq<u8> {
    s.take(first_zero(s))
}

/// Whether a footer starts with two skippable frames.
pub open spec fn double_footer(c: Seq<u8>) -> bool {
    c[0] == 0x52 && c[1] == 0x2A && c[2] == 0x4D && c[3] == 0x18
}

/// The block list of the first frame of a double footer: up to 65536 bytes
/// from offset 12, ending at a zero byte.
pub open spec fn first_frame_blocks(c: Seq<u8>) -> Seq<u8> {
    before_zero(c.subrange(12, 65548))
}

/// The block list of the second frame: the bytes from offset 65548 to the
/// next zero byte.
pub open spec fn second_frame_blocks(c: Seq<u8>) -> Seq<u8> {
    before_zero(c.subrange(65548, c.len() as int))
}

/// The blocks that `parse` adds to a parser's block list, whether it
/// succeeds or not: a double footer adds its first frame's list once its
/// first frame size is right, and the second frame's list once that frame's
/// size is right too; a single footer adds the second frame's list where its
/// layout is accepted.
pub open spec fn parse_blocks(c: Seq<u8>) -> Seq<u8> {
    if double_footer(c) {
        if u32_le(c, 4) != 65528 {
            Seq::empty()
        } else if u32_le(c, 65540) != 65528 {
            first_frame_blocks(c)
        } else {
            first_frame_blocks(c) + second_frame_blocks(c)
        }
    } else if footer_layout_ok(c) {
        second_frame_blocks(c)
    } else {
        Seq::empty()
    }
}

/// The sum of all the numbers in `s`.
pub open spec fn sum_of(s: Seq<u8>) -> int
    decreases s.len(),
{
    if s.len() == 0 {
        0
    } else {
        sum_of(s.drop_last()) + s.last()
    }
}

/// The blocks of the chunks before chunk `n`.
pub open spec fn blocks_before(blocks: Seq<u8>, n: int) -> int {
    sum_of(blocks.take(if n < blocks.len() { n } else { blocks.len() as int }))
}

/// The stored size of a block: 65536 bytes, or 65564 where encrypted (with
/// a nonce and a tag).
pub open spec fn block_size(encrypted: bool) -> int {
    if encrypted { 65564 } else { 65536 }
}

/// The half-open range of stored bytes that holds the chunks from the one
/// with `range.from` to the one with `range.to`.
pub open spec fn block_range(blocks: Seq<u8>, encrypted: bool, range: ArunaRange) -> ArunaRange {
    ArunaRange {
        from: (blocks_before(blocks, (range.from / 5_242_880) as int) * block_size(encrypted)) as u64,
        to: (blocks_before(blocks, range.to / 5_242_880 + 1) * block_size(encrypted)) as u64,
    }
}

/// Whether the block range for `range` fits in 64 bits.
pub open spec fn block_range_fits(blocks: Seq<u8>, encrypted: bool, range: ArunaRange) -> bool {
    blocks_before(blocks, range.to / 5_242_880 + 1) * block_size(encrypted) <= u64::MAX
}

proof fn lemma_sum_bound(s: Seq<u8>)
    ensures
        0 <= sum_of(s) <= 255 * s.len(),
    decreases s.len(),
{
    if s.len() > 0 {
        lemma_sum_bound(s.drop_last());
    }
}

/// A fresh parser (one whose block list is empty) that is parsed gives a
/// block range that fits in 64 bits, for every range.
pub proof fn lemma_fresh_footer_fits(c: Seq<u8>, encrypted: bool, range: ArunaRange)
    requires
        c.len() == footer_len(),
    ensures
        block_range_fits(Seq::<u8>::empty() + parse_blocks(c), encrypted, range),
{
    let b = Seq::<u8>::empty() + parse_blocks(c);
    assert(b =~= parse_blocks(c));
    let p = parse_blocks(c);
    assert(second_frame_blocks(c).len() <= 65524) by {
        let t = c.subrange(65548, c.len() as int);
        lemma_first_zero_bound(t);
    }
    assert(first_frame_blocks(c).len() <= 65536) by {
        lemma_first_zero_bound(c.subrange(12, 65548));
    }
    assert(p.len() <= 131072);
    let n = range.to / 5_242_880 + 1;
    let k = if n < b.len() { n as int } else { b.len() as int };
    lemma_sum_bound(b.take(k));
    assert(blocks_before(b, n as int) <= 255 * 131072);
    assert(blocks_before(b, n as int) * block_size(encrypted) <= 255 * 131072 * 65564) by (nonlinear_arith)
        requires
            0 <= blocks_before(b, n as int) <= 255 * 131072,
            0 <= block_size(encrypted) <= 65564,
    ;
}

proof fn lemma_first_zero_bound(s: Seq<u8>)
    ensures
        0 <= first_zero(s) <= s.len(),
    decreases s.len(),
{
    if s.len() > 0 && s[0] != 0 {
        lemma_first_zero_bound(s.drop_first());
    }
}

/// `FooterParser::new` on a plain footer. The contract claims that the
/// parser holds exactly those bytes.
#[verifier::external_body]
fn new_footer_parser(bytes: &[u8]) -> (res: FooterParser)
    requires
        bytes@.len() == footer_len(),
    ensures
        footer_contents(res) == bytes@,
        footer_blocks(res) == Seq::<u8>::empty(),
        !footer_encrypted(res),
{
    let array: &[u8; 131072] = bytes.try_into().unwrap();
    FooterParser::new(array)
}

/// `aruna_file::helpers::footer_parser::decrypt_chunks`. The contract ties
/// the result to the footer and key through `footer_plaintext`.
#[verifier::external_body]
fn decrypt_footer(encrypted: &[u8], key: &[u8]) -> (res: Result<Vec<u8>, anyhow::Error>)
    requires
        encrypted@.len() == encrypted_footer_len(),
    ensures
        res is Ok <==> footer_plaintext(encrypted@, key@) is Some,
        res matches Ok(plain) ==> footer_plaintext(encrypted@, key@) == Some(plain@),
{
    let array: &[u8; 131128] = encrypted.try_into().unwrap();
    match aruna_file::helpers::footer_parser::decrypt_chunks(array, key) {
        Ok(plain) => Ok(plain.to_vec()),
        Err(e) => Err(e),
    }
}

/// `FooterParser::from_encrypted`. The contract claims what its source
/// shows: it decrypts as `decrypt_chunks` does, succeeds exactly when that
/// succeeds with a plain footer of the right length, and then holds that
/// plain footer.
#[verifier::external_body]
fn encrypted_footer_parser(encrypted: &[u8], key: &[u8]) -> (res: Result<FooterParser, anyhow::Error>)
    requires
        encrypted@.len() == encrypted_footer_len(),
    ensures
        res is Ok <==> (footer_plaintext(encrypted@, key@) matches Some(plain) && plain.len() == footer_len()),
        res matches Ok(p) ==> Some(footer_contents(p)) == footer_plaintext(encrypted@, key@),
        res matches Ok(p) ==> footer_blocks(p) == Seq::<u8>::empty() && footer_encrypted(p),
{
    let array: &[u8; 131128] = encrypted.try_into().unwrap();
    FooterParser::from_encrypted(array, key)
}

/// `FooterParser::parse`. The contract claims what its source shows: it
/// succeeds exactly on the layouts of `footer_layout_ok`; it appends to the
/// parser's block list the lists it reads (`parse_blocks`), also where it
/// then fails; and it leaves the footer bytes and the encryption as they
/// were. It fails hard (indexing past the footer) on an accepted layout
/// whose block list does not end, which the `requires` leaves out.
#[verifier::external_body]
pub(crate) fn parse_footer(footer: &mut FooterParser) -> (res: Result<(), anyhow::Error>)
    requires
        footer_parse_safe(footer_contents(*old(footer))),
    ensures
        res is Ok <==> footer_layout_ok(footer_contents(*old(footer))),
        footer_contents(*final(footer)) == footer_contents(*old(footer)),
        footer_encrypted(*final(footer)) == footer_encrypted(*old(footer)),
        footer_blocks(*final(footer)) == footer_blocks(*old(footer)) + parse_blocks(footer_contents(*old(footer))),
{
    footer.parse()
}

/// `FooterParser::get_offsets_by_range`. The contract claims what the source
/// computes: it fails exactly when the range starts in a later chunk than it
/// ends; otherwise the stored blocks run from those of the chunks before the
/// first chunk of the range to those of the chunks up to its last one
/// (`block_range`), and the range within them starts at the offset in the
/// first chunk and spans to the offset in the last chunk plus the whole
/// chunks between. The `requires` leaves out block lists so long that the
/// byte offsets overflow.
#[verifier::external_body]
pub(crate) fn footer_offsets(footer: &FooterParser, range: ArunaRange) -> (res: Result<(ArunaRange, ArunaRange), anyhow::Error>)
    requires
        range.from / 5_242_880 <= range.to / 5_242_880 ==> block_range_fits(
            footer_blocks(*footer),
            footer_encrypted(*footer),
            range,
        ),
    ensures
        res is Err <==> range.from / 5_242_880 > range.to / 5_242_880,
        res matches Ok(r) ==> r.0 == block_range(footer_blocks(*footer), footer_encrypted(*footer), range),
        res matches Ok(r) ==> r.1 == (ArunaRange {
            from: (range.from % 5_242_880) as u64,
            to: (range.to % 5_242_880 + (range.to / 5_242_880 - range.from / 5_242_880) * 5_242_880) as u64,
        }),
{
    let target = aruna_file::helpers::footer_parser::Range { from: range.from, to: range.to };
    match footer.get_offsets_by_range(target) {
        Ok((a, b)) => Ok((ArunaRange { from: a.from, to: a.to }, ArunaRange { from: b.from, to: b.to })),
        Err(e) => Err(e),
    }
}

/// Why a footer parser could not be made.
#[derive(Debug, Clone, Copy, PartialEq, Eq, Structural)]
pub enum FooterError {
    /// The footer does not have the length of a footer.
    WrongLength,
    /// The encrypted footer does not decrypt under the key.
    Undecryptable,
    /// The footer has an accepted layout but its block list does not end;
    /// parsing it would fail hard.
    UnterminatedBlockList,
}

/// The little-endian 32-bit number at `i`.
fn read_u32_le(c: &[u8], i: usize) -> (res: u64)
    requires
        i + 4 <= c@.len(),
    ensures
        res == u32_le(c@, i as int),
{
    c[i] as u64 + c[i + 1] as u64 * 256 + c[i + 2] as u64 * 65536 + c[i + 3] as u64 * 16777216
}

/// Whether `FooterParser::parse` can run on the plain footer `c`.
fn parse_safe(c: &[u8]) -> (res: bool)
    ensures
        res == footer_parse_safe(c@),
{
    if c.len() != 131072 {
        return false;
    }
    let layout = if c[0] == 0x52 && c[1] == 0x2A && c[2] == 0x4D && c[3] == 0x18 {
        read_u32_le(c, 4) == 65528 && read_u32_le(c, 65540) == 65528
    } else {
        c[65536] == 0x51 && c[65537] == 0x2A && c[65538] == 0x4D && c[65539] == 0x18
            && read_u32_le(c, 65540) == 65528
    };
    if !layout {
        return true;
    }
    let mut i: usize = 65548;
    while i < c.len()
        invariant
            65548 <= i <= c@.len(),
            c@.len() == footer_len(),
            forall|j: int| 65548 <= j < i ==> c@[j] != 0,
        decreases c@.len() - i,
    {
        if c[i] == 0 {
            return true;
        }
        i = i + 1;
    }
    false
}

/// A parser for a plain footer, where `FooterParser::parse` can run on it.
pub fn plain_footer(bytes: &[u8]) -> (res: Result<FooterParser, FooterError>)
    ensures
        res is Ok <==> footer_parse_safe(bytes@),
        res matches Ok(p) ==> footer_contents(p) == bytes@ && footer_blocks(p) == Seq::<u8>::empty()
            && !footer_encrypted(p),
        res matches Err(e) ==> e == (if bytes@.len() != footer_len() {
            FooterError::WrongLength
        } else {
            FooterError::UnterminatedBlockList
        }),
{
    if bytes.len() != 131072 {
        return Err(FooterError::WrongLength);
    }
    if !parse_safe(bytes) {
        return Err(FooterError::UnterminatedBlockList);
    }
    Ok(new_footer_parser(bytes))
}

/// A parser for an encrypted footer and its key, where it decrypts to a
/// footer that `FooterParser::parse` can run on.
pub fn encrypted_footer(encrypted: &[u8], key: &[u8]) -> (res: Result<FooterParser, FooterError>)
    ensures
        res is Ok <==> (encrypted@.len() == encrypted_footer_len() && footer_plaintext(encrypted@, key@) is Some
            && footer_parse_safe(footer_plaintext(encrypted@, key@)->Some_0)),
        res matches Ok(p) ==> Some(footer_contents(p)) == footer_plaintext(encrypted@, key@)
            && footer_blocks(p) == Seq::<u8>::empty() && footer_encrypted(p),
        res matches Err(e) ==> e == (if encrypted@.len() != encrypted_footer_len() {
            FooterError::WrongLength
        } else if footer_plaintext(encrypted@, key@) is None {
            FooterError::Undecryptable
        } else {
            FooterError::UnterminatedBlockList
        }),
{
    if encrypted.len() != 131128 {
        return Err(FooterError::WrongLength);
    }
    let plain = match decrypt_footer(encrypted, key) {
        Ok(p) => p,
        Err(_) => return Err(FooterError::Undecryptable),
    };
    if !parse_safe(plain.as_slice()) {
        return Err(FooterError::UnterminatedBlockList);
    }
    match encrypted_footer_parser(encrypted, key) {
        Ok(p) => Ok(p),
        Err(_) => Err(FooterError::Undecryptable),
    }
}

} // verus!
