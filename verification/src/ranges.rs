//! Byte ranges: from the `Range` header of an S3 request to the range that
//! is read from storage.
//!
//! An S3 range is inclusive at both ends (`bytes=first-last`) or a suffix
//! (`bytes=-length`). The ranges handed to storage are half-open
//! (`from..to`). Where the object was stored in chunks and a footer lists
//! the chunks' blocks, the footer maps the requested range to the stored
//! blocks and to the range within them.
use crate::decimal::{decimal, decimal_string};
use crate::footer::{
    block_range, block_range_fits, footer_blocks, footer_contents, footer_encrypted,
    footer_layout_ok, footer_offsets, footer_parse_safe, parse_blocks, parse_footer,
};
use aruna_file::helpers::footer_parser::FooterParser;
use vstd::prelude::*;

verus! {

/// The range of an S3 request (`s3s::dto::Range`).
#[derive(Debug, Clone, Copy, PartialEq, Eq, Structural)]
pub enum S3Range {
    /// `bytes=first-last`, or `bytes=first-` where `last` is missing.
    Int { first: u64, last: Option<u64> },
    /// `bytes=-length`: the last `length` bytes.
    Suffix { length: u64 },
}

/// A range of bytes (`aruna_file`'s footer `Range`).
#[derive(Debug, Clone, Copy, PartialEq, Eq, Structural)]
pub struct ArunaRange {
    pub from: u64,
    pub to: u64,
}

/// The number of plain bytes in a stored chunk.
pub open spec fn chunk_size() -> u64 {
    5_242_880
}

/// Whether an S3 range can be taken against an object of `content_length`
/// bytes: a suffix may not be longer than the object.
pub open spec fn s3_range_fits(range: S3Range, content_length: u64) -> bool {
    range matches S3Range::Suffix { length } ==> length <= content_length
}

/// The range that an S3 range stands for: `first` to `last` (or to the end
/// of the object), or the last `length` bytes.
pub open spec fn aruna_range_of(range: S3Range, content_length: u64) -> ArunaRange {
    match range {
        S3Range::Int { first, last } => match last {
            Some(val) => ArunaRange { from: first, to: val },
            None => ArunaRange { from: first, to: content_length },
        },
        S3Range::Suffix { length } => ArunaRange {
            from: (content_length - length) as u64,
            to: content_length,
        },
    }
}

/// The range that an S3 range stands for in an object of `content_length`
/// bytes. Both ends are those of the request; the end is still inclusive.
pub fn aruna_range_from_s3range(range_string: S3Range, content_length: u64) -> (res: ArunaRange)
    requires
        s3_range_fits(range_string, content_length),
    ensures
        res == aruna_range_of(range_string, content_length),
        range_string matches S3Range::Int { first, last } ==> res.from == first && res.to == (match last {
            Some(l) => l,
            None => content_length,
        }),
        range_string matches S3Range::Suffix { length } ==> res.from == content_length - length
            && res.to == content_length,
{
    match range_string {
        S3Range::Int { first, last } => match last {
            Some(val) => ArunaRange { from: first, to: val },
            None => ArunaRange { from: first, to: content_length },
        },
        S3Range::Suffix { length } => ArunaRange { from: content_length - length, to: content_length },
    }
}

/// The length of a half-open range, as a signed content length.
pub fn calculate_content_length_from_range(range: ArunaRange) -> (res: i64)
    requires
        range.from <= range.to,
    ensures
        res == (range.to - range.from) as i64,
{
    (range.to - range.from) as i64
}

/// The `Range` header text `bytes=from-last`.
pub open spec fn bytes_header(from: nat, last: nat) -> Seq<char> {
    seq!['b', 'y', 't', 'e', 's', '='] + decimal(from) + seq!['-'] + decimal(last)
}

/// What a footer gives for a range: the half-open range of stored blocks to
/// fetch, and the inclusive range within the fetched plain bytes. The
/// request for the blocks is a `Range` header; the range within them
/// becomes half-open.
pub open spec fn ranges_from_offsets_spec(blocks: ArunaRange, within: ArunaRange) -> (
    Seq<char>,
    ArunaRange,
) {
    (
        bytes_header(blocks.from as nat, (blocks.to - 1) as nat),
        ArunaRange { from: within.from, to: (within.to + 1) as u64 },
    )
}

/// The `Range` header for the stored blocks `blocks` (half-open) and the
/// half-open range within them for the inclusive range `within`.
pub fn ranges_from_offsets(blocks: ArunaRange, within: ArunaRange) -> (res: (String, ArunaRange))
    requires
        blocks.to >= 1,
        within.to < u64::MAX,
    ensures
        res.0@ == ranges_from_offsets_spec(blocks, within).0,
        res.1 == ranges_from_offsets_spec(blocks, within).1,
{
    let mut header = String::new();
    header.append("bytes=");
    let from_text = decimal_string(blocks.from);
    header.append(from_text.as_str());
    header.append("-");
    let last_text = decimal_string(blocks.to - 1);
    header.append(last_text.as_str());
    proof {
        reveal_strlit("bytes=");
        reveal_strlit("-");
        assert(header@ =~= bytes_header(blocks.from as nat, (blocks.to - 1) as nat));
    }
    (header, ArunaRange { from: within.from, to: within.to + 1 })
}

/// Why ranges could not be worked out.
#[derive(Debug, Clone, Copy, PartialEq, Eq, Structural)]
pub enum RangeError {
    /// The footer could not be parsed.
    FooterParse,
    /// The footer refused the range: it starts in a later chunk than it ends.
    FooterRange,
    /// The footer's blocks give an empty block range, or the range within
    /// the blocks ends at the largest offset; neither end can be written.
    FooterOffsets,
}

/// The range within the fetched blocks for the inclusive range `ar`, as a
/// footer computes it: from the offset in the first chunk to the offset in
/// the last chunk plus the whole chunks between.
pub open spec fn offsets_within(ar: ArunaRange) -> ArunaRange {
    ArunaRange {
        from: (ar.from % chunk_size()) as u64,
        to: (ar.to % chunk_size() + (ar.to / chunk_size() - ar.from / chunk_size()) * chunk_size()) as u64,
    }
}

/// What a footer gives for the inclusive range `ar`: the `Range` header for
/// the stored blocks and the half-open range of plain bytes within them.
pub open spec fn footer_ranges(footer: FooterParser, ar: ArunaRange) -> Result<(Seq<char>, ArunaRange), RangeError> {
    if !footer_layout_ok(footer_contents(footer)) {
        Err(RangeError::FooterParse)
    } else if ar.from / chunk_size() > ar.to / chunk_size() {
        Err(RangeError::FooterRange)
    } else {
        let blocks = block_range(
            footer_blocks(footer) + parse_blocks(footer_contents(footer)),
            footer_encrypted(footer),
            ar,
        );
        let within = offsets_within(ar);
        if blocks.to == 0 || within.to == u64::MAX {
            Err(RangeError::FooterOffsets)
        } else {
            Ok(ranges_from_offsets_spec(blocks, within))
        }
    }
}

/// Through a footer, the bytes handed out are as many as the inclusive
/// range asks for.
pub proof fn lemma_footer_range_length(ar: ArunaRange)
    requires
        ar.from <= ar.to < u64::MAX,
    ensures
        offsets_within(ar).to + 1 - offsets_within(ar).from == ar.to - ar.from + 1,
{
    let c = chunk_size() as int;
    assert(ar.from as int == (ar.from as int / c) * c + ar.from as int % c) by (nonlinear_arith)
        requires
            c > 0,
    ;
    assert(ar.to as int == (ar.to as int / c) * c + ar.to as int % c) by (nonlinear_arith)
        requires
            c > 0,
    ;
    assert((ar.from as int / c) <= (ar.to as int / c)) by (nonlinear_arith)
        requires
            c > 0, ar.from <= ar.to,
    ;
    assert((ar.to as int / c - ar.from as int / c) * c == (ar.to as int / c) * c - (ar.from as int / c) * c) by (nonlinear_arith);
}

/// What `calculate_ranges` gives where no footer is involved.
pub open spec fn plain_ranges(input_range: Option<S3Range>, content_length: u64) -> (Option<Seq<char>>, Option<ArunaRange>) {
    match input_range {
        None => (None, None),
        Some(r) => {
            let ar = aruna_range_of(r, content_length);
            (None, Some(ArunaRange { from: ar.from, to: (ar.to + 1) as u64 }))
        },
    }
}

/// The ranges to fetch for a request: the `Range` header for the stored
/// blocks (where a footer maps the range to blocks) and the half-open range
/// of plain bytes to hand out. Without a requested range there is nothing
/// to narrow and the footer is not read. The footer must not be one whose
/// parsing fails hard (`footer_parse_safe`), and its block list must not be
/// so long that the block offsets overflow (`block_range_fits`); the
/// constructors in `crate::footer` make only footers that meet both
/// (`lemma_fresh_footer_fits`).
pub fn calculate_ranges(
    input_range: Option<S3Range>,
    content_length: u64,
    footer: Option<FooterParser>,
) -> (res: Result<(Option<String>, Option<ArunaRange>), RangeError>)
    requires
        input_range matches Some(r) ==> s3_range_fits(r, content_length),
        footer is None ==> (input_range matches Some(r) ==> aruna_range_of(r, content_length).to
            < u64::MAX),
        input_range is Some ==> (footer matches Some(f) ==> footer_parse_safe(footer_contents(f))),
        footer matches Some(f) ==> (input_range matches Some(r) ==> ({
            let ar = aruna_range_of(r, content_length);
            footer_layout_ok(footer_contents(f)) && ar.from / chunk_size() <= ar.to / chunk_size()
                ==> block_range_fits(
                footer_blocks(f) + parse_blocks(footer_contents(f)),
                footer_encrypted(f),
                ar,
            )
        })),
    ensures
        input_range is None ==> res == Ok::<(Option<String>, Option<ArunaRange>), RangeError>((None, None)),
        footer is None ==> res is Ok,
        footer is None ==> (input_range matches Some(S3Range::Int { first, last }) ==> (res matches Ok(
            (None, Some(x)),
        ) && x.from == first && x.to == (match last {
            Some(l) => l,
            None => content_length,
        }) + 1)),
        footer is None ==> (input_range matches Some(S3Range::Suffix { length }) ==> (res matches Ok(
            (None, Some(x)),
        ) && x.from == content_length - length && x.to == content_length + 1)),
        footer is None && res is Ok ==> ({
            let (h, r) = res->Ok_0;
            &&& h is None
            &&& r == plain_ranges(input_range, content_length).1
        }),
        footer matches Some(f) ==> (input_range matches Some(r) ==> {
            match footer_ranges(f, aruna_range_of(r, content_length)) {
                Ok((header, range)) => res is Ok && res->Ok_0.0 is Some && res->Ok_0.0->Some_0@ == header
                    && res->Ok_0.1 == Some(range),
                Err(e) => res == Err::<(Option<String>, Option<ArunaRange>), RangeError>(e),
            }
        }),
{
    match input_range {
        Some(r) => match footer {
            Some(mut foot) => {
                if parse_footer(&mut foot).is_err() {
                    return Err(RangeError::FooterParse);
                }
                let (blocks, within) = match footer_offsets(&foot, aruna_range_from_s3range(r, content_length)) {
                    Ok(o) => o,
                    Err(_) => return Err(RangeError::FooterRange),
                };
                if blocks.to == 0 || within.to == u64::MAX {
                    return Err(RangeError::FooterOffsets);
                }
                let (header, range) = ranges_from_offsets(blocks, within);
                Ok((Some(header), Some(range)))
            },
            None => {
                let ar_range = aruna_range_from_s3range(r, content_length);
                Ok((None, Some(ArunaRange { from: ar_range.from, to: ar_range.to + 1 })))
            },
        },
        None => Ok((None, None)),
    }
}

/// An inclusive request `bytes=first-last` is handed out as the half-open
/// range of its `last - first + 1` bytes, whose content length is that
/// count.
pub proof fn lemma_inclusive_request_length(first: u64, last: u64, content_length: u64)
    requires
        first <= last < u64::MAX,
    ensures
        ({
            let r = plain_ranges(Some(S3Range::Int { first, last: Some(last) }), content_length).1->Some_0;
            &&& r.from == first
            &&& r.to - r.from == last - first + 1
            &&& last - first + 1 <= i64::MAX ==> ((r.to - r.from) as i64) as int == last - first + 1
        }),
{
}

/// The range an S3 request stands for starts at the first byte it asks for
/// and ends at its last one (or at the end of the object): `bytes=first-last`
/// is `first..last`, `bytes=first-` is `first..content_length`, and
/// `bytes=-length` is `content_length - length..content_length`.
pub proof fn lemma_s3_range_meaning(first: u64, last: u64, length: u64, content_length: u64)
    requires
        length <= content_length,
    ensures
        aruna_range_of(S3Range::Int { first, last: Some(last) }, content_length)
            == (ArunaRange { from: first, to: last }),
        aruna_range_of(S3Range::Int { first, last: None }, content_length)
            == (ArunaRange { from: first, to: content_length }),
        aruna_range_of(S3Range::Suffix { length }, content_length)
            == (ArunaRange { from: (content_length - length) as u64, to: content_length }),
{
}

/// Without a footer, the range handed out starts at the first byte the
/// request asks for and runs one past its inclusive end: `bytes=first-last`
/// gives `first..last + 1`, `bytes=first-` gives `first..content_length + 1`,
/// and `bytes=-length` gives `content_length - length..content_length + 1`.
pub proof fn lemma_plain_ranges_meaning(first: u64, last: u64, length: u64, content_length: u64)
    requires
        length <= content_length,
        last < u64::MAX,
        content_length < u64::MAX,
    ensures
        plain_ranges(Some(S3Range::Int { first, last: Some(last) }), content_length)
            == (None::<Seq<char>>, Some(ArunaRange { from: first, to: (last + 1) as u64 })),
        plain_ranges(Some(S3Range::Int { first, last: None }), content_length)
            == (None::<Seq<char>>, Some(ArunaRange { from: first, to: (content_length + 1) as u64 })),
        plain_ranges(Some(S3Range::Suffix { length }), content_length) == (None::<Seq<char>>, Some(
            ArunaRange { from: (content_length - length) as u64, to: (content_length + 1) as u64 },
        )),
        plain_ranges(None, content_length) == (None::<Seq<char>>, None::<ArunaRange>),
{
}

} // verus!
