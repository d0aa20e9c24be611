use aruna_file::helpers::footer_parser::FooterParser;
use aruna_proxy::footer::{encrypted_footer, plain_footer, FooterError};
use aruna_proxy::ranges::{
    aruna_range_from_s3range, calculate_content_length_from_range, calculate_ranges,
    ranges_from_offsets, ArunaRange, RangeError, S3Range,
};

fn footer_with_blocks(blocks: &[u8]) -> FooterParser {
    let mut bytes = vec![0u8; 65536 * 2];
    bytes[65536..65540].copy_from_slice(&[0x51, 0x2A, 0x4D, 0x18]);
    bytes[65540..65544].copy_from_slice(&(65536u32 - 8).to_le_bytes());
    bytes[65544..65548].copy_from_slice(&(blocks.len() as u32).to_le_bytes());
    bytes[65548..65548 + blocks.len()].copy_from_slice(blocks);
    plain_footer(&bytes).unwrap()
}

#[test]
fn s3_ranges_to_aruna_ranges() {
    assert_eq!(
        aruna_range_from_s3range(S3Range::Int { first: 10, last: Some(20) }, 100),
        ArunaRange { from: 10, to: 20 }
    );
    assert_eq!(
        aruna_range_from_s3range(S3Range::Int { first: 10, last: None }, 100),
        ArunaRange { from: 10, to: 100 }
    );
    assert_eq!(
        aruna_range_from_s3range(S3Range::Suffix { length: 30 }, 100),
        ArunaRange { from: 70, to: 100 }
    );
    assert_eq!(
        aruna_range_from_s3range(S3Range::Suffix { length: 100 }, 100),
        ArunaRange { from: 0, to: 100 }
    );
}

#[test]
fn content_lengths() {
    assert_eq!(calculate_content_length_from_range(ArunaRange { from: 10, to: 21 }), 11);
    assert_eq!(calculate_content_length_from_range(ArunaRange { from: 5, to: 5 }), 0);
    assert_eq!(calculate_content_length_from_range(ArunaRange { from: 0, to: u64::MAX }), -1);
}

#[test]
fn ranges_without_footer() {
    assert_eq!(calculate_ranges(None, 100, None), Ok((None, None)));
    assert_eq!(
        calculate_ranges(Some(S3Range::Int { first: 10, last: Some(20) }), 100, None),
        Ok((None, Some(ArunaRange { from: 10, to: 21 })))
    );
    assert_eq!(
        calculate_ranges(Some(S3Range::Suffix { length: 30 }), 100, None),
        Ok((None, Some(ArunaRange { from: 70, to: 101 })))
    );
    let (_, range) = calculate_ranges(Some(S3Range::Int { first: 10, last: Some(20) }), 100, None).unwrap();
    assert_eq!(calculate_content_length_from_range(range.unwrap()), 11);
}

#[test]
fn ranges_without_request_ignore_the_footer() {
    assert_eq!(calculate_ranges(None, 100, Some(footer_with_blocks(&[3]))), Ok((None, None)));
}

#[test]
fn ranges_through_footer() {
    let footer = footer_with_blocks(&[3, 2, 4]);
    assert_eq!(
        calculate_ranges(Some(S3Range::Int { first: 0, last: Some(10) }), 100, Some(footer)),
        Ok((Some("bytes=0-196607".to_string()), Some(ArunaRange { from: 0, to: 11 })))
    );
    let footer = footer_with_blocks(&[3, 2, 4]);
    let first = 5_242_880 + 7;
    let last = 2 * 5_242_880 + 9;
    assert_eq!(
        calculate_ranges(Some(S3Range::Int { first, last: Some(last) }), last + 1, Some(footer)),
        Ok((
            Some(format!("bytes={}-{}", 3 * 65536, 9 * 65536 - 1)),
            Some(ArunaRange { from: 7, to: 5_242_880 + 10 })
        ))
    );
}

#[test]
fn ranges_through_footer_errors() {
    let unparsable = plain_footer(&[0u8; 65536 * 2]).unwrap();
    assert_eq!(
        calculate_ranges(Some(S3Range::Int { first: 0, last: Some(10) }), 100, Some(unparsable)),
        Err(RangeError::FooterParse)
    );
    let footer = footer_with_blocks(&[3]);
    assert_eq!(
        calculate_ranges(Some(S3Range::Int { first: 6_000_000, last: Some(10) }), 100, Some(footer)),
        Err(RangeError::FooterRange)
    );
    let no_blocks = footer_with_blocks(&[]);
    assert_eq!(
        calculate_ranges(Some(S3Range::Int { first: 0, last: Some(10) }), 100, Some(no_blocks)),
        Err(RangeError::FooterOffsets)
    );
}

#[test]
fn ranges_from_footer_offsets() {
    let (header, range) =
        ranges_from_offsets(ArunaRange { from: 65536, to: 131072 }, ArunaRange { from: 3, to: 9 });
    assert_eq!(header, "bytes=65536-131071");
    assert_eq!(range, ArunaRange { from: 3, to: 10 });
}

#[test]
fn footer_construction() {
    assert!(matches!(plain_footer(&[0u8; 10]), Err(FooterError::WrongLength)));
    // An accepted layout whose block list never ends is refused.
    let mut bytes = vec![1u8; 65536 * 2];
    bytes[0..4].copy_from_slice(&[0, 0, 0, 0]);
    bytes[65536..65540].copy_from_slice(&[0x51, 0x2A, 0x4D, 0x18]);
    bytes[65540..65544].copy_from_slice(&(65536u32 - 8).to_le_bytes());
    assert!(matches!(plain_footer(&bytes), Err(FooterError::UnterminatedBlockList)));
    // A layout that is not accepted can be parsed (and fails to).
    let mut other = vec![1u8; 65536 * 2];
    other[0] = 0;
    assert!(plain_footer(&other).is_ok());
    assert!(matches!(encrypted_footer(&[0u8; 10], &[0u8; 32]), Err(FooterError::WrongLength)));
    assert!(matches!(
        encrypted_footer(&vec![7u8; (65536 + 28) * 2], &[0u8; 32]),
        Err(FooterError::Undecryptable)
    ));
}

#[test]
fn footer_is_not_read_without_a_range() {
    let footer: FooterParser = plain_footer(&[0u8; 65536 * 2]).unwrap();
    assert_eq!(calculate_ranges(None, 5, Some(footer)), Ok((None, None)));
}

#[test]
fn ranges_through_double_footer() {
    let mut bytes = vec![0u8; 65536 * 2];
    bytes[0..4].copy_from_slice(&[0x52, 0x2A, 0x4D, 0x18]);
    bytes[4..8].copy_from_slice(&(65536u32 - 8).to_le_bytes());
    bytes[8..12].copy_from_slice(&2u32.to_le_bytes());
    bytes[12] = 2;
    bytes[65540..65544].copy_from_slice(&(65536u32 - 8).to_le_bytes());
    bytes[65548] = 3;
    let footer = plain_footer(&bytes).unwrap();
    assert_eq!(
        calculate_ranges(Some(S3Range::Int { first: 0, last: Some(10) }), 100, Some(footer)),
        Ok((Some("bytes=0-131071".to_string()), Some(ArunaRange { from: 0, to: 11 })))
    );
    let footer = plain_footer(&bytes).unwrap();
    assert_eq!(
        calculate_ranges(
            Some(S3Range::Int { first: 5_242_880, last: Some(5_242_885) }),
            6_000_000,
            Some(footer)
        ),
        Ok((Some("bytes=131072-327679".to_string()), Some(ArunaRange { from: 0, to: 6 })))
    );
}
