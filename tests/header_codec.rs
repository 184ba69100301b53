use coretools_rs::header::{decode_header, encode_header, HEADER_SIZE};
use coretools_rs::UnpackError;

fn header_with_digits(digits: &[u8]) -> Vec<u8> {
    let mut h = b"COREPKG0x000000250x000000270x".to_vec();
    h.extend_from_slice(digits);
    h
}

#[test]
fn encodes_concrete_offsets() {
    let h = encode_header(37, 39, 39);
    assert_eq!(h, b"COREPKG0x000000250x000000270x00000027".to_vec());
    assert_eq!(h.len(), HEADER_SIZE);
}

#[test]
fn encodes_lowercase_hex_zero_padded() {
    let h = encode_header(0x25, 0xabcdef12, 0xffffffff);
    assert_eq!(&h[7..17], b"0x00000025");
    assert_eq!(&h[17..27], b"0xabcdef12");
    assert_eq!(&h[27..37], b"0xffffffff");
}

#[test]
fn every_field_has_header_shape() {
    for (a, b, c) in [(37u32, 37u32, 37u32), (37, 1000, 70000), (0, 0xdead, 0xbeef0)] {
        let h = encode_header(a, b, c);
        assert_eq!(h.len(), 37);
        for start in [7usize, 17, 27] {
            let field = &h[start..start + 10];
            assert_eq!(&field[..2], b"0x");
            assert!(field[2..].iter().all(|d| d.is_ascii_digit() || (b'a'..=b'f').contains(d)));
        }
    }
}

#[test]
fn decodes_archive_offset() {
    let h = encode_header(37, 39, 39);
    assert_eq!(decode_header(&h).unwrap(), 39);
    let h = encode_header(37, 100, 0x12345678);
    assert_eq!(decode_header(&h).unwrap(), 0x12345678);
}

#[test]
fn decode_reads_only_the_last_offset() {
    let mut h = encode_header(37, 39, 41);
    h[9] = b'z';
    h[20] = b'?';
    assert_eq!(decode_header(&h).unwrap(), 41);
}

#[test]
fn decode_rejects_wrong_magic() {
    let mut h = encode_header(37, 39, 39);
    h[0] = b'X';
    assert!(matches!(decode_header(&h), Err(UnpackError::MissingMagicNumber)));
    let mut h = encode_header(37, 39, 39);
    h[6] = b'g';
    assert!(matches!(decode_header(&h), Err(UnpackError::MissingMagicNumber)));
}

#[test]
fn decode_rejects_non_hex_offset() {
    let h = header_with_digits(b"0000002g");
    assert!(matches!(decode_header(&h), Err(UnpackError::IvalidOffsets)));
    let h = header_with_digits(b"0000 027");
    assert!(matches!(decode_header(&h), Err(UnpackError::IvalidOffsets)));
    let h = header_with_digits(&[0xff, b'0', b'0', b'0', b'0', b'0', b'2', b'7']);
    assert!(matches!(decode_header(&h), Err(UnpackError::IvalidOffsets)));
    let h = header_with_digits(b"-0000027");
    assert!(matches!(decode_header(&h), Err(UnpackError::IvalidOffsets)));
}

#[test]
fn decode_accepts_uppercase_and_plus_sign() {
    let h = header_with_digits(b"0000002A");
    assert_eq!(decode_header(&h).unwrap(), 42);
    let h = header_with_digits(b"+0000027");
    assert_eq!(decode_header(&h).unwrap(), 39);
    let h = header_with_digits(b"++000027");
    assert!(matches!(decode_header(&h), Err(UnpackError::IvalidOffsets)));
}
