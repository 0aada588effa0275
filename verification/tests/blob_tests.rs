use apple_codesign::blob::{
    is_known_magic, read_blob, read_blob_as, write_blob, MAGIC_BLOB_WRAPPER,
    MAGIC_CODE_DIRECTORY, MAGIC_DETACHED_SIGNATURE, MAGIC_EMBEDDED_SIGNATURE,
    MAGIC_EMBEDDED_SIGNATURE_OLD, MAGIC_ENTITLEMENT, MAGIC_REQUIREMENT, MAGIC_REQUIREMENT_SET,
};
use apple_codesign::error::CodesignError;
use apple_codesign::wire::{bytes_equal, padding_for, put_be32, put_be64, read_be32, read_be64};

#[test]
fn blob_round_trip_keeps_magic_and_payload() {
    let bytes = write_blob(MAGIC_CODE_DIRECTORY, &[1, 2, 3]);
    assert_eq!(bytes, vec![0xfa, 0xde, 0x0c, 0x02, 0, 0, 0, 11, 1, 2, 3]);
    let (magic, payload) = read_blob(&bytes).unwrap();
    assert_eq!(magic, MAGIC_CODE_DIRECTORY);
    assert_eq!(payload, &[1, 2, 3]);
}

#[test]
fn blob_round_trip_for_every_magic() {
    let magics = [
        MAGIC_REQUIREMENT,
        MAGIC_REQUIREMENT_SET,
        MAGIC_CODE_DIRECTORY,
        MAGIC_EMBEDDED_SIGNATURE,
        MAGIC_EMBEDDED_SIGNATURE_OLD,
        MAGIC_ENTITLEMENT,
        MAGIC_DETACHED_SIGNATURE,
        MAGIC_BLOB_WRAPPER,
    ];
    for magic in magics {
        for len in [0usize, 1, 7, 64] {
            let payload: Vec<u8> = (0..len).map(|i| (i * 7) as u8).collect();
            let bytes = write_blob(magic, &payload);
            assert_eq!(bytes.len(), len + 8);
            assert_eq!(read_blob(&bytes), Ok((magic, payload.as_slice())));
            assert_eq!(read_blob_as(&bytes, magic), Ok(payload.as_slice()));
        }
    }
}

#[test]
fn blob_magic_values_are_those_of_the_format() {
    assert_eq!(MAGIC_EMBEDDED_SIGNATURE, 0xfade0cc0);
    assert_eq!(MAGIC_CODE_DIRECTORY, 0xfade0c02);
    assert_eq!(MAGIC_REQUIREMENT_SET, 0xfade0c01);
    assert_eq!(MAGIC_REQUIREMENT, 0xfade0c00);
    assert_eq!(MAGIC_ENTITLEMENT, 0xfade7171);
    assert_eq!(MAGIC_BLOB_WRAPPER, 0xfade0b01);
    assert_eq!(MAGIC_DETACHED_SIGNATURE, 0xfade0c05);
    assert_eq!(MAGIC_EMBEDDED_SIGNATURE_OLD, 0xfade0cc1);
    assert!(is_known_magic(0xfade0cc0));
    assert!(!is_known_magic(0xfade0cc2));
}

#[test]
fn blob_shorter_than_header_is_truncated() {
    assert_eq!(read_blob(&[0xfa, 0xde, 0x0c]), Err(CodesignError::BlobTruncated));
    assert_eq!(read_blob(&[]), Err(CodesignError::BlobTruncated));
}

#[test]
fn blob_with_unknown_magic_is_bad_magic() {
    let bytes = [0xde, 0xad, 0xbe, 0xef, 0, 0, 0, 8];
    assert_eq!(read_blob(&bytes), Err(CodesignError::BlobBadMagic));
}

#[test]
fn blob_with_other_magic_than_expected_is_bad_magic() {
    let bytes = write_blob(MAGIC_REQUIREMENT, &[9]);
    assert_eq!(read_blob_as(&bytes, MAGIC_CODE_DIRECTORY), Err(CodesignError::BlobBadMagic));
}

#[test]
fn blob_with_length_beyond_the_bytes_is_truncated() {
    let mut bytes = write_blob(MAGIC_REQUIREMENT, &[1, 2, 3, 4]);
    bytes.pop();
    assert_eq!(read_blob(&bytes), Err(CodesignError::BlobTruncated));
}

#[test]
fn blob_with_length_under_the_header_is_truncated() {
    let bytes = [0xfa, 0xde, 0x0c, 0x00, 0, 0, 0, 7, 0, 0];
    assert_eq!(read_blob(&bytes), Err(CodesignError::BlobTruncated));
}

#[test]
fn blob_ignores_bytes_behind_its_length() {
    let mut bytes = write_blob(MAGIC_ENTITLEMENT, &[5, 6]);
    bytes.extend_from_slice(&[0xaa, 0xbb]);
    assert_eq!(read_blob(&bytes), Ok((MAGIC_ENTITLEMENT, &[5u8, 6][..])));
}

#[test]
fn wire_integers_are_big_endian() {
    let mut out = vec![0xffu8];
    put_be32(&mut out, 0x0102_0304);
    put_be64(&mut out, 0x1122_3344_5566_7788);
    assert_eq!(out, vec![0xff, 1, 2, 3, 4, 0x11, 0x22, 0x33, 0x44, 0x55, 0x66, 0x77, 0x88]);
    assert_eq!(read_be32(&out, 1), 0x0102_0304);
    assert_eq!(read_be64(&out, 5), 0x1122_3344_5566_7788);
    assert_eq!(read_be32(&[0xff, 0xff, 0xff, 0xff], 0), u32::MAX);
}

#[test]
fn wire_padding_completes_a_multiple_of_four() {
    assert_eq!(padding_for(0), 0);
    assert_eq!(padding_for(1), 3);
    assert_eq!(padding_for(2), 2);
    assert_eq!(padding_for(3), 1);
    assert_eq!(padding_for(4), 0);
    assert_eq!(padding_for(15), 1);
}

#[test]
fn wire_bytes_equal_compares_contents() {
    assert!(bytes_equal(&[], &[]));
    assert!(bytes_equal(&[1, 2], &[1, 2]));
    assert!(!bytes_equal(&[1, 2], &[1, 3]));
    assert!(!bytes_equal(&[1, 2], &[1, 2, 3]));
}
