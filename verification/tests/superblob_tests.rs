use apple_codesign::blob::{write_blob, MAGIC_CODE_DIRECTORY, MAGIC_EMBEDDED_SIGNATURE, MAGIC_REQUIREMENT_SET};
use apple_codesign::embedded_signature::{EmbeddedSignature, ParsedBlob};
use apple_codesign::blob::{MAGIC_BLOB_WRAPPER, MAGIC_DETACHED_SIGNATURE, MAGIC_ENTITLEMENT};
use apple_codesign::requirement::Expression;
use apple_codesign::requirement_set::{requirement_kind_name, Requirement, RequirementSet};
use apple_codesign::identity::signature_without_padding;
use apple_codesign::error::CodesignError;
use apple_codesign::superblob::{
    assemble_container, container_len, find_slot, parse_container, BlobEntry, CodeSigningSlot,
    SLOT_ALTERNATE_BASE, SLOT_SIGNATURE,
};

fn entry(slot: u32, payload: &[u8]) -> BlobEntry {
    BlobEntry { slot, data: write_blob(MAGIC_CODE_DIRECTORY, payload) }
}

#[test]
fn container_bytes_of_two_blobs() {
    let entries = vec![entry(0, &[1]), entry(0x1_0000, &[2, 3])];
    assert_eq!(container_len(&entries), Some(12 + 16 + 9 + 10));
    let bytes = assemble_container(MAGIC_EMBEDDED_SIGNATURE, &entries);
    let mut expected = vec![0xfa, 0xde, 0x0c, 0xc0, 0, 0, 0, 47, 0, 0, 0, 2];
    expected.extend_from_slice(&[0, 0, 0, 0, 0, 0, 0, 28]);
    expected.extend_from_slice(&[0, 1, 0, 0, 0, 0, 0, 37]);
    expected.extend_from_slice(&[0xfa, 0xde, 0x0c, 0x02, 0, 0, 0, 9, 1]);
    expected.extend_from_slice(&[0xfa, 0xde, 0x0c, 0x02, 0, 0, 0, 10, 2, 3]);
    assert_eq!(bytes, expected);
    assert_eq!(parse_container(&bytes, MAGIC_EMBEDDED_SIGNATURE), Ok(entries));
}

#[test]
fn container_round_trip_keeps_the_order_of_the_index() {
    for count in 0usize..6 {
        let entries: Vec<BlobEntry> = (0..count)
            .map(|i| entry((count - i) as u32 * 3, &vec![i as u8; i * 5]))
            .collect();
        let mut bytes = assemble_container(MAGIC_REQUIREMENT_SET, &entries);
        assert_eq!(container_len(&entries), Some(bytes.len()));
        assert_eq!(parse_container(&bytes, MAGIC_REQUIREMENT_SET).as_ref(), Ok(&entries));
        bytes.extend_from_slice(&[1, 2, 3]);
        assert_eq!(parse_container(&bytes, MAGIC_REQUIREMENT_SET), Ok(entries));
    }
}

#[test]
fn container_that_is_broken_is_refused() {
    let entries = vec![entry(0, &[1]), entry(2, &[2, 3])];
    let bytes = assemble_container(MAGIC_EMBEDDED_SIGNATURE, &entries);
    assert_eq!(parse_container(&bytes[..11], MAGIC_EMBEDDED_SIGNATURE), Err(CodesignError::BlobTruncated));
    assert_eq!(parse_container(&bytes, MAGIC_REQUIREMENT_SET), Err(CodesignError::BlobBadMagic));
    assert_eq!(
        parse_container(&bytes[..bytes.len() - 1], MAGIC_EMBEDDED_SIGNATURE),
        Err(CodesignError::BlobTruncated)
    );
    let mut count = bytes.clone();
    count[11] = 200;
    assert_eq!(parse_container(&count, MAGIC_EMBEDDED_SIGNATURE), Err(CodesignError::BlobTruncated));
    let mut offset = bytes.clone();
    offset[16..20].copy_from_slice(&(bytes.len() as u32 - 4).to_be_bytes());
    assert_eq!(parse_container(&offset, MAGIC_EMBEDDED_SIGNATURE), Err(CodesignError::BlobTruncated));
    let mut length = bytes.clone();
    length[28 + 7] = 200;
    assert_eq!(parse_container(&length, MAGIC_EMBEDDED_SIGNATURE), Err(CodesignError::BlobTruncated));
    let mut small = bytes.clone();
    small[4..8].copy_from_slice(&11u32.to_be_bytes());
    assert_eq!(parse_container(&small, MAGIC_EMBEDDED_SIGNATURE), Err(CodesignError::BlobTruncated));
}

#[test]
fn slots_by_their_codes() {
    assert_eq!(CodeSigningSlot::from_code(0), CodeSigningSlot::CodeDirectory);
    assert_eq!(CodeSigningSlot::from_code(1), CodeSigningSlot::Info);
    assert_eq!(CodeSigningSlot::from_code(2), CodeSigningSlot::RequirementSet);
    assert_eq!(CodeSigningSlot::from_code(3), CodeSigningSlot::ResourceDir);
    assert_eq!(CodeSigningSlot::from_code(4), CodeSigningSlot::Application);
    assert_eq!(CodeSigningSlot::from_code(5), CodeSigningSlot::Entitlements);
    assert_eq!(CodeSigningSlot::from_code(6), CodeSigningSlot::Unknown(6));
    assert_eq!(CodeSigningSlot::from_code(0x1000), CodeSigningSlot::AlternateCodeDirectory(0));
    assert_eq!(CodeSigningSlot::from_code(0x1004), CodeSigningSlot::AlternateCodeDirectory(4));
    assert_eq!(CodeSigningSlot::from_code(0x1100), CodeSigningSlot::Unknown(0x1100));
    assert_eq!(CodeSigningSlot::from_code(0x1_0000), CodeSigningSlot::Signature);
    assert_eq!(SLOT_ALTERNATE_BASE, 0x1000);
    assert_eq!(SLOT_SIGNATURE, 0x1_0000);
    for code in [0u32, 1, 2, 3, 4, 5, 6, 0xfff, 0x1000, 0x10ff, 0x1100, 0xffff, 0x1_0000, 0x1_0001, u32::MAX] {
        assert_eq!(CodeSigningSlot::from_code(code).code(), code);
    }
}

#[test]
fn first_blob_of_a_slot_is_found() {
    let entries = vec![entry(5, &[1]), entry(2, &[2]), entry(5, &[3])];
    assert_eq!(find_slot(&entries, 5), Some(0));
    assert_eq!(find_slot(&entries, 2), Some(1));
    assert_eq!(find_slot(&entries, 0), None);
    let signature = EmbeddedSignature { blobs: entries };
    assert_eq!(signature.find_slot(CodeSigningSlot::Entitlements).unwrap().data[8], 1);
    assert!(signature.find_slot(CodeSigningSlot::CodeDirectory).is_none());
    assert_eq!(signature.code_directory(), Ok(None));
    assert_eq!(signature.signature_data(), Ok(None));
}

#[test]
fn slot_with_a_blob_of_another_kind_is_refused() {
    let signature = EmbeddedSignature {
        blobs: vec![
            BlobEntry { slot: 0, data: write_blob(MAGIC_REQUIREMENT_SET, &[0, 0, 0, 0]) },
            BlobEntry { slot: 2, data: write_blob(MAGIC_CODE_DIRECTORY, &[0, 0, 0, 0]) },
            BlobEntry { slot: 0x1_0000, data: vec![1, 2, 3] },
        ],
    };
    assert_eq!(signature.code_directory(), Err(CodesignError::BlobBadMagic));
    assert_eq!(signature.code_requirements(), Err(CodesignError::BlobBadMagic));
    let infos = signature.describe().unwrap();
    assert_eq!((infos[2].offset, infos[2].length, infos[2].end_offset, infos[2].magic), (60, 3, 62, 0));
    let empty = EmbeddedSignature { blobs: vec![BlobEntry { slot: 0, data: vec![] }] };
    assert_eq!(empty.describe(), None);
    assert_eq!(signature.signature_data(), Err(CodesignError::BlobTruncated));
}

#[test]
fn blob_is_read_as_what_its_magic_says() {
    let expression = Expression::Ident(b"a".to_vec());
    assert_eq!(
        ParsedBlob::parse(&expression.to_blob_bytes()),
        Ok(ParsedBlob::Requirement(Expression::Ident(b"a".to_vec())))
    );
    let set = RequirementSet {
        requirements: vec![Requirement { kind: 3, expression: Expression::True }],
    };
    let bytes = set.to_blob_bytes().unwrap();
    assert_eq!(ParsedBlob::parse(&bytes), Ok(ParsedBlob::RequirementSet(set)));
    let container = assemble_container(MAGIC_EMBEDDED_SIGNATURE, &vec![entry(7, &[1])]);
    assert_eq!(
        ParsedBlob::parse(&container),
        Ok(ParsedBlob::EmbeddedSignature(EmbeddedSignature { blobs: vec![entry(7, &[1])] }))
    );
    assert_eq!(
        ParsedBlob::parse(&write_blob(MAGIC_ENTITLEMENT, b"<plist/>")),
        Ok(ParsedBlob::Entitlements(b"<plist/>".to_vec()))
    );
    assert_eq!(
        ParsedBlob::parse(&write_blob(MAGIC_BLOB_WRAPPER, &[1, 2])),
        Ok(ParsedBlob::BlobWrapper(vec![1, 2]))
    );
    assert_eq!(
        ParsedBlob::parse(&write_blob(MAGIC_DETACHED_SIGNATURE, &[3])),
        Ok(ParsedBlob::Other(MAGIC_DETACHED_SIGNATURE, vec![3]))
    );
    assert_eq!(ParsedBlob::parse(&[1, 2, 3]), Err(CodesignError::BlobTruncated));
    assert_eq!(
        ParsedBlob::parse(&write_blob(MAGIC_CODE_DIRECTORY, &[0; 4])),
        Err(CodesignError::BlobTruncated)
    );
    assert_eq!(
        ParsedBlob::parse(&[0xfa, 0xde, 0x0c, 0x00, 0, 0, 0, 12, 0, 0, 0, 99]),
        Err(CodesignError::UnknownRequirementOpcode)
    );
}

#[test]
fn requirement_types_by_name() {
    assert_eq!(requirement_kind_name(1), "host");
    assert_eq!(requirement_kind_name(2), "guest");
    assert_eq!(requirement_kind_name(3), "designated");
    assert_eq!(requirement_kind_name(4), "library");
    assert_eq!(requirement_kind_name(5), "plugin");
    assert_eq!(requirement_kind_name(0), "unknown");
    assert_eq!(requirement_kind_name(6), "unknown");
}

#[test]
fn padding_behind_a_der_value_is_cut_off() {
    assert_eq!(signature_without_padding(&[0x30, 0x02, 1, 2, 0, 0, 0]), &[0x30, 0x02, 1, 2]);
    assert_eq!(signature_without_padding(&[0x30, 0x00, 0, 0]), &[0x30, 0x00]);
    let mut long = vec![0x30, 0x82, 0x01, 0x00];
    long.extend_from_slice(&[7u8; 256]);
    let mut padded = long.clone();
    padded.extend_from_slice(&[0u8; 100]);
    assert_eq!(signature_without_padding(&padded), long.as_slice());
    let mut one = vec![0x30, 0x81, 0x80];
    one.extend_from_slice(&[7u8; 128]);
    let mut padded = one.clone();
    padded.push(0);
    assert_eq!(signature_without_padding(&padded), one.as_slice());
    // What is no DER value that lies within the bytes stays as it is.
    assert_eq!(signature_without_padding(&[0x30]), &[0x30]);
    assert_eq!(signature_without_padding(&[]), &[] as &[u8]);
    assert_eq!(signature_without_padding(&[0x30, 0x05, 1]), &[0x30, 0x05, 1]);
    assert_eq!(signature_without_padding(&[0x30, 0x80, 1]), &[0x30, 0x80, 1]);
    assert_eq!(signature_without_padding(&[0x30, 0x85, 0, 0, 0, 0, 1, 9]), &[0x30, 0x85, 0, 0, 0, 0, 1, 9]);
    assert_eq!(signature_without_padding(&[0x30, 0x82, 1]), &[0x30, 0x82, 1]);
}
