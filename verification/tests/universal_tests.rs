use apple_codesign::digest::DigestType;
use apple_codesign::embedded_signature::parse_signature_data;
use apple_codesign::error::CodesignError;
use apple_codesign::macho_load::{parse_container, select_binary, Container, FatSlice, MachoView};
use apple_codesign::signing::{sign_ad_hoc, SigningSettings};
use apple_codesign::universal::{
    assemble_universal, load_existing_signature_context, sign_binary, sign_file,
    universal_slices, FAT_MAGIC,
};
use apple_codesign::verify::{
    verification_outcome, verify_binary, verify_code_directory, verify_file, verify_view,
    VerificationProblem,
};

type Stamper = fn(
    &[u8],
    &x509_certificate::InMemorySigningKeyPair,
    &x509_certificate::CapturedX509Certificate,
    &Vec<x509_certificate::CapturedX509Certificate>,
) -> Result<Vec<u8>, CodesignError>;

const NO_STAMP: Option<&Stamper> = None;

fn put32(out: &mut Vec<u8>, v: u32) {
    out.extend_from_slice(&v.to_le_bytes());
}

fn put64(out: &mut Vec<u8>, v: u64) {
    out.extend_from_slice(&v.to_le_bytes());
}

fn put_name(out: &mut Vec<u8>, name: &str) {
    let mut bytes = name.as_bytes().to_vec();
    bytes.resize(16, 0);
    out.extend_from_slice(&bytes);
}

fn macho(len: usize, cputype: u32) -> Vec<u8> {
    let half = (len / 2) as u64;
    let mut out = Vec::new();
    put32(&mut out, 0xfeed_facf);
    put32(&mut out, cputype);
    put32(&mut out, 3);
    put32(&mut out, 2);
    put32(&mut out, 2);
    put32(&mut out, 224);
    put32(&mut out, 0);
    put32(&mut out, 0);
    put32(&mut out, 0x19);
    put32(&mut out, 152);
    put_name(&mut out, "__TEXT");
    put64(&mut out, 0x1_0000_0000);
    put64(&mut out, half);
    put64(&mut out, 0);
    put64(&mut out, half);
    put32(&mut out, 7);
    put32(&mut out, 5);
    put32(&mut out, 1);
    put32(&mut out, 0);
    put_name(&mut out, "__text");
    put_name(&mut out, "__TEXT");
    put64(&mut out, 0x1_0000_0400);
    put64(&mut out, 0x100);
    put32(&mut out, 0x400);
    put32(&mut out, 4);
    put32(&mut out, 0);
    put32(&mut out, 0);
    put32(&mut out, 0x8000_0400);
    put32(&mut out, 0);
    put32(&mut out, 0);
    put32(&mut out, 0);
    put32(&mut out, 0x19);
    put32(&mut out, 72);
    put_name(&mut out, "__LINKEDIT");
    put64(&mut out, 0x1_0000_0000 + half);
    put64(&mut out, half);
    put64(&mut out, half);
    put64(&mut out, len as u64 - half);
    put32(&mut out, 1);
    put32(&mut out, 1);
    put32(&mut out, 0);
    put32(&mut out, 0);
    let mut i = out.len();
    while i < len {
        out.push((i % 253) as u8);
        i += 1;
    }
    out
}

fn arch(cputype: u32, offset: u32, size: u32, align: u32) -> FatSlice {
    FatSlice { cputype, cpusubtype: 3, offset, size, align }
}

fn settings(identifier: &str) -> SigningSettings {
    SigningSettings::new(identifier.as_bytes().to_vec())
}

#[test]
fn universal_binary_of_two_binaries() {
    let arches = vec![arch(7, 64, 3, 4), arch(12, 80, 5, 5)];
    let slices = vec![vec![1, 2, 3], vec![4, 5, 6, 7, 8]];
    let file = assemble_universal(&arches, &slices).unwrap();
    let mut expected = Vec::new();
    for word in [FAT_MAGIC, 2, 7, 3, 64, 3, 4, 12, 3, 96, 5, 5] {
        expected.extend_from_slice(&word.to_be_bytes());
    }
    expected.resize(64, 0);
    expected.extend_from_slice(&[1, 2, 3]);
    expected.resize(96, 0);
    expected.extend_from_slice(&[4, 5, 6, 7, 8]);
    assert_eq!(file, expected);
    assert_eq!(FAT_MAGIC, 0xcafe_babe);
}

#[test]
fn universal_binary_moves_a_binary_that_has_no_room() {
    let arches = vec![arch(7, 4096, 100, 12), arch(12, 8192, 100, 12), arch(1, 12_288, 1, 2)];
    let slices = vec![vec![0xaa; 5000], vec![0xbb; 100], vec![0xcc; 1]];
    let file = assemble_universal(&arches, &slices).unwrap();
    let word = |at: usize| u32::from_be_bytes([file[at], file[at + 1], file[at + 2], file[at + 3]]);
    assert_eq!(word(4), 3);
    assert_eq!((word(8 + 8), word(8 + 12)), (4096, 5000));
    assert_eq!((word(28 + 8), word(28 + 12)), (12_288, 100));
    assert_eq!((word(48 + 8), word(48 + 12)), (12_388, 1));
    assert_eq!(&file[4096..9096], vec![0xaa; 5000].as_slice());
    assert!(file[9096..12_288].iter().all(|b| *b == 0));
    assert_eq!(&file[12_288..12_388], vec![0xbb; 100].as_slice());
    assert_eq!(file.len(), 12_389);
}

#[test]
fn universal_binary_that_cannot_be_put_together_is_refused() {
    assert_eq!(
        assemble_universal(&vec![arch(7, 64, 3, 4)], &vec![]),
        Err(CodesignError::BinaryMalformed)
    );
    assert_eq!(
        assemble_universal(&vec![arch(7, 64, 3, 32)], &vec![vec![1]]),
        Err(CodesignError::UnsupportedMachOVariant)
    );
    assert_eq!(
        assemble_universal(&vec![arch(7, u32::MAX - 2, 3, 0)], &vec![vec![1, 2, 3]]),
        Err(CodesignError::BlobTooLarge)
    );
    assert_eq!(assemble_universal(&vec![], &vec![]).unwrap(), vec![0xca, 0xfe, 0xba, 0xbe, 0, 0, 0, 0]);
}

#[test]
fn universal_binary_is_signed_binary_by_binary() {
    let first = macho(16_384, 0x0100_0007);
    let second = macho(8192 + 100, 0x0100_000c);
    let arches = vec![
        arch(0x0100_0007, 4096, first.len() as u32, 12),
        arch(0x0100_000c, 20_480, second.len() as u32, 12),
    ];
    let file = assemble_universal(&arches, &vec![first.clone(), second.clone()]).unwrap();
    assert_eq!(universal_slices(&file), Ok(arches.clone()));
    assert_eq!(universal_slices(&first), Ok(vec![]));
    assert_eq!(universal_slices(&[0u8; 3]), Err(CodesignError::BinaryMalformed));

    let signed = sign_file(&file, &settings("com.example.app"), None, NO_STAMP).unwrap();
    assert!(!signed.timestamp_omitted);
    let records = universal_slices(&signed.file).unwrap();
    assert_eq!(records.len(), 2);
    // The first binary keeps its offset; the second moves behind the first,
    // which has grown over the offset that the second had.
    assert_eq!(records[0].offset, 4096);
    assert_eq!(records[1].offset, 24_576);
    assert_eq!((records[0].cputype, records[1].cputype), (0x0100_0007, 0x0100_000c));
    assert_eq!((records[0].align, records[1].align), (12, 12));
    for (index, limit) in [(0usize, 16_384usize), (1, 8292)] {
        let slice = select_binary(&signed.file, index).unwrap();
        assert_eq!(slice.len(), records[index].size as usize);
        let view = MachoView::load(slice.to_vec()).unwrap();
        assert_eq!(view.signature_region(), Some((limit as u32, (slice.len() - limit) as u32)));
        let directory =
            parse_signature_data(&slice[limit..]).unwrap().code_directory().unwrap().unwrap();
        assert_eq!(directory.code_limit as usize, limit);
        assert_eq!(verify_view(&view), vec![]);
    }
}

#[test]
fn file_of_one_binary_is_signed_as_it_is() {
    let data = macho(16_384, 0x0100_0007);
    let view = MachoView::load(data.clone()).unwrap();
    let direct = sign_ad_hoc(&view, &settings("a")).unwrap();
    assert_eq!(sign_file(&data, &settings("a"), None, NO_STAMP).unwrap().file, direct);
    assert_eq!(sign_binary(&view, &settings("a"), None, NO_STAMP).unwrap().file, direct);
    assert_eq!(
        sign_file(&[1, 2, 3, 4, 5], &settings("a"), None, NO_STAMP),
        Err(CodesignError::BinaryMalformed)
    );
}

#[test]
fn signature_that_holds_has_no_problems() {
    let view = MachoView::load(macho(16_384, 0x0100_0007)).unwrap();
    assert_eq!(verify_view(&view), vec![VerificationProblem::NoSignature]);
    let signed = sign_ad_hoc(&view, &settings("a")).unwrap();
    let signed_view = MachoView::load(signed.clone()).unwrap();
    assert_eq!(verify_view(&signed_view), vec![]);
}

#[test]
fn signature_over_changed_code_has_a_problem() {
    let view = MachoView::load(macho(16_384, 0x0100_0007)).unwrap();
    let mut signed = sign_ad_hoc(&view, &settings("a")).unwrap();
    signed[5000] ^= 1;
    let changed = MachoView::load(signed.clone()).unwrap();
    assert_eq!(verify_view(&changed), vec![VerificationProblem::CodeHashMismatch(1)]);

    let directory = parse_signature_data(&signed[16_384..]).unwrap().code_directory().unwrap().unwrap();
    assert_eq!(
        verify_code_directory(&directory, &signed[..16_000]),
        vec![VerificationProblem::CodeLimitMismatch]
    );
    let mut fewer = parse_signature_data(&signed[16_384..]).unwrap().code_directory().unwrap().unwrap();
    fewer.code_hashes.pop();
    assert_eq!(
        verify_code_directory(&fewer, &signed[..16_384]),
        vec![VerificationProblem::CodeSlotCountMismatch]
    );
    let mut kind = parse_signature_data(&signed[16_384..]).unwrap().code_directory().unwrap().unwrap();
    kind.hash_type = DigestType::NoDigest;
    assert_eq!(
        verify_code_directory(&kind, &signed[..16_384]),
        vec![VerificationProblem::UnsupportedHash]
    );
}

#[test]
fn signature_that_cannot_be_read_has_a_problem() {
    let view = MachoView::load(macho(16_384, 0x0100_0007)).unwrap();
    let signed = sign_ad_hoc(&view, &settings("a")).unwrap();
    let mut magic = signed.clone();
    magic[16_384 + 3] = 0;
    assert_eq!(
        verify_view(&MachoView::load(magic).unwrap()),
        vec![VerificationProblem::SignatureUnreadable(CodesignError::BlobBadMagic)]
    );
    let mut slot = signed.clone();
    slot[16_384 + 15] = 9;
    assert_eq!(
        verify_view(&MachoView::load(slot).unwrap()),
        vec![VerificationProblem::NoCodeDirectory]
    );
    let mut version = signed.clone();
    version[16_384 + 20 + 9] = 0;
    assert_eq!(
        verify_view(&MachoView::load(version).unwrap()),
        vec![VerificationProblem::CodeDirectoryUnreadable(CodesignError::UnsupportedMachOVariant)]
    );
}

#[test]
fn settings_are_taken_from_the_signature_that_is_there() {
    let view = MachoView::load(macho(16_384, 0x0100_0007)).unwrap();
    let fresh = load_existing_signature_context(&view, b"fallback".to_vec()).unwrap();
    assert_eq!(fresh, settings("fallback"));

    let mut s = settings("com.example.app");
    s.directory.team_id = Some(b"TEAM".to_vec());
    s.directory.hash_type = DigestType::Sha1;
    s.add_code_signature_flags(0x1_0000);
    s.set_entitlements(b"<plist/>").unwrap();
    let signed = sign_ad_hoc(&view, &s).unwrap();
    let again =
        load_existing_signature_context(&MachoView::load(signed.clone()).unwrap(), b"fallback".to_vec())
            .unwrap();
    assert_eq!(again, s);

    let mut broken = signed.clone();
    broken[16_384 + 3] = 0;
    assert_eq!(
        load_existing_signature_context(&MachoView::load(broken).unwrap(), vec![]),
        Err(CodesignError::BlobBadMagic)
    );
}

fn universal(first: &[u8], second: &[u8]) -> Vec<u8> {
    let arches = vec![
        arch(0x0100_0007, 4096, first.len() as u32, 12),
        arch(0x0100_000c, 24_576, second.len() as u32, 12),
    ];
    assemble_universal(&arches, &vec![first.to_vec(), second.to_vec()]).unwrap()
}

#[test]
fn binaries_of_a_universal_binary_are_signed_independently() {
    let first = macho(16_384, 0x0100_0007);
    let second = macho(8192, 0x0100_000c);
    let mut changed = second.clone();
    changed[5000] ^= 0xff;
    let one = sign_file(&universal(&first, &second), &settings("a"), None, NO_STAMP).unwrap().file;
    let other = sign_file(&universal(&first, &changed), &settings("a"), None, NO_STAMP).unwrap().file;
    assert_ne!(one, other);
    assert_eq!(select_binary(&one, 0).unwrap(), select_binary(&other, 0).unwrap());
    assert_ne!(select_binary(&one, 1).unwrap(), select_binary(&other, 1).unwrap());
    let view = MachoView::load(first).unwrap();
    assert_eq!(select_binary(&one, 0).unwrap(), &sign_ad_hoc(&view, &settings("a")).unwrap()[..]);
}

#[test]
fn universal_binary_fails_with_the_error_of_its_first_binary_that_cannot_be_signed() {
    let first = macho(16_384, 0x0100_0007);
    let mut longer = macho(8192, 0x0100_000c);
    longer.extend_from_slice(&[0u8; 8]);
    let mut unread = macho(8192, 0x0100_000c);
    unread[0] = 0;
    assert_eq!(
        sign_file(&universal(&first, &longer), &settings("a"), None, NO_STAMP),
        Err(CodesignError::UnsupportedMachOVariant)
    );
    assert_eq!(
        sign_file(&universal(&unread, &longer), &settings("a"), None, NO_STAMP),
        Err(CodesignError::BinaryMalformed)
    );
    let mut beyond = universal(&first, &first);
    beyond.truncate(30_000);
    assert_eq!(
        sign_file(&beyond, &settings("a"), None, NO_STAMP),
        Err(CodesignError::BinaryMalformed)
    );
    let mut unhashed = settings("a");
    unhashed.directory.hash_type = DigestType::NoDigest;
    assert_eq!(
        sign_file(&universal(&first, &first), &unhashed, None, NO_STAMP),
        Err(CodesignError::UnsupportedHash)
    );
}

#[test]
fn container_is_told_by_the_magic_number() {
    let first = macho(16_384, 0x0100_0007);
    assert_eq!(parse_container(&first), Some(Container::Thin));
    let file = universal(&first, &first);
    assert_eq!(
        parse_container(&file),
        Some(Container::Fat(vec![
            arch(0x0100_0007, 4096, 16_384, 12),
            arch(0x0100_000c, 24_576, 16_384, 12),
        ]))
    );
    // The records are read from the header alone.
    assert_eq!(parse_container(&file[..48]), parse_container(&file));
    assert_eq!(parse_container(&file[..47]), None);
    assert_eq!(parse_container(&file[..7]), None);
    assert_eq!(parse_container(&[0xca, 0xfe, 0xba, 0xbe, 0, 0, 0, 0]), Some(Container::Fat(vec![])));
    assert_eq!(parse_container(&[1, 2, 3, 4, 5, 6, 7, 8]), None);
    assert_eq!(parse_container(&[]), None);
}

#[test]
fn every_binary_of_a_file_is_verified() {
    let first = macho(16_384, 0x0100_0007);
    let second = macho(8192, 0x0100_000c);
    let file = universal(&first, &second);
    assert_eq!(
        verify_file(&file),
        vec![VerificationProblem::NoSignature, VerificationProblem::NoSignature]
    );
    let signed = sign_file(&file, &settings("a"), None, NO_STAMP).unwrap().file;
    assert_eq!(verify_file(&signed), vec![]);
    assert_eq!(verification_outcome(&verify_file(&signed)), Ok(()));
    assert_eq!(
        verification_outcome(&verify_file(&file)),
        Err(CodesignError::VerificationProblems)
    );

    // A change in the second binary is found, though the first holds.
    let records = universal_slices(&signed).unwrap();
    let mut changed = signed.clone();
    changed[records[1].offset as usize + 5000] ^= 1;
    assert_eq!(verify_file(&changed), vec![VerificationProblem::CodeHashMismatch(1)]);

    let mut cut = signed.clone();
    cut.truncate(signed.len() - 1);
    assert_eq!(
        verify_file(&cut),
        vec![VerificationProblem::BinaryUnreadable(CodesignError::BinaryMalformed)]
    );
    assert_eq!(
        verify_file(&[1, 2, 3]),
        vec![VerificationProblem::BinaryUnreadable(CodesignError::BinaryMalformed)]
    );
    assert_eq!(verify_binary(&first), vec![VerificationProblem::NoSignature]);
    assert_eq!(
        verify_binary(&first[..20]),
        vec![VerificationProblem::BinaryUnreadable(CodesignError::BinaryMalformed)]
    );
    let alone = select_binary(&signed, 0).unwrap();
    assert_eq!(verify_file(alone), vec![]);
    assert_eq!(verify_binary(alone), vec![]);
}

fn self_signed() -> apple_codesign::identity::SigningMaterial {
    let mut builder = x509_certificate::X509CertificateBuilder::default();
    builder.subject().append_common_name_utf8_string("signer").unwrap();
    let (certificate, key) = builder
        .create_with_random_keypair(x509_certificate::KeyAlgorithm::Ecdsa(
            x509_certificate::EcdsaCurve::Secp256r1,
        ))
        .unwrap();
    apple_codesign::identity::SigningMaterial {
        private_key: Some(key.to_pkcs8_one_asymmetric_key_der().to_vec()),
        certificates: vec![certificate.constructed_data().to_vec()],
    }
}

fn no_token(
    _: &[u8],
    _: &x509_certificate::InMemorySigningKeyPair,
    _: &x509_certificate::CapturedX509Certificate,
    _: &Vec<x509_certificate::CapturedX509Certificate>,
) -> Result<Vec<u8>, CodesignError> {
    Err(CodesignError::TimestampUnreachable)
}

#[test]
fn universal_binary_is_signed_with_a_key_binary_by_binary() {
    let first = macho(16_384, 0x0100_0007);
    let second = macho(8192, 0x0100_000c);
    let file = universal(&first, &second);
    let material = self_signed();
    let signed = sign_file(&file, &settings("a"), Some(&material), NO_STAMP).unwrap();
    assert!(!signed.timestamp_omitted);
    for index in [0usize, 1] {
        let slice = select_binary(&signed.file, index).unwrap();
        let view = MachoView::load(slice.to_vec()).unwrap();
        assert_eq!(verify_view(&view), vec![]);
        let signature = parse_signature_data(view.signature_data().unwrap()).unwrap();
        assert!(signature.signature_data().unwrap().is_some());
    }
    assert_eq!(&select_binary(&signed.file, 0).unwrap()[..16], &first[..16]);

    // Without a token every binary is signed again without time stamp.
    let stamper: Stamper = no_token;
    let signed = sign_file(&file, &settings("a"), Some(&material), Some(&stamper)).unwrap();
    assert!(signed.timestamp_omitted);
    assert_eq!(verify_file(&signed.file), vec![]);

    // Where the first binary cannot be signed, nothing is asked of the key.
    let mut longer = first.clone();
    longer.extend_from_slice(&[0u8; 8]);
    let bad_key = apple_codesign::identity::SigningMaterial {
        private_key: Some(vec![1, 2, 3]),
        certificates: material.certificates.clone(),
    };
    assert_eq!(
        sign_file(&universal(&longer, &second), &settings("a"), Some(&bad_key), NO_STAMP),
        Err(CodesignError::UnsupportedMachOVariant)
    );
    assert_eq!(
        sign_file(&file, &settings("a"), Some(&bad_key), NO_STAMP),
        Err(CodesignError::PrivateKeyMalformed)
    );
}

#[test]
fn universal_binary_without_binaries_is_its_header() {
    let header = vec![0xca, 0xfe, 0xba, 0xbe, 0, 0, 0, 0];
    let material = self_signed();
    let stamper: Stamper = no_token;
    for (key, stamp) in [
        (None, NO_STAMP),
        (Some(&material), NO_STAMP),
        (Some(&material), Some(&stamper)),
    ] {
        let signed = sign_file(&header, &settings("a"), key, stamp).unwrap();
        assert_eq!(signed.file, header);
        assert!(!signed.timestamp_omitted);
    }
    // The header that counts a binary and holds none is no container.
    let counted = vec![0xca, 0xfe, 0xba, 0xbe, 0, 0, 0, 1];
    assert_eq!(parse_container(&counted), None);
    assert_eq!(
        sign_file(&counted, &settings("a"), Some(&material), NO_STAMP),
        Err(CodesignError::BinaryMalformed)
    );
}

#[test]
fn later_binary_without_token_does_not_end_the_signing() {
    let first = macho(16_384, 0x0100_0007);
    let second = macho(8192, 0x0100_000c);
    let file = universal(&first, &second);
    let material = self_signed();
    let calls = std::cell::Cell::new(0u32);
    let stamper = |message: &[u8],
                   key: &x509_certificate::InMemorySigningKeyPair,
                   certificate: &x509_certificate::CapturedX509Certificate,
                   chain: &Vec<x509_certificate::CapturedX509Certificate>| {
        calls.set(calls.get() + 1);
        if calls.get() == 1 {
            let signer =
                cryptographic_message_syntax::SignerBuilder::new(key, certificate.clone());
            cryptographic_message_syntax::SignedDataBuilder::default()
                .content_inline(message.to_vec())
                .signer(signer)
                .certificates(chain.iter().cloned())
                .build_der()
                .map_err(|_| CodesignError::SigningFailed)
        } else {
            Err(CodesignError::TimestampUnreachable)
        }
    };
    let signed = sign_file(&file, &settings("a"), Some(&material), Some(&stamper)).unwrap();
    assert_eq!(calls.get(), 2);
    assert!(signed.timestamp_omitted);
    assert_eq!(verify_file(&signed.file), vec![]);
}
