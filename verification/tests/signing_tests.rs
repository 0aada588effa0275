use apple_codesign::code_directory::CodeDirectory;
use apple_codesign::digest::DigestType;
use apple_codesign::embedded_signature::{parse_signature_data, EmbeddedSignature};
use apple_codesign::error::CodesignError;
use apple_codesign::identity::{sign_with_key, SigningMaterial};
use apple_codesign::macho::{MachoShape, SignatureRegion};
use apple_codesign::macho_layout::{write_signed_code, write_signed_file};
use apple_codesign::macho_load::{
    read_records, select_binary, view_from_records, LoadCommandRecord, MachoView,
};
use apple_codesign::requirement::Expression;
use apple_codesign::signing::{finish, prepare, sign_ad_hoc, SigningSettings};
use apple_codesign::superblob::CodeSigningSlot;

type Stamper = fn(
    &[u8],
    &x509_certificate::InMemorySigningKeyPair,
    &x509_certificate::CapturedX509Certificate,
    &Vec<x509_certificate::CapturedX509Certificate>,
) -> Result<Vec<u8>, CodesignError>;

const NO_STAMP: Option<&Stamper> = None;

/// Makes the CMS signature with a time-stamp token of the server at `url`.
fn stamped_at(
    url: &'static str,
) -> impl Fn(
    &[u8],
    &x509_certificate::InMemorySigningKeyPair,
    &x509_certificate::CapturedX509Certificate,
    &Vec<x509_certificate::CapturedX509Certificate>,
) -> Result<Vec<u8>, CodesignError> {
    move |message: &[u8],
          key: &x509_certificate::InMemorySigningKeyPair,
          certificate: &x509_certificate::CapturedX509Certificate,
          chain: &Vec<x509_certificate::CapturedX509Certificate>| {
        let signer = cryptographic_message_syntax::SignerBuilder::new(key, certificate.clone())
            .time_stamp_url(url)
            .map_err(|_| CodesignError::CliBadArgument)?;
        let builder = cryptographic_message_syntax::SignedDataBuilder::default()
            .content_inline(message.to_vec())
            .signer(signer)
            .certificates(chain.iter().cloned());
        match builder.build_der() {
            Ok(der) => Ok(der),
            Err(cryptographic_message_syntax::CmsError::TimeStampProtocol(_)) => {
                Err(CodesignError::TimestampUnreachable)
            }
            Err(_) => Err(CodesignError::SigningFailed),
        }
    }
}

fn put32(out: &mut Vec<u8>, v: u32) {
    out.extend_from_slice(&v.to_le_bytes());
}

fn put64(out: &mut Vec<u8>, v: u64) {
    out.extend_from_slice(&v.to_le_bytes());
}

fn put_name(out: &mut Vec<u8>, name: &str) {
    let mut bytes = name.as_bytes().to_vec();
    bytes.resize(16, 0);
    out.extend_from_slice(&bytes);
}

/// A 64-bit executable of `len` bytes with a `__TEXT` segment of one
/// section, whose content begins at `section_offset`, and a `__LINKEDIT`
/// segment that takes the second half of the file.
fn macho(len: usize, section_offset: u32) -> Vec<u8> {
    let half = (len / 2) as u64;
    let mut out = Vec::new();
    put32(&mut out, 0xfeed_facf);
    put32(&mut out, 0x0100_0007);
    put32(&mut out, 3);
    put32(&mut out, 2);
    put32(&mut out, 2);
    put32(&mut out, 224);
    put32(&mut out, 0);
    put32(&mut out, 0);
    put32(&mut out, 0x19);
    put32(&mut out, 152);
    put_name(&mut out, "__TEXT");
    put64(&mut out, 0x1_0000_0000);
    put64(&mut out, half);
    put64(&mut out, 0);
    put64(&mut out, half);
    put32(&mut out, 7);
    put32(&mut out, 5);
    put32(&mut out, 1);
    put32(&mut out, 0);
    put_name(&mut out, "__text");
    put_name(&mut out, "__TEXT");
    put64(&mut out, 0x1_0000_0000 + section_offset as u64);
    put64(&mut out, 0x100);
    put32(&mut out, section_offset);
    put32(&mut out, 4);
    put32(&mut out, 0);
    put32(&mut out, 0);
    put32(&mut out, 0x8000_0400);
    put32(&mut out, 0);
    put32(&mut out, 0);
    put32(&mut out, 0);
    put32(&mut out, 0x19);
    put32(&mut out, 72);
    put_name(&mut out, "__LINKEDIT");
    put64(&mut out, 0x1_0000_0000 + half);
    put64(&mut out, half);
    put64(&mut out, half);
    put64(&mut out, len as u64 - half);
    put32(&mut out, 1);
    put32(&mut out, 1);
    put32(&mut out, 0);
    put32(&mut out, 0);
    assert_eq!(out.len(), 256);
    let mut i = out.len();
    while i < len {
        out.push((i % 251) as u8);
        i += 1;
    }
    out
}

fn settings(identifier: &str) -> SigningSettings {
    SigningSettings::new(identifier.as_bytes().to_vec())
}

fn word(data: &[u8], at: usize) -> u32 {
    u32::from_le_bytes([data[at], data[at + 1], data[at + 2], data[at + 3]])
}

fn long(data: &[u8], at: usize) -> u64 {
    let mut bytes = [0u8; 8];
    bytes.copy_from_slice(&data[at..at + 8]);
    u64::from_le_bytes(bytes)
}

#[test]
fn load_reads_the_shape_of_a_binary() {
    let view = MachoView::load(macho(131_072, 0x1000)).unwrap();
    assert_eq!(
        view.shape.unwrap(),
        MachoShape {
            file_len: 131_072,
            is_64: true,
            little_endian: true,
            ncmds: 2,
            sizeofcmds: 224,
            commands_limit: 0x1000,
            linkedit_command_offset: 184,
            linkedit_fileoff: 65_536,
            linkedit_filesize: 65_536,
            linkedit_vmsize: 65_536,
            signature: None,
        }
    );
    assert!(view.shape.unwrap().is_valid());
    assert!(view.is_well_formed());
    assert_eq!(view.linkedit_index, Some(1));
    assert_eq!(view.segments().len(), 2);
    assert_eq!(&view.segments()[1].name[..10], b"__LINKEDIT");
    assert_eq!(view.signature_region(), None);
    assert_eq!(view.shape.unwrap().code_limit(), 131_072);
    assert_eq!(view.signature_data(), Err(CodesignError::NoSignatureRegion));
    assert_eq!(view.segment_info(), Err(CodesignError::NoSignatureRegion));
}

#[test]
fn load_refuses_what_is_no_binary() {
    assert_eq!(MachoView::load(vec![]), Err(CodesignError::BinaryMalformed));
    assert_eq!(MachoView::load(vec![1, 2, 3, 4, 5, 6, 7, 8]), Err(CodesignError::BinaryMalformed));
}

#[test]
fn binary_whose_linkedit_does_not_end_the_file_loads_and_is_not_signed() {
    let mut data = macho(131_072, 0x1000);
    data.extend_from_slice(&[0u8; 16]);
    let view = MachoView::load(data.clone()).unwrap();
    assert!(view.is_well_formed());
    assert_eq!(view.shape, Err(CodesignError::UnsupportedMachOVariant));
    assert_eq!(view.linkedit_index, Some(1));
    assert_eq!(view.signature_data(), Err(CodesignError::NoSignatureRegion));
    assert_eq!(view.code(), Ok(&data[..]));
    assert_eq!(view.prepare_for_signature(100), Err(CodesignError::UnsupportedMachOVariant));
    assert_eq!(view.linkedit_data(), Err(CodesignError::UnsupportedMachOVariant));
    assert_eq!(
        sign_ad_hoc(&view, &settings("a")),
        Err(CodesignError::UnsupportedMachOVariant)
    );
    assert_eq!(
        prepare(&view, &settings("a"), None).err(),
        Some(CodesignError::UnsupportedMachOVariant)
    );
}

/// A 64-bit executable that holds its header and nothing else.
fn bare_header() -> Vec<u8> {
    let mut out = Vec::new();
    put32(&mut out, 0xfeed_facf);
    put32(&mut out, 0x0100_0007);
    put32(&mut out, 3);
    put32(&mut out, 2);
    put32(&mut out, 0);
    put32(&mut out, 0);
    put32(&mut out, 0);
    put32(&mut out, 0);
    out
}

#[test]
fn binary_without_load_commands_has_a_view_and_no_signature() {
    let data = bare_header();
    assert_eq!(data.len(), 32);
    let view = MachoView::load(data.clone()).unwrap();
    assert!(view.is_well_formed());
    assert_eq!(view.segments().len(), 0);
    assert_eq!(view.linkedit_index, None);
    assert_eq!(view.signature, None);
    assert_eq!(view.signature_region(), None);
    assert_eq!(view.shape, Err(CodesignError::UnsupportedMachOVariant));
    assert_eq!(view.signature_data(), Err(CodesignError::NoSignatureRegion));
    assert_eq!(view.segment_info(), Err(CodesignError::NoSignatureRegion));
    assert_eq!(view.code(), Ok(&data[..]));
    assert_eq!(select_binary(&data, 0), Ok(&data[..]));
    assert_eq!(
        apple_codesign::verify::verify_view(&view),
        vec![apple_codesign::verify::VerificationProblem::NoSignature]
    );
    assert_eq!(
        sign_ad_hoc(&view, &settings("a")),
        Err(CodesignError::UnsupportedMachOVariant)
    );
}

#[test]
fn header_whose_counts_cannot_be_true_is_refused() {
    let mut data = bare_header();
    data[16] = 1;
    assert_eq!(MachoView::load(data.clone()), Err(CodesignError::BinaryMalformed));
    data[20] = 8;
    assert_eq!(MachoView::load(data.clone()), Err(CodesignError::BinaryMalformed));
    data.truncate(31);
    assert_eq!(MachoView::load(data), Err(CodesignError::BinaryMalformed));
}

#[test]
fn entry_point_in_front_of_the_text_segment_does_not_stop_loading() {
    // LC_MAIN with a __TEXT segment whose file offset is above its address.
    let mut out = Vec::new();
    put32(&mut out, 0xfeed_facf);
    put32(&mut out, 0x0100_0007);
    put32(&mut out, 3);
    put32(&mut out, 2);
    put32(&mut out, 2);
    put32(&mut out, 72 + 24);
    put32(&mut out, 0);
    put32(&mut out, 0);
    put32(&mut out, 0x19);
    put32(&mut out, 72);
    put_name(&mut out, "__TEXT");
    put64(&mut out, 0);
    put64(&mut out, 64);
    put64(&mut out, 64);
    put64(&mut out, 64);
    put32(&mut out, 7);
    put32(&mut out, 5);
    put32(&mut out, 0);
    put32(&mut out, 0);
    put32(&mut out, 0x8000_0028);
    put32(&mut out, 24);
    put64(&mut out, 0);
    put64(&mut out, 0);
    assert_eq!(out.len(), 128);
    let view = MachoView::load(out.clone()).unwrap();
    assert_eq!(view.segments().len(), 1);
    assert_eq!(view.segments()[0].fileoff, 64);
    assert_eq!(view.segments()[0].vmaddr, 0);
    assert_eq!(view.signature_data(), Err(CodesignError::NoSignatureRegion));
    assert_eq!(select_binary(&out, 0), Ok(&out[..]));
}

#[test]
fn ad_hoc_signature_of_a_binary_of_32_pages() {
    let data = macho(131_072, 0x1000);
    let view = MachoView::load(data.clone()).unwrap();
    let signed = sign_ad_hoc(&view, &settings("com.example.app")).unwrap();

    let signature = parse_signature_data(&signed[131_072..]).unwrap();
    assert_eq!(signature.blobs.len(), 1);
    assert_eq!(signature.blobs[0].slot(), CodeSigningSlot::CodeDirectory);
    assert!(signature.find_slot(CodeSigningSlot::Signature).is_none());
    assert_eq!(signature.signature_data(), Ok(None));
    assert_eq!(signature.code_requirements(), Ok(None));

    let directory = signature.code_directory().unwrap().unwrap();
    assert_eq!(directory.code_hashes.len(), 32);
    assert_eq!(directory.code_limit, 131_072);
    assert_eq!(directory.hash_type, DigestType::Sha256);
    assert_eq!(directory.hash_size, 32);
    assert_eq!(directory.page_size_log2, 12);
    assert_eq!(directory.identifier, b"com.example.app".to_vec());
    assert_eq!(directory.special_hashes.len(), 0);
    assert_eq!(directory.version, 0x2_0100);
    for (page, hash) in directory.code_hashes.iter().enumerate() {
        let expected = DigestType::Sha256.digest(&signed[page * 4096..(page + 1) * 4096]).unwrap();
        assert_eq!(hash, &expected);
    }

    // The length of the blob: header, identifier with terminator, hashes.
    let directory_len = 48 + 16 + 32 * 32;
    assert_eq!(signature.blobs[0].data.len(), directory_len);
    assert_eq!(signed.len(), 131_072 + 12 + 8 + directory_len);
}

#[test]
fn signed_binary_names_its_signature_at_the_code_limit() {
    let data = macho(131_072, 0x1000);
    let view = MachoView::load(data.clone()).unwrap();
    let signed = sign_ad_hoc(&view, &settings("com.example.app")).unwrap();
    let size = (signed.len() - 131_072) as u32;

    // The counts of load commands.
    assert_eq!(word(&signed, 16), 3);
    assert_eq!(word(&signed, 20), 240);
    // The command is added behind the others.
    assert_eq!(word(&signed, 256), 0x1d);
    assert_eq!(word(&signed, 260), 16);
    assert_eq!(word(&signed, 264), 131_072);
    assert_eq!(word(&signed, 268), size);
    // The sizes of `__LINKEDIT`: in memory rounded up to a page, and in the file.
    assert_eq!(long(&signed, 184 + 48), 65_536 + size as u64);
    assert_eq!(long(&signed, 184 + 32), 65_536 + 4096);
    assert_eq!(long(&signed, 184 + 40), 65_536);

    // Every other byte in front of the signature stays.
    for i in 0..131_072 {
        let rewritten = (16..24).contains(&i)
            || (256..272).contains(&i)
            || (216..224).contains(&i)
            || (232..240).contains(&i);
        if !rewritten {
            assert_eq!(signed[i], data[i], "byte {}", i);
        }
    }

    let again = MachoView::load(signed.clone()).unwrap();
    assert_eq!(again.signature_region(), Some((131_072, size)));
    assert_eq!(again.shape.unwrap().code_limit(), 131_072);
    assert_eq!(
        again.signature,
        Some(SignatureRegion { offset: 131_072, size, command_offset: 256 })
    );
    assert_eq!(again.signature_data().unwrap(), &signed[131_072..]);
    let info = again.segment_info().unwrap();
    assert_eq!(info.segments_count, 2);
    assert_eq!(info.linkedit_segment_index, 1);
    assert_eq!(info.linkedit_segment_start_offset, 65_536);
    assert_eq!(info.linkedit_segment_end_offset, signed.len() as u32);
    assert_eq!(info.linkedit_signature_start_offset, 131_072);
    assert_eq!(info.linkedit_signature_end_offset, signed.len() as u32);
    assert_eq!(info.signature_start_offset, 65_536);
    assert_eq!(info.signature_size, size);
}

#[test]
fn signing_again_replaces_the_signature_where_it_stands() {
    let data = macho(131_072, 0x1000);
    let view = MachoView::load(data).unwrap();
    let first = sign_ad_hoc(&view, &settings("com.example.an.identifier.of.some.length")).unwrap();

    // A smaller signature: the file and `__LINKEDIT` shrink.
    let signed_view = MachoView::load(first.clone()).unwrap();
    let smaller = sign_ad_hoc(&signed_view, &settings("a")).unwrap();
    assert_eq!(first.len() - smaller.len(), "com.example.an.identifier.of.some.length".len() - 1);
    assert_eq!(word(&smaller, 16), 3);
    assert_eq!(word(&smaller, 20), 240);
    assert_eq!(word(&smaller, 264), 131_072);
    assert_eq!(word(&smaller, 268), (smaller.len() - 131_072) as u32);
    assert_eq!(long(&smaller, 184 + 48), (smaller.len() - 65_536) as u64);
    let reloaded = MachoView::load(smaller.clone()).unwrap();
    assert_eq!(reloaded.signature_region(), Some((131_072, (smaller.len() - 131_072) as u32)));
    let directory = parse_signature_data(&smaller[131_072..])
        .unwrap()
        .code_directory()
        .unwrap()
        .unwrap();
    assert_eq!(directory.code_limit, 131_072);
    assert_eq!(directory.code_hashes.len(), 32);

    // A larger one: they grow.
    let larger = sign_ad_hoc(&reloaded, &settings("a.much.longer.identifier")).unwrap();
    assert_eq!(larger.len() - smaller.len(), "a.much.longer.identifier".len() - 1);
    assert_eq!(word(&larger, 268), (larger.len() - 131_072) as u32);
    assert_eq!(&larger[272..131_072], &first[272..131_072]);
}

#[test]
fn plan_of_a_signature() {
    let view = MachoView::load(macho(131_072, 0x1000)).unwrap();
    let layout = view.shape.unwrap().prepare_for_signature(5000).unwrap();
    assert_eq!(layout.code_limit, 131_072);
    assert_eq!(layout.signature_size, 5000);
    assert_eq!(layout.file_len, 136_072);
    assert_eq!(layout.linkedit_filesize, 70_536);
    assert_eq!(layout.linkedit_vmsize, 73_728);
    assert_eq!(layout.command_offset, 256);
    assert!(layout.command_is_new);
    assert_eq!(layout.ncmds, 3);
    assert_eq!(layout.sizeofcmds, 240);

    assert_eq!(view.prepare_for_signature(5000), Ok(layout));
    let exact = view.shape.unwrap().prepare_for_signature(4096).unwrap();
    assert_eq!(exact.linkedit_vmsize, 65_536 + 4096);

    let code = write_signed_code(&view.data, &view.shape.unwrap(), &layout);
    assert_eq!(code.len(), 131_072);
    let file = write_signed_file(code, &layout, &[1, 2, 3]);
    assert_eq!(file.len(), 136_072);
    assert_eq!(&file[131_072..131_075], &[1, 2, 3]);
    assert!(file[131_075..].iter().all(|b| *b == 0));
}

#[test]
fn plan_without_room_for_the_load_command_overflows() {
    let view = MachoView::load(macho(131_072, 256 + 8)).unwrap();
    assert_eq!(view.shape.unwrap().commands_limit, 264);
    assert_eq!(
        view.shape.unwrap().prepare_for_signature(100),
        Err(CodesignError::LoadCommandOverflow)
    );
    assert_eq!(
        sign_ad_hoc(&view, &settings("a")),
        Err(CodesignError::LoadCommandOverflow)
    );
    let exact = MachoView::load(macho(131_072, 256 + 16)).unwrap();
    assert!(exact.shape.unwrap().prepare_for_signature(100).is_ok());
}

#[test]
fn plan_of_a_file_longer_than_a_u32_counts_is_refused() {
    let view = MachoView::load(macho(131_072, 0x1000)).unwrap();
    assert_eq!(
        view.shape.unwrap().prepare_for_signature(u32::MAX - 131_071),
        Err(CodesignError::BlobTooLarge)
    );
    assert!(view.shape.unwrap().prepare_for_signature(u32::MAX - 131_072).is_ok());
}

#[test]
fn code_limit_that_is_a_multiple_of_the_page_size_has_no_short_page() {
    let view = MachoView::load(macho(8192, 0x200)).unwrap();
    let signed = sign_ad_hoc(&view, &settings("a")).unwrap();
    let directory = parse_signature_data(&signed[8192..]).unwrap().code_directory().unwrap().unwrap();
    assert_eq!(directory.code_hashes.len(), 2);
    assert_eq!(directory.code_hashes[1], DigestType::Sha256.digest(&signed[4096..8192]).unwrap());
}

#[test]
fn code_limit_that_is_no_multiple_of_the_page_size_has_a_short_page() {
    let view = MachoView::load(macho(8192 + 10, 0x200)).unwrap();
    let signed = sign_ad_hoc(&view, &settings("a")).unwrap();
    let directory = parse_signature_data(&signed[8202..]).unwrap().code_directory().unwrap().unwrap();
    assert_eq!(directory.code_hashes.len(), 3);
    assert_eq!(directory.code_hashes[2], DigestType::Sha256.digest(&signed[8192..8202]).unwrap());
}

#[test]
fn signature_with_requirements_and_entitlements() {
    let view = MachoView::load(macho(16_384, 0x400)).unwrap();
    let mut s = settings("com.example.app");
    let requirement = Expression::And(
        Box::new(Expression::Ident(b"com.example.app".to_vec())),
        Box::new(Expression::AppleAnchor),
    );
    s.set_designated_code_requirements(&requirement).unwrap();
    s.set_entitlements(b"<plist/>").unwrap();
    s.code_resources_data(b"resources");
    s.info_plist_data(b"info");
    s.add_code_signature_flags(0x2);
    s.add_code_signature_flags(0x1_0000);
    let signed = sign_ad_hoc(&view, &s).unwrap();

    let signature = EmbeddedSignature::parse(&signed[16_384..]).unwrap();
    let slots: Vec<CodeSigningSlot> = signature.blobs.iter().map(|b| b.slot()).collect();
    assert_eq!(
        slots,
        vec![
            CodeSigningSlot::CodeDirectory,
            CodeSigningSlot::RequirementSet,
            CodeSigningSlot::Entitlements
        ]
    );

    // The designated requirement is read back and printed as it was given.
    let set = signature.code_requirements().unwrap().unwrap();
    assert_eq!(set.requirements.len(), 1);
    assert_eq!(set.requirements[0].kind, 3);
    assert_eq!(
        set.requirements[0].expression.display(),
        "identifier \"com.example.app\" and anchor apple"
    );

    // The special slots, from the highest down in the blob and by slot here.
    let directory = signature.code_directory().unwrap().unwrap();
    assert_eq!(directory.flags, 0x1_0002);
    assert_eq!(directory.special_hashes.len(), 5);
    let sha256 = |data: &[u8]| DigestType::Sha256.digest(data).unwrap();
    assert_eq!(directory.special_hashes[0], sha256(b"info"));
    assert_eq!(directory.special_hashes[1], sha256(&signature.blobs[1].data));
    assert_eq!(directory.special_hashes[2], sha256(b"resources"));
    assert_eq!(directory.special_hashes[3], vec![0u8; 32]);
    assert_eq!(directory.special_hashes[4], sha256(&signature.blobs[2].data));
    assert_eq!(signature.blobs[1].digest_with(DigestType::Sha256), Ok(sha256(&signature.blobs[1].data)));
    assert_eq!(&signature.blobs[2].data[..4], &[0xfa, 0xde, 0x71, 0x71]);
    assert_eq!(&signature.blobs[2].data[8..], b"<plist/>");

    let infos = signature.describe().unwrap();
    assert_eq!(infos.len(), 3);
    assert_eq!(infos[0].offset, 12 + 24);
    assert_eq!(infos[0].length, signature.blobs[0].data.len());
    assert_eq!(infos[0].end_offset, infos[0].offset + infos[0].length - 1);
    assert_eq!(infos[0].magic, 0xfade_0c02);
    assert_eq!(infos[1].offset, infos[0].offset + infos[0].length);
    assert_eq!(infos[1].slot, CodeSigningSlot::RequirementSet);
    assert_eq!(infos[2].index, 2);
    assert_eq!(infos[2].magic, 0xfade_7171);
    assert_eq!(infos[2].end_offset + 1, signed.len() - 16_384);
}

#[test]
fn placeholder_of_9000_bytes_is_padded_with_zero_bytes() {
    let view = MachoView::load(macho(16_384, 0x400)).unwrap();
    let prepared = prepare(&view, &settings("a"), Some(9000)).unwrap();
    let directory = prepared.directory_bytes().clone();
    let layout = prepared.layout();
    assert_eq!(prepared.reserved(), Some(9000));
    assert_eq!(prepared.code_bytes().len(), 16_384);
    assert_eq!(layout.signature_size as usize, 12 + 16 + directory.len() + 8 + 9000);

    let cms = vec![0x5a; 7421];
    let signed = finish(prepared, Some(&cms)).unwrap();
    assert_eq!(signed.len(), layout.file_len as usize);

    let signature = parse_signature_data(&signed[16_384..]).unwrap();
    assert_eq!(signature.blobs.len(), 2);
    assert_eq!(signature.blobs[1].slot(), CodeSigningSlot::Signature);
    assert_eq!(signature.blobs[1].data.len(), 9008);
    let payload = signature.signature_data().unwrap().unwrap();
    assert_eq!(payload.len(), 9000);
    assert_eq!(&payload[..7421], cms.as_slice());
    assert!(payload[7421..].iter().all(|b| *b == 0));
    // The code directory is the one that was built before the signature came.
    assert_eq!(signature.blobs[0].data, directory);
    assert_eq!(CodeDirectory::from_blob_bytes(&directory).unwrap().code_limit, 16_384);
}

#[test]
fn signature_of_exactly_the_reserved_size_is_not_padded() {
    let view = MachoView::load(macho(16_384, 0x400)).unwrap();
    let prepared = prepare(&view, &settings("a"), Some(9000)).unwrap();
    let cms: Vec<u8> = (0..9000).map(|i| (i % 255 + 1) as u8).collect();
    let signed = finish(prepared, Some(&cms)).unwrap();
    let signature = parse_signature_data(&signed[16_384..]).unwrap();
    assert_eq!(signature.signature_data().unwrap().unwrap(), cms.as_slice());
}

#[test]
fn signature_longer_than_the_reserved_size_is_refused() {
    let view = MachoView::load(macho(16_384, 0x400)).unwrap();
    let prepared = prepare(&view, &settings("a"), Some(9000)).unwrap();
    assert_eq!(finish(prepared, Some(&vec![1u8; 9001])), Err(CodesignError::SignatureTooLarge));
}

#[test]
fn reserved_size_without_signature_fails() {
    let view = MachoView::load(macho(16_384, 0x400)).unwrap();
    let prepared = prepare(&view, &settings("a"), Some(100)).unwrap();
    assert_eq!(finish(prepared, None), Err(CodesignError::SigningFailed));
}

#[test]
fn resize_after_the_code_directory_is_built_is_refused() {
    let view = MachoView::load(macho(16_384, 0x400)).unwrap();
    let prepared = prepare(&view, &settings("a"), Some(100)).unwrap();
    assert_eq!(prepared.resize(100), Ok(()));
    assert_eq!(prepared.resize(99), Err(CodesignError::PlaceholderShrink));
    assert_eq!(prepared.resize(101), Err(CodesignError::PlaceholderShrink));
    let unsigned = prepare(&view, &settings("a"), None).unwrap();
    assert_eq!(unsigned.resize(0), Err(CodesignError::PlaceholderShrink));
    assert_eq!(finish(unsigned, Some(&[1, 2, 3])), Err(CodesignError::PlaceholderShrink));
}

#[test]
fn settings_that_cannot_be_signed_with_are_refused() {
    let view = MachoView::load(macho(16_384, 0x400)).unwrap();
    assert_eq!(
        sign_ad_hoc(&view, &SigningSettings::new(vec![b'a', 0, b'b'])),
        Err(CodesignError::CliBadArgument)
    );
    let mut s = settings("a");
    s.directory.hash_type = DigestType::NoDigest;
    assert_eq!(sign_ad_hoc(&view, &s), Err(CodesignError::UnsupportedHash));
    let mut s = settings("a");
    s.requirements = Some(vec![0xfa, 0xde, 0x0c, 0x01, 0, 0, 0, 99]);
    assert_eq!(sign_ad_hoc(&view, &s), Err(CodesignError::BlobTruncated));
    let mut s = settings("a");
    s.entitlements = Some(vec![1, 2, 3]);
    assert_eq!(sign_ad_hoc(&view, &s), Err(CodesignError::BlobTruncated));
}

#[test]
fn signature_lengths_are_known_before_anything_is_hashed() {
    let s = settings("abc");
    // Header, index, a code directory of 48 + 4 + 3 * 32 bytes.
    assert_eq!(s.signature_len(8193, None), Some(20 + 48 + 4 + 96));
    assert_eq!(s.signature_len(8193, Some(100)), Some(20 + 48 + 4 + 96 + 116));
    assert_eq!(s.signature_len(0, None), Some(20 + 48 + 4));
    assert_eq!(s.signature_len(8193, Some(u32::MAX)), None);
    assert_eq!(s.validate(), Ok(()));
}

fn self_signed(curve: x509_certificate::EcdsaCurve) -> SigningMaterial {
    let mut builder = x509_certificate::X509CertificateBuilder::default();
    builder.subject().append_common_name_utf8_string("signer").unwrap();
    let (certificate, key) = builder
        .create_with_random_keypair(x509_certificate::KeyAlgorithm::Ecdsa(curve))
        .unwrap();
    SigningMaterial {
        private_key: Some(key.to_pkcs8_one_asymmetric_key_der().to_vec()),
        certificates: vec![certificate.constructed_data().to_vec()],
    }
}

fn der_len(bytes: &[u8]) -> usize {
    assert_eq!(bytes[0], 0x30);
    match bytes[1] {
        n if n < 0x80 => 2 + n as usize,
        0x81 => 3 + bytes[2] as usize,
        0x82 => 4 + ((bytes[2] as usize) << 8 | bytes[3] as usize),
        _ => panic!("length of more than two bytes"),
    }
}

#[test]
fn signature_with_a_key_held_in_memory() {
    let view = MachoView::load(macho(131_072, 0x1000)).unwrap();
    let material = self_signed(x509_certificate::EcdsaCurve::Secp256r1);
    let signed = sign_with_key(&view, &settings("com.example.app"), &material, NO_STAMP).unwrap();
    assert!(!signed.timestamp_omitted);

    let signature = parse_signature_data(&signed.file[131_072..]).unwrap();
    let slots: Vec<CodeSigningSlot> = signature.blobs.iter().map(|b| b.slot()).collect();
    assert_eq!(slots, vec![CodeSigningSlot::CodeDirectory, CodeSigningSlot::Signature]);

    let payload = signature.signature_data().unwrap().unwrap();
    // 72 bytes of signature value, 1024 of envelope, the certificate, and
    // the content, counted as the signature without CMS.
    let content = 20 + signature.blobs[0].data.len();
    assert_eq!(payload.len(), 72 + 1024 + material.certificates[0].len() + content);
    let cms = &payload[..der_len(payload)];
    assert!(payload[cms.len()..].iter().all(|b| *b == 0));

    let parsed = cryptographic_message_syntax::SignedData::parse_ber(cms).unwrap();
    let directory_bytes = &signature.blobs[0].data;
    assert_eq!(parsed.signed_content(), Some(directory_bytes.as_slice()));
    let signers: Vec<_> = parsed.signers().collect();
    assert_eq!(signers.len(), 1);
    let attributes = signers[0].signed_attributes().unwrap();
    assert_eq!(
        attributes.message_digest(),
        DigestType::Sha256.digest(directory_bytes).unwrap().as_slice()
    );
    assert!(attributes.signing_time().is_some());
    assert!(signers[0].unsigned_attributes().is_none());
    signers[0].verify_signature_with_signed_data(&parsed).unwrap();
    assert_eq!(parsed.certificates().count(), 1);

    let reloaded = MachoView::load(signed.file.clone()).unwrap();
    assert_eq!(
        reloaded.signature_region(),
        Some((131_072, (signed.file.len() - 131_072) as u32))
    );
    assert!(apple_codesign::identity::describe_cms(cms).unwrap().contains("SignedData"));
    assert_eq!(
        apple_codesign::identity::describe_cms(&[1, 2, 3]),
        Err(CodesignError::SigningFailed)
    );
}

#[test]
fn signature_without_time_stamp_where_the_server_gives_none() {
    let view = MachoView::load(macho(16_384, 0x400)).unwrap();
    let material = self_signed(x509_certificate::EcdsaCurve::Secp384r1);
    let signed =
        sign_with_key(&view, &settings("a"), &material, Some(&stamped_at("http://127.0.0.1:9/none")))
            .unwrap();
    assert!(signed.timestamp_omitted);
    let signature = parse_signature_data(&signed.file[16_384..]).unwrap();
    let payload = signature.signature_data().unwrap().unwrap();
    // The allowance for the token is reserved all the same.
    let content = 20 + signature.blobs[0].data.len();
    assert_eq!(payload.len(), 104 + 1024 + material.certificates[0].len() + content + 8192);
    let cms = &payload[..der_len(payload)];
    let parsed = cryptographic_message_syntax::SignedData::parse_ber(cms).unwrap();
    let signers: Vec<_> = parsed.signers().collect();
    assert!(signers[0].unsigned_attributes().is_none());
}

#[test]
fn signing_material_that_is_incomplete_or_broken_is_refused() {
    let view = MachoView::load(macho(16_384, 0x400)).unwrap();
    let good = self_signed(x509_certificate::EcdsaCurve::Secp256r1);
    let no_key = SigningMaterial { private_key: None, certificates: good.certificates.clone() };
    assert_eq!(
        sign_with_key(&view, &settings("a"), &no_key, NO_STAMP),
        Err(CodesignError::CliBadArgument)
    );
    let no_certificate =
        SigningMaterial { private_key: good.private_key.clone(), certificates: vec![] };
    assert_eq!(
        sign_with_key(&view, &settings("a"), &no_certificate, NO_STAMP),
        Err(CodesignError::CliBadArgument)
    );
    let bad_key = SigningMaterial {
        private_key: Some(vec![1, 2, 3]),
        certificates: good.certificates.clone(),
    };
    assert_eq!(
        sign_with_key(&view, &settings("a"), &bad_key, NO_STAMP),
        Err(CodesignError::PrivateKeyMalformed)
    );
    let bad_certificate = SigningMaterial {
        private_key: good.private_key.clone(),
        certificates: vec![vec![0x30, 0x00]],
    };
    assert_eq!(
        sign_with_key(&view, &settings("a"), &bad_certificate, NO_STAMP),
        Err(CodesignError::CertificateMalformed)
    );
}

fn fat(slices: &[Vec<u8>]) -> Vec<u8> {
    let mut out = Vec::new();
    out.extend_from_slice(&0xcafe_babeu32.to_be_bytes());
    out.extend_from_slice(&(slices.len() as u32).to_be_bytes());
    let mut offset = 4096u32;
    for (i, slice) in slices.iter().enumerate() {
        let cputype: u32 = if i == 0 { 0x0100_0007 } else { 0x0100_000c };
        out.extend_from_slice(&cputype.to_be_bytes());
        out.extend_from_slice(&3u32.to_be_bytes());
        out.extend_from_slice(&offset.to_be_bytes());
        out.extend_from_slice(&(slice.len() as u32).to_be_bytes());
        out.extend_from_slice(&12u32.to_be_bytes());
        offset += (slice.len() as u32 + 4095) / 4096 * 4096;
    }
    for slice in slices {
        out.resize((out.len() + 4095) / 4096 * 4096, 0);
        out.extend_from_slice(slice);
    }
    out
}

#[test]
fn slices_of_a_universal_binary_are_signed_each_by_itself() {
    let first = macho(16_384, 0x400);
    let second = macho(8192 + 100, 0x200);
    let file = fat(&[first.clone(), second.clone()]);

    assert_eq!(select_binary(&file, 0), Ok(first.as_slice()));
    assert_eq!(select_binary(&file, 1), Ok(second.as_slice()));
    assert_eq!(select_binary(&file, 2), Err(CodesignError::BinaryMalformed));
    assert_eq!(select_binary(&first, 7), Ok(first.as_slice()));
    assert_eq!(select_binary(&[1, 2, 3], 0), Err(CodesignError::BinaryMalformed));

    for (index, limit) in [(0usize, 16_384usize), (1, 8292)] {
        let slice = select_binary(&file, index).unwrap();
        let view = MachoView::load(slice.to_vec()).unwrap();
        let signed = sign_ad_hoc(&view, &settings("a")).unwrap();
        let directory =
            parse_signature_data(&signed[limit..]).unwrap().code_directory().unwrap().unwrap();
        assert_eq!(directory.code_limit as usize, limit);
        assert_eq!(word(&signed, 264) as usize, limit);
    }
}

#[test]
fn signature_with_an_rsa_key_reserves_the_width_of_the_modulus() {
    let view = MachoView::load(macho(16_384, 0x400)).unwrap();
    let certificate = x509_certificate::testutil::rsa_cert();
    let key = x509_certificate::testutil::rsa_private_key();
    let material = SigningMaterial {
        private_key: Some(key.to_pkcs8_one_asymmetric_key_der().to_vec()),
        certificates: vec![certificate.constructed_data().to_vec()],
    };
    let signed = sign_with_key(&view, &settings("a"), &material, NO_STAMP).unwrap();
    let signature = parse_signature_data(&signed.file[16_384..]).unwrap();
    let payload = signature.signature_data().unwrap().unwrap();
    let content = 20 + signature.blobs[0].data.len();
    assert_eq!(payload.len(), 256 + 1024 + material.certificates[0].len() + content);
    let cms = apple_codesign::identity::signature_without_padding(payload);
    let parsed = cryptographic_message_syntax::SignedData::parse_ber(cms).unwrap();
    let signers: Vec<_> = parsed.signers().collect();
    signers[0].verify_signature_with_signed_data(&parsed).unwrap();
    signers[0].verify_message_digest_with_signed_data(&parsed).unwrap();
}

#[test]
fn signing_with_a_key_fails_first_on_what_the_library_decides() {
    let view = MachoView::load(macho(16_384, 0x400)).unwrap();
    let good = self_signed(x509_certificate::EcdsaCurve::Secp256r1);

    // A certificate that does not decode comes before a key that does not.
    let both_bad = SigningMaterial {
        private_key: Some(vec![1, 2, 3]),
        certificates: vec![good.certificates[0].clone(), vec![4, 5, 6]],
    };
    assert_eq!(
        sign_with_key(&view, &settings("a"), &both_bad, NO_STAMP),
        Err(CodesignError::CertificateMalformed)
    );

    // Settings that are not valid come before the key.
    let bad_key = SigningMaterial {
        private_key: Some(vec![1, 2, 3]),
        certificates: good.certificates.clone(),
    };
    let mut unhashed = settings("a");
    unhashed.directory.hash_type = DigestType::NoDigest;
    assert_eq!(
        sign_with_key(&view, &unhashed, &bad_key, NO_STAMP),
        Err(CodesignError::UnsupportedHash)
    );
    assert_eq!(
        sign_with_key(&view, &unhashed, &good, NO_STAMP),
        Err(CodesignError::UnsupportedHash)
    );

    // A binary that cannot take a signature comes before the key.
    let mut longer = macho(16_384, 0x400);
    longer.extend_from_slice(&[0u8; 8]);
    let unsignable = MachoView::load(longer).unwrap();
    assert_eq!(
        sign_with_key(&unsignable, &settings("a"), &bad_key, NO_STAMP),
        Err(CodesignError::UnsupportedMachOVariant)
    );

    // No room for the load command comes before the key.
    let tight = MachoView::load(macho(16_384, 256 + 8)).unwrap();
    assert_eq!(
        sign_with_key(&tight, &settings("a"), &bad_key, NO_STAMP),
        Err(CodesignError::LoadCommandOverflow)
    );

    // Then the key.
    assert_eq!(
        sign_with_key(&view, &settings("a"), &bad_key, NO_STAMP),
        Err(CodesignError::PrivateKeyMalformed)
    );
}

#[test]
fn error_of_the_time_stamper_fails_signing() {
    let view = MachoView::load(macho(16_384, 0x400)).unwrap();
    let material = self_signed(x509_certificate::EcdsaCurve::Secp256r1);
    assert_eq!(
        sign_with_key(&view, &settings("a"), &material, Some(&stamped_at("no address"))),
        Err(CodesignError::CliBadArgument)
    );
}

#[test]
fn signature_that_does_not_lie_within_the_file_is_reported() {
    let view = MachoView::load(macho(16_384, 0x400)).unwrap();
    let signed = sign_ad_hoc(&view, &settings("a")).unwrap();
    // The load command names four bytes more than the file holds.
    let size = (signed.len() - 16_384) as u32;
    assert_eq!(word(&signed, 256), 0x1d);
    assert_eq!(word(&signed, 268), size);
    let mut cut = signed.clone();
    cut[268..272].copy_from_slice(&(size + 4).to_le_bytes());
    let view = MachoView::load(cut.clone()).unwrap();
    assert!(view.is_well_formed());
    assert_eq!(view.shape, Err(CodesignError::UnsupportedMachOVariant));
    assert_eq!(view.signature_region(), Some((16_384, size + 4)));
    assert_eq!(view.signature_data(), Err(CodesignError::BinaryMalformed));
    assert_eq!(view.code(), Ok(&cut[..16_384]));
    assert_eq!(MachoView::load(signed[..signed.len() - 4].to_vec()), Err(CodesignError::BinaryMalformed));
    assert_eq!(view.segment_info(), Err(CodesignError::UnsupportedMachOVariant));
    assert_eq!(
        apple_codesign::verify::verify_view(&view),
        vec![apple_codesign::verify::VerificationProblem::NoSignature]
    );
}

#[test]
fn records_are_read_command_by_command() {
    let data = macho(131_072, 0x1000);
    let records = read_records(&data).unwrap();
    assert!(records.is_64);
    assert!(records.little_endian);
    assert_eq!((records.ncmds, records.sizeofcmds), (2, 224));
    assert_eq!(
        records.commands,
        vec![
            LoadCommandRecord { offset: 32, cmd: 0x19, cmdsize: 152 },
            LoadCommandRecord { offset: 184, cmd: 0x19, cmdsize: 72 },
        ]
    );
    assert_eq!(records.segments.len(), 2);
    assert_eq!(&records.segments[0].name[..7], b"__TEXT\0");
    assert_eq!(records.segments[1].fileoff, 65_536);
    assert_eq!(records.segments[1].filesize, 65_536);
    assert_eq!(records.segments[1].vmaddr, 0x1_0000_0000 + 65_536);
    assert_eq!(records.section_offsets, vec![0x1000]);
    let view = view_from_records(data.clone(), records).unwrap();
    assert_eq!(view, MachoView::load(data.clone()).unwrap());

    // A command that runs over the end of the file is refused.
    let mut long = data.clone();
    long[188..192].copy_from_slice(&0x0010_0000u32.to_le_bytes());
    assert_eq!(read_records(&long), None);
    // So is a segment whose content does not lie within the file.
    let mut beyond = data.clone();
    beyond[184 + 48..184 + 56].copy_from_slice(&(65_537u64).to_le_bytes());
    assert_eq!(read_records(&beyond), None);
    assert_eq!(MachoView::load(beyond), Err(CodesignError::BinaryMalformed));
    // A big-endian 32-bit header without commands is read too.
    let mut small = vec![0xfe, 0xed, 0xfa, 0xce];
    small.extend_from_slice(&[0u8; 24]);
    let records = read_records(&small).unwrap();
    assert!(!records.is_64);
    assert!(!records.little_endian);
    assert_eq!(records.commands.len(), 0);
    assert_eq!(read_records(&small[..27]), None);
}
