use apple_codesign::command::{
    code_hashes_text, code_signature_flag, parse_number, Command, ExtractFormat,
    DEFAULT_PAGE_SIZE,
};
use apple_codesign::digest::DigestType;
use apple_codesign::error::CodesignError;
use apple_codesign::identity::{
    max_signature_size, read_pem, retries_without_time_stamp, sort_pem_blocks, time_stamp_url,
    write_pem, PemBlock, APPLE_TIMESTAMP_URL, CMS_ENVELOPE_OVERHEAD, TIME_STAMP_ALLOWANCE,
    UNKNOWN_SIGNATURE_BOUND,
};
use apple_codesign::text::{hex_char, put_decimal, put_escaped, put_hex, put_signed_decimal, put_text, to_hex, to_string};
use apple_codesign::yubikey::CertificateKey;

#[test]
fn commands_by_name() {
    assert_eq!(Command::from_name("compute-code-hashes"), Ok(Command::ComputeCodeHashes));
    assert_eq!(Command::from_name("extract"), Ok(Command::Extract));
    assert_eq!(
        Command::from_name("generate-self-signed-certificate"),
        Ok(Command::GenerateSelfSignedCertificate)
    );
    assert_eq!(Command::from_name("sign"), Ok(Command::Sign));
    assert_eq!(Command::from_name("verify"), Ok(Command::Verify));
    assert_eq!(Command::from_name("notarize"), Err(CodesignError::CliUnknownCommand));
    assert_eq!(Command::from_name(""), Err(CodesignError::CliUnknownCommand));
}

#[test]
fn extract_formats_by_name() {
    let names = [
        ("blobs", ExtractFormat::Blobs),
        ("cms-ber", ExtractFormat::CmsBer),
        ("cms-pem", ExtractFormat::CmsPem),
        ("cms-raw", ExtractFormat::CmsRaw),
        ("cms", ExtractFormat::Cms),
        ("code-directory-raw", ExtractFormat::CodeDirectoryRaw),
        ("code-directory-serialized-raw", ExtractFormat::CodeDirectorySerializedRaw),
        ("code-directory-serialized", ExtractFormat::CodeDirectorySerialized),
        ("code-directory", ExtractFormat::CodeDirectory),
        ("linkedit-segment-raw", ExtractFormat::LinkeditSegmentRaw),
        ("requirements-raw", ExtractFormat::RequirementsRaw),
        ("requirements-serialized-raw", ExtractFormat::RequirementsSerializedRaw),
        ("requirements-serialized", ExtractFormat::RequirementsSerialized),
        ("requirements", ExtractFormat::Requirements),
        ("segment-info", ExtractFormat::SegmentInfo),
        ("signature-raw", ExtractFormat::SignatureRaw),
        ("superblob", ExtractFormat::Superblob),
    ];
    for (name, format) in names {
        assert_eq!(ExtractFormat::from_name(name), Some(format));
    }
    assert_eq!(ExtractFormat::from_name("linkededit-segment-raw"), None);
    assert_eq!(ExtractFormat::from_name("CMS"), None);
}

#[test]
fn flags_by_name() {
    assert_eq!(code_signature_flag("host"), Ok(0x1));
    assert_eq!(code_signature_flag("hard"), Ok(0x100));
    assert_eq!(code_signature_flag("kill"), Ok(0x200));
    assert_eq!(code_signature_flag("expires"), Ok(0x400));
    assert_eq!(code_signature_flag("library"), Ok(0x2000));
    assert_eq!(code_signature_flag("runtime"), Ok(0x1_0000));
    assert_eq!(code_signature_flag("linker-signed"), Ok(0x2_0000));
    assert_eq!(code_signature_flag("adhoc"), Err(CodesignError::CliBadArgument));
}

#[test]
fn numbers_in_decimal() {
    assert_eq!(parse_number("0"), Some(0));
    assert_eq!(parse_number("+0"), Some(0));
    assert_eq!(parse_number("+4096"), Some(4096));
    assert_eq!(parse_number("+18446744073709551615"), Some(u64::MAX));
    assert_eq!(parse_number("+18446744073709551616"), None);
    assert_eq!(parse_number("+"), None);
    assert_eq!(parse_number("++1"), None);
    assert_eq!(parse_number("1+"), None);
    assert_eq!(parse_number("+-1"), None);
    assert_eq!(parse_number(" 1"), None);
    for text in ["0", "+7", "007", "+", "", "-1", "1 ", "12a", "+18446744073709551615"] {
        assert_eq!(parse_number(text), text.parse::<u64>().ok());
    }
    assert_eq!(parse_number("007"), Some(7));
    assert_eq!(parse_number("4096"), Some(4096));
    assert_eq!(parse_number("18446744073709551615"), Some(u64::MAX));
    assert_eq!(parse_number("18446744073709551616"), None);
    assert_eq!(parse_number("99999999999999999999999"), None);
    assert_eq!(parse_number(""), None);
    assert_eq!(parse_number("-1"), None);
    assert_eq!(parse_number("12a"), None);
    assert_eq!(parse_number(" 1"), None);
    assert_eq!(parse_number("١"), None);
}

#[test]
fn code_hashes_as_hexadecimal_text() {
    let code: Vec<u8> = (0..5000u32).map(|i| i as u8).collect();
    let lines = code_hashes_text(&code, DigestType::Sha256, None).unwrap();
    assert_eq!(DEFAULT_PAGE_SIZE, 4096);
    assert_eq!(lines.len(), 2);
    assert_eq!(lines[0], to_hex(&DigestType::Sha256.digest(&code[..4096]).unwrap()));
    assert_eq!(lines[1], to_hex(&DigestType::Sha256.digest(&code[4096..]).unwrap()));
    assert_eq!(lines[0].len(), 64);
    let lines = code_hashes_text(&code, DigestType::Sha1, Some(1000)).unwrap();
    assert_eq!(lines.len(), 5);
    assert_eq!(lines[4], to_hex(&DigestType::Sha1.digest(&code[4000..]).unwrap()));
    assert!(lines.iter().all(|line| line.len() == 40));
    let lines = code_hashes_text(&code, DigestType::Sha384, Some(2500)).unwrap();
    assert_eq!(lines.len(), 2);
    assert!(lines.iter().all(|line| line.len() == 96));
    let lines = code_hashes_text(&code, DigestType::Sha256Truncated, Some(5000)).unwrap();
    assert_eq!(lines.len(), 1);
    assert!(lines.iter().all(|line| line.len() == 40));
    assert_eq!(code_hashes_text(&code, DigestType::Sha1, Some(0)), Err(CodesignError::CliBadArgument));
    assert_eq!(code_hashes_text(&code, DigestType::NoDigest, None), Err(CodesignError::UnsupportedHash));
    assert_eq!(code_hashes_text(&code, DigestType::NoDigest, Some(0)), Err(CodesignError::CliBadArgument));
    assert_eq!(code_hashes_text(b"abc", DigestType::Sha256, None).unwrap(), vec![
        "ba7816bf8f01cfea414140de5dae2223b00361a396177a9cb410ff61f20015ad".to_string()
    ]);
}

#[test]
fn hexadecimal_text() {
    assert_eq!(to_hex(&[1, 2, 3, 15, 16]), "0102030f10");
    assert_eq!(to_hex(b"Hello world!"), "48656c6c6f20776f726c6421");
    assert_eq!(to_hex(&[]), "");
    assert_eq!(to_hex(&[0x00, 0xff, 0xa0, 0x0a]), "00ffa00a");
    let digits: String = (0u8..16).map(hex_char).collect();
    assert_eq!(digits, "0123456789abcdef");
}

#[test]
fn characters_are_put_one_behind_the_other() {
    let mut out: Vec<char> = vec!['>'];
    put_text(&mut out, "añ");
    put_hex(&mut out, &[0xbe, 0xef]);
    put_decimal(&mut out, 0);
    put_decimal(&mut out, 1234567890);
    put_signed_decimal(&mut out, -42);
    put_signed_decimal(&mut out, i64::MIN);
    put_escaped(&mut out, b"a\"b\n");
    assert_eq!(to_string(&out), ">añbeef01234567890-42-9223372036854775808a\\x22b\\x0a");
    let mut max: Vec<char> = vec![];
    put_decimal(&mut max, u64::MAX);
    assert_eq!(to_string(&max), "18446744073709551615");
}

#[test]
fn pem_armour_round_trip() {
    let text = write_pem("CERTIFICATE", &[1, 2, 3, 4]);
    assert!(text.starts_with("-----BEGIN CERTIFICATE-----"));
    assert!(text.contains("AQIDBA=="));
    assert!(text.trim_end().ends_with("-----END CERTIFICATE-----"));
    let mut both = text.clone();
    both.push_str(&write_pem("PRIVATE KEY", &[9; 100]));
    let blocks = read_pem(both.as_bytes()).unwrap();
    assert_eq!(
        blocks,
        vec![
            PemBlock { tag: "CERTIFICATE".to_string(), contents: vec![1, 2, 3, 4] },
            PemBlock { tag: "PRIVATE KEY".to_string(), contents: vec![9; 100] },
        ]
    );
    assert_eq!(read_pem(b"no armour here"), Ok(vec![]));
    assert_eq!(
        read_pem(b"-----BEGIN A-----\n!!!!\n-----END A-----\n"),
        Err(CodesignError::PemMalformed)
    );
}

fn block(tag: &str, contents: &[u8]) -> PemBlock {
    PemBlock { tag: tag.to_string(), contents: contents.to_vec() }
}

#[test]
fn pem_sections_are_sorted_into_key_and_certificates() {
    let material = sort_pem_blocks(vec![
        block("CERTIFICATE", &[1]),
        block("PUBLIC KEY", &[2]),
        block("PRIVATE KEY", &[3]),
        block("CERTIFICATE", &[4]),
    ])
    .unwrap();
    assert_eq!(material.private_key, Some(vec![3]));
    assert_eq!(material.certificates, vec![vec![1], vec![4]]);

    let only_certificates =
        sort_pem_blocks(vec![block("CERTIFICATE", &[1]), block("CERTIFICATE", &[2])]).unwrap();
    assert_eq!(only_certificates.private_key, None);
    assert_eq!(only_certificates.certificates, vec![vec![1], vec![2]]);

    let nothing = sort_pem_blocks(vec![]).unwrap();
    assert_eq!(nothing.private_key, None);
    assert!(nothing.certificates.is_empty());
}

#[test]
fn pem_sections_with_two_keys_or_a_key_alone_are_refused() {
    assert_eq!(
        sort_pem_blocks(vec![
            block("PRIVATE KEY", &[1]),
            block("CERTIFICATE", &[2]),
            block("PRIVATE KEY", &[3]),
        ]),
        Err(CodesignError::CliBadArgument)
    );
    assert_eq!(
        sort_pem_blocks(vec![block("PRIVATE KEY", &[1])]),
        Err(CodesignError::CliBadArgument)
    );
    assert_eq!(
        sort_pem_blocks(vec![block("PRIVATE KEY", &[1]), block("RSA PRIVATE KEY", &[2])]),
        Err(CodesignError::CliBadArgument)
    );
}

#[test]
fn time_stamp_server_by_setting() {
    assert_eq!(time_stamp_url("none"), None);
    assert_eq!(time_stamp_url(APPLE_TIMESTAMP_URL), Some("http://timestamp.apple.com/ts01"));
    assert_eq!(time_stamp_url("None"), Some("None"));
    assert_eq!(time_stamp_url(""), Some(""));
}

#[test]
fn signing_is_tried_again_only_for_want_of_a_time_stamp() {
    assert!(retries_without_time_stamp(CodesignError::TimestampUnreachable, true));
    assert!(!retries_without_time_stamp(CodesignError::TimestampUnreachable, false));
    assert!(!retries_without_time_stamp(CodesignError::SigningFailed, true));
}

#[test]
fn reserved_size_of_a_cms_signature() {
    assert_eq!(CMS_ENVELOPE_OVERHEAD, 1024);
    assert_eq!(TIME_STAMP_ALLOWANCE, 8192);
    assert_eq!(UNKNOWN_SIGNATURE_BOUND, 512);
    let certificates = vec![vec![0u8; 700], vec![0u8; 900]];
    assert_eq!(
        max_signature_size(Some(CertificateKey::Rsa), Some(257), &certificates, 0, false),
        Some(256 + 1024 + 1600)
    );
    assert_eq!(
        max_signature_size(Some(CertificateKey::Rsa), Some(129), &certificates, 100, true),
        Some(128 + 1024 + 1600 + 100 + 8192)
    );
    assert_eq!(
        max_signature_size(Some(CertificateKey::Rsa), Some(513), &vec![], 0, false),
        Some(513 + 1024)
    );
    assert_eq!(
        max_signature_size(Some(CertificateKey::Rsa), None, &vec![], 0, false),
        Some(512 + 1024)
    );
    assert_eq!(
        max_signature_size(Some(CertificateKey::EcdsaP256), None, &vec![], 0, false),
        Some(72 + 1024)
    );
    assert_eq!(
        max_signature_size(Some(CertificateKey::EcdsaP384), Some(1), &vec![], 0, true),
        Some(104 + 1024 + 8192)
    );
    assert_eq!(
        max_signature_size(Some(CertificateKey::Ed25519), None, &vec![], 0, false),
        Some(64 + 1024)
    );
    assert_eq!(max_signature_size(None, None, &vec![], 5, false), Some(512 + 1024 + 5));
    assert_eq!(max_signature_size(None, None, &vec![], u32::MAX, false), None);
}
