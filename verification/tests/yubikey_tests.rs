use apple_codesign::digest::{DigestType, HashFunction};
use apple_codesign::error::CodesignError;
use apple_codesign::yubikey::{
    classify_key, prepare_signing_input, CertificateKey, KeyAlgorithm, SignatureKind,
    SlotCertificate, SlotId, YubiKey,
};

struct Card {
    serial: u32,
}

fn resolver() -> Result<Vec<u8>, CodesignError> {
    Ok(b"123456".to_vec())
}

type Resolver = fn() -> Result<Vec<u8>, CodesignError>;

fn certificate(curve: x509_certificate::EcdsaCurve) -> x509_certificate::CapturedX509Certificate {
    let mut builder = x509_certificate::X509CertificateBuilder::default();
    builder.subject().append_common_name_utf8_string("card").unwrap();
    builder
        .create_with_random_keypair(x509_certificate::KeyAlgorithm::Ecdsa(curve))
        .unwrap()
        .0
}

fn in_slot(slot: SlotId, certificate: x509_certificate::CapturedX509Certificate) -> SlotCertificate {
    SlotCertificate { slot, der: certificate.constructed_data().to_vec() }
}

#[test]
fn connection_starts_without_resolver() {
    let mut key: YubiKey<Card, Resolver> = YubiKey::new(Card { serial: 7 });
    assert!(!key.has_pin_callback());
    key.set_pin_callback(resolver);
    assert!(key.has_pin_callback());
    assert_eq!(key.inner().unwrap().serial, 7);
}

#[test]
fn card_is_acquired_by_one_holder_at_a_time() {
    let key: YubiKey<Card, Resolver> = YubiKey::new(Card { serial: 1 });
    {
        let mut guard = key.inner().unwrap();
        guard.serial = 2;
        assert_eq!(key.inner().err(), Some(CodesignError::DeviceBusy));
    }
    assert_eq!(key.inner().unwrap().serial, 2);
}

#[test]
fn signer_of_the_first_certificate_in_the_slot() {
    let mut key: YubiKey<Card, Resolver> = YubiKey::new(Card { serial: 1 });
    key.set_pin_callback(resolver);
    let first = certificate(x509_certificate::EcdsaCurve::Secp256r1);
    let second = certificate(x509_certificate::EcdsaCurve::Secp384r1);
    let third = certificate(x509_certificate::EcdsaCurve::Secp256r1);
    let found = || {
        vec![
            in_slot(SlotId::Authentication, first.clone()),
            in_slot(SlotId::Signature, second.clone()),
            in_slot(SlotId::Signature, third.clone()),
            in_slot(SlotId::Retired(3), third.clone()),
        ]
    };

    let signer = key.get_certificate_signer(found(), SlotId::Signature).unwrap();
    assert_eq!(signer.slot(), SlotId::Signature);
    assert_eq!(signer.certificate(), Some(second.clone()));
    assert_eq!(signer.certificate_der().as_slice(), second.constructed_data());
    assert!(signer.resolver().is_some());
    assert_eq!(signer.algorithm(), Ok(KeyAlgorithm::EcdsaP384));

    let retired = key.get_certificate_signer(found(), SlotId::Retired(3)).unwrap();
    assert_eq!(retired.certificate(), Some(third.clone()));
    assert_eq!(retired.algorithm(), Ok(KeyAlgorithm::EcdsaP256));
    assert!(key.get_certificate_signer(found(), SlotId::Retired(4)).is_none());
    assert!(key.get_certificate_signer(found(), SlotId::Attestation).is_none());
    assert!(key.get_certificate_signer(vec![], SlotId::Signature).is_none());

    // The signer shares the card with the connection.
    let guard = signer.inner().unwrap();
    assert_eq!(key.inner().err(), Some(CodesignError::DeviceBusy));
    assert_eq!(retired.inner().err(), Some(CodesignError::DeviceBusy));
    drop(guard);
    assert!(key.inner().is_ok());
}

#[test]
fn signer_prepares_the_digest_for_an_ecdsa_key() {
    let key: YubiKey<Card, Resolver> = YubiKey::new(Card { serial: 1 });
    let found = vec![in_slot(SlotId::Signature, certificate(x509_certificate::EcdsaCurve::Secp256r1))];
    let signer = key.get_certificate_signer(found, SlotId::Signature).unwrap();
    let (algorithm, input) = signer.signing_input(b"message").unwrap();
    assert_eq!(algorithm, KeyAlgorithm::EcdsaP256);
    assert_eq!(input, DigestType::Sha256.digest(b"message").unwrap());
    assert!(signer.resolver().is_none());
}

#[test]
fn key_algorithms_by_certificate_and_modulus() {
    assert_eq!(classify_key(Some(CertificateKey::Rsa), Some(129)), Ok(KeyAlgorithm::Rsa1024));
    assert_eq!(classify_key(Some(CertificateKey::Rsa), Some(257)), Ok(KeyAlgorithm::Rsa2048));
    for len in [0usize, 128, 130, 256, 258, 385, 513] {
        assert_eq!(
            classify_key(Some(CertificateKey::Rsa), Some(len)),
            Err(CodesignError::UnsupportedKeyAlgorithm)
        );
    }
    assert_eq!(classify_key(Some(CertificateKey::Rsa), None), Err(CodesignError::CertificateMalformed));
    assert_eq!(classify_key(Some(CertificateKey::EcdsaP256), None), Ok(KeyAlgorithm::EcdsaP256));
    assert_eq!(classify_key(Some(CertificateKey::EcdsaP384), Some(129)), Ok(KeyAlgorithm::EcdsaP384));
    assert_eq!(classify_key(Some(CertificateKey::Ed25519), None), Err(CodesignError::UnsupportedKeyAlgorithm));
    assert_eq!(classify_key(None, Some(257)), Err(CodesignError::UnsupportedKeyAlgorithm));
}

#[test]
fn key_algorithm_bounds() {
    assert_eq!(KeyAlgorithm::Rsa1024.rsa_bits(), 1024);
    assert_eq!(KeyAlgorithm::Rsa2048.rsa_bits(), 2048);
    assert_eq!(KeyAlgorithm::EcdsaP256.rsa_bits(), 0);
    assert_eq!(KeyAlgorithm::Rsa1024.signature_bound(), 128);
    assert_eq!(KeyAlgorithm::Rsa2048.signature_bound(), 256);
    assert_eq!(KeyAlgorithm::EcdsaP256.signature_bound(), 72);
    assert_eq!(KeyAlgorithm::EcdsaP384.signature_bound(), 104);
    assert_eq!(KeyAlgorithm::Rsa2048.max_signature_size(900, 100, false), Some(256 + 1024 + 1000));
    assert_eq!(
        KeyAlgorithm::EcdsaP256.max_signature_size(0, 0, true),
        Some(72 + 1024 + 8192)
    );
    assert_eq!(KeyAlgorithm::Rsa1024.max_signature_size(0, u32::MAX, false), None);
}

#[test]
fn digest_functions_of_signature_algorithms() {
    assert_eq!(SignatureKind::RsaSha1.digest_function(), Some(HashFunction::Sha1));
    assert_eq!(SignatureKind::RsaSha256.digest_function(), Some(HashFunction::Sha256));
    assert_eq!(SignatureKind::RsaSha384.digest_function(), Some(HashFunction::Sha384));
    assert_eq!(SignatureKind::RsaSha512.digest_function(), Some(HashFunction::Sha512));
    assert_eq!(SignatureKind::EcdsaSha256.digest_function(), Some(HashFunction::Sha256));
    assert_eq!(SignatureKind::EcdsaSha384.digest_function(), Some(HashFunction::Sha384));
    assert_eq!(SignatureKind::Ed25519.digest_function(), None);
    assert_eq!(
        SignatureKind::NoSignature(HashFunction::Sha512).digest_function(),
        Some(HashFunction::Sha512)
    );
}

#[test]
fn input_of_the_card_for_rsa_is_the_padded_digest() {
    let (algorithm, input) = prepare_signing_input(
        Some(CertificateKey::Rsa),
        Some(129),
        Some(SignatureKind::RsaSha256),
        b"message",
    )
    .unwrap();
    assert_eq!(algorithm, KeyAlgorithm::Rsa1024);
    assert_eq!(input.len(), 128);
    let digest = HashFunction::Sha256.digest(b"message");
    assert_eq!(input, HashFunction::Sha256.rsa_pkcs1_v1_5_encode(&digest, 1024).unwrap());

    let (algorithm, input) = prepare_signing_input(
        Some(CertificateKey::Rsa),
        Some(257),
        Some(SignatureKind::RsaSha512),
        b"message",
    )
    .unwrap();
    assert_eq!(algorithm, KeyAlgorithm::Rsa2048);
    assert_eq!(input.len(), 256);
    assert_eq!(&input[256 - 64..], HashFunction::Sha512.digest(b"message").as_slice());
}

#[test]
fn input_of_the_card_for_ecdsa_is_the_digest() {
    let (algorithm, input) = prepare_signing_input(
        Some(CertificateKey::EcdsaP384),
        None,
        Some(SignatureKind::EcdsaSha384),
        b"message",
    )
    .unwrap();
    assert_eq!(algorithm, KeyAlgorithm::EcdsaP384);
    assert_eq!(input, HashFunction::Sha384.digest(b"message"));
}

#[test]
fn input_of_the_card_is_refused_for_keys_and_hashes_it_cannot_use() {
    assert_eq!(
        prepare_signing_input(Some(CertificateKey::Ed25519), None, Some(SignatureKind::Ed25519), b"m"),
        Err(CodesignError::UnsupportedKeyAlgorithm)
    );
    assert_eq!(
        prepare_signing_input(Some(CertificateKey::Rsa), Some(385), Some(SignatureKind::RsaSha256), b"m"),
        Err(CodesignError::UnsupportedKeyAlgorithm)
    );
    assert_eq!(
        prepare_signing_input(Some(CertificateKey::EcdsaP256), None, None, b"m"),
        Err(CodesignError::UnsupportedHash)
    );
    assert_eq!(
        prepare_signing_input(Some(CertificateKey::EcdsaP256), None, Some(SignatureKind::Ed25519), b"m"),
        Err(CodesignError::UnsupportedHash)
    );
    // The errors of the key come first.
    assert_eq!(
        prepare_signing_input(None, None, None, b"m"),
        Err(CodesignError::UnsupportedKeyAlgorithm)
    );
}

#[test]
fn connection_from_the_handle_of_a_card() {
    let key: YubiKey<Card, Resolver> = YubiKey::from(Card { serial: 9 });
    assert!(!key.has_pin_callback());
    assert_eq!(key.inner().unwrap().serial, 9);
}

#[test]
fn signer_of_an_rsa_key_pads_the_digest_to_the_width_of_the_modulus() {
    let key: YubiKey<Card, Resolver> = YubiKey::new(Card { serial: 1 });
    let found = vec![in_slot(SlotId::KeyManagement, x509_certificate::testutil::rsa_cert())];
    let signer = key.get_certificate_signer(found, SlotId::KeyManagement).unwrap();
    assert_eq!(signer.algorithm(), Ok(KeyAlgorithm::Rsa2048));
    let (algorithm, input) = signer.signing_input(b"message").unwrap();
    assert_eq!(algorithm, KeyAlgorithm::Rsa2048);
    assert_eq!(input.len(), 256);
    let digest = HashFunction::Sha256.digest(b"message");
    assert_eq!(input, HashFunction::Sha256.rsa_pkcs1_v1_5_encode(&digest, 2048).unwrap());
}

#[test]
fn signer_of_an_ed25519_key_is_refused() {
    let key: YubiKey<Card, Resolver> = YubiKey::new(Card { serial: 1 });
    let (certificate, _) = x509_certificate::testutil::self_signed_ed25519_key_pair();
    let signer = key
        .get_certificate_signer(vec![in_slot(SlotId::CardAuthentication, certificate)], SlotId::CardAuthentication)
        .unwrap();
    assert_eq!(signer.algorithm(), Err(CodesignError::UnsupportedKeyAlgorithm));
    assert_eq!(signer.signing_input(b"message"), Err(CodesignError::UnsupportedKeyAlgorithm));
}

#[test]
fn certificates_read_from_the_card_are_decoded_in_their_order() {
    let key: YubiKey<Card, Resolver> = YubiKey::new(Card { serial: 1 });
    let first = certificate(x509_certificate::EcdsaCurve::Secp256r1);
    let second = certificate(x509_certificate::EcdsaCurve::Secp384r1);
    let read = vec![
        (SlotId::Signature, first.constructed_data().to_vec()),
        (SlotId::Retired(1), second.constructed_data().to_vec()),
    ];
    let found = key.find_certificates(read).unwrap();
    assert_eq!(found.len(), 2);
    assert_eq!(
        found,
        vec![in_slot(SlotId::Signature, first.clone()), in_slot(SlotId::Retired(1), second.clone())]
    );
    let signer = key.get_certificate_signer(found, SlotId::Retired(1)).unwrap();
    assert_eq!(signer.certificate(), Some(second.clone()));
    assert_eq!(signer.algorithm(), Ok(KeyAlgorithm::EcdsaP384));
    assert!(key.find_certificates(vec![]).unwrap().is_empty());
    assert_eq!(
        key.find_certificates(vec![(SlotId::Signature, vec![1, 2, 3])]).err(),
        Some(CodesignError::CertificateMalformed)
    );
}

#[test]
fn signer_reads_the_key_from_the_bytes_of_its_certificate() {
    let key: YubiKey<Card, Resolver> = YubiKey::new(Card { serial: 1 });
    let rsa = x509_certificate::testutil::rsa_cert();
    let curve = certificate(x509_certificate::EcdsaCurve::Secp384r1);
    let read = || {
        vec![
            (SlotId::Signature, rsa.constructed_data().to_vec()),
            (SlotId::Authentication, curve.constructed_data().to_vec()),
        ]
    };
    let found = key.find_certificates(read()).unwrap();
    let first = key.get_certificate_signer(found, SlotId::Signature).unwrap();
    let found = key.find_certificates(read()).unwrap();
    let second = key.get_certificate_signer(found, SlotId::Authentication).unwrap();
    assert_eq!(first.algorithm(), Ok(KeyAlgorithm::Rsa2048));
    assert_eq!(second.algorithm(), Ok(KeyAlgorithm::EcdsaP384));
    let (algorithm, input) = second.signing_input(b"message").unwrap();
    assert_eq!(algorithm, KeyAlgorithm::EcdsaP384);
    assert_eq!(input, HashFunction::Sha384.digest(b"message"));
}

#[test]
fn signer_over_bytes_that_are_no_certificate_is_refused() {
    let key: YubiKey<Card, Resolver> = YubiKey::new(Card { serial: 1 });
    let found = vec![SlotCertificate { slot: SlotId::Signature, der: vec![1, 2, 3] }];
    let signer = key.get_certificate_signer(found, SlotId::Signature).unwrap();
    assert_eq!(signer.certificate_der(), &vec![1u8, 2, 3]);
    assert_eq!(signer.certificate(), None);
    assert_eq!(signer.algorithm(), Err(CodesignError::UnsupportedKeyAlgorithm));
}

#[test]
fn signer_names_the_signature_algorithm_of_its_certificate() {
    let key: YubiKey<Card, Resolver> = YubiKey::new(Card { serial: 1 });
    let found = vec![
        in_slot(SlotId::Signature, x509_certificate::testutil::rsa_cert()),
        in_slot(SlotId::Authentication, certificate(x509_certificate::EcdsaCurve::Secp384r1)),
    ];
    let signer = key.get_certificate_signer(found, SlotId::Signature).unwrap();
    assert_eq!(signer.signature_algorithm(), Ok(SignatureKind::RsaSha256));
    let found = vec![in_slot(
        SlotId::Authentication,
        certificate(x509_certificate::EcdsaCurve::Secp384r1),
    )];
    let signer = key.get_certificate_signer(found, SlotId::Authentication).unwrap();
    assert_eq!(signer.signature_algorithm(), Ok(SignatureKind::EcdsaSha384));
    let found = vec![SlotCertificate { slot: SlotId::Signature, der: vec![1, 2, 3] }];
    let signer = key.get_certificate_signer(found, SlotId::Signature).unwrap();
    assert_eq!(signer.signature_algorithm(), Err(CodesignError::UnsupportedHash));
}

#[test]
fn connection_made_from_a_handle_has_no_resolver() {
    let key: YubiKey<Card, Resolver> = Card { serial: 3 }.into();
    assert!(!key.has_pin_callback());
    let found = vec![in_slot(SlotId::Signature, certificate(x509_certificate::EcdsaCurve::Secp256r1))];
    let signer = key.get_certificate_signer(found, SlotId::Signature).unwrap();
    assert!(signer.resolver().is_none());
    assert_eq!(signer.inner().unwrap().serial, 3);
}
