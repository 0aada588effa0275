//! Signing with a key held in memory: the key and the certificates from PEM
//! armour, the size reserved for the CMS signature, and the signing itself.
//!
//! What the library can decide of a signing, it decides before the key is
//! touched. A time stamp is made by a function that the caller gives: the
//! library asks no server.

use vstd::prelude::*;
use vstd::slice::slice_to_vec;
use x509_certificate::{CapturedX509Certificate, InMemorySigningKeyPair};
use crate::error::CodesignError;
use crate::macho::{code_limit_of, MachoShape, signed_code};
use crate::macho_load::MachoView;
use crate::signing::{
    finish, lemma_finished, planned_signature, prepare, settings_valid, SettingsView,
    signature_len, signed_with, SigningSettings,
};
use crate::text::str_equal;
use crate::yubikey::{
    certificate_key_kind, CertificateKey, classified, classify_key, rsa_modulus_len,
    signature_bound,
};

verus! {

/// Declares `x509_certificate::InMemorySigningKeyPair`, a private key held
/// in memory. Nothing is known of what it holds.
#[verifier::external_type_specification]
#[verifier::external_body]
pub struct ExInMemorySigningKeyPair(x509_certificate::InMemorySigningKeyPair);

/// The number of bytes allowed for what a CMS signature holds beside the
/// signature value and the certificates.
pub const CMS_ENVELOPE_OVERHEAD: usize = 1024;

/// The number of bytes allowed for a time-stamp token.
pub const TIME_STAMP_ALLOWANCE: usize = 8192;

/// The number of bytes allowed for the signature value of a key of unknown
/// kind.
pub const UNKNOWN_SIGNATURE_BOUND: usize = 512;

/// The address of the time-stamp server that is asked where none is named.
pub const APPLE_TIMESTAMP_URL: &'static str = "http://timestamp.apple.com/ts01";

/// One section of PEM armour: its tag and what it holds.
#[derive(Debug, PartialEq, Eq)]
pub struct PemBlock {
    pub tag: String,
    pub contents: Vec<u8>,
}

/// The key and the certificates to sign with, as DER.
#[derive(Debug, PartialEq, Eq)]
pub struct SigningMaterial {
    /// The private key, as PKCS#8.
    pub private_key: Option<Vec<u8>>,
    /// The certificates in the order given: where there is a key, the first
    /// is the certificate of the key and the others are its chain.
    pub certificates: Vec<Vec<u8>>,
}

/// A signed file, and whether the time stamp was left out of its signature
/// because the time-stamp server gave no token.
#[derive(Debug, PartialEq, Eq)]
pub struct SignedBinary {
    pub file: Vec<u8>,
    pub timestamp_omitted: bool,
}

/// The sections that the PEM decoder reads from `data`, where it accepts
/// all of them: the tag and the contents of each.
pub uninterp spec fn pem_sections(data: Seq<u8>) -> Option<Seq<(Seq<char>, Seq<u8>)>>;

/// The PEM armour of `contents` under `tag`, as the PEM encoder writes it.
pub uninterp spec fn pem_armour(tag: Seq<char>, contents: Seq<u8>) -> Seq<char>;

/// The tag and the contents of every block.
pub open spec fn blocks_view(blocks: Seq<PemBlock>) -> Seq<(Seq<char>, Seq<u8>)> {
    Seq::new(blocks.len(), |i: int| (blocks[i].tag@, blocks[i].contents@))
}

/// Calls `pem::parse_many`.
///
/// Claims that the sections are a function of the bytes alone. Each section
/// is copied with its tag and its contents.
#[verifier::external_body]
fn pem_parse_many(data: &[u8]) -> (blocks: Option<Vec<PemBlock>>)
    ensures
        match blocks {
            Some(list) => pem_sections(data@) == Some(blocks_view(list@)),
            None => pem_sections(data@) is None,
        },
{
    let sections = pem::parse_many(data).ok()?;
    Some(
        sections.iter().map(
            |s| PemBlock { tag: s.tag().to_string(), contents: s.contents().to_vec() },
        ).collect(),
    )
}

/// Calls `pem::encode` on a section made by `pem::Pem::new`.
///
/// Claims that the armour is a function of the tag and the contents alone.
#[verifier::external_body]
fn pem_encode(tag: &str, contents: &[u8]) -> (text: String)
    ensures
        text@ == pem_armour(tag@, contents@),
{
    pem::encode(&pem::Pem::new(tag, contents))
}

/// Calls `x509_certificate::InMemorySigningKeyPair::from_pkcs8_der`.
///
/// Claims nothing of the result, and gives it no name: for an ECDSA key the
/// decoder asks the random source of the system for a seed and refuses the
/// key where that source fails, so the same bytes need not decode alike on
/// every machine.
#[verifier::external_body]
fn parse_signing_key(der: &[u8]) -> (key: Option<x509_certificate::InMemorySigningKeyPair>) {
    x509_certificate::InMemorySigningKeyPair::from_pkcs8_der(der).ok()
}

/// Whether `x509_certificate::CapturedX509Certificate::from_der` reads the
/// bytes as a certificate.
pub uninterp spec fn certificate_decodes(der: Seq<u8>) -> bool;

/// Calls `x509_certificate::CapturedX509Certificate::from_der`.
///
/// Claims that a certificate comes exactly where the bytes are read as one.
/// Nothing is claimed of the certificate.
#[verifier::external_body]
pub(crate) fn parse_certificate(der: &[u8]) -> (certificate: Option<
    x509_certificate::CapturedX509Certificate,
>)
    ensures
        certificate is Some <==> certificate_decodes(der@),
{
    x509_certificate::CapturedX509Certificate::from_der(der.to_vec()).ok()
}

/// Calls `cryptographic_message_syntax::SignedDataBuilder::build_der` on a
/// builder with the message as inline content, one signer for the key and
/// its certificate, and the chain.
///
/// Claims nothing of the result: the signature holds the time of signing,
/// and an ECDSA signature a random number.
#[verifier::external_body]
fn cms_sign(
    message: &[u8],
    key: &x509_certificate::InMemorySigningKeyPair,
    certificate: &x509_certificate::CapturedX509Certificate,
    chain: &Vec<x509_certificate::CapturedX509Certificate>,
) -> (signature: Option<Vec<u8>>) {
    let signer = cryptographic_message_syntax::SignerBuilder::new(key, certificate.clone());
    cryptographic_message_syntax::SignedDataBuilder::default()
        .content_inline(message.to_vec())
        .signer(signer)
        .certificates(chain.iter().cloned())
        .build_der()
        .ok()
}

/// Whether `cryptographic_message_syntax::SignedData::parse_ber` reads the
/// bytes as a CMS signature.
pub uninterp spec fn cms_readable(ber: Seq<u8>) -> bool;

/// Calls `cryptographic_message_syntax::SignedData::parse_ber` and formats
/// the result for reading.
///
/// Claims that a text comes exactly where the bytes are read as a CMS
/// signature. Nothing is claimed of the text: it lists a set in an order
/// that differs from run to run.
#[verifier::external_body]
fn cms_describe(ber: &[u8]) -> (text: Option<String>)
    ensures
        text is Some <==> cms_readable(ber@),
{
    let signed_data = cryptographic_message_syntax::SignedData::parse_ber(ber).ok()?;
    Some(format!("{:#?}", signed_data))
}

/// The contents of the first `n` sections that have the tag `tag`, in their
/// order.
pub open spec fn tagged(blocks: Seq<(Seq<char>, Seq<u8>)>, tag: Seq<char>, n: int) -> Seq<Seq<u8>>
    decreases n,
{
    if n <= 0 {
        Seq::empty()
    } else if blocks[n - 1].0 == tag {
        tagged(blocks, tag, n - 1).push(blocks[n - 1].1)
    } else {
        tagged(blocks, tag, n - 1)
    }
}

/// What sorting the sections of PEM armour gives: the private key, if there
/// is one, and the certificates in their order. Sections with other tags
/// are passed over.
///
/// `CliBadArgument` where there is more than one private key, or a private
/// key and no certificate.
pub open spec fn sorted_material(blocks: Seq<(Seq<char>, Seq<u8>)>) -> Result<
    (Option<Seq<u8>>, Seq<Seq<u8>>),
    CodesignError,
> {
    let keys = tagged(blocks, "PRIVATE KEY"@, blocks.len() as int);
    let certificates = tagged(blocks, "CERTIFICATE"@, blocks.len() as int);
    if keys.len() > 1 {
        Err(CodesignError::CliBadArgument)
    } else if keys.len() == 1 && certificates.len() == 0 {
        Err(CodesignError::CliBadArgument)
    } else if keys.len() == 1 {
        Ok((Some(keys[0]), certificates))
    } else {
        Ok((None, certificates))
    }
}

/// The private key and the certificates of a signing material.
pub open spec fn material_view(material: SigningMaterial) -> (Option<Seq<u8>>, Seq<Seq<u8>>) {
    (
        crate::code_directory::option_view(material.private_key),
        crate::code_directory::hashes_view(material.certificates@),
    )
}

/// The time-stamp server that the setting `value` names: none for the word
/// `none`, and else the address given.
pub open spec fn time_stamp_setting(value: Seq<char>) -> Option<Seq<char>> {
    if value == "none"@ {
        None
    } else {
        Some(value)
    }
}

/// The number of bytes to reserve for a CMS signature: the bound of the
/// signature value, the allowance for the envelope, the certificates, the
/// content that the signature carries, and the allowance for a time-stamp
/// token where one is asked.
///
/// The bound of the signature value is the one of `signature_bound` where
/// the key is one that a card can hold. Else it is the number of bytes of
/// the stored modulus for an RSA key of another width, 64 for Ed25519, and
/// 512 where the kind of key or the modulus is unknown.
pub open spec fn estimated_signature_size(
    key: Option<CertificateKey>,
    modulus_len: Option<usize>,
    certificates_len: int,
    content_len: int,
    time_stamped: bool,
) -> int {
    let value: int = match classified(key, modulus_len) {
        Ok(algorithm) => signature_bound(algorithm) as int,
        Err(_) => match (key, modulus_len) {
            (Some(CertificateKey::Rsa), Some(len)) => len as int,
            (Some(CertificateKey::Ed25519), _) => 64,
            _ => 512,
        },
    };
    value + 1024 + certificates_len + content_len + if time_stamped {
        8192int
    } else {
        0int
    }
}

/// The total number of bytes of the first `n` byte strings.
pub open spec fn total_bytes(list: Seq<Seq<u8>>, n: int) -> int
    decreases n,
{
    if n <= 0 {
        0
    } else {
        total_bytes(list, n - 1) + list[n - 1].len()
    }
}

/// Reads the sections of PEM armour in `data`.
///
/// Fails with `PemMalformed` exactly where the PEM decoder rejects a
/// section.
pub fn read_pem(data: &[u8]) -> (result: Result<Vec<PemBlock>, CodesignError>)
    ensures
        match result {
            Ok(blocks) => pem_sections(data@) == Some(blocks_view(blocks@)),
            Err(e) => pem_sections(data@) is None && e == CodesignError::PemMalformed,
        },
{
    match pem_parse_many(data) {
        Some(blocks) => Ok(blocks),
        None => Err(CodesignError::PemMalformed),
    }
}

/// The PEM armour of `contents` under `tag`.
pub fn write_pem(tag: &str, contents: &[u8]) -> (text: String)
    ensures
        text@ == pem_armour(tag@, contents@),
{
    pem_encode(tag, contents)
}

/// The time-stamp server that the setting `value` names: none for the word
/// `none`, and else the address given.
pub fn time_stamp_url(value: &str) -> (url: Option<&str>)
    ensures
        match url {
            Some(address) => time_stamp_setting(value@) == Some(address@),
            None => time_stamp_setting(value@) is None,
        },
{
    if str_equal(value, "none") {
        None
    } else {
        Some(value)
    }
}

/// Sorts the sections of PEM armour into the private key and the
/// certificates. Sections with other tags are passed over.
///
/// Fails with `CliBadArgument` where there is more than one private key, or
/// a private key and no certificate.
pub fn sort_pem_blocks(blocks: Vec<PemBlock>) -> (result: Result<SigningMaterial, CodesignError>)
    ensures
        match result {
            Ok(material) => sorted_material(blocks_view(blocks@)) == Ok::<
                (Option<Seq<u8>>, Seq<Seq<u8>>),
                CodesignError,
            >(material_view(material)),
            Err(e) => sorted_material(blocks_view(blocks@)) == Err::<
                (Option<Seq<u8>>, Seq<Seq<u8>>),
                CodesignError,
            >(e),
        },
{
    let ghost view = blocks_view(blocks@);
    let mut keys: Vec<Vec<u8>> = Vec::new();
    let mut certificates: Vec<Vec<u8>> = Vec::new();
    let mut i: usize = 0;
    assert(crate::code_directory::hashes_view(keys@) =~= Seq::<Seq<u8>>::empty());
    assert(crate::code_directory::hashes_view(certificates@) =~= Seq::<Seq<u8>>::empty());
    while i < blocks.len()
        invariant
            i <= blocks@.len(),
            view == blocks_view(blocks@),
            crate::code_directory::hashes_view(keys@) == tagged(view, "PRIVATE KEY"@, i as int),
            crate::code_directory::hashes_view(certificates@) == tagged(
                view,
                "CERTIFICATE"@,
                i as int,
            ),
        decreases blocks@.len() - i,
    {
        let block = &blocks[i];
        assert(view[i as int] == (block.tag@, block.contents@));
        let ghost old_keys = crate::code_directory::hashes_view(keys@);
        let ghost old_certificates = crate::code_directory::hashes_view(certificates@);
        if str_equal(block.tag.as_str(), "CERTIFICATE") {
            certificates.push(slice_to_vec(block.contents.as_slice()));
            assert(crate::code_directory::hashes_view(certificates@) =~= old_certificates.push(
                block.contents@,
            ));
        }
        if str_equal(block.tag.as_str(), "PRIVATE KEY") {
            keys.push(slice_to_vec(block.contents.as_slice()));
            assert(crate::code_directory::hashes_view(keys@) =~= old_keys.push(block.contents@));
        }
        i = i + 1;
    }
    if keys.len() > 1 {
        return Err(CodesignError::CliBadArgument);
    }
    if keys.len() == 1 && certificates.len() == 0 {
        return Err(CodesignError::CliBadArgument);
    }
    let private_key = keys.pop();
    let material = SigningMaterial { private_key, certificates };
    Ok(material)
}

/// The number of bytes to reserve for a CMS signature, where a `u32` holds
/// it.
pub fn max_signature_size(
    key: Option<CertificateKey>,
    modulus_len: Option<usize>,
    certificates: &Vec<Vec<u8>>,
    content_len: u32,
    time_stamped: bool,
) -> (size: Option<u32>)
    ensures
        match size {
            Some(n) => n == estimated_signature_size(
                key,
                modulus_len,
                total_bytes(
                    crate::code_directory::hashes_view(certificates@),
                    certificates@.len() as int,
                ),
                content_len as int,
                time_stamped,
            ),
            None => estimated_signature_size(
                key,
                modulus_len,
                total_bytes(
                    crate::code_directory::hashes_view(certificates@),
                    certificates@.len() as int,
                ),
                content_len as int,
                time_stamped,
            ) > u32::MAX,
        },
{
    let ghost list = crate::code_directory::hashes_view(certificates@);
    let mut total: u64 = 0;
    let mut i: usize = 0;
    while i < certificates.len()
        invariant
            i <= certificates@.len(),
            list == crate::code_directory::hashes_view(certificates@),
            total == total_bytes(list, i as int),
            total <= u32::MAX,
        decreases certificates@.len() - i,
    {
        let len = certificates[i].len() as u64;
        if len > 0xffff_ffff || total + len > 0xffff_ffff {
            proof {
                lemma_total_bytes_grows(list, i as int + 1, certificates@.len() as int);
            }
            return None;
        }
        total = total + len;
        i = i + 1;
    }
    let value: u64 = match classify_key(key, modulus_len) {
        Ok(algorithm) => algorithm.signature_bound() as u64,
        Err(_) => match (key, modulus_len) {
            (Some(CertificateKey::Rsa), Some(len)) => {
                if len > 0xffff_ffff {
                    return None;
                }
                len as u64
            },
            (Some(CertificateKey::Ed25519), _) => 64,
            _ => 512,
        },
    };
    let stamp: u64 = if time_stamped {
        8192
    } else {
        0
    };
    let size = value + 1024 + total + content_len as u64 + stamp;
    if size > 0xffff_ffff {
        None
    } else {
        Some(size as u32)
    }
}

/// The total of more byte strings is no less.
pub proof fn lemma_total_bytes_grows(list: Seq<Seq<u8>>, i: int, j: int)
    requires
        0 <= i <= j <= list.len(),
    ensures
        0 <= total_bytes(list, i) <= total_bytes(list, j),
    decreases j,
{
    if j > 0 {
        if i < j {
            lemma_total_bytes_grows(list, i, j - 1);
        } else {
            lemma_total_bytes_grows(list, i - 1, j - 1);
        }
    }
}

/// Whether a failed signing is tried again without time stamp: where a time
/// stamp was asked and the time-stamp server gave no token.
pub fn retries_without_time_stamp(error: CodesignError, time_stamped: bool) -> (retry: bool)
    ensures
        retry == (time_stamped && error == CodesignError::TimestampUnreachable),
{
    time_stamped && error == CodesignError::TimestampUnreachable
}

/// The readable form of a CMS signature.
///
/// Succeeds exactly where the bytes are read as a CMS signature, and fails
/// with `SigningFailed` where they are not. The text is the decoder's own
/// and is not fixed by the bytes.
pub fn describe_cms(ber: &[u8]) -> (result: Result<String, CodesignError>)
    ensures
        result is Ok <==> cms_readable(ber@),
        result matches Err(e) ==> e == CodesignError::SigningFailed,
{
    match cms_describe(ber) {
        Some(text) => Ok(text),
        None => Err(CodesignError::SigningFailed),
    }
}

/// Whether each of the certificates is read as a certificate by the
/// decoder.
pub open spec fn certificates_decode(certificates: Seq<Seq<u8>>) -> bool {
    forall|i: int| 0 <= i < certificates.len() ==> certificate_decodes(#[trigger] certificates[i])
}

/// The number of bytes that signing with a key reserves for the CMS
/// signature of a binary: the size estimated from the kind of key that the
/// first certificate is for, from the certificates, and from the length of
/// the signature without CMS, which bounds the content.
///
/// `CliBadArgument` where the material holds no key or no certificate,
/// `CertificateMalformed` where a certificate cannot be decoded, the error
/// of the settings where they are not valid, the error of the shape where
/// the binary cannot take a signature, and `BlobTooLarge` where a size is
/// more than a `u32` counts.
pub open spec fn key_reserve(
    shape: Result<MachoShape, CodesignError>,
    s: SettingsView,
    material: (Option<Seq<u8>>, Seq<Seq<u8>>),
    time_stamped: bool,
) -> Result<u32, CodesignError> {
    let certificates = material.1;
    if material.0 is None || certificates.len() == 0 {
        Err(CodesignError::CliBadArgument)
    } else if !certificates_decode(certificates) {
        Err(CodesignError::CertificateMalformed)
    } else {
        match (settings_valid(s), shape) {
            (Err(e), _) => Err(e),
            (Ok(_), Err(e)) => Err(e),
            (Ok(_), Ok(shape)) => {
                let content = signature_len(s, code_limit_of(shape) as int, None);
                let kind = certificate_key_kind(certificates[0]);
                let size = estimated_signature_size(
                    kind,
                    rsa_modulus_len(kind, certificates[0]),
                    total_bytes(certificates, certificates.len() as int),
                    content,
                    time_stamped,
                );
                if content > u32::MAX || size > u32::MAX {
                    Err(CodesignError::BlobTooLarge)
                } else {
                    Ok(size as u32)
                }
            },
        }
    }
}

/// The number of bytes that signing with a key reserves for the CMS
/// signature of a binary, or the error with which signing fails before a
/// signature is asked for: the error of `key_reserve`, or the error of the
/// layout where the signed file cannot be planned.
pub open spec fn key_plan(
    shape: Result<MachoShape, CodesignError>,
    s: SettingsView,
    material: (Option<Seq<u8>>, Seq<Seq<u8>>),
    time_stamped: bool,
) -> Result<u32, CodesignError> {
    match key_reserve(shape, s, material, time_stamped) {
        Err(e) => Err(e),
        Ok(size) => match planned_signature(shape->Ok_0, s, Some(size)) {
            Err(e) => Err(e),
            Ok(_) => Ok(size),
        },
    }
}

/// A result of signing as contracts speak of it: the bytes of the signed
/// file and whether the time stamp was left out, or the error.
pub open spec fn outcome(result: Result<SignedBinary, CodesignError>) -> Result<
    (Seq<u8>, bool),
    CodesignError,
> {
    match result {
        Ok(signed) => Ok((signed.file@, signed.timestamp_omitted)),
        Err(e) => Err(e),
    }
}

/// Whether `result` is one that signing the binary `data` with a key may
/// give.
///
/// Where signing fails before a signature is asked for, the result is that
/// error. Else the key is decoded and the CMS signature is made, which is
/// for the decoder and the signer to do: a signed file is the binary signed
/// with some CMS signature that fits in the bytes reserved, the time stamp
/// is left out only where one was asked, and a failure is
/// `PrivateKeyMalformed`, `SigningFailed` or `SignatureTooLarge`, or where
/// a time stamp was asked, what the time stamper gave; it is never
/// `TimestampUnreachable`.
pub open spec fn key_signed(
    data: Seq<u8>,
    shape: Result<MachoShape, CodesignError>,
    s: SettingsView,
    material: (Option<Seq<u8>>, Seq<Seq<u8>>),
    time_stamped: bool,
    result: Result<(Seq<u8>, bool), CodesignError>,
) -> bool {
    match key_plan(shape, s, material, time_stamped) {
        Err(e) => result == Err::<(Seq<u8>, bool), CodesignError>(e),
        Ok(reserved) => match result {
            Ok((file, omitted)) => {
                &&& planned_signature(shape->Ok_0, s, Some(reserved)) matches Ok(layout)
                    && file.len() == layout.file_len && file.subrange(0, layout.code_limit as int)
                    == signed_code(data, shape->Ok_0, layout)
                &&& exists|cms: Seq<u8>|
                    cms.len() <= reserved && file == #[trigger] signed_with(
                        data,
                        shape->Ok_0,
                        s,
                        Some(reserved),
                        Some(cms),
                    )
                &&& omitted ==> time_stamped
            },
            Err(e) => e != CodesignError::TimestampUnreachable && (time_stamped || e
                == CodesignError::PrivateKeyMalformed || e == CodesignError::SigningFailed || e
                == CodesignError::SignatureTooLarge),
        },
    }
}

fn decode_certificates(certificates: &Vec<Vec<u8>>) -> (chain: Option<
    Vec<x509_certificate::CapturedX509Certificate>,
>)
    ensures
        match chain {
            Some(list) => certificates_decode(crate::code_directory::hashes_view(certificates@))
                && list@.len() == certificates@.len(),
            None => !certificates_decode(crate::code_directory::hashes_view(certificates@)),
        },
{
    let ghost views = crate::code_directory::hashes_view(certificates@);
    let mut chain: Vec<x509_certificate::CapturedX509Certificate> = Vec::new();
    let mut i: usize = 0;
    while i < certificates.len()
        invariant
            i <= certificates@.len(),
            chain@.len() == i,
            views == crate::code_directory::hashes_view(certificates@),
            forall|k: int| 0 <= k < i ==> certificate_decodes(#[trigger] views[k]),
        decreases certificates@.len() - i,
    {
        assert(views[i as int] == certificates@[i as int]@);
        match parse_certificate(certificates[i].as_slice()) {
            None => {
                return None;
            },
            Some(certificate) => {
                chain.push(certificate);
            },
        }
        i = i + 1;
    }
    Some(chain)
}

/// Decodes the certificates and estimates the size to reserve for the CMS
/// signature.
fn reserve_for_key(
    view: &MachoView,
    settings: &SigningSettings,
    material: &SigningMaterial,
    time_stamped: bool,
) -> (result: Result<(u32, Vec<x509_certificate::CapturedX509Certificate>), CodesignError>)
    requires
        view.well_formed(),
    ensures
        match result {
            Ok((reserved, chain)) => key_reserve(
                view.shape,
                settings@,
                material_view(*material),
                time_stamped,
            ) == Ok::<u32, CodesignError>(reserved) && chain@.len() > 0 && view.shape is Ok
                && material.private_key is Some,
            Err(e) => key_reserve(view.shape, settings@, material_view(*material), time_stamped)
                == Err::<u32, CodesignError>(e),
        },
{
    if material.private_key.is_none() || material.certificates.len() == 0 {
        return Err(CodesignError::CliBadArgument);
    }
    let ghost certificates = crate::code_directory::hashes_view(material.certificates@);
    let chain = match decode_certificates(&material.certificates) {
        None => {
            return Err(CodesignError::CertificateMalformed);
        },
        Some(chain) => chain,
    };
    match settings.validate() {
        Err(e) => {
            return Err(e);
        },
        Ok(_) => {},
    }
    let shape = match view.shape {
        Err(e) => {
            return Err(e);
        },
        Ok(shape) => shape,
    };
    assert(certificates[0] == material.certificates@[0]@);
    let kind = crate::yubikey::certificate_key(material.certificates[0].as_slice());
    let modulus_len = crate::yubikey::modulus_len_of(material.certificates[0].as_slice(), kind);
    let content_len = match settings.signature_len(shape.code_limit(), None) {
        None => {
            return Err(CodesignError::BlobTooLarge);
        },
        Some(n) => n,
    };
    match max_signature_size(kind, modulus_len, &material.certificates, content_len, time_stamped) {
        None => Err(CodesignError::BlobTooLarge),
        Some(reserved) => Ok((reserved, chain)),
    }
}

/// Whether the time stamper, where there is one, can be called with every
/// message, key and certificates.
pub open spec fn stamper_ready<
    F: Fn(
        &[u8],
        &InMemorySigningKeyPair,
        &CapturedX509Certificate,
        &Vec<CapturedX509Certificate>,
    ) -> Result<Vec<u8>, CodesignError>,
>(stamper: Option<&F>) -> bool {
    stamper matches Some(f) ==> forall|
        message: &[u8],
        key: &InMemorySigningKeyPair,
        certificate: &CapturedX509Certificate,
        chain: &Vec<CapturedX509Certificate>,
    | f.requires((message, key, certificate, chain))
}

/// Makes the CMS signature over `message`: by the time stamper where there
/// is one, and else without time stamp. Where the time stamper says that
/// the time-stamp server gave no token, the signature is made without time
/// stamp, and the result says so.
fn cms_for<
    F: Fn(
        &[u8],
        &InMemorySigningKeyPair,
        &CapturedX509Certificate,
        &Vec<CapturedX509Certificate>,
    ) -> Result<Vec<u8>, CodesignError>,
>(
    message: &[u8],
    key: &InMemorySigningKeyPair,
    certificate: &CapturedX509Certificate,
    chain: &Vec<CapturedX509Certificate>,
    stamper: Option<&F>,
) -> (result: Result<(Vec<u8>, bool), CodesignError>)
    requires
        stamper_ready(stamper),
    ensures
        match result {
            Ok((_, omitted)) => omitted ==> stamper is Some,
            Err(e) => e != CodesignError::TimestampUnreachable && (stamper is Some || e
                == CodesignError::SigningFailed),
        },
{
    let first = match stamper {
        Some(stamp) => stamp(message, key, certificate, chain),
        None => match cms_sign(message, key, certificate, chain) {
            Some(signature) => Ok(signature),
            None => Err(CodesignError::SigningFailed),
        },
    };
    match first {
        Ok(signature) => Ok((signature, false)),
        Err(e) => {
            if !retries_without_time_stamp(e, stamper.is_some()) {
                return Err(e);
            }
            match cms_sign(message, key, certificate, chain) {
                Some(signature) => Ok((signature, true)),
                None => Err(CodesignError::SigningFailed),
            }
        },
    }
}

/// Signs a binary with a key held in memory.
///
/// What the library decides comes first: the material is complete, the
/// certificates decode, the settings are valid, the binary can take a
/// signature, and the signed file can be planned with the size reserved
/// for the CMS signature, which is estimated from the kind of key that the
/// first certificate is for, from the certificates and from the length of
/// the signature without CMS, which bounds the content. Then the key is
/// decoded, the code directory is built, the CMS signature is made over
/// the code directory's blob, and the signature, padded to the reserved
/// size, is put behind the code.
///
/// A time stamp is asked by giving a time stamper: a function that makes
/// the CMS signature over a message with a time-stamp token, for which it
/// asks a time-stamp server, and fails with `TimestampUnreachable` where
/// the server gives none. The signature is then made without time stamp,
/// and the result says so. The library itself asks no server.
///
/// Fails as `key_plan` says; then with `PrivateKeyMalformed` where the key
/// cannot be decoded, with the error of the time stamper, with
/// `SigningFailed` where no signature can be made, and with
/// `SignatureTooLarge` where the signature is longer than the size
/// reserved for it.
pub fn sign_with_key<
    F: Fn(
        &[u8],
        &InMemorySigningKeyPair,
        &CapturedX509Certificate,
        &Vec<CapturedX509Certificate>,
    ) -> Result<Vec<u8>, CodesignError>,
>(
    view: &MachoView,
    settings: &SigningSettings,
    material: &SigningMaterial,
    stamper: Option<&F>,
) -> (result: Result<SignedBinary, CodesignError>)
    requires
        view.well_formed(),
        stamper_ready(stamper),
    ensures
        key_signed(
            view.data@,
            view.shape,
            settings@,
            material_view(*material),
            stamper is Some,
            outcome(result),
        ),
{
    let (reserved, chain) = match reserve_for_key(view, settings, material, stamper.is_some()) {
        Err(e) => {
            return Err(e);
        },
        Ok(pair) => pair,
    };
    let mut chain = chain;
    let prepared = match prepare(view, settings, Some(reserved)) {
        Err(e) => {
            return Err(e);
        },
        Ok(prepared) => prepared,
    };
    let key_der = match &material.private_key {
        None => {
            return Err(CodesignError::PrivateKeyMalformed);
        },
        Some(der) => der,
    };
    let key = match parse_signing_key(key_der.as_slice()) {
        None => {
            return Err(CodesignError::PrivateKeyMalformed);
        },
        Some(key) => key,
    };
    let certificate = chain.remove(0);
    let (cms, omitted) = match cms_for(
        prepared.directory_bytes().as_slice(),
        &key,
        &certificate,
        &chain,
        stamper,
    ) {
        Err(e) => {
            return Err(e);
        },
        Ok(pair) => pair,
    };
    proof {
        if cms@.len() <= reserved {
            lemma_finished(prepared, Some(cms@));
        }
    }
    match finish(prepared, Some(cms.as_slice())) {
        Err(e) => Err(e),
        Ok(file) => {
            assert(file@ == signed_with(
                view.data@,
                view.signing_shape(),
                settings@,
                Some(reserved),
                Some(cms@),
            ));
            Ok(SignedBinary { file, timestamp_omitted: omitted })
        },
    }
}

/// The number of bytes of the DER value at the front of `bytes`, by its
/// header: the tag, and the length in the short form or in the long form of
/// up to four bytes. Nothing where the bytes end inside the header or the
/// length is written otherwise.
pub open spec fn der_len(bytes: Seq<u8>) -> Option<int> {
    if bytes.len() < 2 {
        None
    } else if bytes[1] < 0x80 {
        Some(2 + bytes[1] as int)
    } else if bytes[1] == 0x80 || bytes[1] > 0x84 || bytes.len() < 2 + (bytes[1] - 0x80) {
        None
    } else {
        Some(2 + (bytes[1] - 0x80) + long_form(bytes, 2, bytes[1] - 0x80))
    }
}

/// The number that the `n` bytes from `at` write, most significant first.
pub open spec fn long_form(bytes: Seq<u8>, at: int, n: int) -> int
    decreases n,
{
    if n <= 0 {
        0
    } else {
        256 * long_form(bytes, at, n - 1) + bytes[at + n - 1] as int
    }
}

/// The CMS signature in the payload of a signature slot, without the zero
/// bytes that pad it: the DER value at the front of the payload, or all of
/// the payload where its front is no DER header or the value does not lie
/// within it.
pub fn signature_without_padding(payload: &[u8]) -> (cms: &[u8])
    ensures
        cms@ == match der_len(payload@) {
            Some(n) => if n <= payload@.len() {
                payload@.subrange(0, n)
            } else {
                payload@
            },
            None => payload@,
        },
{
    let ghost all = payload@.subrange(0, payload@.len() as int);
    assert(all =~= payload@);
    let whole = vstd::slice::slice_subrange(payload, 0, payload.len());
    if payload.len() < 2 {
        return whole;
    }
    let first = payload[1];
    let total: u64 = if first < 0x80 {
        2 + first as u64
    } else {
        if first == 0x80 || first > 0x84 {
            return whole;
        }
        let n = (first - 0x80) as usize;
        if payload.len() < 2 + n {
            return whole;
        }
        let mut value: u64 = 0;
        let mut i: usize = 0;
        while i < n
            invariant
                i <= n <= 4,
                2 + n <= payload@.len(),
                value == long_form(payload@, 2, i as int),
                value < 0x1_0000_0000,
                i < 4 ==> value < 0x100_0000,
                i < 3 ==> value < 0x1_0000,
                i < 2 ==> value < 0x100,
                i < 1 ==> value == 0,
            decreases n - i,
        {
            value = value * 256 + payload[2 + i] as u64;
            i = i + 1;
        }
        2 + n as u64 + value
    };
    if total <= payload.len() as u64 {
        vstd::slice::slice_subrange(payload, 0, total as usize)
    } else {
        whole
    }
}

} // verus!
