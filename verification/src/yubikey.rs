//! Signing with a key on a PIV smartcard.
//!
//! The card signs a digest that the library prepares. It may refuse until a
//! PIN has been verified, which is asked of a resolver that the caller sets.
//! What to do next after each answer of the card is decided here; talking to
//! the card is left to the caller, who holds the card's handle exclusively
//! while it does so.

use std::sync::Arc;
use std::sync::Mutex;
use std::sync::MutexGuard;
use vstd::prelude::*;
use x509_certificate::DigestAlgorithm;
use x509_certificate::SignatureAlgorithm;
use vstd::slice::slice_to_vec;
use crate::digest::{hash_value, HashFunction, pkcs1_block};
use crate::error::CodesignError;
use crate::identity::{certificate_decodes, parse_certificate};
use crate::macho::{code_limit_of, MachoShape};
use crate::macho_load::MachoView;
use crate::signing::{settings_valid, SettingsView, signature_len, SigningSettings};

verus! {

/// The number of times that a signature is asked of the card at most.
pub const MAX_ATTEMPTS: u8 = 3;

/// Declares `std::sync::Mutex`, the lock around the handle of the card.
/// Nothing is known of what it holds.
#[verifier::external_type_specification]
#[verifier::external_body]
#[verifier::reject_recursive_types(T)]
pub struct ExMutex<T: ?Sized>(Mutex<T>);

/// Declares `std::sync::MutexGuard`, the exclusive hold of the card.
/// Nothing is known of what it holds.
#[verifier::external_type_specification]
#[verifier::external_body]
#[verifier::reject_recursive_types(T)]
pub struct ExMutexGuard<'a, T: ?Sized + 'a>(MutexGuard<'a, T>);

/// Declares `x509_certificate::CapturedX509Certificate`, a certificate with
/// the bytes it was read from. Nothing is known of what it holds.
#[verifier::external_type_specification]
#[verifier::external_body]
pub struct ExCapturedX509Certificate(x509_certificate::CapturedX509Certificate);

/// A slot of the PIV application that holds a key and its certificate.
#[derive(Clone, Copy, Debug, PartialEq, Eq, Structural)]
pub enum SlotId {
    Authentication,
    Signature,
    KeyManagement,
    CardAuthentication,
    /// A retired key management slot, by its number.
    Retired(u8),
    Attestation,
}

/// The algorithm of a key on the card.
#[derive(Clone, Copy, Debug, PartialEq, Eq, Structural)]
pub enum KeyAlgorithm {
    Rsa1024,
    Rsa2048,
    EcdsaP256,
    EcdsaP384,
}

/// The kind of key that a certificate is for.
#[derive(Clone, Copy, Debug, PartialEq, Eq, Structural)]
pub enum CertificateKey {
    Rsa,
    EcdsaP256,
    EcdsaP384,
    Ed25519,
}

/// The signature algorithm that a certificate names.
#[derive(Clone, Copy, Debug, PartialEq, Eq, Structural)]
pub enum SignatureKind {
    RsaSha1,
    RsaSha256,
    RsaSha384,
    RsaSha512,
    EcdsaSha256,
    EcdsaSha384,
    Ed25519,
    /// No signature, with the digest of the given function.
    NoSignature(HashFunction),
}

/// A connection to a PIV smartcard.
///
/// `D` is the handle of the card and `P` the resolver that is asked for the
/// PIN. The handle is shared with the signers made from this connection; who
/// talks to the card acquires it exclusively.
#[verifier::reject_recursive_types(D)]
pub struct YubiKey<D, P> {
    yk: Arc<Mutex<D>>,
    pin_callback: Option<P>,
}

/// A certificate that was read from a slot of the card: the DER bytes as
/// the card gave them.
#[derive(Debug, PartialEq, Eq)]
pub struct SlotCertificate {
    pub slot: SlotId,
    pub der: Vec<u8>,
}

/// A signer that uses the key and the certificate of one slot of the card.
///
/// It holds the certificate as the DER bytes that the card gave. Whatever
/// is said of the certificate is read from these bytes, so that there is
/// one certificate and no other.
#[verifier::reject_recursive_types(D)]
pub struct CertificateSigner<D, P> {
    yk: Arc<Mutex<D>>,
    slot: SlotId,
    der: Vec<u8>,
    pin_callback: Option<P>,
}

/// Calls `std::sync::Mutex::new`.
#[verifier::external_body]
fn new_handle<D>(device: D) -> (handle: Mutex<D>) {
    Mutex::new(device)
}

/// Calls `std::sync::Arc::clone`.
///
/// Claims that the clone is the same handle.
#[verifier::external_body]
fn share_handle<D>(handle: &Arc<Mutex<D>>) -> (shared: Arc<Mutex<D>>)
    ensures
        shared == *handle,
{
    handle.clone()
}

/// Calls `std::sync::Mutex::try_lock`.
///
/// Claims that a failure is one of two: another holder has the handle, or a
/// holder panicked while it had it. Which outcome comes depends on the other
/// holders, so nothing is said of when each comes.
#[verifier::external_body]
fn acquire<'a, D>(handle: &'a Mutex<D>) -> (result: Result<MutexGuard<'a, D>, CodesignError>)
    ensures
        result matches Err(e) ==> e == CodesignError::DeviceBusy || e
            == CodesignError::LockPoisoned,
{
    match handle.try_lock() {
        Ok(guard) => Ok(guard),
        Err(std::sync::TryLockError::WouldBlock) => Err(CodesignError::DeviceBusy),
        Err(std::sync::TryLockError::Poisoned(_)) => Err(CodesignError::LockPoisoned),
    }
}

/// The kind of key that the certificate with the DER bytes `der` is for, as
/// `x509_certificate::X509Certificate::key_algorithm` gives it; none where
/// the bytes are no certificate or the kind is not known.
pub uninterp spec fn certificate_key_kind(der: Seq<u8>) -> Option<CertificateKey>;

/// The bytes of the modulus of the RSA key that the certificate with the DER
/// bytes `der` is for, as
/// `x509_certificate::X509Certificate::rsa_public_key_data` gives them; none
/// where the bytes are no certificate or its key holds no RSA modulus.
pub uninterp spec fn certificate_rsa_modulus(der: Seq<u8>) -> Option<Seq<u8>>;

/// The signature algorithm that the certificate with the DER bytes `der`
/// names, as `x509_certificate::X509Certificate::signature_algorithm` gives
/// it; none where the bytes are no certificate or the algorithm is not
/// known.
pub uninterp spec fn certificate_signature_kind(der: Seq<u8>) -> Option<SignatureKind>;

/// Calls `x509_certificate::X509Certificate::from_der` on `der` and
/// `x509_certificate::X509Certificate::key_algorithm` on what it gives.
///
/// Claims that the result is fixed by the bytes; nothing of which kind
/// comes.
#[verifier::external_body]
pub(crate) fn certificate_key(der: &[u8]) -> (key: Option<CertificateKey>)
    ensures
        key == certificate_key_kind(der@),
{
    match x509_certificate::X509Certificate::from_der(der).ok()?.key_algorithm()? {
        x509_certificate::KeyAlgorithm::Rsa => Some(CertificateKey::Rsa),
        x509_certificate::KeyAlgorithm::Ed25519 => Some(CertificateKey::Ed25519),
        x509_certificate::KeyAlgorithm::Ecdsa(x509_certificate::EcdsaCurve::Secp256r1) => Some(CertificateKey::EcdsaP256),
        x509_certificate::KeyAlgorithm::Ecdsa(x509_certificate::EcdsaCurve::Secp384r1) => Some(CertificateKey::EcdsaP384),
    }
}

/// Calls `x509_certificate::X509Certificate::from_der` on `der` and
/// `x509_certificate::X509Certificate::rsa_public_key_data` on what it
/// gives, and hands out the bytes of the modulus as the certificate stores
/// them.
///
/// Claims that the result is fixed by the bytes; nothing of what the
/// modulus holds.
#[verifier::external_body]
fn certificate_modulus(der: &[u8]) -> (modulus: Option<Vec<u8>>)
    ensures
        match modulus {
            Some(bytes) => certificate_rsa_modulus(der@) == Some(bytes@),
            None => certificate_rsa_modulus(der@) is None,
        },
{
    let certificate = x509_certificate::X509Certificate::from_der(der).ok()?;
    Some(certificate.rsa_public_key_data().ok()?.modulus.as_slice().to_vec())
}

/// The number of bytes of the modulus of the RSA key that the certificate
/// with the DER bytes `der` is for: none where `key` is not RSA, and none
/// where the certificate gives no modulus.
pub open spec fn rsa_modulus_len(key: Option<CertificateKey>, der: Seq<u8>) -> Option<usize> {
    if key == Some(CertificateKey::Rsa) {
        match certificate_rsa_modulus(der) {
            Some(modulus) => Some(modulus.len() as usize),
            None => None,
        }
    } else {
        None
    }
}

/// The algorithm of the key on the card whose certificate has the DER bytes
/// `der`: the classification of the kind of key that the certificate is
/// for, with the length of its modulus where the key is RSA.
pub open spec fn key_algorithm_of(der: Seq<u8>) -> Result<KeyAlgorithm, CodesignError> {
    classified(certificate_key_kind(der), rsa_modulus_len(certificate_key_kind(der), der))
}

/// The number of bytes of the modulus of the RSA key that the certificate
/// is for, where the certificate is for an RSA key and gives its modulus.
/// The certificate is asked for the modulus only where `key` is RSA.
pub(crate) fn modulus_len_of(der: &[u8], key: Option<CertificateKey>) -> (len: Option<usize>)
    ensures
        len == rsa_modulus_len(key, der@),
{
    match key {
        Some(CertificateKey::Rsa) => match certificate_modulus(der) {
            Some(modulus) => Some(modulus.len()),
            None => None,
        },
        _ => None,
    }
}

/// Calls `x509_certificate::X509Certificate::from_der` on `der` and
/// `x509_certificate::X509Certificate::signature_algorithm` on what it
/// gives.
///
/// Claims that the result is fixed by the bytes; nothing of which algorithm
/// comes.
#[verifier::external_body]
fn certificate_signature(der: &[u8]) -> (kind: Option<SignatureKind>)
    ensures
        kind == certificate_signature_kind(der@),
{
    Some(match x509_certificate::X509Certificate::from_der(der).ok()?.signature_algorithm()? {
        SignatureAlgorithm::RsaSha1 => SignatureKind::RsaSha1,
        SignatureAlgorithm::RsaSha256 => SignatureKind::RsaSha256,
        SignatureAlgorithm::RsaSha384 => SignatureKind::RsaSha384,
        SignatureAlgorithm::RsaSha512 => SignatureKind::RsaSha512,
        SignatureAlgorithm::EcdsaSha256 => SignatureKind::EcdsaSha256,
        SignatureAlgorithm::EcdsaSha384 => SignatureKind::EcdsaSha384,
        SignatureAlgorithm::Ed25519 => SignatureKind::Ed25519,
        SignatureAlgorithm::NoSignature(DigestAlgorithm::Sha1) => SignatureKind::NoSignature(HashFunction::Sha1),
        SignatureAlgorithm::NoSignature(DigestAlgorithm::Sha256) => SignatureKind::NoSignature(HashFunction::Sha256),
        SignatureAlgorithm::NoSignature(DigestAlgorithm::Sha384) => SignatureKind::NoSignature(HashFunction::Sha384),
        SignatureAlgorithm::NoSignature(DigestAlgorithm::Sha512) => SignatureKind::NoSignature(HashFunction::Sha512),
    })
}

/// The algorithm of the key on the card, by the kind of key of its
/// certificate and, for RSA, the number of bytes of the modulus as the
/// certificate stores it, with its leading zero byte.
///
/// `UnsupportedKeyAlgorithm` where the kind is unknown or Ed25519, or the
/// modulus is neither 129 nor 257 bytes long; `CertificateMalformed` where an
/// RSA certificate gives no modulus.
pub open spec fn classified(key: Option<CertificateKey>, modulus_len: Option<usize>) -> Result<
    KeyAlgorithm,
    CodesignError,
> {
    match key {
        None => Err(CodesignError::UnsupportedKeyAlgorithm),
        Some(CertificateKey::Ed25519) => Err(CodesignError::UnsupportedKeyAlgorithm),
        Some(CertificateKey::EcdsaP256) => Ok(KeyAlgorithm::EcdsaP256),
        Some(CertificateKey::EcdsaP384) => Ok(KeyAlgorithm::EcdsaP384),
        Some(CertificateKey::Rsa) => match modulus_len {
            None => Err(CodesignError::CertificateMalformed),
            Some(len) => if len == 129 {
                Ok(KeyAlgorithm::Rsa1024)
            } else if len == 257 {
                Ok(KeyAlgorithm::Rsa2048)
            } else {
                Err(CodesignError::UnsupportedKeyAlgorithm)
            },
        },
    }
}

/// The hash function of a signature algorithm, where it has one.
pub open spec fn digest_function(kind: SignatureKind) -> Option<HashFunction> {
    match kind {
        SignatureKind::RsaSha1 => Some(HashFunction::Sha1),
        SignatureKind::RsaSha256 => Some(HashFunction::Sha256),
        SignatureKind::RsaSha384 => Some(HashFunction::Sha384),
        SignatureKind::RsaSha512 => Some(HashFunction::Sha512),
        SignatureKind::EcdsaSha256 => Some(HashFunction::Sha256),
        SignatureKind::EcdsaSha384 => Some(HashFunction::Sha384),
        SignatureKind::Ed25519 => None,
        SignatureKind::NoSignature(function) => Some(function),
    }
}

/// The bytes handed to the card for a message: for RSA the padded block of
/// the width of the modulus over the message's digest, for ECDSA the digest.
pub open spec fn signing_input(algorithm: KeyAlgorithm, function: HashFunction, message: Seq<u8>) -> Seq<
    u8,
> {
    match algorithm {
        KeyAlgorithm::Rsa1024 => pkcs1_block(function, hash_value(function, message), 128),
        KeyAlgorithm::Rsa2048 => pkcs1_block(function, hash_value(function, message), 256),
        KeyAlgorithm::EcdsaP256 => hash_value(function, message),
        KeyAlgorithm::EcdsaP384 => hash_value(function, message),
    }
}

/// What preparing the input of the card gives: the algorithm of the key and
/// the bytes to sign.
///
/// The errors of the key come first. `UnsupportedHash` where the certificate
/// names no signature algorithm or one without hash function.
pub open spec fn prepared_input(
    key: Option<CertificateKey>,
    modulus_len: Option<usize>,
    signature: Option<SignatureKind>,
    message: Seq<u8>,
) -> Result<(KeyAlgorithm, Seq<u8>), CodesignError> {
    match classified(key, modulus_len) {
        Err(e) => Err(e),
        Ok(algorithm) => match signature {
            None => Err(CodesignError::UnsupportedHash),
            Some(kind) => match digest_function(kind) {
                None => Err(CodesignError::UnsupportedHash),
                Some(function) => Ok((algorithm, signing_input(algorithm, function, message))),
            },
        },
    }
}

/// Classifies the key on the card.
pub fn classify_key(key: Option<CertificateKey>, modulus_len: Option<usize>) -> (result: Result<
    KeyAlgorithm,
    CodesignError,
>)
    ensures
        result == classified(key, modulus_len),
{
    match key {
        None => Err(CodesignError::UnsupportedKeyAlgorithm),
        Some(CertificateKey::Ed25519) => Err(CodesignError::UnsupportedKeyAlgorithm),
        Some(CertificateKey::EcdsaP256) => Ok(KeyAlgorithm::EcdsaP256),
        Some(CertificateKey::EcdsaP384) => Ok(KeyAlgorithm::EcdsaP384),
        Some(CertificateKey::Rsa) => match modulus_len {
            None => Err(CodesignError::CertificateMalformed),
            Some(len) => {
                if len == 129 {
                    Ok(KeyAlgorithm::Rsa1024)
                } else if len == 257 {
                    Ok(KeyAlgorithm::Rsa2048)
                } else {
                    Err(CodesignError::UnsupportedKeyAlgorithm)
                }
            },
        },
    }
}

impl SignatureKind {
    /// The hash function of this signature algorithm, where it has one.
    pub fn digest_function(&self) -> (function: Option<HashFunction>)
        ensures
            function == digest_function(*self),
    {
        match self {
            SignatureKind::RsaSha1 => Some(HashFunction::Sha1),
            SignatureKind::RsaSha256 => Some(HashFunction::Sha256),
            SignatureKind::RsaSha384 => Some(HashFunction::Sha384),
            SignatureKind::RsaSha512 => Some(HashFunction::Sha512),
            SignatureKind::EcdsaSha256 => Some(HashFunction::Sha256),
            SignatureKind::EcdsaSha384 => Some(HashFunction::Sha384),
            SignatureKind::Ed25519 => None,
            SignatureKind::NoSignature(function) => Some(*function),
        }
    }
}

impl KeyAlgorithm {
    /// The number of bits of an RSA modulus; zero for a curve.
    pub fn rsa_bits(&self) -> (bits: usize)
        ensures
            bits == match *self {
                KeyAlgorithm::Rsa1024 => 1024usize,
                KeyAlgorithm::Rsa2048 => 2048usize,
                _ => 0usize,
            },
    {
        match self {
            KeyAlgorithm::Rsa1024 => 1024,
            KeyAlgorithm::Rsa2048 => 2048,
            _ => 0,
        }
    }

    /// The number of bytes to reserve for a CMS signature made with such a
    /// key, where a `u32` holds it.
    pub fn max_signature_size(
        &self,
        certificates_len: usize,
        content_len: u32,
        time_stamped: bool,
    ) -> (size: Option<u32>)
        ensures
            match size {
                Some(n) => n == reserved_size(
                    *self,
                    certificates_len as int,
                    content_len as int,
                    time_stamped,
                ),
                None => reserved_size(
                    *self,
                    certificates_len as int,
                    content_len as int,
                    time_stamped,
                ) > u32::MAX,
            },
    {
        if certificates_len > 0xffff_ffff {
            return None;
        }
        let stamp: u64 = if time_stamped {
            8192
        } else {
            0
        };
        let size: u64 = self.signature_bound() as u64 + 1024 + certificates_len as u64
            + content_len as u64 + stamp;
        if size > 0xffff_ffff {
            None
        } else {
            Some(size as u32)
        }
    }

    /// The greatest number of bytes of a signature made with such a key: the
    /// width of the modulus for RSA, and for ECDSA two integers of the size
    /// of the curve's order with eight bytes of DER around them.
    pub fn signature_bound(&self) -> (bound: usize)
        ensures
            bound == signature_bound(*self),
    {
        match self {
            KeyAlgorithm::Rsa1024 => 128,
            KeyAlgorithm::Rsa2048 => 256,
            KeyAlgorithm::EcdsaP256 => 72,
            KeyAlgorithm::EcdsaP384 => 104,
        }
    }
}

/// The number of bytes to reserve for a CMS signature made with a key of
/// `algorithm`: the bound of the signature value, 1024 bytes for the
/// envelope, the certificates, the content that the signature carries, and
/// 8192 bytes for a time-stamp token where one is asked.
pub open spec fn reserved_size(
    algorithm: KeyAlgorithm,
    certificates_len: int,
    content_len: int,
    time_stamped: bool,
) -> int {
    signature_bound(algorithm) + 1024 + certificates_len + content_len + if time_stamped {
        8192int
    } else {
        0int
    }
}

/// The greatest number of bytes of a signature made with a key of
/// `algorithm`.
pub open spec fn signature_bound(algorithm: KeyAlgorithm) -> nat {
    match algorithm {
        KeyAlgorithm::Rsa1024 => 128,
        KeyAlgorithm::Rsa2048 => 256,
        KeyAlgorithm::EcdsaP256 => 72,
        KeyAlgorithm::EcdsaP384 => 104,
    }
}

/// What the card is handed for `message` where the certificate of its key
/// has the DER bytes `der`: the algorithm of the key, and the bytes to sign
/// under the hash function of the certificate's signature algorithm.
pub open spec fn card_input(der: Seq<u8>, message: Seq<u8>) -> Result<
    (KeyAlgorithm, Seq<u8>),
    CodesignError,
> {
    prepared_input(
        certificate_key_kind(der),
        rsa_modulus_len(certificate_key_kind(der), der),
        certificate_signature_kind(der),
        message,
    )
}

/// The number of bytes to reserve for the CMS signature that the key on the
/// card makes of a binary, where the certificate of the key has the DER
/// bytes `der`: the size reserved for a key of the card's algorithm, for
/// the certificate and for the signature without CMS, which bounds the
/// content.
pub open spec fn card_reserved(
    shape: Result<MachoShape, CodesignError>,
    s: SettingsView,
    der: Seq<u8>,
) -> Result<u32, CodesignError> {
    match (settings_valid(s), shape, key_algorithm_of(der)) {
        (Err(e), _, _) => Err(e),
        (Ok(_), Err(e), _) => Err(e),
        (Ok(_), Ok(_), Err(e)) => Err(e),
        (Ok(_), Ok(shape), Ok(algorithm)) => {
            let content = signature_len(s, code_limit_of(shape) as int, None);
            let size = reserved_size(algorithm, der.len() as int, content, false);
            if content > u32::MAX || size > u32::MAX {
                Err(CodesignError::BlobTooLarge)
            } else {
                Ok(size as u32)
            }
        },
    }
}

/// Prepares what the card signs for `message`, from what the certificate of
/// the slot says of its key and of its signature algorithm.
pub fn prepare_signing_input(
    key: Option<CertificateKey>,
    modulus_len: Option<usize>,
    signature: Option<SignatureKind>,
    message: &[u8],
) -> (result: Result<(KeyAlgorithm, Vec<u8>), CodesignError>)
    ensures
        match result {
            Ok((algorithm, input)) => prepared_input(key, modulus_len, signature, message@) == Ok::<
                (KeyAlgorithm, Seq<u8>),
                CodesignError,
            >((algorithm, input@)),
            Err(e) => prepared_input(key, modulus_len, signature, message@) == Err::<
                (KeyAlgorithm, Seq<u8>),
                CodesignError,
            >(e),
        },
{
    let algorithm = match classify_key(key, modulus_len) {
        Err(e) => {
            return Err(e);
        },
        Ok(algorithm) => algorithm,
    };
    let kind = match signature {
        None => {
            return Err(CodesignError::UnsupportedHash);
        },
        Some(kind) => kind,
    };
    let function = match kind.digest_function() {
        None => {
            return Err(CodesignError::UnsupportedHash);
        },
        Some(function) => function,
    };
    let input = match algorithm {
        KeyAlgorithm::Rsa1024 => match function.rsa_pkcs1_encode_message(message, 128) {
            Some(block) => block,
            None => {
                return Err(CodesignError::UnsupportedKeyAlgorithm);
            },
        },
        KeyAlgorithm::Rsa2048 => match function.rsa_pkcs1_encode_message(message, 256) {
            Some(block) => block,
            None => {
                return Err(CodesignError::UnsupportedKeyAlgorithm);
            },
        },
        KeyAlgorithm::EcdsaP256 => function.digest(message),
        KeyAlgorithm::EcdsaP384 => function.digest(message),
    };
    Ok((algorithm, input))
}

/// The index of the first slot at or behind `from` that is `slot`.
pub open spec fn first_slot(slots: Seq<SlotId>, slot: SlotId, from: int) -> Option<int>
    decreases slots.len() - from,
{
    if from < 0 || from >= slots.len() {
        None
    } else if slots[from] == slot {
        Some(from)
    } else {
        first_slot(slots, slot, from + 1)
    }
}

/// The slots of a list of certificates, in their order.
pub open spec fn slots_of(found: Seq<SlotCertificate>) -> Seq<SlotId> {
    Seq::new(found.len(), |i: int| found[i].slot)
}

/// Whether each of the certificates that were read from the card is read
/// as a certificate by the decoder.
pub open spec fn all_decode(read: Seq<(SlotId, Vec<u8>)>) -> bool {
    forall|i: int| 0 <= i < read.len() ==> certificate_decodes((#[trigger] read[i]).1@)
}

impl<D, P: Copy> YubiKey<D, P> {
    /// Takes the handle of a card. No resolver for the PIN is set.
    pub fn new(device: D) -> (key: Self)
        ensures
            key.pin_callback() is None,
    {
        YubiKey { yk: Arc::new(new_handle(device)), pin_callback: None }
    }

    /// The resolver that is asked for the PIN, where one is set.
    pub closed spec fn pin_callback(&self) -> Option<P> {
        self.pin_callback
    }

    /// The shared handle of the card.
    pub closed spec fn handle(&self) -> Arc<Mutex<D>> {
        self.yk
    }

    /// Sets the resolver that is asked for the PIN when the card refuses to
    /// sign for want of authentication. The card stays the same.
    pub fn set_pin_callback(&mut self, cb: P)
        ensures
            final(self).pin_callback() == Some(cb),
            final(self).handle() == old(self).handle(),
    {
        self.pin_callback = Some(cb);
    }

    /// Whether a resolver for the PIN is set.
    pub fn has_pin_callback(&self) -> (set: bool)
        ensures
            set == self.pin_callback() is Some,
    {
        self.pin_callback.is_some()
    }

    /// Acquires the card exclusively, without waiting.
    ///
    /// Fails with `DeviceBusy` where another holder has the card and with
    /// `LockPoisoned` where a holder panicked while it had it; success and
    /// failure depend on the other holders alone.
    pub fn inner(&self) -> (result: Result<MutexGuard<'_, D>, CodesignError>)
        ensures
            result matches Err(e) ==> e == CodesignError::DeviceBusy || e
                == CodesignError::LockPoisoned,
    {
        acquire(&*self.yk)
    }

    /// Checks that the certificates that were read from the card decode,
    /// and gives them slot by slot in the order in which they were read.
    ///
    /// Fails with `CertificateMalformed` exactly where one of them is not
    /// read as a certificate by the decoder.
    pub fn find_certificates(&self, read: Vec<(SlotId, Vec<u8>)>) -> (result: Result<
        Vec<SlotCertificate>,
        CodesignError,
    >)
        ensures
            match result {
                Ok(found) => all_decode(read@) && found@.len() == read@.len() && forall|i: int|
                    0 <= i < found@.len() ==> (#[trigger] found@[i]).slot == read@[i].0
                        && found@[i].der@ == read@[i].1@,
                Err(e) => !all_decode(read@) && e == CodesignError::CertificateMalformed,
            },
    {
        let mut found: Vec<SlotCertificate> = Vec::new();
        let mut i: usize = 0;
        while i < read.len()
            invariant
                i <= read@.len(),
                found@.len() == i,
                forall|k: int| 0 <= k < i ==> certificate_decodes((#[trigger] read@[k]).1@),
                forall|k: int|
                    0 <= k < i ==> (#[trigger] found@[k]).slot == read@[k].0 && found@[k].der@
                        == read@[k].1@,
            decreases read@.len() - i,
        {
            match parse_certificate(read[i].1.as_slice()) {
                None => {
                    assert(!certificate_decodes(read@[i as int].1@));
                    return Err(CodesignError::CertificateMalformed);
                },
                Some(_) => {
                    let der = slice_to_vec(read[i].1.as_slice());
                    found.push(SlotCertificate { slot: read[i].0, der });
                },
            }
            i = i + 1;
        }
        Ok(found)
    }

    /// Makes the signer for the slot `slot_id` from the certificates that
    /// were read from the card: the signer of the first certificate in that
    /// slot, or none where no certificate is in it. The signer shares the
    /// card's handle and has the resolver of this connection.
    pub fn get_certificate_signer(&self, found: Vec<SlotCertificate>, slot_id: SlotId) -> (signer:
        Option<CertificateSigner<D, P>>)
        ensures
            match signer {
                Some(s) => first_slot(slots_of(found@), slot_id, 0) matches Some(i) && s.slot_id()
                    == slot_id && s.der_of() == found@[i].der@ && s.pin_callback()
                    == self.pin_callback() && s.handle() == self.handle(),
                None => first_slot(slots_of(found@), slot_id, 0) is None,
            },
    {
        let ghost slots = slots_of(found@);
        let mut rest = found;
        let mut i: usize = 0;
        while i < rest.len()
            invariant
                i <= rest@.len(),
                rest@ == found@,
                slots == slots_of(found@),
                first_slot(slots, slot_id, 0) == first_slot(slots, slot_id, i as int),
            decreases rest@.len() - i,
        {
            assert(slots[i as int] == rest@[i as int].slot);
            if rest[i].slot == slot_id {
                let SlotCertificate { slot: _, der } = rest.remove(i);
                assert(first_slot(slots, slot_id, 0) == Some(i as int));
                return Some(
                    CertificateSigner {
                        yk: share_handle(&self.yk),
                        slot: slot_id,
                        der,
                        pin_callback: self.pin_callback,
                    },
                );
            }
            i = i + 1;
        }
        None
    }
}

impl<D, P: Copy> From<D> for YubiKey<D, P> {
    /// Takes the handle of a card. No resolver for the PIN is set.
    fn from(device: D) -> (key: Self)
        ensures
            key.pin_callback() is None,
    {
        YubiKey::new(device)
    }
}

impl<D, P: Copy> vstd::std_specs::convert::FromSpecImpl<D> for YubiKey<D, P> {
    /// Nothing is said of the connection in terms of the handle: the lock
    /// around the handle has no value that a contract could name.
    open spec fn obeys_from_spec() -> bool {
        false
    }

    open spec fn from_spec(device: D) -> Self {
        arbitrary()
    }
}

impl<D, P: Copy> CertificateSigner<D, P> {
    /// The slot of the key.
    pub closed spec fn slot_id(&self) -> SlotId {
        self.slot
    }

    /// The DER bytes of the certificate of the key, as the card gave them.
    pub closed spec fn der_of(&self) -> Seq<u8> {
        self.der@
    }

    /// The resolver that is asked for the PIN, where one is set.
    pub closed spec fn pin_callback(&self) -> Option<P> {
        self.pin_callback
    }

    /// The shared handle of the card.
    pub closed spec fn handle(&self) -> Arc<Mutex<D>> {
        self.yk
    }

    /// The slot of the key.
    pub fn slot(&self) -> (slot: SlotId)
        ensures
            slot == self.slot_id(),
    {
        self.slot
    }

    /// The certificate of the key, decoded from its DER bytes; none where
    /// the bytes are not read as a certificate by the decoder.
    pub fn certificate(&self) -> (cert: Option<x509_certificate::CapturedX509Certificate>)
        ensures
            cert is Some <==> certificate_decodes(self.der_of()),
    {
        parse_certificate(self.der.as_slice())
    }

    /// The DER bytes of the certificate of the key, as the card gave them.
    pub fn certificate_der(&self) -> (der: &Vec<u8>)
        ensures
            der@ == self.der_of(),
    {
        &self.der
    }

    /// The resolver that is asked for the PIN, where one is set.
    pub fn resolver(&self) -> (resolver: Option<P>)
        ensures
            resolver == self.pin_callback(),
    {
        self.pin_callback
    }

    /// Acquires the card exclusively, without waiting.
    ///
    /// Fails with `DeviceBusy` where another holder has the card and with
    /// `LockPoisoned` where a holder panicked while it had it.
    pub fn inner(&self) -> (result: Result<MutexGuard<'_, D>, CodesignError>)
        ensures
            result matches Err(e) ==> e == CodesignError::DeviceBusy || e
                == CodesignError::LockPoisoned,
    {
        acquire(&*self.yk)
    }

    /// The algorithm of the key on the card, by the certificate of the slot:
    /// 1024-bit RSA where the certificate is for an RSA key and stores a
    /// modulus of 129 bytes, 2048-bit RSA where it stores one of 257 bytes,
    /// and the curve where it is for an ECDSA key.
    ///
    /// Fails with `UnsupportedKeyAlgorithm` where the kind of key is not
    /// known or Ed25519, or the modulus has another length, and with
    /// `CertificateMalformed` where an RSA certificate gives no modulus.
    pub fn algorithm(&self) -> (result: Result<KeyAlgorithm, CodesignError>)
        ensures
            result == key_algorithm_of(self.der_of()),
    {
        let key = certificate_key(self.der.as_slice());
        let modulus_len = modulus_len_of(self.der.as_slice(), key);
        classify_key(key, modulus_len)
    }

    /// The number of bytes to reserve for the CMS signature that the key on
    /// the card makes of the binary of `view`.
    ///
    /// Fails with the error of the settings where they are not valid, with
    /// the error of the view's shape where the binary cannot take a
    /// signature, as `algorithm` fails, and with `BlobTooLarge` where a
    /// size is more than a `u32` counts.
    pub fn reserve_signature(&self, view: &MachoView, settings: &SigningSettings) -> (result:
        Result<u32, CodesignError>)
        requires
            view.well_formed(),
        ensures
            result == card_reserved(view.shape, settings@, self.der_of()),
    {
        match settings.validate() {
            Err(e) => {
                return Err(e);
            },
            Ok(_) => {},
        }
        let shape = match view.shape {
            Err(e) => {
                return Err(e);
            },
            Ok(shape) => shape,
        };
        let algorithm = match self.algorithm() {
            Err(e) => {
                return Err(e);
            },
            Ok(algorithm) => algorithm,
        };
        let content_len = match settings.signature_len(shape.code_limit(), None) {
            None => {
                return Err(CodesignError::BlobTooLarge);
            },
            Some(n) => n,
        };
        match algorithm.max_signature_size(self.der.len(), content_len, false) {
            None => Err(CodesignError::BlobTooLarge),
            Some(reserved) => Ok(reserved),
        }
    }

    /// The signature algorithm that the certificate of the key names.
    ///
    /// Fails with `UnsupportedHash` where the certificate names none that
    /// is known.
    pub fn signature_algorithm(&self) -> (result: Result<SignatureKind, CodesignError>)
        ensures
            result == match certificate_signature_kind(self.der_of()) {
                Some(kind) => Ok::<SignatureKind, CodesignError>(kind),
                None => Err::<SignatureKind, CodesignError>(CodesignError::UnsupportedHash),
            },
    {
        match certificate_signature(self.der.as_slice()) {
            Some(kind) => Ok(kind),
            None => Err(CodesignError::UnsupportedHash),
        }
    }

    /// Prepares what the card signs for `message`: for an RSA key the padded
    /// block of the width of the modulus over the message's digest, for an
    /// ECDSA key the digest. The hash function is the one of the
    /// certificate's signature algorithm.
    ///
    /// The errors of the key come as in `algorithm`; `UnsupportedHash` where
    /// the certificate names no signature algorithm that is known, or one
    /// without hash function.
    pub fn signing_input(&self, message: &[u8]) -> (result: Result<
        (KeyAlgorithm, Vec<u8>),
        CodesignError,
    >)
        ensures
            match result {
                Ok((algorithm, input)) => card_input(self.der_of(), message@) == Ok::<
                    (KeyAlgorithm, Seq<u8>),
                    CodesignError,
                >((algorithm, input@)),
                Err(e) => card_input(self.der_of(), message@) == Err::<
                    (KeyAlgorithm, Seq<u8>),
                    CodesignError,
                >(e),
            },
    {
        let key = certificate_key(self.der.as_slice());
        let modulus_len = modulus_len_of(self.der.as_slice(), key);
        let signature = certificate_signature(self.der.as_slice());
        prepare_signing_input(key, modulus_len, signature, message)
    }
}

} // verus!
