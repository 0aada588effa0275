//! Digest primitives: the hash kinds of the signature format, digests of byte
//! runs, and the PKCS#1 v1.5 encoding of a digest for RSA signing.

use vstd::prelude::*;
use crate::error::CodesignError;
use crate::text::str_equal;
use crate::wire::put_bytes;

verus! {

/// A hash function that the digest backend computes.
#[derive(Clone, Copy, Debug, PartialEq, Eq, Structural)]
pub enum HashFunction {
    Sha1,
    Sha256,
    Sha384,
    Sha512,
}

/// The hash kind recorded in a code directory.
#[derive(Clone, Copy, Debug, PartialEq, Eq, Structural)]
pub enum DigestType {
    /// No hash.
    NoDigest,
    Sha1,
    Sha256,
    /// SHA-256, of which the first twenty bytes are kept.
    Sha256Truncated,
    Sha384,
    /// A kind this library does not know, by its code.
    Unknown(u8),
}

/// The digest of `data` under `function`, as the digest backend computes it.
pub uninterp spec fn hash_value(function: HashFunction, data: Seq<u8>) -> Seq<u8>;

/// The number of bytes in a digest of `function`.
pub open spec fn hash_len(function: HashFunction) -> nat {
    match function {
        HashFunction::Sha1 => 20,
        HashFunction::Sha256 => 32,
        HashFunction::Sha384 => 48,
        HashFunction::Sha512 => 64,
    }
}

/// The DER bytes that precede the digest in a `DigestInfo` of `function`:
/// the sequence header, the algorithm identifier with null parameters, and
/// the header of the octet string.
pub open spec fn digest_info_prefix(function: HashFunction) -> Seq<u8> {
    match function {
        HashFunction::Sha1 => seq![
            0x30u8, 0x21, 0x30, 0x09, 0x06, 0x05, 0x2b, 0x0e, 0x03, 0x02, 0x1a, 0x05, 0x00, 0x04,
            0x14,
        ],
        HashFunction::Sha256 => seq![
            0x30u8, 0x31, 0x30, 0x0d, 0x06, 0x09, 0x60, 0x86, 0x48, 0x01, 0x65, 0x03, 0x04, 0x02,
            0x01, 0x05, 0x00, 0x04, 0x20,
        ],
        HashFunction::Sha384 => seq![
            0x30u8, 0x41, 0x30, 0x0d, 0x06, 0x09, 0x60, 0x86, 0x48, 0x01, 0x65, 0x03, 0x04, 0x02,
            0x02, 0x05, 0x00, 0x04, 0x30,
        ],
        HashFunction::Sha512 => seq![
            0x30u8, 0x51, 0x30, 0x0d, 0x06, 0x09, 0x60, 0x86, 0x48, 0x01, 0x65, 0x03, 0x04, 0x02,
            0x03, 0x05, 0x00, 0x04, 0x40,
        ],
    }
}

/// The number of bytes of a `DigestInfo` of `function`.
pub open spec fn digest_info_len(function: HashFunction) -> nat {
    digest_info_prefix(function).len() + hash_len(function)
}

/// The padded block of `len` bytes that RSA signs: `00 01`, a run of `ff`,
/// `00`, then the `DigestInfo` of `digest`.
pub open spec fn pkcs1_block(function: HashFunction, digest: Seq<u8>, len: nat) -> Seq<u8>
    recommends
        digest.len() == hash_len(function),
        digest_info_len(function) + 11 <= len,
{
    seq![0x00u8, 0x01u8] + Seq::new(
        (len - digest_info_len(function) - 3) as nat,
        |i: int| 0xffu8,
    ) + seq![0x00u8] + digest_info_prefix(function) + digest
}

/// What `rsa_pkcs1_v1_5_encode` of a hash function returns.
pub open spec fn pkcs1_encoded(function: HashFunction, digest: Seq<u8>, k_bits: nat) -> Result<
    Seq<u8>,
    CodesignError,
> {
    if digest.len() != hash_len(function) {
        Err(CodesignError::UnsupportedHash)
    } else if digest_info_len(function) + 11 > k_bits / 8 {
        Err(CodesignError::UnsupportedKeyAlgorithm)
    } else {
        Ok(pkcs1_block(function, digest, k_bits / 8))
    }
}

/// Calls `x509_certificate::DigestAlgorithm::digest_data`.
///
/// Claims that the digest is a function of the algorithm and the data alone,
/// and that it has the length that the algorithm fixes.
#[verifier::external_body]
fn digest_data(function: HashFunction, data: &[u8]) -> (digest: Vec<u8>)
    ensures
        digest@ == hash_value(function, data@),
        digest@.len() == hash_len(function),
{
    let algorithm = match function {
        HashFunction::Sha1 => x509_certificate::DigestAlgorithm::Sha1,
        HashFunction::Sha256 => x509_certificate::DigestAlgorithm::Sha256,
        HashFunction::Sha384 => x509_certificate::DigestAlgorithm::Sha384,
        HashFunction::Sha512 => x509_certificate::DigestAlgorithm::Sha512,
    };
    algorithm.digest_data(data)
}

/// Calls `x509_certificate::DigestAlgorithm::rsa_pkcs1_encode`.
///
/// Claims that the call digests the message, fails exactly where the target
/// length is under the `DigestInfo` and eleven bytes more, and else returns
/// a block of the target length: the padding, then the `DigestInfo` of the
/// message's digest.
#[verifier::external_body]
fn rsa_pkcs1_encode(function: HashFunction, message: &[u8], len: usize) -> (block: Option<Vec<u8>>)
    ensures
        block is Some <==> digest_info_len(function) + 11 <= len,
        block matches Some(b) ==> b@.len() == len && b@ == pkcs1_block(
            function,
            hash_value(function, message@),
            len as nat,
        ),
{
    let algorithm = match function {
        HashFunction::Sha1 => x509_certificate::DigestAlgorithm::Sha1,
        HashFunction::Sha256 => x509_certificate::DigestAlgorithm::Sha256,
        HashFunction::Sha384 => x509_certificate::DigestAlgorithm::Sha384,
        HashFunction::Sha512 => x509_certificate::DigestAlgorithm::Sha512,
    };
    algorithm.rsa_pkcs1_encode(message, len).ok()
}

impl HashFunction {
    /// The number of bytes in a digest of this function.
    pub fn digest_size(&self) -> (n: usize)
        ensures
            n == hash_len(*self),
    {
        match self {
            HashFunction::Sha1 => 20,
            HashFunction::Sha256 => 32,
            HashFunction::Sha384 => 48,
            HashFunction::Sha512 => 64,
        }
    }

    /// The digest of `data`.
    pub fn digest(&self, data: &[u8]) -> (digest: Vec<u8>)
        ensures
            digest@ == hash_value(*self, data@),
            digest@.len() == hash_len(*self),
    {
        digest_data(*self, data)
    }

    /// The DER bytes that precede the digest in a `DigestInfo`.
    pub fn digest_info_prefix(&self) -> (prefix: Vec<u8>)
        ensures
            prefix@ == digest_info_prefix(*self),
    {
        let prefix: Vec<u8> = match self {
            HashFunction::Sha1 => vec![
                0x30u8, 0x21, 0x30, 0x09, 0x06, 0x05, 0x2b, 0x0e, 0x03, 0x02, 0x1a, 0x05, 0x00,
                0x04, 0x14,
            ],
            HashFunction::Sha256 => vec![
                0x30u8, 0x31, 0x30, 0x0d, 0x06, 0x09, 0x60, 0x86, 0x48, 0x01, 0x65, 0x03, 0x04,
                0x02, 0x01, 0x05, 0x00, 0x04, 0x20,
            ],
            HashFunction::Sha384 => vec![
                0x30u8, 0x41, 0x30, 0x0d, 0x06, 0x09, 0x60, 0x86, 0x48, 0x01, 0x65, 0x03, 0x04,
                0x02, 0x02, 0x05, 0x00, 0x04, 0x30,
            ],
            HashFunction::Sha512 => vec![
                0x30u8, 0x51, 0x30, 0x0d, 0x06, 0x09, 0x60, 0x86, 0x48, 0x01, 0x65, 0x03, 0x04,
                0x02, 0x03, 0x05, 0x00, 0x04, 0x40,
            ],
        };
        assert(prefix@ =~= digest_info_prefix(*self));
        prefix
    }

    /// Wraps a digest already computed in its `DigestInfo` and pads it to
    /// `k_bits / 8` bytes for an RSA key of `k_bits` bits.
    ///
    /// Fails with `UnsupportedHash` where `digest` has not the length of this
    /// function's digests, and with `UnsupportedKeyAlgorithm` where the key
    /// leaves no room for the `DigestInfo` and eleven bytes of padding.
    pub fn rsa_pkcs1_v1_5_encode(&self, digest: &[u8], k_bits: usize) -> (result: Result<
        Vec<u8>,
        CodesignError,
    >)
        ensures
            match result {
                Ok(block) => pkcs1_encoded(*self, digest@, k_bits as nat) == Ok::<
                    Seq<u8>,
                    CodesignError,
                >(block@) && block@.len() == k_bits / 8,
                Err(e) => pkcs1_encoded(*self, digest@, k_bits as nat) == Err::<
                    Seq<u8>,
                    CodesignError,
                >(e),
            },
    {
        if digest.len() != self.digest_size() {
            return Err(CodesignError::UnsupportedHash);
        }
        let prefix = self.digest_info_prefix();
        let len = k_bits / 8;
        let info_len = prefix.len() + digest.len();
        if info_len + 11 > len {
            return Err(CodesignError::UnsupportedKeyAlgorithm);
        }
        let mut out: Vec<u8> = Vec::new();
        out.push(0x00u8);
        out.push(0x01u8);
        let fill = len - info_len - 3;
        let mut i: usize = 0;
        while i < fill
            invariant
                i <= fill,
                out@ == seq![0x00u8, 0x01u8] + Seq::new(i as nat, |j: int| 0xffu8),
            decreases fill - i,
        {
            out.push(0xffu8);
            i = i + 1;
            assert(out@ =~= seq![0x00u8, 0x01u8] + Seq::new(i as nat, |j: int| 0xffu8));
        }
        out.push(0x00u8);
        put_bytes(&mut out, prefix.as_slice());
        put_bytes(&mut out, digest);
        assert(out@ =~= pkcs1_block(*self, digest@, len as nat));
        Ok(out)
    }

    /// Digests `message` and pads the digest to `len` bytes for RSA signing.
    ///
    /// Returns `None` exactly where `len` leaves no room for the `DigestInfo`
    /// and eleven bytes of padding.
    pub fn rsa_pkcs1_encode_message(&self, message: &[u8], len: usize) -> (block: Option<Vec<u8>>)
        ensures
            block is Some <==> digest_info_len(*self) + 11 <= len,
            block matches Some(b) ==> b@ == pkcs1_block(
                *self,
                hash_value(*self, message@),
                len as nat,
            ) && b@.len() == len,
    {
        rsa_pkcs1_encode(*self, message, len)
    }
}

/// The digest that `kind` takes of `data`, where it takes one.
pub open spec fn digest_of(kind: DigestType, data: Seq<u8>) -> Result<Seq<u8>, CodesignError> {
    match kind {
        DigestType::Sha1 => Ok(hash_value(HashFunction::Sha1, data)),
        DigestType::Sha256 => Ok(hash_value(HashFunction::Sha256, data)),
        DigestType::Sha256Truncated => Ok(hash_value(HashFunction::Sha256, data).subrange(0, 20)),
        DigestType::Sha384 => Ok(hash_value(HashFunction::Sha384, data)),
        DigestType::NoDigest => Err(CodesignError::UnsupportedHash),
        DigestType::Unknown(_) => Err(CodesignError::UnsupportedHash),
    }
}

/// The number of bytes in a digest of `kind`; zero where it takes none.
pub open spec fn digest_len(kind: DigestType) -> nat {
    match kind {
        DigestType::Sha1 => 20,
        DigestType::Sha256 => 32,
        DigestType::Sha256Truncated => 20,
        DigestType::Sha384 => 48,
        DigestType::NoDigest => 0,
        DigestType::Unknown(_) => 0,
    }
}

/// Whether `kind` computes a digest.
pub open spec fn hashes(kind: DigestType) -> bool {
    kind is Sha1 || kind is Sha256 || kind is Sha256Truncated || kind is Sha384
}

/// The code that stands for `kind` in a code directory.
pub open spec fn digest_code(kind: DigestType) -> u8 {
    match kind {
        DigestType::NoDigest => 0,
        DigestType::Sha1 => 1,
        DigestType::Sha256 => 2,
        DigestType::Sha256Truncated => 3,
        DigestType::Sha384 => 4,
        DigestType::Unknown(code) => code,
    }
}

/// The kind that `code` stands for in a code directory.
pub open spec fn digest_from_code(code: u8) -> DigestType {
    if code == 0 {
        DigestType::NoDigest
    } else if code == 1 {
        DigestType::Sha1
    } else if code == 2 {
        DigestType::Sha256
    } else if code == 3 {
        DigestType::Sha256Truncated
    } else if code == 4 {
        DigestType::Sha384
    } else {
        DigestType::Unknown(code)
    }
}

/// The kind that the name `name` stands for on the command line.
pub open spec fn digest_from_name(name: Seq<char>) -> Result<DigestType, CodesignError> {
    if name == "none"@ {
        Ok(DigestType::NoDigest)
    } else if name == "sha1"@ {
        Ok(DigestType::Sha1)
    } else if name == "sha256"@ {
        Ok(DigestType::Sha256)
    } else if name == "sha256-truncated"@ {
        Ok(DigestType::Sha256Truncated)
    } else if name == "sha384"@ {
        Ok(DigestType::Sha384)
    } else {
        Err(CodesignError::UnsupportedHash)
    }
}

impl DigestType {
    /// The kind that `code` stands for in a code directory.
    pub fn from_code(code: u8) -> (kind: DigestType)
        ensures
            kind == digest_from_code(code),
    {
        if code == 0 {
            DigestType::NoDigest
        } else if code == 1 {
            DigestType::Sha1
        } else if code == 2 {
            DigestType::Sha256
        } else if code == 3 {
            DigestType::Sha256Truncated
        } else if code == 4 {
            DigestType::Sha384
        } else {
            DigestType::Unknown(code)
        }
    }

    /// The code that stands for this kind in a code directory.
    pub fn code(&self) -> (code: u8)
        ensures
            code == digest_code(*self),
    {
        match self {
            DigestType::NoDigest => 0,
            DigestType::Sha1 => 1,
            DigestType::Sha256 => 2,
            DigestType::Sha256Truncated => 3,
            DigestType::Sha384 => 4,
            DigestType::Unknown(code) => *code,
        }
    }

    /// The kind named `name`: one of `none`, `sha1`, `sha256`,
    /// `sha256-truncated` and `sha384`. Any other name is `UnsupportedHash`.
    pub fn from_name(name: &str) -> (result: Result<DigestType, CodesignError>)
        ensures
            result == digest_from_name(name@),
    {
        if str_equal(name, "none") {
            Ok(DigestType::NoDigest)
        } else if str_equal(name, "sha1") {
            Ok(DigestType::Sha1)
        } else if str_equal(name, "sha256") {
            Ok(DigestType::Sha256)
        } else if str_equal(name, "sha256-truncated") {
            Ok(DigestType::Sha256Truncated)
        } else if str_equal(name, "sha384") {
            Ok(DigestType::Sha384)
        } else {
            Err(CodesignError::UnsupportedHash)
        }
    }

    /// The number of bytes in a digest of this kind: zero for `NoDigest`, and
    /// `UnsupportedHash` for an unknown kind.
    pub fn digest_size(&self) -> (result: Result<usize, CodesignError>)
        ensures
            match result {
                Ok(n) => !(*self is Unknown) && n == digest_len(*self),
                Err(e) => *self is Unknown && e == CodesignError::UnsupportedHash,
            },
    {
        match self {
            DigestType::NoDigest => Ok(0),
            DigestType::Sha1 => Ok(20),
            DigestType::Sha256 => Ok(32),
            DigestType::Sha256Truncated => Ok(20),
            DigestType::Sha384 => Ok(48),
            DigestType::Unknown(_) => Err(CodesignError::UnsupportedHash),
        }
    }

    /// The hash function that computes this kind's digests and names it in a
    /// `DigestInfo`, where there is one.
    pub fn hash_function(&self) -> (function: Option<HashFunction>)
        ensures
            function == match *self {
                DigestType::Sha1 => Some(HashFunction::Sha1),
                DigestType::Sha256 => Some(HashFunction::Sha256),
                DigestType::Sha384 => Some(HashFunction::Sha384),
                _ => None::<HashFunction>,
            },
    {
        match self {
            DigestType::Sha1 => Some(HashFunction::Sha1),
            DigestType::Sha256 => Some(HashFunction::Sha256),
            DigestType::Sha384 => Some(HashFunction::Sha384),
            _ => None,
        }
    }

    /// The digest of `data`. `NoDigest` and unknown kinds are `UnsupportedHash`.
    pub fn digest(&self, data: &[u8]) -> (result: Result<Vec<u8>, CodesignError>)
        ensures
            match result {
                Ok(digest) => digest_of(*self, data@) == Ok::<Seq<u8>, CodesignError>(digest@)
                    && digest@.len() == digest_len(*self) && hashes(*self),
                Err(e) => digest_of(*self, data@) == Err::<Seq<u8>, CodesignError>(e) && !hashes(
                    *self,
                ),
            },
    {
        match self {
            DigestType::Sha1 => Ok(digest_data(HashFunction::Sha1, data)),
            DigestType::Sha256 => Ok(digest_data(HashFunction::Sha256, data)),
            DigestType::Sha256Truncated => {
                let mut full = digest_data(HashFunction::Sha256, data);
                full.truncate(20);
                Ok(full)
            },
            DigestType::Sha384 => Ok(digest_data(HashFunction::Sha384, data)),
            DigestType::NoDigest => Err(CodesignError::UnsupportedHash),
            DigestType::Unknown(_) => Err(CodesignError::UnsupportedHash),
        }
    }

    /// Wraps a digest of this kind in its `DigestInfo` and pads it to
    /// `k_bits / 8` bytes. Kinds without a `DigestInfo` of their own (`NoDigest`,
    /// the truncated kind, unknown kinds) are `UnsupportedHash`.
    pub fn rsa_pkcs1_v1_5_encode(&self, digest: &[u8], k_bits: usize) -> (result: Result<
        Vec<u8>,
        CodesignError,
    >)
        ensures
            match *self {
                DigestType::Sha1 => seq_result(result) == pkcs1_encoded(
                    HashFunction::Sha1,
                    digest@,
                    k_bits as nat,
                ),
                DigestType::Sha256 => seq_result(result) == pkcs1_encoded(
                    HashFunction::Sha256,
                    digest@,
                    k_bits as nat,
                ),
                DigestType::Sha384 => seq_result(result) == pkcs1_encoded(
                    HashFunction::Sha384,
                    digest@,
                    k_bits as nat,
                ),
                _ => result == Err::<Vec<u8>, CodesignError>(CodesignError::UnsupportedHash),
            },
    {
        match self.hash_function() {
            Some(function) => function.rsa_pkcs1_v1_5_encode(digest, k_bits),
            None => Err(CodesignError::UnsupportedHash),
        }
    }
}

/// A result over bytes, seen as a result over their sequence.
pub open spec fn seq_result(result: Result<Vec<u8>, CodesignError>) -> Result<
    Seq<u8>,
    CodesignError,
> {
    match result {
        Ok(bytes) => Ok(bytes@),
        Err(e) => Err(e),
    }
}

} // verus!
