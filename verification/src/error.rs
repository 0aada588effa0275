//! The failure kinds reported by every component of the signing pipeline.

use vstd::prelude::*;

verus! {

/// Why an operation of this library failed.
#[derive(Clone, Copy, Debug, PartialEq, Eq, Structural)]
pub enum CodesignError {
    /// The input is not a Mach-O binary that could be parsed.
    BinaryMalformed,
    /// The binary carries no code signature load command.
    NoSignatureRegion,
    /// A blob is shorter than its header or than the length it declares.
    BlobTruncated,
    /// A blob starts with a magic other than the expected one.
    BlobBadMagic,
    /// A requirement expression holds an opcode outside the known set.
    UnknownRequirementOpcode,
    /// A digest was asked of a hash kind that computes none.
    UnsupportedHash,
    /// The key cannot be used with the chosen signing backend.
    UnsupportedKeyAlgorithm,
    /// The smartcard refused authentication and no retry is left.
    SmartcardAuth,
    /// Another holder has the smartcard handle.
    DeviceBusy,
    /// A holder of the smartcard handle panicked while holding it.
    LockPoisoned,
    /// The time-stamp server gave no usable token.
    TimestampUnreachable,
    /// A blob would be longer than its length field can say.
    BlobTooLarge,
    /// The realized signature is larger than the size reserved for it.
    SignatureTooLarge,
    /// A resize of the signature region was asked after hashing.
    PlaceholderShrink,
    /// The Mach-O layout is one this library does not sign.
    UnsupportedMachOVariant,
    /// The load command region has no room for a new command.
    LoadCommandOverflow,
    /// The signing identity failed to produce a signature.
    SigningFailed,
    /// A certificate could not be decoded.
    CertificateMalformed,
    /// A private key could not be decoded.
    PrivateKeyMalformed,
    /// PEM armour could not be decoded.
    PemMalformed,
    /// A command line argument is missing or has a value out of range.
    CliBadArgument,
    /// The command line names no known command.
    CliUnknownCommand,
    /// Verification found problems in the signature.
    VerificationProblems,
}

} // verus!
