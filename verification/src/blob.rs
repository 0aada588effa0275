//! The common framing of every component of an embedded signature.
//!
//! A blob is a magic, the total length and a payload. The length counts the
//! eight header bytes; both header integers are big-endian.

use vstd::prelude::*;
use crate::error::CodesignError;
use crate::wire::{
    be32, be32_at, lemma_be32_at_inside, lemma_be32_bytes, put_be32, put_bytes, read_be32,
};

verus! {

/// A single code requirement expression.
pub const MAGIC_REQUIREMENT: u32 = 0xfade_0c00;

/// A set of code requirements, keyed by requirement type.
pub const MAGIC_REQUIREMENT_SET: u32 = 0xfade_0c01;

/// A code directory.
pub const MAGIC_CODE_DIRECTORY: u32 = 0xfade_0c02;

/// An embedded signature: the index and its component blobs.
pub const MAGIC_EMBEDDED_SIGNATURE: u32 = 0xfade_0cc0;

/// An embedded signature in the superseded layout.
pub const MAGIC_EMBEDDED_SIGNATURE_OLD: u32 = 0xfade_0cc1;

/// Entitlements, as a property list.
pub const MAGIC_ENTITLEMENT: u32 = 0xfade_7171;

/// A signature kept apart from the code it signs.
pub const MAGIC_DETACHED_SIGNATURE: u32 = 0xfade_0c05;

/// A wrapper around foreign data, here the CMS signature.
pub const MAGIC_BLOB_WRAPPER: u32 = 0xfade_0b01;

/// The size of the header: magic and length.
pub const BLOB_HEADER_SIZE: usize = 8;

/// Whether `magic` is one of the magics of the signature format.
pub open spec fn known_magic(magic: u32) -> bool {
    magic == MAGIC_REQUIREMENT || magic == MAGIC_REQUIREMENT_SET || magic == MAGIC_CODE_DIRECTORY
        || magic == MAGIC_EMBEDDED_SIGNATURE || magic == MAGIC_EMBEDDED_SIGNATURE_OLD || magic
        == MAGIC_ENTITLEMENT || magic == MAGIC_DETACHED_SIGNATURE || magic == MAGIC_BLOB_WRAPPER
}

/// The framed bytes of a blob: header, then payload.
pub open spec fn framed(magic: u32, payload: Seq<u8>) -> Seq<u8> {
    be32(magic) + be32((payload.len() + 8) as u32) + payload
}

/// What reading a blob from the front of `bytes` gives.
///
/// Bytes behind the declared length are not part of the blob and are ignored,
/// so that a blob can be read where it lies inside a larger container.
pub open spec fn unframed(bytes: Seq<u8>) -> Result<(u32, Seq<u8>), CodesignError> {
    if bytes.len() < 8 {
        Err(CodesignError::BlobTruncated)
    } else if !known_magic(be32_at(bytes, 0)) {
        Err(CodesignError::BlobBadMagic)
    } else if be32_at(bytes, 4) < 8 || be32_at(bytes, 4) > bytes.len() {
        Err(CodesignError::BlobTruncated)
    } else {
        Ok((be32_at(bytes, 0), bytes.subrange(8, be32_at(bytes, 4) as int)))
    }
}

/// What reading a blob of the magic `expected` from the front of `bytes` gives.
pub open spec fn unframed_as(bytes: Seq<u8>, expected: u32) -> Result<Seq<u8>, CodesignError> {
    match unframed(bytes) {
        Err(e) => Err(e),
        Ok((magic, payload)) => if magic == expected {
            Ok(payload)
        } else {
            Err(CodesignError::BlobBadMagic)
        },
    }
}

/// Whether `magic` is one of the magics of the signature format.
pub fn is_known_magic(magic: u32) -> (known: bool)
    ensures
        known == known_magic(magic),
{
    magic == MAGIC_REQUIREMENT || magic == MAGIC_REQUIREMENT_SET || magic == MAGIC_CODE_DIRECTORY
        || magic == MAGIC_EMBEDDED_SIGNATURE || magic == MAGIC_EMBEDDED_SIGNATURE_OLD || magic
        == MAGIC_ENTITLEMENT || magic == MAGIC_DETACHED_SIGNATURE || magic == MAGIC_BLOB_WRAPPER
}

/// Frames `payload` under `magic`.
pub fn write_blob(magic: u32, payload: &[u8]) -> (bytes: Vec<u8>)
    requires
        payload@.len() + 8 <= u32::MAX,
    ensures
        bytes@ == framed(magic, payload@),
        bytes@.len() == payload@.len() + 8,
{
    let mut out: Vec<u8> = Vec::new();
    put_be32(&mut out, magic);
    put_be32(&mut out, (payload.len() + 8) as u32);
    put_bytes(&mut out, payload);
    assert(out@ =~= framed(magic, payload@));
    out
}

/// Reads the blob at the front of `bytes`: its magic and its payload.
///
/// Fails with `BlobTruncated` where fewer than eight bytes are given or the
/// declared length is under eight or over what is given, and with
/// `BlobBadMagic` where the magic is none of the format's.
pub fn read_blob(bytes: &[u8]) -> (result: Result<(u32, &[u8]), CodesignError>)
    ensures
        match result {
            Ok((magic, payload)) => unframed(bytes@) == Ok::<(u32, Seq<u8>), CodesignError>(
                (magic, payload@),
            ),
            Err(e) => unframed(bytes@) == Err::<(u32, Seq<u8>), CodesignError>(e),
        },
{
    if bytes.len() < 8 {
        return Err(CodesignError::BlobTruncated);
    }
    let magic = read_be32(bytes, 0);
    if !is_known_magic(magic) {
        return Err(CodesignError::BlobBadMagic);
    }
    let length = read_be32(bytes, 4);
    if length < 8 || length as usize > bytes.len() {
        return Err(CodesignError::BlobTruncated);
    }
    let payload = vstd::slice::slice_subrange(bytes, 8, length as usize);
    Ok((magic, payload))
}

/// Reads the blob at the front of `bytes` and insists on the magic `expected`.
pub fn read_blob_as(bytes: &[u8], expected: u32) -> (result: Result<&[u8], CodesignError>)
    ensures
        match result {
            Ok(payload) => unframed_as(bytes@, expected) == Ok::<Seq<u8>, CodesignError>(payload@),
            Err(e) => unframed_as(bytes@, expected) == Err::<Seq<u8>, CodesignError>(e),
        },
{
    match read_blob(bytes) {
        Err(e) => Err(e),
        Ok((magic, payload)) => {
            if magic == expected {
                Ok(payload)
            } else {
                Err(CodesignError::BlobBadMagic)
            }
        },
    }
}

/// The header of framed bytes reads back as the magic and the total length.
pub proof fn lemma_framed_header(magic: u32, payload: Seq<u8>)
    requires
        payload.len() + 8 <= u32::MAX,
    ensures
        framed(magic, payload).len() == payload.len() + 8,
        be32_at(framed(magic, payload), 0) == magic,
        be32_at(framed(magic, payload), 4) == payload.len() + 8,
        framed(magic, payload).subrange(8, payload.len() as int + 8) == payload,
{
    let total = (payload.len() + 8) as u32;
    let f = framed(magic, payload);
    lemma_be32_at_inside(Seq::<u8>::empty(), magic, be32(total) + payload);
    assert(Seq::<u8>::empty() + be32(magic) + (be32(total) + payload) =~= f);
    lemma_be32_at_inside(be32(magic), total, payload);
    assert(f.subrange(8, payload.len() as int + 8) =~= payload);
}

/// Reading a framed blob gives back its magic and payload, whatever follows it.
pub proof fn lemma_blob_round_trip(magic: u32, payload: Seq<u8>, rest: Seq<u8>)
    requires
        known_magic(magic),
        payload.len() + 8 <= u32::MAX,
    ensures
        unframed(framed(magic, payload) + rest) == Ok::<(u32, Seq<u8>), CodesignError>(
            (magic, payload),
        ),
        unframed_as(framed(magic, payload) + rest, magic) == Ok::<Seq<u8>, CodesignError>(payload),
{
    let total = (payload.len() + 8) as u32;
    let f = framed(magic, payload) + rest;
    lemma_be32_at_inside(Seq::<u8>::empty(), magic, be32(total) + payload + rest);
    assert(Seq::<u8>::empty() + be32(magic) + (be32(total) + payload + rest) =~= f);
    lemma_be32_at_inside(be32(magic), total, payload + rest);
    assert(be32(magic) + be32(total) + (payload + rest) =~= f);
    assert(f.subrange(8, total as int) =~= payload);
}

} // verus!
