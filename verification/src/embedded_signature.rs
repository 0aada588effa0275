//! The embedded signature of a binary, read back: its blobs by slot, and
//! what the known slots hold.

use vstd::prelude::*;
use crate::blob::{
    MAGIC_BLOB_WRAPPER, MAGIC_CODE_DIRECTORY, MAGIC_EMBEDDED_SIGNATURE, MAGIC_ENTITLEMENT,
    MAGIC_REQUIREMENT, MAGIC_REQUIREMENT_SET, read_blob, read_blob_as, unframed, unframed_as,
};
use crate::code_directory::{CodeDirectory, CodeDirectoryView, parsed_directory};
use crate::digest::{digest_len, digest_of, DigestType};
use crate::error::CodesignError;
use crate::requirement::{Expression, ExpressionView};
use crate::requirement_set::{parsed_requirement, parsed_set, RequirementSet, RequirementsView};
use crate::superblob::{
    blob_in_slot, BlobEntry, code_of_slot, CodeSigningSlot, disassembled, Entries, entries_view,
    entry_offset, find_slot, lemma_blobs_len, parse_container, slot_of_code,
};
use crate::wire::{be32_at, read_be32};
use vstd::slice::slice_to_vec;

verus! {

/// An embedded signature: the blobs of its container, in the order of the
/// index.
#[derive(Debug, PartialEq, Eq)]
pub struct EmbeddedSignature {
    pub blobs: Vec<BlobEntry>,
}

/// Where a blob lies in its container and what it is.
#[derive(Clone, Copy, Debug, PartialEq, Eq, Structural)]
pub struct BlobInfo {
    /// The place of the blob in the index.
    pub index: usize,
    /// The offset of the blob from the start of the container.
    pub offset: usize,
    /// The number of bytes of the blob.
    pub length: usize,
    /// The offset of the last byte of the blob.
    pub end_offset: usize,
    pub slot: CodeSigningSlot,
    /// The magic that the blob starts with; zero where the blob is shorter
    /// than a magic.
    pub magic: u32,
}

impl View for EmbeddedSignature {
    type V = Entries;

    open spec fn view(&self) -> Entries {
        entries_view(self.blobs@)
    }
}

/// The digest that `kind` takes of a blob: of its framed bytes, header and
/// payload.
pub open spec fn blob_digest(kind: DigestType, blob: Seq<u8>) -> Result<Seq<u8>, CodesignError> {
    digest_of(kind, blob)
}

impl BlobEntry {
    /// The digest of the blob: of its framed bytes, not of its payload.
    ///
    /// Fails with `UnsupportedHash` exactly where `kind` computes no digest.
    pub fn digest_with(&self, kind: DigestType) -> (result: Result<Vec<u8>, CodesignError>)
        ensures
            match result {
                Ok(digest) => blob_digest(kind, self.data@) == Ok::<Seq<u8>, CodesignError>(
                    digest@,
                ) && digest@.len() == digest_len(kind),
                Err(e) => blob_digest(kind, self.data@) == Err::<Seq<u8>, CodesignError>(e),
            },
    {
        kind.digest(self.data.as_slice())
    }

    /// The slot of the blob.
    pub fn slot(&self) -> (slot: CodeSigningSlot)
        ensures
            slot == slot_of_code(self.slot),
    {
        CodeSigningSlot::from_code(self.slot)
    }
}

impl EmbeddedSignature {
    /// Reads the embedded signature at the front of `data`.
    ///
    /// Fails with `BlobTruncated` where the bytes end before the header, the
    /// declared length, the index or a blob that the index names, and with
    /// `BlobBadMagic` where the magic is not that of an embedded signature.
    pub fn parse(data: &[u8]) -> (result: Result<EmbeddedSignature, CodesignError>)
        ensures
            match result {
                Ok(signature) => disassembled(data@, MAGIC_EMBEDDED_SIGNATURE) == Ok::<
                    Entries,
                    CodesignError,
                >(signature@),
                Err(e) => disassembled(data@, MAGIC_EMBEDDED_SIGNATURE) == Err::<
                    Entries,
                    CodesignError,
                >(e),
            },
    {
        match parse_container(data, MAGIC_EMBEDDED_SIGNATURE) {
            Err(e) => Err(e),
            Ok(blobs) => Ok(EmbeddedSignature { blobs }),
        }
    }

    /// The first blob in the slot `slot`.
    pub fn find_slot(&self, slot: CodeSigningSlot) -> (found: Option<&BlobEntry>)
        ensures
            match found {
                Some(entry) => blob_in_slot(self@, code_of_slot(slot)) == Some(entry.data@)
                    && entry.slot == code_of_slot(slot),
                None => blob_in_slot(self@, code_of_slot(slot)) is None,
            },
    {
        match find_slot(&self.blobs, slot.code()) {
            Some(i) => Some(&self.blobs[i]),
            None => None,
        }
    }

    /// The code directory of the signature, where it has one.
    ///
    /// Fails as reading the code directory's blob fails.
    pub fn code_directory(&self) -> (result: Result<Option<CodeDirectory>, CodesignError>)
        ensures
            match result {
                Ok(Some(d)) => blob_in_slot(self@, 0) matches Some(blob) && parsed_directory(blob)
                    == Ok::<CodeDirectoryView, CodesignError>(d@),
                Ok(None) => blob_in_slot(self@, 0) is None,
                Err(e) => blob_in_slot(self@, 0) matches Some(blob) && parsed_directory(blob)
                    == Err::<CodeDirectoryView, CodesignError>(e),
            },
    {
        match self.find_slot(CodeSigningSlot::CodeDirectory) {
            None => Ok(None),
            Some(entry) => match CodeDirectory::from_blob_bytes(entry.data.as_slice()) {
                Err(e) => Err(e),
                Ok(d) => Ok(Some(d)),
            },
        }
    }

    /// The requirement set of the signature, where it has one.
    ///
    /// Fails as reading the requirement set's blob fails.
    pub fn code_requirements(&self) -> (result: Result<Option<RequirementSet>, CodesignError>)
        ensures
            match result {
                Ok(Some(set)) => blob_in_slot(self@, 2) matches Some(blob) && parsed_set(blob)
                    == Ok::<RequirementsView, CodesignError>(set@),
                Ok(None) => blob_in_slot(self@, 2) is None,
                Err(e) => blob_in_slot(self@, 2) matches Some(blob) && parsed_set(blob) == Err::<
                    RequirementsView,
                    CodesignError,
                >(e),
            },
    {
        match self.find_slot(CodeSigningSlot::RequirementSet) {
            None => Ok(None),
            Some(entry) => match RequirementSet::from_blob_bytes(entry.data.as_slice()) {
                Err(e) => Err(e),
                Ok(set) => Ok(Some(set)),
            },
        }
    }

    /// The bytes in the wrapper of the signature slot: the CMS signature
    /// with the zero bytes that pad it, where the signature has one.
    ///
    /// Fails as reading the wrapper's blob fails.
    pub fn signature_data(&self) -> (result: Result<Option<&[u8]>, CodesignError>)
        ensures
            match result {
                Ok(Some(bytes)) => blob_in_slot(self@, 0x1_0000) matches Some(blob) && unframed_as(
                    blob,
                    MAGIC_BLOB_WRAPPER,
                ) == Ok::<Seq<u8>, CodesignError>(bytes@),
                Ok(None) => blob_in_slot(self@, 0x1_0000) is None,
                Err(e) => blob_in_slot(self@, 0x1_0000) matches Some(blob) && unframed_as(
                    blob,
                    MAGIC_BLOB_WRAPPER,
                ) == Err::<Seq<u8>, CodesignError>(e),
            },
    {
        match self.find_slot(CodeSigningSlot::Signature) {
            None => Ok(None),
            Some(entry) => match read_blob_as(entry.data.as_slice(), MAGIC_BLOB_WRAPPER) {
                Err(e) => Err(e),
                Ok(payload) => Ok(Some(payload)),
            },
        }
    }

    /// Where every blob lies in a container that holds the blobs one behind
    /// the other in the order of the index, as assembling writes them.
    ///
    /// Nothing where a blob is empty, which has no last byte, or the
    /// container would be longer than a `usize` counts.
    pub fn describe(&self) -> (result: Option<Vec<BlobInfo>>)
        ensures
            match result {
                Some(infos) => infos@.len() == self@.len() && forall|i: int|
                    0 <= i < infos@.len() ==> {
                        let info = #[trigger] infos@[i];
                        &&& info.index == i
                        &&& info.offset == entry_offset(self@, i)
                        &&& info.length == self@[i].1.len()
                        &&& info.length > 0
                        &&& info.end_offset == info.offset + info.length - 1
                        &&& info.slot == slot_of_code(self@[i].0)
                        &&& info.magic == if self@[i].1.len() >= 4 {
                            be32_at(self@[i].1, 0)
                        } else {
                            0
                        }
                    },
                None => (exists|i: int| 0 <= i < self@.len() && (#[trigger] self@[i]).1.len() == 0)
                    || entry_offset(self@, self@.len() as int) > usize::MAX,
            },
    {
        let ghost view = self@;
        let count = self.blobs.len();
        if count > (usize::MAX - 12) / 8 {
            proof {
                lemma_blobs_len(view, 0, count as int);
            }
            return None;
        }
        let mut infos: Vec<BlobInfo> = Vec::new();
        let mut offset: usize = 12 + 8 * count;
        let mut i: usize = 0;
        while i < count
            invariant
                i <= count,
                count == self.blobs@.len(),
                view == self@,
                offset == entry_offset(view, i as int),
                infos@.len() == i,
                forall|k: int|
                    0 <= k < i ==> {
                        let info = #[trigger] infos@[k];
                        &&& info.index == k
                        &&& info.offset == entry_offset(view, k)
                        &&& info.length == view[k].1.len()
                        &&& info.length > 0
                        &&& info.end_offset == info.offset + info.length - 1
                        &&& info.slot == slot_of_code(view[k].0)
                        &&& info.magic == if view[k].1.len() >= 4 {
                            be32_at(view[k].1, 0)
                        } else {
                            0
                        }
                    },
            decreases count - i,
        {
            let entry = &self.blobs[i];
            assert(view[i as int] == (entry.slot, entry.data@));
            let length = entry.data.len();
            if length == 0 {
                return None;
            }
            if offset > usize::MAX - length {
                proof {
                    lemma_blobs_len(view, i as int + 1, count as int);
                }
                return None;
            }
            let magic = if length >= 4 {
                read_be32(entry.data.as_slice(), 0)
            } else {
                0
            };
            infos.push(
                BlobInfo {
                    index: i,
                    offset,
                    length,
                    end_offset: offset + length - 1,
                    slot: entry.slot(),
                    magic,
                },
            );
            offset = offset + length;
            i = i + 1;
        }
        Some(infos)
    }
}

/// Reads the embedded signature at the front of `data`.
pub fn parse_signature_data(data: &[u8]) -> (result: Result<EmbeddedSignature, CodesignError>)
    ensures
        match result {
            Ok(signature) => disassembled(data@, MAGIC_EMBEDDED_SIGNATURE) == Ok::<
                Entries,
                CodesignError,
            >(signature@),
            Err(e) => disassembled(data@, MAGIC_EMBEDDED_SIGNATURE) == Err::<
                Entries,
                CodesignError,
            >(e),
        },
{
    EmbeddedSignature::parse(data)
}

/// A blob, read as what its magic says it is.
#[derive(Debug, PartialEq, Eq)]
pub enum ParsedBlob {
    Requirement(Expression),
    RequirementSet(RequirementSet),
    CodeDirectory(CodeDirectory),
    EmbeddedSignature(EmbeddedSignature),
    /// The property list of the entitlements.
    Entitlements(Vec<u8>),
    /// What the wrapper holds: the CMS signature and its padding.
    BlobWrapper(Vec<u8>),
    /// A blob of a kind that is not read further, with its magic and its
    /// payload.
    Other(u32, Vec<u8>),
}

impl ParsedBlob {
    /// Reads the blob at the front of `data` as what its magic says it is.
    ///
    /// The framing errors of a blob come first, then those of the kind.
    pub fn parse(data: &[u8]) -> (result: Result<ParsedBlob, CodesignError>)
        ensures
            match result {
                Ok(ParsedBlob::Requirement(e)) => parsed_requirement(data@) == Ok::<
                    ExpressionView,
                    CodesignError,
                >(e@),
                Ok(ParsedBlob::RequirementSet(set)) => parsed_set(data@) == Ok::<
                    RequirementsView,
                    CodesignError,
                >(set@),
                Ok(ParsedBlob::CodeDirectory(d)) => parsed_directory(data@) == Ok::<
                    CodeDirectoryView,
                    CodesignError,
                >(d@),
                Ok(ParsedBlob::EmbeddedSignature(signature)) => disassembled(
                    data@,
                    MAGIC_EMBEDDED_SIGNATURE,
                ) == Ok::<Entries, CodesignError>(signature@),
                Ok(ParsedBlob::Entitlements(plist)) => unframed(data@) == Ok::<
                    (u32, Seq<u8>),
                    CodesignError,
                >((MAGIC_ENTITLEMENT, plist@)),
                Ok(ParsedBlob::BlobWrapper(held)) => unframed(data@) == Ok::<
                    (u32, Seq<u8>),
                    CodesignError,
                >((MAGIC_BLOB_WRAPPER, held@)),
                Ok(ParsedBlob::Other(magic, payload)) => unframed(data@) == Ok::<
                    (u32, Seq<u8>),
                    CodesignError,
                >((magic, payload@)) && magic != MAGIC_REQUIREMENT && magic
                    != MAGIC_REQUIREMENT_SET && magic != MAGIC_CODE_DIRECTORY && magic
                    != MAGIC_EMBEDDED_SIGNATURE && magic != MAGIC_ENTITLEMENT && magic
                    != MAGIC_BLOB_WRAPPER,
                Err(e) => match unframed(data@) {
                    Err(framing) => e == framing,
                    Ok((magic, _)) => if magic == MAGIC_REQUIREMENT {
                        parsed_requirement(data@) == Err::<ExpressionView, CodesignError>(e)
                    } else if magic == MAGIC_REQUIREMENT_SET {
                        parsed_set(data@) == Err::<RequirementsView, CodesignError>(e)
                    } else if magic == MAGIC_CODE_DIRECTORY {
                        parsed_directory(data@) == Err::<CodeDirectoryView, CodesignError>(e)
                    } else {
                        magic == MAGIC_EMBEDDED_SIGNATURE && disassembled(
                            data@,
                            MAGIC_EMBEDDED_SIGNATURE,
                        ) == Err::<Entries, CodesignError>(e)
                    },
                },
            },
    {
        let (magic, payload) = match read_blob(data) {
            Err(e) => {
                return Err(e);
            },
            Ok(pair) => pair,
        };
        if magic == MAGIC_REQUIREMENT {
            match Expression::from_blob_bytes(data) {
                Err(e) => Err(e),
                Ok(e) => Ok(ParsedBlob::Requirement(e)),
            }
        } else if magic == MAGIC_REQUIREMENT_SET {
            match RequirementSet::from_blob_bytes(data) {
                Err(e) => Err(e),
                Ok(set) => Ok(ParsedBlob::RequirementSet(set)),
            }
        } else if magic == MAGIC_CODE_DIRECTORY {
            match CodeDirectory::from_blob_bytes(data) {
                Err(e) => Err(e),
                Ok(d) => Ok(ParsedBlob::CodeDirectory(d)),
            }
        } else if magic == MAGIC_EMBEDDED_SIGNATURE {
            match EmbeddedSignature::parse(data) {
                Err(e) => Err(e),
                Ok(signature) => Ok(ParsedBlob::EmbeddedSignature(signature)),
            }
        } else if magic == MAGIC_ENTITLEMENT {
            Ok(ParsedBlob::Entitlements(slice_to_vec(payload)))
        } else if magic == MAGIC_BLOB_WRAPPER {
            Ok(ParsedBlob::BlobWrapper(slice_to_vec(payload)))
        } else {
            Ok(ParsedBlob::Other(magic, slice_to_vec(payload)))
        }
    }
}

} // verus!
