//! The code directory: the signed record of what a binary holds.
//!
//! The blob is a header of big-endian words, whose extent depends on the
//! version, the identifier and the team identifier as NUL-terminated strings,
//! and a table of hashes. The table holds the special slots from the highest
//! down to slot one, then the code slots from page zero up. The header's hash
//! offset names the first code slot, so that the special slots lie at
//! negative indices before it.

use vstd::prelude::*;
use crate::blob::{MAGIC_CODE_DIRECTORY, unframed_as};
use crate::digest::{digest_code, digest_from_code, DigestType};
use crate::error::CodesignError;
use crate::wire::{be32_at, be64_at, be_words, byte_of, lower_half, span, upper_half, word_of};

verus! {

/// The first version with a scatter offset; older ones are not read.
pub const VERSION_SCATTER: u32 = 0x2_0100;

/// The first version with a team identifier.
pub const VERSION_TEAM_ID: u32 = 0x2_0200;

/// The first version with a 64-bit code limit.
pub const VERSION_CODE_LIMIT_64: u32 = 0x2_0300;

/// The first version with the executable segment fields.
pub const VERSION_EXEC_SEGMENT: u32 = 0x2_0400;

/// A code directory.
#[derive(Debug, PartialEq, Eq)]
pub struct CodeDirectory {
    pub version: u32,
    pub flags: u32,
    /// The number of bytes of the binary that the code slots cover.
    pub code_limit: u32,
    /// The number of bytes of each hash in the table.
    pub hash_size: u8,
    pub hash_type: DigestType,
    pub platform: u8,
    /// The binary logarithm of the page size.
    pub page_size_log2: u8,
    pub identifier: Vec<u8>,
    pub team_id: Option<Vec<u8>>,
    /// The hashes of the special slots; index `i` holds slot `i + 1`.
    pub special_hashes: Vec<Vec<u8>>,
    /// The hashes of the pages; index `j` holds page `j`.
    pub code_hashes: Vec<Vec<u8>>,
    pub exec_seg_base: u64,
    pub exec_seg_limit: u64,
    pub exec_seg_flags: u64,
}

/// The mathematical value of a [`CodeDirectory`].
pub struct CodeDirectoryView {
    pub version: u32,
    pub flags: u32,
    pub code_limit: u32,
    pub hash_size: u8,
    pub hash_type: DigestType,
    pub platform: u8,
    pub page_size_log2: u8,
    pub identifier: Seq<u8>,
    pub team_id: Option<Seq<u8>>,
    pub special_hashes: Seq<Seq<u8>>,
    pub code_hashes: Seq<Seq<u8>>,
    pub exec_seg_base: u64,
    pub exec_seg_limit: u64,
    pub exec_seg_flags: u64,
}

/// The byte strings of a list of hashes.
pub open spec fn hashes_view(hashes: Seq<Vec<u8>>) -> Seq<Seq<u8>> {
    Seq::new(hashes.len(), |i: int| hashes[i]@)
}

/// The byte string of an optional vector.
pub open spec fn option_view(v: Option<Vec<u8>>) -> Option<Seq<u8>> {
    match v {
        Some(bytes) => Some(bytes@),
        None => None,
    }
}

impl View for CodeDirectory {
    type V = CodeDirectoryView;

    open spec fn view(&self) -> CodeDirectoryView {
        CodeDirectoryView {
            version: self.version,
            flags: self.flags,
            code_limit: self.code_limit,
            hash_size: self.hash_size,
            hash_type: self.hash_type,
            platform: self.platform,
            page_size_log2: self.page_size_log2,
            identifier: self.identifier@,
            team_id: option_view(self.team_id),
            special_hashes: hashes_view(self.special_hashes@),
            code_hashes: hashes_view(self.code_hashes@),
            exec_seg_base: self.exec_seg_base,
            exec_seg_limit: self.exec_seg_limit,
            exec_seg_flags: self.exec_seg_flags,
        }
    }
}

/// The number of bytes of the header, the blob's magic and length included.
pub open spec fn header_len(version: u32) -> int {
    if version >= VERSION_EXEC_SEGMENT {
        88
    } else if version >= VERSION_CODE_LIMIT_64 {
        64
    } else if version >= VERSION_TEAM_ID {
        52
    } else {
        48
    }
}

/// Whether no byte of `text` is zero.
pub open spec fn no_nul(text: Seq<u8>) -> bool {
    forall|i: int| 0 <= i < text.len() ==> text[i] != 0
}

/// Whether every hash of `hashes` has `size` bytes.
pub open spec fn uniform(hashes: Seq<Seq<u8>>, size: int) -> bool {
    forall|i: int| 0 <= i < hashes.len() ==> (#[trigger] hashes[i]).len() == size
}

/// The number of bytes that a string takes with its terminator.
pub open spec fn text_len(text: Option<Seq<u8>>) -> int {
    match text {
        Some(t) => t.len() as int + 1,
        None => 0,
    }
}

/// Where the identifier starts.
pub open spec fn ident_offset(d: CodeDirectoryView) -> int {
    header_len(d.version)
}

/// Where the team identifier starts; zero where there is none.
pub open spec fn team_offset(d: CodeDirectoryView) -> int {
    if d.team_id is Some {
        ident_offset(d) + d.identifier.len() + 1
    } else {
        0
    }
}

/// Where the table of hashes starts.
pub open spec fn table_offset(d: CodeDirectoryView) -> int {
    ident_offset(d) + d.identifier.len() + 1 + text_len(d.team_id)
}

/// Where the first code slot starts.
pub open spec fn hash_offset(d: CodeDirectoryView) -> int {
    table_offset(d) + span(d.special_hashes.len() as int, d.hash_size as int)
}

/// The number of bytes of the whole blob.
pub open spec fn total_len(d: CodeDirectoryView) -> int {
    hash_offset(d) + span(d.code_hashes.len() as int, d.hash_size as int)
}

/// Whether the directory can be written and read back: the version is one
/// that is read, the version has room for the fields that are set, the
/// strings hold no NUL, every hash has the declared size, the hash kind is
/// named by the code it is stored under, and the blob's length fits a `u32`.
pub open spec fn well_formed(d: CodeDirectoryView) -> bool {
    &&& d.version >= VERSION_SCATTER
    &&& d.team_id is Some ==> d.version >= VERSION_TEAM_ID
    &&& d.version < VERSION_EXEC_SEGMENT ==> d.exec_seg_base == 0 && d.exec_seg_limit == 0
        && d.exec_seg_flags == 0
    &&& no_nul(d.identifier)
    &&& d.team_id matches Some(t) ==> no_nul(t)
    &&& uniform(d.special_hashes, d.hash_size as int)
    &&& uniform(d.code_hashes, d.hash_size as int)
    &&& d.hash_type matches DigestType::Unknown(code) ==> code > 4
    &&& d.special_hashes.len() <= u32::MAX
    &&& d.code_hashes.len() <= u32::MAX
    &&& total_len(d) <= u32::MAX
}

/// The words of the header, the blob's magic and length included.
pub open spec fn header_words(d: CodeDirectoryView) -> Seq<u32> {
    let base = seq![
        MAGIC_CODE_DIRECTORY,
        total_len(d) as u32,
        d.version,
        d.flags,
        hash_offset(d) as u32,
        ident_offset(d) as u32,
        d.special_hashes.len() as u32,
        d.code_hashes.len() as u32,
        d.code_limit,
        word_of(d.hash_size, digest_code(d.hash_type), d.platform, d.page_size_log2),
        0u32,
        0u32,
    ];
    let team = seq![team_offset(d) as u32];
    let wide = seq![0u32, 0u32, 0u32];
    let exec = seq![
        upper_half(d.exec_seg_base),
        lower_half(d.exec_seg_base),
        upper_half(d.exec_seg_limit),
        lower_half(d.exec_seg_limit),
        upper_half(d.exec_seg_flags),
        lower_half(d.exec_seg_flags),
    ];
    if d.version >= VERSION_EXEC_SEGMENT {
        base + team + wide + exec
    } else if d.version >= VERSION_CODE_LIMIT_64 {
        base + team + wide
    } else if d.version >= VERSION_TEAM_ID {
        base + team
    } else {
        base
    }
}

/// A string with its terminator; nothing where there is no string.
pub open spec fn terminated(text: Option<Seq<u8>>) -> Seq<u8> {
    match text {
        Some(t) => t + seq![0u8],
        None => Seq::empty(),
    }
}

/// The first `n` hashes from the last down to the first.
pub open spec fn table_down(hashes: Seq<Seq<u8>>, n: int) -> Seq<u8>
    decreases n,
{
    if n <= 0 {
        Seq::empty()
    } else {
        hashes[n - 1] + table_down(hashes, n - 1)
    }
}

/// The first `n` hashes from the first up.
pub open spec fn table_up(hashes: Seq<Seq<u8>>, n: int) -> Seq<u8>
    decreases n,
{
    if n <= 0 {
        Seq::empty()
    } else {
        table_up(hashes, n - 1) + hashes[n - 1]
    }
}

/// The bytes of the blob of `d`.
pub open spec fn serialized(d: CodeDirectoryView) -> Seq<u8> {
    be_words(header_words(d)) + d.identifier + seq![0u8] + terminated(d.team_id) + table_down(
        d.special_hashes,
        d.special_hashes.len() as int,
    ) + table_up(d.code_hashes, d.code_hashes.len() as int)
}

/// The index of the first zero byte of `s` at or behind `from`.
pub open spec fn nul_index(s: Seq<u8>, from: int) -> Option<int>
    decreases s.len() - from,
{
    if from < 0 || from >= s.len() {
        None
    } else if s[from] == 0 {
        Some(from)
    } else {
        nul_index(s, from + 1)
    }
}

/// The NUL-terminated string of `s` that starts at `at`.
pub open spec fn c_string(s: Seq<u8>, at: int) -> Option<Seq<u8>> {
    match nul_index(s, at) {
        None => None,
        Some(end) => Some(s.subrange(at, end)),
    }
}

/// The hash of special slot `i + 1` in a blob whose first code slot is at
/// `base`.
pub open spec fn special_at(whole: Seq<u8>, base: int, size: int, i: int) -> Seq<u8> {
    whole.subrange(base - span(i + 1, size), base - span(i, size))
}

/// The hash of page `j` in a blob whose first code slot is at `base`.
pub open spec fn code_at(whole: Seq<u8>, base: int, size: int, j: int) -> Seq<u8> {
    whole.subrange(base + span(j, size), base + span(j + 1, size))
}

/// What reading a directory from the exact bytes of its blob gives.
pub open spec fn directory_of(whole: Seq<u8>) -> Result<CodeDirectoryView, CodesignError> {
    if whole.len() < 48 {
        Err(CodesignError::BlobTruncated)
    } else if be32_at(whole, 8) < VERSION_SCATTER {
        Err(CodesignError::UnsupportedMachOVariant)
    } else if whole.len() < header_len(be32_at(whole, 8)) {
        Err(CodesignError::BlobTruncated)
    } else {
        let version = be32_at(whole, 8);
        let base = be32_at(whole, 16) as int;
        let n_special = be32_at(whole, 24) as int;
        let n_code = be32_at(whole, 28) as int;
        let packed = be32_at(whole, 36);
        let size = byte_of(packed, 0) as int;
        let team_at = if version >= VERSION_TEAM_ID {
            be32_at(whole, 48) as int
        } else {
            0
        };
        if c_string(whole, be32_at(whole, 20) as int) is None {
            Err(CodesignError::BlobTruncated)
        } else if team_at != 0 && c_string(whole, team_at) is None {
            Err(CodesignError::BlobTruncated)
        } else if span(n_special, size) > base || base + span(n_code, size) > whole.len() {
            Err(CodesignError::BlobTruncated)
        } else {
            Ok(
                CodeDirectoryView {
                    version,
                    flags: be32_at(whole, 12),
                    code_limit: be32_at(whole, 32),
                    hash_size: byte_of(packed, 0),
                    hash_type: digest_from_code(byte_of(packed, 1)),
                    platform: byte_of(packed, 2),
                    page_size_log2: byte_of(packed, 3),
                    identifier: c_string(whole, be32_at(whole, 20) as int)->Some_0,
                    team_id: if team_at != 0 {
                        c_string(whole, team_at)
                    } else {
                        None
                    },
                    special_hashes: Seq::new(
                        n_special as nat,
                        |i: int| special_at(whole, base, size, i),
                    ),
                    code_hashes: Seq::new(n_code as nat, |j: int| code_at(whole, base, size, j)),
                    exec_seg_base: if version >= VERSION_EXEC_SEGMENT {
                        be64_at(whole, 64)
                    } else {
                        0
                    },
                    exec_seg_limit: if version >= VERSION_EXEC_SEGMENT {
                        be64_at(whole, 72)
                    } else {
                        0
                    },
                    exec_seg_flags: if version >= VERSION_EXEC_SEGMENT {
                        be64_at(whole, 80)
                    } else {
                        0
                    },
                },
            )
        }
    }
}

/// What reading a code directory from the front of `bytes` gives.
///
/// The framing errors of a blob come first. A version under `0x20100` is
/// `UnsupportedMachOVariant`. A blob that ends before its header, a string
/// without terminator, or a table that reaches outside the blob is
/// `BlobTruncated`.
pub open spec fn parsed_directory(bytes: Seq<u8>) -> Result<CodeDirectoryView, CodesignError> {
    match unframed_as(bytes, MAGIC_CODE_DIRECTORY) {
        Err(e) => Err(e),
        Ok(payload) => directory_of(bytes.subrange(0, payload.len() as int + 8)),
    }
}

} // verus!
