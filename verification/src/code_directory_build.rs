//! Building the code directory of a binary from its bytes, its settings and
//! the component blobs that the special slots stand for.

use vstd::prelude::*;
use vstd::slice::slice_to_vec;
use crate::code_directory::{
    CodeDirectory, CodeDirectoryView, hashes_view, no_nul, option_view, total_len, uniform,
    VERSION_EXEC_SEGMENT, VERSION_SCATTER, VERSION_TEAM_ID, well_formed,
};
use crate::code_directory_codec::has_no_nul;
use crate::code_hash::{
    compute_code_hashes, digest_value, lemma_one_page, lemma_page_bytes, lemma_page_count,
    lemma_pages_at_most_bytes, page_bytes, page_count, page_digests, page_size_of, pages,
};
use crate::digest::{digest_len, DigestType, hashes};
use crate::error::CodesignError;
use crate::superblob::{blob_in_slot, BlobEntry, Entries, entries_view, find_slot};
use crate::wire::{put_zeros, zeros};

verus! {

/// The executable segment as the code directory records it.
#[derive(Clone, Copy, Debug, PartialEq, Eq, Structural)]
pub struct ExecSegment {
    pub base: u64,
    pub limit: u64,
    pub flags: u64,
}

/// The settings of a code directory that do not depend on the binary.
#[derive(Debug, PartialEq, Eq)]
pub struct CodeDirectoryParams {
    pub identifier: Vec<u8>,
    pub team_id: Option<Vec<u8>>,
    pub flags: u32,
    pub hash_type: DigestType,
    pub page_size_log2: u8,
    pub platform: u8,
    pub exec_segment: Option<ExecSegment>,
}

/// The mathematical value of [`CodeDirectoryParams`].
pub struct ParamsView {
    pub identifier: Seq<u8>,
    pub team_id: Option<Seq<u8>>,
    pub flags: u32,
    pub hash_type: DigestType,
    pub page_size_log2: u8,
    pub platform: u8,
    pub exec_segment: Option<ExecSegment>,
}

impl View for CodeDirectoryParams {
    type V = ParamsView;

    open spec fn view(&self) -> ParamsView {
        ParamsView {
            identifier: self.identifier@,
            team_id: option_view(self.team_id),
            flags: self.flags,
            hash_type: self.hash_type,
            page_size_log2: self.page_size_log2,
            platform: self.platform,
            exec_segment: self.exec_segment,
        }
    }
}

/// Whether the strings of the settings can be stored with a terminator.
pub open spec fn params_valid(p: ParamsView) -> bool {
    &&& no_nul(p.identifier)
    &&& p.team_id matches Some(team) ==> no_nul(team)
}

/// Whether `slot` is a special slot: one whose blob the code directory
/// vouches for with a hash.
pub open spec fn is_special(slot: u32) -> bool {
    1 <= slot < 0x1000
}

/// The highest special slot among the first `n` entries; zero where there is
/// none.
pub open spec fn max_special(entries: Entries, n: int) -> int
    decreases n,
{
    if n <= 0 {
        0
    } else if is_special(entries[n - 1].0) && entries[n - 1].0 > max_special(entries, n - 1) {
        entries[n - 1].0 as int
    } else {
        max_special(entries, n - 1)
    }
}

/// The hash that stands in the special slot `slot`: the digest of the framed
/// bytes of the slot's blob, or as many zero bytes where the slot has none.
pub open spec fn special_digest(kind: DigestType, entries: Entries, slot: u32) -> Seq<u8> {
    match blob_in_slot(entries, slot) {
        Some(blob) => digest_value(kind, blob),
        None => zeros(digest_len(kind)),
    }
}

/// The version that holds the fields which the settings ask for.
pub open spec fn built_version(p: ParamsView) -> u32 {
    if p.exec_segment is Some {
        VERSION_EXEC_SEGMENT
    } else if p.team_id is Some {
        VERSION_TEAM_ID
    } else {
        VERSION_SCATTER
    }
}

/// The code directory of the binary bytes `code` under the settings `p`, with
/// the special slots of `entries`.
pub open spec fn built(p: ParamsView, code: Seq<u8>, entries: Entries) -> CodeDirectoryView {
    CodeDirectoryView {
        version: built_version(p),
        flags: p.flags,
        code_limit: code.len() as u32,
        hash_size: digest_len(p.hash_type) as u8,
        hash_type: p.hash_type,
        platform: p.platform,
        page_size_log2: p.page_size_log2,
        identifier: p.identifier,
        team_id: p.team_id,
        special_hashes: Seq::new(
            max_special(entries, entries.len() as int) as nat,
            |i: int| special_digest(p.hash_type, entries, (i + 1) as u32),
        ),
        code_hashes: page_digests(p.hash_type, code, page_bytes(p.page_size_log2 as nat)),
        exec_seg_base: match p.exec_segment {
            Some(segment) => segment.base,
            None => 0,
        },
        exec_seg_limit: match p.exec_segment {
            Some(segment) => segment.limit,
            None => 0,
        },
        exec_seg_flags: match p.exec_segment {
            Some(segment) => segment.flags,
            None => 0,
        },
    }
}

/// Whether the directory of these inputs can be built: the kind hashes, the
/// binary's length fits the code limit, and the blob's length fits a `u32`.
pub open spec fn buildable(p: ParamsView, code: Seq<u8>, entries: Entries) -> bool {
    &&& hashes(p.hash_type)
    &&& code.len() <= u32::MAX
    &&& total_len(built(p, code, entries)) <= u32::MAX
}

/// The highest special slot is a special slot or zero, and no special slot
/// among the entries lies above it.
pub proof fn lemma_max_special(entries: Entries, n: int)
    requires
        0 <= n <= entries.len(),
    ensures
        0 <= max_special(entries, n) < 0x1000,
        forall|k: int|
            0 <= k < n && is_special((#[trigger] entries[k]).0) ==> entries[k].0 <= max_special(
                entries,
                n,
            ),
    decreases n,
{
    if n > 0 {
        lemma_max_special(entries, n - 1);
    }
}

/// The built directory holds one code hash for every page: as many as the
/// code limit divided by the page size, rounded up.
pub proof fn lemma_built_code_slots(p: ParamsView, code: Seq<u8>, entries: Entries)
    ensures
        built(p, code, entries).code_hashes.len() == page_count(
            code.len() as int,
            page_bytes(p.page_size_log2 as nat),
        ),
        forall|j: int|
            0 <= j < built(p, code, entries).code_hashes.len() ==> #[trigger] built(
                p,
                code,
                entries,
            ).code_hashes[j] == digest_value(
                p.hash_type,
                pages(code, page_bytes(p.page_size_log2 as nat))[j],
            ),
{
    let page = page_bytes(p.page_size_log2 as nat);
    lemma_page_bytes(p.page_size_log2 as nat);
    lemma_page_count(p.hash_type, code, page);
    assert forall|j: int| 0 <= j < built(p, code, entries).code_hashes.len() implies #[trigger] built(
        p,
        code,
        entries,
    ).code_hashes[j] == digest_value(p.hash_type, pages(code, page)[j]) by {
        crate::code_hash::lemma_page_digest(p.hash_type, code, page, j);
    }
}

/// The built directory holds, for every special slot up to the highest one
/// present, the digest of the framed bytes of the slot's blob, and zero bytes
/// for a slot without blob.
pub proof fn lemma_built_special_slots(
    p: ParamsView,
    code: Seq<u8>,
    entries: Entries,
    slot: u32,
)
    requires
        1 <= slot <= max_special(entries, entries.len() as int),
    ensures
        built(p, code, entries).special_hashes.len() == max_special(
            entries,
            entries.len() as int,
        ),
        built(p, code, entries).special_hashes[slot - 1] == special_digest(
            p.hash_type,
            entries,
            slot,
        ),
        blob_in_slot(entries, slot) matches Some(blob) ==> built(
            p,
            code,
            entries,
        ).special_hashes[slot - 1] == digest_value(p.hash_type, blob),
        blob_in_slot(entries, slot) is None ==> built(p, code, entries).special_hashes[slot - 1]
            == zeros(digest_len(p.hash_type)),
{
}

fn zero_bytes(n: usize) -> (bytes: Vec<u8>)
    ensures
        bytes@ == zeros(n as nat),
{
    let mut bytes: Vec<u8> = Vec::new();
    put_zeros(&mut bytes, n);
    assert(bytes@ =~= zeros(n as nat));
    bytes
}

fn copy_bytes(bytes: &Vec<u8>) -> (copy: Vec<u8>)
    ensures
        copy@ == bytes@,
{
    slice_to_vec(bytes.as_slice())
}

/// The highest special slot among `entries`; zero where there is none.
pub fn highest_special_slot(entries: &Vec<BlobEntry>) -> (slot: u32)
    ensures
        slot == max_special(entries_view(entries@), entries@.len() as int),
        slot < 0x1000,
{
    let ghost view = entries_view(entries@);
    let mut highest: u32 = 0;
    let mut i: usize = 0;
    while i < entries.len()
        invariant
            i <= entries@.len(),
            view == entries_view(entries@),
            highest == max_special(view, i as int),
            highest < 0x1000,
        decreases entries@.len() - i,
    {
        let slot = entries[i].slot;
        if 1 <= slot && slot < 0x1000 && slot > highest {
            highest = slot;
        }
        i = i + 1;
    }
    highest
}

impl CodeDirectoryParams {
    /// Whether the strings of the settings hold no NUL and so can be stored.
    pub fn is_valid(&self) -> (ok: bool)
        ensures
            ok == params_valid(self@),
    {
        if !has_no_nul(&self.identifier) {
            return false;
        }
        match &self.team_id {
            Some(team) => has_no_nul(team),
            None => true,
        }
    }
}

/// Builds the code directory of a binary.
///
/// `code` holds the bytes of the binary up to the code limit, as they will
/// stand in the signed file. `components` holds the framed bytes of the blobs
/// that go into the signature beside the directory; those in special slots
/// are hashed, and a special slot under the highest one present that has no
/// blob gets a hash of zero bytes.
///
/// Fails with `UnsupportedHash` where the hash kind computes no digest, and
/// else with `BlobTooLarge` where the binary is longer than a `u32` counts or
/// the directory would be.
pub fn build(params: &CodeDirectoryParams, code: &[u8], components: &Vec<BlobEntry>) -> (result:
    Result<CodeDirectory, CodesignError>)
    requires
        params_valid(params@),
    ensures
        match result {
            Ok(directory) => buildable(params@, code@, entries_view(components@)) && directory@
                == built(params@, code@, entries_view(components@)) && well_formed(directory@),
            Err(e) => !buildable(params@, code@, entries_view(components@)) && e == (if hashes(
                params@.hash_type,
            ) {
                CodesignError::BlobTooLarge
            } else {
                CodesignError::UnsupportedHash
            }),
        },
{
    let ghost p = params@;
    let ghost entries = entries_view(components@);
    let ghost want = built(p, code@, entries);
    let kind = params.hash_type;
    let size = match kind {
        DigestType::NoDigest => {
            return Err(CodesignError::UnsupportedHash);
        },
        DigestType::Unknown(_) => {
            return Err(CodesignError::UnsupportedHash);
        },
        DigestType::Sha1 => 20u8,
        DigestType::Sha256 => 32u8,
        DigestType::Sha256Truncated => 20u8,
        DigestType::Sha384 => 48u8,
    };
    if code.len() > 0xffff_ffff {
        return Err(CodesignError::BlobTooLarge);
    }
    proof {
        lemma_page_bytes(p.page_size_log2 as nat);
    }
    let page_size = match page_size_of(params.page_size_log2) {
        Some(n) => n,
        None => {
            proof {
                let big = if code@.len() == 0 {
                    1
                } else {
                    code@.len() as int
                };
                lemma_one_page(kind, code@, big, page_bytes(p.page_size_log2 as nat));
            }
            if code.len() == 0 {
                1
            } else {
                code.len()
            }
        },
    };
    let code_hashes = match compute_code_hashes(code, kind, page_size) {
        Ok(digests) => digests,
        Err(e) => {
            return Err(e);
        },
    };
    assert(hashes_view(code_hashes@) == want.code_hashes);
    let n_special = highest_special_slot(components);
    let mut special_hashes: Vec<Vec<u8>> = Vec::new();
    let mut slot: u32 = 1;
    while slot <= n_special
        invariant
            1 <= slot <= n_special + 1,
            n_special < 0x1000,
            hashes(kind),
            size == digest_len(kind),
            entries == entries_view(components@),
            special_hashes@.len() == slot - 1,
            forall|k: int|
                0 <= k < slot - 1 ==> (#[trigger] special_hashes@[k])@ == special_digest(
                    kind,
                    entries,
                    (k + 1) as u32,
                ) && special_hashes@[k]@.len() == size,
        decreases n_special + 1 - slot,
    {
        let hash = match find_slot(components, slot) {
            Some(i) => match kind.digest(components[i].data.as_slice()) {
                Ok(digest) => digest,
                Err(_) => zero_bytes(size as usize),
            },
            None => zero_bytes(size as usize),
        };
        special_hashes.push(hash);
        slot = slot + 1;
    }
    assert(hashes_view(special_hashes@) =~= want.special_hashes);
    let version = if params.exec_segment.is_some() {
        VERSION_EXEC_SEGMENT
    } else if params.team_id.is_some() {
        VERSION_TEAM_ID
    } else {
        VERSION_SCATTER
    };
    let segment = match params.exec_segment {
        Some(segment) => segment,
        None => ExecSegment { base: 0, limit: 0, flags: 0 },
    };
    let team_id = match &params.team_id {
        Some(team) => Some(copy_bytes(team)),
        None => None,
    };
    let directory = CodeDirectory {
        version,
        flags: params.flags,
        code_limit: code.len() as u32,
        hash_size: size,
        hash_type: kind,
        platform: params.platform,
        page_size_log2: params.page_size_log2,
        identifier: copy_bytes(&params.identifier),
        team_id,
        special_hashes,
        code_hashes,
        exec_seg_base: segment.base,
        exec_seg_limit: segment.limit,
        exec_seg_flags: segment.flags,
    };
    assert(directory@ == want);
    proof {
        lemma_page_count(kind, code@, page_bytes(p.page_size_log2 as nat));
        lemma_pages_at_most_bytes(code@, page_bytes(p.page_size_log2 as nat));
        crate::code_hash::lemma_page_digest_count(kind, code@, page_bytes(p.page_size_log2 as nat));
        assert(uniform(hashes_view(directory.special_hashes@), size as int));
    }
    if !directory.is_well_formed() {
        return Err(CodesignError::BlobTooLarge);
    }
    Ok(directory)
}

} // verus!
