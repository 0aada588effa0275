//! The container of an embedded signature: an index of slots and the blobs
//! that the slots name.
//!
//! The layout is the container's magic, its total length, the number of
//! entries, one `(slot, offset)` pair for each entry, and then the blobs, one
//! behind the other in the order of the index. Offsets count from the first
//! byte of the container. A requirement set has the same layout, with the
//! requirement type in place of the slot.

use vstd::prelude::*;
use vstd::slice::{slice_subrange, slice_to_vec};
use crate::error::CodesignError;
use crate::wire::{
    be32, be32_at, lemma_be32_at_inside, lemma_be32_at_window, put_be32, put_bytes, read_be32,
};

verus! {

/// One entry of a container: the slot, and the framed bytes of its blob.
#[derive(Debug, PartialEq, Eq)]
pub struct BlobEntry {
    pub slot: u32,
    pub data: Vec<u8>,
}

/// The entries of a container, in the order of its index.
pub type Entries = Seq<(u32, Seq<u8>)>;

/// The mathematical value of a list of entries.
pub open spec fn entries_view(entries: Seq<BlobEntry>) -> Entries {
    Seq::new(entries.len(), |i: int| (entries[i].slot, entries[i].data@))
}

/// The total length of the first `n` blobs.
pub open spec fn blobs_len(entries: Entries, n: int) -> int
    decreases n,
{
    if n <= 0 {
        0
    } else {
        blobs_len(entries, n - 1) + entries[n - 1].1.len()
    }
}

/// The first `n` blobs, one behind the other.
pub open spec fn blobs_bytes(entries: Entries, n: int) -> Seq<u8>
    decreases n,
{
    if n <= 0 {
        Seq::empty()
    } else {
        blobs_bytes(entries, n - 1) + entries[n - 1].1
    }
}

/// The offset of blob `i` from the start of the container; for `i` the number
/// of entries, the total length of the container.
pub open spec fn entry_offset(entries: Entries, i: int) -> int {
    12 + 8 * entries.len() + blobs_len(entries, i)
}

/// The first `n` records of the index.
pub open spec fn index_bytes(entries: Entries, n: int) -> Seq<u8>
    decreases n,
{
    if n <= 0 {
        Seq::empty()
    } else {
        index_bytes(entries, n - 1) + be32(entries[n - 1].0) + be32(
            entry_offset(entries, n - 1) as u32,
        )
    }
}

/// Whether the container of these entries has a length that a `u32` holds.
pub open spec fn assemblable(entries: Entries) -> bool {
    entry_offset(entries, entries.len() as int) <= u32::MAX
}

/// The bytes of the container of `entries` under `magic`.
pub open spec fn assembled(magic: u32, entries: Entries) -> Seq<u8> {
    be32(magic) + be32(entry_offset(entries, entries.len() as int) as u32) + be32(
        entries.len() as u32,
    ) + index_bytes(entries, entries.len() as int) + blobs_bytes(entries, entries.len() as int)
}

/// Whether `data` is a blob that says its own length: at least a header, with
/// the length field equal to the number of bytes.
pub open spec fn self_delimiting(data: Seq<u8>) -> bool {
    data.len() >= 8 && be32_at(data, 4) == data.len()
}

/// Whether every blob of `entries` says its own length.
pub open spec fn all_self_delimiting(entries: Entries) -> bool {
    forall|i: int| 0 <= i < entries.len() ==> self_delimiting(#[trigger] entries[i].1)
}

/// The framed bytes of the blob that starts at `offset` of `whole`.
pub open spec fn blob_span(whole: Seq<u8>, offset: int) -> Result<Seq<u8>, CodesignError> {
    if offset + 8 > whole.len() {
        Err(CodesignError::BlobTruncated)
    } else if be32_at(whole, offset + 4) < 8 || offset + be32_at(whole, offset + 4) > whole.len() {
        Err(CodesignError::BlobTruncated)
    } else {
        Ok(whole.subrange(offset, offset + be32_at(whole, offset + 4)))
    }
}

/// The first `n` entries that the index of `whole` names.
pub open spec fn parsed_entries(whole: Seq<u8>, n: int) -> Result<Entries, CodesignError>
    decreases n,
{
    if n <= 0 {
        Ok(Seq::empty())
    } else {
        match parsed_entries(whole, n - 1) {
            Err(e) => Err(e),
            Ok(before) => match blob_span(whole, be32_at(whole, 12 + 8 * (n - 1) + 4) as int) {
                Err(e) => Err(e),
                Ok(data) => Ok(before.push((be32_at(whole, 12 + 8 * (n - 1)), data))),
            },
        }
    }
}

/// What reading a container of the magic `magic` from the front of `bytes`
/// gives.
///
/// `BlobTruncated` where the bytes end before the header, the declared
/// length, the index or a blob that the index names; `BlobBadMagic` where the
/// magic is another.
pub open spec fn disassembled(bytes: Seq<u8>, magic: u32) -> Result<Entries, CodesignError> {
    if bytes.len() < 12 {
        Err(CodesignError::BlobTruncated)
    } else if be32_at(bytes, 0) != magic {
        Err(CodesignError::BlobBadMagic)
    } else if be32_at(bytes, 4) < 12 || be32_at(bytes, 4) > bytes.len() {
        Err(CodesignError::BlobTruncated)
    } else if 12 + 8 * be32_at(bytes, 8) > be32_at(bytes, 4) {
        Err(CodesignError::BlobTruncated)
    } else {
        parsed_entries(bytes.subrange(0, be32_at(bytes, 4) as int), be32_at(bytes, 8) as int)
    }
}

/// The blobs grow with the entries and are never negative in length.
pub proof fn lemma_blobs_len(entries: Entries, i: int, j: int)
    requires
        0 <= i <= j <= entries.len(),
    ensures
        0 <= blobs_len(entries, i) <= blobs_len(entries, j),
        blobs_bytes(entries, j).len() == blobs_len(entries, j),
        index_bytes(entries, j).len() == 8 * j,
    decreases j,
{
    if j > 0 {
        if i < j {
            lemma_blobs_len(entries, i, j - 1);
        } else {
            lemma_blobs_len(entries, i - 1, j - 1);
        }
    }
}

/// Record `i` of the index, wherever the index lies, holds the slot and the
/// offset of entry `i`.
pub proof fn lemma_index_record(a: Seq<u8>, entries: Entries, n: int, b: Seq<u8>, i: int)
    requires
        0 <= i < n <= entries.len(),
    ensures
        be32_at(a + index_bytes(entries, n) + b, a.len() + 8 * i) == entries[i].0,
        be32_at(a + index_bytes(entries, n) + b, a.len() + 8 * i + 4) == entry_offset(
            entries,
            i,
        ) as u32,
    decreases n,
{
    let slot = be32(entries[n - 1].0);
    let offset = be32(entry_offset(entries, n - 1) as u32);
    let s = a + index_bytes(entries, n) + b;
    lemma_blobs_len(entries, n - 1, n - 1);
    if i < n - 1 {
        lemma_index_record(a, entries, n - 1, slot + offset + b, i);
        assert(a + index_bytes(entries, n - 1) + (slot + offset + b) =~= s);
    } else {
        let front = a + index_bytes(entries, n - 1);
        lemma_be32_at_inside(front, entries[n - 1].0, offset + b);
        assert(front + slot + (offset + b) =~= s);
        lemma_be32_at_inside(front + slot, entry_offset(entries, n - 1) as u32, b);
        assert(front + slot + offset + b =~= s);
    }
}

/// Blob `i`, wherever the blobs lie, is found at the sum of the lengths
/// before it.
pub proof fn lemma_blob_place(a: Seq<u8>, entries: Entries, n: int, b: Seq<u8>, i: int)
    requires
        0 <= i < n <= entries.len(),
    ensures
        (a + blobs_bytes(entries, n) + b).subrange(
            a.len() + blobs_len(entries, i),
            a.len() + blobs_len(entries, i + 1),
        ) == entries[i].1,
        a.len() + blobs_len(entries, i + 1) <= (a + blobs_bytes(entries, n) + b).len(),
    decreases n,
{
    let s = a + blobs_bytes(entries, n) + b;
    lemma_blobs_len(entries, i, n - 1);
    lemma_blobs_len(entries, i + 1, n);
    if i < n - 1 {
        lemma_blob_place(a, entries, n - 1, entries[n - 1].1 + b, i);
        assert(a + blobs_bytes(entries, n - 1) + (entries[n - 1].1 + b) =~= s);
    } else {
        assert(s.subrange(a.len() + blobs_len(entries, i), a.len() + blobs_len(entries, i + 1))
            =~= entries[i].1);
    }
}

/// The front of an assembled container up to the index.
pub open spec fn container_head(magic: u32, entries: Entries) -> Seq<u8> {
    be32(magic) + be32(entry_offset(entries, entries.len() as int) as u32) + be32(
        entries.len() as u32,
    )
}

/// The header of an assembled container reads back as its magic, its total
/// length and its number of entries.
pub proof fn lemma_container_header(magic: u32, entries: Entries, rest: Seq<u8>)
    requires
        assemblable(entries),
    ensures
        (assembled(magic, entries) + rest).len() == entry_offset(entries, entries.len() as int)
            + rest.len(),
        be32_at(assembled(magic, entries) + rest, 0) == magic,
        be32_at(assembled(magic, entries) + rest, 4) == entry_offset(
            entries,
            entries.len() as int,
        ),
        be32_at(assembled(magic, entries) + rest, 8) == entries.len(),
        (assembled(magic, entries) + rest).subrange(
            0,
            entry_offset(entries, entries.len() as int),
        ) == assembled(magic, entries),
{
    let n = entries.len() as int;
    let total = entry_offset(entries, n) as u32;
    let s = assembled(magic, entries) + rest;
    let tail = index_bytes(entries, n) + blobs_bytes(entries, n) + rest;
    lemma_blobs_len(entries, 0, n);
    lemma_be32_at_inside(Seq::<u8>::empty(), magic, be32(total) + be32(n as u32) + tail);
    assert(Seq::<u8>::empty() + be32(magic) + (be32(total) + be32(n as u32) + tail) =~= s);
    lemma_be32_at_inside(be32(magic), total, be32(n as u32) + tail);
    assert(be32(magic) + be32(total) + (be32(n as u32) + tail) =~= s);
    lemma_be32_at_inside(be32(magic) + be32(total), n as u32, tail);
    assert(be32(magic) + be32(total) + be32(n as u32) + tail =~= s);
    assert(s.subrange(0, entry_offset(entries, n)) =~= assembled(magic, entries));
}

/// The index of an assembled container names, for its first `k` entries, the
/// entries that were assembled.
pub proof fn lemma_parsed_entries(magic: u32, entries: Entries, k: int)
    requires
        assemblable(entries),
        all_self_delimiting(entries),
        0 <= k <= entries.len(),
    ensures
        parsed_entries(assembled(magic, entries), k) == Ok::<Entries, CodesignError>(
            entries.subrange(0, k),
        ),
    decreases k,
{
    let n = entries.len() as int;
    let whole = assembled(magic, entries);
    if k <= 0 {
        assert(entries.subrange(0, k) =~= Seq::<(u32, Seq<u8>)>::empty());
    } else {
        lemma_parsed_entries(magic, entries, k - 1);
        let i = k - 1;
        let head = container_head(magic, entries);
        let index = index_bytes(entries, n);
        let blobs = blobs_bytes(entries, n);
        lemma_blobs_len(entries, i, n);
        lemma_blobs_len(entries, i + 1, n);
        assert(head.len() == 12);
        assert(whole =~= head + index + blobs);
        lemma_index_record(head, entries, n, blobs, i);
        let offset = entry_offset(entries, i);
        assert(be32_at(whole, 12 + 8 * i + 4) == offset);
        assert(be32_at(whole, 12 + 8 * i) == entries[i].0);
        lemma_blob_place(head + index, entries, n, Seq::<u8>::empty(), i);
        assert(head + index + blobs + Seq::<u8>::empty() =~= whole);
        let data = entries[i].1;
        assert(self_delimiting(data));
        assert(whole.subrange(offset, offset + data.len()) == data);
        assert(whole.subrange(offset + 4, offset + 8) =~= data.subrange(4, 8));
        lemma_be32_at_window(whole, data, offset + 4, 4);
        assert(blob_span(whole, offset) == Ok::<Seq<u8>, CodesignError>(data));
        assert(entries.subrange(0, k - 1).push((entries[i].0, data)) =~= entries.subrange(0, k));
    }
}

/// Reading an assembled container gives back the entries it was made of, in
/// their order, whatever follows the container.
pub proof fn lemma_container_round_trip(magic: u32, entries: Entries, rest: Seq<u8>)
    requires
        assemblable(entries),
        all_self_delimiting(entries),
    ensures
        disassembled(assembled(magic, entries) + rest, magic) == Ok::<Entries, CodesignError>(
            entries,
        ),
{
    let n = entries.len() as int;
    lemma_container_header(magic, entries, rest);
    lemma_blobs_len(entries, 0, n);
    lemma_parsed_entries(magic, entries, n);
    assert(entries.subrange(0, n) =~= entries);
}

/// Once an entry fails to parse, the failure is the result for every longer
/// prefix of the index.
pub proof fn lemma_parse_error_stays(whole: Seq<u8>, k: int, n: int)
    requires
        0 <= k <= n,
        parsed_entries(whole, k) is Err,
    ensures
        parsed_entries(whole, n) == parsed_entries(whole, k),
    decreases n,
{
    if n > k {
        lemma_parse_error_stays(whole, k, n - 1);
    }
}

/// The role of a blob within an embedded signature.
#[derive(Clone, Copy, Debug, PartialEq, Eq, Structural)]
pub enum CodeSigningSlot {
    CodeDirectory,
    Info,
    RequirementSet,
    ResourceDir,
    Application,
    Entitlements,
    /// A further code directory, by its number from zero.
    AlternateCodeDirectory(u8),
    /// The CMS signature.
    Signature,
    /// A slot this library gives no name, by its code.
    Unknown(u32),
}

/// The first code of the alternate code directories.
pub const SLOT_ALTERNATE_BASE: u32 = 0x1000;

/// The code of the signature slot.
pub const SLOT_SIGNATURE: u32 = 0x1_0000;

/// The slot that `code` stands for.
pub open spec fn slot_of_code(code: u32) -> CodeSigningSlot {
    if code == 0 {
        CodeSigningSlot::CodeDirectory
    } else if code == 1 {
        CodeSigningSlot::Info
    } else if code == 2 {
        CodeSigningSlot::RequirementSet
    } else if code == 3 {
        CodeSigningSlot::ResourceDir
    } else if code == 4 {
        CodeSigningSlot::Application
    } else if code == 5 {
        CodeSigningSlot::Entitlements
    } else if 0x1000 <= code < 0x1100 {
        CodeSigningSlot::AlternateCodeDirectory((code - 0x1000) as u8)
    } else if code == 0x1_0000 {
        CodeSigningSlot::Signature
    } else {
        CodeSigningSlot::Unknown(code)
    }
}

/// The code that stands for `slot`.
pub open spec fn code_of_slot(slot: CodeSigningSlot) -> u32 {
    match slot {
        CodeSigningSlot::CodeDirectory => 0,
        CodeSigningSlot::Info => 1,
        CodeSigningSlot::RequirementSet => 2,
        CodeSigningSlot::ResourceDir => 3,
        CodeSigningSlot::Application => 4,
        CodeSigningSlot::Entitlements => 5,
        CodeSigningSlot::AlternateCodeDirectory(n) => (0x1000 + n) as u32,
        CodeSigningSlot::Signature => 0x1_0000,
        CodeSigningSlot::Unknown(code) => code,
    }
}

impl CodeSigningSlot {
    /// The slot that `code` stands for.
    pub fn from_code(code: u32) -> (slot: CodeSigningSlot)
        ensures
            slot == slot_of_code(code),
    {
        if code == 0 {
            CodeSigningSlot::CodeDirectory
        } else if code == 1 {
            CodeSigningSlot::Info
        } else if code == 2 {
            CodeSigningSlot::RequirementSet
        } else if code == 3 {
            CodeSigningSlot::ResourceDir
        } else if code == 4 {
            CodeSigningSlot::Application
        } else if code == 5 {
            CodeSigningSlot::Entitlements
        } else if 0x1000 <= code && code < 0x1100 {
            CodeSigningSlot::AlternateCodeDirectory((code - 0x1000) as u8)
        } else if code == 0x1_0000 {
            CodeSigningSlot::Signature
        } else {
            CodeSigningSlot::Unknown(code)
        }
    }

    /// The code that stands for this slot.
    pub fn code(&self) -> (code: u32)
        ensures
            code == code_of_slot(*self),
    {
        match self {
            CodeSigningSlot::CodeDirectory => 0,
            CodeSigningSlot::Info => 1,
            CodeSigningSlot::RequirementSet => 2,
            CodeSigningSlot::ResourceDir => 3,
            CodeSigningSlot::Application => 4,
            CodeSigningSlot::Entitlements => 5,
            CodeSigningSlot::AlternateCodeDirectory(n) => 0x1000 + *n as u32,
            CodeSigningSlot::Signature => 0x1_0000,
            CodeSigningSlot::Unknown(code) => *code,
        }
    }
}

/// The total length of the container of `entries`, where a `u32` holds it.
pub fn container_len(entries: &Vec<BlobEntry>) -> (total: Option<usize>)
    ensures
        total is Some <==> assemblable(entries_view(entries@)),
        total matches Some(n) ==> n == entry_offset(
            entries_view(entries@),
            entries@.len() as int,
        ),
{
    let ghost view = entries_view(entries@);
    let count = entries.len();
    if count > 0x1fff_fffe {
        proof {
            lemma_blobs_len(view, 0, count as int);
        }
        return None;
    }
    let mut total: u64 = 12 + 8 * (count as u64);
    let mut i: usize = 0;
    while i < count
        invariant
            i <= count,
            count == entries@.len(),
            count <= 0x1fff_fffe,
            view == entries_view(entries@),
            total == entry_offset(view, i as int),
            total <= u32::MAX,
        decreases count - i,
    {
        let len = entries[i].data.len() as u64;
        if len > 0xffff_ffff || total + len > 0xffff_ffff {
            proof {
                lemma_blobs_len(view, i as int + 1, count as int);
            }
            return None;
        }
        total = total + len;
        i = i + 1;
    }
    Some(total as usize)
}

/// Writes the container of `entries` under `magic`: the header, the index in
/// the order of `entries`, and the blobs in the same order.
pub fn assemble_container(magic: u32, entries: &Vec<BlobEntry>) -> (bytes: Vec<u8>)
    requires
        assemblable(entries_view(entries@)),
    ensures
        bytes@ == assembled(magic, entries_view(entries@)),
        bytes@.len() == entry_offset(entries_view(entries@), entries@.len() as int),
{
    let ghost view = entries_view(entries@);
    let count = entries.len();
    let total = match container_len(entries) {
        Some(n) => n,
        None => 0,
    };
    proof {
        lemma_blobs_len(view, 0, count as int);
    }
    let mut out: Vec<u8> = Vec::new();
    put_be32(&mut out, magic);
    put_be32(&mut out, total as u32);
    put_be32(&mut out, count as u32);
    let ghost head = out@;
    assert(head == container_head(magic, view));
    let mut offset: usize = 12 + 8 * count;
    let mut i: usize = 0;
    while i < count
        invariant
            i <= count,
            count == entries@.len(),
            view == entries_view(entries@),
            assemblable(view),
            offset == entry_offset(view, i as int),
            out@ == head + index_bytes(view, i as int),
        decreases count - i,
    {
        proof {
            lemma_blobs_len(view, i as int, count as int);
            lemma_blobs_len(view, i as int + 1, count as int);
        }
        put_be32(&mut out, entries[i].slot);
        put_be32(&mut out, offset as u32);
        offset = offset + entries[i].data.len();
        i = i + 1;
        assert(out@ =~= head + index_bytes(view, i as int));
    }
    let ghost front = out@;
    let mut j: usize = 0;
    while j < count
        invariant
            j <= count,
            count == entries@.len(),
            view == entries_view(entries@),
            out@ == front + blobs_bytes(view, j as int),
        decreases count - j,
    {
        put_bytes(&mut out, entries[j].data.as_slice());
        j = j + 1;
        assert(out@ =~= front + blobs_bytes(view, j as int));
    }
    proof {
        assert(out@ =~= assembled(magic, view));
    }
    out
}

/// Reads the container of the magic `magic` at the front of `data`: its
/// entries in the order of the index, each with the framed bytes of its blob.
///
/// Fails with `BlobTruncated` where the bytes end before the header, the
/// declared length, the index or a blob that the index names, and with
/// `BlobBadMagic` where the magic is another.
pub fn parse_container(data: &[u8], magic: u32) -> (result: Result<Vec<BlobEntry>, CodesignError>)
    ensures
        match result {
            Ok(entries) => disassembled(data@, magic) == Ok::<Entries, CodesignError>(
                entries_view(entries@),
            ),
            Err(e) => disassembled(data@, magic) == Err::<Entries, CodesignError>(e),
        },
{
    if data.len() < 12 {
        return Err(CodesignError::BlobTruncated);
    }
    if read_be32(data, 0) != magic {
        return Err(CodesignError::BlobBadMagic);
    }
    let total = read_be32(data, 4);
    if total < 12 || total as usize > data.len() {
        return Err(CodesignError::BlobTruncated);
    }
    let count = read_be32(data, 8);
    if 12 + 8 * (count as u64) > total as u64 {
        return Err(CodesignError::BlobTruncated);
    }
    let whole = slice_subrange(data, 0, total as usize);
    let count = count as usize;
    let mut entries: Vec<BlobEntry> = Vec::new();
    let mut i: usize = 0;
    assert(entries_view(entries@) =~= Seq::<(u32, Seq<u8>)>::empty());
    while i < count
        invariant
            i <= count,
            12 + 8 * count <= whole@.len(),
            whole@.len() <= u32::MAX,
            disassembled(data@, magic) == parsed_entries(whole@, count as int),
            parsed_entries(whole@, i as int) == Ok::<Entries, CodesignError>(
                entries_view(entries@),
            ),
        decreases count - i,
    {
        let slot = read_be32(whole, 12 + 8 * i);
        let offset = read_be32(whole, 12 + 8 * i + 4) as usize;
        if offset > whole.len() - 8 {
            proof {
                assert(blob_span(whole@, offset as int) is Err);
                assert(parsed_entries(whole@, i as int + 1) == Err::<Entries, CodesignError>(
                    CodesignError::BlobTruncated,
                ));
                lemma_parse_error_stays(whole@, i as int + 1, count as int);
            }
            return Err(CodesignError::BlobTruncated);
        }
        let len = read_be32(whole, offset + 4) as usize;
        if len < 8 || len > whole.len() - offset {
            proof {
                assert(blob_span(whole@, offset as int) is Err);
                assert(parsed_entries(whole@, i as int + 1) == Err::<Entries, CodesignError>(
                    CodesignError::BlobTruncated,
                ));
                lemma_parse_error_stays(whole@, i as int + 1, count as int);
            }
            return Err(CodesignError::BlobTruncated);
        }
        let blob = slice_to_vec(slice_subrange(whole, offset, offset + len));
        let ghost before = entries_view(entries@);
        entries.push(BlobEntry { slot, data: blob });
        i = i + 1;
        assert(entries_view(entries@) =~= before.push((slot, blob@)));
    }
    Ok(entries)
}

/// The index of the first entry at or behind `from` that has the slot `slot`.
pub open spec fn slot_index(entries: Entries, slot: u32, from: int) -> Option<int>
    decreases entries.len() - from,
{
    if from < 0 || from >= entries.len() {
        None
    } else if entries[from].0 == slot {
        Some(from)
    } else {
        slot_index(entries, slot, from + 1)
    }
}

/// The framed bytes of the first blob in the slot `slot`.
pub open spec fn blob_in_slot(entries: Entries, slot: u32) -> Option<Seq<u8>> {
    match slot_index(entries, slot, 0) {
        Some(i) => Some(entries[i].1),
        None => None,
    }
}

/// The index found is the first with the slot; where none is found, no entry
/// has the slot.
pub proof fn lemma_slot_index(entries: Entries, slot: u32, from: int)
    requires
        0 <= from,
    ensures
        match slot_index(entries, slot, from) {
            Some(i) => from <= i < entries.len() && entries[i].0 == slot && forall|k: int|
                from <= k < i ==> (#[trigger] entries[k]).0 != slot,
            None => forall|k: int| from <= k < entries.len() ==> (#[trigger] entries[k]).0 != slot,
        },
    decreases entries.len() - from,
{
    if from < entries.len() && entries[from].0 != slot {
        lemma_slot_index(entries, slot, from + 1);
    }
}

/// The index of the first entry that has the slot `slot`.
pub fn find_slot(entries: &Vec<BlobEntry>, slot: u32) -> (found: Option<usize>)
    ensures
        match found {
            Some(i) => slot_index(entries_view(entries@), slot, 0) == Some(i as int) && i
                < entries@.len() && entries@[i as int].slot == slot,
            None => slot_index(entries_view(entries@), slot, 0) is None,
        },
{
    let ghost view = entries_view(entries@);
    let mut i: usize = 0;
    while i < entries.len()
        invariant
            i <= entries@.len(),
            view == entries_view(entries@),
            slot_index(view, slot, 0) == slot_index(view, slot, i as int),
        decreases entries@.len() - i,
    {
        if entries[i].slot == slot {
            return Some(i);
        }
        i = i + 1;
    }
    None
}

} // verus!
