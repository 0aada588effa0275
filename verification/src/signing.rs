//! Signing a Mach-O binary: from the view of the binary and the settings to
//! the bytes of the signed file.
//!
//! The signature lies inside the bytes that it signs: the header of the
//! signed file names the size of the signature, and the code directory
//! hashes the header. The size is therefore fixed before anything is hashed,
//! from the lengths of the blobs and the size reserved for the CMS
//! signature. The code directory is built once, over the header as it will
//! stand. A CMS signature shorter than the reserved size is padded with zero
//! bytes; a longer one is refused.

use vstd::prelude::*;
use crate::blob::{
    framed, lemma_framed_header, MAGIC_BLOB_WRAPPER, MAGIC_EMBEDDED_SIGNATURE, write_blob,
};
use crate::code_directory::{
    CodeDirectoryView, header_len, option_view, parsed_directory, serialized, text_len, total_len,
    well_formed,
};
use crate::code_directory_build::{
    build, built, built_version, CodeDirectoryParams, highest_special_slot, max_special,
    params_valid, ParamsView,
};
use crate::code_directory_codec::{header_size, lemma_fields_read};
use crate::code_hash::{lemma_page_bytes, lemma_page_count, page_bytes, page_count, page_size_of};
use crate::digest::{digest_len, DigestType, hashes};
use crate::error::CodesignError;
use crate::macho::{code_limit_of, MachoShape, planned, shape_valid, signed_code, WritableLayout};
use crate::macho_layout::{lemma_plan, write_signed_code};
use crate::macho_load::MachoView;
use crate::superblob::{
    all_self_delimiting, assemblable, assemble_container, assembled, blob_in_slot, BlobEntry,
    blobs_len,
    container_len, disassembled, Entries, entries_view, lemma_blobs_len,
    lemma_container_round_trip, self_delimiting, SLOT_SIGNATURE,
};
use crate::wire::{lemma_span, put_bytes, put_zeros, read_be32, span, table_len, zeros};
use vstd::arithmetic::div_mod::{lemma_basic_div, lemma_div_plus_one};
use vstd::slice::slice_to_vec;

verus! {

/// What goes into the signature of a binary beside its bytes.
#[derive(Debug, PartialEq, Eq)]
pub struct SigningSettings {
    /// The settings of the code directory.
    pub directory: CodeDirectoryParams,
    /// The bytes of `Info.plist`, of which the code directory holds a hash.
    pub info_plist: Option<Vec<u8>>,
    /// The framed bytes of the requirement set.
    pub requirements: Option<Vec<u8>>,
    /// The bytes of the resources file, of which the code directory holds a
    /// hash.
    pub resources: Option<Vec<u8>>,
    /// The framed bytes of the entitlements.
    pub entitlements: Option<Vec<u8>>,
}

/// The mathematical value of [`SigningSettings`].
pub struct SettingsView {
    pub directory: ParamsView,
    pub info_plist: Option<Seq<u8>>,
    pub requirements: Option<Seq<u8>>,
    pub resources: Option<Seq<u8>>,
    pub entitlements: Option<Seq<u8>>,
}

impl View for SigningSettings {
    type V = SettingsView;

    open spec fn view(&self) -> SettingsView {
        SettingsView {
            directory: self.directory@,
            info_plist: option_view(self.info_plist),
            requirements: option_view(self.requirements),
            resources: option_view(self.resources),
            entitlements: option_view(self.entitlements),
        }
    }
}

/// The entries of which one is there for every value that is given.
pub open spec fn present(slots: Seq<(u32, Option<Seq<u8>>)>, n: int) -> Entries
    decreases n,
{
    if n <= 0 {
        Seq::empty()
    } else {
        match slots[n - 1].1 {
            Some(data) => present(slots, n - 1).push((slots[n - 1].0, data)),
            None => present(slots, n - 1),
        }
    }
}

/// What the special slots of the code directory hash: `Info.plist` in slot
/// one, the requirement set in slot two, the resources in slot three and the
/// entitlements in slot five, as far as they are given.
pub open spec fn hashed_components(s: SettingsView) -> Entries {
    present(
        seq![(1u32, s.info_plist), (2u32, s.requirements), (3u32, s.resources), (
            5u32,
            s.entitlements,
        )],
        4,
    )
}

/// The blob of a CMS signature in a slot of `reserved` bytes: the signature,
/// padded with zero bytes to the reserved size, in a wrapper.
pub open spec fn signature_blob(cms: Seq<u8>, reserved: nat) -> Seq<u8> {
    framed(MAGIC_BLOB_WRAPPER, cms + zeros((reserved - cms.len()) as nat))
}

/// The number of bytes of the code directory of a binary whose code limit
/// is `limit`.
pub open spec fn directory_len(s: SettingsView, limit: int) -> int {
    let p = s.directory;
    header_len(built_version(p)) + p.identifier.len() + 1 + text_len(p.team_id) + span(
        max_special(hashed_components(s), hashed_components(s).len() as int),
        digest_len(p.hash_type) as int,
    ) + span(
        page_count(limit, page_bytes(p.page_size_log2 as nat)),
        digest_len(p.hash_type) as int,
    )
}

/// The number of bytes of an optional blob in the container: its length and
/// eight bytes of index, or nothing.
pub open spec fn entry_len(blob: Option<Seq<u8>>) -> int {
    match blob {
        Some(data) => data.len() as int + 8,
        None => 0,
    }
}

/// The number of bytes of the embedded signature of a binary whose code
/// limit is `limit`, with `reserved` bytes for a CMS signature, or without
/// signature.
pub open spec fn signature_len(s: SettingsView, limit: int, reserved: Option<u32>) -> int {
    12 + 8 + directory_len(s, limit) + entry_len(s.requirements) + entry_len(s.entitlements)
        + match reserved {
        Some(n) => n + 16,
        None => 0,
    }
}

/// Whether the settings can be signed with: the strings of the directory
/// hold no NUL, and the blobs given say their own length.
pub open spec fn settings_valid(s: SettingsView) -> Result<(), CodesignError> {
    if !params_valid(s.directory) {
        Err(CodesignError::CliBadArgument)
    } else if s.requirements matches Some(r) && !self_delimiting(r) {
        Err(CodesignError::BlobTruncated)
    } else if s.entitlements matches Some(e) && !self_delimiting(e) {
        Err(CodesignError::BlobTruncated)
    } else if !hashes(s.directory.hash_type) {
        Err(CodesignError::UnsupportedHash)
    } else {
        Ok(())
    }
}

/// The layout of the signed file of a binary of the shape `shape`.
///
/// `CliBadArgument` where a string of the directory holds a NUL,
/// `BlobTruncated` where a blob given does not say its own length,
/// `UnsupportedHash` where the hash kind computes no digest, `BlobTooLarge`
/// where the signature or the signed file is longer than a `u32` counts, and
/// `LoadCommandOverflow` where the load command has no room.
pub open spec fn planned_signature(shape: MachoShape, s: SettingsView, reserved: Option<u32>) -> Result<
    WritableLayout,
    CodesignError,
> {
    match settings_valid(s) {
        Err(e) => Err(e),
        Ok(_) => if signature_len(s, code_limit_of(shape) as int, reserved) > u32::MAX {
            Err(CodesignError::BlobTooLarge)
        } else {
            planned(shape, signature_len(s, code_limit_of(shape) as int, reserved) as u32)
        },
    }
}

/// The layout of the signed file of a binary whose view has the shape
/// `shape`: the error of the settings where they are not valid, then the
/// error of the shape where the binary cannot take a signature, and else
/// the layout planned for the shape.
pub open spec fn planned_for(
    shape: Result<MachoShape, CodesignError>,
    s: SettingsView,
    reserved: Option<u32>,
) -> Result<WritableLayout, CodesignError> {
    match settings_valid(s) {
        Err(e) => Err(e),
        Ok(_) => match shape {
            Err(e) => Err(e),
            Ok(shape) => planned_signature(shape, s, reserved),
        },
    }
}

/// The signed file of the binary `data`: the code with its header rewritten
/// for the planned layout, and behind it the embedded signature with the
/// code directory over that code, the requirement set and the entitlements
/// as far as they are given, and the CMS signature `cms`, padded to the
/// `reserved` size, where there is one.
pub open spec fn signed_with(
    data: Seq<u8>,
    shape: MachoShape,
    s: SettingsView,
    reserved: Option<u32>,
    cms: Option<Seq<u8>>,
) -> Seq<u8> {
    let layout = planned_signature(shape, s, reserved)->Ok_0;
    let code = signed_code(data, shape, layout);
    let directory = serialized(built(s.directory, code, hashed_components(s)));
    let blob = match (reserved, cms) {
        (Some(n), Some(signature)) => Some(signature_blob(signature, n as nat)),
        _ => None,
    };
    code + assembled(
        MAGIC_EMBEDDED_SIGNATURE,
        present(
            seq![(0u32, Some(directory)), (2u32, s.requirements), (5u32, s.entitlements), (
                SLOT_SIGNATURE,
                blob,
            )],
            4,
        ),
    )
}

/// A binary ready to take its signature: the layout is fixed, the header is
/// rewritten and the code directory is built.
pub struct PreparedSignature {
    layout: WritableLayout,
    code: Vec<u8>,
    directory: Vec<u8>,
    requirements: Option<Vec<u8>>,
    entitlements: Option<Vec<u8>>,
    reserved: Option<u32>,
}

impl PreparedSignature {
    /// The layout of the signed file.
    pub closed spec fn layout_of(&self) -> WritableLayout {
        self.layout
    }

    /// The bytes of the signed file in front of the signature.
    pub closed spec fn code_of(&self) -> Seq<u8> {
        self.code@
    }

    /// The bytes of the code directory's blob.
    pub closed spec fn directory_of(&self) -> Seq<u8> {
        self.directory@
    }

    /// The requirement set and the entitlements that go into the signature.
    pub closed spec fn blobs_of(&self) -> (Option<Seq<u8>>, Option<Seq<u8>>) {
        (option_view(self.requirements), option_view(self.entitlements))
    }

    /// The number of bytes reserved for the CMS signature, if one is to come.
    pub closed spec fn reserved_of(&self) -> Option<u32> {
        self.reserved
    }

    /// The entries of the embedded signature with the CMS blob `signature`.
    pub open spec fn entries_with(&self, signature: Option<Seq<u8>>) -> Entries {
        present(
            seq![(0u32, Some(self.directory_of())), (2u32, self.blobs_of().0), (
                5u32,
                self.blobs_of().1,
            ), (SLOT_SIGNATURE, signature)],
            4,
        )
    }

    /// Whether the parts agree: the code ends at the code limit, every blob
    /// says its own length, and the layout reserves for the signature as
    /// many bytes as the embedded signature will have.
    pub open spec fn well_formed(&self) -> bool {
        &&& self.code_of().len() == self.layout_of().code_limit
        &&& self.layout_of().file_len == self.layout_of().code_limit
            + self.layout_of().signature_size
        &&& self_delimiting(self.directory_of())
        &&& self.blobs_of().0 matches Some(r) ==> self_delimiting(r)
        &&& self.blobs_of().1 matches Some(e) ==> self_delimiting(e)
        &&& self.layout_of().signature_size == 12 + 8 + self.directory_of().len() + entry_len(
            self.blobs_of().0,
        ) + entry_len(self.blobs_of().1) + match self.reserved_of() {
            Some(n) => n + 16,
            None => 0,
        }
    }

    /// The layout of the signed file.
    pub fn layout(&self) -> (layout: WritableLayout)
        ensures
            layout == self.layout_of(),
    {
        self.layout
    }

    /// The bytes of the code directory's blob: the message of the CMS
    /// signature.
    pub fn directory_bytes(&self) -> (bytes: &Vec<u8>)
        ensures
            bytes@ == self.directory_of(),
    {
        &self.directory
    }

    /// The bytes of the signed file in front of the signature.
    pub fn code_bytes(&self) -> (bytes: &Vec<u8>)
        ensures
            bytes@ == self.code_of(),
    {
        &self.code
    }

    /// The number of bytes reserved for the CMS signature, if one is to come.
    pub fn reserved(&self) -> (reserved: Option<u32>)
        ensures
            reserved == self.reserved_of(),
    {
        self.reserved
    }

    /// Asks for another size of the slot of the CMS signature. The code
    /// directory is built and has hashed the size, so every other size than
    /// the reserved one is refused with `PlaceholderShrink`.
    pub fn resize(&self, size: u32) -> (result: Result<(), CodesignError>)
        ensures
            result == if self.reserved_of() == Some(size) {
                Ok::<(), CodesignError>(())
            } else {
                Err::<(), CodesignError>(CodesignError::PlaceholderShrink)
            },
    {
        match self.reserved {
            Some(n) => if n == size {
                Ok(())
            } else {
                Err(CodesignError::PlaceholderShrink)
            },
            None => Err(CodesignError::PlaceholderShrink),
        }
    }
}

/// The length of a container is the header, eight bytes of index for every
/// entry, and the blobs.
pub proof fn lemma_present_len(slots: Seq<(u32, Option<Seq<u8>>)>, n: int)
    requires
        0 <= n <= slots.len(),
    ensures
        present(slots, n).len() <= n,
        8 * present(slots, n).len() + blobs_len(present(slots, n), present(slots, n).len() as int)
            == present_len(slots, n),
    decreases n,
{
    if n > 0 {
        lemma_present_len(slots, n - 1);
        let before = present(slots, n - 1);
        match slots[n - 1].1 {
            Some(data) => {
                let now = before.push((slots[n - 1].0, data));
                lemma_blobs_same(before, now, before.len() as int);
            },
            None => {},
        }
    }
}

/// The bytes that the first `n` optional entries take in a container.
pub open spec fn present_len(slots: Seq<(u32, Option<Seq<u8>>)>, n: int) -> int
    decreases n,
{
    if n <= 0 {
        0
    } else {
        present_len(slots, n - 1) + entry_len(slots[n - 1].1)
    }
}

/// The length of the first blobs does not depend on the entries behind them.
pub proof fn lemma_blobs_same(a: Entries, b: Entries, n: int)
    requires
        0 <= n <= a.len(),
        n <= b.len(),
        forall|i: int| 0 <= i < n ==> a[i] == b[i],
    ensures
        blobs_len(a, n) == blobs_len(b, n),
    decreases n,
{
    if n > 0 {
        lemma_blobs_same(a, b, n - 1);
    }
}

/// Every entry that is there is one of the values given, so that entries of
/// blobs that say their own length say their own length.
pub proof fn lemma_present_delimiting(slots: Seq<(u32, Option<Seq<u8>>)>, n: int)
    requires
        0 <= n <= slots.len(),
        forall|i: int| 0 <= i < n ==> ((#[trigger] slots[i]).1 matches Some(data)
            ==> self_delimiting(data)),
    ensures
        all_self_delimiting(present(slots, n)),
    decreases n,
{
    if n > 0 {
        lemma_present_delimiting(slots, n - 1);
    }
}

/// A signature blob says its own length, which is the reserved size and the
/// header.
pub proof fn lemma_signature_blob(cms: Seq<u8>, reserved: u32)
    requires
        cms.len() <= reserved,
        reserved + 8 <= u32::MAX,
    ensures
        self_delimiting(signature_blob(cms, reserved as nat)),
        signature_blob(cms, reserved as nat).len() == reserved + 8,
        cms.len() == reserved ==> signature_blob(cms, reserved as nat) == framed(
            MAGIC_BLOB_WRAPPER,
            cms,
        ),
{
    let payload = cms + zeros((reserved - cms.len()) as nat);
    lemma_framed_header(MAGIC_BLOB_WRAPPER, payload);
    if cms.len() == reserved {
        assert(payload =~= cms);
    }
}

/// A page longer than the code holds all of it: there is one page, or none
/// for no code.
pub proof fn lemma_page_count_big(limit: int, page: int)
    requires
        0 <= limit < page,
    ensures
        page_count(limit, page) == if limit == 0 {
            0int
        } else {
            1int
        },
{
    if limit == 0 {
        lemma_basic_div(page - 1, page);
    } else {
        lemma_div_plus_one(limit - 1, page);
        lemma_basic_div(limit - 1, page);
    }
}

/// The code directory that is built has the length that is planned for it.
pub proof fn lemma_directory_len(s: SettingsView, code: Seq<u8>)
    requires
        digest_len(s.directory.hash_type) <= 255,
    ensures
        total_len(built(s.directory, code, hashed_components(s))) == directory_len(
            s,
            code.len() as int,
        ),
{
    let p = s.directory;
    lemma_page_bytes(p.page_size_log2 as nat);
    lemma_page_count(p.hash_type, code, page_bytes(p.page_size_log2 as nat));
    crate::code_directory_build::lemma_max_special(
        hashed_components(s),
        hashed_components(s).len() as int,
    );
}

fn push_present(list: &mut Vec<BlobEntry>, slot: u32, data: &Option<Vec<u8>>)
    ensures
        entries_view(final(list)@) == match option_view(*data) {
            Some(bytes) => entries_view(old(list)@).push((slot, bytes)),
            None => entries_view(old(list)@),
        },
{
    match data {
        Some(bytes) => {
            let copy = slice_to_vec(bytes.as_slice());
            list.push(BlobEntry { slot, data: copy });
            assert(entries_view(list@) =~= entries_view(old(list)@).push((slot, bytes@)));
        },
        None => {},
    }
}

fn says_own_length(blob: &Vec<u8>) -> (ok: bool)
    ensures
        ok == self_delimiting(blob@),
{
    blob.len() >= 8 && blob.len() <= 0xffff_ffff && read_be32(blob.as_slice(), 4) as usize
        == blob.len()
}

fn copy_option(data: &Option<Vec<u8>>) -> (copy: Option<Vec<u8>>)
    ensures
        option_view(copy) == option_view(*data),
{
    match data {
        Some(bytes) => Some(slice_to_vec(bytes.as_slice())),
        None => None,
    }
}

fn optional_len(data: &Option<Vec<u8>>) -> (len: Option<u64>)
    ensures
        match len {
            Some(n) => n == entry_len(option_view(*data)) && n <= 0x1_0000_0007,
            None => entry_len(option_view(*data)) > 0x1_0000_0007,
        },
{
    match data {
        Some(bytes) => {
            if bytes.len() > 0xffff_ffff {
                None
            } else {
                Some(bytes.len() as u64 + 8)
            }
        },
        None => Some(0),
    }
}

impl SigningSettings {
    /// What the special slots of the code directory hash, in the order of
    /// the slots.
    pub fn hashed_components(&self) -> (list: Vec<BlobEntry>)
        ensures
            entries_view(list@) == hashed_components(self@),
    {
        let mut list: Vec<BlobEntry> = Vec::new();
        assert(entries_view(list@) =~= Seq::<(u32, Seq<u8>)>::empty());
        push_present(&mut list, 1, &self.info_plist);
        push_present(&mut list, 2, &self.requirements);
        push_present(&mut list, 3, &self.resources);
        push_present(&mut list, 5, &self.entitlements);
        proof {
            reveal_with_fuel(present, 5);
        }
        list
    }

    /// Whether the settings can be signed with.
    pub fn validate(&self) -> (result: Result<(), CodesignError>)
        ensures
            result == settings_valid(self@),
    {
        if !self.directory.is_valid() {
            return Err(CodesignError::CliBadArgument);
        }
        match &self.requirements {
            Some(r) => {
                if !says_own_length(r) {
                    return Err(CodesignError::BlobTruncated);
                }
            },
            None => {},
        }
        match &self.entitlements {
            Some(e) => {
                if !says_own_length(e) {
                    return Err(CodesignError::BlobTruncated);
                }
            },
            None => {},
        }
        match self.directory.hash_type {
            DigestType::NoDigest => Err(CodesignError::UnsupportedHash),
            DigestType::Unknown(_) => Err(CodesignError::UnsupportedHash),
            _ => Ok(()),
        }
    }

    /// The number of bytes of the embedded signature of a binary whose code
    /// limit is `limit`, where a `u32` holds it.
    pub fn signature_len(&self, limit: u32, reserved: Option<u32>) -> (len: Option<u32>)
        requires
            hashes(self@.directory.hash_type),
        ensures
            match len {
                Some(n) => n == signature_len(self@, limit as int, reserved),
                None => signature_len(self@, limit as int, reserved) > u32::MAX,
            },
    {
        let ghost s = self@;
        let ghost p = s.directory;
        let components = self.hashed_components();
        let n_special = highest_special_slot(&components);
        let size: u8 = match self.directory.hash_type {
            DigestType::Sha1 => 20,
            DigestType::Sha256 => 32,
            DigestType::Sha256Truncated => 20,
            _ => 48,
        };
        proof {
            lemma_page_bytes(p.page_size_log2 as nat);
            lemma_span(
                max_special(hashed_components(s), hashed_components(s).len() as int),
                size as int,
            );
        }
        let pages: u64 = match page_size_of(self.directory.page_size_log2) {
            Some(page) => (limit as u64 + page as u64 - 1) / (page as u64),
            None => {
                proof {
                    lemma_page_count_big(limit as int, page_bytes(p.page_size_log2 as nat));
                }
                if limit == 0 {
                    0
                } else {
                    1
                }
            },
        };
        proof {
            if p.page_size_log2 < 32 {
                let page = page_bytes(p.page_size_log2 as nat);
                assert(page_count(limit as int, page) <= limit) by {
                    crate::code_hash::lemma_pages_at_most_bytes(
                        zeros(limit as nat),
                        page,
                    );
                    lemma_page_count(p.hash_type, zeros(limit as nat), page);
                }
            }
            lemma_span(page_count(limit as int, page_bytes(p.page_size_log2 as nat)), size as int);
        }
        let version = if self.directory.exec_segment.is_some() {
            crate::code_directory::VERSION_EXEC_SEGMENT
        } else if self.directory.team_id.is_some() {
            crate::code_directory::VERSION_TEAM_ID
        } else {
            crate::code_directory::VERSION_SCATTER
        };
        if self.directory.identifier.len() > 0xffff_ffff {
            return None;
        }
        let team: u64 = match &self.directory.team_id {
            Some(team) => {
                if team.len() > 0xffff_ffff {
                    return None;
                }
                team.len() as u64 + 1
            },
            None => 0,
        };
        let requirements = match optional_len(&self.requirements) {
            Some(n) => n,
            None => {
                return None;
            },
        };
        let entitlements = match optional_len(&self.entitlements) {
            Some(n) => n,
            None => {
                return None;
            },
        };
        let signature: u64 = match reserved {
            Some(n) => n as u64 + 16,
            None => 0,
        };
        let directory: u64 = header_size(version) as u64 + self.directory.identifier.len() as u64
            + 1 + team + table_len(n_special, size) + table_len(pages as u32, size);
        let total: u64 = 20 + directory + requirements + entitlements + signature;
        if total > 0xffff_ffff {
            None
        } else {
            Some(total as u32)
        }
    }
}

/// Fixes the layout of the signed file, rewrites the header and builds the
/// code directory over the bytes as they will stand.
///
/// `reserved` is the number of bytes reserved for the CMS signature, or
/// nothing for a signature without one.
///
/// The code directory that is built can be written, and reading its blob
/// gives it back.
///
/// Fails with `CliBadArgument` where a string of the directory holds a NUL,
/// `BlobTruncated` where a blob given does not say its own length,
/// `UnsupportedHash` where the hash kind computes no digest, with the error
/// of the view's shape where the binary cannot take a signature,
/// `BlobTooLarge` where the signature or the signed file is longer than a
/// `u32` counts, and `LoadCommandOverflow` where the load command has no
/// room.
pub fn prepare(view: &MachoView, settings: &SigningSettings, reserved: Option<u32>) -> (result:
    Result<PreparedSignature, CodesignError>)
    requires
        view.well_formed(),
    ensures
        match result {
            Ok(prepared) => planned_for(view.shape, settings@, reserved) == Ok::<
                WritableLayout,
                CodesignError,
            >(prepared.layout_of()) && prepared.well_formed() && prepared.reserved_of()
                == reserved && prepared.code_of() == signed_code(
                view.data@,
                view.signing_shape(),
                prepared.layout_of(),
            ) && prepared.directory_of() == serialized(
                built(settings@.directory, prepared.code_of(), hashed_components(settings@)),
            ) && prepared.blobs_of() == (settings@.requirements, settings@.entitlements)
                && well_formed(
                built(settings@.directory, prepared.code_of(), hashed_components(settings@)),
            ) && parsed_directory(prepared.directory_of()) == Ok::<
                CodeDirectoryView,
                CodesignError,
            >(built(settings@.directory, prepared.code_of(), hashed_components(settings@))),
            Err(e) => planned_for(view.shape, settings@, reserved) == Err::<
                WritableLayout,
                CodesignError,
            >(e),
        },
{
    match settings.validate() {
        Err(e) => {
            return Err(e);
        },
        Ok(_) => {},
    }
    let shape = match view.shape {
        Err(e) => {
            return Err(e);
        },
        Ok(shape) => shape,
    };
    let limit = shape.code_limit();
    let size = match settings.signature_len(limit, reserved) {
        None => {
            return Err(CodesignError::BlobTooLarge);
        },
        Some(size) => size,
    };
    let layout = match shape.prepare_for_signature(size) {
        Err(e) => {
            return Err(e);
        },
        Ok(layout) => layout,
    };
    proof {
        lemma_plan(shape, size);
    }
    let code = write_signed_code(view.data.as_slice(), &shape, &layout);
    let components = settings.hashed_components();
    proof {
        lemma_directory_len(settings@, code@);
    }
    let directory = match build(&settings.directory, code.as_slice(), &components) {
        Err(e) => {
            return Err(e);
        },
        Ok(directory) => directory,
    };
    let bytes = directory.to_blob_bytes();
    proof {
        lemma_fields_read(directory@);
        crate::code_directory_codec::lemma_directory_round_trip(directory@, Seq::<u8>::empty());
        assert(serialized(directory@) + Seq::<u8>::empty() =~= serialized(directory@));
    }
    Ok(
        PreparedSignature {
            layout,
            code,
            directory: bytes,
            requirements: copy_option(&settings.requirements),
            entitlements: copy_option(&settings.entitlements),
            reserved,
        },
    )
}

fn collect_entries(
    directory: Vec<u8>,
    requirements: &Option<Vec<u8>>,
    entitlements: &Option<Vec<u8>>,
    signature: &Option<Vec<u8>>,
) -> (entries: Vec<BlobEntry>)
    ensures
        entries_view(entries@) == present(
            seq![(0u32, Some(directory@)), (2u32, option_view(*requirements)), (
                5u32,
                option_view(*entitlements),
            ), (SLOT_SIGNATURE, option_view(*signature))],
            4,
        ),
{
    let mut entries: Vec<BlobEntry> = Vec::new();
    assert(entries_view(entries@) =~= Seq::<(u32, Seq<u8>)>::empty());
    let ghost bytes = directory@;
    entries.push(BlobEntry { slot: 0, data: directory });
    assert(entries_view(entries@) =~= Seq::<(u32, Seq<u8>)>::empty().push((0u32, bytes)));
    push_present(&mut entries, 2, requirements);
    push_present(&mut entries, 5, entitlements);
    push_present(&mut entries, SLOT_SIGNATURE, signature);
    proof {
        reveal_with_fuel(present, 5);
    }
    entries
}

/// What finishing a prepared signature gives for the CMS signature `cms`.
///
/// `SignatureTooLarge` where the signature is longer than the bytes reserved
/// for it, `SigningFailed` where bytes are reserved and no signature came,
/// and `PlaceholderShrink` where a signature came and no bytes are reserved.
pub open spec fn finished(prepared: PreparedSignature, cms: Option<Seq<u8>>) -> Result<
    Seq<u8>,
    CodesignError,
> {
    match (prepared.reserved_of(), cms) {
        (None, None) => Ok(
            prepared.code_of() + assembled(
                MAGIC_EMBEDDED_SIGNATURE,
                prepared.entries_with(None),
            ),
        ),
        (None, Some(_)) => Err(CodesignError::PlaceholderShrink),
        (Some(_), None) => Err(CodesignError::SigningFailed),
        (Some(n), Some(signature)) => if signature.len() > n {
            Err(CodesignError::SignatureTooLarge)
        } else {
            Ok(
                prepared.code_of() + assembled(
                    MAGIC_EMBEDDED_SIGNATURE,
                    prepared.entries_with(Some(signature_blob(signature, n as nat))),
                ),
            )
        },
    }
}

/// The embedded signature of a prepared binary has the length that the
/// layout reserves for it, and reading it gives back its entries.
pub proof fn lemma_finished(prepared: PreparedSignature, cms: Option<Seq<u8>>)
    requires
        prepared.well_formed(),
        finished(prepared, cms) is Ok,
    ensures
        ({
            let file = finished(prepared, cms)->Ok_0;
            let limit = prepared.layout_of().code_limit as int;
            let entries = prepared.entries_with(
                match cms {
                    Some(signature) => Some(
                        signature_blob(signature, prepared.reserved_of()->Some_0 as nat),
                    ),
                    None => None,
                },
            );
            &&& file.len() == prepared.layout_of().file_len
            &&& limit <= file.len()
            &&& file.subrange(0, limit) == prepared.code_of()
            &&& assemblable(entries)
            &&& all_self_delimiting(entries)
            &&& file.subrange(limit, file.len() as int) == assembled(
                MAGIC_EMBEDDED_SIGNATURE,
                entries,
            )
            &&& disassembled(file.subrange(limit, file.len() as int), MAGIC_EMBEDDED_SIGNATURE)
                == Ok::<Entries, CodesignError>(entries)
            &&& entries[0] == (0u32, prepared.directory_of())
        }),
{
    let file = finished(prepared, cms)->Ok_0;
    let limit = prepared.layout_of().code_limit as int;
    let blob = match cms {
        Some(signature) => Some(signature_blob(signature, prepared.reserved_of()->Some_0 as nat)),
        None => None,
    };
    let slots = seq![(0u32, Some(prepared.directory_of())), (2u32, prepared.blobs_of().0), (
        5u32,
        prepared.blobs_of().1,
    ), (SLOT_SIGNATURE, blob)];
    let entries = prepared.entries_with(blob);
    reveal_with_fuel(present, 5);
    reveal_with_fuel(present_len, 5);
    if cms is Some {
        lemma_signature_blob(cms->Some_0, prepared.reserved_of()->Some_0);
    }
    lemma_present_len(slots, 4);
    lemma_present_delimiting(slots, 4);
    lemma_blobs_len(entries, 0, entries.len() as int);
    lemma_container_round_trip(MAGIC_EMBEDDED_SIGNATURE, entries, Seq::<u8>::empty());
    let container = assembled(MAGIC_EMBEDDED_SIGNATURE, entries);
    assert(container + Seq::<u8>::empty() =~= container);
    crate::superblob::lemma_container_header(MAGIC_EMBEDDED_SIGNATURE, entries, Seq::<u8>::empty());
    assert(file.subrange(0, limit) =~= prepared.code_of());
    assert(file.subrange(limit, file.len() as int) =~= container);
}

/// Puts the signature behind the prepared code: the embedded signature with
/// the code directory, the requirement set and the entitlements as far as
/// they are given, and the CMS signature, padded with zero bytes to the size
/// reserved for it.
///
/// Fails with `SignatureTooLarge` where the CMS signature is longer than the
/// bytes reserved for it, with `SigningFailed` where bytes are reserved and
/// no signature is given, and with `PlaceholderShrink` where a signature is
/// given and no bytes are reserved.
pub fn finish(prepared: PreparedSignature, cms: Option<&[u8]>) -> (result: Result<
    Vec<u8>,
    CodesignError,
>)
    requires
        prepared.well_formed(),
    ensures
        match result {
            Ok(file) => finished(
                prepared,
                match cms {
                    Some(c) => Some(c@),
                    None => None,
                },
            ) == Ok::<Seq<u8>, CodesignError>(file@) && file@.len()
                == prepared.layout_of().file_len,
            Err(e) => finished(
                prepared,
                match cms {
                    Some(c) => Some(c@),
                    None => None,
                },
            ) == Err::<Seq<u8>, CodesignError>(e),
        },
{
    let ghost given: Option<Seq<u8>> = match cms {
        Some(c) => Some(c@),
        None => None,
    };
    let signature: Option<Vec<u8>> = match (prepared.reserved, cms) {
        (None, None) => None,
        (None, Some(_)) => {
            return Err(CodesignError::PlaceholderShrink);
        },
        (Some(_), None) => {
            return Err(CodesignError::SigningFailed);
        },
        (Some(n), Some(c)) => {
            if c.len() > n as usize {
                return Err(CodesignError::SignatureTooLarge);
            }
            let mut payload: Vec<u8> = Vec::new();
            put_bytes(&mut payload, c);
            put_zeros(&mut payload, n as usize - c.len());
            assert(payload@ =~= c@ + zeros((n - c@.len()) as nat));
            Some(write_blob(MAGIC_BLOB_WRAPPER, payload.as_slice()))
        },
    };
    let ghost blob = option_view(signature);
    proof {
        lemma_finished(prepared, given);
    }
    let entries = collect_entries(
        prepared.directory,
        &prepared.requirements,
        &prepared.entitlements,
        &signature,
    );
    assert(entries_view(entries@) == prepared.entries_with(blob));
    let container = assemble_container(MAGIC_EMBEDDED_SIGNATURE, &entries);
    let mut file = prepared.code;
    put_bytes(&mut file, container.as_slice());
    Ok(file)
}

/// The code directory that is read from the signature of `file`, which
/// begins at `limit`, where the signature and its code directory can be
/// read.
pub open spec fn directory_read(file: Seq<u8>, limit: int) -> Option<CodeDirectoryView> {
    match disassembled(file.subrange(limit, file.len() as int), MAGIC_EMBEDDED_SIGNATURE) {
        Err(_) => None,
        Ok(entries) => match blob_in_slot(entries, 0) {
            None => None,
            Some(blob) => match parsed_directory(blob) {
                Err(_) => None,
                Ok(directory) => Some(directory),
            },
        },
    }
}

/// Signs a binary without a key: the signed file holds the code directory,
/// the requirement set and the entitlements as far as they are given, and
/// no CMS signature. The code directory that is read from the signed file
/// is the one that was built over the code of the signed file.
pub fn sign_ad_hoc(view: &MachoView, settings: &SigningSettings) -> (result: Result<
    Vec<u8>,
    CodesignError,
>)
    requires
        view.well_formed(),
    ensures
        match result {
            Ok(file) => planned_for(view.shape, settings@, None) matches Ok(layout)
                && file@ == signed_with(view.data@, view.signing_shape(), settings@, None, None)
                && file@.len() == layout.file_len && file@.subrange(0, layout.code_limit as int)
                == signed_code(view.data@, view.signing_shape(), layout) && directory_read(
                file@,
                layout.code_limit as int,
            ) == Some(
                built(
                    settings@.directory,
                    signed_code(view.data@, view.signing_shape(), layout),
                    hashed_components(settings@),
                ),
            ),
            Err(e) => planned_for(view.shape, settings@, None) == Err::<
                WritableLayout,
                CodesignError,
            >(e),
        },
{
    let prepared = match prepare(view, settings, None) {
        Err(e) => {
            return Err(e);
        },
        Ok(prepared) => prepared,
    };
    proof {
        lemma_finished(prepared, None);
        let entries = prepared.entries_with(None);
        assert(entries[0].0 == 0u32);
        assert(blob_in_slot(entries, 0) == Some(prepared.directory_of()));
    }
    finish(prepared, None)
}

/// What the signed file says of its signature: the signature begins at the
/// code limit, which is no more than the length of the file; the load
/// command names the code limit as the offset of the signature and the rest
/// of the file as its size; and the code directory that is read from the
/// signature has the code limit of the layout.
pub proof fn lemma_signed_binary(
    data: Seq<u8>,
    shape: MachoShape,
    s: SettingsView,
    prepared: PreparedSignature,
    cms: Option<Seq<u8>>,
)
    requires
        shape_valid(shape),
        data.len() == shape.file_len,
        prepared.well_formed(),
        planned_signature(shape, s, prepared.reserved_of()) == Ok::<WritableLayout, CodesignError>(
            prepared.layout_of(),
        ),
        prepared.code_of() == signed_code(data, shape, prepared.layout_of()),
        prepared.directory_of() == serialized(
            built(s.directory, prepared.code_of(), hashed_components(s)),
        ),
        well_formed(built(s.directory, prepared.code_of(), hashed_components(s))),
        finished(prepared, cms) is Ok,
    ensures
        ({
            let file = finished(prepared, cms)->Ok_0;
            let layout = prepared.layout_of();
            let at = layout.command_offset as int;
            let directory = built(s.directory, prepared.code_of(), hashed_components(s));
            &&& layout.code_limit <= file.len()
            &&& layout.code_limit == code_limit_of(shape)
            &&& crate::macho::word_at(file, at + 8, shape.little_endian) == layout.code_limit
            &&& crate::macho::word_at(file, at + 12, shape.little_endian) == file.len()
                - layout.code_limit
            &&& disassembled(
                file.subrange(layout.code_limit as int, file.len() as int),
                MAGIC_EMBEDDED_SIGNATURE,
            ) is Ok
            &&& parsed_directory(prepared.directory_of()) == Ok::<
                CodeDirectoryView,
                CodesignError,
            >(directory)
            &&& directory.code_limit == layout.code_limit
        }),
{
    let file = finished(prepared, cms)->Ok_0;
    let layout = prepared.layout_of();
    let at = layout.command_offset as int;
    let directory = built(s.directory, prepared.code_of(), hashed_components(s));
    lemma_finished(prepared, cms);
    lemma_plan(shape, layout.signature_size);
    crate::macho_layout::lemma_signed_code(data, shape, layout.signature_size);
    crate::code_directory_codec::lemma_directory_round_trip(directory, Seq::<u8>::empty());
    assert(serialized(directory) + Seq::<u8>::empty() =~= serialized(directory));
    let code = prepared.code_of();
    assert forall|k: int| 0 <= k < code.len() implies file[k] == code[k] by {
        assert(file.subrange(0, layout.code_limit as int)[k] == file[k]);
    }
}

/// The settings with which a binary is signed where nothing else is said:
/// the identifier `identifier`, SHA-256 hashes over pages of 4096 bytes, no
/// team, no flags, and no blob.
pub open spec fn fresh_settings(identifier: Seq<u8>) -> SettingsView {
    SettingsView {
        directory: ParamsView {
            identifier,
            team_id: None,
            flags: 0,
            hash_type: DigestType::Sha256,
            page_size_log2: 12,
            platform: 0,
            exec_segment: None,
        },
        info_plist: None,
        requirements: None,
        resources: None,
        entitlements: None,
    }
}

impl SigningSettings {
    /// Settings with the identifier `identifier`, SHA-256 hashes over pages
    /// of 4096 bytes, and nothing else.
    pub fn new(identifier: Vec<u8>) -> (settings: SigningSettings)
        ensures
            settings@ == fresh_settings(identifier@),
    {
        SigningSettings {
            directory: CodeDirectoryParams {
                identifier,
                team_id: None,
                flags: 0,
                hash_type: DigestType::Sha256,
                page_size_log2: 12,
                platform: 0,
                exec_segment: None,
            },
            info_plist: None,
            requirements: None,
            resources: None,
            entitlements: None,
        }
    }

    /// Sets the designated requirement: the requirement set of the
    /// signature holds this expression alone, as the designated one.
    ///
    /// Fails with `BlobTooLarge`, and leaves the settings as they are,
    /// exactly where the set cannot be written: the expression cannot be
    /// framed, or the set is longer than a `u32` counts.
    pub fn set_designated_code_requirements(&mut self, expression: &crate::requirement::Expression) -> (result:
        Result<(), CodesignError>)
        ensures
            match result {
                Ok(_) => crate::requirement_set::set_fits(
                    seq![(crate::requirement_set::REQUIREMENT_DESIGNATED, expression@)],
                ) && final(self)@.requirements == Some(
                    crate::requirement_set::serialized_set(
                        seq![(crate::requirement_set::REQUIREMENT_DESIGNATED, expression@)],
                    ),
                ) && final(self)@.directory == old(self)@.directory && final(self)@.info_plist
                    == old(self)@.info_plist && final(self)@.resources == old(self)@.resources
                    && final(self)@.entitlements == old(self)@.entitlements,
                Err(e) => e == CodesignError::BlobTooLarge && !crate::requirement_set::set_fits(
                    seq![(crate::requirement_set::REQUIREMENT_DESIGNATED, expression@)],
                ) && *final(self) == *old(self),
            },
    {
        if !expression.blob_fits() {
            return Err(CodesignError::BlobTooLarge);
        }
        let mut entries: Vec<BlobEntry> = Vec::new();
        entries.push(
            BlobEntry {
                slot: crate::requirement_set::REQUIREMENT_DESIGNATED,
                data: expression.to_blob_bytes(),
            },
        );
        let ghost set = seq![(crate::requirement_set::REQUIREMENT_DESIGNATED, expression@)];
        assert(entries_view(entries@) =~= crate::requirement_set::set_entries(set));
        if container_len(&entries).is_none() {
            return Err(CodesignError::BlobTooLarge);
        }
        self.requirements = Some(
            assemble_container(crate::blob::MAGIC_REQUIREMENT_SET, &entries),
        );
        Ok(())
    }

    /// Sets the entitlements: the property list `plist`, framed as an
    /// entitlements blob.
    ///
    /// Fails with `BlobTooLarge`, and leaves the settings as they are, where
    /// the blob would be longer than a `u32` counts.
    pub fn set_entitlements(&mut self, plist: &[u8]) -> (result: Result<(), CodesignError>)
        ensures
            match result {
                Ok(_) => plist@.len() + 8 <= u32::MAX && final(self)@.entitlements == Some(
                    framed(crate::blob::MAGIC_ENTITLEMENT, plist@),
                ) && final(self)@.directory == old(self)@.directory && final(self)@.info_plist
                    == old(self)@.info_plist && final(self)@.resources == old(self)@.resources
                    && final(self)@.requirements == old(self)@.requirements,
                Err(e) => e == CodesignError::BlobTooLarge && plist@.len() + 8 > u32::MAX
                    && *final(self) == *old(self),
            },
    {
        if plist.len() > 0xffff_fff7 {
            return Err(CodesignError::BlobTooLarge);
        }
        self.entitlements = Some(write_blob(crate::blob::MAGIC_ENTITLEMENT, plist));
        Ok(())
    }

    /// Sets the bytes of the resources file, of which the code directory
    /// holds a hash.
    pub fn code_resources_data(&mut self, data: &[u8])
        ensures
            final(self)@.resources == Some(data@),
            final(self)@.directory == old(self)@.directory,
            final(self)@.info_plist == old(self)@.info_plist,
            final(self)@.requirements == old(self)@.requirements,
            final(self)@.entitlements == old(self)@.entitlements,
    {
        self.resources = Some(slice_to_vec(data));
    }

    /// Sets the bytes of `Info.plist`, of which the code directory holds a
    /// hash.
    pub fn info_plist_data(&mut self, data: &[u8])
        ensures
            final(self)@.info_plist == Some(data@),
            final(self)@.directory == old(self)@.directory,
            final(self)@.resources == old(self)@.resources,
            final(self)@.requirements == old(self)@.requirements,
            final(self)@.entitlements == old(self)@.entitlements,
    {
        self.info_plist = Some(slice_to_vec(data));
    }

    /// Adds flags to those of the code directory.
    pub fn add_code_signature_flags(&mut self, flags: u32)
        ensures
            final(self)@.directory.flags == old(self)@.directory.flags | flags,
            final(self)@.directory.identifier == old(self)@.directory.identifier,
            final(self)@.directory.team_id == old(self)@.directory.team_id,
            final(self)@.directory.hash_type == old(self)@.directory.hash_type,
            final(self)@.directory.page_size_log2 == old(self)@.directory.page_size_log2,
            final(self)@.directory.platform == old(self)@.directory.platform,
            final(self)@.directory.exec_segment == old(self)@.directory.exec_segment,
            final(self)@.info_plist == old(self)@.info_plist,
            final(self)@.resources == old(self)@.resources,
            final(self)@.requirements == old(self)@.requirements,
            final(self)@.entitlements == old(self)@.entitlements,
    {
        self.directory.flags = self.directory.flags | flags;
    }
}

/// The first sixteen bytes of a binary, which name what it is and for which
/// processor, stay as they are in its signed code.
pub proof fn lemma_signed_head(data: Seq<u8>, shape: MachoShape, size: u32)
    requires
        shape_valid(shape),
        data.len() == shape.file_len,
        planned(shape, size) is Ok,
    ensures
        signed_code(data, shape, planned(shape, size)->Ok_0).subrange(0, 16) == data.subrange(
            0,
            16,
        ),
        16 <= (planned(shape, size)->Ok_0).code_limit,
{
    let layout = planned(shape, size)->Ok_0;
    lemma_plan(shape, size);
    crate::macho_layout::lemma_signed_code(data, shape, size);
    assert forall|i: int| 0 <= i < 16 implies signed_code(data, shape, layout)[i] == data[i] by {
        crate::macho_layout::lemma_signed_code_keeps(data, shape, size, i);
    }
    assert(signed_code(data, shape, layout).subrange(0, 16) =~= data.subrange(0, 16));
}

/// The layout that is planned for a signature is the plan for the size of
/// the signature.
pub proof fn lemma_planned_signature(shape: MachoShape, s: SettingsView, reserved: Option<u32>)
    requires
        planned_signature(shape, s, reserved) is Ok,
    ensures
        planned(shape, (planned_signature(shape, s, reserved)->Ok_0).signature_size)
            == planned_signature(shape, s, reserved),
{
}

} // verus!
