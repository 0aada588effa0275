//! Universal binaries: several Mach-O binaries in one file, behind a header
//! that says where each lies.
//!
//! The header is the magic, the number of binaries, and for each binary its
//! processor, its offset, its size and the alignment of its offset, all
//! big-endian. Signing changes the sizes of the binaries, so the file is put
//! together anew: every binary keeps its offset where the one before it
//! leaves room, and else moves to the next offset that its alignment allows.

use vstd::prelude::*;
use crate::code_directory::{CodeDirectoryView, hashes_view, option_view, parsed_directory};
use crate::embedded_signature::EmbeddedSignature;
use crate::error::CodesignError;
use crate::identity::{
    key_plan, key_signed, material_view, outcome, sign_with_key, SignedBinary, SigningMaterial,
    stamper_ready,
};
use x509_certificate::{CapturedX509Certificate, InMemorySigningKeyPair};
use crate::macho::{code_limit_of, MachoShape};
use crate::macho_load::{
    Container, ContainerView, FatSlice, load_error, loaded_shape, MachoView, parse_container,
    parsed_container,
};
use crate::signing::{
    planned_for, planned_signature, SettingsView, sign_ad_hoc, signed_with, SigningSettings,
};
use crate::superblob::{blob_in_slot, disassembled, Entries};
use crate::wire::{be_words, lemma_be_words_len, put_bytes, put_words, put_zeros};
use vstd::slice::{slice_subrange, slice_to_vec};

verus! {

/// The magic of a universal binary.
pub const FAT_MAGIC: u32 = 0xcafe_babe;

/// The alignment of an offset whose binary logarithm is `align`, for
/// logarithms under 32.
pub open spec fn alignment(align: u32) -> int {
    crate::code_hash::page_bytes(align as nat)
}

/// `n` rounded up to a multiple of `step`.
pub open spec fn rounded_up(n: int, step: int) -> int {
    ((n + step - 1) / step) * step
}

/// The offset behind the last byte of the first `n` binaries in the file put
/// together; for none, the end of the header.
pub open spec fn end_of(arches: Seq<FatSlice>, lens: Seq<int>, n: int) -> int
    decreases n, 0int,
{
    if n <= 0 {
        8 + 20 * arches.len() as int
    } else {
        place_of(arches, lens, n - 1) + lens[n - 1]
    }
}

/// The offset of binary `i` in the file put together: its offset in the
/// header or the end of the binary before it, whichever is more, rounded up
/// to its alignment.
pub open spec fn place_of(arches: Seq<FatSlice>, lens: Seq<int>, i: int) -> int
    decreases i, 1int,
{
    if i < 0 {
        0
    } else {
        let floor = if arches[i].offset > end_of(arches, lens, i) {
            arches[i].offset as int
        } else {
            end_of(arches, lens, i)
        };
        rounded_up(floor, alignment(arches[i].align))
    }
}

/// The words of the first `n` records of the header.
pub open spec fn record_words(arches: Seq<FatSlice>, lens: Seq<int>, n: int) -> Seq<u32>
    decreases n,
{
    if n <= 0 {
        Seq::empty()
    } else {
        record_words(arches, lens, n - 1) + seq![
            arches[n - 1].cputype,
            arches[n - 1].cpusubtype,
            place_of(arches, lens, n - 1) as u32,
            lens[n - 1] as u32,
            arches[n - 1].align,
        ]
    }
}

/// The lengths of a list of binaries.
pub open spec fn lens_of(slices: Seq<Seq<u8>>) -> Seq<int> {
    Seq::new(slices.len(), |i: int| slices[i].len() as int)
}

/// The bytes of the universal binary of the first `n` binaries: the header
/// with the records of all binaries, and every binary at its place, with
/// zero bytes between the end of one and the place of the next.
pub open spec fn joined(arches: Seq<FatSlice>, slices: Seq<Seq<u8>>, n: int) -> Seq<u8>
    decreases n,
{
    let lens = lens_of(slices);
    if n <= 0 {
        be_words(
            seq![FAT_MAGIC, arches.len() as u32] + record_words(arches, lens, arches.len() as int),
        )
    } else {
        joined(arches, slices, n - 1) + crate::wire::zeros(
            (place_of(arches, lens, n - 1) - end_of(arches, lens, n - 1)) as nat,
        ) + slices[n - 1]
    }
}

/// Whether the binaries can be put together: there is one binary for every
/// record, every alignment is a power of two that a `u32` holds, and the
/// file has a length that a `u32` holds.
pub open spec fn joinable(arches: Seq<FatSlice>, lens: Seq<int>) -> Result<(), CodesignError> {
    if arches.len() != lens.len() {
        Err(CodesignError::BinaryMalformed)
    } else if exists|i: int| 0 <= i < arches.len() && (#[trigger] arches[i]).align >= 32 {
        Err(CodesignError::UnsupportedMachOVariant)
    } else if end_of(arches, lens, arches.len() as int) > u32::MAX {
        Err(CodesignError::BlobTooLarge)
    } else {
        Ok(())
    }
}

/// The binaries lie one behind the other: every one begins at or behind the
/// end of the one before it, at a multiple of its alignment, and no earlier
/// than its record said.
pub proof fn lemma_places(arches: Seq<FatSlice>, lens: Seq<int>, i: int)
    requires
        0 <= i < arches.len(),
        arches.len() == lens.len(),
        forall|k: int| 0 <= k < lens.len() ==> 0 <= #[trigger] lens[k],
        forall|k: int| 0 <= k < arches.len() ==> (#[trigger] arches[k]).align < 32,
    ensures
        end_of(arches, lens, i) <= place_of(arches, lens, i),
        arches[i].offset <= place_of(arches, lens, i),
        place_of(arches, lens, i) % alignment(arches[i].align) == 0,
        place_of(arches, lens, i) < end_of(arches, lens, i) + alignment(arches[i].align) || place_of(
            arches,
            lens,
            i,
        ) < arches[i].offset + alignment(arches[i].align),
        8 + 20 * arches.len() <= end_of(arches, lens, i) <= end_of(arches, lens, i + 1),
    decreases i,
{
    let step = alignment(arches[i].align);
    crate::code_hash::lemma_page_bytes(arches[i].align as nat);
    let floor = if arches[i].offset > end_of(arches, lens, i) {
        arches[i].offset as int
    } else {
        end_of(arches, lens, i)
    };
    lemma_rounded_up(floor, step);
    if i > 0 {
        lemma_places(arches, lens, i - 1);
    }
}

/// Rounding up gives the least multiple of the step that is no less.
pub proof fn lemma_rounded_up(n: int, step: int)
    requires
        0 <= n,
        0 < step,
    ensures
        n <= rounded_up(n, step) < n + step,
        rounded_up(n, step) % step == 0,
{
    let q = (n + step - 1) / step;
    vstd::arithmetic::div_mod::lemma_fundamental_div_mod(n + step - 1, step);
    vstd::arithmetic::div_mod::lemma_mod_multiples_basic(q, step);
    assert(q * step == step * q) by (nonlinear_arith);
    vstd::arithmetic::div_mod::lemma_mod_bound(n + step - 1, step);
}

fn aligned(n: u64, align: u32) -> (place: u64)
    requires
        align < 32,
        n <= 0xffff_ffff,
    ensures
        place == rounded_up(n as int, alignment(align)),
        place <= 0x1_8000_0000,
{
    proof {
        crate::code_hash::lemma_page_bytes(align as nat);
        lemma_rounded_up(n as int, alignment(align));
    }
    let step = match crate::code_hash::page_size_of(align as u8) {
        Some(step) => step as u64,
        None => 1,
    };
    ((n + step - 1) / step) * step
}

/// The universal binary of the first `n` binaries ends where the last of
/// them ends, begins with the header, and holds every binary at its place.
pub proof fn lemma_joined(arches: Seq<FatSlice>, slices: Seq<Seq<u8>>, n: int, i: int)
    requires
        arches.len() == slices.len(),
        forall|k: int| 0 <= k < arches.len() ==> (#[trigger] arches[k]).align < 32,
        0 <= n <= arches.len(),
    ensures
        joined(arches, slices, n).len() == end_of(arches, lens_of(slices), n),
        joined(arches, slices, n).subrange(0, 8 + 20 * arches.len() as int) == joined(
            arches,
            slices,
            0,
        ),
        0 <= i < n ==> joined(arches, slices, n).subrange(
            place_of(arches, lens_of(slices), i),
            place_of(arches, lens_of(slices), i) + slices[i].len(),
        ) == slices[i],
    decreases n,
{
    let lens = lens_of(slices);
    assert forall|k: int| 0 <= k < lens.len() implies 0 <= #[trigger] lens[k] by {}
    lemma_record_words_len(arches, lens, arches.len() as int);
    lemma_be_words_len(
        seq![FAT_MAGIC, arches.len() as u32] + record_words(arches, lens, arches.len() as int),
    );
    if n <= 0 {
        assert(joined(arches, slices, 0).subrange(0, 8 + 20 * arches.len() as int) =~= joined(
            arches,
            slices,
            0,
        ));
    } else {
        lemma_joined(arches, slices, n - 1, i);
        lemma_places(arches, lens, n - 1);
        lemma_end_grows(arches, lens, 0, n - 1);
        let before = joined(arches, slices, n - 1);
        let now = joined(arches, slices, n);
        assert(now.subrange(0, 8 + 20 * arches.len() as int) =~= before.subrange(
            0,
            8 + 20 * arches.len() as int,
        ));
        if 0 <= i < n - 1 {
            lemma_places(arches, lens, i);
            lemma_end_grows(arches, lens, i + 1, n - 1);
            assert(now.subrange(
                place_of(arches, lens, i),
                place_of(arches, lens, i) + slices[i].len(),
            ) =~= before.subrange(
                place_of(arches, lens, i),
                place_of(arches, lens, i) + slices[i].len(),
            ));
        } else if i == n - 1 {
            assert(now.subrange(
                place_of(arches, lens, i),
                place_of(arches, lens, i) + slices[i].len(),
            ) =~= slices[i]);
        }
    }
}

/// Puts binaries together into one universal binary, with a header that
/// records for every binary the processor and the alignment of its record
/// in `arches`, and where it lies now.
///
/// Fails with `BinaryMalformed` where there is not one binary for every
/// record, with `UnsupportedMachOVariant` where an alignment is no power of
/// two that a `u32` holds, and with `BlobTooLarge` where the file would be
/// longer than a `u32` counts.
pub fn assemble_universal(arches: &Vec<FatSlice>, slices: &Vec<Vec<u8>>) -> (result: Result<
    Vec<u8>,
    CodesignError,
>)
    ensures
        match result {
            Ok(file) => joinable(arches@, lens_of(hashes_view(slices@))) is Ok && file@ == joined(
                arches@,
                hashes_view(slices@),
                arches@.len() as int,
            ),
            Err(e) => joinable(arches@, lens_of(hashes_view(slices@))) == Err::<
                (),
                CodesignError,
            >(e),
        },
{
    let ghost views = hashes_view(slices@);
    let ghost lens = lens_of(views);
    let n = arches.len();
    if n != slices.len() {
        return Err(CodesignError::BinaryMalformed);
    }
    let mut k: usize = 0;
    while k < n
        invariant
            k <= n,
            n == arches@.len(),
            n == slices@.len(),
            views == hashes_view(slices@),
            lens == lens_of(views),
            forall|j: int| 0 <= j < k ==> (#[trigger] arches@[j]).align < 32,
        decreases n - k,
    {
        if arches[k].align >= 32 {
            assert(arches@[k as int].align >= 32);
            return Err(CodesignError::UnsupportedMachOVariant);
        }
        k = k + 1;
    }
    proof {
        assert forall|j: int| 0 <= j < lens.len() implies 0 <= #[trigger] lens[j] by {}
    }
    if n > 0xccc_cccc {
        proof {
            lemma_end_grows(arches@, lens, 0, n as int);
        }
        return Err(CodesignError::BlobTooLarge);
    }
    let mut words: Vec<u32> = vec![FAT_MAGIC, n as u32];
    let mut places: Vec<u32> = Vec::new();
    let mut end: u64 = 8 + 20 * (n as u64);
    let mut i: usize = 0;
    assert(words@ =~= seq![FAT_MAGIC, n as u32] + record_words(arches@, lens, 0));
    while i < n
        invariant
            i <= n,
            n == arches@.len(),
            n == slices@.len(),
            n <= 0xccc_cccc,
            views == hashes_view(slices@),
            lens == lens_of(views),
            forall|j: int| 0 <= j < lens.len() ==> 0 <= #[trigger] lens[j],
            forall|j: int| 0 <= j < n ==> (#[trigger] arches@[j]).align < 32,
            end == end_of(arches@, lens, i as int),
            end <= u32::MAX,
            words@ == seq![FAT_MAGIC, n as u32] + record_words(arches@, lens, i as int),
            places@.len() == i,
            forall|j: int| 0 <= j < i ==> #[trigger] places@[j] == place_of(arches@, lens, j),
        decreases n - i,
    {
        let arch = arches[i];
        let floor = if arch.offset as u64 > end {
            arch.offset as u64
        } else {
            end
        };
        let place = aligned(floor, arch.align);
        let len = slices[i].len() as u64;
        proof {
            assert(lens[i as int] == slices@[i as int]@.len());
            lemma_places(arches@, lens, i as int);
            lemma_end_grows(arches@, lens, i as int + 1, n as int);
        }
        if len > 0xffff_ffff || place + len > 0xffff_ffff {
            return Err(CodesignError::BlobTooLarge);
        }
        words.push(arch.cputype);
        words.push(arch.cpusubtype);
        words.push(place as u32);
        words.push(len as u32);
        words.push(arch.align);
        places.push(place as u32);
        end = place + len;
        i = i + 1;
        assert(words@ =~= seq![FAT_MAGIC, n as u32] + record_words(arches@, lens, i as int));
    }
    let mut out: Vec<u8> = Vec::new();
    put_words(&mut out, &words);
    assert(out@ =~= joined(arches@, views, 0));
    let mut j: usize = 0;
    while j < n
        invariant
            j <= n,
            n == arches@.len(),
            n == slices@.len(),
            views == hashes_view(slices@),
            lens == lens_of(views),
            forall|k: int| 0 <= k < n ==> (#[trigger] arches@[k]).align < 32,
            places@.len() == n,
            forall|k: int| 0 <= k < n ==> #[trigger] places@[k] == place_of(arches@, lens, k),
            end_of(arches@, lens, n as int) <= u32::MAX,
            out@ == joined(arches@, views, j as int),
        decreases n - j,
    {
        proof {
            assert forall|k: int| 0 <= k < lens.len() implies 0 <= #[trigger] lens[k] by {}
            lemma_joined(arches@, views, j as int, 0);
            lemma_places(arches@, lens, j as int);
            lemma_end_grows(arches@, lens, j as int + 1, n as int);
            assert(views[j as int] == slices@[j as int]@);
        }
        let place = places[j] as usize;
        let gap = place - out.len();
        put_zeros(&mut out, gap);
        put_bytes(&mut out, slices[j].as_slice());
        j = j + 1;
    }
    Ok(out)
}

/// The end of more binaries is no less.
pub proof fn lemma_end_grows(arches: Seq<FatSlice>, lens: Seq<int>, i: int, j: int)
    requires
        0 <= i <= j <= arches.len(),
        arches.len() == lens.len(),
        forall|k: int| 0 <= k < lens.len() ==> 0 <= #[trigger] lens[k],
        forall|k: int| 0 <= k < arches.len() ==> (#[trigger] arches[k]).align < 32,
    ensures
        end_of(arches, lens, i) <= end_of(arches, lens, j),
    decreases j - i,
{
    if i < j {
        lemma_places(arches, lens, j - 1);
        lemma_end_grows(arches, lens, i, j - 1);
    }
}

/// The records take five words for every binary.
pub proof fn lemma_record_words_len(arches: Seq<FatSlice>, lens: Seq<int>, n: int)
    requires
        0 <= n,
    ensures
        record_words(arches, lens, n).len() == 5 * n,
    decreases n,
{
    if n > 0 {
        lemma_record_words_len(arches, lens, n - 1);
    }
}

/// The records of the binaries of a universal binary, in the order of its
/// header; none for a file that holds one binary alone.
///
/// Fails with `BinaryMalformed` exactly where the file holds no container.
pub fn universal_slices(data: &[u8]) -> (result: Result<Vec<FatSlice>, CodesignError>)
    ensures
        match result {
            Ok(slices) => match parsed_container(data@) {
                Some(ContainerView::Fat(list)) => slices@ == list,
                Some(ContainerView::Thin) => slices@.len() == 0,
                None => false,
            },
            Err(e) => parsed_container(data@) is None && e == CodesignError::BinaryMalformed,
        },
{
    match parse_container(data) {
        None => Err(CodesignError::BinaryMalformed),
        Some(Container::Thin) => Ok(Vec::new()),
        Some(Container::Fat(slices)) => Ok(slices),
    }
}

/// What an existing signature says of how the binary was signed: the
/// entries of the signature and its code directory, where the binary has a
/// signature with a code directory.
///
/// The error of reading the signature or its code directory where one of
/// them cannot be read.
pub open spec fn existing_signature(view: MachoView) -> Result<
    Option<(Entries, CodeDirectoryView)>,
    CodesignError,
> {
    match view.signature_bytes() {
        Err(e) => if e == CodesignError::NoSignatureRegion {
            Ok(None)
        } else {
            Err(e)
        },
        Ok(bytes) => match disassembled(bytes, crate::blob::MAGIC_EMBEDDED_SIGNATURE) {
            Err(e) => Err(e),
            Ok(entries) => match blob_in_slot(entries, 0) {
                None => Ok(None),
                Some(blob) => match parsed_directory(blob) {
                    Err(e) => Err(e),
                    Ok(d) => Ok(Some((entries, d))),
                },
            },
        },
    }
}

fn copy_blob(signature: &EmbeddedSignature, slot: crate::superblob::CodeSigningSlot) -> (blob:
    Option<Vec<u8>>)
    ensures
        option_view(blob) == blob_in_slot(signature@, crate::superblob::code_of_slot(slot)),
{
    match signature.find_slot(slot) {
        Some(entry) => Some(slice_to_vec(entry.data.as_slice())),
        None => None,
    }
}

/// The settings with which to sign a binary again: where the binary has a
/// signature with a code directory, the identifier, the team identifier,
/// the flags, the hash kind, the page size and the platform of that code
/// directory, with the requirement set and the entitlements of the
/// signature; and else the settings that `SigningSettings::new` gives for
/// `identifier`.
///
/// Fails with `BinaryMalformed` where the signature does not lie within
/// the file, and as reading the signature or its code directory fails.
pub fn load_existing_signature_context(view: &MachoView, identifier: Vec<u8>) -> (result: Result<
    SigningSettings,
    CodesignError,
>)
    ensures
        match result {
            Ok(settings) => match existing_signature(*view) {
                Ok(Some((entries, d))) => {
                    &&& settings@.directory.identifier == d.identifier
                    &&& settings@.directory.team_id == d.team_id
                    &&& settings@.directory.flags == d.flags
                    &&& settings@.directory.hash_type == d.hash_type
                    &&& settings@.directory.page_size_log2 == d.page_size_log2
                    &&& settings@.directory.platform == d.platform
                    &&& settings@.directory.exec_segment is None
                    &&& settings@.requirements == blob_in_slot(entries, 2)
                    &&& settings@.entitlements == blob_in_slot(entries, 5)
                    &&& settings@.info_plist is None
                    &&& settings@.resources is None
                },
                Ok(None) => settings@ == crate::signing::fresh_settings(identifier@),
                Err(_) => false,
            },
            Err(e) => existing_signature(*view) == Err::<
                Option<(Entries, CodeDirectoryView)>,
                CodesignError,
            >(e),
        },
{
    let bytes = match view.signature_data() {
        Err(CodesignError::NoSignatureRegion) => {
            return Ok(SigningSettings::new(identifier));
        },
        Err(e) => {
            return Err(e);
        },
        Ok(bytes) => bytes,
    };
    let signature = match EmbeddedSignature::parse(bytes) {
        Err(e) => {
            return Err(e);
        },
        Ok(signature) => signature,
    };
    let directory = match signature.code_directory() {
        Err(e) => {
            return Err(e);
        },
        Ok(None) => {
            return Ok(SigningSettings::new(identifier));
        },
        Ok(Some(directory)) => directory,
    };
    let mut settings = SigningSettings::new(directory.identifier);
    settings.directory.team_id = directory.team_id;
    settings.directory.flags = directory.flags;
    settings.directory.hash_type = directory.hash_type;
    settings.directory.page_size_log2 = directory.page_size_log2;
    settings.directory.platform = directory.platform;
    settings.requirements = copy_blob(&signature, crate::superblob::CodeSigningSlot::RequirementSet);
    settings.entitlements = copy_blob(&signature, crate::superblob::CodeSigningSlot::Entitlements);
    Ok(settings)
}

/// The signing material as contracts speak of it.
pub open spec fn material_of(material: Option<&SigningMaterial>) -> Option<
    (Option<Seq<u8>>, Seq<Seq<u8>>),
> {
    match material {
        Some(m) => Some(material_view(*m)),
        None => None,
    }
}

/// Whether `result` is one that signing the binary `data` may give.
///
/// Without key the result is fixed: the error of the layout, or the binary
/// signed without CMS signature. With a key it is one that signing with the
/// key may give.
pub open spec fn binary_signed(
    data: Seq<u8>,
    shape: Result<MachoShape, CodesignError>,
    s: SettingsView,
    material: Option<(Option<Seq<u8>>, Seq<Seq<u8>>)>,
    time_stamped: bool,
    result: Result<(Seq<u8>, bool), CodesignError>,
) -> bool {
    match material {
        None => match planned_for(shape, s, None) {
            Err(e) => result == Err::<(Seq<u8>, bool), CodesignError>(e),
            Ok(_) => result == Ok::<(Seq<u8>, bool), CodesignError>(
                (signed_with(data, shape->Ok_0, s, None, None), false),
            ),
        },
        Some(m) => key_signed(data, shape, s, m, time_stamped, result),
    }
}

fn sign_without_key(view: &MachoView, settings: &SigningSettings) -> (result: Result<
    SignedBinary,
    CodesignError,
>)
    requires
        view.well_formed(),
    ensures
        binary_signed(view.data@, view.shape, settings@, None, false, outcome(result)),
        result matches Ok(signed) ==> view.shape is Ok && signed.file@.len() >= code_limit_of(
            view.signing_shape(),
        ) && signed.file@.subrange(0, 16) == view.data@.subrange(0, 16),
{
    match sign_ad_hoc(view, settings) {
        Err(e) => Err(e),
        Ok(file) => {
            proof {
                let shape = view.signing_shape();
                let layout = planned_signature(shape, settings@, None)->Ok_0;
                crate::signing::lemma_planned_signature(shape, settings@, None);
                crate::signing::lemma_signed_head(view.data@, shape, layout.signature_size);
                assert(file@.subrange(0, 16) =~= file@.subrange(
                    0,
                    layout.code_limit as int,
                ).subrange(0, 16));
            }
            Ok(SignedBinary { file, timestamp_omitted: false })
        },
    }
}

/// A binary signed with a key is at least as long as the code of the
/// binary and begins with the first sixteen bytes of the binary.
proof fn lemma_key_signed_head(
    data: Seq<u8>,
    shape: MachoShape,
    s: SettingsView,
    reserved: u32,
    file: Seq<u8>,
)
    requires
        crate::macho::shape_valid(shape),
        data.len() == shape.file_len,
        planned_signature(shape, s, Some(reserved)) matches Ok(layout) && file.len()
            == layout.file_len && file.subrange(0, layout.code_limit as int)
            == crate::macho::signed_code(data, shape, layout),
    ensures
        file.len() >= code_limit_of(shape),
        file.subrange(0, 16) == data.subrange(0, 16),
{
    let layout = planned_signature(shape, s, Some(reserved))->Ok_0;
    crate::signing::lemma_planned_signature(shape, s, Some(reserved));
    crate::signing::lemma_signed_head(data, shape, layout.signature_size);
    crate::macho_layout::lemma_plan(shape, layout.signature_size);
    assert(file.subrange(0, 16) =~= file.subrange(0, layout.code_limit as int).subrange(0, 16));
}

/// Signs one binary: with the key of `material` where one is given, and
/// else without key.
///
/// A signed file is at least as long as the code of the binary and begins
/// with the first sixteen bytes of the binary.
pub fn sign_binary<
    F: Fn(
        &[u8],
        &InMemorySigningKeyPair,
        &CapturedX509Certificate,
        &Vec<CapturedX509Certificate>,
    ) -> Result<Vec<u8>, CodesignError>,
>(
    view: &MachoView,
    settings: &SigningSettings,
    material: Option<&SigningMaterial>,
    stamper: Option<&F>,
) -> (result: Result<SignedBinary, CodesignError>)
    requires
        stamper_ready(stamper),
        view.well_formed(),
    ensures
        binary_signed(
            view.data@,
            view.shape,
            settings@,
            material_of(material),
            stamper is Some,
            outcome(result),
        ),
        result matches Ok(signed) ==> view.shape is Ok && signed.file@.len() >= code_limit_of(
            view.signing_shape(),
        ) && signed.file@.subrange(0, 16) == view.data@.subrange(0, 16),
{
    match material {
        None => sign_without_key(view, settings),
        Some(m) => {
            let result = sign_with_key(view, settings, m, stamper);
            proof {
                if result is Ok {
                    let reserved = key_plan(
                        view.shape,
                        settings@,
                        material_view(*m),
                        stamper is Some,
                    )->Ok_0;
                    lemma_key_signed_head(
                        view.data@,
                        view.signing_shape(),
                        settings@,
                        reserved,
                        result->Ok_0.file@,
                    );
                }
            }
            result
        },
    }
}

/// The bytes of the binary of a universal binary that `arch` records.
pub open spec fn slice_bytes(data: Seq<u8>, arch: FatSlice) -> Seq<u8> {
    data.subrange(arch.offset as int, arch.offset + arch.size)
}

/// Whether `result` is one that signing the binary that `arch` records may
/// give: `BinaryMalformed` where the binary does not lie within the file,
/// the error of loading it where it cannot be loaded, and else what signing
/// the binary may give.
#[verifier::opaque]
pub open spec fn slice_signed(
    data: Seq<u8>,
    arch: FatSlice,
    s: SettingsView,
    material: Option<(Option<Seq<u8>>, Seq<Seq<u8>>)>,
    time_stamped: bool,
    result: Result<(Seq<u8>, bool), CodesignError>,
) -> bool {
    if arch.offset + arch.size > data.len() {
        result == Err::<(Seq<u8>, bool), CodesignError>(CodesignError::BinaryMalformed)
    } else {
        match load_error(slice_bytes(data, arch)) {
            Some(e) => result == Err::<(Seq<u8>, bool), CodesignError>(e),
            None => binary_signed(
                slice_bytes(data, arch),
                loaded_shape(slice_bytes(data, arch)),
                s,
                material,
                time_stamped,
                result,
            ),
        }
    }
}

/// The binary of a universal binary that `arch` records, signed without
/// key: `BinaryMalformed` where the binary does not lie within the file,
/// the error of loading it where it cannot be loaded, the error of the
/// layout where it cannot be signed, and else the signed binary.
pub open spec fn signed_slice(data: Seq<u8>, arch: FatSlice, s: SettingsView) -> Result<
    Seq<u8>,
    CodesignError,
> {
    let slice = slice_bytes(data, arch);
    if arch.offset + arch.size > data.len() {
        Err(CodesignError::BinaryMalformed)
    } else {
        match load_error(slice) {
            Some(e) => Err(e),
            None => match planned_for(loaded_shape(slice), s, None) {
                Err(e) => Err(e),
                Ok(_) => Ok(signed_with(slice, loaded_shape(slice)->Ok_0, s, None, None)),
            },
        }
    }
}

/// The first `n` binaries of a universal binary, each signed without key,
/// or the error of the first of them that cannot be signed.
pub open spec fn signed_slices(data: Seq<u8>, list: Seq<FatSlice>, s: SettingsView, n: int) -> Result<
    Seq<Seq<u8>>,
    CodesignError,
>
    decreases n,
{
    if n <= 0 {
        Ok(Seq::empty())
    } else {
        match signed_slices(data, list, s, n - 1) {
            Err(e) => Err(e),
            Ok(pieces) => match signed_slice(data, list[n - 1], s) {
                Err(e) => Err(e),
                Ok(piece) => Ok(pieces.push(piece)),
            },
        }
    }
}

/// The universal binary `data` with the binaries `list`, signed without
/// key: every binary signed by itself, in the order of the header, and the
/// signed binaries put together; or the error of the first binary that
/// cannot be signed, or of putting them together.
pub open spec fn signed_universal(data: Seq<u8>, list: Seq<FatSlice>, s: SettingsView) -> Result<
    (Seq<u8>, bool),
    CodesignError,
> {
    match signed_slices(data, list, s, list.len() as int) {
        Err(e) => Err(e),
        Ok(pieces) => match joinable(list, lens_of(pieces)) {
            Err(e) => Err(e),
            Ok(_) => Ok((joined(list, pieces, list.len() as int), false)),
        },
    }
}

/// Where one of the first `n` binaries cannot be signed, no more of them
/// can, and the error stays.
pub proof fn lemma_signed_slices_fail(
    data: Seq<u8>,
    list: Seq<FatSlice>,
    s: SettingsView,
    n: int,
    m: int,
)
    requires
        0 <= n <= m,
        signed_slices(data, list, s, n) is Err,
    ensures
        signed_slices(data, list, s, m) == signed_slices(data, list, s, n),
    decreases m - n,
{
    if n < m {
        lemma_signed_slices_fail(data, list, s, n, m - 1);
    }
}

/// The binaries signed so far are one for every record, each the binary of
/// its record signed by itself.
pub proof fn lemma_signed_slices(data: Seq<u8>, list: Seq<FatSlice>, s: SettingsView, n: int)
    requires
        0 <= n,
        signed_slices(data, list, s, n) is Ok,
    ensures
        signed_slices(data, list, s, n)->Ok_0.len() == n,
        forall|k: int|
            0 <= k < n ==> signed_slice(data, #[trigger] list[k], s) == Ok::<
                Seq<u8>,
                CodesignError,
            >(signed_slices(data, list, s, n)->Ok_0[k]),
    decreases n,
{
    if n > 0 {
        lemma_signed_slices(data, list, s, n - 1);
    }
}

/// A binary of a universal binary is signed from its own bytes alone: two
/// files that hold the same bytes where `arch` records its binary give the
/// same signed binary, whatever else they hold.
pub proof fn lemma_slice_independent(a: Seq<u8>, b: Seq<u8>, arch: FatSlice, s: SettingsView)
    requires
        arch.offset + arch.size <= a.len(),
        arch.offset + arch.size <= b.len(),
        slice_bytes(a, arch) == slice_bytes(b, arch),
    ensures
        signed_slice(a, arch, s) == signed_slice(b, arch, s),
{
}

/// The binaries of a universal binary are signed independently: where two
/// universal binaries with the same records are both signed without key
/// and hold the same bytes for the binary number `i`, the signed binary
/// number `i` is the same in both, whatever the other binaries hold.
pub proof fn lemma_signed_independently(
    a: Seq<u8>,
    b: Seq<u8>,
    list: Seq<FatSlice>,
    s: SettingsView,
    i: int,
)
    requires
        0 <= i < list.len(),
        signed_slices(a, list, s, list.len() as int) is Ok,
        signed_slices(b, list, s, list.len() as int) is Ok,
        slice_bytes(a, list[i]) == slice_bytes(b, list[i]),
    ensures
        signed_slices(a, list, s, list.len() as int)->Ok_0[i] == signed_slices(
            b,
            list,
            s,
            list.len() as int,
        )->Ok_0[i],
{
    lemma_signed_slices(a, list, s, list.len() as int);
    lemma_signed_slices(b, list, s, list.len() as int);
    lemma_slice_independent(a, b, list[i], s);
}

/// The records of the binaries of a universal binary are read from its
/// header alone: two universal binaries that begin with the same header and
/// records hold the same container.
pub proof fn lemma_container_by_header(a: Seq<u8>, b: Seq<u8>)
    requires
        a.len() >= 8,
        crate::wire::be32_at(a, 0) == FAT_MAGIC,
        8 + 20 * crate::wire::be32_at(a, 4) <= a.len(),
        8 + 20 * crate::wire::be32_at(a, 4) <= b.len(),
        a.subrange(0, 8 + 20 * crate::wire::be32_at(a, 4)) == b.subrange(
            0,
            8 + 20 * crate::wire::be32_at(a, 4),
        ),
    ensures
        parsed_container(a) == parsed_container(b),
        parsed_container(a) is Some,
{
    let n = crate::wire::be32_at(a, 4) as int;
    let len = 8 + 20 * n;
    let head = a.subrange(0, len);
    assert forall|k: int| 0 <= k < len implies a[k] == b[k] by {
        assert(head[k] == a[k]);
        assert(head[k] == b[k]);
    }
    assert(crate::wire::be32_at(b, 4) == crate::wire::be32_at(a, 4));
    assert(crate::macho_load::fat_arches_of(a)->Some_0 =~= crate::macho_load::fat_arches_of(
        b,
    )->Some_0) by {
        assert forall|i: int| 0 <= i < n implies crate::macho_load::fat_slice_at(a, i)
            == crate::macho_load::fat_slice_at(b, i) by {
            assert(24 + 20 * i + 3 < len);
        }
    }
}

/// The number of bytes that signing the binary that `arch` records with a
/// key reserves for its CMS signature, or the error with which signing it
/// fails before a signature is asked for.
pub open spec fn slice_plan(
    data: Seq<u8>,
    arch: FatSlice,
    s: SettingsView,
    material: (Option<Seq<u8>>, Seq<Seq<u8>>),
    time_stamped: bool,
) -> Result<u32, CodesignError> {
    if arch.offset + arch.size > data.len() {
        Err(CodesignError::BinaryMalformed)
    } else {
        match load_error(slice_bytes(data, arch)) {
            Some(e) => Err(e),
            None => key_plan(loaded_shape(slice_bytes(data, arch)), s, material, time_stamped),
        }
    }
}

/// Whether the binaries `pieces` are what signing the binaries of the
/// universal binary `data` may give, one for each record of `list`;
/// `flags` says of each whether its time stamp was left out.
pub open spec fn pieces_signed(
    data: Seq<u8>,
    list: Seq<FatSlice>,
    s: SettingsView,
    material: Option<(Option<Seq<u8>>, Seq<Seq<u8>>)>,
    time_stamped: bool,
    pieces: Seq<Seq<u8>>,
    flags: Seq<bool>,
) -> bool {
    &&& pieces.len() == list.len()
    &&& flags.len() == list.len()
    &&& forall|i: int|
        0 <= i < list.len() ==> slice_signed(
            data,
            #[trigger] list[i],
            s,
            material,
            time_stamped,
            Ok((pieces[i], flags[i])),
        )
}

/// Whether `result` is one that signing the universal binary `data` with
/// the binaries `list` may give.
///
/// Without key the result is fixed, and so it is for a header without
/// binaries. With a key, a signed file is binaries that each are what
/// signing with the key may give, put together; a failure is one that
/// signing one of the binaries may give, or the one of putting signed
/// binaries together, and never `TimestampUnreachable`; and where the first
/// binary fails before a signature is asked for, the result is that error.
#[verifier::opaque]
pub open spec fn universal_signed(
    data: Seq<u8>,
    list: Seq<FatSlice>,
    s: SettingsView,
    material: Option<(Option<Seq<u8>>, Seq<Seq<u8>>)>,
    time_stamped: bool,
    result: Result<(Seq<u8>, bool), CodesignError>,
) -> bool {
    match material {
        None => result == signed_universal(data, list, s),
        Some(m) => {
            &&& list.len() == 0 ==> result == signed_universal(data, list, s)
            &&& result matches Err(e) ==> e != CodesignError::TimestampUnreachable && ((exists|
                i: int,
            |
                0 <= i < list.len() && #[trigger] slice_signed(
                    data,
                    list[i],
                    s,
                    material,
                    time_stamped,
                    Err::<(Seq<u8>, bool), CodesignError>(e),
                )) || (exists|pieces: Seq<Seq<u8>>, flags: Seq<bool>| #[trigger]
                pieces_signed(data, list, s, material, time_stamped, pieces, flags) && joinable(
                    list,
                    lens_of(pieces),
                ) == Err::<(), CodesignError>(e)))
            &&& result matches Ok((file, omitted)) ==> (omitted ==> time_stamped) && exists|
                pieces: Seq<Seq<u8>>,
                flags: Seq<bool>,
            |
                #[trigger] pieces_signed(data, list, s, material, time_stamped, pieces, flags)
                    && joinable(list, lens_of(pieces)) is Ok && file == joined(
                    list,
                    pieces,
                    list.len() as int,
                )
            &&& list.len() > 0 ==> (slice_plan(data, list[0], s, m, time_stamped) matches Err(e)
                ==> result == Err::<(Seq<u8>, bool), CodesignError>(e))
        },
    }
}

/// What signing every binary of the file `data` gives.
///
/// A file that holds no container gives `BinaryMalformed`. A file that
/// holds one binary gives the error of loading it, or what signing the
/// binary may give. A universal binary gives what signing its binaries and
/// putting them together again may give.
pub open spec fn file_signed(
    data: Seq<u8>,
    s: SettingsView,
    material: Option<(Option<Seq<u8>>, Seq<Seq<u8>>)>,
    time_stamped: bool,
    result: Result<(Seq<u8>, bool), CodesignError>,
) -> bool {
    match parsed_container(data) {
        None => result == Err::<(Seq<u8>, bool), CodesignError>(CodesignError::BinaryMalformed),
        Some(ContainerView::Thin) => match load_error(data) {
            Some(e) => result == Err::<(Seq<u8>, bool), CodesignError>(e),
            None => binary_signed(data, loaded_shape(data), s, material, time_stamped, result),
        },
        Some(ContainerView::Fat(list)) => universal_signed(
            data,
            list,
            s,
            material,
            time_stamped,
            result,
        ),
    }
}

/// Without key, what signing a binary of a universal binary gives is
/// fixed.
pub proof fn lemma_slice_without_key(
    data: Seq<u8>,
    arch: FatSlice,
    s: SettingsView,
    time_stamped: bool,
    result: Result<(Seq<u8>, bool), CodesignError>,
)
    requires
        slice_signed(data, arch, s, None, time_stamped, result),
    ensures
        result == match signed_slice(data, arch, s) {
            Ok(file) => Ok::<(Seq<u8>, bool), CodesignError>((file, false)),
            Err(e) => Err::<(Seq<u8>, bool), CodesignError>(e),
        },
{
    reveal(slice_signed);
}

/// With a key, a binary of a universal binary that fails before a
/// signature is asked for gives that error, and no other result.
pub proof fn lemma_slice_with_key(
    data: Seq<u8>,
    arch: FatSlice,
    s: SettingsView,
    material: (Option<Seq<u8>>, Seq<Seq<u8>>),
    time_stamped: bool,
    result: Result<(Seq<u8>, bool), CodesignError>,
)
    requires
        slice_signed(data, arch, s, Some(material), time_stamped, result),
    ensures
        slice_plan(data, arch, s, material, time_stamped) matches Err(e) ==> result == Err::<
            (Seq<u8>, bool),
            CodesignError,
        >(e),
        result matches Ok((_, omitted)) ==> (omitted ==> time_stamped),
        result matches Err(e) ==> e != CodesignError::TimestampUnreachable,
{
    reveal(slice_signed);
}

/// Signs the binary of a universal binary that `arch` records.
fn sign_slice<
    F: Fn(
        &[u8],
        &InMemorySigningKeyPair,
        &CapturedX509Certificate,
        &Vec<CapturedX509Certificate>,
    ) -> Result<Vec<u8>, CodesignError>,
>(
    data: &[u8],
    arch: FatSlice,
    settings: &SigningSettings,
    material: Option<&SigningMaterial>,
    stamper: Option<&F>,
) -> (result: Result<SignedBinary, CodesignError>)
    requires
        stamper_ready(stamper),
    ensures
        slice_signed(
            data@,
            arch,
            settings@,
            material_of(material),
            stamper is Some,
            outcome(result),
        ),
{
    reveal(slice_signed);
    let offset = arch.offset as u64;
    let size = arch.size as u64;
    if offset + size > data.len() as u64 {
        return Err(CodesignError::BinaryMalformed);
    }
    let slice = slice_subrange(data, offset as usize, (offset + size) as usize);
    assert(slice@ == slice_bytes(data@, arch));
    let view = match MachoView::load(slice_to_vec(slice)) {
        Err(e) => {
            return Err(e);
        },
        Ok(view) => view,
    };
    sign_binary(&view, settings, material, stamper)
}

/// Where a binary of a universal binary fails, and the binaries in front of
/// it were signed, the failure is one that signing the universal binary
/// may give.
proof fn lemma_universal_failed(
    data: Seq<u8>,
    list: Seq<FatSlice>,
    s: SettingsView,
    material: Option<(Option<Seq<u8>>, Seq<Seq<u8>>)>,
    time_stamped: bool,
    i: int,
    e: CodesignError,
)
    requires
        0 <= i < list.len(),
        slice_signed(
            data,
            list[i],
            s,
            material,
            time_stamped,
            Err::<(Seq<u8>, bool), CodesignError>(e),
        ),
        material is None ==> signed_slices(data, list, s, i) is Ok,
        material matches Some(m) ==> (i > 0 ==> slice_plan(data, list[0], s, m, time_stamped)
            is Ok),
    ensures
        universal_signed(
            data,
            list,
            s,
            material,
            time_stamped,
            Err::<(Seq<u8>, bool), CodesignError>(e),
        ),
{
    reveal(universal_signed);
    let result = Err::<(Seq<u8>, bool), CodesignError>(e);
    match material {
        None => {
            lemma_slice_without_key(data, list[i], s, time_stamped, result);
            lemma_signed_slices_fail(data, list, s, i + 1, list.len() as int);
        },
        Some(m) => {
            lemma_slice_with_key(data, list[i], s, m, time_stamped, result);
        },
    }
}

/// Where every binary of a universal binary was signed, what putting them
/// together gives is what signing the universal binary may give.
proof fn lemma_universal_joined(
    data: Seq<u8>,
    list: Seq<FatSlice>,
    s: SettingsView,
    material: Option<(Option<Seq<u8>>, Seq<Seq<u8>>)>,
    time_stamped: bool,
    pieces: Seq<Seq<u8>>,
    flags: Seq<bool>,
    omitted: bool,
    result: Result<(Seq<u8>, bool), CodesignError>,
)
    requires
        pieces.len() == list.len(),
        flags.len() == list.len(),
        material is None ==> !omitted && signed_slices(data, list, s, list.len() as int) == Ok::<
            Seq<Seq<u8>>,
            CodesignError,
        >(pieces),
        material matches Some(m) ==> pieces_signed(
            data,
            list,
            s,
            material,
            time_stamped,
            pieces,
            flags,
        ) && (omitted ==> time_stamped && list.len() > 0) && (list.len() > 0 ==> slice_plan(
            data,
            list[0],
            s,
            m,
            time_stamped,
        ) is Ok),
        result == match joinable(list, lens_of(pieces)) {
            Ok(_) => Ok::<(Seq<u8>, bool), CodesignError>(
                (joined(list, pieces, list.len() as int), omitted),
            ),
            Err(e) => Err::<(Seq<u8>, bool), CodesignError>(e),
        },
    ensures
        universal_signed(data, list, s, material, time_stamped, result),
{
    reveal(universal_signed);
    if list.len() == 0 {
        assert(pieces =~= Seq::<Seq<u8>>::empty());
    }
}

/// Signs every binary of a universal binary with the same settings, one
/// after the other in the order of the header, and puts the signed
/// binaries together.
pub fn sign_universal<
    F: Fn(
        &[u8],
        &InMemorySigningKeyPair,
        &CapturedX509Certificate,
        &Vec<CapturedX509Certificate>,
    ) -> Result<Vec<u8>, CodesignError>,
>(
    data: &[u8],
    arches: &Vec<FatSlice>,
    settings: &SigningSettings,
    material: Option<&SigningMaterial>,
    stamper: Option<&F>,
) -> (result: Result<SignedBinary, CodesignError>)
    requires
        stamper_ready(stamper),
    ensures
        universal_signed(
            data@,
            arches@,
            settings@,
            material_of(material),
            stamper is Some,
            outcome(result),
        ),
{
    let ghost s = settings@;
    let ghost m = material_of(material);
    let ghost stamped = stamper is Some;
    let mut signed: Vec<Vec<u8>> = Vec::new();
    let mut omitted = false;
    let ghost mut flags: Seq<bool> = Seq::empty();
    let mut i: usize = 0;
    assert(hashes_view(signed@) =~= Seq::<Seq<u8>>::empty());
    while i < arches.len()
        invariant
            i <= arches@.len(),
            signed@.len() == i,
            flags.len() == i,
            s == settings@,
            m == material_of(material),
            stamped == (stamper is Some),
            stamper_ready(stamper),
            omitted ==> stamped && i > 0,
            material is None ==> !omitted && signed_slices(data@, arches@, s, i as int) == Ok::<
                Seq<Seq<u8>>,
                CodesignError,
            >(hashes_view(signed@)),
            material is Some ==> forall|k: int|
                0 <= k < i ==> slice_signed(
                    data@,
                    #[trigger] arches@[k],
                    s,
                    m,
                    stamped,
                    Ok((signed@[k]@, flags[k])),
                ),
            material is Some && i > 0 ==> slice_plan(data@, arches@[0], s, m->Some_0, stamped)
                is Ok,
        decreases arches@.len() - i,
    {
        let ghost arch = arches@[i as int];
        let ghost before = hashes_view(signed@);
        let ghost held = signed@;
        let one = sign_slice(data, arches[i], settings, material, stamper);
        match one {
            Err(e) => {
                proof {
                    lemma_universal_failed(data@, arches@, s, m, stamped, i as int, e);
                }
                return Err(e);
            },
            Ok(one) => {
                proof {
                    if material is None {
                        lemma_slice_without_key(
                            data@,
                            arch,
                            s,
                            stamped,
                            Ok((one.file@, one.timestamp_omitted)),
                        );
                    } else {
                        lemma_slice_with_key(
                            data@,
                            arch,
                            s,
                            m->Some_0,
                            stamped,
                            Ok((one.file@, one.timestamp_omitted)),
                        );
                    }
                    flags = flags.push(one.timestamp_omitted);
                }
                if one.timestamp_omitted {
                    omitted = true;
                }
                signed.push(one.file);
                proof {
                    assert(signed@[i as int] == one.file);
                    assert(hashes_view(signed@) =~= before.push(signed@[i as int]@));
                    assert forall|k: int| 0 <= k < i implies signed@[k] == held[k] by {}
                }
            },
        }
        i = i + 1;
    }
    let joined = assemble_universal(arches, &signed);
    proof {
        let pieces = hashes_view(signed@);
        if material is Some {
            assert forall|k: int| 0 <= k < arches@.len() implies slice_signed(
                data@,
                #[trigger] arches@[k],
                s,
                m,
                stamped,
                Ok((pieces[k], flags[k])),
            ) by {
                assert(pieces[k] == signed@[k]@);
            }
            assert(pieces_signed(data@, arches@, s, m, stamped, pieces, flags));
        }
        let result = if joined is Ok {
            Ok::<(Seq<u8>, bool), CodesignError>((joined->Ok_0@, omitted))
        } else {
            Err::<(Seq<u8>, bool), CodesignError>(joined->Err_0)
        };
        lemma_universal_joined(data@, arches@, s, m, stamped, pieces, flags, omitted, result);
    }
    match joined {
        Err(e) => Err(e),
        Ok(file) => Ok(SignedBinary { file, timestamp_omitted: omitted }),
    }
}

/// Signs every binary of a file with the same settings, one after the
/// other, and puts the file together again: a file that holds one binary
/// gives the signed binary, and a universal binary gives a universal binary
/// of the signed binaries, in the order of its header.
///
/// Fails with `BinaryMalformed` where the file holds no container or a
/// binary does not lie within it, as loading or signing a binary fails,
/// and as putting the binaries together fails.
pub fn sign_file<
    F: Fn(
        &[u8],
        &InMemorySigningKeyPair,
        &CapturedX509Certificate,
        &Vec<CapturedX509Certificate>,
    ) -> Result<Vec<u8>, CodesignError>,
>(
    data: &[u8],
    settings: &SigningSettings,
    material: Option<&SigningMaterial>,
    stamper: Option<&F>,
) -> (result: Result<SignedBinary, CodesignError>)
    requires
        stamper_ready(stamper),
    ensures
        file_signed(data@, settings@, material_of(material), stamper is Some, outcome(result)),
{
    match parse_container(data) {
        None => Err(CodesignError::BinaryMalformed),
        Some(Container::Thin) => {
            let view = match MachoView::load(slice_to_vec(data)) {
                Err(e) => {
                    return Err(e);
                },
                Ok(view) => view,
            };
            sign_binary(&view, settings, material, stamper)
        },
        Some(Container::Fat(arches)) => sign_universal(data, &arches, settings, material, stamper),
    }
}

} // verus!
