//! Checking the signature of a binary against the binary.
//!
//! The check is that of the hashes: the signature is read, its code
//! directory must name the offset of the signature as the code limit, and
//! the hash of every page of the binary must be the one that the code
//! directory holds. The CMS signature is not checked.

use vstd::prelude::*;
use crate::blob::MAGIC_EMBEDDED_SIGNATURE;
use crate::code_directory::{CodeDirectory, CodeDirectoryView, hashes_view, parsed_directory};
use crate::code_hash::{
    compute_code_hashes, lemma_one_page, lemma_page_bytes, page_bytes, page_digests, page_size_of,
};
use crate::digest::hashes;
use crate::embedded_signature::EmbeddedSignature;
use crate::error::CodesignError;
use crate::macho::SignatureRegion;
use crate::macho_load::{
    code_bytes_of, Container, ContainerView, load_error, loaded_signature, MachoView, parse_container,
    parsed_container, signature_bytes_of,
};
use crate::universal::slice_bytes;
use vstd::slice::{slice_subrange, slice_to_vec};
use crate::superblob::{blob_in_slot, disassembled};
use crate::wire::bytes_equal;

verus! {

/// What is wrong with the signature of a binary.
#[derive(Clone, Copy, Debug, PartialEq, Eq, Structural)]
pub enum VerificationProblem {
    /// The file holds no container, or a binary of it cannot be loaded.
    BinaryUnreadable(CodesignError),
    /// The binary has no signature.
    NoSignature,
    /// The signature cannot be read.
    SignatureUnreadable(CodesignError),
    /// The signature has no code directory.
    NoCodeDirectory,
    /// The code directory cannot be read.
    CodeDirectoryUnreadable(CodesignError),
    /// The code limit of the code directory is not the offset of the
    /// signature.
    CodeLimitMismatch,
    /// The hash kind of the code directory computes no digest.
    UnsupportedHash,
    /// The code directory holds another number of code hashes than the
    /// binary has pages.
    CodeSlotCountMismatch,
    /// The hash of the page is not the one that the code directory holds.
    CodeHashMismatch(usize),
}

/// Whether the code directory `d` vouches for the bytes `code`: it names
/// their length as the code limit, and holds the hash of every page.
pub open spec fn directory_vouches(d: CodeDirectoryView, code: Seq<u8>) -> bool {
    &&& d.code_limit == code.len()
    &&& hashes(d.hash_type)
    &&& d.code_hashes == page_digests(d.hash_type, code, page_bytes(d.page_size_log2 as nat))
}

/// Whether the signature of the binary holds: the binary has a signature
/// that can be read, with a code directory that can be read and vouches for
/// the bytes in front of the signature.
pub open spec fn signature_holds(view: MachoView) -> bool {
    holds_in(view.data@, view.signature)
}

/// Whether the signature that the `LC_CODE_SIGNATURE` command names as
/// `signature` holds of the binary `data`.
pub open spec fn holds_in(data: Seq<u8>, signature: Option<SignatureRegion>) -> bool {
    &&& signature_bytes_of(data, signature) matches Ok(bytes)
    &&& disassembled(bytes, MAGIC_EMBEDDED_SIGNATURE) matches Ok(entries)
    &&& blob_in_slot(entries, 0) matches Some(blob)
    &&& parsed_directory(blob) matches Ok(d)
    &&& code_bytes_of(data, signature) matches Ok(code)
    &&& directory_vouches(d, code)
}

/// Where the signature of a binary holds, the code limit of its code
/// directory is the offset at which the signature begins, as the
/// `LC_CODE_SIGNATURE` command of the binary names it and as `segment_info`
/// gives it: an offset from the start of the binary, which for a binary of
/// a universal binary is the start of its slice and not of the file.
pub proof fn lemma_code_limit_is_signature_offset(
    data: Seq<u8>,
    signature: Option<SignatureRegion>,
)
    requires
        holds_in(data, signature),
    ensures
        signature is Some,
        signature->Some_0.offset <= data.len(),
        ({
            let region = signature->Some_0;
            let bytes = signature_bytes_of(data, signature)->Ok_0;
            let entries = disassembled(bytes, MAGIC_EMBEDDED_SIGNATURE)->Ok_0;
            let directory = parsed_directory(blob_in_slot(entries, 0)->Some_0)->Ok_0;
            &&& directory.code_limit == region.offset
            &&& forall|shape: crate::macho::MachoShape, count: usize, index: usize|
                (#[trigger] crate::macho_load::segment_info_of(
                    shape,
                    region,
                    count,
                    index,
                )).linkedit_signature_start_offset == directory.code_limit
        }),
{
}

/// Whether the binary `data` loads and its signature holds.
pub open spec fn binary_holds(data: Seq<u8>) -> bool {
    load_error(data) is None && holds_in(data, loaded_signature(data))
}

/// Whether the signature of every binary of the file `data` holds: of the
/// one binary of a file that holds one, and of every binary of a universal
/// binary, each of which lies within the file.
pub open spec fn file_holds(data: Seq<u8>) -> bool {
    match parsed_container(data) {
        None => false,
        Some(ContainerView::Thin) => binary_holds(data),
        Some(ContainerView::Fat(list)) => forall|i: int|
            0 <= i < list.len() ==> (#[trigger] list[i]).offset + list[i].size <= data.len()
                && binary_holds(slice_bytes(data, list[i])),
    }
}

fn same_hashes(held: &Vec<Vec<u8>>, computed: &Vec<Vec<u8>>) -> (first: Option<usize>)
    ensures
        first is None <==> held@.len() != computed@.len() || hashes_view(held@) == hashes_view(
            computed@,
        ),
        first matches Some(i) ==> i < held@.len() && i < computed@.len() && held@[i as int]@
            != computed@[i as int]@,
{
    if held.len() != computed.len() {
        return None;
    }
    let mut i: usize = 0;
    while i < held.len()
        invariant
            i <= held@.len(),
            held@.len() == computed@.len(),
            forall|k: int| 0 <= k < i ==> (#[trigger] held@[k])@ == computed@[k]@,
        decreases held@.len() - i,
    {
        if !bytes_equal(held[i].as_slice(), computed[i].as_slice()) {
            assert(hashes_view(held@)[i as int] != hashes_view(computed@)[i as int]);
            return Some(i);
        }
        i = i + 1;
    }
    assert(hashes_view(held@) =~= hashes_view(computed@));
    None
}

/// Checks the code directory `directory` against the bytes `code` that it
/// is to vouch for. No problem is found exactly where it vouches for them.
pub fn verify_code_directory(directory: &CodeDirectory, code: &[u8]) -> (problems: Vec<
    VerificationProblem,
>)
    ensures
        problems@.len() == 0 <==> directory_vouches(directory@, code@),
{
    let mut problems: Vec<VerificationProblem> = Vec::new();
    if code.len() > 0xffff_ffff || directory.code_limit as usize != code.len() {
        problems.push(VerificationProblem::CodeLimitMismatch);
        return problems;
    }
    proof {
        lemma_page_bytes(directory@.page_size_log2 as nat);
    }
    let page = match page_size_of(directory.page_size_log2) {
        Some(n) => n,
        None => {
            proof {
                let big = if code@.len() == 0 {
                    1
                } else {
                    code@.len() as int
                };
                lemma_one_page(
                    directory@.hash_type,
                    code@,
                    big,
                    page_bytes(directory@.page_size_log2 as nat),
                );
            }
            if code.len() == 0 {
                1
            } else {
                code.len()
            }
        },
    };
    let computed = match compute_code_hashes(code, directory.hash_type, page) {
        Err(_) => {
            problems.push(VerificationProblem::UnsupportedHash);
            return problems;
        },
        Ok(computed) => computed,
    };
    if directory.code_hashes.len() != computed.len() {
        assert(hashes_view(directory.code_hashes@).len() != hashes_view(computed@).len());
        problems.push(VerificationProblem::CodeSlotCountMismatch);
        return problems;
    }
    match same_hashes(&directory.code_hashes, &computed) {
        Some(page) => {
            problems.push(VerificationProblem::CodeHashMismatch(page));
        },
        None => {},
    }
    problems
}

/// Checks the signature of the binary against its bytes. No problem is
/// found exactly where the signature holds.
pub fn verify_view(view: &MachoView) -> (problems: Vec<VerificationProblem>)
    ensures
        problems@.len() == 0 <==> signature_holds(*view),
{
    let mut problems: Vec<VerificationProblem> = Vec::new();
    let bytes = match view.signature_data() {
        Err(_) => {
            problems.push(VerificationProblem::NoSignature);
            return problems;
        },
        Ok(bytes) => bytes,
    };
    let signature = match EmbeddedSignature::parse(bytes) {
        Err(e) => {
            problems.push(VerificationProblem::SignatureUnreadable(e));
            return problems;
        },
        Ok(signature) => signature,
    };
    let directory = match signature.code_directory() {
        Err(e) => {
            problems.push(VerificationProblem::CodeDirectoryUnreadable(e));
            return problems;
        },
        Ok(None) => {
            problems.push(VerificationProblem::NoCodeDirectory);
            return problems;
        },
        Ok(Some(directory)) => directory,
    };
    match view.code() {
        Err(_) => {
            problems.push(VerificationProblem::NoSignature);
            problems
        },
        Ok(code) => verify_code_directory(&directory, code),
    }
}

/// What a check that found `problems` comes to: success where there is no
/// problem, and `VerificationProblems` where there is one.
pub fn verification_outcome(problems: &Vec<VerificationProblem>) -> (result: Result<
    (),
    CodesignError,
>)
    ensures
        result == if problems@.len() == 0 {
            Ok::<(), CodesignError>(())
        } else {
            Err::<(), CodesignError>(CodesignError::VerificationProblems)
        },
{
    if problems.len() == 0 {
        Ok(())
    } else {
        Err(CodesignError::VerificationProblems)
    }
}

/// Checks the signature of the binary `data` against its bytes. No problem
/// is found exactly where the binary loads and its signature holds.
pub fn verify_binary(data: &[u8]) -> (problems: Vec<VerificationProblem>)
    ensures
        problems@.len() == 0 <==> binary_holds(data@),
{
    match MachoView::load(slice_to_vec(data)) {
        Err(e) => {
            let mut problems: Vec<VerificationProblem> = Vec::new();
            problems.push(VerificationProblem::BinaryUnreadable(e));
            problems
        },
        Ok(view) => verify_view(&view),
    }
}

/// Checks the signature of every binary of the file `data`, in the order
/// of the header of a universal binary. No problem is found exactly where
/// the signature of every binary holds.
pub fn verify_file(data: &[u8]) -> (problems: Vec<VerificationProblem>)
    ensures
        problems@.len() == 0 <==> file_holds(data@),
{
    let mut problems: Vec<VerificationProblem> = Vec::new();
    match parse_container(data) {
        None => {
            problems.push(VerificationProblem::BinaryUnreadable(CodesignError::BinaryMalformed));
            assert(!file_holds(data@));
            problems
        },
        Some(Container::Thin) => {
            assert(parsed_container(data@) == Some(ContainerView::Thin));
            let found = verify_binary(data);
            assert(found@.len() == 0 <==> file_holds(data@));
            found
        },
        Some(Container::Fat(list)) => {
            assert(parsed_container(data@) == Some(ContainerView::Fat(list@)));
            let mut i: usize = 0;
            while i < list.len()
                invariant
                    i <= list@.len(),
                    parsed_container(data@) == Some(ContainerView::Fat(list@)),
                    problems@.len() == 0 <==> forall|k: int|
                        0 <= k < i ==> (#[trigger] list@[k]).offset + list@[k].size <= data@.len()
                            && binary_holds(slice_bytes(data@, list@[k])),
                decreases list@.len() - i,
            {
                let offset = list[i].offset as u64;
                let size = list[i].size as u64;
                if offset + size > data.len() as u64 {
                    problems.push(
                        VerificationProblem::BinaryUnreadable(CodesignError::BinaryMalformed),
                    );
                } else {
                    let slice = slice_subrange(data, offset as usize, (offset + size) as usize);
                    assert(slice@ == slice_bytes(data@, list@[i as int]));
                    let mut found = verify_binary(slice);
                    problems.append(&mut found);
                }
                i = i + 1;
            }
            assert(problems@.len() == 0 <==> file_holds(data@));
            problems
        },
    }
}

} // verus!
