//! The hashes of the pages of a binary.
//!
//! The bytes up to the code limit are split into pages of one size, the last
//! of which may be short, and every page is hashed by itself.

use vstd::prelude::*;
use vstd::arithmetic::div_mod::{
    lemma_basic_div, lemma_div_plus_one, lemma_mod_sub_multiples_vanish, lemma_small_mod,
};
use vstd::slice::slice_subrange;
use crate::digest::{digest_len, digest_of, DigestType, hashes};
use crate::error::CodesignError;

verus! {

/// The digest that a hashing kind takes of `data`.
pub open spec fn digest_value(kind: DigestType, data: Seq<u8>) -> Seq<u8> {
    digest_of(kind, data)->Ok_0
}

/// The pages of `code`: runs of `page` bytes, the last one short where the
/// length is no multiple of `page`.
pub open spec fn pages(code: Seq<u8>, page: int) -> Seq<Seq<u8>>
    decreases code.len(),
{
    if page <= 0 || code.len() == 0 {
        Seq::empty()
    } else if code.len() <= page {
        seq![code]
    } else {
        seq![code.subrange(0, page)] + pages(code.subrange(page, code.len() as int), page)
    }
}

/// The digests of the pages of `code`, page by page.
pub open spec fn page_digests(kind: DigestType, code: Seq<u8>, page: int) -> Seq<Seq<u8>>
    decreases code.len(),
{
    if page <= 0 || code.len() == 0 {
        Seq::empty()
    } else if code.len() <= page {
        seq![digest_value(kind, code)]
    } else {
        seq![digest_value(kind, code.subrange(0, page))] + page_digests(
            kind,
            code.subrange(page, code.len() as int),
            page,
        )
    }
}

/// The number of pages that `limit` bytes take: `limit / page`, rounded up.
pub open spec fn page_count(limit: int, page: int) -> int {
    (limit + page - 1) / page
}

/// The number of bytes of a page whose size has the binary logarithm `log2`.
pub open spec fn page_bytes(log2: nat) -> int
    decreases log2,
{
    if log2 == 0 {
        1
    } else {
        2 * page_bytes((log2 - 1) as nat)
    }
}

/// There are as many pages as the length divided by the page size, rounded
/// up, and as many digests as pages.
pub proof fn lemma_page_count(kind: DigestType, code: Seq<u8>, page: int)
    requires
        page > 0,
    ensures
        pages(code, page).len() == page_count(code.len() as int, page),
        page_digests(kind, code, page).len() == page_count(code.len() as int, page),
    decreases code.len(),
{
    let len = code.len() as int;
    if len == 0 {
        lemma_basic_div(page - 1, page);
    } else if len <= page {
        lemma_div_plus_one(len - 1, page);
        lemma_basic_div(len - 1, page);
    } else {
        lemma_page_count(kind, code.subrange(page, len), page);
        lemma_div_plus_one(len - 1, page);
    }
}

/// There are as many digests as pages.
pub proof fn lemma_page_digest_count(kind: DigestType, code: Seq<u8>, page: int)
    requires
        page > 0,
    ensures
        page_digests(kind, code, page).len() == pages(code, page).len(),
{
    lemma_page_count(kind, code, page);
}

/// Digest `j` is the digest of page `j`.
pub proof fn lemma_page_digest(kind: DigestType, code: Seq<u8>, page: int, j: int)
    requires
        page > 0,
        0 <= j < pages(code, page).len(),
    ensures
        page_digests(kind, code, page).len() == pages(code, page).len(),
        page_digests(kind, code, page)[j] == digest_value(kind, pages(code, page)[j]),
    decreases code.len(),
{
    let len = code.len() as int;
    lemma_page_count(kind, code, page);
    if len > page && j > 0 {
        lemma_page_digest(kind, code.subrange(page, len), page, j - 1);
    }
}

/// Where the length is a multiple of the page size, no page is short.
pub proof fn lemma_no_short_page(code: Seq<u8>, page: int, j: int)
    requires
        page > 0,
        code.len() % (page as nat) == 0,
        0 <= j < pages(code, page).len(),
    ensures
        pages(code, page)[j].len() == page,
    decreases code.len(),
{
    let len = code.len() as int;
    if len <= page {
        if len < page {
            lemma_small_mod(len as nat, page as nat);
        }
    } else if j > 0 {
        lemma_mod_sub_multiples_vanish(len, page);
        lemma_no_short_page(code.subrange(page, len), page, j - 1);
    }
}

/// Every page but the last has the page size, and the last is not empty.
pub proof fn lemma_page_sizes(code: Seq<u8>, page: int, j: int)
    requires
        page > 0,
        0 <= j < pages(code, page).len(),
    ensures
        0 < pages(code, page)[j].len() <= page,
        j + 1 < pages(code, page).len() ==> pages(code, page)[j].len() == page,
    decreases code.len(),
{
    let len = code.len() as int;
    if len > page && j > 0 {
        lemma_page_sizes(code.subrange(page, len), page, j - 1);
    }
}

/// Pages at least as long as the code are all the same split: one page, or
/// none for empty code.
pub proof fn lemma_one_page(kind: DigestType, code: Seq<u8>, page: int, other: int)
    requires
        code.len() <= page,
        code.len() <= other,
        page > 0,
        other > 0,
    ensures
        page_digests(kind, code, page) == page_digests(kind, code, other),
{
}

/// There are no more pages than bytes.
pub proof fn lemma_pages_at_most_bytes(code: Seq<u8>, page: int)
    requires
        page > 0,
    ensures
        pages(code, page).len() <= code.len(),
    decreases code.len(),
{
    let len = code.len() as int;
    if len > page {
        lemma_pages_at_most_bytes(code.subrange(page, len), page);
    }
}

/// The size of a page in bytes is positive and doubles with each step of the
/// logarithm.
pub proof fn lemma_page_bytes(log2: nat)
    ensures
        page_bytes(log2) > 0,
        log2 >= 32 ==> page_bytes(log2) > u32::MAX,
        log2 < 32 ==> page_bytes(log2) <= 0x8000_0000,
    decreases log2,
{
    if log2 > 0 {
        lemma_page_bytes((log2 - 1) as nat);
    }
    if log2 < 32 {
        reveal_with_fuel(page_bytes, 33);
    } else if log2 == 32 {
        reveal_with_fuel(page_bytes, 34);
    }
}

/// The size in bytes of a page whose size has the binary logarithm `log2`,
/// where a `u32` holds it.
pub fn page_size_of(log2: u8) -> (page: Option<usize>)
    ensures
        page is Some <==> log2 < 32,
        page matches Some(n) ==> n == page_bytes(log2 as nat) && n > 0,
{
    if log2 >= 32 {
        return None;
    }
    let mut page: usize = 1;
    let mut i: u8 = 0;
    while i < log2
        invariant
            i <= log2 < 32,
            page == page_bytes(i as nat),
        decreases log2 - i,
    {
        proof {
            lemma_page_bytes(i as nat);
            lemma_page_bytes((i + 1) as nat);
        }
        page = page * 2;
        i = i + 1;
    }
    proof {
        lemma_page_bytes(log2 as nat);
    }
    Some(page)
}

/// Hashes `code` page by page: one digest for every run of `page_size` bytes
/// and one for the short run at the end, if there is one.
///
/// Fails with `UnsupportedHash` exactly where `kind` computes no digest.
pub fn compute_code_hashes(code: &[u8], kind: DigestType, page_size: usize) -> (result: Result<
    Vec<Vec<u8>>,
    CodesignError,
>)
    requires
        page_size > 0,
    ensures
        match result {
            Ok(digests) => hashes(kind) && crate::code_directory::hashes_view(digests@)
                == page_digests(kind, code@, page_size as int)
                && crate::code_directory::uniform(
                crate::code_directory::hashes_view(digests@),
                digest_len(kind) as int,
            ),
            Err(e) => !hashes(kind) && e == CodesignError::UnsupportedHash,
        },
{
    match kind {
        DigestType::NoDigest => {
            return Err(CodesignError::UnsupportedHash);
        },
        DigestType::Unknown(_) => {
            return Err(CodesignError::UnsupportedHash);
        },
        _ => {},
    }
    let ghost page = page_size as int;
    let mut digests: Vec<Vec<u8>> = Vec::new();
    let mut rest: &[u8] = code;
    assert(crate::code_directory::hashes_view(digests@) + page_digests(kind, rest@, page)
        =~= page_digests(kind, code@, page));
    while rest.len() > 0
        invariant
            page == page_size,
            page > 0,
            hashes(kind),
            crate::code_directory::hashes_view(digests@) + page_digests(kind, rest@, page)
                == page_digests(kind, code@, page),
            crate::code_directory::uniform(
                crate::code_directory::hashes_view(digests@),
                digest_len(kind) as int,
            ),
        decreases rest@.len(),
    {
        let take = if rest.len() <= page_size {
            rest.len()
        } else {
            page_size
        };
        let ghost before = crate::code_directory::hashes_view(digests@);
        let ghost old_rest = rest@;
        let digest = match kind.digest(slice_subrange(rest, 0, take)) {
            Ok(digest) => digest,
            Err(e) => {
                return Err(e);
            },
        };
        digests.push(digest);
        rest = slice_subrange(rest, take, rest.len());
        proof {
            let now = crate::code_directory::hashes_view(digests@);
            assert(now =~= before.push(digest@));
            if old_rest.len() <= page {
                assert(old_rest.subrange(0, take as int) =~= old_rest);
                assert(page_digests(kind, rest@, page) =~= Seq::<Seq<u8>>::empty());
                assert(now + page_digests(kind, rest@, page) =~= before + page_digests(
                    kind,
                    old_rest,
                    page,
                ));
            } else {
                assert(now + page_digests(kind, rest@, page) =~= before + page_digests(
                    kind,
                    old_rest,
                    page,
                ));
            }
        }
    }
    proof {
        assert(crate::code_directory::hashes_view(digests@) + page_digests(kind, rest@, page)
            =~= crate::code_directory::hashes_view(digests@));
    }
    Ok(digests)
}

} // verus!
