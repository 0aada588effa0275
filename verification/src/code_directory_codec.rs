//! Writing and reading code directories, and the law that reading gives back
//! what was written.

use vstd::prelude::*;
use crate::blob::{MAGIC_CODE_DIRECTORY, read_blob_as, unframed};
use crate::code_directory::{
    c_string, code_at, CodeDirectory, CodeDirectoryView, directory_of, hash_offset, hashes_view,
    header_len, header_words, ident_offset, no_nul, nul_index, option_view, parsed_directory,
    serialized, special_at, table_down, table_offset, table_up, team_offset, terminated, text_len,
    total_len, uniform, VERSION_CODE_LIMIT_64, VERSION_EXEC_SEGMENT, VERSION_SCATTER,
    VERSION_TEAM_ID, well_formed,
};
use crate::digest::{digest_code, DigestType};
use crate::error::CodesignError;
use crate::wire::{
    be32_at, be64_at, be_words, lemma_be_words_at, lemma_be_words_len, lemma_bytes_of_word,
    lemma_halves, lemma_span, lemma_span_grows, lower_half, put_bytes, put_words, read_be32,
    read_be64, span, table_len, upper_half, word_of,
};
use vstd::slice::{slice_subrange, slice_to_vec};

verus! {

/// A table of hashes of one size has the length of its count times the size.
pub proof fn lemma_table_len(hashes: Seq<Seq<u8>>, n: int, size: int)
    requires
        0 <= n <= hashes.len(),
        0 <= size,
        uniform(hashes, size),
    ensures
        table_down(hashes, n).len() == span(n, size),
        table_up(hashes, n).len() == span(n, size),
    decreases n,
{
    lemma_span(n, size);
    if n > 0 {
        lemma_table_len(hashes, n - 1, size);
        lemma_span(n - 1, size);
    }
}

/// In a table written downwards that ends at `base`, hash `i` lies `i + 1`
/// sizes before `base`.
pub proof fn lemma_table_down_at(
    a: Seq<u8>,
    hashes: Seq<Seq<u8>>,
    n: int,
    b: Seq<u8>,
    size: int,
    i: int,
)
    requires
        0 <= i < n <= hashes.len(),
        0 <= size,
        uniform(hashes, size),
    ensures
        special_at(a + table_down(hashes, n) + b, a.len() + span(n, size), size, i) == hashes[i],
    decreases n,
{
    let s = a + table_down(hashes, n) + b;
    let base = a.len() + span(n, size);
    lemma_table_len(hashes, n, size);
    lemma_table_len(hashes, n - 1, size);
    lemma_span(n - 1, size);
    lemma_span(i, size);
    lemma_span_grows(i + 1, n, size);
    if i < n - 1 {
        lemma_table_down_at(a + hashes[n - 1], hashes, n - 1, b, size, i);
        assert(a + hashes[n - 1] + table_down(hashes, n - 1) + b =~= s);
    } else {
        assert(s.subrange(base - span(i + 1, size), base - span(i, size)) =~= hashes[i]);
    }
}

/// In a table written upwards that starts at `base`, hash `j` lies `j` sizes
/// behind `base`.
pub proof fn lemma_table_up_at(
    a: Seq<u8>,
    hashes: Seq<Seq<u8>>,
    n: int,
    b: Seq<u8>,
    size: int,
    j: int,
)
    requires
        0 <= j < n <= hashes.len(),
        0 <= size,
        uniform(hashes, size),
    ensures
        code_at(a + table_up(hashes, n) + b, a.len() as int, size, j) == hashes[j],
    decreases n,
{
    let s = a + table_up(hashes, n) + b;
    let base = a.len() as int;
    lemma_table_len(hashes, n, size);
    lemma_table_len(hashes, n - 1, size);
    lemma_span(n - 1, size);
    lemma_span(j, size);
    lemma_span_grows(j + 1, n, size);
    if j < n - 1 {
        lemma_table_up_at(a, hashes, n - 1, hashes[n - 1] + b, size, j);
        assert(a + table_up(hashes, n - 1) + (hashes[n - 1] + b) =~= s);
    } else {
        assert(s.subrange(base + span(j, size), base + span(j + 1, size)) =~= hashes[j]);
    }
}

/// The first zero byte behind a run without zero bytes is the one at the
/// run's end.
pub proof fn lemma_nul_index(s: Seq<u8>, from: int, end: int)
    requires
        0 <= from <= end < s.len(),
        s[end] == 0,
        forall|k: int| from <= k < end ==> s[k] != 0,
    ensures
        nul_index(s, from) == Some(end),
    decreases end - from,
{
    if from < end {
        lemma_nul_index(s, from + 1, end);
    }
}

/// A string without zero bytes that was written with its terminator is read
/// back where it was written.
pub proof fn lemma_c_string(a: Seq<u8>, text: Seq<u8>, b: Seq<u8>)
    requires
        no_nul(text),
    ensures
        c_string(a + text + seq![0u8] + b, a.len() as int) == Some(text),
{
    let s = a + text + seq![0u8] + b;
    let from = a.len() as int;
    let end = from + text.len();
    assert forall|k: int| from <= k < end implies s[k] != 0 by {
        assert(s[k] == text[k - from]);
    }
    lemma_nul_index(s, from, end);
    assert(s.subrange(from, end) =~= text);
}

/// The header of a directory has the length that its version fixes.
pub proof fn lemma_header_words_len(d: CodeDirectoryView)
    ensures
        4 * header_words(d).len() == header_len(d.version),
        be_words(header_words(d)).len() == header_len(d.version),
{
    lemma_be_words_len(header_words(d));
}

/// The parts of a serialized directory and where each starts.
pub proof fn lemma_serialized_len(d: CodeDirectoryView)
    requires
        well_formed(d),
    ensures
        serialized(d).len() == total_len(d),
        header_len(d.version) <= ident_offset(d) <= table_offset(d) <= hash_offset(d)
            <= total_len(d),
{
    lemma_header_words_len(d);
    lemma_table_len(d.special_hashes, d.special_hashes.len() as int, d.hash_size as int);
    lemma_table_len(d.code_hashes, d.code_hashes.len() as int, d.hash_size as int);
    lemma_span(d.special_hashes.len() as int, d.hash_size as int);
    lemma_span(d.code_hashes.len() as int, d.hash_size as int);
}

/// Every word of the header is read back at its place in the serialized
/// directory.
pub proof fn lemma_header_read(d: CodeDirectoryView, k: int)
    requires
        0 <= k < header_words(d).len(),
    ensures
        be32_at(serialized(d), 4 * k) == header_words(d)[k],
{
    let tail = d.identifier + seq![0u8] + terminated(d.team_id) + table_down(
        d.special_hashes,
        d.special_hashes.len() as int,
    ) + table_up(d.code_hashes, d.code_hashes.len() as int);
    lemma_be_words_at(Seq::<u8>::empty(), header_words(d), tail, k);
    assert(Seq::<u8>::empty() + be_words(header_words(d)) + tail =~= serialized(d));
}

/// The strings of a serialized directory are read back at their offsets.
pub proof fn lemma_strings_read(d: CodeDirectoryView)
    requires
        well_formed(d),
    ensures
        c_string(serialized(d), ident_offset(d)) == Some(d.identifier),
        d.team_id is Some ==> c_string(serialized(d), team_offset(d)) == d.team_id,
{
    let header = be_words(header_words(d));
    let down = table_down(d.special_hashes, d.special_hashes.len() as int);
    let up = table_up(d.code_hashes, d.code_hashes.len() as int);
    lemma_header_words_len(d);
    lemma_c_string(header, d.identifier, terminated(d.team_id) + down + up);
    assert(header + d.identifier + seq![0u8] + (terminated(d.team_id) + down + up) =~= serialized(
        d,
    ));
    if d.team_id is Some {
        let team = d.team_id->Some_0;
        lemma_c_string(header + d.identifier + seq![0u8], team, down + up);
        assert(header + d.identifier + seq![0u8] + team + seq![0u8] + (down + up) =~= serialized(
            d,
        ));
    }
}

/// The hashes of a serialized directory are read back around its hash offset.
pub proof fn lemma_hashes_read(d: CodeDirectoryView)
    requires
        well_formed(d),
    ensures
        forall|i: int|
            0 <= i < d.special_hashes.len() ==> #[trigger] special_at(
                serialized(d),
                hash_offset(d),
                d.hash_size as int,
                i,
            ) == d.special_hashes[i],
        forall|j: int|
            0 <= j < d.code_hashes.len() ==> #[trigger] code_at(
                serialized(d),
                hash_offset(d),
                d.hash_size as int,
                j,
            ) == d.code_hashes[j],
{
    let size = d.hash_size as int;
    let front = be_words(header_words(d)) + d.identifier + seq![0u8] + terminated(d.team_id);
    let down = table_down(d.special_hashes, d.special_hashes.len() as int);
    let up = table_up(d.code_hashes, d.code_hashes.len() as int);
    lemma_header_words_len(d);
    lemma_table_len(d.special_hashes, d.special_hashes.len() as int, size);
    assert(front.len() == table_offset(d));
    assert forall|i: int| 0 <= i < d.special_hashes.len() implies #[trigger] special_at(
        serialized(d),
        hash_offset(d),
        size,
        i,
    ) == d.special_hashes[i] by {
        lemma_table_down_at(front, d.special_hashes, d.special_hashes.len() as int, up, size, i);
        assert(front + down + up =~= serialized(d));
    }
    assert forall|j: int| 0 <= j < d.code_hashes.len() implies #[trigger] code_at(
        serialized(d),
        hash_offset(d),
        size,
        j,
    ) == d.code_hashes[j] by {
        lemma_table_up_at(
            front + down,
            d.code_hashes,
            d.code_hashes.len() as int,
            Seq::<u8>::empty(),
            size,
            j,
        );
        assert(front + down + up + Seq::<u8>::empty() =~= serialized(d));
    }
}

/// The fixed fields of a serialized directory are read back from its header.
pub proof fn lemma_fields_read(d: CodeDirectoryView)
    requires
        well_formed(d),
    ensures
        serialized(d).len() >= 48,
        be32_at(serialized(d), 0) == MAGIC_CODE_DIRECTORY,
        be32_at(serialized(d), 4) == total_len(d),
        be32_at(serialized(d), 8) == d.version,
        be32_at(serialized(d), 12) == d.flags,
        be32_at(serialized(d), 16) == hash_offset(d),
        be32_at(serialized(d), 20) == ident_offset(d),
        be32_at(serialized(d), 24) == d.special_hashes.len(),
        be32_at(serialized(d), 28) == d.code_hashes.len(),
        be32_at(serialized(d), 32) == d.code_limit,
        be32_at(serialized(d), 36) == word_of(
            d.hash_size,
            digest_code(d.hash_type),
            d.platform,
            d.page_size_log2,
        ),
        d.version >= VERSION_TEAM_ID ==> be32_at(serialized(d), 48) == team_offset(d),
        d.version >= VERSION_EXEC_SEGMENT ==> be64_at(serialized(d), 64) == d.exec_seg_base
            && be64_at(serialized(d), 72) == d.exec_seg_limit && be64_at(serialized(d), 80)
            == d.exec_seg_flags,
{
    lemma_serialized_len(d);
    lemma_header_words_len(d);
    lemma_header_read(d, 0);
    lemma_header_read(d, 1);
    lemma_header_read(d, 2);
    lemma_header_read(d, 3);
    lemma_header_read(d, 4);
    lemma_header_read(d, 5);
    lemma_header_read(d, 6);
    lemma_header_read(d, 7);
    lemma_header_read(d, 8);
    lemma_header_read(d, 9);
    if d.version >= VERSION_TEAM_ID {
        lemma_header_read(d, 12);
    }
    if d.version >= VERSION_EXEC_SEGMENT {
        lemma_header_read(d, 16);
        lemma_header_read(d, 17);
        lemma_header_read(d, 18);
        lemma_header_read(d, 19);
        lemma_header_read(d, 20);
        lemma_header_read(d, 21);
        lemma_halves(d.exec_seg_base, 0, 0);
        lemma_halves(d.exec_seg_limit, 0, 0);
        lemma_halves(d.exec_seg_flags, 0, 0);
    }
}

/// Reading the exact bytes of a serialized directory gives the directory.
pub proof fn lemma_directory_of_serialized(d: CodeDirectoryView)
    requires
        well_formed(d),
    ensures
        directory_of(serialized(d)) == Ok::<CodeDirectoryView, CodesignError>(d),
{
    let whole = serialized(d);
    lemma_serialized_len(d);
    lemma_fields_read(d);
    lemma_strings_read(d);
    lemma_hashes_read(d);
    lemma_bytes_of_word(d.hash_size, digest_code(d.hash_type), d.platform, d.page_size_log2);
    let got = directory_of(whole)->Ok_0;
    assert(directory_of(whole) is Ok);
    assert(got.special_hashes =~= d.special_hashes);
    assert(got.code_hashes =~= d.code_hashes);
    assert(got.team_id == d.team_id);
    assert(got.hash_type == d.hash_type);
}

/// Parsing a serialized code directory gives the directory back, whatever
/// follows the blob.
pub proof fn lemma_directory_round_trip(d: CodeDirectoryView, rest: Seq<u8>)
    requires
        well_formed(d),
    ensures
        parsed_directory(serialized(d) + rest) == Ok::<CodeDirectoryView, CodesignError>(d),
{
    let whole = serialized(d);
    let s = whole + rest;
    lemma_serialized_len(d);
    lemma_fields_read(d);
    lemma_directory_of_serialized(d);
    assert(s.subrange(0, 4) =~= whole.subrange(0, 4));
    assert(s.subrange(4, 8) =~= whole.subrange(4, 8));
    crate::wire::lemma_be32_at_window(s, whole, 0, 0);
    crate::wire::lemma_be32_at_window(s, whole, 4, 4);
    assert(s.subrange(0, total_len(d)) =~= whole);
    assert(unframed(s) is Ok);
}

/// Whether no byte of `text` is zero.
pub fn has_no_nul(text: &Vec<u8>) -> (ok: bool)
    ensures
        ok == no_nul(text@),
{
    let mut i: usize = 0;
    while i < text.len()
        invariant
            i <= text@.len(),
            forall|k: int| 0 <= k < i ==> text@[k] != 0,
        decreases text@.len() - i,
    {
        if text[i] == 0 {
            return false;
        }
        i = i + 1;
    }
    true
}

/// Whether every hash of `hashes` has `size` bytes.
pub fn all_of_size(hashes: &Vec<Vec<u8>>, size: usize) -> (ok: bool)
    ensures
        ok == uniform(hashes_view(hashes@), size as int),
{
    let mut i: usize = 0;
    while i < hashes.len()
        invariant
            i <= hashes@.len(),
            forall|k: int| 0 <= k < i ==> (#[trigger] hashes_view(hashes@)[k]).len() == size,
        decreases hashes@.len() - i,
    {
        if hashes[i].len() != size {
            assert(hashes_view(hashes@)[i as int].len() != size);
            return false;
        }
        i = i + 1;
    }
    true
}

/// The number of bytes of the header of a directory of `version`.
pub fn header_size(version: u32) -> (n: usize)
    ensures
        n == header_len(version),
{
    if version >= VERSION_EXEC_SEGMENT {
        88
    } else if version >= VERSION_CODE_LIMIT_64 {
        64
    } else if version >= VERSION_TEAM_ID {
        52
    } else {
        48
    }
}

fn pack_bytes(b0: u8, b1: u8, b2: u8, b3: u8) -> (word: u32)
    ensures
        word == word_of(b0, b1, b2, b3),
{
    proof {
        reveal(word_of);
    }
    (b0 as u32) * 0x100_0000 + (b1 as u32) * 0x1_0000 + (b2 as u32) * 0x100 + (b3 as u32)
}

fn halves(v: u64) -> (pair: (u32, u32))
    ensures
        pair.0 == upper_half(v),
        pair.1 == lower_half(v),
{
    proof {
        reveal(upper_half);
        reveal(lower_half);
    }
    ((v / 0x1_0000_0000) as u32, (v % 0x1_0000_0000) as u32)
}

fn read_c_string(whole: &[u8], at: usize) -> (text: Option<Vec<u8>>)
    ensures
        option_view(text) == c_string(whole@, at as int),
{
    let mut k: usize = at;
    while k < whole.len()
        invariant
            at <= k,
            nul_index(whole@, at as int) == nul_index(whole@, k as int),
        decreases whole@.len() - k,
    {
        if whole[k] == 0 {
            return Some(slice_to_vec(slice_subrange(whole, at, k)));
        }
        k = k + 1;
    }
    None
}

fn directory_from(whole: &[u8]) -> (result: Result<CodeDirectory, CodesignError>)
    requires
        whole@.len() <= u32::MAX,
    ensures
        match result {
            Ok(d) => directory_of(whole@) == Ok::<CodeDirectoryView, CodesignError>(d@),
            Err(e) => directory_of(whole@) == Err::<CodeDirectoryView, CodesignError>(e),
        },
{
    if whole.len() < 48 {
        return Err(CodesignError::BlobTruncated);
    }
    let version = read_be32(whole, 8);
    if version < VERSION_SCATTER {
        return Err(CodesignError::UnsupportedMachOVariant);
    }
    if whole.len() < header_size(version) {
        return Err(CodesignError::BlobTruncated);
    }
    let flags = read_be32(whole, 12);
    let base = read_be32(whole, 16) as usize;
    let ident_at = read_be32(whole, 20) as usize;
    let n_special = read_be32(whole, 24);
    let n_code = read_be32(whole, 28);
    let code_limit = read_be32(whole, 32);
    let hash_size = whole[36];
    let hash_code = whole[37];
    let platform = whole[38];
    let page_size_log2 = whole[39];
    proof {
        lemma_bytes_of_word(hash_size, hash_code, platform, page_size_log2);
    }
    let team_at = if version >= VERSION_TEAM_ID {
        read_be32(whole, 48) as usize
    } else {
        0
    };
    let identifier = match read_c_string(whole, ident_at) {
        None => {
            return Err(CodesignError::BlobTruncated);
        },
        Some(text) => text,
    };
    let team_id = if team_at != 0 {
        match read_c_string(whole, team_at) {
            None => {
                return Err(CodesignError::BlobTruncated);
            },
            Some(text) => Some(text),
        }
    } else {
        None
    };
    let special_len = table_len(n_special, hash_size);
    let code_len = table_len(n_code, hash_size);
    if special_len > base as u64 || base as u64 + code_len > whole.len() as u64 {
        return Err(CodesignError::BlobTruncated);
    }
    let ghost size = hash_size as int;
    let mut special_hashes: Vec<Vec<u8>> = Vec::new();
    let mut i: u32 = 0;
    while i < n_special
        invariant
            i <= n_special,
            size == hash_size,
            span(n_special as int, size) <= base <= whole@.len(),
            special_hashes@.len() == i,
            forall|k: int|
                0 <= k < i ==> (#[trigger] special_hashes@[k])@ == special_at(
                    whole@,
                    base as int,
                    size,
                    k,
                ),
        decreases n_special - i,
    {
        proof {
            lemma_span(i as int, size);
            lemma_span_grows(i as int + 1, n_special as int, size);
        }
        let near = table_len(i, hash_size) as usize;
        let far = table_len(i + 1, hash_size) as usize;
        let hash = slice_to_vec(slice_subrange(whole, base - far, base - near));
        special_hashes.push(hash);
        i = i + 1;
    }
    let mut code_hashes: Vec<Vec<u8>> = Vec::new();
    let mut j: u32 = 0;
    while j < n_code
        invariant
            j <= n_code,
            size == hash_size,
            base + span(n_code as int, size) <= whole@.len() <= u32::MAX,
            code_hashes@.len() == j,
            forall|k: int|
                0 <= k < j ==> (#[trigger] code_hashes@[k])@ == code_at(
                    whole@,
                    base as int,
                    size,
                    k,
                ),
        decreases n_code - j,
    {
        proof {
            lemma_span(j as int, size);
            lemma_span_grows(j as int + 1, n_code as int, size);
        }
        let near = table_len(j, hash_size) as usize;
        let far = table_len(j + 1, hash_size) as usize;
        let hash = slice_to_vec(slice_subrange(whole, base + near, base + far));
        code_hashes.push(hash);
        j = j + 1;
    }
    let exec_seg_base = if version >= VERSION_EXEC_SEGMENT {
        read_be64(whole, 64)
    } else {
        0
    };
    let exec_seg_limit = if version >= VERSION_EXEC_SEGMENT {
        read_be64(whole, 72)
    } else {
        0
    };
    let exec_seg_flags = if version >= VERSION_EXEC_SEGMENT {
        read_be64(whole, 80)
    } else {
        0
    };
    let directory = CodeDirectory {
        version,
        flags,
        code_limit,
        hash_size,
        hash_type: DigestType::from_code(hash_code),
        platform,
        page_size_log2,
        identifier,
        team_id,
        special_hashes,
        code_hashes,
        exec_seg_base,
        exec_seg_limit,
        exec_seg_flags,
    };
    proof {
        let want = directory_of(whole@)->Ok_0;
        assert(directory@.special_hashes =~= want.special_hashes);
        assert(directory@.code_hashes =~= want.code_hashes);
    }
    Ok(directory)
}

impl CodeDirectory {
    /// Whether the directory can be written and read back.
    pub fn is_well_formed(&self) -> (ok: bool)
        ensures
            ok == well_formed(self@),
    {
        let ghost d = self@;
        if self.version < VERSION_SCATTER {
            return false;
        }
        if self.team_id.is_some() && self.version < VERSION_TEAM_ID {
            return false;
        }
        if self.version < VERSION_EXEC_SEGMENT && (self.exec_seg_base != 0 || self.exec_seg_limit
            != 0 || self.exec_seg_flags != 0) {
            return false;
        }
        if !has_no_nul(&self.identifier) {
            return false;
        }
        let team_len: usize = match &self.team_id {
            Some(team) => {
                if !has_no_nul(team) {
                    return false;
                }
                if team.len() >= 0xffff_ffff {
                    proof {
                        lemma_span(d.special_hashes.len() as int, d.hash_size as int);
                        lemma_span(d.code_hashes.len() as int, d.hash_size as int);
                    }
                    return false;
                }
                team.len() + 1
            },
            None => 0,
        };
        if !all_of_size(&self.special_hashes, self.hash_size as usize) {
            return false;
        }
        if !all_of_size(&self.code_hashes, self.hash_size as usize) {
            return false;
        }
        match self.hash_type {
            DigestType::Unknown(code) => {
                if code <= 4 {
                    return false;
                }
            },
            _ => {},
        }
        if self.special_hashes.len() > 0xffff_ffff || self.code_hashes.len() > 0xffff_ffff {
            return false;
        }
        proof {
            lemma_span(d.special_hashes.len() as int, d.hash_size as int);
            lemma_span(d.code_hashes.len() as int, d.hash_size as int);
        }
        if self.identifier.len() > 0xffff_ffff {
            return false;
        }
        let strings: u64 = header_size(self.version) as u64 + self.identifier.len() as u64 + 1
            + team_len as u64;
        let tables: u64 = table_len(self.special_hashes.len() as u32, self.hash_size) + table_len(
            self.code_hashes.len() as u32,
            self.hash_size,
        );
        strings + tables <= 0xffff_ffff
    }

    /// The bytes of the directory's blob.
    pub fn to_blob_bytes(&self) -> (bytes: Vec<u8>)
        requires
            well_formed(self@),
        ensures
            bytes@ == serialized(self@),
            bytes@.len() == total_len(self@),
            parsed_directory(bytes@) == Ok::<CodeDirectoryView, CodesignError>(self@),
    {
        let ghost d = self@;
        proof {
            lemma_serialized_len(d);
            lemma_span(d.special_hashes.len() as int, d.hash_size as int);
            lemma_span(d.code_hashes.len() as int, d.hash_size as int);
        }
        let n_special = self.special_hashes.len();
        let n_code = self.code_hashes.len();
        let ident_at = header_size(self.version);
        let team_len: usize = match &self.team_id {
            Some(team) => {
                assert(d.team_id == Some(team@));
                assert(text_len(d.team_id) == team@.len() + 1);
                team.len() + 1
            },
            None => 0,
        };
        let team_at = if self.team_id.is_some() {
            ident_at + self.identifier.len() + 1
        } else {
            0
        };
        let table_at = ident_at + self.identifier.len() + 1 + team_len;
        let hash_at = table_at as u64 + table_len(n_special as u32, self.hash_size);
        let total = hash_at + table_len(n_code as u32, self.hash_size);
        let mut words: Vec<u32> = vec![
            MAGIC_CODE_DIRECTORY,
            total as u32,
            self.version,
            self.flags,
            hash_at as u32,
            ident_at as u32,
            n_special as u32,
            n_code as u32,
            self.code_limit,
            pack_bytes(self.hash_size, self.hash_type.code(), self.platform, self.page_size_log2),
            0u32,
            0u32,
        ];
        if self.version >= VERSION_TEAM_ID {
            words.push(team_at as u32);
        }
        if self.version >= VERSION_CODE_LIMIT_64 {
            words.push(0u32);
            words.push(0u32);
            words.push(0u32);
        }
        if self.version >= VERSION_EXEC_SEGMENT {
            let (base_upper, base_lower) = halves(self.exec_seg_base);
            let (limit_upper, limit_lower) = halves(self.exec_seg_limit);
            let (flags_upper, flags_lower) = halves(self.exec_seg_flags);
            words.push(base_upper);
            words.push(base_lower);
            words.push(limit_upper);
            words.push(limit_lower);
            words.push(flags_upper);
            words.push(flags_lower);
        }
        assert(words@ =~= header_words(d));
        let mut out: Vec<u8> = Vec::new();
        put_words(&mut out, &words);
        put_bytes(&mut out, self.identifier.as_slice());
        out.push(0u8);
        match &self.team_id {
            Some(team) => {
                put_bytes(&mut out, team.as_slice());
                out.push(0u8);
            },
            None => {},
        }
        let ghost front = be_words(header_words(d)) + d.identifier + seq![0u8] + terminated(
            d.team_id,
        );
        assert(out@ =~= front);
        let mut k: usize = n_special;
        while k > 0
            invariant
                k <= n_special,
                n_special == self.special_hashes@.len(),
                d == self@,
                out@ + table_down(d.special_hashes, k as int) == front + table_down(
                    d.special_hashes,
                    n_special as int,
                ),
            decreases k,
        {
            let ghost before = out@;
            put_bytes(&mut out, self.special_hashes[k - 1].as_slice());
            assert(out@ + table_down(d.special_hashes, k - 1) =~= before + table_down(
                d.special_hashes,
                k as int,
            ));
            k = k - 1;
        }
        let ghost middle = front + table_down(d.special_hashes, n_special as int);
        assert(out@ =~= middle);
        let mut j: usize = 0;
        while j < n_code
            invariant
                j <= n_code,
                n_code == self.code_hashes@.len(),
                d == self@,
                out@ == middle + table_up(d.code_hashes, j as int),
            decreases n_code - j,
        {
            put_bytes(&mut out, self.code_hashes[j].as_slice());
            j = j + 1;
            assert(out@ =~= middle + table_up(d.code_hashes, j as int));
        }
        proof {
            assert(out@ =~= serialized(d));
            lemma_directory_round_trip(d, Seq::<u8>::empty());
            assert(serialized(d) + Seq::<u8>::empty() =~= serialized(d));
        }
        out
    }

    /// Reads the code directory at the front of `data`.
    ///
    /// The framing errors of a blob come first. A version under `0x20100` is
    /// `UnsupportedMachOVariant`. A blob that ends before its header, a
    /// string without terminator, or a table that reaches outside the blob
    /// is `BlobTruncated`.
    pub fn from_blob_bytes(data: &[u8]) -> (result: Result<CodeDirectory, CodesignError>)
        ensures
            match result {
                Ok(d) => parsed_directory(data@) == Ok::<CodeDirectoryView, CodesignError>(d@),
                Err(e) => parsed_directory(data@) == Err::<CodeDirectoryView, CodesignError>(e),
            },
    {
        let payload = match read_blob_as(data, MAGIC_CODE_DIRECTORY) {
            Err(e) => {
                return Err(e);
            },
            Ok(payload) => payload,
        };
        let whole = slice_subrange(data, 0, payload.len() + 8);
        directory_from(whole)
    }
}

} // verus!
