//! Big-endian integers, byte runs and four-byte alignment.
//!
//! Every integer of an embedded signature is stored big-endian. The spec
//! functions here are the vocabulary in which the blob formats are stated.

use vstd::prelude::*;

verus! {

/// Byte `k` of `v`, counted from the most significant, for `k` from 0 to 3.
#[verifier::opaque]
pub open spec fn byte_of(v: u32, k: int) -> u8 {
    if k == 0 {
        (v / 0x100_0000) as u8
    } else if k == 1 {
        ((v / 0x1_0000) % 0x100) as u8
    } else if k == 2 {
        ((v / 0x100) % 0x100) as u8
    } else {
        (v % 0x100) as u8
    }
}

/// The integer whose four bytes are these, most significant first.
#[verifier::opaque]
pub open spec fn word_of(b0: u8, b1: u8, b2: u8, b3: u8) -> u32 {
    (b0 as int * 0x100_0000 + b1 as int * 0x1_0000 + b2 as int * 0x100 + b3 as int) as u32
}

/// The upper half of `v`.
#[verifier::opaque]
pub open spec fn upper_half(v: u64) -> u32 {
    (v / 0x1_0000_0000) as u32
}

/// The lower half of `v`.
#[verifier::opaque]
pub open spec fn lower_half(v: u64) -> u32 {
    (v % 0x1_0000_0000) as u32
}

/// The integer whose halves are these.
#[verifier::opaque]
pub open spec fn long_of(upper: u32, lower: u32) -> u64 {
    (upper as int * 0x1_0000_0000 + lower as int) as u64
}

/// The four bytes that store `v`, most significant first.
pub open spec fn be32(v: u32) -> Seq<u8> {
    seq![byte_of(v, 0), byte_of(v, 1), byte_of(v, 2), byte_of(v, 3)]
}

/// The integer that the four bytes of `s` from index `at` store.
pub open spec fn be32_at(s: Seq<u8>, at: int) -> u32
    recommends
        0 <= at,
        at + 4 <= s.len(),
{
    word_of(s[at], s[at + 1], s[at + 2], s[at + 3])
}

/// The eight bytes that store `v`, most significant first.
pub open spec fn be64(v: u64) -> Seq<u8> {
    be32(upper_half(v)) + be32(lower_half(v))
}

/// The integer that the eight bytes of `s` from index `at` store.
pub open spec fn be64_at(s: Seq<u8>, at: int) -> u64
    recommends
        0 <= at,
        at + 8 <= s.len(),
{
    long_of(be32_at(s, at), be32_at(s, at + 4))
}

/// A run of `n` zero bytes.
pub open spec fn zeros(n: nat) -> Seq<u8> {
    Seq::new(n, |i: int| 0u8)
}

/// How many zero bytes bring a run of `n` bytes to a multiple of four.
pub open spec fn pad4(n: int) -> int {
    (4 - n % 4) % 4
}

/// `n` rounded up to a multiple of four.
pub open spec fn align4(n: int) -> int {
    n + pad4(n)
}

/// The bytes of a word make up the word again.
pub proof fn lemma_word_of_bytes(v: u32)
    ensures
        word_of(byte_of(v, 0), byte_of(v, 1), byte_of(v, 2), byte_of(v, 3)) == v,
{
    reveal(byte_of);
    reveal(word_of);
}

/// The base-256 digits of a four-digit number are the digits it was made of.
proof fn lemma_digits(b0: int, b1: int, b2: int, b3: int)
    requires
        0 <= b0 < 0x100,
        0 <= b1 < 0x100,
        0 <= b2 < 0x100,
        0 <= b3 < 0x100,
    ensures
        ({
            let v = b0 * 0x100_0000 + b1 * 0x1_0000 + b2 * 0x100 + b3;
            &&& 0 <= v <= 0xffff_ffff
            &&& v / 0x100_0000 == b0
            &&& (v / 0x1_0000) % 0x100 == b1
            &&& (v / 0x100) % 0x100 == b2
            &&& v % 0x100 == b3
        }),
{
    let v = b0 * 0x100_0000 + b1 * 0x1_0000 + b2 * 0x100 + b3;
    assert(v / 0x100 == b0 * 0x1_0000 + b1 * 0x100 + b2);
    assert(v / 0x1_0000 == b0 * 0x100 + b1);
}

/// The word made of four bytes has these bytes.
pub proof fn lemma_bytes_of_word(b0: u8, b1: u8, b2: u8, b3: u8)
    ensures
        byte_of(word_of(b0, b1, b2, b3), 0) == b0,
        byte_of(word_of(b0, b1, b2, b3), 1) == b1,
        byte_of(word_of(b0, b1, b2, b3), 2) == b2,
        byte_of(word_of(b0, b1, b2, b3), 3) == b3,
{
    reveal(byte_of);
    reveal(word_of);
    lemma_digits(b0 as int, b1 as int, b2 as int, b3 as int);
}

/// The halves of a long word make up the long word again, and the long word
/// made of two halves has these halves.
pub proof fn lemma_halves(v: u64, upper: u32, lower: u32)
    ensures
        long_of(upper_half(v), lower_half(v)) == v,
        upper_half(long_of(upper, lower)) == upper,
        lower_half(long_of(upper, lower)) == lower,
{
    reveal(upper_half);
    reveal(lower_half);
    reveal(long_of);
}

/// Four stored bytes are exactly the encoding of the integer they store.
pub proof fn lemma_be32_bytes(s: Seq<u8>, at: int)
    requires
        0 <= at,
        at + 4 <= s.len(),
    ensures
        be32(be32_at(s, at)) == s.subrange(at, at + 4),
{
    lemma_bytes_of_word(s[at], s[at + 1], s[at + 2], s[at + 3]);
    assert(be32(be32_at(s, at)) =~= s.subrange(at, at + 4));
}

/// An integer written between two runs is read back at the first run's end.
pub proof fn lemma_be32_at_inside(a: Seq<u8>, v: u32, b: Seq<u8>)
    ensures
        be32_at(a + be32(v) + b, a.len() as int) == v,
{
    let s = a + be32(v) + b;
    let n = a.len() as int;
    assert(s[n] == be32(v)[0]);
    assert(s[n + 1] == be32(v)[1]);
    assert(s[n + 2] == be32(v)[2]);
    assert(s[n + 3] == be32(v)[3]);
    lemma_word_of_bytes(v);
}

/// Reading depends only on the four bytes read.
pub proof fn lemma_be32_at_window(s: Seq<u8>, t: Seq<u8>, at: int, bt: int)
    requires
        0 <= at,
        at + 4 <= s.len(),
        0 <= bt,
        bt + 4 <= t.len(),
        s.subrange(at, at + 4) == t.subrange(bt, bt + 4),
    ensures
        be32_at(s, at) == be32_at(t, bt),
{
    let w = s.subrange(at, at + 4);
    let x = t.subrange(bt, bt + 4);
    assert(s[at] == w[0] && s[at + 1] == w[1] && s[at + 2] == w[2] && s[at + 3] == w[3]);
    assert(t[bt] == x[0] && t[bt + 1] == x[1] && t[bt + 2] == x[2] && t[bt + 3] == x[3]);
}

/// Reading back what `be64` wrote gives the integer again.
pub proof fn lemma_be64_value(v: u64)
    ensures
        be64(v).len() == 8,
        be64_at(be64(v), 0) == v,
{
    let hi = upper_half(v);
    let lo = lower_half(v);
    lemma_be32_at_inside(Seq::<u8>::empty(), hi, be32(lo));
    assert(Seq::<u8>::empty() + be32(hi) + be32(lo) =~= be64(v));
    lemma_be32_at_inside(be32(hi), lo, Seq::<u8>::empty());
    assert(be32(hi) + be32(lo) + Seq::<u8>::empty() =~= be64(v));
    lemma_halves(v, 0, 0);
}

/// Appends the big-endian encoding of `v`.
pub fn put_be32(out: &mut Vec<u8>, v: u32)
    ensures
        final(out)@ == old(out)@ + be32(v),
{
    proof {
        reveal(byte_of);
    }
    out.push((v / 0x100_0000) as u8);
    out.push(((v / 0x1_0000) % 0x100) as u8);
    out.push(((v / 0x100) % 0x100) as u8);
    out.push((v % 0x100) as u8);
    assert(out@ =~= old(out)@ + be32(v));
}

/// Appends the big-endian encoding of `v`.
pub fn put_be64(out: &mut Vec<u8>, v: u64)
    ensures
        final(out)@ == old(out)@ + be64(v),
{
    proof {
        reveal(upper_half);
        reveal(lower_half);
    }
    put_be32(out, (v / 0x1_0000_0000) as u32);
    put_be32(out, (v % 0x1_0000_0000) as u32);
    assert(out@ =~= old(out)@ + be64(v));
}

/// Reads the big-endian integer stored at `at`.
pub fn read_be32(data: &[u8], at: usize) -> (v: u32)
    requires
        at + 4 <= data@.len(),
    ensures
        v == be32_at(data@, at as int),
{
    let b0: u32 = data[at] as u32;
    let b1: u32 = data[at + 1] as u32;
    let b2: u32 = data[at + 2] as u32;
    let b3: u32 = data[at + 3] as u32;
    proof {
        reveal(word_of);
    }
    b0 * 0x100_0000 + b1 * 0x1_0000 + b2 * 0x100 + b3
}

/// Reads the big-endian integer stored at `at`.
pub fn read_be64(data: &[u8], at: usize) -> (v: u64)
    requires
        at + 8 <= data@.len(),
    ensures
        v == be64_at(data@, at as int),
{
    let n = data.len();
    let hi: u64 = read_be32(data, at) as u64;
    let lo: u64 = read_be32(data, at + 4) as u64;
    proof {
        reveal(long_of);
    }
    hi * 0x1_0000_0000 + lo
}

/// Appends a copy of `data`.
pub fn put_bytes(out: &mut Vec<u8>, data: &[u8])
    ensures
        final(out)@ == old(out)@ + data@,
{
    let mut i: usize = 0;
    while i < data.len()
        invariant
            i <= data@.len(),
            out@ == old(out)@ + data@.subrange(0, i as int),
        decreases data@.len() - i,
    {
        out.push(data[i]);
        i = i + 1;
        assert(out@ =~= old(out)@ + data@.subrange(0, i as int));
    }
    assert(data@.subrange(0, i as int) =~= data@);
}

/// Appends `n` zero bytes.
pub fn put_zeros(out: &mut Vec<u8>, n: usize)
    ensures
        final(out)@ == old(out)@ + zeros(n as nat),
{
    let mut i: usize = 0;
    while i < n
        invariant
            i <= n,
            out@ == old(out)@ + zeros(i as nat),
        decreases n - i,
    {
        out.push(0u8);
        i = i + 1;
        assert(out@ =~= old(out)@ + zeros(i as nat));
    }
}

/// The number of zero bytes that align a run of `n` bytes to four.
pub fn padding_for(n: usize) -> (p: usize)
    ensures
        p == pad4(n as int),
        p < 4,
{
    (4 - n % 4) % 4
}

/// Whether two byte runs hold the same bytes.
pub fn bytes_equal(a: &[u8], b: &[u8]) -> (same: bool)
    ensures
        same == (a@ == b@),
{
    if a.len() != b.len() {
        return false;
    }
    let mut i: usize = 0;
    while i < a.len()
        invariant
            i <= a@.len(),
            a@.len() == b@.len(),
            a@.subrange(0, i as int) == b@.subrange(0, i as int),
        decreases a@.len() - i,
    {
        if a[i] != b[i] {
            assert(a@[i as int] != b@[i as int]);
            return false;
        }
        i = i + 1;
        assert(a@.subrange(0, i as int) =~= a@.subrange(0, i - 1).push(a@[i - 1]));
        assert(b@.subrange(0, i as int) =~= b@.subrange(0, i - 1).push(b@[i - 1]));
    }
    assert(a@.subrange(0, i as int) =~= a@);
    assert(b@.subrange(0, i as int) =~= b@);
    true
}

/// The encodings of the words of `ws`, one behind the other.
pub open spec fn be_words(ws: Seq<u32>) -> Seq<u8>
    decreases ws.len(),
{
    if ws.len() == 0 {
        Seq::empty()
    } else {
        be_words(ws.drop_last()) + be32(ws.last())
    }
}

/// Word `i` of a run of words, wherever the run lies, is read back at four
/// times `i` behind the start of the run.
pub proof fn lemma_be_words_at(a: Seq<u8>, ws: Seq<u32>, b: Seq<u8>, i: int)
    requires
        0 <= i < ws.len(),
    ensures
        be_words(ws).len() == 4 * ws.len(),
        be32_at(a + be_words(ws) + b, a.len() + 4 * i) == ws[i],
    decreases ws.len(),
{
    let s = a + be_words(ws) + b;
    let front = ws.drop_last();
    lemma_be_words_len(front);
    if i < ws.len() - 1 {
        lemma_be_words_at(a, front, be32(ws.last()) + b, i);
        assert(a + be_words(front) + (be32(ws.last()) + b) =~= s);
    } else {
        lemma_be32_at_inside(a + be_words(front), ws.last(), b);
        assert(a + be_words(front) + be32(ws.last()) + b =~= s);
    }
}

/// A run of words takes four bytes for each word.
pub proof fn lemma_be_words_len(ws: Seq<u32>)
    ensures
        be_words(ws).len() == 4 * ws.len(),
    decreases ws.len(),
{
    if ws.len() > 0 {
        lemma_be_words_len(ws.drop_last());
    }
}

/// Appends the encodings of the words of `ws`.
pub fn put_words(out: &mut Vec<u8>, ws: &Vec<u32>)
    ensures
        final(out)@ == old(out)@ + be_words(ws@),
{
    let mut i: usize = 0;
    assert(be_words(ws@.subrange(0, 0)) =~= Seq::<u8>::empty());
    while i < ws.len()
        invariant
            i <= ws@.len(),
            out@ == old(out)@ + be_words(ws@.subrange(0, i as int)),
        decreases ws@.len() - i,
    {
        put_be32(out, ws[i]);
        i = i + 1;
        assert(ws@.subrange(0, i as int).drop_last() =~= ws@.subrange(0, i - 1));
        assert(out@ =~= old(out)@ + be_words(ws@.subrange(0, i as int)));
    }
    assert(ws@.subrange(0, i as int) =~= ws@);
}

/// The product of a count and a size, as the length of a table.
#[verifier::opaque]
pub open spec fn span(count: int, size: int) -> int {
    count * size
}

/// A table of no entries is empty, every entry adds its size, and a table
/// grows with its count.
pub proof fn lemma_span(count: int, size: int)
    requires
        0 <= count,
        0 <= size,
    ensures
        span(0, size) == 0,
        span(count + 1, size) == span(count, size) + size,
        0 <= span(count, size),
        span(count, 0) == 0,
{
    reveal(span);
    assert(span(count + 1, size) == span(count, size) + size) by (nonlinear_arith)
        requires
            span(count + 1, size) == (count + 1) * size,
            span(count, size) == count * size,
    ;
    assert(0 <= count * size) by (nonlinear_arith)
        requires
            0 <= count,
            0 <= size,
    ;
}

/// A table grows with its count.
pub proof fn lemma_span_grows(i: int, j: int, size: int)
    requires
        0 <= i <= j,
        0 <= size,
    ensures
        span(i, size) <= span(j, size),
{
    reveal(span);
    assert(i * size <= j * size) by (nonlinear_arith)
        requires
            0 <= i <= j,
            0 <= size,
    ;
}

/// The length of a table of `count` entries of `size` bytes each.
pub fn table_len(count: u32, size: u8) -> (len: u64)
    ensures
        len == span(count as int, size as int),
        len <= 0xff_0000_0000,
{
    proof {
        reveal(span);
        assert(count as int * size as int <= 0xffff_ffff * 0xff) by (nonlinear_arith)
            requires
                0 <= count <= 0xffff_ffff,
                0 <= size <= 0xff,
        ;
    }
    (count as u64) * (size as u64)
}

} // verus!
