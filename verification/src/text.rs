//! Characters for the readable forms: hexadecimal text, decimal numbers and
//! quoted byte strings.

use vstd::prelude::*;

verus! {

/// The character of a hexadecimal digit, in lower case.
pub open spec fn hex_digit(n: int) -> char {
    if n < 10 {
        (48 + n) as char
    } else {
        (87 + n) as char
    }
}

/// The hexadecimal text of `data`: two digits for every byte, the upper half
/// first.
pub open spec fn hex_text(data: Seq<u8>) -> Seq<char> {
    Seq::new(
        2 * data.len(),
        |i: int|
            if i % 2 == 0 {
                hex_digit(data[i / 2] as int / 16)
            } else {
                hex_digit(data[i / 2] as int % 16)
            },
    )
}

/// The decimal text of a natural number.
pub open spec fn decimal(n: nat) -> Seq<char>
    decreases n,
{
    if n < 10 {
        seq![hex_digit(n as int)]
    } else {
        decimal(n / 10).push(hex_digit((n % 10) as int))
    }
}

/// The decimal text of an integer, with a minus sign where it is negative.
pub open spec fn signed_decimal(v: int) -> Seq<char> {
    if v < 0 {
        seq!['-'] + decimal((-v) as nat)
    } else {
        decimal(v as nat)
    }
}

/// Whether the byte stands for itself between quotes: a printable ASCII
/// character other than the quote and the backslash.
pub open spec fn plain(b: u8) -> bool {
    0x20 <= b < 0x7f && b != 0x22 && b != 0x5c
}

/// The text of one byte between quotes: itself where it is plain, and else
/// `\x` with its two hexadecimal digits.
pub open spec fn escaped_byte(b: u8) -> Seq<char> {
    if plain(b) {
        seq![b as char]
    } else {
        seq!['\\', 'x', hex_digit(b as int / 16), hex_digit(b as int % 16)]
    }
}

/// The text of the first `n` bytes of `data` between quotes.
pub open spec fn escaped(data: Seq<u8>, n: int) -> Seq<char>
    decreases n,
{
    if n <= 0 {
        Seq::empty()
    } else {
        escaped(data, n - 1) + escaped_byte(data[n - 1])
    }
}

/// Calls `String::from_iter` of `std`.
///
/// Claims that the string holds the characters given, in their order.
#[verifier::external_body]
fn string_of(chars: &Vec<char>) -> (text: String)
    ensures
        text@ == chars@,
{
    String::from_iter(chars.iter())
}

/// The hexadecimal text of `data`.
pub fn to_hex(data: &[u8]) -> (text: String)
    ensures
        text@ == hex_text(data@),
        text@.len() == 2 * data@.len(),
{
    let mut chars: Vec<char> = Vec::new();
    put_hex(&mut chars, data);
    assert(chars@ =~= hex_text(data@));
    string_of(&chars)
}

/// The string of the characters `chars`.
pub fn to_string(chars: &Vec<char>) -> (text: String)
    ensures
        text@ == chars@,
{
    string_of(chars)
}

/// Appends the characters of `text`.
pub fn put_text(out: &mut Vec<char>, text: &str)
    ensures
        final(out)@ == old(out)@ + text@,
{
    let n = text.unicode_len();
    let mut i: usize = 0;
    while i < n
        invariant
            i <= n,
            n == text@.len(),
            out@ == old(out)@ + text@.subrange(0, i as int),
        decreases n - i,
    {
        out.push(text.get_char(i));
        i = i + 1;
        assert(out@ =~= old(out)@ + text@.subrange(0, i as int));
    }
    assert(text@.subrange(0, i as int) =~= text@);
}

/// The character of the hexadecimal digit `n`.
pub fn hex_char(n: u8) -> (c: char)
    requires
        n < 16,
    ensures
        c == hex_digit(n as int),
{
    if n < 10 {
        (48 + n) as char
    } else {
        (87 + n) as char
    }
}

/// Appends the hexadecimal text of `data`.
pub fn put_hex(out: &mut Vec<char>, data: &[u8])
    ensures
        final(out)@ == old(out)@ + hex_text(data@),
{
    let mut i: usize = 0;
    assert(hex_text(data@.subrange(0, 0)) =~= Seq::<char>::empty());
    while i < data.len()
        invariant
            i <= data@.len(),
            out@ == old(out)@ + hex_text(data@.subrange(0, i as int)),
        decreases data@.len() - i,
    {
        let b = data[i];
        out.push(hex_char(b / 16));
        out.push(hex_char(b % 16));
        assert(hex_text(data@.subrange(0, i as int + 1)) =~= hex_text(
            data@.subrange(0, i as int),
        ).push(hex_digit(b as int / 16)).push(hex_digit(b as int % 16)));
        i = i + 1;
    }
    assert(data@.subrange(0, i as int) =~= data@);
}

/// Appends the decimal text of `v`.
pub fn put_decimal(out: &mut Vec<char>, v: u64)
    ensures
        final(out)@ == old(out)@ + decimal(v as nat),
    decreases v,
{
    if v >= 10 {
        put_decimal(out, v / 10);
        out.push(hex_char((v % 10) as u8));
        assert(out@ =~= old(out)@ + decimal(v as nat));
    } else {
        out.push(hex_char(v as u8));
        assert(out@ =~= old(out)@ + decimal(v as nat));
    }
}

/// Appends the decimal text of `v`, with a minus sign where it is negative.
pub fn put_signed_decimal(out: &mut Vec<char>, v: i64)
    ensures
        final(out)@ == old(out)@ + signed_decimal(v as int),
{
    if v < 0 {
        out.push('-');
        put_decimal(out, (-(v as i128)) as u64);
        assert(out@ =~= old(out)@ + signed_decimal(v as int));
    } else {
        put_decimal(out, v as u64);
    }
}

/// Appends the text of `data` between quotes, without the quotes.
pub fn put_escaped(out: &mut Vec<char>, data: &[u8])
    ensures
        final(out)@ == old(out)@ + escaped(data@, data@.len() as int),
{
    let mut i: usize = 0;
    assert(out@ =~= old(out)@ + escaped(data@, 0));
    while i < data.len()
        invariant
            i <= data@.len(),
            out@ == old(out)@ + escaped(data@, i as int),
        decreases data@.len() - i,
    {
        let b = data[i];
        if 0x20 <= b && b < 0x7f && b != 0x22 && b != 0x5c {
            out.push(b as char);
        } else {
            out.push('\\');
            out.push('x');
            out.push(hex_char(b / 16));
            out.push(hex_char(b % 16));
        }
        i = i + 1;
        assert(out@ =~= old(out)@ + escaped(data@, i as int));
    }
}

/// Whether two strings hold the same characters.
pub fn str_equal(a: &str, b: &str) -> (same: bool)
    ensures
        same == (a@ == b@),
{
    let x = a.to_owned();
    let y = b.to_owned();
    x == y
}

} // verus!
