//! The words of the command line: commands, the kinds of data to extract,
//! the options of a signature, and numbers.

use vstd::prelude::*;
use crate::code_hash::{compute_code_hashes, page_digests};
use crate::digest::{digest_len, DigestType, hashes};
use crate::error::CodesignError;
use crate::text::{hex_text, str_equal, to_hex};

verus! {

/// The page size that code hashes are computed over where none is given.
pub const DEFAULT_PAGE_SIZE: usize = 4096;

/// What the program is asked to do.
#[derive(Clone, Copy, Debug, PartialEq, Eq, Structural)]
pub enum Command {
    ComputeCodeHashes,
    Extract,
    GenerateSelfSignedCertificate,
    Sign,
    Verify,
}

/// What to extract from the signature of a binary.
#[derive(Clone, Copy, Debug, PartialEq, Eq, Structural)]
pub enum ExtractFormat {
    Blobs,
    CmsBer,
    CmsPem,
    CmsRaw,
    Cms,
    CodeDirectoryRaw,
    CodeDirectorySerializedRaw,
    CodeDirectorySerialized,
    CodeDirectory,
    LinkeditSegmentRaw,
    RequirementsRaw,
    RequirementsSerializedRaw,
    RequirementsSerialized,
    Requirements,
    SegmentInfo,
    SignatureRaw,
    Superblob,
}

/// The command that `name` stands for.
pub open spec fn command_named(name: Seq<char>) -> Result<Command, CodesignError> {
    if name == "compute-code-hashes"@ {
        Ok(Command::ComputeCodeHashes)
    } else if name == "extract"@ {
        Ok(Command::Extract)
    } else if name == "generate-self-signed-certificate"@ {
        Ok(Command::GenerateSelfSignedCertificate)
    } else if name == "sign"@ {
        Ok(Command::Sign)
    } else if name == "verify"@ {
        Ok(Command::Verify)
    } else {
        Err(CodesignError::CliUnknownCommand)
    }
}

/// The kind of data that `name` stands for.
pub open spec fn format_named(name: Seq<char>) -> Option<ExtractFormat> {
    if name == "blobs"@ {
        Some(ExtractFormat::Blobs)
    } else if name == "cms-ber"@ {
        Some(ExtractFormat::CmsBer)
    } else if name == "cms-pem"@ {
        Some(ExtractFormat::CmsPem)
    } else if name == "cms-raw"@ {
        Some(ExtractFormat::CmsRaw)
    } else if name == "cms"@ {
        Some(ExtractFormat::Cms)
    } else if name == "code-directory-raw"@ {
        Some(ExtractFormat::CodeDirectoryRaw)
    } else if name == "code-directory-serialized-raw"@ {
        Some(ExtractFormat::CodeDirectorySerializedRaw)
    } else if name == "code-directory-serialized"@ {
        Some(ExtractFormat::CodeDirectorySerialized)
    } else if name == "code-directory"@ {
        Some(ExtractFormat::CodeDirectory)
    } else if name == "linkedit-segment-raw"@ {
        Some(ExtractFormat::LinkeditSegmentRaw)
    } else if name == "requirements-raw"@ {
        Some(ExtractFormat::RequirementsRaw)
    } else if name == "requirements-serialized-raw"@ {
        Some(ExtractFormat::RequirementsSerializedRaw)
    } else if name == "requirements-serialized"@ {
        Some(ExtractFormat::RequirementsSerialized)
    } else if name == "requirements"@ {
        Some(ExtractFormat::Requirements)
    } else if name == "segment-info"@ {
        Some(ExtractFormat::SegmentInfo)
    } else if name == "signature-raw"@ {
        Some(ExtractFormat::SignatureRaw)
    } else if name == "superblob"@ {
        Some(ExtractFormat::Superblob)
    } else {
        None
    }
}

/// The flag of a code directory that the option `name` stands for.
pub open spec fn flag_named(name: Seq<char>) -> Result<u32, CodesignError> {
    if name == "host"@ {
        Ok(0x1u32)
    } else if name == "hard"@ {
        Ok(0x100u32)
    } else if name == "kill"@ {
        Ok(0x200u32)
    } else if name == "expires"@ {
        Ok(0x400u32)
    } else if name == "library"@ {
        Ok(0x2000u32)
    } else if name == "runtime"@ {
        Ok(0x1_0000u32)
    } else if name == "linker-signed"@ {
        Ok(0x2_0000u32)
    } else {
        Err(CodesignError::CliBadArgument)
    }
}

/// Whether the character is a decimal digit.
pub open spec fn is_digit(c: char) -> bool {
    '0' <= c <= '9'
}

/// The number that the first `n` characters of `text` write in decimal.
pub open spec fn digits_value(text: Seq<char>, n: int) -> int
    decreases n,
{
    if n <= 0 {
        0
    } else {
        10 * digits_value(text, n - 1) + (text[n - 1] as int - '0' as int)
    }
}

/// Whether `text` writes a number: one decimal digit or more.
pub open spec fn is_number(text: Seq<char>) -> bool {
    text.len() > 0 && forall|i: int| 0 <= i < text.len() ==> is_digit(#[trigger] text[i])
}

/// The number that the digits `text` write, where `text` is one digit or
/// more and nothing else, and the number is one that a `u64` holds.
pub open spec fn digits_written(text: Seq<char>) -> Option<u64> {
    if is_number(text) && digits_value(text, text.len() as int) <= u64::MAX {
        Some(digits_value(text, text.len() as int) as u64)
    } else {
        None
    }
}

/// The number that `text` writes, where it writes one that a `u64` holds:
/// the digits, with or without a plus sign in front of them.
pub open spec fn number_written(text: Seq<char>) -> Option<u64> {
    if text.len() > 0 && text[0] == '+' {
        digits_written(text.subrange(1, text.len() as int))
    } else {
        digits_written(text)
    }
}

/// The value of more digits is no less.
pub proof fn lemma_digits_grow(text: Seq<char>, i: int, j: int)
    requires
        0 <= i <= j <= text.len(),
        forall|k: int| 0 <= k < j ==> is_digit(#[trigger] text[k]),
    ensures
        0 <= digits_value(text, i) <= digits_value(text, j),
    decreases j,
{
    if j > 0 {
        if i < j {
            lemma_digits_grow(text, i, j - 1);
        } else {
            lemma_digits_grow(text, i - 1, j - 1);
        }
    }
}

impl Command {
    /// The command that `name` stands for. Any other name is
    /// `CliUnknownCommand`.
    pub fn from_name(name: &str) -> (result: Result<Command, CodesignError>)
        ensures
            result == command_named(name@),
    {
        if str_equal(name, "compute-code-hashes") {
            Ok(Command::ComputeCodeHashes)
        } else if str_equal(name, "extract") {
            Ok(Command::Extract)
        } else if str_equal(name, "generate-self-signed-certificate") {
            Ok(Command::GenerateSelfSignedCertificate)
        } else if str_equal(name, "sign") {
            Ok(Command::Sign)
        } else if str_equal(name, "verify") {
            Ok(Command::Verify)
        } else {
            Err(CodesignError::CliUnknownCommand)
        }
    }
}

impl ExtractFormat {
    /// The kind of data that `name` stands for, where it stands for one.
    pub fn from_name(name: &str) -> (format: Option<ExtractFormat>)
        ensures
            format == format_named(name@),
    {
        if str_equal(name, "blobs") {
            Some(ExtractFormat::Blobs)
        } else if str_equal(name, "cms-ber") {
            Some(ExtractFormat::CmsBer)
        } else if str_equal(name, "cms-pem") {
            Some(ExtractFormat::CmsPem)
        } else if str_equal(name, "cms-raw") {
            Some(ExtractFormat::CmsRaw)
        } else if str_equal(name, "cms") {
            Some(ExtractFormat::Cms)
        } else if str_equal(name, "code-directory-raw") {
            Some(ExtractFormat::CodeDirectoryRaw)
        } else if str_equal(name, "code-directory-serialized-raw") {
            Some(ExtractFormat::CodeDirectorySerializedRaw)
        } else if str_equal(name, "code-directory-serialized") {
            Some(ExtractFormat::CodeDirectorySerialized)
        } else if str_equal(name, "code-directory") {
            Some(ExtractFormat::CodeDirectory)
        } else if str_equal(name, "linkedit-segment-raw") {
            Some(ExtractFormat::LinkeditSegmentRaw)
        } else if str_equal(name, "requirements-raw") {
            Some(ExtractFormat::RequirementsRaw)
        } else if str_equal(name, "requirements-serialized-raw") {
            Some(ExtractFormat::RequirementsSerializedRaw)
        } else if str_equal(name, "requirements-serialized") {
            Some(ExtractFormat::RequirementsSerialized)
        } else if str_equal(name, "requirements") {
            Some(ExtractFormat::Requirements)
        } else if str_equal(name, "segment-info") {
            Some(ExtractFormat::SegmentInfo)
        } else if str_equal(name, "signature-raw") {
            Some(ExtractFormat::SignatureRaw)
        } else if str_equal(name, "superblob") {
            Some(ExtractFormat::Superblob)
        } else {
            None
        }
    }
}

/// The flag of a code directory that the option `name` stands for. Any other
/// name is `CliBadArgument`.
pub fn code_signature_flag(name: &str) -> (result: Result<u32, CodesignError>)
    ensures
        result == flag_named(name@),
{
    if str_equal(name, "host") {
        Ok(0x1)
    } else if str_equal(name, "hard") {
        Ok(0x100)
    } else if str_equal(name, "kill") {
        Ok(0x200)
    } else if str_equal(name, "expires") {
        Ok(0x400)
    } else if str_equal(name, "library") {
        Ok(0x2000)
    } else if str_equal(name, "runtime") {
        Ok(0x1_0000)
    } else if str_equal(name, "linker-signed") {
        Ok(0x2_0000)
    } else {
        Err(CodesignError::CliBadArgument)
    }
}

/// Reads the digits of `text` from the character number `from` on.
fn parse_digits(text: &str, from: usize) -> (number: Option<u64>)
    requires
        from <= text@.len(),
    ensures
        number == digits_written(text@.subrange(from as int, text@.len() as int)),
{
    let n = text.unicode_len();
    let ghost rest = text@.subrange(from as int, n as int);
    if n == from {
        return None;
    }
    let mut value: u64 = 0;
    let mut i: usize = from;
    while i < n
        invariant
            from <= i <= n,
            n == text@.len(),
            rest == text@.subrange(from as int, n as int),
            forall|k: int| 0 <= k < i - from ==> is_digit(#[trigger] rest[k]),
            value == digits_value(rest, i - from),
        decreases n - i,
    {
        let c = text.get_char(i);
        assert(rest[i - from] == c);
        if !('0' <= c && c <= '9') {
            assert(!is_digit(rest[i - from]));
            return None;
        }
        let digit: u64 = (c as u32 - '0' as u32) as u64;
        if value > (0xffff_ffff_ffff_ffff - digit) / 10 {
            proof {
                assert(digits_value(rest, i - from + 1) > u64::MAX);
                if is_number(rest) {
                    lemma_digits_grow(rest, i - from + 1, n - from);
                }
            }
            return None;
        }
        value = value * 10 + digit;
        i = i + 1;
    }
    Some(value)
}

/// Reads a number in decimal: one digit or more, with or without a plus
/// sign in front of them, and nothing else, of a value that a `u64` holds.
pub fn parse_number(text: &str) -> (number: Option<u64>)
    ensures
        number == number_written(text@),
{
    let n = text.unicode_len();
    if n > 0 && text.get_char(0) == '+' {
        parse_digits(text, 1)
    } else {
        assert(text@.subrange(0, text@.len() as int) =~= text@);
        parse_digits(text, 0)
    }
}

/// The hexadecimal text of the hash of every page of `code`, for pages of
/// `page_size` bytes, or of 4096 bytes where no size is given. Every line
/// has two characters for each byte of a digest of `kind`.
///
/// Fails with `UnsupportedHash` where `kind` computes no digest, and with
/// `CliBadArgument` where the page size is zero.
pub fn code_hashes_text(code: &[u8], kind: DigestType, page_size: Option<usize>) -> (result:
    Result<Vec<String>, CodesignError>)
    ensures
        match result {
            Ok(lines) => hashes(kind) && page_size != Some(0usize) && ({
                let page: int = match page_size {
                    Some(n) => n as int,
                    None => 4096,
                };
                &&& lines@.len() == page_digests(kind, code@, page).len()
                &&& forall|i: int|
                    0 <= i < lines@.len() ==> (#[trigger] lines@[i])@ == hex_text(
                        page_digests(kind, code@, page)[i],
                    ) && lines@[i]@.len() == 2 * digest_len(kind)
            }),
            Err(e) => e == (if page_size == Some(0usize) {
                CodesignError::CliBadArgument
            } else {
                CodesignError::UnsupportedHash
            }) && (page_size == Some(0usize) || !hashes(kind)),
        },
{
    let page = match page_size {
        Some(n) => n,
        None => DEFAULT_PAGE_SIZE,
    };
    if page == 0 {
        return Err(CodesignError::CliBadArgument);
    }
    let digests = match compute_code_hashes(code, kind, page) {
        Err(e) => {
            return Err(e);
        },
        Ok(digests) => digests,
    };
    let ghost want = page_digests(kind, code@, page as int);
    let mut lines: Vec<String> = Vec::new();
    let mut i: usize = 0;
    while i < digests.len()
        invariant
            i <= digests@.len(),
            crate::code_directory::hashes_view(digests@) == want,
            lines@.len() == i,
            crate::code_directory::uniform(want, digest_len(kind) as int),
            forall|k: int|
                0 <= k < i ==> (#[trigger] lines@[k])@ == hex_text(want[k]) && lines@[k]@.len() == 2
                    * digest_len(kind),
        decreases digests@.len() - i,
    {
        assert(want[i as int] == digests@[i as int]@);
        lines.push(to_hex(digests[i].as_slice()));
        i = i + 1;
    }
    Ok(lines)
}

} // verus!
