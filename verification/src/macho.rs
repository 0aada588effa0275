//! The view of a Mach-O binary that signing needs, and the plan by which the
//! binary makes room for a signature.
//!
//! The signature lives at the end of the `__LINKEDIT` segment, which is the
//! last thing in the file. Signing keeps every byte in front of the signature
//! but three records of the header: the counts of load commands, the sizes of
//! the `__LINKEDIT` segment command, and the `LC_CODE_SIGNATURE` command that
//! says where the signature is.

use vstd::prelude::*;
use crate::error::CodesignError;
use crate::wire::{byte_of, word_of, zeros};

verus! {

/// The load command that names the code signature.
pub const LC_CODE_SIGNATURE: u32 = 0x1d;

/// The load command of a segment of a 32-bit binary.
pub const LC_SEGMENT: u32 = 0x1;

/// The load command of a segment of a 64-bit binary.
pub const LC_SEGMENT_64: u32 = 0x19;

/// The size of an `LC_CODE_SIGNATURE` command.
pub const CODE_SIGNATURE_COMMAND_SIZE: u32 = 16;

/// The page size to which the size of `__LINKEDIT` in memory is rounded up.
pub const SEGMENT_PAGE_SIZE: u64 = 0x1000;

/// A segment of the binary.
#[derive(Debug, PartialEq, Eq)]
pub struct Segment {
    /// The sixteen bytes of the name, padded with zero bytes.
    pub name: Vec<u8>,
    pub fileoff: u64,
    pub filesize: u64,
    pub vmaddr: u64,
    pub vmsize: u64,
}

/// A segment of the binary as contracts speak of it.
pub ghost struct SegmentView {
    pub name: Seq<u8>,
    pub fileoff: u64,
    pub filesize: u64,
    pub vmaddr: u64,
    pub vmsize: u64,
}

impl View for Segment {
    type V = SegmentView;

    open spec fn view(&self) -> SegmentView {
        SegmentView {
            name: self.name@,
            fileoff: self.fileoff,
            filesize: self.filesize,
            vmaddr: self.vmaddr,
            vmsize: self.vmsize,
        }
    }
}

/// The segments as contracts speak of them, in their order.
pub open spec fn segments_view(segments: Seq<Segment>) -> Seq<SegmentView> {
    Seq::new(segments.len(), |i: int| segments[i]@)
}

/// Where an existing signature lies and which load command names it.
#[derive(Clone, Copy, Debug, PartialEq, Eq, Structural)]
pub struct SignatureRegion {
    /// The file offset of the first byte of the signature.
    pub offset: u32,
    /// The number of bytes of the signature.
    pub size: u32,
    /// The file offset of the `LC_CODE_SIGNATURE` command.
    pub command_offset: u32,
}

/// The numbers of a Mach-O binary on which the layout of a signature depends.
#[derive(Clone, Copy, Debug, PartialEq, Eq, Structural)]
pub struct MachoShape {
    /// The length of the file.
    pub file_len: u32,
    pub is_64: bool,
    pub little_endian: bool,
    /// The number of load commands.
    pub ncmds: u32,
    /// The number of bytes of the load commands.
    pub sizeofcmds: u32,
    /// The file offset up to which load commands may grow: the start of the
    /// first section's content.
    pub commands_limit: u32,
    /// The file offset of the segment command of `__LINKEDIT`.
    pub linkedit_command_offset: u32,
    pub linkedit_fileoff: u32,
    pub linkedit_filesize: u32,
    pub linkedit_vmsize: u64,
    pub signature: Option<SignatureRegion>,
}

/// The plan of a signed file: where the signature goes and what the header
/// says of it.
#[derive(Clone, Copy, Debug, PartialEq, Eq, Structural)]
pub struct WritableLayout {
    /// The file offset at which the signature begins: the code limit.
    pub code_limit: u32,
    /// The number of bytes reserved for the signature.
    pub signature_size: u32,
    /// The length of the signed file.
    pub file_len: u32,
    /// The size of `__LINKEDIT` in the file.
    pub linkedit_filesize: u32,
    /// The size of `__LINKEDIT` in memory.
    pub linkedit_vmsize: u64,
    /// The file offset of the `LC_CODE_SIGNATURE` command.
    pub command_offset: u32,
    /// Whether the command is added behind the existing load commands.
    pub command_is_new: bool,
    pub ncmds: u32,
    pub sizeofcmds: u32,
}

/// The number of bytes of the Mach-O header.
pub open spec fn header_size(is_64: bool) -> int {
    if is_64 {
        32
    } else {
        28
    }
}

/// The number of bytes of a segment command up to and with its file size.
pub open spec fn segment_command_extent(is_64: bool) -> int {
    if is_64 {
        56
    } else {
        40
    }
}

/// Whether the numbers describe a binary that can take a signature: every
/// load command has room for its own header, the load commands lie behind the
/// Mach-O header and in front of the content, `__LINKEDIT` ends at the end of
/// the file, and an existing signature lies at the end of `__LINKEDIT`.
pub open spec fn shape_valid(shape: MachoShape) -> bool {
    let commands_end = header_size(shape.is_64) + shape.sizeofcmds;
    &&& 8 * shape.ncmds <= shape.sizeofcmds
    &&& commands_end <= shape.commands_limit <= shape.linkedit_fileoff
    &&& header_size(shape.is_64) <= shape.linkedit_command_offset
    &&& shape.linkedit_command_offset + segment_command_extent(shape.is_64) <= commands_end
    &&& shape.linkedit_fileoff + shape.linkedit_filesize == shape.file_len
    &&& shape.signature matches Some(region) ==> {
        &&& region.offset + region.size == shape.file_len
        &&& shape.linkedit_fileoff <= region.offset
        &&& header_size(shape.is_64) <= region.command_offset
        &&& region.command_offset + 16 <= commands_end
        &&& (region.command_offset + 16 <= shape.linkedit_command_offset
            || shape.linkedit_command_offset + segment_command_extent(shape.is_64)
            <= region.command_offset)
    }
}

/// The file offset at which a signature begins: where the existing one
/// begins, or the end of the file.
pub open spec fn code_limit_of(shape: MachoShape) -> u32 {
    match shape.signature {
        Some(region) => region.offset,
        None => shape.file_len,
    }
}

/// `n` rounded up to a multiple of the segment page size.
pub open spec fn page_aligned(n: int) -> int {
    ((n + 0xfff) / 0x1000) * 0x1000
}

/// What planning a signature of `size` bytes gives.
///
/// `LoadCommandOverflow` where a command must be added and the sixteen bytes
/// behind the load commands are not free; `BlobTooLarge` where the signed
/// file would be longer than a `u32` counts.
pub open spec fn planned(shape: MachoShape, size: u32) -> Result<WritableLayout, CodesignError> {
    let limit = code_limit_of(shape);
    let commands_end = header_size(shape.is_64) + shape.sizeofcmds;
    if shape.signature is None && commands_end + 16 > shape.commands_limit {
        Err(CodesignError::LoadCommandOverflow)
    } else if limit + size > u32::MAX {
        Err(CodesignError::BlobTooLarge)
    } else {
        Ok(
            WritableLayout {
                code_limit: limit,
                signature_size: size,
                file_len: (limit + size) as u32,
                linkedit_filesize: (limit + size - shape.linkedit_fileoff) as u32,
                linkedit_vmsize: page_aligned(limit + size - shape.linkedit_fileoff) as u64,
                command_offset: match shape.signature {
                    Some(region) => region.command_offset,
                    None => commands_end as u32,
                },
                command_is_new: shape.signature is None,
                ncmds: if shape.signature is None {
                    (shape.ncmds + 1) as u32
                } else {
                    shape.ncmds
                },
                sizeofcmds: if shape.signature is None {
                    (shape.sizeofcmds + 16) as u32
                } else {
                    shape.sizeofcmds
                },
            },
        )
    }
}

/// The four bytes that store `v` in the byte order of the binary.
pub open spec fn word_bytes(v: u32, little: bool) -> Seq<u8> {
    if little {
        seq![byte_of(v, 3), byte_of(v, 2), byte_of(v, 1), byte_of(v, 0)]
    } else {
        seq![byte_of(v, 0), byte_of(v, 1), byte_of(v, 2), byte_of(v, 3)]
    }
}

/// The integer that the four bytes of `s` from `at` store in the byte order
/// of the binary.
pub open spec fn word_at(s: Seq<u8>, at: int, little: bool) -> u32 {
    if little {
        word_of(s[at + 3], s[at + 2], s[at + 1], s[at])
    } else {
        word_of(s[at], s[at + 1], s[at + 2], s[at + 3])
    }
}

/// The eight bytes that store `v` in the byte order of the binary.
pub open spec fn long_bytes(v: u64, little: bool) -> Seq<u8> {
    if little {
        word_bytes(crate::wire::lower_half(v), little) + word_bytes(
            crate::wire::upper_half(v),
            little,
        )
    } else {
        word_bytes(crate::wire::upper_half(v), little) + word_bytes(
            crate::wire::lower_half(v),
            little,
        )
    }
}

/// `s` with the bytes from `at` replaced by `bytes`.
pub open spec fn overwritten(s: Seq<u8>, at: int, bytes: Seq<u8>) -> Seq<u8> {
    s.subrange(0, at) + bytes + s.subrange(at + bytes.len(), s.len() as int)
}

/// The bytes of an `LC_CODE_SIGNATURE` command.
pub open spec fn signature_command(layout: WritableLayout, little: bool) -> Seq<u8> {
    word_bytes(LC_CODE_SIGNATURE, little) + word_bytes(CODE_SIGNATURE_COMMAND_SIZE, little)
        + word_bytes(layout.code_limit, little) + word_bytes(layout.signature_size, little)
}

/// The sizes of the `__LINKEDIT` segment command: in memory, then in the
/// file, each as wide as the binary's addresses. They are stored with the
/// file offset between them, which stays.
pub open spec fn with_linkedit_sizes(s: Seq<u8>, shape: MachoShape, layout: WritableLayout) -> Seq<
    u8,
> {
    let at = shape.linkedit_command_offset as int;
    let little = shape.little_endian;
    if shape.is_64 {
        overwritten(
            overwritten(s, at + 32, long_bytes(layout.linkedit_vmsize, little)),
            at + 48,
            long_bytes(layout.linkedit_filesize as u64, little),
        )
    } else {
        overwritten(
            overwritten(s, at + 28, word_bytes(layout.linkedit_vmsize as u32, little)),
            at + 36,
            word_bytes(layout.linkedit_filesize, little),
        )
    }
}

/// The bytes of the signed file in front of the signature: the bytes of the
/// binary up to the code limit, with the three records of the header
/// rewritten for the signature that `layout` plans.
pub open spec fn signed_code(data: Seq<u8>, shape: MachoShape, layout: WritableLayout) -> Seq<u8> {
    let little = shape.little_endian;
    let counted = overwritten(
        data.subrange(0, layout.code_limit as int),
        16,
        word_bytes(layout.ncmds, little) + word_bytes(layout.sizeofcmds, little),
    );
    let sized = with_linkedit_sizes(counted, shape, layout);
    overwritten(sized, layout.command_offset as int, signature_command(layout, little))
}

/// The signed file: the rewritten bytes in front of the signature, the
/// signature, and zero bytes up to the size reserved for it.
pub open spec fn signed_file(
    data: Seq<u8>,
    shape: MachoShape,
    layout: WritableLayout,
    signature: Seq<u8>,
) -> Seq<u8> {
    signed_code(data, shape, layout) + signature + zeros(
        (layout.signature_size - signature.len()) as nat,
    )
}

} // verus!
