//! Planning the layout of a signed binary and writing the signed file.

use vstd::prelude::*;
use crate::error::CodesignError;
use crate::macho::{
    code_limit_of, CODE_SIGNATURE_COMMAND_SIZE, header_size, LC_CODE_SIGNATURE, long_bytes,
    MachoShape, overwritten, planned, shape_valid, signature_command, signed_code, signed_file,
    word_at, word_bytes, WritableLayout,
};
use crate::wire::{
    byte_of, lemma_word_of_bytes, lower_half, put_bytes, put_zeros, upper_half, zeros,
};

verus! {

/// What a plan says of the signed file: the signature begins at the code
/// limit, which is where an existing signature began or where the file
/// ended; the file ends with the signature; `__LINKEDIT` ends with the file
/// and fits its size in memory.
pub proof fn lemma_plan(shape: MachoShape, size: u32)
    requires
        shape_valid(shape),
        planned(shape, size) is Ok,
    ensures
        ({
            let layout = planned(shape, size)->Ok_0;
            &&& layout.code_limit == code_limit_of(shape)
            &&& layout.code_limit <= shape.file_len
            &&& layout.signature_size == size
            &&& layout.file_len == layout.code_limit + size
            &&& layout.code_limit <= layout.file_len
            &&& shape.linkedit_fileoff + layout.linkedit_filesize == layout.file_len
            &&& layout.linkedit_filesize <= layout.linkedit_vmsize
            &&& layout.linkedit_vmsize % 0x1000 == 0
            &&& layout.command_offset + 16 <= header_size(shape.is_64) + layout.sizeofcmds
            &&& header_size(shape.is_64) + layout.sizeofcmds <= layout.code_limit
        }),
{
}

/// A signature smaller than the one it replaces makes the file and
/// `__LINKEDIT` shrink by the difference; a larger one makes them grow by it.
pub proof fn lemma_plan_resizes(shape: MachoShape, size: u32)
    requires
        shape_valid(shape),
        planned(shape, size) is Ok,
    ensures
        ({
            let layout = planned(shape, size)->Ok_0;
            let old_size: int = match shape.signature {
                Some(region) => region.size as int,
                None => 0,
            };
            &&& layout.file_len - shape.file_len == size - old_size
            &&& layout.linkedit_filesize - shape.linkedit_filesize == size - old_size
        }),
{
}

/// The signed bytes in front of the signature are as many as the code limit,
/// and their `LC_CODE_SIGNATURE` command names the code limit as the offset
/// of the signature and the reserved size as its size.
pub proof fn lemma_signed_code(data: Seq<u8>, shape: MachoShape, size: u32)
    requires
        shape_valid(shape),
        data.len() == shape.file_len,
        planned(shape, size) is Ok,
    ensures
        ({
            let layout = planned(shape, size)->Ok_0;
            let code = signed_code(data, shape, layout);
            let at = layout.command_offset as int;
            &&& code.len() == layout.code_limit
            &&& word_at(code, at, shape.little_endian) == LC_CODE_SIGNATURE
            &&& word_at(code, at + 4, shape.little_endian) == 16
            &&& word_at(code, at + 8, shape.little_endian) == layout.code_limit
            &&& word_at(code, at + 12, shape.little_endian) == layout.signature_size
        }),
{
    let layout = planned(shape, size)->Ok_0;
    let little = shape.little_endian;
    let code = signed_code(data, shape, layout);
    let at = layout.command_offset as int;
    let command = signature_command(layout, little);
    assert(command.len() == 16);
    assert(code.len() == layout.code_limit);
    assert(code.subrange(at, at + 16) =~= command);
    assert forall|k: int| 0 <= k < 16 implies code[at + k] == command[k] by {
        assert(code.subrange(at, at + 16)[k] == code[at + k]);
    }
    lemma_word_of_bytes(LC_CODE_SIGNATURE);
    lemma_word_of_bytes(CODE_SIGNATURE_COMMAND_SIZE);
    lemma_word_of_bytes(layout.code_limit);
    lemma_word_of_bytes(layout.signature_size);
    assert(code[at] == command[0] && code[at + 1] == command[1] && code[at + 2] == command[2]
        && code[at + 3] == command[3]);
    assert(code[at + 4] == command[4] && code[at + 5] == command[5] && code[at + 6]
        == command[6] && code[at + 7] == command[7]);
    assert(code[at + 8] == command[8] && code[at + 9] == command[9] && code[at + 10]
        == command[10] && code[at + 11] == command[11]);
    assert(code[at + 12] == command[12] && code[at + 13] == command[13] && code[at + 14]
        == command[14] && code[at + 15] == command[15]);
}

/// Whether the byte at `i` belongs to one of the three records of the header
/// that signing rewrites.
pub open spec fn rewritten(shape: MachoShape, layout: WritableLayout, i: int) -> bool {
    let segment = shape.linkedit_command_offset as int;
    ||| 16 <= i < 24
    ||| layout.command_offset <= i < layout.command_offset + 16
    ||| shape.is_64 && segment + 32 <= i < segment + 40
    ||| shape.is_64 && segment + 48 <= i < segment + 56
    ||| !shape.is_64 && segment + 28 <= i < segment + 32
    ||| !shape.is_64 && segment + 36 <= i < segment + 40
}

/// Signing keeps every byte in front of the signature that does not belong
/// to the three rewritten records.
pub proof fn lemma_signed_code_keeps(data: Seq<u8>, shape: MachoShape, size: u32, i: int)
    requires
        shape_valid(shape),
        data.len() == shape.file_len,
        planned(shape, size) is Ok,
        0 <= i < (planned(shape, size)->Ok_0).code_limit,
        !rewritten(shape, planned(shape, size)->Ok_0, i),
    ensures
        signed_code(data, shape, planned(shape, size)->Ok_0)[i] == data[i],
{
    let layout = planned(shape, size)->Ok_0;
    let little = shape.little_endian;
    assert(word_bytes(layout.ncmds, little).len() == 4);
    assert(long_bytes(layout.linkedit_vmsize, little).len() == 8);
    assert(long_bytes(layout.linkedit_filesize as u64, little).len() == 8);
    assert(signature_command(layout, little).len() == 16);
}

/// The signed file has the planned length, starts with the signed code, and
/// holds the signature at the code limit, followed by zero bytes only.
pub proof fn lemma_signed_file(
    data: Seq<u8>,
    shape: MachoShape,
    size: u32,
    signature: Seq<u8>,
)
    requires
        shape_valid(shape),
        data.len() == shape.file_len,
        planned(shape, size) is Ok,
        signature.len() <= size,
    ensures
        ({
            let layout = planned(shape, size)->Ok_0;
            let file = signed_file(data, shape, layout, signature);
            let limit = layout.code_limit as int;
            &&& file.len() == layout.file_len
            &&& limit <= file.len()
            &&& file.subrange(0, limit) == signed_code(data, shape, layout)
            &&& file.subrange(limit, limit + signature.len()) == signature
            &&& forall|k: int| limit + signature.len() <= k < file.len() ==> file[k] == 0
        }),
{
    let layout = planned(shape, size)->Ok_0;
    let file = signed_file(data, shape, layout, signature);
    let limit = layout.code_limit as int;
    lemma_signed_code(data, shape, size);
    assert(file.subrange(0, limit) =~= signed_code(data, shape, layout));
    assert(file.subrange(limit, limit + signature.len()) =~= signature);
}

fn word_to_bytes(v: u32, little: bool) -> (bytes: Vec<u8>)
    ensures
        bytes@ == word_bytes(v, little),
{
    proof {
        reveal(byte_of);
    }
    let b0 = (v / 0x100_0000) as u8;
    let b1 = ((v / 0x1_0000) % 0x100) as u8;
    let b2 = ((v / 0x100) % 0x100) as u8;
    let b3 = (v % 0x100) as u8;
    let bytes: Vec<u8> = if little {
        vec![b3, b2, b1, b0]
    } else {
        vec![b0, b1, b2, b3]
    };
    assert(bytes@ =~= word_bytes(v, little));
    bytes
}

fn long_to_bytes(v: u64, little: bool) -> (bytes: Vec<u8>)
    ensures
        bytes@ == long_bytes(v, little),
{
    proof {
        reveal(upper_half);
        reveal(lower_half);
    }
    let upper = word_to_bytes((v / 0x1_0000_0000) as u32, little);
    let lower = word_to_bytes((v % 0x1_0000_0000) as u32, little);
    let mut bytes: Vec<u8> = Vec::new();
    if little {
        put_bytes(&mut bytes, lower.as_slice());
        put_bytes(&mut bytes, upper.as_slice());
    } else {
        put_bytes(&mut bytes, upper.as_slice());
        put_bytes(&mut bytes, lower.as_slice());
    }
    assert(bytes@ =~= long_bytes(v, little));
    bytes
}

fn overwrite(out: &mut Vec<u8>, at: usize, bytes: &Vec<u8>)
    requires
        at + bytes@.len() <= old(out)@.len(),
    ensures
        final(out)@ == overwritten(old(out)@, at as int, bytes@),
        final(out)@.len() == old(out)@.len(),
{
    let total = out.len();
    let mut i: usize = 0;
    while i < bytes.len()
        invariant
            i <= bytes@.len(),
            at + bytes@.len() <= out@.len(),
            out@.len() == total,
            out@.len() == old(out)@.len(),
            out@ == overwritten(old(out)@, at as int, bytes@.subrange(0, i as int)),
        decreases bytes@.len() - i,
    {
        out.set(at + i, bytes[i]);
        i = i + 1;
        assert(out@ =~= overwritten(old(out)@, at as int, bytes@.subrange(0, i as int)));
    }
    assert(bytes@.subrange(0, i as int) =~= bytes@);
}

impl MachoShape {
    /// Whether the numbers describe a binary that can take a signature.
    pub fn is_valid(&self) -> (ok: bool)
        ensures
            ok == shape_valid(*self),
    {
        let header: u64 = if self.is_64 {
            32
        } else {
            28
        };
        let extent: u64 = if self.is_64 {
            56
        } else {
            40
        };
        let commands_end: u64 = header + self.sizeofcmds as u64;
        let segment: u64 = self.linkedit_command_offset as u64;
        if 8 * (self.ncmds as u64) > self.sizeofcmds as u64 {
            return false;
        }
        if !(commands_end <= self.commands_limit as u64 && self.commands_limit
            <= self.linkedit_fileoff) {
            return false;
        }
        if !(header <= segment && segment + extent <= commands_end) {
            return false;
        }
        if self.linkedit_fileoff as u64 + self.linkedit_filesize as u64 != self.file_len as u64 {
            return false;
        }
        match self.signature {
            None => true,
            Some(region) => {
                let command: u64 = region.command_offset as u64;
                region.offset as u64 + region.size as u64 == self.file_len as u64
                    && self.linkedit_fileoff <= region.offset && header <= command && command + 16
                    <= commands_end && (command + 16 <= segment || segment + extent <= command)
            },
        }
    }

    /// The file offset at which a signature begins: where the existing one
    /// begins, or the end of the file.
    pub fn code_limit(&self) -> (limit: u32)
        ensures
            limit == code_limit_of(*self),
    {
        match self.signature {
            Some(region) => region.offset,
            None => self.file_len,
        }
    }

    /// Plans the signed file for a signature of `size` bytes.
    ///
    /// The signature begins where an existing one began, or at the end of
    /// the file. `__LINKEDIT` is resized to end with the signature, and its
    /// size in memory is the new size rounded up to a page. The
    /// `LC_CODE_SIGNATURE` command is updated where it stands, or added
    /// behind the load commands.
    ///
    /// Fails with `LoadCommandOverflow` where a command must be added and
    /// there is no room for it, and with `BlobTooLarge` where the signed
    /// file would be longer than a `u32` counts.
    pub fn prepare_for_signature(&self, size: u32) -> (result: Result<
        WritableLayout,
        CodesignError,
    >)
        requires
            shape_valid(*self),
        ensures
            result == planned(*self, size),
    {
        let limit = self.code_limit();
        let header: u64 = if self.is_64 {
            32
        } else {
            28
        };
        let commands_end: u64 = header + self.sizeofcmds as u64;
        if self.signature.is_none() && commands_end + 16 > self.commands_limit as u64 {
            return Err(CodesignError::LoadCommandOverflow);
        }
        let file_len: u64 = limit as u64 + size as u64;
        if file_len > 0xffff_ffff {
            return Err(CodesignError::BlobTooLarge);
        }
        let filesize: u64 = file_len - self.linkedit_fileoff as u64;
        let vmsize: u64 = ((filesize + 0xfff) / 0x1000) * 0x1000;
        let layout = match self.signature {
            Some(region) => WritableLayout {
                code_limit: limit,
                signature_size: size,
                file_len: file_len as u32,
                linkedit_filesize: filesize as u32,
                linkedit_vmsize: vmsize,
                command_offset: region.command_offset,
                command_is_new: false,
                ncmds: self.ncmds,
                sizeofcmds: self.sizeofcmds,
            },
            None => {
                WritableLayout {
                    code_limit: limit,
                    signature_size: size,
                    file_len: file_len as u32,
                    linkedit_filesize: filesize as u32,
                    linkedit_vmsize: vmsize,
                    command_offset: commands_end as u32,
                    command_is_new: true,
                    ncmds: self.ncmds + 1,
                    sizeofcmds: self.sizeofcmds + 16,
                }
            },
        };
        Ok(layout)
    }
}

/// Writes the bytes of the signed file in front of the signature: the bytes
/// of the binary up to the code limit, with the counts of load commands, the
/// sizes of `__LINKEDIT` and the `LC_CODE_SIGNATURE` command rewritten.
pub fn write_signed_code(data: &[u8], shape: &MachoShape, layout: &WritableLayout) -> (code: Vec<
    u8,
>)
    requires
        shape_valid(*shape),
        data@.len() == shape.file_len,
        planned(*shape, layout.signature_size) == Ok::<WritableLayout, CodesignError>(*layout),
    ensures
        code@ == signed_code(data@, *shape, *layout),
        code@.len() == layout.code_limit,
{
    let little = shape.little_endian;
    let mut out: Vec<u8> = Vec::new();
    put_bytes(&mut out, vstd::slice::slice_subrange(data, 0, layout.code_limit as usize));
    assert(out@ =~= data@.subrange(0, layout.code_limit as int));
    let mut counts = word_to_bytes(layout.ncmds, little);
    let sizes = word_to_bytes(layout.sizeofcmds, little);
    put_bytes(&mut counts, sizes.as_slice());
    overwrite(&mut out, 16, &counts);
    let segment = shape.linkedit_command_offset as usize;
    if shape.is_64 {
        overwrite(&mut out, segment + 32, &long_to_bytes(layout.linkedit_vmsize, little));
        overwrite(&mut out, segment + 48, &long_to_bytes(layout.linkedit_filesize as u64, little));
    } else {
        overwrite(&mut out, segment + 28, &word_to_bytes(layout.linkedit_vmsize as u32, little));
        overwrite(&mut out, segment + 36, &word_to_bytes(layout.linkedit_filesize, little));
    }
    let mut command = word_to_bytes(LC_CODE_SIGNATURE, little);
    put_bytes(&mut command, word_to_bytes(CODE_SIGNATURE_COMMAND_SIZE, little).as_slice());
    put_bytes(&mut command, word_to_bytes(layout.code_limit, little).as_slice());
    put_bytes(&mut command, word_to_bytes(layout.signature_size, little).as_slice());
    overwrite(&mut out, layout.command_offset as usize, &command);
    out
}

/// Appends the signature to the signed code, and zero bytes up to the size
/// that the layout reserves for it.
pub fn write_signed_file(code: Vec<u8>, layout: &WritableLayout, signature: &[u8]) -> (file: Vec<
    u8,
>)
    requires
        signature@.len() <= layout.signature_size,
    ensures
        file@ == code@ + signature@ + zeros((layout.signature_size - signature@.len()) as nat),
        file@.len() == code@.len() + layout.signature_size,
{
    let mut out = code;
    put_bytes(&mut out, signature);
    put_zeros(&mut out, layout.signature_size as usize - signature.len());
    out
}

} // verus!
