//! Loading the view of a Mach-O binary from its bytes.
//!
//! The readers of the `goblin` crate tell the kind of the binary by its
//! magic number and read its load commands, one at a time, with the segment
//! and the sections of a segment command. This module walks the load
//! commands with them, keeps what signing reads, and decides from these
//! records where the signature of the binary is and whether the binary can
//! take a new one. A binary that cannot still has a view: what is in it can
//! be looked at.
//!
//! Only these readers are relied on. What the parser of a whole file of
//! that crate reads beyond them, the symbol table, the names of libraries
//! and the entry point, is not read here, so a binary that is broken in one
//! of these alone has a view.

use goblin::container::Container::{Big, Little};
use goblin::container::{Ctx, Endian};
use goblin::mach::load_command::CommandVariant::{Segment32, Segment64};
use goblin::mach::load_command::LoadCommand;
use goblin::mach::segment;
use vstd::prelude::*;
use vstd::slice::slice_subrange;
use crate::error::CodesignError;
use crate::macho::{
    header_size, LC_CODE_SIGNATURE, LC_SEGMENT, LC_SEGMENT_64, MachoShape, planned, Segment,
    segments_view, SegmentView, shape_valid, SignatureRegion, word_at, WritableLayout,
};
use crate::universal::FAT_MAGIC;
use crate::wire::{be32_at, bytes_equal, read_be32, word_of};

verus! {

/// A load command: where it stands, which it is and how long it is.
#[derive(Clone, Copy, Debug, PartialEq, Eq, Structural)]
pub struct LoadCommandRecord {
    pub offset: u64,
    pub cmd: u32,
    pub cmdsize: u32,
}

/// What is read from the header and the load commands of a binary.
#[derive(Debug, PartialEq, Eq)]
pub struct MachoRecords {
    pub is_64: bool,
    pub little_endian: bool,
    pub ncmds: u32,
    pub sizeofcmds: u32,
    /// The segments, in the order of their load commands.
    pub segments: Vec<Segment>,
    pub commands: Vec<LoadCommandRecord>,
    /// The file offsets of the sections, segment by segment.
    pub section_offsets: Vec<u32>,
}

/// The records of a binary as contracts speak of them.
pub ghost struct RecordsView {
    pub is_64: bool,
    pub little_endian: bool,
    pub ncmds: u32,
    pub sizeofcmds: u32,
    pub segments: Seq<SegmentView>,
    pub commands: Seq<LoadCommandRecord>,
    pub section_offsets: Seq<u32>,
}

impl View for MachoRecords {
    type V = RecordsView;

    open spec fn view(&self) -> RecordsView {
        RecordsView {
            is_64: self.is_64,
            little_endian: self.little_endian,
            ncmds: self.ncmds,
            sizeofcmds: self.sizeofcmds,
            segments: segments_view(self.segments@),
            commands: self.commands@,
            section_offsets: self.section_offsets@,
        }
    }
}

/// One binary within a universal binary, as the header of the universal
/// binary records it.
#[derive(Clone, Copy, Debug, PartialEq, Eq, Structural)]
pub struct FatSlice {
    pub cputype: u32,
    pub cpusubtype: u32,
    /// The file offset of the binary.
    pub offset: u32,
    /// The number of bytes of the binary.
    pub size: u32,
    /// The binary logarithm of the alignment of the offset.
    pub align: u32,
}

/// Whether a file holds one binary or several.
#[derive(Debug, PartialEq, Eq)]
pub enum Container {
    /// One Mach-O binary.
    Thin,
    /// A universal binary, with its slices in the order of its header.
    Fat(Vec<FatSlice>),
}

/// A container as contracts speak of it.
pub ghost enum ContainerView {
    Thin,
    Fat(Seq<FatSlice>),
}

impl View for Container {
    type V = ContainerView;

    open spec fn view(&self) -> ContainerView {
        match self {
            Container::Thin => ContainerView::Thin,
            Container::Fat(slices) => ContainerView::Fat(slices@),
        }
    }
}

/// The view of a Mach-O binary.
///
/// Every binary whose load commands can be read has a view. Where the
/// binary can take a signature, `shape` holds the numbers on which the
/// layout of the signature depends: the signature region, where there is
/// one, then lies at the end of `__LINKEDIT`, and `__LINKEDIT` ends at the
/// end of the file. Where it cannot, `shape` holds the error with which
/// signing the binary fails.
#[derive(Debug, PartialEq, Eq)]
pub struct MachoView {
    pub data: Vec<u8>,
    pub segments: Vec<Segment>,
    /// The index of the `__LINKEDIT` segment among the segments, where the
    /// binary has one.
    pub linkedit_index: Option<usize>,
    /// What the `LC_CODE_SIGNATURE` command says of the signature, where the
    /// binary has the command.
    pub signature: Option<SignatureRegion>,
    pub shape: Result<MachoShape, CodesignError>,
}

/// The kind of the Mach-O binary that `data` begins: whether it is a 64-bit
/// one and whether it is stored in little-endian byte order, by the magic
/// number that its first four bytes hold; none where they hold none of the
/// four.
pub open spec fn magic_kind(data: Seq<u8>) -> Option<(bool, bool)> {
    if data.len() < 4 {
        None
    } else if be32_at(data, 0) == 0xfeed_face {
        Some((false, false))
    } else if be32_at(data, 0) == 0xcefa_edfe {
        Some((false, true))
    } else if be32_at(data, 0) == 0xfeed_facf {
        Some((true, false))
    } else if be32_at(data, 0) == 0xcffa_edfe {
        Some((true, true))
    } else {
        None
    }
}

/// The record number `i` of the header of a universal binary: five
/// big-endian words from the byte `8 + 20 * i` on.
pub open spec fn fat_slice_at(data: Seq<u8>, i: int) -> FatSlice {
    FatSlice {
        cputype: be32_at(data, 8 + 20 * i),
        cpusubtype: be32_at(data, 12 + 20 * i),
        offset: be32_at(data, 16 + 20 * i),
        size: be32_at(data, 20 + 20 * i),
        align: be32_at(data, 24 + 20 * i),
    }
}

/// The records of the binaries of the universal binary `data`: as many as
/// the word at byte four counts, where the file holds that many.
pub open spec fn fat_arches_of(data: Seq<u8>) -> Option<Seq<FatSlice>> {
    if data.len() < 8 || 8 + 20 * be32_at(data, 4) > data.len() {
        None
    } else {
        Some(Seq::new(be32_at(data, 4) as nat, |i: int| fat_slice_at(data, i)))
    }
}

/// The number and the size of the load command that
/// `goblin::mach::load_command::LoadCommand::parse` reads from `data` at
/// `offset`, where it reads one.
pub uninterp spec fn parsed_command(data: Seq<u8>, offset: usize, little: bool) -> Option<
    (u32, u32),
>;

/// The segment of the segment command in `data` at `offset`, as
/// `goblin::mach::segment::Segment::from_32` or `from_64` gives it, with the
/// file offsets of its sections as `goblin::mach::segment::Segment::sections`
/// gives them; none where one of them refuses.
pub uninterp spec fn parsed_segment(data: Seq<u8>, offset: usize, is_64: bool, little: bool) -> Option<
    (SegmentView, Seq<u32>),
>;

/// Calls `goblin::mach::parse_magic_and_ctx` at offset zero.
///
/// Claims that the call reads the first four bytes as a big-endian word and
/// knows four magic numbers: `feedface` and `feedfacf` for a binary of 32
/// and of 64 bits in big-endian byte order, and the same with their bytes
/// reversed for little-endian byte order.
#[verifier::external_body]
fn read_magic(data: &[u8]) -> (kind: Option<(bool, bool)>)
    ensures
        kind == magic_kind(data@),
{
    let ctx = goblin::mach::parse_magic_and_ctx(data, 0).ok()?.1?;
    Some((ctx.container.is_big(), ctx.le.is_little()))
}

/// Calls `goblin::mach::load_command::LoadCommand::parse`.
///
/// Claims that the result is fixed by the bytes, the offset and the byte
/// order.
#[verifier::external_body]
fn read_command(data: &[u8], offset: usize, little: bool) -> (command: Option<(u32, u32)>)
    ensures
        command == parsed_command(data@, offset, little),
{
    let read = LoadCommand::parse(data, &mut { offset }, Endian::from(little)).ok()?;
    Some((read.command.cmd(), read.command.cmdsize() as u32))
}

/// Calls `goblin::mach::load_command::LoadCommand::parse` for the segment
/// command at `offset`, `goblin::mach::segment::Segment::from_32` or
/// `from_64` on it, and `goblin::mach::segment::Segment::sections` on the
/// segment.
///
/// Claims that the result is fixed by the bytes, the offset and the kind of
/// the binary. The segment is copied field by field.
#[verifier::external_body]
fn read_segment(data: &[u8], offset: usize, is_64: bool, little: bool) -> (segment: Option<
    (Segment, Vec<u32>),
>)
    ensures
        match segment {
            Some((read, sections)) => parsed_segment(data@, offset, is_64, little) == Some(
                (read@, sections@),
            ),
            None => parsed_segment(data@, offset, is_64, little) is None,
        },
{
    let ctx = Ctx::new(if is_64 { Big } else { Little }, Endian::from(little));
    let s = match LoadCommand::parse(data, &mut { offset }, ctx.le).ok()?.command {
        Segment32(c) => segment::Segment::from_32(data, &c, offset, ctx).ok()?,
        Segment64(c) => segment::Segment::from_64(data, &c, offset, ctx).ok()?,
        _ => return None,
    };
    let sections = s.sections().ok()?.iter().map(|(section, _)| section.offset).collect();
    let name = s.segname.to_vec();
    Some((Segment { name, fileoff: s.fileoff, filesize: s.filesize, vmaddr: s.vmaddr, vmsize: s.vmsize }, sections))
}

/// Calls `goblin::mach::MultiArch::new` and `goblin::mach::MultiArch::arches`.
///
/// Claims that the calls read the count of records as the big-endian word
/// at byte four, refuse a file that does not hold that many records of
/// twenty bytes behind its eight bytes of header, and read every record as
/// five big-endian words. Each record is copied field by field.
#[verifier::external_body]
fn read_fat_arches(data: &[u8]) -> (arches: Option<Vec<FatSlice>>)
    ensures
        match arches {
            Some(list) => fat_arches_of(data@) == Some(list@),
            None => fat_arches_of(data@) is None,
        },
{
    let multi = goblin::mach::MultiArch::new(data).ok()?;
    Some(multi.arches().ok()?.iter().map(|a| FatSlice { cputype: a.cputype, cpusubtype: a.cpusubtype, offset: a.offset, size: a.size, align: a.align }).collect())
}

/// The container that `data` holds: a universal binary where the bytes
/// begin with its magic number and hold the records that its header
/// counts, and one binary where they begin with the magic number of a
/// Mach-O binary.
pub open spec fn parsed_container(data: Seq<u8>) -> Option<ContainerView> {
    if data.len() < 4 {
        None
    } else if be32_at(data, 0) == FAT_MAGIC {
        match fat_arches_of(data) {
            Some(slices) => Some(ContainerView::Fat(slices)),
            None => None,
        }
    } else {
        match magic_kind(data) {
            Some(_) => Some(ContainerView::Thin),
            None => None,
        }
    }
}

/// Tells whether `data` holds one binary or a universal binary, and reads
/// the records of the binaries of a universal one.
pub fn parse_container(data: &[u8]) -> (container: Option<Container>)
    ensures
        match container {
            Some(c) => parsed_container(data@) == Some(c@),
            None => parsed_container(data@) is None,
        },
{
    if data.len() < 4 {
        return None;
    }
    if read_be32(data, 0) == FAT_MAGIC {
        match read_fat_arches(data) {
            Some(slices) => Some(Container::Fat(slices)),
            None => None,
        }
    } else {
        match read_magic(data) {
            Some(_) => Some(Container::Thin),
            None => None,
        }
    }
}

/// The sixteen bytes of the name of the `__LINKEDIT` segment.
pub open spec fn linkedit_name() -> Seq<u8> {
    seq![
        0x5fu8, 0x5f, 0x4c, 0x49, 0x4e, 0x4b, 0x45, 0x44, 0x49, 0x54, 0x00, 0x00, 0x00, 0x00,
        0x00, 0x00,
    ]
}

/// The index of the first segment at or behind `from` with the name `name`.
pub open spec fn segment_named(segments: Seq<SegmentView>, name: Seq<u8>, from: int) -> Option<
    int,
>
    decreases segments.len() - from,
{
    if from < 0 || from >= segments.len() {
        None
    } else if segments[from].name == name {
        Some(from)
    } else {
        segment_named(segments, name, from + 1)
    }
}

/// Whether `cmd` is the load command of a segment.
pub open spec fn is_segment_command(cmd: u32) -> bool {
    cmd == LC_SEGMENT || cmd == LC_SEGMENT_64
}

/// The index of the segment command number `n`, counted from zero among the
/// segment commands at or behind `from`.
pub open spec fn nth_segment_command(
    commands: Seq<LoadCommandRecord>,
    n: int,
    from: int,
) -> Option<int>
    decreases commands.len() - from,
{
    if from < 0 || from >= commands.len() {
        None
    } else if is_segment_command(commands[from].cmd) && n <= 0 {
        Some(from)
    } else if is_segment_command(commands[from].cmd) {
        nth_segment_command(commands, n - 1, from + 1)
    } else {
        nth_segment_command(commands, n, from + 1)
    }
}

/// The index of the first command at or behind `from` that is `cmd`.
pub open spec fn command_index(commands: Seq<LoadCommandRecord>, cmd: u32, from: int) -> Option<
    int,
>
    decreases commands.len() - from,
{
    if from < 0 || from >= commands.len() {
        None
    } else if commands[from].cmd == cmd {
        Some(from)
    } else {
        command_index(commands, cmd, from + 1)
    }
}

/// The lowest of `bound` and the first `n` offsets that are not zero. A
/// section without content in the file has the offset zero.
pub open spec fn lowest_content(offsets: Seq<u32>, n: int, bound: u32) -> u32
    decreases n,
{
    if n <= 0 {
        bound
    } else if offsets[n - 1] != 0 && offsets[n - 1] < lowest_content(offsets, n - 1, bound) {
        offsets[n - 1]
    } else {
        lowest_content(offsets, n - 1, bound)
    }
}

/// The signature region that the `LC_CODE_SIGNATURE` command among
/// `commands` names, where there is such a command.
///
/// `BinaryMalformed` where the command does not lie within the file.
pub open spec fn signature_from(
    data: Seq<u8>,
    commands: Seq<LoadCommandRecord>,
    little: bool,
) -> Result<Option<SignatureRegion>, CodesignError> {
    match command_index(commands, LC_CODE_SIGNATURE, 0) {
        None => Ok(None),
        Some(i) => if commands[i].offset + 16 > data.len() || commands[i].offset > u32::MAX {
            Err(CodesignError::BinaryMalformed)
        } else {
            Ok(
                Some(
                    SignatureRegion {
                        offset: word_at(data, commands[i].offset as int + 8, little),
                        size: word_at(data, commands[i].offset as int + 12, little),
                        command_offset: commands[i].offset as u32,
                    },
                ),
            )
        },
    }
}

/// What walking `n` load commands of `data` from `offset` on adds to the
/// commands, the segments and the section offsets read so far; none where a
/// command cannot be read or does not lie within the file, or the segment of
/// a segment command cannot be read.
pub open spec fn commands_read(
    data: Seq<u8>,
    is_64: bool,
    little: bool,
    offset: int,
    n: nat,
    commands: Seq<LoadCommandRecord>,
    segments: Seq<SegmentView>,
    offsets: Seq<u32>,
) -> Option<(Seq<LoadCommandRecord>, Seq<SegmentView>, Seq<u32>)>
    decreases n,
{
    if n == 0 {
        Some((commands, segments, offsets))
    } else if offset < 0 || offset > data.len() || offset > usize::MAX {
        None
    } else {
        match parsed_command(data, offset as usize, little) {
            None => None,
            Some((cmd, cmdsize)) => if offset + cmdsize > data.len() {
                None
            } else if is_segment_command(cmd) {
                match parsed_segment(data, offset as usize, is_64, little) {
                    None => None,
                    Some((segment, sections)) => commands_read(
                        data,
                        is_64,
                        little,
                        offset + cmdsize,
                        (n - 1) as nat,
                        commands.push(LoadCommandRecord { offset: offset as u64, cmd, cmdsize }),
                        segments.push(segment),
                        offsets + sections,
                    ),
                }
            } else {
                commands_read(
                    data,
                    is_64,
                    little,
                    offset + cmdsize,
                    (n - 1) as nat,
                    commands.push(LoadCommandRecord { offset: offset as u64, cmd, cmdsize }),
                    segments,
                    offsets,
                )
            },
        }
    }
}

/// The records of the binary `data`: the kind of the binary by its magic
/// number, the counts of its header, and what walking its load commands
/// gives.
///
/// None where the bytes do not begin with the magic number of a Mach-O
/// binary, the file is shorter than the header, the counts of the header
/// cannot be true of the file, or the load commands cannot be walked.
pub open spec fn records_of(data: Seq<u8>) -> Option<RecordsView> {
    match magic_kind(data) {
        None => None,
        Some((is_64, little)) => if data.len() < header_size(is_64) {
            None
        } else if 8 * word_at(data, 16, little) > word_at(data, 20, little) || word_at(
            data,
            20,
            little,
        ) > data.len() {
            None
        } else {
            match commands_read(
                data,
                is_64,
                little,
                header_size(is_64),
                word_at(data, 16, little) as nat,
                Seq::empty(),
                Seq::empty(),
                Seq::empty(),
            ) {
                None => None,
                Some((commands, segments, offsets)) => Some(
                    RecordsView {
                        is_64,
                        little_endian: little,
                        ncmds: word_at(data, 16, little),
                        sizeofcmds: word_at(data, 20, little),
                        segments,
                        commands,
                        section_offsets: offsets,
                    },
                ),
            }
        },
    }
}

/// The index of the `__LINKEDIT` segment among `segments`, where there is
/// one.
pub open spec fn linkedit_index_of(segments: Seq<SegmentView>) -> Option<usize> {
    match segment_named(segments, linkedit_name(), 0) {
        Some(i) => Some(i as usize),
        None => None,
    }
}

/// The numbers on which the layout of a signature depends, for the binary
/// `data` with the records `r`.
///
/// `UnsupportedMachOVariant` where the file is longer than a `u32` counts,
/// has no `__LINKEDIT` segment, or is not laid out as signing needs it;
/// `BinaryMalformed` where the records do not agree with each other or with
/// the file.
pub open spec fn shape_from(data: Seq<u8>, r: RecordsView) -> Result<MachoShape, CodesignError> {
    if data.len() > u32::MAX {
        Err(CodesignError::UnsupportedMachOVariant)
    } else {
        match segment_named(r.segments, linkedit_name(), 0) {
            None => Err(CodesignError::UnsupportedMachOVariant),
            Some(index) => match nth_segment_command(r.commands, index, 0) {
                None => Err(CodesignError::BinaryMalformed),
                Some(c) => match signature_from(data, r.commands, r.little_endian) {
                    Err(e) => Err(e),
                    Ok(signature) => {
                        let segment = r.segments[index];
                        if segment.fileoff > u32::MAX || segment.filesize > u32::MAX
                            || r.commands[c].offset > u32::MAX {
                            Err(CodesignError::UnsupportedMachOVariant)
                        } else {
                            let shape = MachoShape {
                                file_len: data.len() as u32,
                                is_64: r.is_64,
                                little_endian: r.little_endian,
                                ncmds: r.ncmds,
                                sizeofcmds: r.sizeofcmds,
                                commands_limit: lowest_content(
                                    r.section_offsets,
                                    r.section_offsets.len() as int,
                                    segment.fileoff as u32,
                                ),
                                linkedit_command_offset: r.commands[c].offset as u32,
                                linkedit_fileoff: segment.fileoff as u32,
                                linkedit_filesize: segment.filesize as u32,
                                linkedit_vmsize: segment.vmsize,
                                signature,
                            };
                            if shape_valid(shape) {
                                Ok(shape)
                            } else {
                                Err(CodesignError::UnsupportedMachOVariant)
                            }
                        }
                    },
                },
            },
        }
    }
}

/// The error with which a binary with the records `r` has no view:
/// `UnsupportedMachOVariant` where the file is longer than a `u32` counts,
/// and `BinaryMalformed` where its `LC_CODE_SIGNATURE` command does not lie
/// within the file.
pub open spec fn view_error(data: Seq<u8>, r: RecordsView) -> Option<CodesignError> {
    if data.len() > u32::MAX {
        Some(CodesignError::UnsupportedMachOVariant)
    } else {
        match signature_from(data, r.commands, r.little_endian) {
            Err(e) => Some(e),
            Ok(_) => None,
        }
    }
}

/// The error with which loading `data` fails, where it fails:
/// `BinaryMalformed` where the records of the binary cannot be read, and
/// else the error with which the binary has no view.
pub open spec fn load_error(data: Seq<u8>) -> Option<CodesignError> {
    match records_of(data) {
        None => Some(CodesignError::BinaryMalformed),
        Some(r) => view_error(data, r),
    }
}

/// The numbers on which the layout of a signature of the binary `data`
/// depends: the error of loading the binary where it cannot be loaded, and
/// else what the records of the binary give.
pub open spec fn loaded_shape(data: Seq<u8>) -> Result<MachoShape, CodesignError> {
    match load_error(data) {
        Some(e) => Err(e),
        None => shape_from(data, records_of(data)->Some_0),
    }
}

/// What selecting the binary number `index` from `data` gives: all of a thin
/// binary, whatever the index, and the slice of a universal one.
///
/// `BinaryMalformed` where the file holds no container, the index names no
/// slice, or the slice does not lie within the file.
pub open spec fn selected(data: Seq<u8>, container: Option<ContainerView>, index: int) -> Result<
    Seq<u8>,
    CodesignError,
> {
    match container {
        None => Err(CodesignError::BinaryMalformed),
        Some(ContainerView::Thin) => Ok(data),
        Some(ContainerView::Fat(slices)) => if index < 0 || index >= slices.len() {
            Err(CodesignError::BinaryMalformed)
        } else if slices[index].offset + slices[index].size > data.len() {
            Err(CodesignError::BinaryMalformed)
        } else {
            Ok(data.subrange(slices[index].offset as int, slices[index].offset + slices[index].size))
        },
    }
}

fn read_word(data: &[u8], at: usize, little: bool) -> (v: u32)
    requires
        at + 4 <= data@.len(),
    ensures
        v == word_at(data@, at as int, little),
{
    proof {
        reveal(word_of);
    }
    let b0: u32 = data[at] as u32;
    let b1: u32 = data[at + 1] as u32;
    let b2: u32 = data[at + 2] as u32;
    let b3: u32 = data[at + 3] as u32;
    if little {
        b3 * 0x100_0000 + b2 * 0x1_0000 + b1 * 0x100 + b0
    } else {
        b0 * 0x100_0000 + b1 * 0x1_0000 + b2 * 0x100 + b3
    }
}

fn find_segment(segments: &Vec<Segment>, name: &[u8]) -> (found: Option<usize>)
    ensures
        match found {
            Some(i) => segment_named(segments_view(segments@), name@, 0) == Some(i as int) && i
                < segments@.len() && segments@[i as int].name@ == name@,
            None => segment_named(segments_view(segments@), name@, 0) is None,
        },
{
    let mut i: usize = 0;
    while i < segments.len()
        invariant
            i <= segments@.len(),
            segment_named(segments_view(segments@), name@, 0) == segment_named(
                segments_view(segments@),
                name@,
                i as int,
            ),
        decreases segments@.len() - i,
    {
        if bytes_equal(segments[i].name.as_slice(), name) {
            return Some(i);
        }
        i = i + 1;
    }
    None
}

fn find_segment_command(commands: &Vec<LoadCommandRecord>, n: usize) -> (found: Option<usize>)
    ensures
        match found {
            Some(i) => nth_segment_command(commands@, n as int, 0) == Some(i as int) && i
                < commands@.len(),
            None => nth_segment_command(commands@, n as int, 0) is None,
        },
{
    let mut left: usize = n;
    let mut i: usize = 0;
    while i < commands.len()
        invariant
            i <= commands@.len(),
            nth_segment_command(commands@, n as int, 0) == nth_segment_command(
                commands@,
                left as int,
                i as int,
            ),
        decreases commands@.len() - i,
    {
        let cmd = commands[i].cmd;
        if cmd == LC_SEGMENT || cmd == LC_SEGMENT_64 {
            if left == 0 {
                return Some(i);
            }
            left = left - 1;
        }
        i = i + 1;
    }
    None
}

fn find_command(commands: &Vec<LoadCommandRecord>, cmd: u32) -> (found: Option<usize>)
    ensures
        match found {
            Some(i) => command_index(commands@, cmd, 0) == Some(i as int) && i < commands@.len(),
            None => command_index(commands@, cmd, 0) is None,
        },
{
    let mut i: usize = 0;
    while i < commands.len()
        invariant
            i <= commands@.len(),
            command_index(commands@, cmd, 0) == command_index(commands@, cmd, i as int),
        decreases commands@.len() - i,
    {
        if commands[i].cmd == cmd {
            return Some(i);
        }
        i = i + 1;
    }
    None
}

fn lowest_offset(offsets: &Vec<u32>, bound: u32) -> (lowest: u32)
    ensures
        lowest == lowest_content(offsets@, offsets@.len() as int, bound),
{
    let mut lowest = bound;
    let mut i: usize = 0;
    while i < offsets.len()
        invariant
            i <= offsets@.len(),
            lowest == lowest_content(offsets@, i as int, bound),
        decreases offsets@.len() - i,
    {
        if offsets[i] != 0 && offsets[i] < lowest {
            lowest = offsets[i];
        }
        i = i + 1;
    }
    lowest
}

fn read_signature(data: &[u8], commands: &Vec<LoadCommandRecord>, little: bool) -> (result: Result<
    Option<SignatureRegion>,
    CodesignError,
>)
    ensures
        result == signature_from(data@, commands@, little),
{
    match find_command(commands, LC_CODE_SIGNATURE) {
        None => Ok(None),
        Some(i) => {
            let offset = commands[i].offset;
            if offset > 0xffff_ffff || offset + 16 > data.len() as u64 {
                return Err(CodesignError::BinaryMalformed);
            }
            let at = offset as usize;
            Ok(
                Some(
                    SignatureRegion {
                        offset: read_word(data, at + 8, little),
                        size: read_word(data, at + 12, little),
                        command_offset: offset as u32,
                    },
                ),
            )
        },
    }
}

/// Reads the records of the binary `data`: tells its kind by its magic
/// number, reads the counts of its header, and walks its load commands,
/// each with the reader of one load command. Nothing else of the binary is
/// read: neither its symbol table nor its names nor its entry point.
pub fn read_records(data: &[u8]) -> (records: Option<MachoRecords>)
    ensures
        match records {
            Some(r) => records_of(data@) == Some(r@),
            None => records_of(data@) is None,
        },
{
    let (is_64, little) = match read_magic(data) {
        None => {
            return None;
        },
        Some(kind) => kind,
    };
    let header: usize = if is_64 {
        32
    } else {
        28
    };
    if data.len() < header {
        return None;
    }
    let ncmds = read_word(data, 16, little);
    let sizeofcmds = read_word(data, 20, little);
    if 8 * (ncmds as u64) > sizeofcmds as u64 || sizeofcmds as usize > data.len() {
        return None;
    }
    let mut segments: Vec<Segment> = Vec::new();
    let mut commands: Vec<LoadCommandRecord> = Vec::new();
    let mut offsets: Vec<u32> = Vec::new();
    let mut offset: usize = header;
    let mut i: u32 = 0;
    let ghost whole = commands_read(
        data@,
        is_64,
        little,
        header as int,
        ncmds as nat,
        Seq::empty(),
        Seq::empty(),
        Seq::empty(),
    );
    assert(segments_view(segments@) =~= Seq::<SegmentView>::empty());
    while i < ncmds
        invariant
            i <= ncmds,
            offset <= data@.len(),
            whole is None ==> records_of(data@) is None,
            whole matches Some(read) ==> records_of(data@) == Some(
                RecordsView {
                    is_64,
                    little_endian: little,
                    ncmds,
                    sizeofcmds,
                    segments: read.1,
                    commands: read.0,
                    section_offsets: read.2,
                },
            ),
            whole == commands_read(
                data@,
                is_64,
                little,
                offset as int,
                (ncmds - i) as nat,
                commands@,
                segments_view(segments@),
                offsets@,
            ),
        decreases ncmds - i,
    {
        let (cmd, cmdsize) = match read_command(data, offset, little) {
            None => {
                return None;
            },
            Some(command) => command,
        };
        if cmdsize as usize > data.len() - offset {
            return None;
        }
        commands.push(LoadCommandRecord { offset: offset as u64, cmd, cmdsize });
        if cmd == LC_SEGMENT || cmd == LC_SEGMENT_64 {
            match read_segment(data, offset, is_64, little) {
                None => {
                    return None;
                },
                Some((segment, sections)) => {
                    let mut sections = sections;
                    let ghost before = segments_view(segments@);
                    let ghost read = segment@;
                    segments.push(segment);
                    assert(segments_view(segments@) =~= before.push(read));
                    offsets.append(&mut sections);
                },
            }
        }
        offset = offset + cmdsize as usize;
        i = i + 1;
    }
    Some(
        MachoRecords {
            is_64,
            little_endian: little,
            ncmds,
            sizeofcmds,
            segments,
            commands,
            section_offsets: offsets,
        },
    )
}

fn shape_of_records(data: &[u8], records: &MachoRecords, signature: Option<SignatureRegion>) -> (result:
    Result<MachoShape, CodesignError>)
    requires
        data@.len() <= u32::MAX,
        signature_from(data@, records@.commands, records@.little_endian) == Ok::<
            Option<SignatureRegion>,
            CodesignError,
        >(signature),
    ensures
        result == shape_from(data@, records@),
        result matches Ok(shape) ==> {
            &&& shape_valid(shape)
            &&& shape.file_len == data@.len()
            &&& shape.signature == signature
            &&& linkedit_index_of(records@.segments) matches Some(i)
            &&& i < records@.segments.len()
            &&& records@.segments[i as int].name == linkedit_name()
            &&& records@.segments[i as int].fileoff == shape.linkedit_fileoff
            &&& records@.segments[i as int].filesize == shape.linkedit_filesize
        },
{
    let name = linkedit_segment_name();
    let index = match find_segment(&records.segments, name.as_slice()) {
        None => {
            return Err(CodesignError::UnsupportedMachOVariant);
        },
        Some(index) => index,
    };
    let c = match find_segment_command(&records.commands, index) {
        None => {
            return Err(CodesignError::BinaryMalformed);
        },
        Some(c) => c,
    };
    let fileoff = records.segments[index].fileoff;
    let filesize = records.segments[index].filesize;
    let command_offset = records.commands[c].offset;
    if fileoff > 0xffff_ffff || filesize > 0xffff_ffff || command_offset > 0xffff_ffff {
        return Err(CodesignError::UnsupportedMachOVariant);
    }
    let shape = MachoShape {
        file_len: data.len() as u32,
        is_64: records.is_64,
        little_endian: records.little_endian,
        ncmds: records.ncmds,
        sizeofcmds: records.sizeofcmds,
        commands_limit: lowest_offset(&records.section_offsets, fileoff as u32),
        linkedit_command_offset: command_offset as u32,
        linkedit_fileoff: fileoff as u32,
        linkedit_filesize: filesize as u32,
        linkedit_vmsize: records.segments[index].vmsize,
        signature,
    };
    if !shape.is_valid() {
        return Err(CodesignError::UnsupportedMachOVariant);
    }
    Ok(shape)
}

/// Makes the view of the binary `data` from its records: finds the
/// `__LINKEDIT` segment, reads what the `LC_CODE_SIGNATURE` command says of
/// the signature, and decides whether the binary can take a signature.
pub fn view_from_records(data: Vec<u8>, records: MachoRecords) -> (result: Result<
    MachoView,
    CodesignError,
>)
    ensures
        match result {
            Ok(view) => {
                &&& view_error(data@, records@) is None
                &&& view.data@ == data@
                &&& segments_view(view.segments@) == records@.segments
                &&& view.linkedit_index == linkedit_index_of(records@.segments)
                &&& signature_from(data@, records@.commands, records@.little_endian) == Ok::<
                    Option<SignatureRegion>,
                    CodesignError,
                >(view.signature)
                &&& view.shape == shape_from(data@, records@)
                &&& view.well_formed()
            },
            Err(e) => view_error(data@, records@) == Some(e),
        },
{
    if data.len() > 0xffff_ffff {
        return Err(CodesignError::UnsupportedMachOVariant);
    }
    let signature = match read_signature(
        data.as_slice(),
        &records.commands,
        records.little_endian,
    ) {
        Err(e) => {
            return Err(e);
        },
        Ok(signature) => signature,
    };
    let name = linkedit_segment_name();
    let linkedit_index = find_segment(&records.segments, name.as_slice());
    let shape = shape_of_records(data.as_slice(), &records, signature);
    Ok(MachoView { data, segments: records.segments, linkedit_index, signature, shape })
}

/// The region of the signature within a file of `len` bytes.
///
/// `NoSignatureRegion` where the binary has no `LC_CODE_SIGNATURE` command,
/// and `BinaryMalformed` where the region that the command names does not
/// lie within the file.
pub open spec fn region_in(signature: Option<SignatureRegion>, len: int) -> Result<
    SignatureRegion,
    CodesignError,
> {
    match signature {
        None => Err(CodesignError::NoSignatureRegion),
        Some(region) => if region.offset + region.size > len {
            Err(CodesignError::BinaryMalformed)
        } else {
            Ok(region)
        },
    }
}

/// The bytes of the signature of the binary `data` whose
/// `LC_CODE_SIGNATURE` command says `signature`, or why there are none.
pub open spec fn signature_bytes_of(data: Seq<u8>, signature: Option<SignatureRegion>) -> Result<
    Seq<u8>,
    CodesignError,
> {
    match region_in(signature, data.len() as int) {
        Err(e) => Err(e),
        Ok(region) => Ok(data.subrange(region.offset as int, region.offset + region.size)),
    }
}

/// The bytes of the binary `data` in front of its signature, or all of them
/// where the binary has no `LC_CODE_SIGNATURE` command: what the code
/// hashes are computed over. `BinaryMalformed` where the signature begins
/// behind the end of the file.
pub open spec fn code_bytes_of(data: Seq<u8>, signature: Option<SignatureRegion>) -> Result<
    Seq<u8>,
    CodesignError,
> {
    match signature {
        None => Ok(data),
        Some(region) => if region.offset > data.len() {
            Err(CodesignError::BinaryMalformed)
        } else {
            Ok(data.subrange(0, region.offset as int))
        },
    }
}

/// What the `LC_CODE_SIGNATURE` command of the binary `data` says of the
/// signature, where the binary loads and has the command.
pub open spec fn loaded_signature(data: Seq<u8>) -> Option<SignatureRegion> {
    signature_from(
        data,
        (records_of(data)->Some_0).commands,
        (records_of(data)->Some_0).little_endian,
    )->Ok_0
}

impl MachoView {
    /// Whether the view holds together: the file is no longer than a `u32`
    /// counts, the `__LINKEDIT` index names a segment, and where the binary
    /// can take a signature, the shape is valid, measures the bytes held,
    /// has the signature of the view, and describes the `__LINKEDIT`
    /// segment.
    pub open spec fn well_formed(&self) -> bool {
        &&& self.data@.len() <= u32::MAX
        &&& self.linkedit_index matches Some(i) ==> i < self.segments@.len()
        &&& self.shape matches Ok(shape) ==> {
            &&& shape_valid(shape)
            &&& shape.file_len == self.data@.len()
            &&& shape.signature == self.signature
            &&& self.linkedit_index matches Some(i)
            &&& i < self.segments@.len()
            &&& self.segments@[i as int].name@ == linkedit_name()
            &&& self.segments@[i as int].fileoff == shape.linkedit_fileoff
            &&& self.segments@[i as int].filesize == shape.linkedit_filesize
        }
    }

    /// The numbers on which the layout of a signature depends, where the
    /// binary can take one.
    pub open spec fn signing_shape(&self) -> MachoShape {
        self.shape->Ok_0
    }

    /// The bytes of the existing signature, or why there are none.
    pub open spec fn signature_bytes(&self) -> Result<Seq<u8>, CodesignError> {
        signature_bytes_of(self.data@, self.signature)
    }

    /// The bytes in front of the signature, or all of them where the binary
    /// has no `LC_CODE_SIGNATURE` command: what the code hashes are
    /// computed over. `BinaryMalformed` where the signature begins behind
    /// the end of the file.
    pub open spec fn code_bytes(&self) -> Result<Seq<u8>, CodesignError> {
        code_bytes_of(self.data@, self.signature)
    }

    fn same_signature(&self, other: Option<SignatureRegion>) -> (same: bool)
        ensures
            same == (self.signature == other),
    {
        match (self.signature, other) {
            (None, None) => true,
            (Some(a), Some(b)) => a.offset == b.offset && a.size == b.size && a.command_offset
                == b.command_offset,
            _ => false,
        }
    }

    /// Whether the view holds together.
    pub fn is_well_formed(&self) -> (ok: bool)
        ensures
            ok == self.well_formed(),
    {
        if self.data.len() > 0xffff_ffff {
            return false;
        }
        match self.linkedit_index {
            Some(i) => {
                if i >= self.segments.len() {
                    return false;
                }
            },
            None => {},
        }
        match self.shape {
            Err(_) => true,
            Ok(shape) => {
                if !shape.is_valid() || self.data.len() != shape.file_len as usize
                    || !self.same_signature(shape.signature) {
                    return false;
                }
                match self.linkedit_index {
                    None => false,
                    Some(i) => {
                        let segment = &self.segments[i];
                        let name = linkedit_segment_name();
                        bytes_equal(segment.name.as_slice(), name.as_slice()) && segment.fileoff
                            == shape.linkedit_fileoff as u64 && segment.filesize
                            == shape.linkedit_filesize as u64
                    },
                }
            },
        }
    }

    /// Loads the view of the Mach-O binary that `data` holds.
    ///
    /// Fails with `BinaryMalformed` where the records of the binary cannot
    /// be read or its `LC_CODE_SIGNATURE` command does not lie within the
    /// file, and with `UnsupportedMachOVariant` where the file is longer
    /// than a `u32` counts. Every other binary has a view, whether it can
    /// take a signature or not.
    pub fn load(data: Vec<u8>) -> (result: Result<MachoView, CodesignError>)
        ensures
            match result {
                Ok(view) => {
                    &&& load_error(data@) is None
                    &&& records_of(data@) matches Some(r)
                    &&& view.data@ == data@
                    &&& segments_view(view.segments@) == r.segments
                    &&& view.linkedit_index == linkedit_index_of(r.segments)
                    &&& signature_from(data@, r.commands, r.little_endian) == Ok::<
                        Option<SignatureRegion>,
                        CodesignError,
                    >(view.signature)
                    &&& view.signature == loaded_signature(data@)
                    &&& view.shape == loaded_shape(data@)
                    &&& view.well_formed()
                },
                Err(e) => load_error(data@) == Some(e),
            },
    {
        let records = match read_records(data.as_slice()) {
            None => {
                return Err(CodesignError::BinaryMalformed);
            },
            Some(records) => records,
        };
        view_from_records(data, records)
    }

    /// Where the existing signature lies, as the `LC_CODE_SIGNATURE` command
    /// says: its file offset and its size.
    pub fn signature_region(&self) -> (region: Option<(u32, u32)>)
        ensures
            region == match self.signature {
                Some(r) => Some((r.offset, r.size)),
                None => None::<(u32, u32)>,
            },
    {
        match self.signature {
            Some(r) => Some((r.offset, r.size)),
            None => None,
        }
    }

    /// The segments of the binary, in the order of their load commands.
    pub fn segments(&self) -> (segments: &Vec<Segment>)
        ensures
            segments@ == self.segments@,
    {
        &self.segments
    }

    /// The bytes of the existing signature.
    ///
    /// Fails with `NoSignatureRegion` exactly where the binary has no
    /// `LC_CODE_SIGNATURE` command, and with `BinaryMalformed` where the
    /// region that the command names does not lie within the file.
    pub fn signature_data(&self) -> (result: Result<&[u8], CodesignError>)
        ensures
            match result {
                Ok(bytes) => self.signature_bytes() == Ok::<Seq<u8>, CodesignError>(bytes@),
                Err(e) => self.signature_bytes() == Err::<Seq<u8>, CodesignError>(e),
            },
    {
        match self.signature {
            None => Err(CodesignError::NoSignatureRegion),
            Some(r) => {
                if r.offset as u64 + r.size as u64 > self.data.len() as u64 {
                    return Err(CodesignError::BinaryMalformed);
                }
                Ok(
                    slice_subrange(
                        self.data.as_slice(),
                        r.offset as usize,
                        r.offset as usize + r.size as usize,
                    ),
                )
            },
        }
    }
}

/// Selects the binary number `universal_index` from the file `data`: all of
/// a thin binary, whatever the index, and the slice of a universal one.
///
/// Fails with `BinaryMalformed` where the file holds no container, the
/// index names no slice, or the slice does not lie within the file.
pub fn select_binary<'a>(data: &'a [u8], universal_index: usize) -> (result: Result<
    &'a [u8],
    CodesignError,
>)
    ensures
        match result {
            Ok(bytes) => selected(data@, parsed_container(data@), universal_index as int) == Ok::<
                Seq<u8>,
                CodesignError,
            >(bytes@),
            Err(e) => selected(data@, parsed_container(data@), universal_index as int) == Err::<
                Seq<u8>,
                CodesignError,
            >(e),
        },
{
    match parse_container(data) {
        None => Err(CodesignError::BinaryMalformed),
        Some(Container::Thin) => {
            assert(data@.subrange(0, data@.len() as int) =~= data@);
            Ok(slice_subrange(data, 0, data.len()))
        },
        Some(Container::Fat(slices)) => {
            if universal_index >= slices.len() {
                return Err(CodesignError::BinaryMalformed);
            }
            let offset = slices[universal_index].offset as u64;
            let size = slices[universal_index].size as u64;
            if offset + size > data.len() as u64 {
                return Err(CodesignError::BinaryMalformed);
            }
            Ok(slice_subrange(data, offset as usize, (offset + size) as usize))
        },
    }
}

/// The name of the `__LINKEDIT` segment as it stands in a segment command.
pub fn linkedit_segment_name() -> (name: Vec<u8>)
    ensures
        name@ == linkedit_name(),
{
    let name: Vec<u8> = vec![
        0x5fu8, 0x5f, 0x4c, 0x49, 0x4e, 0x4b, 0x45, 0x44, 0x49, 0x54, 0x00, 0x00, 0x00, 0x00,
        0x00, 0x00,
    ];
    assert(name@ =~= linkedit_name());
    name
}

/// Where the `__LINKEDIT` segment and the signature lie in a binary.
#[derive(Clone, Copy, Debug, PartialEq, Eq, Structural)]
pub struct SegmentInfo {
    pub segments_count: usize,
    pub linkedit_segment_index: usize,
    pub linkedit_segment_start_offset: u32,
    pub linkedit_segment_end_offset: u32,
    pub linkedit_segment_size: u32,
    /// The file offsets of the first byte of the signature and of the first
    /// byte behind it.
    pub linkedit_signature_start_offset: u32,
    pub linkedit_signature_end_offset: u32,
    /// The same offsets, counted from the start of `__LINKEDIT`.
    pub signature_start_offset: u32,
    pub signature_end_offset: u32,
    pub signature_size: u32,
}

/// Where the `__LINKEDIT` segment and the signature lie in a binary with
/// the signature `region`, the shape `shape` and `count` segments of which
/// `__LINKEDIT` is number `index`.
pub open spec fn segment_info_of(
    shape: MachoShape,
    region: SignatureRegion,
    count: usize,
    index: usize,
) -> SegmentInfo {
    SegmentInfo {
        segments_count: count,
        linkedit_segment_index: index,
        linkedit_segment_start_offset: shape.linkedit_fileoff,
        linkedit_segment_end_offset: shape.file_len,
        linkedit_segment_size: shape.linkedit_filesize,
        linkedit_signature_start_offset: region.offset,
        linkedit_signature_end_offset: shape.file_len,
        signature_start_offset: (region.offset - shape.linkedit_fileoff) as u32,
        signature_end_offset: shape.linkedit_filesize,
        signature_size: region.size,
    }
}

impl MachoView {
    /// The bytes of the binary in front of its signature, or all of them
    /// where it has none: what the code hashes are computed over.
    ///
    /// Fails with `BinaryMalformed` where the signature begins behind the
    /// end of the file.
    pub fn code(&self) -> (result: Result<&[u8], CodesignError>)
        ensures
            match result {
                Ok(code) => self.code_bytes() == Ok::<Seq<u8>, CodesignError>(code@),
                Err(e) => self.code_bytes() == Err::<Seq<u8>, CodesignError>(e),
            },
    {
        match self.signature {
            None => {
                assert(self.data@.subrange(0, self.data@.len() as int) =~= self.data@);
                Ok(slice_subrange(self.data.as_slice(), 0, self.data.len()))
            },
            Some(region) => {
                if region.offset as u64 > self.data.len() as u64 {
                    return Err(CodesignError::BinaryMalformed);
                }
                Ok(slice_subrange(self.data.as_slice(), 0, region.offset as usize))
            },
        }
    }

    /// Plans the signed file for a signature of `size` bytes, as
    /// `MachoShape::prepare_for_signature` does for the shape of the binary.
    ///
    /// Fails with the error of the shape where the binary cannot take a
    /// signature.
    pub fn prepare_for_signature(&self, size: u32) -> (result: Result<
        WritableLayout,
        CodesignError,
    >)
        requires
            self.well_formed(),
        ensures
            result == match self.shape {
                Ok(shape) => planned(shape, size),
                Err(e) => Err(e),
            },
    {
        match self.shape {
            Ok(shape) => shape.prepare_for_signature(size),
            Err(e) => Err(e),
        }
    }

    /// The bytes of the `__LINKEDIT` segment.
    ///
    /// Fails with the error of the shape where the binary has no
    /// `__LINKEDIT` segment that ends at the end of the file.
    pub fn linkedit_data(&self) -> (result: Result<&[u8], CodesignError>)
        requires
            self.well_formed(),
        ensures
            match result {
                Ok(bytes) => self.shape matches Ok(shape) && bytes@ == self.data@.subrange(
                    shape.linkedit_fileoff as int,
                    shape.file_len as int,
                ),
                Err(e) => self.shape == Err::<MachoShape, CodesignError>(e),
            },
    {
        match self.shape {
            Ok(shape) => Ok(
                slice_subrange(
                    self.data.as_slice(),
                    shape.linkedit_fileoff as usize,
                    self.data.len(),
                ),
            ),
            Err(e) => Err(e),
        }
    }

    /// Where the `__LINKEDIT` segment and the signature lie.
    ///
    /// Fails with `NoSignatureRegion` exactly where the binary has no
    /// `LC_CODE_SIGNATURE` command, and else with the error of the shape
    /// where the signature does not lie at the end of a `__LINKEDIT`
    /// segment that ends at the end of the file.
    pub fn segment_info(&self) -> (result: Result<SegmentInfo, CodesignError>)
        requires
            self.well_formed(),
        ensures
            result == match (self.signature, self.shape) {
                (None, _) => Err(CodesignError::NoSignatureRegion),
                (Some(_), Err(e)) => Err(e),
                (Some(region), Ok(shape)) => Ok(
                    segment_info_of(
                        shape,
                        region,
                        self.segments@.len() as usize,
                        self.linkedit_index->Some_0,
                    ),
                ),
            },
    {
        let region = match self.signature {
            None => {
                return Err(CodesignError::NoSignatureRegion);
            },
            Some(region) => region,
        };
        let shape = match self.shape {
            Err(e) => {
                return Err(e);
            },
            Ok(shape) => shape,
        };
        let index = match self.linkedit_index {
            None => {
                return Err(CodesignError::BinaryMalformed);
            },
            Some(index) => index,
        };
        Ok(
            SegmentInfo {
                segments_count: self.segments.len(),
                linkedit_segment_index: index,
                linkedit_segment_start_offset: shape.linkedit_fileoff,
                linkedit_segment_end_offset: shape.file_len,
                linkedit_segment_size: shape.linkedit_filesize,
                linkedit_signature_start_offset: region.offset,
                linkedit_signature_end_offset: shape.file_len,
                signature_start_offset: region.offset - shape.linkedit_fileoff,
                signature_end_offset: shape.linkedit_filesize,
                signature_size: region.size,
            },
        )
    }
}

} // verus!
