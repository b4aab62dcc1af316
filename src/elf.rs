//! Decoding of an executable-image header in its 32-bit and 64-bit forms.
//!
//! Multi-byte fields are read least significant byte first, the in-memory
//! order of the x86-64 host, whatever endianness the header declares: the
//! declared endianness is reported and nothing is byte-swapped.
use vstd::prelude::*;

verus! {

/// The four bytes that open every image: 0x7F 'E' 'L' 'F'.
pub open spec fn has_magic(b: Seq<u8>) -> bool {
    &&& b.len() >= 4
    &&& b[0] == 0x7Fu8
    &&& b[1] == 0x45u8
    &&& b[2] == 0x4Cu8
    &&& b[3] == 0x46u8
}

/// The byte buffer holds as many bytes as a header of the width that its
/// class byte names: 52 for a 32-bit header, 64 otherwise.
pub open spec fn covers_header(b: Seq<u8>) -> bool {
    b.len() >= 64 || (b.len() >= 52 && b[4] == 1u8)
}

pub open spec fn le_u16(b: Seq<u8>, at: int) -> u16 {
    (b[at] as u16) | ((b[at + 1] as u16) << 8u16)
}

pub open spec fn le_u32(b: Seq<u8>, at: int) -> u32 {
    (b[at] as u32) | ((b[at + 1] as u32) << 8u32) | ((b[at + 2] as u32) << 16u32) | ((b[at
        + 3] as u32) << 24u32)
}

pub open spec fn le_u64(b: Seq<u8>, at: int) -> u64 {
    (b[at] as u64) | ((b[at + 1] as u64) << 8u64) | ((b[at + 2] as u64) << 16u64) | ((b[at
        + 3] as u64) << 24u64) | ((b[at + 4] as u64) << 32u64) | ((b[at + 5] as u64) << 40u64)
        | ((b[at + 6] as u64) << 48u64) | ((b[at + 7] as u64) << 56u64)
}

fn read_u16(b: &[u8], at: usize) -> (r: u16)
    requires
        at + 2 <= b@.len(),
    ensures
        r == le_u16(b@, at as int),
{
    (b[at] as u16) | ((b[at + 1] as u16) << 8u16)
}

fn read_u32(b: &[u8], at: usize) -> (r: u32)
    requires
        at + 4 <= b@.len(),
    ensures
        r == le_u32(b@, at as int),
{
    (b[at] as u32) | ((b[at + 1] as u32) << 8u32) | ((b[at + 2] as u32) << 16u32) | ((b[at
        + 3] as u32) << 24u32)
}

fn read_u64(b: &[u8], at: usize) -> (r: u64)
    requires
        at + 8 <= b@.len(),
    ensures
        r == le_u64(b@, at as int),
{
    (b[at] as u64) | ((b[at + 1] as u64) << 8u64) | ((b[at + 2] as u64) << 16u64) | ((b[at
        + 3] as u64) << 24u64) | ((b[at + 4] as u64) << 32u64) | ((b[at + 5] as u64) << 40u64)
        | ((b[at + 6] as u64) << 48u64) | ((b[at + 7] as u64) << 56u64)
}

/// The first 24 bytes, shared by both widths.
#[derive(Copy, Clone, Debug)]
pub struct RawELFHeaderBegin {
    pub elfmagic: [u8; 4],
    pub elfclass: u8,
    pub elfendian: u8,
    pub elfheaderversion: u8,
    pub elfabikind: u8,
    pub elfabiversion: u8,
    pub uselesspadding: [u8; 7],
    pub elftype: u16,
    pub elfinstructionsetarch: u16,
    pub elfversion: u32,
}

/// The pointer-sized block of a 32-bit header, at bytes 24 to 36.
#[derive(Copy, Clone, Debug)]
pub struct RawELF32HeaderMiddle {
    pub entrypointptr: u32,
    pub programheaderptr: u32,
    pub sectionheaderptr: u32,
}

/// The pointer-sized block of a 64-bit header, at bytes 24 to 48.
#[derive(Copy, Clone, Debug)]
pub struct RawELF64HeaderMiddle {
    pub entrypointptr: u64,
    pub programheaderptr: u64,
    pub sectionheaderptr: u64,
}

#[allow(non_camel_case_types)]
#[derive(Copy, Clone, Debug)]
pub enum RawELFHeaderMiddle {
    _32bit(RawELF32HeaderMiddle),
    _64bit(RawELF64HeaderMiddle),
}

/// The last 16 bytes, shared by both widths.
#[derive(Copy, Clone, Debug)]
pub struct RawELFHeaderEnd {
    pub elfflags: u32,
    pub elfheadersize: u16,
    pub programheadertableentrysize: u16,
    pub programheadertableentrycount: u16,
    pub sectionheadertableentrysize: u16,
    pub sectionheadertableentrycount: u16,
    pub sectionheadernameindex: u16,
}

/// A header as it stands in the buffer, before any validation.
#[derive(Copy, Clone, Debug)]
pub struct RawELFHeader {
    pub begin: RawELFHeaderBegin,
    pub middle: RawELFHeaderMiddle,
    pub end: RawELFHeaderEnd,
}

/// Where the common suffix starts: after 24 + 12 bytes for a 32-bit header,
/// after 24 + 24 otherwise.
pub open spec fn suffix_offset(b: Seq<u8>) -> int {
    if b[4] == 1u8 {
        36
    } else {
        48
    }
}

pub open spec fn raw_begin_of(b: Seq<u8>) -> RawELFHeaderBegin {
    RawELFHeaderBegin {
        elfmagic: [b[0], b[1], b[2], b[3]],
        elfclass: b[4],
        elfendian: b[5],
        elfheaderversion: b[6],
        elfabikind: b[7],
        elfabiversion: b[8],
        uselesspadding: [b[9], b[10], b[11], b[12], b[13], b[14], b[15]],
        elftype: le_u16(b, 16),
        elfinstructionsetarch: le_u16(b, 18),
        elfversion: le_u32(b, 20),
    }
}

pub open spec fn raw_middle_of(b: Seq<u8>) -> RawELFHeaderMiddle {
    if b[4] == 1u8 {
        RawELFHeaderMiddle::_32bit(
            RawELF32HeaderMiddle {
                entrypointptr: le_u32(b, 24),
                programheaderptr: le_u32(b, 28),
                sectionheaderptr: le_u32(b, 32),
            },
        )
    } else {
        RawELFHeaderMiddle::_64bit(
            RawELF64HeaderMiddle {
                entrypointptr: le_u64(b, 24),
                programheaderptr: le_u64(b, 32),
                sectionheaderptr: le_u64(b, 40),
            },
        )
    }
}

pub open spec fn raw_end_of(b: Seq<u8>) -> RawELFHeaderEnd {
    let o = suffix_offset(b);
    RawELFHeaderEnd {
        elfflags: le_u32(b, o),
        elfheadersize: le_u16(b, o + 4),
        programheadertableentrysize: le_u16(b, o + 6),
        programheadertableentrycount: le_u16(b, o + 8),
        sectionheadertableentrysize: le_u16(b, o + 10),
        sectionheadertableentrycount: le_u16(b, o + 12),
        sectionheadernameindex: le_u16(b, o + 14),
    }
}

pub open spec fn raw_header_of(b: Seq<u8>) -> RawELFHeader {
    RawELFHeader { begin: raw_begin_of(b), middle: raw_middle_of(b), end: raw_end_of(b) }
}

impl RawELFHeader {
    /// Reads the three blocks of a header from the start of `bytes`; the
    /// class byte alone selects the width of the middle block.
    pub fn from_ptr(bytes: &[u8]) -> (r: RawELFHeader)
        requires
            covers_header(bytes@),
        ensures
            r == raw_header_of(bytes@),
    {
        let begin = RawELFHeaderBegin {
            elfmagic: [bytes[0], bytes[1], bytes[2], bytes[3]],
            elfclass: bytes[4],
            elfendian: bytes[5],
            elfheaderversion: bytes[6],
            elfabikind: bytes[7],
            elfabiversion: bytes[8],
            uselesspadding: [bytes[9], bytes[10], bytes[11], bytes[12], bytes[13], bytes[14], bytes[15]],
            elftype: read_u16(bytes, 16),
            elfinstructionsetarch: read_u16(bytes, 18),
            elfversion: read_u32(bytes, 20),
        };
        let middle = if begin.elfclass == 1 {
            RawELFHeaderMiddle::_32bit(
                RawELF32HeaderMiddle {
                    entrypointptr: read_u32(bytes, 24),
                    programheaderptr: read_u32(bytes, 28),
                    sectionheaderptr: read_u32(bytes, 32),
                },
            )
        } else {
            RawELFHeaderMiddle::_64bit(
                RawELF64HeaderMiddle {
                    entrypointptr: read_u64(bytes, 24),
                    programheaderptr: read_u64(bytes, 32),
                    sectionheaderptr: read_u64(bytes, 40),
                },
            )
        };
        let o: usize = match middle {
            RawELFHeaderMiddle::_32bit(_) => 36,
            RawELFHeaderMiddle::_64bit(_) => 48,
        };
        let end = RawELFHeaderEnd {
            elfflags: read_u32(bytes, o),
            elfheadersize: read_u16(bytes, o + 4),
            programheadertableentrysize: read_u16(bytes, o + 6),
            programheadertableentrycount: read_u16(bytes, o + 8),
            sectionheadertableentrysize: read_u16(bytes, o + 10),
            sectionheadertableentrycount: read_u16(bytes, o + 12),
            sectionheadernameindex: read_u16(bytes, o + 14),
        };
        assert(begin.elfmagic =~= raw_begin_of(bytes@).elfmagic);
        assert(begin.uselesspadding =~= raw_begin_of(bytes@).uselesspadding);
        RawELFHeader { begin, middle, end }
    }
}

/// The object type field; a value without a name is kept as it was read.
#[derive(Copy, Clone, Debug)]
pub enum EXEtype {
    Unspecified,
    Relocatable,
    Executable,
    Shared,
    Core,
    Unknown(u16),
}

pub open spec fn exe_type_of(num: u16) -> EXEtype {
    if num == 0 {
        EXEtype::Unspecified
    } else if num == 1 {
        EXEtype::Relocatable
    } else if num == 2 {
        EXEtype::Executable
    } else if num == 3 {
        EXEtype::Shared
    } else if num == 4 {
        EXEtype::Core
    } else {
        EXEtype::Unknown(num)
    }
}

impl EXEtype {
    pub fn from_u16(num: u16) -> (r: EXEtype)
        ensures
            r == exe_type_of(num),
    {
        match num {
            0 => EXEtype::Unspecified,
            1 => EXEtype::Relocatable,
            2 => EXEtype::Executable,
            3 => EXEtype::Shared,
            4 => EXEtype::Core,
            _ => EXEtype::Unknown(num),
        }
    }
}

/// The target instruction set; a value without a name is kept as it was read.
#[allow(non_camel_case_types)]
#[derive(Copy, Clone, Debug)]
pub enum Architecture {
    Unknown(u16),
    Sparc,
    x86,
    MIPS,
    PowerPC,
    ARM,
    SuperH,
    Itanium64,
    x86_64,
    AArch64,
    RISC_V,
}

pub open spec fn architecture_of(num: u16) -> Architecture {
    if num == 0x02 {
        Architecture::Sparc
    } else if num == 0x03 {
        Architecture::x86
    } else if num == 0x08 {
        Architecture::MIPS
    } else if num == 0x14 {
        Architecture::PowerPC
    } else if num == 0x28 {
        Architecture::ARM
    } else if num == 0x2A {
        Architecture::SuperH
    } else if num == 0x32 {
        Architecture::Itanium64
    } else if num == 0x3E {
        Architecture::x86_64
    } else if num == 0xB7 {
        Architecture::AArch64
    } else if num == 0xF3 {
        Architecture::RISC_V
    } else {
        Architecture::Unknown(num)
    }
}

impl Architecture {
    pub fn from_u16(num: u16) -> (r: Architecture)
        ensures
            r == architecture_of(num),
    {
        match num {
            0x02 => Architecture::Sparc,
            0x03 => Architecture::x86,
            0x08 => Architecture::MIPS,
            0x14 => Architecture::PowerPC,
            0x28 => Architecture::ARM,
            0x2A => Architecture::SuperH,
            0x32 => Architecture::Itanium64,
            0x3E => Architecture::x86_64,
            0xB7 => Architecture::AArch64,
            0xF3 => Architecture::RISC_V,
            _ => Architecture::Unknown(num),
        }
    }
}

/// The width class: 1 in the class byte for 32-bit, 2 for 64-bit.
#[allow(non_camel_case_types)]
#[derive(Copy, Clone, Debug)]
pub enum ELFtype {
    _32bit,
    _64bit,
}

/// The declared byte order: 1 in the endianness byte for little, 2 for big.
#[derive(Copy, Clone, Debug)]
pub enum Endian {
    LittleEndian,
    BigEndian,
}

/// Where the program-header table is and how the image is entered; offsets
/// are widened to 64 bits for both widths.
#[derive(Copy, Clone, Debug)]
pub struct ProgramInfo {
    pub entry_offset: u64,
    pub program_header_offset: u64,
    pub program_header_entry_size: u16,
    pub program_header_entries: u16,
}

/// Where the section-header table is, and which section names the others.
#[derive(Copy, Clone, Debug)]
pub struct SectionInfo {
    pub section_header_offset: u64,
    pub section_header_entry_size: u16,
    pub section_header_entries: u16,
    pub section_string_table_index: u16,
}

/// The decoded description of an image header.
#[derive(Copy, Clone, Debug)]
pub struct ELFInfo {
    pub elf_type: ELFtype,
    pub elf_endian: Endian,
    pub elf_header_version: u8,
    pub abi_kind: u8,
    pub abi_version: u8,
    pub exe_type: EXEtype,
    pub architecture: Architecture,
    pub elf_version: u32,
    pub flags: u32,
    pub elf_header_size: u16,
    pub program_info: ProgramInfo,
    pub section_info: SectionInfo,
}

/// The three pointer-sized fields of the middle block, widened to 64 bits:
/// entry address, program-header offset, section-header offset.
pub open spec fn widened_middle(m: RawELFHeaderMiddle) -> (u64, u64, u64) {
    match m {
        RawELFHeaderMiddle::_32bit(h) => (
            h.entrypointptr as u64,
            h.programheaderptr as u64,
            h.sectionheaderptr as u64,
        ),
        RawELFHeaderMiddle::_64bit(h) => (h.entrypointptr, h.programheaderptr, h.sectionheaderptr),
    }
}

/// The description of a raw header whose magic, class and endianness bytes
/// have been accepted.
pub open spec fn info_of(raw: RawELFHeader, elf_type: ELFtype, elf_endian: Endian) -> ELFInfo {
    let (entry, ph, sh) = widened_middle(raw.middle);
    ELFInfo {
        elf_type,
        elf_endian,
        elf_header_version: raw.begin.elfheaderversion,
        abi_kind: raw.begin.elfabikind,
        abi_version: raw.begin.elfabiversion,
        exe_type: exe_type_of(raw.begin.elftype),
        architecture: architecture_of(raw.begin.elfinstructionsetarch),
        elf_version: raw.begin.elfversion,
        flags: raw.end.elfflags,
        elf_header_size: raw.end.elfheadersize,
        program_info: ProgramInfo {
            entry_offset: entry,
            program_header_offset: ph,
            program_header_entry_size: raw.end.programheadertableentrysize,
            program_header_entries: raw.end.programheadertableentrycount,
        },
        section_info: SectionInfo {
            section_header_offset: sh,
            section_header_entry_size: raw.end.sectionheadertableentrysize,
            section_header_entries: raw.end.sectionheadertableentrycount,
            section_string_table_index: raw.end.sectionheadernameindex,
        },
    }
}

/// What decoding `b` gives: nothing for a buffer too short for its header,
/// without the magic, or with a class or endianness byte other than 1 or 2.
pub open spec fn decode_header(b: Seq<u8>) -> Option<ELFInfo> {
    if !covers_header(b) || !has_magic(b) || !(b[4] == 1u8 || b[4] == 2u8) || !(b[5] == 1u8
        || b[5] == 2u8) {
        None
    } else {
        let t = if b[4] == 1u8 {
            ELFtype::_32bit
        } else {
            ELFtype::_64bit
        };
        let e = if b[5] == 1u8 {
            Endian::LittleEndian
        } else {
            Endian::BigEndian
        };
        Some(info_of(raw_header_of(b), t, e))
    }
}

impl ELFInfo {
    /// Decodes the header at the start of `bytes`.
    pub fn from_ptr(bytes: &[u8]) -> (r: Option<ELFInfo>)
        ensures
            r == decode_header(bytes@),
            r is Some <==> covers_header(bytes@) && has_magic(bytes@) && (bytes@[4] == 1u8
                || bytes@[4] == 2u8) && (bytes@[5] == 1u8 || bytes@[5] == 2u8),
    {
        if !(bytes.len() >= 64 || (bytes.len() >= 52 && bytes[4] == 1)) {
            return None;
        }
        let raw = RawELFHeader::from_ptr(bytes);
        if !(raw.begin.elfmagic[0] == 0x7F && raw.begin.elfmagic[1] == 0x45
            && raw.begin.elfmagic[2] == 0x4C && raw.begin.elfmagic[3] == 0x46) {
            return None;
        }
        let elf_type: ELFtype = match raw.begin.elfclass {
            1 => ELFtype::_32bit,
            2 => ELFtype::_64bit,
            _ => return None,
        };
        let elf_endian: Endian = match raw.begin.elfendian {
            1 => Endian::LittleEndian,
            2 => Endian::BigEndian,
            _ => return None,
        };
        let exe_type = EXEtype::from_u16(raw.begin.elftype);
        let architecture = Architecture::from_u16(raw.begin.elfinstructionsetarch);
        let program_info = match raw.middle {
            RawELFHeaderMiddle::_32bit(mid) => ProgramInfo {
                entry_offset: mid.entrypointptr as u64,
                program_header_offset: mid.programheaderptr as u64,
                program_header_entry_size: raw.end.programheadertableentrysize,
                program_header_entries: raw.end.programheadertableentrycount,
            },
            RawELFHeaderMiddle::_64bit(mid) => ProgramInfo {
                entry_offset: mid.entrypointptr,
                program_header_offset: mid.programheaderptr,
                program_header_entry_size: raw.end.programheadertableentrysize,
                program_header_entries: raw.end.programheadertableentrycount,
            },
        };
        let section_info = match raw.middle {
            RawELFHeaderMiddle::_32bit(mid) => SectionInfo {
                section_header_offset: mid.sectionheaderptr as u64,
                section_header_entry_size: raw.end.sectionheadertableentrysize,
                section_header_entries: raw.end.sectionheadertableentrycount,
                section_string_table_index: raw.end.sectionheadernameindex,
            },
            RawELFHeaderMiddle::_64bit(mid) => SectionInfo {
                section_header_offset: mid.sectionheaderptr,
                section_header_entry_size: raw.end.sectionheadertableentrysize,
                section_header_entries: raw.end.sectionheadertableentrycount,
                section_string_table_index: raw.end.sectionheadernameindex,
            },
        };
        Some(
            ELFInfo {
                elf_type,
                elf_endian,
                elf_header_version: raw.begin.elfheaderversion,
                abi_kind: raw.begin.elfabikind,
                abi_version: raw.begin.elfabiversion,
                exe_type,
                architecture,
                elf_version: raw.begin.elfversion,
                flags: raw.end.elfflags,
                elf_header_size: raw.end.elfheadersize,
                program_info,
                section_info,
            },
        )
    }
}

/// The eight bytes of `v`, least significant first.
pub open spec fn u64_le_bytes(v: u64) -> Seq<u8> {
    seq![
        v as u8,
        (v >> 8u64) as u8,
        (v >> 16u64) as u8,
        (v >> 24u64) as u8,
        (v >> 32u64) as u8,
        (v >> 40u64) as u8,
        (v >> 48u64) as u8,
        (v >> 56u64) as u8,
    ]
}

/// The four bytes of `v`, least significant first.
pub open spec fn u32_le_bytes(v: u32) -> Seq<u8> {
    seq![v as u8, (v >> 8u32) as u8, (v >> 16u32) as u8, (v >> 24u32) as u8]
}

proof fn lemma_u64_bytes_compose(v: u64)
    by (bit_vector)
    ensures
        ((v as u8) as u64) | ((((v >> 8u64) as u8) as u64) << 8u64) | ((((v >> 16u64) as u8) as u64)
            << 16u64) | ((((v >> 24u64) as u8) as u64) << 24u64) | ((((v >> 32u64) as u8) as u64)
            << 32u64) | ((((v >> 40u64) as u8) as u64) << 40u64) | ((((v >> 48u64) as u8) as u64)
            << 48u64) | ((((v >> 56u64) as u8) as u64) << 56u64) == v,
{
}

proof fn lemma_u32_bytes_compose(v: u32)
    by (bit_vector)
    ensures
        ((v as u8) as u32) | ((((v >> 8u32) as u8) as u32) << 8u32) | ((((v >> 16u32) as u8) as u32)
            << 16u32) | ((((v >> 24u32) as u8) as u32) << 24u32) == v,
{
}

/// A value written least significant byte first at `at` reads back unchanged.
pub proof fn lemma_le_u64_round_trip(b: Seq<u8>, at: int, v: u64)
    requires
        0 <= at,
        at + 8 <= b.len(),
        b.subrange(at, at + 8) == u64_le_bytes(v),
    ensures
        le_u64(b, at) == v,
{
    assert forall|k: int| 0 <= k < 8 implies b[at + k] == u64_le_bytes(v)[k] by {
        assert(b[at + k] == b.subrange(at, at + 8)[k]);
    }
    lemma_u64_bytes_compose(v);
}

/// A value written least significant byte first at `at` reads back unchanged.
pub proof fn lemma_le_u32_round_trip(b: Seq<u8>, at: int, v: u32)
    requires
        0 <= at,
        at + 4 <= b.len(),
        b.subrange(at, at + 4) == u32_le_bytes(v),
    ensures
        le_u32(b, at) == v,
{
    assert forall|k: int| 0 <= k < 4 implies b[at + k] == u32_le_bytes(v)[k] by {
        assert(b[at + k] == b.subrange(at, at + 4)[k]);
    }
    lemma_u32_bytes_compose(v);
}

/// A buffer that does not open with the magic bytes decodes to nothing.
pub proof fn lemma_no_magic_no_result(b: Seq<u8>)
    requires
        !has_magic(b),
    ensures
        decode_header(b) is None,
{
}

/// In a 64-bit little-endian header, the program-header and section-header
/// offsets written at bytes 32 and 40 come back exactly from decoding.
pub proof fn lemma_offsets_round_trip_64(b: Seq<u8>, ph: u64, sh: u64)
    requires
        b.len() >= 64,
        has_magic(b),
        b[4] == 2u8,
        b[5] == 1u8,
        b.subrange(32, 40) == u64_le_bytes(ph),
        b.subrange(40, 48) == u64_le_bytes(sh),
    ensures
        decode_header(b) is Some,
        decode_header(b)->Some_0.elf_type == ELFtype::_64bit,
        decode_header(b)->Some_0.program_info.program_header_offset == ph,
        decode_header(b)->Some_0.section_info.section_header_offset == sh,
{
    lemma_le_u64_round_trip(b, 32, ph);
    lemma_le_u64_round_trip(b, 40, sh);
}

/// In any 32-bit header, the entry address and the two table offsets decode
/// to the 32-bit values written at bytes 24, 28 and 32, widened with zero
/// upper bits.
pub proof fn lemma_widened_fields_32(b: Seq<u8>, entry: u32, ph: u32, sh: u32)
    requires
        b.len() >= 52,
        has_magic(b),
        b[4] == 1u8,
        b[5] == 1u8 || b[5] == 2u8,
        b.subrange(24, 28) == u32_le_bytes(entry),
        b.subrange(28, 32) == u32_le_bytes(ph),
        b.subrange(32, 36) == u32_le_bytes(sh),
    ensures
        decode_header(b) is Some,
        decode_header(b)->Some_0.elf_type == ELFtype::_32bit,
        decode_header(b)->Some_0.program_info.entry_offset == entry as u64,
        decode_header(b)->Some_0.program_info.program_header_offset == ph as u64,
        decode_header(b)->Some_0.section_info.section_header_offset == sh as u64,
        decode_header(b)->Some_0.program_info.entry_offset >> 32u64 == 0,
        decode_header(b)->Some_0.program_info.program_header_offset >> 32u64 == 0,
        decode_header(b)->Some_0.section_info.section_header_offset >> 32u64 == 0,
{
    lemma_le_u32_round_trip(b, 24, entry);
    lemma_le_u32_round_trip(b, 28, ph);
    lemma_le_u32_round_trip(b, 32, sh);
    assert((entry as u64) >> 32u64 == 0) by (bit_vector);
    assert((ph as u64) >> 32u64 == 0) by (bit_vector);
    assert((sh as u64) >> 32u64 == 0) by (bit_vector);
}

} // verus!
