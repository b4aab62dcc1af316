use bootcore::elf::{Architecture, ELFInfo, ELFtype, EXEtype, Endian, RawELFHeader, RawELFHeaderMiddle};

fn put(buf: &mut [u8], at: usize, bytes: &[u8]) {
    buf[at..at + bytes.len()].copy_from_slice(bytes);
}

/// A 64-bit header with the given class, endianness, type, machine, entry
/// and table offsets.
fn header64(class: u8, endian: u8, exe: u16, machine: u16, entry: u64, ph: u64, sh: u64) -> Vec<u8> {
    let mut b = vec![0u8; 64];
    put(&mut b, 0, &[0x7F, b'E', b'L', b'F', class, endian, 1, 0, 0]);
    put(&mut b, 16, &exe.to_le_bytes());
    put(&mut b, 18, &machine.to_le_bytes());
    put(&mut b, 20, &1u32.to_le_bytes());
    put(&mut b, 24, &entry.to_le_bytes());
    put(&mut b, 32, &ph.to_le_bytes());
    put(&mut b, 40, &sh.to_le_bytes());
    put(&mut b, 48, &0x11u32.to_le_bytes());
    put(&mut b, 52, &64u16.to_le_bytes());
    put(&mut b, 54, &56u16.to_le_bytes());
    put(&mut b, 56, &3u16.to_le_bytes());
    put(&mut b, 58, &64u16.to_le_bytes());
    put(&mut b, 60, &7u16.to_le_bytes());
    put(&mut b, 62, &6u16.to_le_bytes());
    b
}

fn header32(entry: u32, ph: u32, sh: u32) -> Vec<u8> {
    let mut b = vec![0u8; 52];
    put(&mut b, 0, &[0x7F, b'E', b'L', b'F', 1, 1, 1, 3, 2]);
    put(&mut b, 16, &3u16.to_le_bytes());
    put(&mut b, 18, &3u16.to_le_bytes());
    put(&mut b, 20, &1u32.to_le_bytes());
    put(&mut b, 24, &entry.to_le_bytes());
    put(&mut b, 28, &ph.to_le_bytes());
    put(&mut b, 32, &sh.to_le_bytes());
    put(&mut b, 36, &0x22u32.to_le_bytes());
    put(&mut b, 40, &52u16.to_le_bytes());
    put(&mut b, 42, &32u16.to_le_bytes());
    put(&mut b, 44, &4u16.to_le_bytes());
    put(&mut b, 46, &40u16.to_le_bytes());
    put(&mut b, 48, &9u16.to_le_bytes());
    put(&mut b, 50, &8u16.to_le_bytes());
    b
}

#[test]
fn decodes_x86_64_executable() {
    let b = header64(2, 1, 2, 0x3E, 0x401000, 64, 0x2000);
    let info = ELFInfo::from_ptr(&b).unwrap();
    assert!(matches!(info.architecture, Architecture::x86_64));
    assert!(matches!(info.exe_type, EXEtype::Executable));
    assert!(matches!(info.elf_type, ELFtype::_64bit));
    assert!(matches!(info.elf_endian, Endian::LittleEndian));
    assert_eq!(info.program_info.entry_offset, 0x401000);
    assert_eq!(info.program_info.program_header_offset, 64);
    assert_eq!(info.program_info.program_header_entry_size, 56);
    assert_eq!(info.program_info.program_header_entries, 3);
    assert_eq!(info.section_info.section_header_offset, 0x2000);
    assert_eq!(info.section_info.section_header_entry_size, 64);
    assert_eq!(info.section_info.section_header_entries, 7);
    assert_eq!(info.section_info.section_string_table_index, 6);
    assert_eq!(info.flags, 0x11);
    assert_eq!(info.elf_header_size, 64);
    assert_eq!(info.elf_version, 1);
    assert_eq!(info.elf_header_version, 1);
}

#[test]
fn missing_magic_gives_nothing() {
    for i in 0..4 {
        let mut b = header64(2, 1, 2, 0x3E, 0x401000, 64, 0x2000);
        b[i] ^= 0xFF;
        assert!(ELFInfo::from_ptr(&b).is_none());
    }
    assert!(ELFInfo::from_ptr(&[0u8; 64]).is_none());
    assert!(ELFInfo::from_ptr(&[]).is_none());
}

#[test]
fn unsupported_class_or_endianness_gives_nothing() {
    for class in [0u8, 3, 0xFF] {
        assert!(ELFInfo::from_ptr(&header64(class, 1, 2, 0x3E, 0, 0, 0)).is_none());
    }
    for endian in [0u8, 3, 0xFF] {
        assert!(ELFInfo::from_ptr(&header64(2, endian, 2, 0x3E, 0, 0, 0)).is_none());
    }
    let big = ELFInfo::from_ptr(&header64(2, 2, 2, 0x3E, 0, 0, 0)).unwrap();
    assert!(matches!(big.elf_endian, Endian::BigEndian));
}

#[test]
fn short_buffer_gives_nothing() {
    let b = header64(2, 1, 2, 0x3E, 0, 0, 0);
    assert!(ELFInfo::from_ptr(&b[..63]).is_none());
    let c = header32(1, 2, 3);
    assert!(ELFInfo::from_ptr(&c[..51]).is_none());
}

#[test]
fn offsets_round_trip_in_64_bit_header() {
    for (ph, sh) in [(0u64, 0u64), (64, 0x1234_5678_9ABC_DEF0), (u64::MAX, 1)] {
        let info = ELFInfo::from_ptr(&header64(2, 1, 2, 0x3E, 0, ph, sh)).unwrap();
        assert_eq!(info.program_info.program_header_offset, ph);
        assert_eq!(info.section_info.section_header_offset, sh);
    }
}

#[test]
fn fields_of_32_bit_header_are_widened() {
    let info = ELFInfo::from_ptr(&header32(0xFFFF_FFFF, 0x34, 0x8000_0000)).unwrap();
    assert!(matches!(info.elf_type, ELFtype::_32bit));
    assert!(matches!(info.architecture, Architecture::x86));
    assert!(matches!(info.exe_type, EXEtype::Shared));
    assert_eq!(info.program_info.entry_offset, 0x0000_0000_FFFF_FFFF);
    assert_eq!(info.program_info.program_header_offset, 0x34);
    assert_eq!(info.section_info.section_header_offset, 0x0000_0000_8000_0000);
    assert_eq!(info.flags, 0x22);
    assert_eq!(info.elf_header_size, 52);
    assert_eq!(info.program_info.program_header_entry_size, 32);
    assert_eq!(info.program_info.program_header_entries, 4);
    assert_eq!(info.section_info.section_header_entry_size, 40);
    assert_eq!(info.section_info.section_header_entries, 9);
    assert_eq!(info.section_info.section_string_table_index, 8);
    assert_eq!(info.abi_kind, 3);
    assert_eq!(info.abi_version, 2);
}

#[test]
fn raw_header_picks_middle_by_class() {
    let raw = RawELFHeader::from_ptr(&header32(5, 6, 7));
    match raw.middle {
        RawELFHeaderMiddle::_32bit(m) => {
            assert_eq!((m.entrypointptr, m.programheaderptr, m.sectionheaderptr), (5, 6, 7));
        }
        RawELFHeaderMiddle::_64bit(_) => panic!("expected the 32-bit middle block"),
    }
    assert_eq!(raw.end.elfflags, 0x22);
    let raw64 = RawELFHeader::from_ptr(&header64(2, 1, 1, 0xB7, 8, 9, 10));
    match raw64.middle {
        RawELFHeaderMiddle::_64bit(m) => {
            assert_eq!((m.entrypointptr, m.programheaderptr, m.sectionheaderptr), (8, 9, 10));
        }
        RawELFHeaderMiddle::_32bit(_) => panic!("expected the 64-bit middle block"),
    }
    assert_eq!(raw64.begin.elfmagic, [0x7F, 0x45, 0x4C, 0x46]);
    assert_eq!(raw64.end.sectionheadernameindex, 6);
}

#[test]
fn unknown_type_and_machine_are_kept() {
    let info = ELFInfo::from_ptr(&header64(2, 1, 0xFE00, 0x1234, 0, 0, 0)).unwrap();
    assert!(matches!(info.exe_type, EXEtype::Unknown(0xFE00)));
    assert!(matches!(info.architecture, Architecture::Unknown(0x1234)));
}

#[test]
fn known_machines_and_types() {
    let machines = [
        (0x02u16, "Sparc"), (0x03, "x86"), (0x08, "MIPS"), (0x14, "PowerPC"), (0x28, "ARM"),
        (0x2A, "SuperH"), (0x32, "Itanium64"), (0x3E, "x86_64"), (0xB7, "AArch64"), (0xF3, "RISC_V"),
    ];
    for (num, name) in machines {
        assert_eq!(format!("{:?}", Architecture::from_u16(num)), name);
    }
    assert_eq!(format!("{:?}", Architecture::from_u16(0)), "Unknown(0)");
    let types = [(0u16, "Unspecified"), (1, "Relocatable"), (2, "Executable"), (3, "Shared"), (4, "Core")];
    for (num, name) in types {
        assert_eq!(format!("{:?}", EXEtype::from_u16(num)), name);
    }
    assert_eq!(format!("{:?}", EXEtype::from_u16(5)), "Unknown(5)");
}
