use zp1::elf::{build_test_elf, ElfError, ElfLoader, PT_LOAD};
use zp1::memory::{ExecutorError, Memory, MemoryFaultKind};

#[test]
fn test_build_and_parse_elf() {
    let code = vec![0x93, 0x00, 0xa0, 0x02, 0x73, 0x00, 0x00, 0x00];
    let elf_data = build_test_elf(&code, 0x1000, 0x1000);
    let loader = ElfLoader::parse(&elf_data).expect("Failed to parse ELF");
    assert_eq!(loader.entry_point(), 0x1000);
    assert_eq!(loader.loadable_segments().len(), 1);
}

#[test]
fn test_load_into_memory() {
    let code = vec![0x93, 0x00, 0xa0, 0x02, 0x73, 0x00, 0x00, 0x00];
    let elf_data = build_test_elf(&code, 0x1000, 0x1000);
    let loader = ElfLoader::parse(&elf_data).unwrap();
    let mut memory = Memory::with_default_size();
    let entry = loader.load_into_memory(&mut memory).unwrap();
    assert_eq!(entry, 0x1000);
    let instr = memory.read_u32(0x1000).unwrap();
    assert_eq!(instr, 0x02a00093);
}

#[test]
fn test_invalid_elf() {
    let bad_data = vec![0x00, 0x01, 0x02, 0x03];
    let result = ElfLoader::parse(&bad_data);
    assert!(result.is_err());
}

#[test]
fn test_memory_bounds() {
    let code = vec![0x00; 100];
    let elf_data = build_test_elf(&code, 0x2000, 0x2000);
    let loader = ElfLoader::parse(&elf_data).unwrap();
    let (low, high) = loader.memory_bounds();
    assert_eq!(low, 0x2000);
    assert_eq!(high, 0x2000 + 100);
    assert_eq!(loader.total_memory_size(), 100);
}

#[test]
fn header_rejections_name_their_reason() {
    let good = build_test_elf(&[1, 2, 3, 4], 0x10, 0x10);
    let mut bad_magic = good.clone();
    bad_magic[1] = b'X';
    assert_eq!(ElfLoader::parse(&bad_magic).err(), Some(ExecutorError::InvalidElf(ElfError::BadMagic)));
    let mut class64 = good.clone();
    class64[4] = 2;
    assert_eq!(ElfLoader::parse(&class64).err(), Some(ExecutorError::InvalidElf(ElfError::NotElf32)));
    let mut big_endian = good.clone();
    big_endian[5] = 2;
    assert_eq!(ElfLoader::parse(&big_endian).err(), Some(ExecutorError::InvalidElf(ElfError::NotLittleEndian)));
    let mut x86 = good.clone();
    x86[18] = 3;
    x86[19] = 0;
    assert_eq!(
        ElfLoader::parse(&x86).err(),
        Some(ExecutorError::InvalidElf(ElfError::NotRiscV { machine: 3 }))
    );
    assert_eq!(ElfLoader::parse(&good[..51]).err(), Some(ExecutorError::InvalidElf(ElfError::TooSmall)));
    assert_eq!(
        ElfLoader::parse(&good[..70]).err(),
        Some(ExecutorError::InvalidElf(ElfError::ProgramHeaderOutOfBounds))
    );
}

#[test]
fn header_fields_and_segment() {
    let elf = build_test_elf(&[9; 12], 0x400, 0x300);
    assert_eq!(elf.len(), 84 + 12);
    let loader = ElfLoader::parse(&elf).unwrap();
    let h = loader.header();
    assert_eq!(h.entry, 0x400);
    assert_eq!(h.phoff, 52);
    assert_eq!(h.phnum, 1);
    assert_eq!(h.phentsize, 32);
    let ph = loader.program_headers()[0];
    assert_eq!(ph.p_type, PT_LOAD);
    assert_eq!(ph.p_offset, 84);
    assert_eq!(ph.p_vaddr, 0x300);
    assert_eq!(ph.p_filesz, 12);
    assert_eq!(ph.p_memsz, 12);
    assert_eq!(ph.p_flags, 5);
}

#[test]
fn segment_past_memory_faults() {
    let elf = build_test_elf(&[1, 2, 3, 4], 0, 0xFFC);
    let loader = ElfLoader::parse(&elf).unwrap();
    let mut small = Memory::new(0x1000);
    assert_eq!(loader.load_into_memory(&mut small), Ok(0));
    assert_eq!(small.read_u32(0xFFC), Ok(0x04030201));
    let mut tiny = Memory::new(0xFFE);
    assert_eq!(
        loader.load_into_memory(&mut tiny),
        Err(ExecutorError::MemoryFault { addr: 0xFFC, kind: MemoryFaultKind::OutOfBounds })
    );
}

#[test]
fn segment_bytes_past_file_are_rejected() {
    let mut elf = build_test_elf(&[1, 2, 3, 4], 0, 0x100);
    elf.truncate(86);
    let loader = ElfLoader::parse(&elf).unwrap();
    let mut memory = Memory::new(0x1000);
    assert_eq!(
        loader.load_into_memory(&mut memory),
        Err(ExecutorError::InvalidElf(ElfError::SegmentOutOfBounds))
    );
}

#[test]
fn memory_faults() {
    let mut m = Memory::new(16);
    assert_eq!(m.read_u32(2), Err(ExecutorError::MemoryFault { addr: 2, kind: MemoryFaultKind::Unaligned }));
    assert_eq!(m.read_u32(16), Err(ExecutorError::MemoryFault { addr: 16, kind: MemoryFaultKind::OutOfBounds }));
    assert_eq!(m.write_u8(16, 1), Err(ExecutorError::MemoryFault { addr: 16, kind: MemoryFaultKind::OutOfBounds }));
    assert_eq!(m.write_u8(15, 7), Ok(()));
    assert_eq!(m.read_u8(15), Ok(7));
    assert_eq!(m.load_program(14, &[1, 2, 3]), Err(ExecutorError::MemoryFault { addr: 14, kind: MemoryFaultKind::OutOfBounds }));
    assert_eq!(m.load_program(12, &[1, 2, 3, 4]), Ok(()));
    assert_eq!(m.read_u32(12), Ok(0x04030201));
}
