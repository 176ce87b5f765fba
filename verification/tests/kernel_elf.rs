use smultron::elf::{
    parse_elf_header, plan_exec_in_slot, probe_elf_for_slot, read_u16, read_u32, read_u64,
    validate_elf_for_slot, AppSlot, ElfError, PT_LOAD,
};

struct Seg {
    p_type: u32,
    offset: u64,
    vaddr: u64,
    filesz: u64,
    memsz: u64,
}

fn put16(b: &mut Vec<u8>, off: usize, v: u16) {
    b[off..off + 2].copy_from_slice(&v.to_le_bytes());
}

fn put32(b: &mut Vec<u8>, off: usize, v: u32) {
    b[off..off + 4].copy_from_slice(&v.to_le_bytes());
}

fn put64(b: &mut Vec<u8>, off: usize, v: u64) {
    b[off..off + 8].copy_from_slice(&v.to_le_bytes());
}

fn elf(entry: u64, segs: &[Seg], extra: usize) -> Vec<u8> {
    let mut b = vec![0u8; 64 + 56 * segs.len() + extra];
    b[0] = 0x7f;
    b[1] = b'E';
    b[2] = b'L';
    b[3] = b'F';
    b[4] = 2;
    b[5] = 1;
    put64(&mut b, 24, entry);
    put64(&mut b, 32, 64);
    put16(&mut b, 54, 56);
    put16(&mut b, 56, segs.len() as u16);
    for (i, s) in segs.iter().enumerate() {
        let base = 64 + 56 * i;
        put32(&mut b, base, s.p_type);
        put64(&mut b, base + 8, s.offset);
        put64(&mut b, base + 16, s.vaddr);
        put64(&mut b, base + 32, s.filesz);
        put64(&mut b, base + 40, s.memsz);
    }
    b
}

const SLOT: AppSlot = AppSlot { base: 0x10000, end: 0x20000 };

fn good() -> Vec<u8> {
    elf(
        0x10010,
        &[
            Seg { p_type: PT_LOAD, offset: 0, vaddr: 0x10000, filesz: 64, memsz: 128 },
            Seg { p_type: 4, offset: 0, vaddr: 0, filesz: 0, memsz: 0 },
            Seg { p_type: PT_LOAD, offset: 64, vaddr: 0x11000, filesz: 16, memsz: 16 },
        ],
        32,
    )
}

#[test]
fn reads_little_endian_fields() {
    let b = [0x01u8, 0x02, 0x03, 0x04, 0x05, 0x06, 0x07, 0x08];
    assert_eq!(read_u16(&b, 0), Ok(0x0201));
    assert_eq!(read_u32(&b, 4), Ok(0x08070605));
    assert_eq!(read_u64(&b, 0), Ok(0x0807060504030201));
    assert_eq!(read_u32(&b, 5), Err(ElfError::OffsetOutOfBounds));
    assert_eq!(read_u16(&b, 7), Err(ElfError::OffsetOutOfBounds));
}

#[test]
fn header_errors_in_order() {
    assert_eq!(parse_elf_header(&[0u8; 63]), Err(ElfError::TooSmall));
    let mut b = good();
    b[1] = b'X';
    assert_eq!(parse_elf_header(&b), Err(ElfError::BadMagic));
    let mut b = good();
    b[4] = 1;
    assert_eq!(parse_elf_header(&b), Err(ElfError::UnsupportedClass));
    let mut b = good();
    b[5] = 2;
    assert_eq!(parse_elf_header(&b), Err(ElfError::UnsupportedEndianness));
    let mut b = good();
    put16(&mut b, 54, 32);
    assert_eq!(parse_elf_header(&b), Err(ElfError::UnexpectedPhentsize));
}

#[test]
fn header_fields_are_read() {
    let h = parse_elf_header(&good()).unwrap();
    assert_eq!(h.entry, 0x10010);
    assert_eq!(h.phoff, 64);
    assert_eq!(h.phentsize, 56);
    assert_eq!(h.phnum, 3);
}

#[test]
fn accepts_segments_inside_the_slot() {
    let b = good();
    assert!(validate_elf_for_slot(&b, SLOT).is_ok());
    assert!(probe_elf_for_slot(&b, SLOT));
}

#[test]
fn program_header_table_errors() {
    let mut b = good();
    put64(&mut b, 32, u64::MAX - 10);
    assert_eq!(validate_elf_for_slot(&b, SLOT), Err(ElfError::ProgramHeaderOverflow));
    let mut b = good();
    put64(&mut b, 32, 1000);
    assert_eq!(validate_elf_for_slot(&b, SLOT), Err(ElfError::ProgramHeaderOutOfBounds));
}

#[test]
fn segment_errors() {
    let one = |s: Seg| elf(0x10010, &[s], 0);
    let b = one(Seg { p_type: PT_LOAD, offset: 0, vaddr: u64::MAX - 4, filesz: 0, memsz: 8 });
    assert_eq!(validate_elf_for_slot(&b, SLOT), Err(ElfError::LoadRangeOverflow));
    let b = one(Seg { p_type: PT_LOAD, offset: 0, vaddr: 0x1ff00, filesz: 0, memsz: 0x200 });
    assert_eq!(validate_elf_for_slot(&b, SLOT), Err(ElfError::LoadOutsideSlot));
    let b = one(Seg { p_type: PT_LOAD, offset: 0, vaddr: 0xf000, filesz: 0, memsz: 0x10 });
    assert_eq!(validate_elf_for_slot(&b, SLOT), Err(ElfError::LoadOutsideSlot));
    let b = one(Seg { p_type: PT_LOAD, offset: u64::MAX, vaddr: 0x10000, filesz: 2, memsz: 2 });
    assert_eq!(validate_elf_for_slot(&b, SLOT), Err(ElfError::LoadFileRangeOverflow));
    let b = one(Seg { p_type: PT_LOAD, offset: 100, vaddr: 0x10000, filesz: 100, memsz: 100 });
    assert_eq!(validate_elf_for_slot(&b, SLOT), Err(ElfError::LoadFileOutsideElf));
    let b = one(Seg { p_type: PT_LOAD, offset: 0, vaddr: 0x10000, filesz: 16, memsz: 8 });
    assert_eq!(validate_elf_for_slot(&b, SLOT), Err(ElfError::MemszBelowFilesz));
    assert!(!probe_elf_for_slot(&b, SLOT));
}

#[test]
fn other_segment_types_are_not_checked() {
    let b = elf(0x10010, &[Seg { p_type: 2, offset: u64::MAX, vaddr: 0, filesz: 9, memsz: 1 }], 0);
    assert!(validate_elf_for_slot(&b, SLOT).is_ok());
}

#[test]
fn plan_lists_loads_and_entry() {
    let b = good();
    let img = plan_exec_in_slot(&b, SLOT, "a b", "K=V\n").unwrap();
    assert_eq!(img.segments.len(), 2);
    assert_eq!(img.segments[0].p_vaddr, 0x10000);
    assert_eq!(img.segments[0].p_memsz, 128);
    assert_eq!(img.segments[1].p_vaddr, 0x11000);
    assert_eq!(img.segments[1].p_offset, 64);
    let l = img.launch.unwrap();
    assert_eq!(l.entry, 0x10010);
    assert_eq!(l.args, b"a b\0".to_vec());
    assert_eq!(l.env, b"K=V\n\0".to_vec());
}

#[test]
fn plan_refuses_bad_entry_and_long_strings() {
    let b = elf(0, &[], 0);
    let img = plan_exec_in_slot(&b, SLOT, "", "").unwrap();
    assert_eq!(img.launch.err(), Some(ElfError::InvalidEntry));
    let b = good();
    let long_args = "x".repeat(192);
    let img = plan_exec_in_slot(&b, SLOT, &long_args, "").unwrap();
    assert_eq!(img.launch.err(), Some(ElfError::ArgsTooLong));
    let long_env = "y".repeat(512);
    let img = plan_exec_in_slot(&b, SLOT, "", &long_env).unwrap();
    assert_eq!(img.launch.err(), Some(ElfError::EnvTooLong));
    let img = plan_exec_in_slot(&b, SLOT, &"x".repeat(191), &"y".repeat(511)).unwrap();
    assert!(img.launch.is_ok());
    assert_eq!(plan_exec_in_slot(&[1, 2, 3], SLOT, "", "").err(), Some(ElfError::TooSmall));
}

#[test]
fn error_messages() {
    assert_eq!(ElfError::BadMagic.message(), "invalid ELF magic");
    assert_eq!(ElfError::LoadOutsideSlot.message(), "PT_LOAD outside app slot");
    assert_eq!(ElfError::MemszBelowFilesz.message(), "PT_LOAD memsz < filesz");
    assert_eq!(ElfError::EnvTooLong.message(), "env too long");
}
