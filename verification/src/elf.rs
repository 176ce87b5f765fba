//! ELF64 executable validation and load planning.
//!
//! An executable is accepted for an application slot when its header is a
//! little-endian ELF64 header with 56-byte program headers, its program
//! header table lies inside the file, and every `PT_LOAD` segment lies inside
//! the slot (in memory) and inside the file (on disk), with `memsz >= filesz`.
use vstd::prelude::*;
use vstd::string::StringSliceAdditionalSpecFns;

verus! {

/// Longest argument string handed to a program (without its terminator).
pub const MAX_ARG_LEN: usize = 191;
/// Longest environment string handed to a program (without its terminator).
pub const MAX_ENV_LEN: usize = 511;
pub const EI_CLASS: usize = 4;
pub const EI_DATA: usize = 5;
pub const ELFCLASS64: u8 = 2;
pub const ELFDATA2LSB: u8 = 1;
pub const PT_LOAD: u32 = 1;
pub const ELF64_EHDR_SIZE: usize = 64;
pub const ELF64_PHDR_SIZE: usize = 56;

/// A region of the address space reserved for one program: `[base, end)`.
#[derive(Clone, Copy, Debug, PartialEq, Eq, Structural)]
pub struct AppSlot {
    pub base: u64,
    pub end: u64,
}

/// Why an executable was refused.
#[derive(Clone, Copy, Debug, PartialEq, Eq, Structural)]
pub enum ElfError {
    OffsetOverflow,
    OffsetOutOfBounds,
    TooSmall,
    BadMagic,
    UnsupportedClass,
    UnsupportedEndianness,
    UnexpectedPhentsize,
    ProgramHeaderOverflow,
    ProgramHeaderOutOfBounds,
    LoadRangeOverflow,
    LoadOutsideSlot,
    LoadFileRangeOverflow,
    LoadFileOutsideElf,
    MemszBelowFilesz,
    MappingFailed,
    InvalidEntry,
    ArgsTooLong,
    EnvTooLong,
}

pub open spec fn spec_elf_error_message(e: ElfError) -> &'static str {
    match e {
        ElfError::OffsetOverflow => "offset overflow",
        ElfError::OffsetOutOfBounds => "offset out of bounds",
        ElfError::TooSmall => "ELF too small",
        ElfError::BadMagic => "invalid ELF magic",
        ElfError::UnsupportedClass => "unsupported ELF class",
        ElfError::UnsupportedEndianness => "unsupported ELF endianness",
        ElfError::UnexpectedPhentsize => "unexpected program header size",
        ElfError::ProgramHeaderOverflow => "program header overflow",
        ElfError::ProgramHeaderOutOfBounds => "program header table out of bounds",
        ElfError::LoadRangeOverflow => "PT_LOAD range overflow",
        ElfError::LoadOutsideSlot => "PT_LOAD outside app slot",
        ElfError::LoadFileRangeOverflow => "PT_LOAD file range overflow",
        ElfError::LoadFileOutsideElf => "PT_LOAD file range outside ELF",
        ElfError::MemszBelowFilesz => "PT_LOAD memsz < filesz",
        ElfError::MappingFailed => "PT_LOAD mapping failed",
        ElfError::InvalidEntry => "invalid ELF entry",
        ElfError::ArgsTooLong => "args too long",
        ElfError::EnvTooLong => "env too long",
    }
}

impl ElfError {
    /// The diagnostic text the kernel logs for this error.
    pub fn message(&self) -> (r: &'static str)
        ensures
            r == spec_elf_error_message(*self),
    {
        match self {
            ElfError::OffsetOverflow => "offset overflow",
            ElfError::OffsetOutOfBounds => "offset out of bounds",
            ElfError::TooSmall => "ELF too small",
            ElfError::BadMagic => "invalid ELF magic",
            ElfError::UnsupportedClass => "unsupported ELF class",
            ElfError::UnsupportedEndianness => "unsupported ELF endianness",
            ElfError::UnexpectedPhentsize => "unexpected program header size",
            ElfError::ProgramHeaderOverflow => "program header overflow",
            ElfError::ProgramHeaderOutOfBounds => "program header table out of bounds",
            ElfError::LoadRangeOverflow => "PT_LOAD range overflow",
            ElfError::LoadOutsideSlot => "PT_LOAD outside app slot",
            ElfError::LoadFileRangeOverflow => "PT_LOAD file range overflow",
            ElfError::LoadFileOutsideElf => "PT_LOAD file range outside ELF",
            ElfError::MemszBelowFilesz => "PT_LOAD memsz < filesz",
            ElfError::MappingFailed => "PT_LOAD mapping failed",
            ElfError::InvalidEntry => "invalid ELF entry",
            ElfError::ArgsTooLong => "args too long",
            ElfError::EnvTooLong => "env too long",
        }
    }
}

/// Little-endian 16-bit value of `b[off..off+2]`.
pub open spec fn le16(b: Seq<u8>, off: int) -> int {
    b[off] as int + 256 * (b[off + 1] as int)
}

/// Little-endian 32-bit value of `b[off..off+4]`.
pub open spec fn le32(b: Seq<u8>, off: int) -> int {
    le16(b, off) + 0x1_0000 * le16(b, off + 2)
}

/// Little-endian 64-bit value of `b[off..off+8]`.
pub open spec fn le64(b: Seq<u8>, off: int) -> int {
    le32(b, off) + 0x1_0000_0000 * le32(b, off + 4)
}

/// The error, if any, of reading `width` bytes at `off` from a buffer of `len` bytes.
pub open spec fn read_error(len: int, off: int, width: int) -> Option<ElfError> {
    if off + width > usize::MAX {
        Some(ElfError::OffsetOverflow)
    } else if off + width > len {
        Some(ElfError::OffsetOutOfBounds)
    } else {
        None
    }
}

/// Reads a little-endian `u16` at `off`.
pub fn read_u16(bytes: &[u8], off: usize) -> (r: Result<u16, ElfError>)
    ensures
        match read_error(bytes@.len() as int, off as int, 2) {
            Some(e) => r == Err::<u16, ElfError>(e),
            None => r matches Ok(v) && v as int == le16(bytes@, off as int),
        },
{
    if off > usize::MAX - 2 {
        return Err(ElfError::OffsetOverflow);
    }
    let end = off + 2;
    if end > bytes.len() {
        return Err(ElfError::OffsetOutOfBounds);
    }
    Ok(bytes[off] as u16 + (bytes[off + 1] as u16) * 256)
}

fn le32_at(bytes: &[u8], off: usize) -> (v: u32)
    requires
        off + 4 <= bytes@.len(),
    ensures
        v as int == le32(bytes@, off as int),
{
    bytes[off] as u32 + (bytes[off + 1] as u32) * 0x100 + (bytes[off + 2] as u32) * 0x1_0000 + (
    bytes[off + 3] as u32) * 0x100_0000
}

/// Reads a little-endian `u32` at `off`.
pub fn read_u32(bytes: &[u8], off: usize) -> (r: Result<u32, ElfError>)
    ensures
        match read_error(bytes@.len() as int, off as int, 4) {
            Some(e) => r == Err::<u32, ElfError>(e),
            None => r matches Ok(v) && v as int == le32(bytes@, off as int),
        },
{
    if off > usize::MAX - 4 {
        return Err(ElfError::OffsetOverflow);
    }
    let end = off + 4;
    if end > bytes.len() {
        return Err(ElfError::OffsetOutOfBounds);
    }
    Ok(le32_at(bytes, off))
}

/// Reads a little-endian `u64` at `off`.
pub fn read_u64(bytes: &[u8], off: usize) -> (r: Result<u64, ElfError>)
    ensures
        match read_error(bytes@.len() as int, off as int, 8) {
            Some(e) => r == Err::<u64, ElfError>(e),
            None => r matches Ok(v) && v as int == le64(bytes@, off as int),
        },
{
    if off > usize::MAX - 8 {
        return Err(ElfError::OffsetOverflow);
    }
    let end = off + 8;
    if end > bytes.len() {
        return Err(ElfError::OffsetOutOfBounds);
    }
    let lo = le32_at(bytes, off);
    let hi = le32_at(bytes, off + 4);
    Ok(lo as u64 + (hi as u64) * 0x1_0000_0000)
}

/// The fields of an ELF64 file header that loading needs.
#[derive(Clone, Copy, Debug, PartialEq, Eq, Structural)]
pub struct ElfHdr {
    pub entry: u64,
    pub phoff: u64,
    pub phentsize: u16,
    pub phnum: u16,
}

/// One ELF64 program header (the fields that loading needs).
#[derive(Clone, Copy, Debug, PartialEq, Eq, Structural)]
pub struct ProgramHeader {
    pub p_type: u32,
    pub p_offset: u64,
    pub p_vaddr: u64,
    pub p_filesz: u64,
    pub p_memsz: u64,
}

pub open spec fn has_elf_magic(b: Seq<u8>) -> bool {
    b[0] == 0x7f && b[1] == 0x45 && b[2] == 0x4c && b[3] == 0x46
}

/// The header that `b` holds, or why it holds none.
pub open spec fn spec_parse_elf_header(b: Seq<u8>) -> Result<ElfHdr, ElfError> {
    if b.len() < ELF64_EHDR_SIZE {
        Err(ElfError::TooSmall)
    } else if !has_elf_magic(b) {
        Err(ElfError::BadMagic)
    } else if b[EI_CLASS as int] != ELFCLASS64 {
        Err(ElfError::UnsupportedClass)
    } else if b[EI_DATA as int] != ELFDATA2LSB {
        Err(ElfError::UnsupportedEndianness)
    } else if le16(b, 54) != ELF64_PHDR_SIZE {
        Err(ElfError::UnexpectedPhentsize)
    } else {
        Ok(
            ElfHdr {
                entry: le64(b, 24) as u64,
                phoff: le64(b, 32) as u64,
                phentsize: le16(b, 54) as u16,
                phnum: le16(b, 56) as u16,
            },
        )
    }
}

/// Parses the ELF64 file header.
pub fn parse_elf_header(bytes: &[u8]) -> (r: Result<ElfHdr, ElfError>)
    ensures
        r == spec_parse_elf_header(bytes@),
{
    if bytes.len() < ELF64_EHDR_SIZE {
        return Err(ElfError::TooSmall);
    }
    if bytes[0] != 0x7f || bytes[1] != 0x45 || bytes[2] != 0x4c || bytes[3] != 0x46 {
        return Err(ElfError::BadMagic);
    }
    if bytes[EI_CLASS] != ELFCLASS64 {
        return Err(ElfError::UnsupportedClass);
    }
    if bytes[EI_DATA] != ELFDATA2LSB {
        return Err(ElfError::UnsupportedEndianness);
    }
    let entry = match read_u64(bytes, 24) {
        Ok(v) => v,
        Err(e) => return Err(e),
    };
    let phoff = match read_u64(bytes, 32) {
        Ok(v) => v,
        Err(e) => return Err(e),
    };
    let phentsize = match read_u16(bytes, 54) {
        Ok(v) => v,
        Err(e) => return Err(e),
    };
    let phnum = match read_u16(bytes, 56) {
        Ok(v) => v,
        Err(e) => return Err(e),
    };
    if phentsize as usize != ELF64_PHDR_SIZE {
        return Err(ElfError::UnexpectedPhentsize);
    }
    Ok(ElfHdr { entry, phoff, phentsize, phnum })
}

/// The error, if any, of locating the program header table of `h` in a file of `len` bytes.
pub open spec fn spec_ph_table_error(len: int, h: ElfHdr) -> Option<ElfError> {
    if h.phentsize * h.phnum > u64::MAX {
        Some(ElfError::ProgramHeaderOverflow)
    } else if h.phoff + h.phentsize * h.phnum > u64::MAX {
        Some(ElfError::ProgramHeaderOverflow)
    } else if h.phoff + h.phentsize * h.phnum > len {
        Some(ElfError::ProgramHeaderOutOfBounds)
    } else {
        None
    }
}

/// The `i`-th program header of `b` under header `h`.
pub open spec fn spec_ph(b: Seq<u8>, h: ElfHdr, i: int) -> ProgramHeader {
    let base = h.phoff + i * ELF64_PHDR_SIZE;
    ProgramHeader {
        p_type: le32(b, base) as u32,
        p_offset: le64(b, base + 8) as u64,
        p_vaddr: le64(b, base + 16) as u64,
        p_filesz: le64(b, base + 32) as u64,
        p_memsz: le64(b, base + 40) as u64,
    }
}

/// Walks the program header table in order.
pub struct ProgramHeaderIter<'a> {
    pub bytes: &'a [u8],
    pub hdr: &'a ElfHdr,
    pub idx: u16,
}

impl<'a> ProgramHeaderIter<'a> {
    /// The table lies inside the bytes and the walk has not passed its end.
    pub open spec fn wf(&self) -> bool {
        &&& self.hdr.phentsize == ELF64_PHDR_SIZE
        &&& self.hdr.phoff + ELF64_PHDR_SIZE * self.hdr.phnum <= self.bytes@.len()
        &&& self.idx <= self.hdr.phnum
    }

    /// The next program header, or `None` past the last one.
    pub fn next(&mut self) -> (r: Option<ProgramHeader>)
        requires
            old(self).wf(),
        ensures
            final(self).wf(),
            final(self).bytes@ == old(self).bytes@,
            *final(self).hdr == *old(self).hdr,
            old(self).idx >= old(self).hdr.phnum ==> r is None && final(self).idx == old(self).idx,
            old(self).idx < old(self).hdr.phnum ==> r == Some(
                spec_ph(old(self).bytes@, *old(self).hdr, old(self).idx as int),
            ) && final(self).idx == old(self).idx + 1,
    {
        if self.idx >= self.hdr.phnum {
            return None;
        }
        assert(self.hdr.phoff + self.idx * 56 + 56 <= self.bytes@.len());
        assert(self.idx as usize * self.hdr.phentsize as usize == self.idx * 56);
        let len = self.bytes.len();
        assert(self.hdr.phoff <= len);
        let phoff = self.hdr.phoff as usize;
        let base = phoff + self.idx as usize * self.hdr.phentsize as usize;
        self.idx = self.idx + 1;
        let p_type = match read_u32(self.bytes, base) {
            Ok(v) => v,
            Err(_) => return None,
        };
        let p_offset = match read_u64(self.bytes, base + 8) {
            Ok(v) => v,
            Err(_) => return None,
        };
        let p_vaddr = match read_u64(self.bytes, base + 16) {
            Ok(v) => v,
            Err(_) => return None,
        };
        let p_filesz = match read_u64(self.bytes, base + 32) {
            Ok(v) => v,
            Err(_) => return None,
        };
        let p_memsz = match read_u64(self.bytes, base + 40) {
            Ok(v) => v,
            Err(_) => return None,
        };
        Some(ProgramHeader { p_type, p_offset, p_vaddr, p_filesz, p_memsz })
    }
}

/// Starts a walk over the program header table, after checking that it lies inside `bytes`.
pub fn program_headers<'a>(bytes: &'a [u8], hdr: &'a ElfHdr) -> (r: Result<
    ProgramHeaderIter<'a>,
    ElfError,
>)
    requires
        hdr.phentsize == ELF64_PHDR_SIZE,
    ensures
        match spec_ph_table_error(bytes@.len() as int, *hdr) {
            Some(e) => r == Err::<ProgramHeaderIter<'a>, ElfError>(e),
            None => r matches Ok(it) && it.wf() && it.bytes@ == bytes@ && *it.hdr == *hdr
                && it.idx == 0,
        },
{
    let total = match (hdr.phentsize as u64).checked_mul(hdr.phnum as u64) {
        Some(t) => t,
        None => return Err(ElfError::ProgramHeaderOverflow),
    };
    let end = match hdr.phoff.checked_add(total) {
        Some(e) => e,
        None => return Err(ElfError::ProgramHeaderOverflow),
    };
    if end > bytes.len() as u64 {
        return Err(ElfError::ProgramHeaderOutOfBounds);
    }
    Ok(ProgramHeaderIter { bytes, hdr, idx: 0 })
}

/// The error, if any, that program header `ph` raises for `slot` in a file of `len` bytes.
pub open spec fn spec_check_ph(ph: ProgramHeader, slot: AppSlot, len: int) -> Option<ElfError> {
    if ph.p_type != PT_LOAD {
        None
    } else if ph.p_vaddr + ph.p_memsz > u64::MAX {
        Some(ElfError::LoadRangeOverflow)
    } else if ph.p_vaddr < slot.base || ph.p_vaddr + ph.p_memsz > slot.end {
        Some(ElfError::LoadOutsideSlot)
    } else if ph.p_offset + ph.p_filesz > u64::MAX {
        Some(ElfError::LoadFileRangeOverflow)
    } else if ph.p_offset + ph.p_filesz > len {
        Some(ElfError::LoadFileOutsideElf)
    } else if ph.p_memsz < ph.p_filesz {
        Some(ElfError::MemszBelowFilesz)
    } else {
        None
    }
}

/// The first error raised by program headers `i..phnum`.
pub open spec fn spec_first_ph_error(b: Seq<u8>, h: ElfHdr, slot: AppSlot, i: nat) -> Option<
    ElfError,
>
    decreases h.phnum - i,
{
    if i >= h.phnum {
        None
    } else {
        match spec_check_ph(spec_ph(b, h, i as int), slot, b.len() as int) {
            Some(e) => Some(e),
            None => spec_first_ph_error(b, h, slot, i + 1),
        }
    }
}

/// Whether `b` is accepted for `slot`, and its header if so.
pub open spec fn spec_validate_elf(b: Seq<u8>, slot: AppSlot) -> Result<ElfHdr, ElfError> {
    match spec_parse_elf_header(b) {
        Err(e) => Err(e),
        Ok(h) => match spec_ph_table_error(b.len() as int, h) {
            Some(e) => Err(e),
            None => match spec_first_ph_error(b, h, slot, 0) {
                Some(e) => Err(e),
                None => Ok(h),
            },
        },
    }
}

proof fn lemma_first_error_after_clean_prefix(b: Seq<u8>, h: ElfHdr, slot: AppSlot, i: nat)
    requires
        i <= h.phnum,
        forall|j: int|
            0 <= j < i ==> (#[trigger] spec_check_ph(spec_ph(b, h, j), slot, b.len() as int))
                is None,
    ensures
        spec_first_ph_error(b, h, slot, 0) == spec_first_ph_error(b, h, slot, i),
    decreases i,
{
    if i > 0 {
        lemma_first_error_after_clean_prefix(b, h, slot, (i - 1) as nat);
        assert(spec_check_ph(spec_ph(b, h, i - 1), slot, b.len() as int) is None);
    }
}

/// Checks the header and every `PT_LOAD` segment of `bytes` against `slot`.
pub fn validate_elf_for_slot(bytes: &[u8], slot: AppSlot) -> (r: Result<ElfHdr, ElfError>)
    ensures
        r == spec_validate_elf(bytes@, slot),
{
    let hdr = match parse_elf_header(bytes) {
        Ok(h) => h,
        Err(e) => return Err(e),
    };
    let mut it = match program_headers(bytes, &hdr) {
        Ok(it) => it,
        Err(e) => return Err(e),
    };
    let ghost b = bytes@;
    loop
        invariant
            it.wf(),
            it.bytes@ == b,
            *it.hdr == hdr,
            b == bytes@,
            spec_parse_elf_header(b) == Ok::<ElfHdr, ElfError>(hdr),
            spec_ph_table_error(b.len() as int, hdr) is None,
            forall|j: int|
                0 <= j < it.idx ==> (#[trigger] spec_check_ph(
                    spec_ph(b, hdr, j),
                    slot,
                    b.len() as int,
                )) is None,
        ensures
            it.idx == hdr.phnum,
            forall|j: int|
                0 <= j < it.idx ==> (#[trigger] spec_check_ph(
                    spec_ph(b, hdr, j),
                    slot,
                    b.len() as int,
                )) is None,
        decreases hdr.phnum - it.idx,
    {
        let ghost i = it.idx as int;
        let ph = match it.next() {
            Some(ph) => ph,
            None => break,
        };
        proof {
            assert(ph == spec_ph(b, hdr, i));
        }
        if ph.p_type != PT_LOAD {
            continue;
        }
        let mem_end = match ph.p_vaddr.checked_add(ph.p_memsz) {
            Some(v) => v,
            None => {
                proof {
                    lemma_first_error_after_clean_prefix(b, hdr, slot, i as nat);
                }
                return Err(ElfError::LoadRangeOverflow);
            },
        };
        if ph.p_vaddr < slot.base || mem_end > slot.end {
            proof {
                lemma_first_error_after_clean_prefix(b, hdr, slot, i as nat);
            }
            return Err(ElfError::LoadOutsideSlot);
        }
        let file_end = match ph.p_offset.checked_add(ph.p_filesz) {
            Some(v) => v,
            None => {
                proof {
                    lemma_first_error_after_clean_prefix(b, hdr, slot, i as nat);
                }
                return Err(ElfError::LoadFileRangeOverflow);
            },
        };
        if file_end > bytes.len() as u64 {
            proof {
                lemma_first_error_after_clean_prefix(b, hdr, slot, i as nat);
            }
            return Err(ElfError::LoadFileOutsideElf);
        }
        if ph.p_memsz < ph.p_filesz {
            proof {
                lemma_first_error_after_clean_prefix(b, hdr, slot, i as nat);
            }
            return Err(ElfError::MemszBelowFilesz);
        }
    }
    proof {
        lemma_first_error_after_clean_prefix(b, hdr, slot, hdr.phnum as nat);
    }
    Ok(hdr)
}

/// Whether `bytes` is an executable that fits `slot`.
pub fn probe_elf_for_slot(bytes: &[u8], slot: AppSlot) -> (r: bool)
    ensures
        r == spec_validate_elf(bytes@, slot) is Ok,
{
    validate_elf_for_slot(bytes, slot).is_ok()
}

/// The `PT_LOAD` headers among the first `n` program headers, in table order.
pub open spec fn spec_loads(b: Seq<u8>, h: ElfHdr, n: nat) -> Seq<ProgramHeader>
    decreases n,
{
    if n == 0 {
        Seq::empty()
    } else {
        let prev = spec_loads(b, h, (n - 1) as nat);
        let ph = spec_ph(b, h, n - 1);
        if ph.p_type == PT_LOAD {
            prev.push(ph)
        } else {
            prev
        }
    }
}

/// A loadable segment lies inside the slot in memory and inside the file on disk.
pub open spec fn spec_segment_fits(ph: ProgramHeader, slot: AppSlot, len: int) -> bool {
    &&& slot.base <= ph.p_vaddr
    &&& ph.p_vaddr + ph.p_memsz <= slot.end
    &&& ph.p_offset + ph.p_filesz <= len
    &&& ph.p_filesz <= ph.p_memsz
}

/// The error, if any, that stops a loaded program from being entered.
pub open spec fn spec_launch_error(h: ElfHdr, args_len: int, env_len: int) -> Option<ElfError> {
    if h.entry == 0 {
        Some(ElfError::InvalidEntry)
    } else if args_len > MAX_ARG_LEN {
        Some(ElfError::ArgsTooLong)
    } else if env_len > MAX_ENV_LEN {
        Some(ElfError::EnvTooLong)
    } else {
        None
    }
}

proof fn lemma_clean_suffix(b: Seq<u8>, h: ElfHdr, slot: AppSlot, i: nat)
    requires
        spec_first_ph_error(b, h, slot, i) is None,
    ensures
        forall|j: int|
            i <= j < h.phnum ==> (#[trigger] spec_check_ph(spec_ph(b, h, j), slot, b.len() as int))
                is None,
    decreases h.phnum - i,
{
    if i < h.phnum {
        lemma_clean_suffix(b, h, slot, i + 1);
    }
}

proof fn lemma_loads_fit(b: Seq<u8>, h: ElfHdr, slot: AppSlot, n: nat)
    requires
        n <= h.phnum,
        forall|j: int|
            0 <= j < h.phnum ==> (#[trigger] spec_check_ph(spec_ph(b, h, j), slot, b.len() as int))
                is None,
    ensures
        forall|k: int|
            0 <= k < spec_loads(b, h, n).len() ==> spec_segment_fits(
                #[trigger] spec_loads(b, h, n)[k],
                slot,
                b.len() as int,
            ),
        forall|k: int|
            0 <= k < spec_loads(b, h, n).len() ==> (#[trigger] spec_loads(b, h, n)[k]).p_type
                == PT_LOAD,
    decreases n,
{
    if n > 0 {
        lemma_loads_fit(b, h, slot, (n - 1) as nat);
        let prev = spec_loads(b, h, (n - 1) as nat);
        let ph = spec_ph(b, h, n - 1);
        assert(spec_check_ph(ph, slot, b.len() as int) is None);
        if ph.p_type == PT_LOAD {
            assert forall|k: int| 0 <= k < spec_loads(b, h, n).len() implies spec_segment_fits(
                #[trigger] spec_loads(b, h, n)[k],
                slot,
                b.len() as int,
            ) && spec_loads(b, h, n)[k].p_type == PT_LOAD by {
                if k < prev.len() {
                    assert(spec_loads(b, h, n)[k] == prev[k]);
                }
            }
        }
    }
}

/// Every segment of an accepted executable lies inside its slot and inside the
/// file, and is at least as large in memory as on disk.
pub proof fn lemma_accepted_segments_fit(b: Seq<u8>, slot: AppSlot, h: ElfHdr)
    requires
        spec_validate_elf(b, slot) == Ok::<ElfHdr, ElfError>(h),
    ensures
        forall|k: int|
            0 <= k < spec_loads(b, h, h.phnum as nat).len() ==> spec_segment_fits(
                #[trigger] spec_loads(b, h, h.phnum as nat)[k],
                slot,
                b.len() as int,
            ),
{
    lemma_clean_suffix(b, h, slot, 0);
    lemma_loads_fit(b, h, slot, h.phnum as nat);
}

/// What entering a loaded program takes: its entry point and the
/// zero-terminated argument and environment strings.
pub struct EntryArgs {
    pub entry: u64,
    pub args: Vec<u8>,
    pub env: Vec<u8>,
}

/// The memory image of a program: each segment is copied from the file at
/// `p_offset` (`p_filesz` bytes) to `p_vaddr` and zero-filled up to `p_memsz`,
/// after the whole slot was cleared; then the program is entered, or refused.
pub struct ExecImage {
    pub segments: Vec<ProgramHeader>,
    pub launch: Result<EntryArgs, ElfError>,
}

fn terminated_copy(s: &[u8]) -> (v: Vec<u8>)
    ensures
        v@ == s@.push(0u8),
{
    let mut v: Vec<u8> = Vec::new();
    let mut i: usize = 0;
    while i < s.len()
        invariant
            i <= s@.len(),
            v@ == s@.subrange(0, i as int),
        decreases s@.len() - i,
    {
        v.push(s[i]);
        i = i + 1;
    }
    v.push(0);
    v
}

/// Plans running `bytes` in `slot`: refuses what `validate_elf_for_slot`
/// refuses, else lists the segments to load and says how to enter it.
pub fn plan_exec_in_slot(bytes: &[u8], slot: AppSlot, args: &str, env: &str) -> (r: Result<
    ExecImage,
    ElfError,
>)
    ensures
        match spec_validate_elf(bytes@, slot) {
            Err(e) => r matches Err(x) && x == e,
            Ok(h) => r matches Ok(img) && img.segments@ == spec_loads(bytes@, h, h.phnum as nat)
                && (forall|k: int|
                0 <= k < img.segments@.len() ==> spec_segment_fits(
                    #[trigger] img.segments@[k],
                    slot,
                    bytes@.len() as int,
                )) && match spec_launch_error(
                h,
                args.spec_bytes().len() as int,
                env.spec_bytes().len() as int,
            ) {
                Some(e) => img.launch matches Err(x) && x == e,
                None => img.launch matches Ok(l) && l.entry == h.entry && l.args@
                    == args.spec_bytes().push(0u8) && l.env@ == env.spec_bytes().push(0u8),
            },
        },
{
    let hdr = match validate_elf_for_slot(bytes, slot) {
        Ok(h) => h,
        Err(e) => return Err(e),
    };
    let mut it = match program_headers(bytes, &hdr) {
        Ok(it) => it,
        Err(_) => return Err(ElfError::MappingFailed),
    };
    let ghost b = bytes@;
    let mut segments: Vec<ProgramHeader> = Vec::new();
    loop
        invariant
            it.wf(),
            it.bytes@ == b,
            *it.hdr == hdr,
            b == bytes@,
            segments@ == spec_loads(b, hdr, it.idx as nat),
        ensures
            segments@ == spec_loads(b, hdr, hdr.phnum as nat),
        decreases hdr.phnum - it.idx,
    {
        let ph = match it.next() {
            Some(ph) => ph,
            None => break,
        };
        if ph.p_type == PT_LOAD {
            segments.push(ph);
        }
    }
    proof {
        lemma_accepted_segments_fit(b, slot, hdr);
    }
    let arg_bytes = args.as_bytes();
    let env_bytes = env.as_bytes();
    let launch = if hdr.entry == 0 {
        Err(ElfError::InvalidEntry)
    } else if arg_bytes.len() > MAX_ARG_LEN {
        Err(ElfError::ArgsTooLong)
    } else if env_bytes.len() > MAX_ENV_LEN {
        Err(ElfError::EnvTooLong)
    } else {
        Ok(
            EntryArgs {
                entry: hdr.entry,
                args: terminated_copy(arg_bytes),
                env: terminated_copy(env_bytes),
            },
        )
    };
    Ok(ExecImage { segments, launch })
}

} // verus!
