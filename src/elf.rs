//! Loader of 32-bit little-endian RISC-V ELF executables.
use crate::memory::{copy_bytes, le16, le32, read_le16, read_le32, ExecutorError, Memory, MemoryFaultKind};
use vstd::prelude::*;

verus! {

/// ELF class: 32-bit.
pub const ELFCLASS32: u8 = 1;

/// ELF data encoding: little-endian.
pub const ELFDATA2LSB: u8 = 1;

/// ELF machine type: RISC-V.
pub const EM_RISCV: u16 = 243;

/// Program header type: loadable segment.
pub const PT_LOAD: u32 = 1;

/// Section flag: writable.
pub const SHF_WRITE: u32 = 0x1;

/// Section flag: occupies memory during execution.
pub const SHF_ALLOC: u32 = 0x2;

/// Section flag: executable.
pub const SHF_EXECINSTR: u32 = 0x4;

/// Segment flag: executable.
pub const PF_X: u32 = 0x1;

/// Segment flag: writable.
pub const PF_W: u32 = 0x2;

/// Segment flag: readable.
pub const PF_R: u32 = 0x4;

/// Size of the ELF32 file header.
pub const EHDR_SIZE: usize = 52;

/// Why a file is not an acceptable executable.
#[derive(Clone, Copy, Debug, PartialEq, Eq, Structural)]
pub enum ElfError {
    /// Shorter than the 52-byte file header.
    TooSmall,
    /// Does not start with `\x7fELF`.
    BadMagic,
    /// Class is not 32-bit.
    NotElf32,
    /// Data encoding is not little-endian.
    NotLittleEndian,
    /// Machine is not RISC-V.
    NotRiscV { machine: u16 },
    /// A program header lies past the end of the file.
    ProgramHeaderOutOfBounds,
    /// A segment's file bytes lie past the end of the file.
    SegmentOutOfBounds,
}

/// ELF file header (32-bit).
#[derive(Clone, Copy, Debug, PartialEq, Eq, Structural)]
pub struct Elf32Header {
    pub entry: u32,
    pub phoff: u32,
    pub shoff: u32,
    pub flags: u32,
    pub ehsize: u16,
    pub phentsize: u16,
    pub phnum: u16,
    pub shentsize: u16,
    pub shnum: u16,
    pub shstrndx: u16,
}

/// Program header (32-bit).
#[derive(Clone, Copy, Debug, PartialEq, Eq, Structural)]
pub struct Elf32ProgramHeader {
    pub p_type: u32,
    pub p_offset: u32,
    pub p_vaddr: u32,
    pub p_paddr: u32,
    pub p_filesz: u32,
    pub p_memsz: u32,
    pub p_flags: u32,
    pub p_align: u32,
}

/// Offset of program header `i` in the file.
pub open spec fn ph_offset(d: Seq<u8>, i: int) -> int {
    le32(d, 28) + i * le16(d, 42)
}

/// The first reason, if any, for which the file header or program header table of `d`
/// is rejected.
pub open spec fn header_check(d: Seq<u8>) -> Option<ElfError> {
    if d.len() < 52 {
        Some(ElfError::TooSmall)
    } else if !(d[0] == 0x7f && d[1] == 0x45 && d[2] == 0x4c && d[3] == 0x46) {
        Some(ElfError::BadMagic)
    } else if d[4] != ELFCLASS32 {
        Some(ElfError::NotElf32)
    } else if d[5] != ELFDATA2LSB {
        Some(ElfError::NotLittleEndian)
    } else if le16(d, 18) != EM_RISCV {
        Some(ElfError::NotRiscV { machine: le16(d, 18) as u16 })
    } else if le16(d, 44) > 0 && ph_offset(d, le16(d, 44) - 1) + 32 > d.len() {
        Some(ElfError::ProgramHeaderOutOfBounds)
    } else {
        None
    }
}

/// The file header fields read from `d`.
pub open spec fn spec_header(d: Seq<u8>) -> Elf32Header {
    Elf32Header {
        entry: le32(d, 24) as u32,
        phoff: le32(d, 28) as u32,
        shoff: le32(d, 32) as u32,
        flags: le32(d, 36) as u32,
        ehsize: le16(d, 40) as u16,
        phentsize: le16(d, 42) as u16,
        phnum: le16(d, 44) as u16,
        shentsize: le16(d, 46) as u16,
        shnum: le16(d, 48) as u16,
        shstrndx: le16(d, 50) as u16,
    }
}

/// The program header read from `d` at offset `o`.
pub open spec fn spec_program_header(d: Seq<u8>, o: int) -> Elf32ProgramHeader {
    Elf32ProgramHeader {
        p_type: le32(d, o) as u32,
        p_offset: le32(d, o + 4) as u32,
        p_vaddr: le32(d, o + 8) as u32,
        p_paddr: le32(d, o + 12) as u32,
        p_filesz: le32(d, o + 16) as u32,
        p_memsz: le32(d, o + 20) as u32,
        p_flags: le32(d, o + 24) as u32,
        p_align: le32(d, o + 28) as u32,
    }
}

pub open spec fn is_loadable(ph: Elf32ProgramHeader) -> bool {
    ph.p_type == PT_LOAD
}

/// Bytes of memory that a segment occupies: the larger of its file and memory sizes.
pub open spec fn segment_span(ph: Elf32ProgramHeader) -> int {
    if ph.p_memsz > ph.p_filesz {
        ph.p_memsz as int
    } else {
        ph.p_filesz as int
    }
}

/// Memory after loading one segment: its file bytes, then zeros up to its memory size.
/// The segment must lie in memory and below 2^32.
pub open spec fn load_segment(mem: Seq<u8>, d: Seq<u8>, ph: Elf32ProgramHeader) -> Result<
    Seq<u8>,
    ExecutorError,
> {
    if ph.p_offset + ph.p_filesz > d.len() {
        Err(ExecutorError::InvalidElf(ElfError::SegmentOutOfBounds))
    } else if ph.p_vaddr + segment_span(ph) > mem.len() || ph.p_vaddr + segment_span(ph)
        > 0x1_0000_0000 {
        Err(ExecutorError::MemoryFault { addr: ph.p_vaddr, kind: MemoryFaultKind::OutOfBounds })
    } else {
        Ok(
            Seq::new(
                mem.len(),
                |t: int|
                    if ph.p_vaddr <= t < ph.p_vaddr + segment_span(ph) {
                        if t - ph.p_vaddr < ph.p_filesz {
                            d[ph.p_offset + t - ph.p_vaddr]
                        } else {
                            0u8
                        }
                    } else {
                        mem[t]
                    },
            ),
        )
    }
}

/// Memory after loading `segs` in order, or the first error.
pub open spec fn load_segments(mem: Seq<u8>, d: Seq<u8>, segs: Seq<Elf32ProgramHeader>) -> Result<
    Seq<u8>,
    ExecutorError,
>
    decreases segs.len(),
{
    if segs.len() == 0 {
        Ok(mem)
    } else {
        match load_segment(mem, d, segs[0]) {
            Ok(m) => load_segments(m, d, segs.drop_first()),
            Err(e) => Err(e),
        }
    }
}

/// Lowest virtual address of `segs`, `u32::MAX` for none.
pub open spec fn low_bound(segs: Seq<Elf32ProgramHeader>) -> u32
    decreases segs.len(),
{
    if segs.len() == 0 {
        u32::MAX
    } else {
        let rest = low_bound(segs.drop_last());
        if segs.last().p_vaddr < rest {
            segs.last().p_vaddr
        } else {
            rest
        }
    }
}

/// Highest end address `vaddr + memsz` of `segs` (saturated at `u32::MAX`), 0 for none.
pub open spec fn high_bound(segs: Seq<Elf32ProgramHeader>) -> u32
    decreases segs.len(),
{
    if segs.len() == 0 {
        0
    } else {
        let rest = high_bound(segs.drop_last());
        let end = if segs.last().p_vaddr + segs.last().p_memsz > u32::MAX {
            u32::MAX
        } else {
            (segs.last().p_vaddr + segs.last().p_memsz) as u32
        };
        if end > rest {
            end
        } else {
            rest
        }
    }
}

/// A parsed ELF executable.
pub struct ElfLoader {
    data: Vec<u8>,
    header: Elf32Header,
    program_headers: Vec<Elf32ProgramHeader>,
}

impl ElfLoader {
    /// The raw file.
    pub closed spec fn spec_data(&self) -> Seq<u8> {
        self.data@
    }

    /// The file header.
    pub closed spec fn spec_header(&self) -> Elf32Header {
        self.header
    }

    /// The program header table.
    pub closed spec fn spec_program_headers(&self) -> Seq<Elf32ProgramHeader> {
        self.program_headers@
    }

    /// The program headers of loadable segments, in file order.
    pub open spec fn spec_loadable(&self) -> Seq<Elf32ProgramHeader> {
        self.spec_program_headers().filter(|ph: Elf32ProgramHeader| is_loadable(ph))
    }

    /// Parses the file header and the program header table of `data`.
    pub fn parse(data: &[u8]) -> (r: Result<ElfLoader, ExecutorError>)
        ensures
            match header_check(data@) {
                Some(e) => r == Err::<ElfLoader, ExecutorError>(ExecutorError::InvalidElf(e)),
                None => r matches Ok(l) && l.spec_data() == data@ && l.spec_header()
                    == spec_header(data@) && l.spec_program_headers().len() == le16(data@, 44)
                    && forall|i: int|
                    0 <= i < le16(data@, 44) ==> #[trigger] l.spec_program_headers()[i]
                        == spec_program_header(data@, ph_offset(data@, i)),
            },
    {
        if data.len() < EHDR_SIZE {
            return Err(ExecutorError::InvalidElf(ElfError::TooSmall));
        }
        if !(data[0] == 0x7f && data[1] == 0x45 && data[2] == 0x4c && data[3] == 0x46) {
            return Err(ExecutorError::InvalidElf(ElfError::BadMagic));
        }
        if data[4] != ELFCLASS32 {
            return Err(ExecutorError::InvalidElf(ElfError::NotElf32));
        }
        if data[5] != ELFDATA2LSB {
            return Err(ExecutorError::InvalidElf(ElfError::NotLittleEndian));
        }
        let machine = read_le16(data, 18);
        if machine != EM_RISCV {
            return Err(ExecutorError::InvalidElf(ElfError::NotRiscV { machine }));
        }
        let header = Elf32Header {
            entry: read_le32(data, 24),
            phoff: read_le32(data, 28),
            shoff: read_le32(data, 32),
            flags: read_le32(data, 36),
            ehsize: read_le16(data, 40),
            phentsize: read_le16(data, 42),
            phnum: read_le16(data, 44),
            shentsize: read_le16(data, 46),
            shnum: read_le16(data, 48),
            shstrndx: read_le16(data, 50),
        };
        let ghost d = data@;
        let phoff = header.phoff as u64;
        let phentsize = header.phentsize as u64;
        let phnum = header.phnum as u64;
        let mut program_headers: Vec<Elf32ProgramHeader> = Vec::new();
        let mut i: u64 = 0;
        while i < phnum
            invariant
                d == data@,
                d.len() >= 52,
                d[0] == 0x7f && d[1] == 0x45 && d[2] == 0x4c && d[3] == 0x46,
                d[4] == ELFCLASS32 && d[5] == ELFDATA2LSB,
                le16(d, 18) == EM_RISCV,
                header == spec_header(d),
                phoff == le32(d, 28),
                phentsize == le16(d, 42),
                phnum == le16(d, 44),
                i <= phnum,
                program_headers@.len() == i,
                forall|j: int|
                    0 <= j < i ==> #[trigger] program_headers@[j] == spec_program_header(
                        d,
                        ph_offset(d, j),
                    ),
                forall|j: int| 0 <= j < i ==> ph_offset(d, j) + 32 <= d.len(),
            decreases phnum - i,
        {
            assert(i * phentsize <= 0xffff * 0xffff) by (nonlinear_arith)
                requires
                    i < phnum,
                    phnum <= 0xffff,
                    phentsize <= 0xffff,
            ;
            let offset = phoff + i * phentsize;
            if offset + 32 > data.len() as u64 {
                proof {
                    assert(ph_offset(d, phnum - 1) >= ph_offset(d, i as int)) by (nonlinear_arith)
                        requires
                            i < phnum,
                            phentsize >= 0,
                            ph_offset(d, phnum - 1) == phoff + (phnum - 1) * phentsize,
                            ph_offset(d, i as int) == phoff + i * phentsize,
                    ;
                }
                return Err(ExecutorError::InvalidElf(ElfError::ProgramHeaderOutOfBounds));
            }
            let o = offset as usize;
            let ph = Elf32ProgramHeader {
                p_type: read_le32(data, o),
                p_offset: read_le32(data, o + 4),
                p_vaddr: read_le32(data, o + 8),
                p_paddr: read_le32(data, o + 12),
                p_filesz: read_le32(data, o + 16),
                p_memsz: read_le32(data, o + 20),
                p_flags: read_le32(data, o + 24),
                p_align: read_le32(data, o + 28),
            };
            program_headers.push(ph);
            i = i + 1;
        }
        proof {
            if phnum > 0 {
                assert(ph_offset(d, phnum - 1) + 32 <= d.len());
            }
        }
        Ok(ElfLoader { data: copy_bytes(data), header, program_headers })
    }

    /// The entry point address.
    pub fn entry_point(&self) -> (r: u32)
        ensures
            r == self.spec_header().entry,
    {
        self.header.entry
    }

    /// The loadable segments, in file order.
    pub fn loadable_segments(&self) -> (r: Vec<Elf32ProgramHeader>)
        ensures
            r@ == self.spec_loadable(),
    {
        let mut out: Vec<Elf32ProgramHeader> = Vec::new();
        let mut i: usize = 0;
        while i < self.program_headers.len()
            invariant
                i <= self.program_headers@.len(),
                out@ == self.program_headers@.subrange(0, i as int).filter(
                    |ph: Elf32ProgramHeader| is_loadable(ph),
                ),
            decreases self.program_headers@.len() - i,
        {
            let ph = self.program_headers[i];
            let ghost s = self.program_headers@.subrange(0, i + 1);
            proof {
                assert(s.drop_last() =~= self.program_headers@.subrange(0, i as int));
                assert(s.last() == ph);
                reveal(Seq::filter);
            }
            if ph.p_type == PT_LOAD {
                out.push(ph);
            }
            i = i + 1;
            proof {
                assert(s == self.program_headers@.subrange(0, i as int));
            }
        }
        proof {
            assert(self.program_headers@.subrange(0, i as int) =~= self.program_headers@);
        }
        out
    }

    /// Copies one segment's file bytes to its address and zero-fills the rest of its
    /// memory size.
    fn load_segment_into(&self, ph: Elf32ProgramHeader, memory: &mut Memory) -> (r: Result<
        (),
        ExecutorError,
    >)
        ensures
            match load_segment(old(memory)@, self.spec_data(), ph) {
                Ok(m) => r is Ok && final(memory)@ == m,
                Err(e) => r == Err::<(), ExecutorError>(e),
            },
    {
        let file_offset = ph.p_offset as u64;
        let file_size = ph.p_filesz as u64;
        let mem_size = ph.p_memsz as u64;
        let addr = ph.p_vaddr as u64;
        if file_offset + file_size > self.data.len() as u64 {
            return Err(ExecutorError::InvalidElf(ElfError::SegmentOutOfBounds));
        }
        let span = if mem_size > file_size {
            mem_size
        } else {
            file_size
        };
        let size = memory.size();
        if addr + span > size as u64 || addr + span > 0x1_0000_0000 {
            return Err(
                ExecutorError::MemoryFault { addr: ph.p_vaddr, kind: MemoryFaultKind::OutOfBounds },
            );
        }
        let ghost mem0 = memory@;
        let ghost d = self.data@;
        let dlen = self.data.len();
        let mut j: u64 = 0;
        while j < span
            invariant
                d == self.data@,
                dlen == d.len(),
                span == segment_span(ph),
                addr == ph.p_vaddr,
                file_size == ph.p_filesz,
                file_offset == ph.p_offset,
                file_offset + file_size <= d.len(),
                addr + span <= mem0.len(),
                addr + span <= 0x1_0000_0000,
                j <= span,
                memory@.len() == mem0.len(),
                forall|t: int|
                    0 <= t < mem0.len() ==> #[trigger] memory@[t] == if addr <= t < addr + j {
                        if t - addr < file_size {
                            d[file_offset + t - addr]
                        } else {
                            0u8
                        }
                    } else {
                        mem0[t]
                    },
            decreases span - j,
        {
            let byte = if j < file_size {
                self.data[(file_offset + j) as usize]
            } else {
                0u8
            };
            let _ = memory.write_u8((addr + j) as u32, byte);
            j = j + 1;
        }
        proof {
            let m = load_segment(mem0, d, ph)->Ok_0;
            assert(memory@ =~= m);
        }
        Ok(())
    }

    /// Loads every loadable segment into `memory`, in order, and returns the entry point.
    pub fn load_into_memory(&self, memory: &mut Memory) -> (r: Result<u32, ExecutorError>)
        ensures
            match load_segments(old(memory)@, self.spec_data(), self.spec_loadable()) {
                Ok(m) => r == Ok::<u32, ExecutorError>(self.spec_header().entry)
                    && final(memory)@ == m,
                Err(e) => r == Err::<u32, ExecutorError>(e),
            },
    {
        let segs = self.loadable_segments();
        let ghost goal = load_segments(memory@, self.data@, segs@);
        proof {
            assert(segs@.subrange(0, segs@.len() as int) =~= segs@);
        }
        let mut i: usize = 0;
        while i < segs.len()
            invariant
                i <= segs@.len(),
                segs@ == self.spec_loadable(),
                goal == load_segments(old(memory)@, self.data@, self.spec_loadable()),
                goal == load_segments(memory@, self.data@, segs@.subrange(i as int, segs@.len() as int)),
            decreases segs@.len() - i,
        {
            let ghost rest = segs@.subrange(i as int, segs@.len() as int);
            proof {
                assert(rest.drop_first() =~= segs@.subrange(i + 1, segs@.len() as int));
                assert(rest[0] == segs@[i as int]);
            }
            let ghost before = memory@;
            let res = self.load_segment_into(segs[i], memory);
            proof {
                assert(goal == load_segments(before, self.data@, rest));
                if res is Err {
                    assert(load_segment(before, self.data@, rest[0]) == Err::<Seq<u8>, ExecutorError>(res->Err_0));
                    assert(goal == Err::<Seq<u8>, ExecutorError>(res->Err_0));
                }
            }
            match res {
                Ok(()) => {},
                Err(e) => {
                    return Err(e);
                },
            }
            i = i + 1;
        }
        proof {
            assert(segs@.subrange(i as int, segs@.len() as int) =~= Seq::<Elf32ProgramHeader>::empty());
        }
        Ok(self.header.entry)
    }

    /// Lowest start and highest end address over the loadable segments.
    pub fn memory_bounds(&self) -> (r: (u32, u32))
        ensures
            r == (low_bound(self.spec_loadable()), high_bound(self.spec_loadable())),
    {
        let segs = self.loadable_segments();
        let mut low = u32::MAX;
        let mut high = 0u32;
        let mut i: usize = 0;
        while i < segs.len()
            invariant
                i <= segs@.len(),
                low == low_bound(segs@.subrange(0, i as int)),
                high == high_bound(segs@.subrange(0, i as int)),
            decreases segs@.len() - i,
        {
            let ph = segs[i];
            proof {
                assert(segs@.subrange(0, i + 1).drop_last() =~= segs@.subrange(0, i as int));
            }
            if ph.p_vaddr < low {
                low = ph.p_vaddr;
            }
            let end = ph.p_vaddr.saturating_add(ph.p_memsz);
            if end > high {
                high = end;
            }
            i = i + 1;
        }
        proof {
            assert(segs@.subrange(0, i as int) =~= segs@);
        }
        (low, high)
    }

    /// `high - low` of the memory bounds, or 0 when there is no loadable byte.
    pub fn total_memory_size(&self) -> (r: u32)
        ensures
            r == if high_bound(self.spec_loadable()) > low_bound(self.spec_loadable()) {
                (high_bound(self.spec_loadable()) - low_bound(self.spec_loadable())) as u32
            } else {
                0
            },
    {
        let (low, high) = self.memory_bounds();
        if high > low {
            high - low
        } else {
            0
        }
    }

    /// The file header.
    pub fn header(&self) -> (r: &Elf32Header)
        ensures
            *r == self.spec_header(),
    {
        &self.header
    }

    /// The program header table.
    pub fn program_headers(&self) -> (r: &[Elf32ProgramHeader])
        ensures
            r@ == self.spec_program_headers(),
    {
        self.program_headers.as_slice()
    }
}

/// The two little-endian bytes of `x`.
pub open spec fn le16_bytes(x: u16) -> Seq<u8> {
    seq![(x % 0x100) as u8, (x / 0x100) as u8]
}

/// The four little-endian bytes of `x`.
pub open spec fn le32_bytes(x: u32) -> Seq<u8> {
    seq![
        (x % 0x100) as u8,
        ((x / 0x100) % 0x100) as u8,
        ((x / 0x1_0000) % 0x100) as u8,
        (x / 0x100_0000) as u8,
    ]
}

fn push_le16(v: &mut Vec<u8>, x: u16)
    ensures
        final(v)@ == old(v)@ + le16_bytes(x),
{
    let b0 = (x & 0xff) as u8;
    let b1 = (x >> 8) as u8;
    assert(b0 == x % 0x100 && b1 == x / 0x100) by (bit_vector)
        requires
            b0 == (x & 0xff) as u8,
            b1 == (x >> 8) as u8,
    ;
    v.push(b0);
    v.push(b1);
    proof {
        assert(final(v)@ =~= old(v)@ + le16_bytes(x));
    }
}

pub(crate) fn push_le32(v: &mut Vec<u8>, x: u32)
    ensures
        final(v)@ == old(v)@ + le32_bytes(x),
{
    let b0 = (x & 0xff) as u8;
    let b1 = ((x >> 8) & 0xff) as u8;
    let b2 = ((x >> 16) & 0xff) as u8;
    let b3 = (x >> 24) as u8;
    assert(b0 == x % 0x100 && b1 == (x / 0x100) % 0x100 && b2 == (x / 0x1_0000) % 0x100 && b3 == x
        / 0x100_0000) by (bit_vector)
        requires
            b0 == (x & 0xff) as u8,
            b1 == ((x >> 8) & 0xff) as u8,
            b2 == ((x >> 16) & 0xff) as u8,
            b3 == (x >> 24) as u8,
    ;
    v.push(b0);
    v.push(b1);
    v.push(b2);
    v.push(b3);
    proof {
        assert(final(v)@ =~= old(v)@ + le32_bytes(x));
    }
}

/// The 52-byte file header of an executable with entry `entry` and one program header.
pub open spec fn test_elf_header(entry: u32) -> Seq<u8> {
    seq![0x7fu8, 0x45, 0x4c, 0x46, ELFCLASS32, ELFDATA2LSB, 1, 0, 0, 0, 0, 0, 0, 0, 0, 0]
        + le16_bytes(2) + le16_bytes(EM_RISCV) + le32_bytes(1) + le32_bytes(entry) + le32_bytes(52)
        + le32_bytes(0) + le32_bytes(0) + le16_bytes(52) + le16_bytes(32) + le16_bytes(1)
        + le16_bytes(0) + le16_bytes(0) + le16_bytes(0)
}

/// The program header of one readable, executable segment of `size` bytes at file
/// offset 84, loaded at `load_addr`.
pub open spec fn test_elf_segment(load_addr: u32, size: u32) -> Seq<u8> {
    le32_bytes(PT_LOAD) + le32_bytes(84) + le32_bytes(load_addr) + le32_bytes(load_addr)
        + le32_bytes(size) + le32_bytes(size) + le32_bytes(PF_R | PF_X) + le32_bytes(4)
}

/// Builds a minimal executable: file header, one loadable segment at `load_addr`
/// holding `code`, then `code` itself.
pub fn build_test_elf(code: &[u8], entry: u32, load_addr: u32) -> (r: Vec<u8>)
    requires
        code@.len() <= u32::MAX,
    ensures
        r@ == test_elf_header(entry) + test_elf_segment(load_addr, code@.len() as u32) + code@,
{
    let mut elf: Vec<u8> = Vec::new();
    elf.push(0x7f);
    elf.push(0x45);
    elf.push(0x4c);
    elf.push(0x46);
    elf.push(ELFCLASS32);
    elf.push(ELFDATA2LSB);
    elf.push(1);
    elf.push(0);
    let mut k: usize = 0;
    while k < 8
        invariant
            k <= 8,
            elf@.len() == 8 + k,
            elf@ == seq![0x7fu8, 0x45, 0x4c, 0x46, ELFCLASS32, ELFDATA2LSB, 1, 0] + Seq::new(
                k as nat,
                |i: int| 0u8,
            ),
        decreases 8 - k,
    {
        elf.push(0);
        k = k + 1;
        proof {
            assert(elf@ =~= seq![0x7fu8, 0x45, 0x4c, 0x46, ELFCLASS32, ELFDATA2LSB, 1, 0] + Seq::new(
                k as nat,
                |i: int| 0u8,
            ));
        }
    }
    proof {
        assert(elf@ =~= seq![0x7fu8, 0x45, 0x4c, 0x46, ELFCLASS32, ELFDATA2LSB, 1, 0, 0, 0, 0, 0, 0, 0, 0, 0]);
    }
    push_le16(&mut elf, 2);
    push_le16(&mut elf, EM_RISCV);
    push_le32(&mut elf, 1);
    push_le32(&mut elf, entry);
    push_le32(&mut elf, 52);
    push_le32(&mut elf, 0);
    push_le32(&mut elf, 0);
    push_le16(&mut elf, 52);
    push_le16(&mut elf, 32);
    push_le16(&mut elf, 1);
    push_le16(&mut elf, 0);
    push_le16(&mut elf, 0);
    push_le16(&mut elf, 0);
    let ghost header = elf@;
    let size = code.len() as u32;
    let mut seg: Vec<u8> = Vec::new();
    push_le32(&mut seg, PT_LOAD);
    push_le32(&mut seg, 84);
    push_le32(&mut seg, load_addr);
    push_le32(&mut seg, load_addr);
    push_le32(&mut seg, size);
    push_le32(&mut seg, size);
    push_le32(&mut seg, PF_R | PF_X);
    push_le32(&mut seg, 4);
    proof {
        assert(seg@ =~= test_elf_segment(load_addr, size));
    }
    let mut i: usize = 0;
    while i < seg.len()
        invariant
            i <= seg@.len(),
            elf@ == header + seg@.subrange(0, i as int),
        decreases seg@.len() - i,
    {
        elf.push(seg[i]);
        i = i + 1;
        proof {
            assert(elf@ =~= header + seg@.subrange(0, i as int));
        }
    }
    let ghost with_segment = elf@;
    let mut j: usize = 0;
    while j < code.len()
        invariant
            j <= code@.len(),
            elf@ == with_segment + code@.subrange(0, j as int),
        decreases code@.len() - j,
    {
        elf.push(code[j]);
        j = j + 1;
        proof {
            assert(elf@ =~= with_segment + code@.subrange(0, j as int));
        }
    }
    proof {
        assert(seg@.subrange(0, i as int) =~= seg@);
        assert(code@.subrange(0, j as int) =~= code@);
    }
    elf
}

} // verus!
