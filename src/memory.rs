//! Flat byte-addressed guest memory and the executor's errors.
use crate::elf::ElfError;
use vstd::prelude::*;

verus! {

/// The size of a memory made by `Memory::with_default_size`: 16 MiB.
pub const DEFAULT_MEMORY_SIZE: usize = 0x100_0000;

/// `d[o] + 2^8 d[o+1]`.
pub open spec fn le16(d: Seq<u8>, o: int) -> int {
    d[o] + d[o + 1] * 0x100
}

/// `d[o] + 2^8 d[o+1] + 2^16 d[o+2] + 2^24 d[o+3]`.
pub open spec fn le32(d: Seq<u8>, o: int) -> int {
    d[o] + d[o + 1] * 0x100 + d[o + 2] * 0x1_0000 + d[o + 3] * 0x100_0000
}

/// `m` with the four little-endian bytes of `v` at `a..a + 4`.
pub open spec fn store32(m: Seq<u8>, a: int, v: u32) -> Seq<u8> {
    Seq::new(
        m.len(),
        |t: int|
            if t == a {
                (v % 0x100) as u8
            } else if t == a + 1 {
                ((v / 0x100) % 0x100) as u8
            } else if t == a + 2 {
                ((v / 0x1_0000) % 0x100) as u8
            } else if t == a + 3 {
                (v / 0x100_0000) as u8
            } else {
                m[t]
            },
    )
}

/// The little-endian 16-bit value at `o`.
pub fn read_le16(d: &[u8], o: usize) -> (r: u16)
    requires
        o + 2 <= d@.len(),
    ensures
        r == le16(d@, o as int),
{
    d[o] as u16 + d[o + 1] as u16 * 0x100
}

/// The little-endian 32-bit value at `o`.
pub fn read_le32(d: &[u8], o: usize) -> (r: u32)
    requires
        o + 4 <= d@.len(),
    ensures
        r == le32(d@, o as int),
{
    d[o] as u32 + d[o + 1] as u32 * 0x100 + d[o + 2] as u32 * 0x1_0000 + d[o + 3] as u32
        * 0x100_0000
}

/// A vector holding a copy of `d`.
pub fn copy_bytes(d: &[u8]) -> (r: Vec<u8>)
    ensures
        r@ == d@,
{
    let mut out: Vec<u8> = Vec::with_capacity(d.len());
    let mut i: usize = 0;
    while i < d.len()
        invariant
            i <= d@.len(),
            out@ == d@.subrange(0, i as int),
        decreases d@.len() - i,
    {
        out.push(d[i]);
        i = i + 1;
        proof {
            assert(out@ =~= d@.subrange(0, i as int));
        }
    }
    proof {
        assert(out@ =~= d@);
    }
    out
}

/// Why a memory access failed.
#[derive(Clone, Copy, Debug, PartialEq, Eq, Structural)]
pub enum MemoryFaultKind {
    OutOfBounds,
    Unaligned,
}

/// Errors of the executor; each is fatal to proof production.
#[derive(Clone, Copy, Debug, PartialEq, Eq, Structural)]
pub enum ExecutorError {
    InvalidElf(ElfError),
    IllegalInstruction { pc: u32, opcode: u32 },
    MemoryFault { addr: u32, kind: MemoryFaultKind },
}

/// Guest memory: `size` bytes addressed from zero.
pub struct Memory {
    bytes: Vec<u8>,
}

impl View for Memory {
    type V = Seq<u8>;

    closed spec fn view(&self) -> Seq<u8> {
        self.bytes@
    }
}

impl Memory {
    /// A zeroed memory of `size` bytes.
    pub fn new(size: usize) -> (r: Memory)
        ensures
            r@ == Seq::new(size as nat, |i: int| 0u8),
    {
        let bytes = vec![0u8; size];
        proof {
            assert(bytes@ =~= Seq::new(size as nat, |i: int| 0u8));
        }
        Memory { bytes }
    }

    /// A zeroed memory of `DEFAULT_MEMORY_SIZE` bytes.
    pub fn with_default_size() -> (r: Memory)
        ensures
            r@ == Seq::new(DEFAULT_MEMORY_SIZE as nat, |i: int| 0u8),
    {
        Memory::new(DEFAULT_MEMORY_SIZE)
    }

    /// The number of addressable bytes.
    pub fn size(&self) -> (r: usize)
        ensures
            r == self@.len(),
    {
        self.bytes.len()
    }

    /// The byte at `addr`.
    pub fn read_u8(&self, addr: u32) -> (r: Result<u8, ExecutorError>)
        ensures
            addr < self@.len() ==> r == Ok::<u8, ExecutorError>(self@[addr as int]),
            addr >= self@.len() ==> r == Err::<u8, ExecutorError>(
                ExecutorError::MemoryFault { addr, kind: MemoryFaultKind::OutOfBounds },
            ),
    {
        if (addr as usize) < self.bytes.len() {
            Ok(self.bytes[addr as usize])
        } else {
            Err(ExecutorError::MemoryFault { addr, kind: MemoryFaultKind::OutOfBounds })
        }
    }

    /// Writes `value` at `addr`; memory is unchanged on failure.
    pub fn write_u8(&mut self, addr: u32, value: u8) -> (r: Result<(), ExecutorError>)
        ensures
            addr < old(self)@.len() ==> r is Ok && final(self)@ == old(self)@.update(
                addr as int,
                value,
            ),
            addr >= old(self)@.len() ==> r == Err::<(), ExecutorError>(
                ExecutorError::MemoryFault { addr, kind: MemoryFaultKind::OutOfBounds },
            ) && final(self)@ == old(self)@,
    {
        if (addr as usize) < self.bytes.len() {
            self.bytes.set(addr as usize, value);
            Ok(())
        } else {
            Err(ExecutorError::MemoryFault { addr, kind: MemoryFaultKind::OutOfBounds })
        }
    }

    /// The little-endian word at `addr`, which must be 4-aligned and in bounds.
    pub fn read_u32(&self, addr: u32) -> (r: Result<u32, ExecutorError>)
        ensures
            addr % 4 != 0 ==> r == Err::<u32, ExecutorError>(
                ExecutorError::MemoryFault { addr, kind: MemoryFaultKind::Unaligned },
            ),
            addr % 4 == 0 && addr + 4 > self@.len() ==> r == Err::<u32, ExecutorError>(
                ExecutorError::MemoryFault { addr, kind: MemoryFaultKind::OutOfBounds },
            ),
            addr % 4 == 0 && addr + 4 <= self@.len() ==> r == Ok::<u32, ExecutorError>(
                le32(self@, addr as int) as u32,
            ),
    {
        if addr % 4 != 0 {
            return Err(ExecutorError::MemoryFault { addr, kind: MemoryFaultKind::Unaligned });
        }
        if addr as u64 + 4 > self.bytes.len() as u64 {
            return Err(ExecutorError::MemoryFault { addr, kind: MemoryFaultKind::OutOfBounds });
        }
        Ok(read_le32(self.bytes.as_slice(), addr as usize))
    }

    /// Writes the little-endian bytes of `value` at `addr`, which must be 4-aligned and in
    /// bounds; memory is unchanged on failure.
    pub fn write_u32(&mut self, addr: u32, value: u32) -> (r: Result<(), ExecutorError>)
        ensures
            addr % 4 != 0 ==> r == Err::<(), ExecutorError>(
                ExecutorError::MemoryFault { addr, kind: MemoryFaultKind::Unaligned },
            ) && final(self)@ == old(self)@,
            addr % 4 == 0 && addr + 4 > old(self)@.len() ==> r == Err::<(), ExecutorError>(
                ExecutorError::MemoryFault { addr, kind: MemoryFaultKind::OutOfBounds },
            ) && final(self)@ == old(self)@,
            addr % 4 == 0 && addr + 4 <= old(self)@.len() ==> r is Ok && final(self)@ == store32(
                old(self)@,
                addr as int,
                value,
            ),
    {
        if addr % 4 != 0 {
            return Err(ExecutorError::MemoryFault { addr, kind: MemoryFaultKind::Unaligned });
        }
        if addr as u64 + 4 > self.bytes.len() as u64 {
            return Err(ExecutorError::MemoryFault { addr, kind: MemoryFaultKind::OutOfBounds });
        }
        let a = addr as usize;
        let b0 = (value & 0xff) as u8;
        let b1 = ((value >> 8) & 0xff) as u8;
        let b2 = ((value >> 16) & 0xff) as u8;
        let b3 = (value >> 24) as u8;
        assert(b0 == value % 0x100 && b1 == (value / 0x100) % 0x100 && b2 == (value / 0x1_0000)
            % 0x100 && b3 == value / 0x100_0000) by (bit_vector)
            requires
                b0 == (value & 0xff) as u8,
                b1 == ((value >> 8) & 0xff) as u8,
                b2 == ((value >> 16) & 0xff) as u8,
                b3 == (value >> 24) as u8,
        ;
        self.bytes.set(a, b0);
        self.bytes.set(a + 1, b1);
        self.bytes.set(a + 2, b2);
        self.bytes.set(a + 3, b3);
        proof {
            assert(self.bytes@ =~= store32(old(self)@, addr as int, value));
        }
        Ok(())
    }

    /// Copies `data` to `addr..addr + data.len()`; memory is unchanged on failure.
    pub fn load_program(&mut self, addr: u32, data: &[u8]) -> (r: Result<(), ExecutorError>)
        ensures
            addr + data@.len() <= old(self)@.len() ==> r is Ok && final(self)@ == old(self)@.subrange(
                0,
                addr as int,
            ) + data@ + old(self)@.subrange(addr + data@.len(), old(self)@.len() as int),
            addr + data@.len() > old(self)@.len() ==> r == Err::<(), ExecutorError>(
                ExecutorError::MemoryFault { addr, kind: MemoryFaultKind::OutOfBounds },
            ) && final(self)@ == old(self)@,
    {
        if data.len() > self.bytes.len() || addr as usize > self.bytes.len() - data.len() {
            return Err(ExecutorError::MemoryFault { addr, kind: MemoryFaultKind::OutOfBounds });
        }
        let start = addr as usize;
        let end = start + data.len();
        let mut i: usize = 0;
        while i < data.len()
            invariant
                end == start + data@.len(),
                end <= self.bytes@.len(),
                start == addr,
                i <= data@.len(),
                self.bytes@.len() == old(self)@.len(),
                forall|j: int|
                    0 <= j < self.bytes@.len() ==> #[trigger] self.bytes@[j] == if start <= j < start
                        + i {
                        data@[j - start]
                    } else {
                        old(self)@[j]
                    },
            decreases data@.len() - i,
        {
            self.bytes.set(start + i, data[i]);
            i = i + 1;
        }
        proof {
            assert(self.bytes@ =~= old(self)@.subrange(0, addr as int) + data@ + old(self)@.subrange(
                addr + data@.len(),
                old(self)@.len() as int,
            ));
        }
        Ok(())
    }
}

} // verus!
