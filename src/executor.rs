//! A deterministic RV32IM interpreter over flat memory.
//!
//! Supported: the RV32I base set with word loads and stores, and MUL, MULHU, DIVU, REMU.
//! Any other encoding is an illegal instruction; ECALL and EBREAK halt.
use crate::field::{modp, M31};
use crate::memory::{le32, store32, ExecutorError, Memory, MemoryFaultKind};
use crate::merkle::{is_power_of_two, lemma_power_of_two_gap};
use vstd::prelude::*;

verus! {

pub open spec fn opcode(i: u32) -> u32 {
    i & 0x7f
}

pub open spec fn rd_of(i: u32) -> u32 {
    (i >> 7) & 0x1f
}

pub open spec fn funct3(i: u32) -> u32 {
    (i >> 12) & 7
}

pub open spec fn rs1_of(i: u32) -> u32 {
    (i >> 15) & 0x1f
}

pub open spec fn rs2_of(i: u32) -> u32 {
    (i >> 20) & 0x1f
}

pub open spec fn funct7(i: u32) -> u32 {
    i >> 25
}

/// The sign-extended 12-bit immediate of I-type instructions.
pub open spec fn imm_i(i: u32) -> u32 {
    if i >> 31 == 1 {
        (i >> 20) | 0xffff_f000
    } else {
        i >> 20
    }
}

/// The sign-extended 12-bit immediate of S-type instructions.
pub open spec fn imm_s(i: u32) -> u32 {
    let v = ((i >> 25) << 5) | ((i >> 7) & 0x1f);
    if i >> 31 == 1 {
        v | 0xffff_f000
    } else {
        v
    }
}

/// The sign-extended 13-bit branch offset of B-type instructions.
pub open spec fn imm_b(i: u32) -> u32 {
    let v = (((i >> 7) & 1) << 11) | (((i >> 25) & 0x3f) << 5) | (((i >> 8) & 0xf) << 1);
    if i >> 31 == 1 {
        v | 0xffff_f000
    } else {
        v
    }
}

/// The upper 20-bit immediate of U-type instructions.
pub open spec fn imm_u(i: u32) -> u32 {
    i & 0xffff_f000
}

/// The sign-extended 21-bit jump offset of J-type instructions.
pub open spec fn imm_j(i: u32) -> u32 {
    let v = (i & 0x000f_f000) | (((i >> 20) & 1) << 11) | (((i >> 21) & 0x3ff) << 1);
    if i >> 31 == 1 {
        v | 0xfff0_0000
    } else {
        v
    }
}

/// `a + b mod 2^32`.
pub open spec fn wrap_add(a: u32, b: u32) -> u32 {
    ((a + b) % 0x1_0000_0000) as u32
}

/// `a - b mod 2^32`.
pub open spec fn wrap_sub(a: u32, b: u32) -> u32 {
    ((a - b) % 0x1_0000_0000) as u32
}

/// `a` read as a two's-complement integer.
pub open spec fn signed(a: u32) -> int {
    if a >= 0x8000_0000 {
        a - 0x1_0000_0000
    } else {
        a as int
    }
}

/// Arithmetic right shift.
pub open spec fn sra(a: u32, sh: u32) -> u32 {
    if a >> 31 == 1 {
        !((!a) >> sh)
    } else {
        a >> sh
    }
}

/// The base-set operation of `funct3`; `alt` selects SUB and SRA.
pub open spec fn alu(f3: u32, alt: bool, a: u32, b: u32) -> u32 {
    let sh = b & 0x1f;
    if f3 == 0 {
        if alt {
            wrap_sub(a, b)
        } else {
            wrap_add(a, b)
        }
    } else if f3 == 1 {
        a << sh
    } else if f3 == 2 {
        if signed(a) < signed(b) {
            1
        } else {
            0
        }
    } else if f3 == 3 {
        if a < b {
            1
        } else {
            0
        }
    } else if f3 == 4 {
        a ^ b
    } else if f3 == 5 {
        if alt {
            sra(a, sh)
        } else {
            a >> sh
        }
    } else if f3 == 6 {
        a | b
    } else {
        a & b
    }
}

/// The supported multiply-divide operation of `funct3`, if any.
pub open spec fn muldiv(f3: u32, a: u32, b: u32) -> Option<u32> {
    if f3 == 0 {
        Some(((a * b) % 0x1_0000_0000) as u32)
    } else if f3 == 3 {
        Some(((a * b) / 0x1_0000_0000) as u32)
    } else if f3 == 5 {
        Some(
            if b == 0 {
                0xffff_ffff
            } else {
                (a / b) as u32
            },
        )
    } else if f3 == 7 {
        Some(
            if b == 0 {
                a
            } else {
                (a % b) as u32
            },
        )
    } else {
        None
    }
}

/// Whether a branch of `funct3` is taken.
pub open spec fn branch_taken(f3: u32, a: u32, b: u32) -> bool {
    if f3 == 0 {
        a == b
    } else if f3 == 1 {
        a != b
    } else if f3 == 4 {
        signed(a) < signed(b)
    } else if f3 == 5 {
        signed(a) >= signed(b)
    } else if f3 == 6 {
        a < b
    } else {
        a >= b
    }
}

/// Registers, program counter and memory.
pub struct CpuState {
    pub regs: Seq<u32>,
    pub pc: u32,
    pub mem: Seq<u8>,
}

/// `regs` after writing `v` to register `rd` (register 0 stays zero).
pub open spec fn write_reg(regs: Seq<u32>, rd: u32, v: u32) -> Seq<u32> {
    if rd == 0 {
        regs
    } else {
        regs.update(rd as int, v)
    }
}

/// The 32-bit access at `addr` fails, and how, if it does.
pub open spec fn word_fault(mem: Seq<u8>, addr: u32) -> Option<ExecutorError> {
    if addr % 4 != 0 {
        Some(ExecutorError::MemoryFault { addr, kind: MemoryFaultKind::Unaligned })
    } else if addr + 4 > mem.len() {
        Some(ExecutorError::MemoryFault { addr, kind: MemoryFaultKind::OutOfBounds })
    } else {
        None
    }
}

/// The state after executing instruction `instr` at `s`, or the illegal instruction.
pub open spec fn execute_spec(s: CpuState, instr: u32) -> Result<(CpuState, bool), ExecutorError> {
    let op = opcode(instr);
    let rd = rd_of(instr);
    let f3 = funct3(instr);
    let f7 = funct7(instr);
    let a = s.regs[rs1_of(instr) as int];
    let b = s.regs[rs2_of(instr) as int];
    let next = wrap_add(s.pc, 4);
    let illegal = Err(ExecutorError::IllegalInstruction { pc: s.pc, opcode: instr });
    if op == 0x37 {
        Ok((CpuState { regs: write_reg(s.regs, rd, imm_u(instr)), pc: next, mem: s.mem }, false))
    } else if op == 0x17 {
        Ok(
            (
                CpuState {
                    regs: write_reg(s.regs, rd, wrap_add(s.pc, imm_u(instr))),
                    pc: next,
                    mem: s.mem,
                },
                false,
            ),
        )
    } else if op == 0x6f {
        Ok(
            (
                CpuState {
                    regs: write_reg(s.regs, rd, next),
                    pc: wrap_add(s.pc, imm_j(instr)),
                    mem: s.mem,
                },
                false,
            ),
        )
    } else if op == 0x67 && f3 == 0 {
        Ok(
            (
                CpuState {
                    regs: write_reg(s.regs, rd, next),
                    pc: wrap_add(a, imm_i(instr)) & 0xffff_fffe,
                    mem: s.mem,
                },
                false,
            ),
        )
    } else if op == 0x63 && f3 != 2 && f3 != 3 {
        let target = if branch_taken(f3, a, b) {
            wrap_add(s.pc, imm_b(instr))
        } else {
            next
        };
        Ok((CpuState { regs: s.regs, pc: target, mem: s.mem }, false))
    } else if op == 0x03 && f3 == 2 {
        let addr = wrap_add(a, imm_i(instr));
        match word_fault(s.mem, addr) {
            Some(e) => Err(e),
            None => Ok(
                (
                    CpuState {
                        regs: write_reg(s.regs, rd, le32(s.mem, addr as int) as u32),
                        pc: next,
                        mem: s.mem,
                    },
                    false,
                ),
            ),
        }
    } else if op == 0x23 && f3 == 2 {
        let addr = wrap_add(a, imm_s(instr));
        match word_fault(s.mem, addr) {
            Some(e) => Err(e),
            None => Ok(
                (CpuState { regs: s.regs, pc: next, mem: store32(s.mem, addr as int, b) }, false),
            ),
        }
    } else if op == 0x13 && (f3 != 1 || f7 == 0) && (f3 != 5 || f7 == 0 || f7 == 0x20) {
        let v = alu(f3, f3 == 5 && f7 == 0x20, a, imm_i(instr));
        Ok((CpuState { regs: write_reg(s.regs, rd, v), pc: next, mem: s.mem }, false))
    } else if op == 0x33 && (f7 == 0 || (f7 == 0x20 && (f3 == 0 || f3 == 5))) {
        let v = alu(f3, f7 == 0x20, a, b);
        Ok((CpuState { regs: write_reg(s.regs, rd, v), pc: next, mem: s.mem }, false))
    } else if op == 0x33 && f7 == 1 && muldiv(f3, a, b) is Some {
        let v = muldiv(f3, a, b)->0;
        Ok((CpuState { regs: write_reg(s.regs, rd, v), pc: next, mem: s.mem }, false))
    } else if instr == 0x73 || instr == 0x0010_0073 {
        Ok((s, true))
    } else {
        illegal
    }
}

/// One step from `s`: fetch at the program counter, then execute; `true` on a halt.
#[verifier::opaque]
pub open spec fn step_spec(s: CpuState) -> Result<(CpuState, bool), ExecutorError> {
    match word_fault(s.mem, s.pc) {
        Some(e) => Err(e),
        None => execute_spec(s, le32(s.mem, s.pc as int) as u32),
    }
}

/// The state after at most `n` steps from `s`, stopping at a halt.
pub open spec fn run_spec(s: CpuState, n: nat) -> Result<(CpuState, bool), ExecutorError>
    decreases n,
{
    if n == 0 {
        Ok((s, false))
    } else {
        match run_spec(s, (n - 1) as nat) {
            Ok((t, true)) => Ok((t, true)),
            Ok((t, false)) => step_spec(t),
            Err(e) => Err(e),
        }
    }
}

fn decode_imm_i(i: u32) -> (r: u32)
    ensures
        r == imm_i(i),
{
    if i >> 31 == 1 {
        (i >> 20) | 0xffff_f000
    } else {
        i >> 20
    }
}

fn decode_imm_s(i: u32) -> (r: u32)
    ensures
        r == imm_s(i),
{
    let v = ((i >> 25) << 5) | ((i >> 7) & 0x1f);
    if i >> 31 == 1 {
        v | 0xffff_f000
    } else {
        v
    }
}

fn decode_imm_b(i: u32) -> (r: u32)
    ensures
        r == imm_b(i),
{
    let v = (((i >> 7) & 1) << 11) | (((i >> 25) & 0x3f) << 5) | (((i >> 8) & 0xf) << 1);
    if i >> 31 == 1 {
        v | 0xffff_f000
    } else {
        v
    }
}

fn decode_imm_j(i: u32) -> (r: u32)
    ensures
        r == imm_j(i),
{
    let v = (i & 0x000f_f000) | (((i >> 20) & 1) << 11) | (((i >> 21) & 0x3ff) << 1);
    if i >> 31 == 1 {
        v | 0xfff0_0000
    } else {
        v
    }
}

fn add32(a: u32, b: u32) -> (r: u32)
    ensures
        r == wrap_add(a, b),
{
    ((a as u64 + b as u64) % 0x1_0000_0000) as u32
}

fn sub32(a: u32, b: u32) -> (r: u32)
    ensures
        r == wrap_sub(a, b),
{
    if a >= b {
        a - b
    } else {
        ((a as u64 + 0x1_0000_0000) - b as u64) as u32
    }
}

fn lt_signed(a: u32, b: u32) -> (r: bool)
    ensures
        r == (signed(a) < signed(b)),
{
    let sa = a >= 0x8000_0000;
    let sb = b >= 0x8000_0000;
    if sa != sb {
        sa
    } else {
        a < b
    }
}

fn alu_exec(f3: u32, alt: bool, a: u32, b: u32) -> (r: u32)
    requires
        f3 < 8,
    ensures
        r == alu(f3, alt, a, b),
{
    let sh = b & 0x1f;
    assert(sh < 32) by (bit_vector)
        requires
            sh == b & 0x1f,
    ;
    if f3 == 0 {
        if alt {
            sub32(a, b)
        } else {
            add32(a, b)
        }
    } else if f3 == 1 {
        a << sh
    } else if f3 == 2 {
        if lt_signed(a, b) {
            1
        } else {
            0
        }
    } else if f3 == 3 {
        if a < b {
            1
        } else {
            0
        }
    } else if f3 == 4 {
        a ^ b
    } else if f3 == 5 {
        if alt {
            if a >> 31 == 1 {
                !((!a) >> sh)
            } else {
                a >> sh
            }
        } else {
            a >> sh
        }
    } else if f3 == 6 {
        a | b
    } else {
        a & b
    }
}

fn muldiv_exec(f3: u32, a: u32, b: u32) -> (r: Option<u32>)
    ensures
        r == muldiv(f3, a, b),
{
    assert(a as u64 * b as u64 <= 0xffff_fffe_0000_0001) by (nonlinear_arith)
        requires
            a <= 0xffff_ffff,
            b <= 0xffff_ffff,
    ;
    let p = a as u64 * b as u64;
    if f3 == 0 {
        Some((p % 0x1_0000_0000) as u32)
    } else if f3 == 3 {
        assert(p / 0x1_0000_0000 < 0x1_0000_0000) by (nonlinear_arith)
            requires
                p == a as u64 * b as u64,
                a <= 0xffff_ffff,
                b <= 0xffff_ffff,
        ;
        Some((p / 0x1_0000_0000) as u32)
    } else if f3 == 5 {
        Some(
            if b == 0 {
                0xffff_ffff
            } else {
                a / b
            },
        )
    } else if f3 == 7 {
        Some(
            if b == 0 {
                a
            } else {
                a % b
            },
        )
    } else {
        None
    }
}

fn taken_exec(f3: u32, a: u32, b: u32) -> (r: bool)
    ensures
        r == branch_taken(f3, a, b),
{
    if f3 == 0 {
        a == b
    } else if f3 == 1 {
        a != b
    } else if f3 == 4 {
        lt_signed(a, b)
    } else if f3 == 5 {
        !lt_signed(a, b)
    } else if f3 == 6 {
        a < b
    } else {
        a >= b
    }
}

/// An RV32IM hart with its memory.
pub struct Cpu {
    regs: Vec<u32>,
    pc: u32,
    memory: Memory,
}

impl Cpu {
    /// Registers, program counter and memory.
    pub closed spec fn state(&self) -> CpuState {
        CpuState { regs: self.regs@, pc: self.pc, mem: self.memory@ }
    }

    /// There are 32 registers and register 0 holds zero.
    pub closed spec fn wf(&self) -> bool {
        self.regs@.len() == 32 && self.regs@[0] == 0
    }

    /// A hart at `entry` over `memory`, every register zero.
    pub fn new(memory: Memory, entry: u32) -> (r: Cpu)
        ensures
            r.wf(),
            r.state() == (CpuState { regs: Seq::new(32, |i: int| 0u32), pc: entry, mem: memory@ }),
    {
        let regs = vec![0u32; 32];
        proof {
            assert(regs@ =~= Seq::new(32, |i: int| 0u32));
        }
        Cpu { regs, pc: entry, memory }
    }

    /// The program counter.
    pub fn pc(&self) -> (r: u32)
        ensures
            r == self.state().pc,
    {
        self.pc
    }

    /// Register `i`.
    pub fn reg(&self, i: usize) -> (r: u32)
        requires
            self.wf(),
            i < 32,
        ensures
            r == self.state().regs[i as int],
    {
        self.regs[i]
    }

    /// The memory.
    pub fn memory(&self) -> (r: &Memory)
        ensures
            r@ == self.state().mem,
    {
        &self.memory
    }

    fn write_reg_exec(&mut self, rd: u32, v: u32)
        requires
            old(self).wf(),
            rd < 32,
        ensures
            final(self).wf(),
            final(self).state() == (CpuState {
                regs: write_reg(old(self).state().regs, rd, v),
                ..old(self).state()
            }),
    {
        if rd != 0 {
            self.regs.set(rd as usize, v);
        }
    }

    /// Executes one instruction; `Ok(true)` when it halts.
    pub fn step(&mut self) -> (r: Result<bool, ExecutorError>)
        requires
            old(self).wf(),
        ensures
            final(self).wf(),
            match step_spec(old(self).state()) {
                Ok((s, halted)) => r == Ok::<bool, ExecutorError>(halted) && final(self).state() == s,
                Err(e) => r == Err::<bool, ExecutorError>(e),
            },
    {
        proof {
            reveal(step_spec);
        }
        let pc = self.pc;
        let instr = match self.memory.read_u32(pc) {
            Ok(w) => w,
            Err(e) => {
                return Err(e);
            },
        };
        let op = instr & 0x7f;
        let rd = (instr >> 7) & 0x1f;
        let f3 = (instr >> 12) & 7;
        let rs1 = (instr >> 15) & 0x1f;
        let rs2 = (instr >> 20) & 0x1f;
        let f7 = instr >> 25;
        assert(rd < 32 && f3 < 8 && rs1 < 32 && rs2 < 32) by (bit_vector)
            requires
                rd == (instr >> 7) & 0x1f,
                f3 == (instr >> 12) & 7,
                rs1 == (instr >> 15) & 0x1f,
                rs2 == (instr >> 20) & 0x1f,
        ;
        let a = self.regs[rs1 as usize];
        let b = self.regs[rs2 as usize];
        let next = add32(pc, 4);
        if op == 0x37 {
            self.write_reg_exec(rd, instr & 0xffff_f000);
            self.pc = next;
            Ok(false)
        } else if op == 0x17 {
            self.write_reg_exec(rd, add32(pc, instr & 0xffff_f000));
            self.pc = next;
            Ok(false)
        } else if op == 0x6f {
            self.write_reg_exec(rd, next);
            self.pc = add32(pc, decode_imm_j(instr));
            Ok(false)
        } else if op == 0x67 && f3 == 0 {
            let target = add32(a, decode_imm_i(instr)) & 0xffff_fffe;
            self.write_reg_exec(rd, next);
            self.pc = target;
            Ok(false)
        } else if op == 0x63 && f3 != 2 && f3 != 3 {
            self.pc = if taken_exec(f3, a, b) {
                add32(pc, decode_imm_b(instr))
            } else {
                next
            };
            Ok(false)
        } else if op == 0x03 && f3 == 2 {
            let addr = add32(a, decode_imm_i(instr));
            let v = match self.memory.read_u32(addr) {
                Ok(v) => v,
                Err(e) => {
                    return Err(e);
                },
            };
            self.write_reg_exec(rd, v);
            self.pc = next;
            Ok(false)
        } else if op == 0x23 && f3 == 2 {
            let addr = add32(a, decode_imm_s(instr));
            match self.memory.write_u32(addr, b) {
                Ok(()) => {},
                Err(e) => {
                    return Err(e);
                },
            }
            self.pc = next;
            Ok(false)
        } else if op == 0x13 && (f3 != 1 || f7 == 0) && (f3 != 5 || f7 == 0 || f7 == 0x20) {
            let v = alu_exec(f3, f3 == 5 && f7 == 0x20, a, decode_imm_i(instr));
            self.write_reg_exec(rd, v);
            self.pc = next;
            Ok(false)
        } else if op == 0x33 && (f7 == 0 || (f7 == 0x20 && (f3 == 0 || f3 == 5))) {
            let v = alu_exec(f3, f7 == 0x20, a, b);
            self.write_reg_exec(rd, v);
            self.pc = next;
            Ok(false)
        } else if op == 0x33 && f7 == 1 && muldiv_exec(f3, a, b).is_some() {
            let v = match muldiv_exec(f3, a, b) {
                Some(v) => v,
                None => 0,
            };
            self.write_reg_exec(rd, v);
            self.pc = next;
            Ok(false)
        } else if instr == 0x73 || instr == 0x0010_0073 {
            Ok(true)
        } else {
            Err(ExecutorError::IllegalInstruction { pc, opcode: instr })
        }
    }

    /// Runs until a halt or for `max_steps` steps, whichever comes first; `Ok(true)`
    /// when the program halted.
    pub fn run(&mut self, max_steps: u64) -> (r: Result<bool, ExecutorError>)
        requires
            old(self).wf(),
        ensures
            final(self).wf(),
            match run_spec(old(self).state(), max_steps as nat) {
                Ok((s, halted)) => r == Ok::<bool, ExecutorError>(halted) && final(self).state() == s,
                Err(e) => r == Err::<bool, ExecutorError>(e),
            },
    {
        let ghost s0 = self.state();
        let mut k: u64 = 0;
        while k < max_steps
            invariant
                self.wf(),
                s0 == old(self).state(),
                k <= max_steps,
                run_spec(s0, k as nat) == Ok::<(CpuState, bool), ExecutorError>((self.state(), false)),
            decreases max_steps - k,
        {
            let ghost before = self.state();
            proof {
                assert(run_spec(s0, (k + 1) as nat) == step_spec(before));
            }
            match self.step() {
                Ok(true) => {
                    proof {
                        lemma_run_halted(s0, (k + 1) as nat, max_steps as nat);
                    }
                    return Ok(true);
                },
                Ok(false) => {},
                Err(e) => {
                    proof {
                        lemma_run_failed(s0, (k + 1) as nat, max_steps as nat);
                    }
                    return Err(e);
                },
            }
            k = k + 1;
        }
        Ok(false)
    }
}

/// Whether `pcs` records the program counter before each of the first `pcs.len()` steps
/// from `s`, none of which halted before the last.
pub open spec fn records_pcs(s: CpuState, pcs: Seq<u32>) -> bool {
    forall|k: int|
        0 <= k < pcs.len() ==> #[trigger] run_spec(s, k as nat) is Ok && !run_spec(
            s,
            k as nat,
        )->Ok_0.1 && pcs[k] == run_spec(s, k as nat)->Ok_0.0.pc
}

impl Cpu {
    /// As `run`, also giving the program counter of every instruction executed, the
    /// halting one included.
    pub fn run_traced(&mut self, max_steps: u64) -> (r: Result<(bool, Vec<u32>), ExecutorError>)
        requires
            old(self).wf(),
        ensures
            final(self).wf(),
            match run_spec(old(self).state(), max_steps as nat) {
                Ok((s, halted)) => r matches Ok((h, pcs)) && h == halted && final(self).state()
                    == s && pcs@.len() <= max_steps && records_pcs(old(self).state(), pcs@)
                    && (!halted ==> pcs@.len() == max_steps) && run_spec(
                    old(self).state(),
                    pcs@.len() as nat,
                ) == Ok::<(CpuState, bool), ExecutorError>((s, halted)),
                Err(e) => r is Err && r->Err_0 == e,
            },
    {
        let ghost s0 = self.state();
        let mut pcs: Vec<u32> = Vec::new();
        let mut k: u64 = 0;
        while k < max_steps
            invariant
                self.wf(),
                s0 == old(self).state(),
                k <= max_steps,
                pcs@.len() == k,
                records_pcs(s0, pcs@),
                run_spec(s0, k as nat) == Ok::<(CpuState, bool), ExecutorError>((self.state(), false)),
            decreases max_steps - k,
        {
            let ghost before = self.state();
            let ghost old_pcs = pcs@;
            proof {
                assert(run_spec(s0, (k + 1) as nat) == step_spec(before));
            }
            pcs.push(self.pc);
            proof {
                assert forall|t: int| 0 <= t < pcs@.len() implies #[trigger] run_spec(s0, t as nat) is Ok
                    && !run_spec(s0, t as nat)->Ok_0.1 && pcs@[t] == run_spec(
                    s0,
                    t as nat,
                )->Ok_0.0.pc by {
                    if t < k {
                        assert(records_pcs(s0, old_pcs));
                        assert(pcs@[t] == old_pcs[t]);
                    }
                }
            }
            match self.step() {
                Ok(true) => {
                    proof {
                        lemma_run_halted(s0, (k + 1) as nat, max_steps as nat);
                    }
                    return Ok((true, pcs));
                },
                Ok(false) => {},
                Err(e) => {
                    proof {
                        lemma_run_failed(s0, (k + 1) as nat, max_steps as nat);
                    }
                    return Err(e);
                },
            }
            k = k + 1;
        }
        Ok((false, pcs))
    }
}

/// The trace columns of an execution whose program counters are `pcs`: the clock
/// `0, 1, 2, ...` and the program counter, padded to the smallest power of two of rows by
/// repeating the last program counter.
pub fn execution_trace(pcs: &Vec<u32>) -> (r: Vec<Vec<M31>>)
    requires
        1 <= pcs@.len() <= 0x4000_0000,
    ensures
        r@.len() == 2,
        r@[0]@.len() == r@[1]@.len(),
        is_power_of_two(r@[0]@.len()),
        r@[0]@.len() >= pcs@.len(),
        r@[0]@.len() == 1 || r@[0]@.len() < 2 * pcs@.len(),
        forall|i: int| 0 <= i < r@[0]@.len() ==> #[trigger] r@[0]@[i]@ == i,
        forall|i: int|
            0 <= i < r@[1]@.len() ==> #[trigger] r@[1]@[i]@ == modp(
                if i < pcs@.len() {
                    pcs@[i]
                } else {
                    pcs@[pcs@.len() - 1]
                } as int,
            ),
{
    let n = pcs.len();
    let mut rows: usize = 1;
    while rows < n
        invariant
            1 <= rows <= 0x8000_0000,
            n <= 0x4000_0000,
            is_power_of_two(rows as nat),
            rows == 1 || rows < 2 * n,
        decreases 0x8000_0000 - rows,
    {
        rows = rows * 2;
    }
    proof {
        if rows > 0x4000_0000 {
            assert(is_power_of_two(0x4000_0000nat)) by {
                reveal_with_fuel(is_power_of_two, 32);
            }
            lemma_power_of_two_gap(0x4000_0000nat, rows as nat);
        }
    }
    let mut clock: Vec<M31> = Vec::with_capacity(rows);
    let mut pc: Vec<M31> = Vec::with_capacity(rows);
    let mut i: usize = 0;
    while i < rows
        invariant
            n == pcs@.len(),
            1 <= n,
            rows <= 0x4000_0000,
            i <= rows,
            clock@.len() == i,
            pc@.len() == i,
            forall|t: int| 0 <= t < i ==> #[trigger] clock@[t]@ == t,
            forall|t: int|
                0 <= t < i ==> #[trigger] pc@[t]@ == modp(
                    if t < n {
                        pcs@[t]
                    } else {
                        pcs@[n - 1]
                    } as int,
                ),
        decreases rows - i,
    {
        proof {
            crate::field::lemma_modp_small(i as int);
        }
        clock.push(M31::new(i as u32));
        let v = if i < n {
            pcs[i]
        } else {
            pcs[n - 1]
        };
        pc.push(M31::new(v));
        i = i + 1;
    }
    let mut out: Vec<Vec<M31>> = Vec::new();
    out.push(clock);
    out.push(pc);
    out
}

proof fn lemma_run_halted(s: CpuState, i: nat, n: nat)
    requires
        i <= n,
        run_spec(s, i) is Ok,
        run_spec(s, i)->Ok_0.1,
    ensures
        run_spec(s, n) == run_spec(s, i),
    decreases n - i,
{
    if i < n {
        lemma_run_halted(s, i, (n - 1) as nat);
    }
}

proof fn lemma_run_failed(s: CpuState, i: nat, n: nat)
    requires
        i <= n,
        run_spec(s, i) is Err,
    ensures
        run_spec(s, n) == run_spec(s, i),
    decreases n - i,
{
    if i < n {
        lemma_run_failed(s, i, (n - 1) as nat);
    }
}

} // verus!
