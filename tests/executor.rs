use zp1::elf::{build_test_elf, ElfLoader};
use zp1::executor::{execution_trace, Cpu};
use zp1::field::M31;
use zp1::memory::{ExecutorError, Memory, MemoryFaultKind};
use zp1::prover::StarkProver;
use zp1::stark::StarkConfig;
use zp1::verify::{Verifier, VerifierConfig};

/// fib(10) by iteration; the result is stored at 0x2000, then ECALL.
const FIBONACCI: [u32; 13] = [
    0x00000093, // addi x1, x0, 0
    0x00100113, // addi x2, x0, 1
    0x00A00193, // addi x3, x0, 10
    0x00100213, // addi x4, x0, 1
    0x00325C63, // loop: bge x4, x3, done
    0x002082B3, // add x5, x1, x2
    0x00010093, // addi x1, x2, 0
    0x00028113, // addi x2, x5, 0
    0x00120213, // addi x4, x4, 1
    0xFEDFF06F, // jal x0, loop
    0x00002337, // done: lui x6, 0x2
    0x00232023, // sw x2, 0(x6)
    0x00000073, // ecall
];

fn load(words: &[u32]) -> Cpu {
    let code: Vec<u8> = words.iter().flat_map(|w| w.to_le_bytes()).collect();
    let elf = build_test_elf(&code, 0x1000, 0x1000);
    let loader = ElfLoader::parse(&elf).unwrap();
    let mut memory = Memory::with_default_size();
    let entry = loader.load_into_memory(&mut memory).unwrap();
    Cpu::new(memory, entry)
}

#[test]
fn fibonacci_guest_runs_proves_and_verifies() {
    let mut cpu = load(&FIBONACCI);
    let (halted, pcs) = cpu.run_traced(1000).expect("run failed");
    assert!(halted);
    assert_eq!(pcs.len(), 62);
    assert_eq!(pcs[0], 0x1000);
    assert_eq!(*pcs.last().unwrap(), 0x1000 + 4 * 12);
    assert_eq!(cpu.reg(2), 55);
    assert_eq!(cpu.memory().read_u32(0x2000), Ok(55));

    let columns = execution_trace(&pcs);
    assert_eq!(columns.len(), 2);
    let rows = columns[0].len();
    assert_eq!(rows, 64);
    assert_eq!(columns[0][63], M31::new(63));
    assert_eq!(columns[1][63], M31::new(0x1000 + 4 * 12));
    let log_rows = rows.trailing_zeros() as usize;
    let config = StarkConfig { log_trace_len: log_rows, blowup_factor: 4, num_queries: 3, fri_folding_factor: 2 };
    let proof = StarkProver::new(config).prove(columns);
    assert_eq!(proof.query_proofs[0].trace_values.len(), 2);
    let verifier = Verifier::new(VerifierConfig {
        log_trace_len: log_rows,
        blowup_factor: 4,
        num_queries: 3,
        fri_folding_factor: 2,
        ..Default::default()
    });
    assert_eq!(verifier.verify(&proof), Ok(()));
}

#[test]
fn run_stops_at_halt() {
    let mut cpu = load(&FIBONACCI);
    assert_eq!(cpu.run(10), Ok(false));
    assert_eq!(cpu.run(1000), Ok(true));
    assert_eq!(cpu.reg(2), 55);
}

#[test]
fn illegal_and_faulting_instructions() {
    let mut cpu = load(&[0xFFFF_FFFF]);
    assert_eq!(cpu.step(), Err(ExecutorError::IllegalInstruction { pc: 0x1000, opcode: 0xFFFF_FFFF }));
    // lw x1, 2(x0): unaligned
    let mut cpu = load(&[0x00202083]);
    assert_eq!(cpu.step(), Err(ExecutorError::MemoryFault { addr: 2, kind: MemoryFaultKind::Unaligned }));
    // jal x0, 2: lands on an unaligned pc
    let mut cpu = load(&[0x0020006F]);
    assert_eq!(cpu.step(), Ok(false));
    assert_eq!(cpu.pc(), 0x1002);
    assert_eq!(cpu.step(), Err(ExecutorError::MemoryFault { addr: 0x1002, kind: MemoryFaultKind::Unaligned }));
}

#[test]
fn alu_and_multiply_divide() {
    let program = [
        0xFFF00093, // addi x1, x0, -1
        0x00500113, // addi x2, x0, 5
        0x402081B3, // sub x3, x1, x2      -> -6
        0x4010D213, // srai x4, x1, 1      -> -1
        0x0010D293, // srli x5, x1, 1      -> 0x7fffffff
        0x0020A333, // slt x6, x1, x2      -> 1
        0x0020B3B3, // sltu x7, x1, x2     -> 0
        0x02208433, // mul x8, x1, x2      -> -5
        0x0220B4B3, // mulhu x9, x1, x2    -> 4
        0x0220D533, // divu x10, x1, x2    -> 0x33333333
        0x0220F5B3, // remu x11, x1, x2    -> 0
        0x0200D633, // divu x12, x1, x0    -> 0xffffffff
        0x00000073, // ecall
    ];
    let mut cpu = load(&program);
    assert_eq!(cpu.run(100), Ok(true));
    assert_eq!(cpu.reg(3), (-6i32) as u32);
    assert_eq!(cpu.reg(4), 0xFFFF_FFFF);
    assert_eq!(cpu.reg(5), 0x7FFF_FFFF);
    assert_eq!(cpu.reg(6), 1);
    assert_eq!(cpu.reg(7), 0);
    assert_eq!(cpu.reg(8), (-5i32) as u32);
    assert_eq!(cpu.reg(9), 4);
    assert_eq!(cpu.reg(10), 0x3333_3333);
    assert_eq!(cpu.reg(11), 0);
    assert_eq!(cpu.reg(12), 0xFFFF_FFFF);
    assert_eq!(cpu.reg(0), 0);
}
