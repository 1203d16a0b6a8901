use zp1::air::CpuAir;
use zp1::field::M31;

fn u32_to_bits(value: u32) -> [M31; 32] {
    let mut bits = [M31::zero(); 32];
    for i in 0..32 {
        bits[i] = if (value >> i) & 1 == 1 { M31::one() } else { M31::zero() };
    }
    bits
}

fn u32_to_limbs(value: u32) -> (M31, M31) {
    let lo = value & 0xFFFF;
    let hi = value >> 16;
    (M31::new(lo), M31::new(hi))
}

#[test]
fn test_bit_decomposition_valid() {
    let value = 0x12345678u32;
    let (lo, hi) = u32_to_limbs(value);
    let bits = u32_to_bits(value);
    let constraints = CpuAir::bit_decomposition_constraints(lo, hi, &bits);
    assert_eq!(constraints.len(), 34);
    for (i, constraint) in constraints.iter().enumerate() {
        assert_eq!(*constraint, M31::zero(), "Constraint {} failed", i);
    }
}

#[test]
fn test_bit_decomposition_all_zeros() {
    let value = 0u32;
    let (lo, hi) = u32_to_limbs(value);
    let bits = u32_to_bits(value);
    let constraints = CpuAir::bit_decomposition_constraints(lo, hi, &bits);
    for constraint in constraints {
        assert_eq!(constraint, M31::zero());
    }
}

#[test]
fn test_bit_decomposition_all_ones() {
    let value = 0xFFFFFFFFu32;
    let (lo, hi) = u32_to_limbs(value);
    let bits = u32_to_bits(value);
    let constraints = CpuAir::bit_decomposition_constraints(lo, hi, &bits);
    for constraint in constraints {
        assert_eq!(constraint, M31::zero());
    }
}

#[test]
fn test_bitwise_and_constraint() {
    let a = 0b1010u32;
    let b = 0b1100u32;
    let result = a & b;
    let constraints =
        CpuAir::bitwise_and_constraints(&u32_to_bits(a), &u32_to_bits(b), &u32_to_bits(result));
    assert_eq!(constraints.len(), 32);
    for constraint in constraints {
        assert_eq!(constraint, M31::zero());
    }
}

#[test]
fn test_bitwise_and_comprehensive() {
    let test_cases = [
        (0x00000000, 0x00000000, 0x00000000),
        (0xFFFFFFFF, 0xFFFFFFFF, 0xFFFFFFFF),
        (0xAAAAAAAA, 0x55555555, 0x00000000),
        (0x12345678, 0xABCDEF00, 0x02044600),
    ];
    for (a, b, expected) in test_cases {
        let constraints = CpuAir::bitwise_and_constraints(
            &u32_to_bits(a),
            &u32_to_bits(b),
            &u32_to_bits(expected),
        );
        for (i, constraint) in constraints.iter().enumerate() {
            assert_eq!(*constraint, M31::zero(), "AND failed for case ({:#x}, {:#x}), bit {}", a, b, i);
        }
    }
}

#[test]
fn test_bitwise_or_constraint() {
    let a = 0b1010u32;
    let b = 0b1100u32;
    let result = a | b;
    let constraints =
        CpuAir::bitwise_or_constraints(&u32_to_bits(a), &u32_to_bits(b), &u32_to_bits(result));
    assert_eq!(constraints.len(), 32);
    for constraint in constraints {
        assert_eq!(constraint, M31::zero());
    }
}

#[test]
fn test_bitwise_or_comprehensive() {
    let test_cases = [
        (0x00000000, 0x00000000, 0x00000000),
        (0xFFFFFFFF, 0x00000000, 0xFFFFFFFF),
        (0xAAAAAAAA, 0x55555555, 0xFFFFFFFF),
        (0x12345678, 0xABCDEF00, 0xBBFDFF78),
    ];
    for (a, b, expected) in test_cases {
        let constraints = CpuAir::bitwise_or_constraints(
            &u32_to_bits(a),
            &u32_to_bits(b),
            &u32_to_bits(expected),
        );
        for (i, constraint) in constraints.iter().enumerate() {
            assert_eq!(*constraint, M31::zero(), "OR failed for case ({:#x}, {:#x}), bit {}", a, b, i);
        }
    }
}

#[test]
fn test_bitwise_xor_constraint() {
    let a = 0b1010u32;
    let b = 0b1100u32;
    let result = a ^ b;
    let constraints =
        CpuAir::bitwise_xor_constraints(&u32_to_bits(a), &u32_to_bits(b), &u32_to_bits(result));
    assert_eq!(constraints.len(), 32);
    for constraint in constraints {
        assert_eq!(constraint, M31::zero());
    }
}

#[test]
fn test_bitwise_xor_comprehensive() {
    let test_cases = [
        (0x00000000, 0x00000000, 0x00000000),
        (0xFFFFFFFF, 0xFFFFFFFF, 0x00000000),
        (0xAAAAAAAA, 0x55555555, 0xFFFFFFFF),
        (0x12345678, 0xABCDEF00, 0xB9F9B978),
    ];
    for (a, b, expected) in test_cases {
        let constraints = CpuAir::bitwise_xor_constraints(
            &u32_to_bits(a),
            &u32_to_bits(b),
            &u32_to_bits(expected),
        );
        for (i, constraint) in constraints.iter().enumerate() {
            assert_eq!(*constraint, M31::zero(), "XOR failed for case ({:#x}, {:#x}), bit {}", a, b, i);
        }
    }
}

#[test]
fn test_bitwise_and_soundness() {
    let a = 0xAAAAu32;
    let b = 0x5555u32;
    let wrong_result = 0xFFFFu32;
    let constraints = CpuAir::bitwise_and_constraints(
        &u32_to_bits(a),
        &u32_to_bits(b),
        &u32_to_bits(wrong_result),
    );
    let has_nonzero = constraints.iter().any(|c| *c != M31::zero());
    assert!(has_nonzero, "Constraint should catch incorrect AND result");
}

#[test]
fn test_bit_decomposition_soundness() {
    let value = 0x12345678u32;
    let (lo, hi) = u32_to_limbs(value);
    let mut bits = u32_to_bits(value);
    bits[5] = if bits[5] == M31::zero() { M31::one() } else { M31::zero() };
    let constraints = CpuAir::bit_decomposition_constraints(lo, hi, &bits);
    let has_nonzero = constraints.iter().any(|c| *c != M31::zero());
    assert!(has_nonzero, "Constraint should catch incorrect bit decomposition");
}

#[test]
fn test_shift_left_logical() {
    let value = 0b1010u32;
    let shift = 1u32;
    let expected = value << shift;
    let constraints = CpuAir::shift_left_logical_constraints(
        &u32_to_bits(value),
        &u32_to_bits(expected),
        M31::new(shift),
    );
    assert_eq!(constraints.len(), 32);
    for (i, constraint) in constraints.iter().enumerate() {
        assert_eq!(*constraint, M31::zero(), "SLL constraint {} failed", i);
    }
}

#[test]
fn test_shift_left_comprehensive() {
    let test_cases = [
        (0x00000001, 0, 0x00000001),
        (0x00000001, 1, 0x00000002),
        (0x00000001, 31, 0x80000000),
        (0xFFFFFFFF, 1, 0xFFFFFFFE),
        (0x12345678, 4, 0x23456780),
        (0x00000001, 32, 0x00000001),
    ];
    for (value, shift, expected) in test_cases {
        let constraints = CpuAir::shift_left_logical_constraints(
            &u32_to_bits(value),
            &u32_to_bits(expected),
            M31::new(shift),
        );
        for (i, constraint) in constraints.iter().enumerate() {
            assert_eq!(*constraint, M31::zero(), "SLL({:#x} << {}) failed at bit {}", value, shift, i);
        }
    }
}

#[test]
fn test_shift_right_logical() {
    let value = 0b1010u32;
    let shift = 1u32;
    let expected = value >> shift;
    let constraints = CpuAir::shift_right_logical_constraints(
        &u32_to_bits(value),
        &u32_to_bits(expected),
        M31::new(shift),
    );
    assert_eq!(constraints.len(), 32);
    for constraint in constraints {
        assert_eq!(constraint, M31::zero());
    }
}

#[test]
fn test_shift_right_logical_comprehensive() {
    let test_cases = [
        (0x80000000, 0, 0x80000000),
        (0x80000000, 1, 0x40000000),
        (0x80000000, 31, 0x00000001),
        (0xFFFFFFFF, 1, 0x7FFFFFFF),
        (0x12345678, 4, 0x01234567),
        (0x80000000, 32, 0x80000000),
    ];
    for (value, shift, expected) in test_cases {
        let constraints = CpuAir::shift_right_logical_constraints(
            &u32_to_bits(value),
            &u32_to_bits(expected),
            M31::new(shift),
        );
        for (i, constraint) in constraints.iter().enumerate() {
            assert_eq!(*constraint, M31::zero(), "SRL({:#x} >> {}) failed at bit {}", value, shift, i);
        }
    }
}

#[test]
fn test_shift_right_arithmetic() {
    let value = 0b01010u32;
    let shift = 1u32;
    let expected = value >> shift;
    let constraints = CpuAir::shift_right_arithmetic_constraints(
        &u32_to_bits(value),
        &u32_to_bits(expected),
        M31::new(shift),
    );
    assert_eq!(constraints.len(), 32);
    for constraint in constraints {
        assert_eq!(constraint, M31::zero());
    }
}

#[test]
fn test_shift_right_arithmetic_negative() {
    let value = 0x80000000u32;
    let shift = 1u32;
    let expected = 0xC0000000u32;
    let constraints = CpuAir::shift_right_arithmetic_constraints(
        &u32_to_bits(value),
        &u32_to_bits(expected),
        M31::new(shift),
    );
    for constraint in constraints {
        assert_eq!(constraint, M31::zero(), "SRA sign extension failed");
    }
}

#[test]
fn test_shift_right_arithmetic_comprehensive() {
    let test_cases = [
        (0x00000008, 1, 0x00000004),
        (0x00000008, 2, 0x00000002),
        (0xFFFFFFF8u32, 1, 0xFFFFFFFCu32),
        (0xFFFFFFF8u32, 2, 0xFFFFFFFEu32),
        (0x80000000u32, 31, 0xFFFFFFFFu32),
        (0x7FFFFFFF, 31, 0x00000000),
    ];
    for (value, shift, expected) in test_cases {
        let constraints = CpuAir::shift_right_arithmetic_constraints(
            &u32_to_bits(value),
            &u32_to_bits(expected),
            M31::new(shift),
        );
        for (i, constraint) in constraints.iter().enumerate() {
            assert_eq!(
                *constraint,
                M31::zero(),
                "SRA({:#x} >> {}) failed at bit {}, expected {:#x}",
                value,
                shift,
                i,
                expected
            );
        }
    }
}

#[test]
fn test_shift_soundness() {
    let value = 0x12345678u32;
    let shift = 4u32;
    let wrong_result = 0x23456781u32;
    let constraints = CpuAir::shift_left_logical_constraints(
        &u32_to_bits(value),
        &u32_to_bits(wrong_result),
        M31::new(shift),
    );
    let has_nonzero = constraints.iter().any(|c| *c != M31::zero());
    assert!(has_nonzero, "Constraint should catch incorrect shift result");
}

#[test]
fn add_row_with_carry_satisfies_both_limbs() {
    let (rs1_lo, rs1_hi) = u32_to_limbs(0x0001FFFF);
    let (rs2_lo, rs2_hi) = u32_to_limbs(0x00020001);
    let (rd_lo, rd_hi) = u32_to_limbs(0x00040000);
    let (c1, c2) = CpuAir::add_constraint(M31::one(), rd_lo, rd_hi, rs1_lo, rs1_hi, rs2_lo, rs2_hi, M31::one());
    assert_eq!(c1, M31::zero());
    assert_eq!(c2, M31::zero());
    let (w1, _) = CpuAir::add_constraint(M31::one(), rd_lo, rd_hi, rs1_lo, rs1_hi, rs2_lo, rs2_hi, M31::zero());
    assert_eq!(w1.value(), 0x7fff_ffff - 0x1_0000);
}

#[test]
fn x0_write_must_leave_zero() {
    assert_eq!(CpuAir::x0_zero_constraint(M31::one(), M31::zero(), M31::zero()), M31::zero());
    assert_ne!(CpuAir::x0_zero_constraint(M31::one(), M31::one(), M31::zero()), M31::zero());
    assert_eq!(CpuAir::x0_zero_constraint(M31::zero(), M31::new(7), M31::new(9)), M31::zero());
}

#[test]
fn bit_decomposition_limbs_of_0x12345678() {
    let bits = u32_to_bits(0x12345678);
    let c = CpuAir::bit_decomposition_constraints(M31::new(0x5678), M31::new(0x1234), &bits);
    assert!(c.iter().all(|x| *x == M31::zero()));
    let wrong = CpuAir::bit_decomposition_constraints(M31::new(0x5679), M31::new(0x1234), &bits);
    assert_eq!(wrong[32].value(), 1);
    let mut non_binary = bits;
    non_binary[0] = M31::new(2);
    let c = CpuAir::bit_decomposition_constraints(M31::new(0x5678), M31::new(0x1234), &non_binary);
    assert_eq!(c[0].value(), 2);
}

#[test]
fn sra_and_srl_of_min_int_by_31() {
    let v = u32_to_bits(0x80000000);
    let sra = CpuAir::shift_right_arithmetic_constraints(&v, &u32_to_bits(0xFFFFFFFF), M31::new(31));
    assert_eq!(sra.len(), 32);
    assert!(sra.iter().all(|x| *x == M31::zero()));
    let srl = CpuAir::shift_right_logical_constraints(&v, &u32_to_bits(0x00000001), M31::new(31));
    assert!(srl.iter().all(|x| *x == M31::zero()));
    let srl_wrong = CpuAir::shift_right_logical_constraints(&v, &u32_to_bits(0xFFFFFFFF), M31::new(31));
    assert!(srl_wrong.iter().any(|x| *x != M31::zero()));
}

#[test]
fn pc_lui_auipc_constraints() {
    assert_eq!(
        CpuAir::pc_increment_constraint(M31::new(100), M31::new(104), M31::zero(), M31::zero(), M31::zero()),
        M31::zero()
    );
    assert_eq!(
        CpuAir::pc_increment_constraint(M31::new(100), M31::new(108), M31::zero(), M31::zero(), M31::zero())
            .value(),
        4
    );
    assert_eq!(
        CpuAir::pc_increment_constraint(M31::new(100), M31::new(200), M31::one(), M31::zero(), M31::zero()),
        M31::zero()
    );
    assert_eq!(CpuAir::lui_constraint(M31::one(), M31::new(5), M31::new(5)), M31::zero());
    assert_eq!(CpuAir::lui_constraint(M31::one(), M31::new(5), M31::new(3)).value(), 2);
    assert_eq!(CpuAir::auipc_constraint(M31::one(), M31::new(12), M31::new(4), M31::new(8)), M31::zero());
    assert_eq!(CpuAir::auipc_constraint(M31::one(), M31::new(12), M31::new(4), M31::new(9)).value(), 0x7fff_fffe);
}
