//! Per-row polynomial identities of the RV32IM CPU AIR.
//!
//! Every constraint evaluates to zero on an honest row. Each is of degree at most two in
//! the row's cells, but for the shifts: there the selector of each amount is the product
//! of the five amount bits (or their complements), and the identity of an output bit sums
//! selector times difference over the 32 amounts.
use crate::field::{lemma_modp_ops, lemma_modp_small, modp, M31};
use vstd::arithmetic::power2::*;
use vstd::prelude::*;

verus! {

/// `sum_{k < len} 2^k * bits[start + k]`.
pub open spec fn bits_value(bits: Seq<M31>, start: int, len: nat) -> int
    decreases len,
{
    if len == 0 {
        0
    } else {
        bits_value(bits, start, (len - 1) as nat) + bits[start + len - 1]@ * pow2((len - 1) as nat)
    }
}

/// The three shifts of the base instruction set.
#[derive(Clone, Copy, Debug, PartialEq, Eq, Structural)]
pub enum ShiftKind {
    LeftLogical,
    RightLogical,
    RightArithmetic,
}

/// The input bit that lands on output position `i` when shifting `v` by `s`:
/// zero where a logical shift brings in a bit, the sign bit where an arithmetic one does.
pub open spec fn shift_source(kind: ShiftKind, v: Seq<M31>, i: int, s: int) -> int {
    match kind {
        ShiftKind::LeftLogical => if i >= s {
            v[i - s]@
        } else {
            0
        },
        ShiftKind::RightLogical => if i + s < 32 {
            v[i + s]@
        } else {
            0
        },
        ShiftKind::RightArithmetic => if i + s < 32 {
            v[i + s]@
        } else {
            v[31]@
        },
    }
}

/// Bit `j` of `s`.
pub open spec fn amount_bit(s: u32, j: u32) -> u32 {
    (s >> j) & 1
}

/// Bits `0..j` of `s`.
pub open spec fn low_bits(s: u32, j: u32) -> u32 {
    s & !(0xffff_ffffu32 << j)
}

proof fn lemma_bit_is_binary(s: u32, j: u32)
    ensures
        amount_bit(s, j) == 0 || amount_bit(s, j) == 1,
{
    assert(((s >> j) & 1) == 0 || ((s >> j) & 1) == 1) by (bit_vector);
}

proof fn lemma_low_bits_step(k: u32, s: u32, j: u32)
    requires
        j < 5,
    ensures
        (low_bits(k, (j + 1) as u32) == low_bits(s, (j + 1) as u32)) == (low_bits(k, j)
            == low_bits(s, j) && amount_bit(k, j) == amount_bit(s, j)),
{
    assert(((k & !(0xffff_ffffu32 << ((j + 1) as u32))) == (s & !(0xffff_ffffu32 << ((j + 1) as u32)))) == ((
    k & !(0xffff_ffffu32 << j)) == (s & !(0xffff_ffffu32 << j)) && ((k >> j) & 1) == ((s >> j) & 1)))
        by (bit_vector)
        requires
            j < 5,
    ;
}

proof fn lemma_low_bits_ends(k: u32, s: u32)
    requires
        k < 32,
        s < 32,
    ensures
        low_bits(k, 0) == low_bits(s, 0),
        (low_bits(k, 5) == low_bits(s, 5)) == (k == s),
{
    assert(k & !(0xffff_ffffu32 << 0u32) == s & !(0xffff_ffffu32 << 0u32)) by (bit_vector);
    assert((k & !(0xffff_ffffu32 << 5u32) == s & !(0xffff_ffffu32 << 5u32)) == (k == s)) by (bit_vector)
        requires
            k < 32,
            s < 32,
    ;
}

/// The selector `prod_j (b_j or 1 - b_j)` over the five bits of the shift amount:
/// one for the amount `k` and zero for every other.
fn amount_selector(bits: &Vec<M31>, k: u32, Ghost(s): Ghost<u32>) -> (r: M31)
    requires
        k < 32,
        s < 32,
        bits.len() == 5,
        forall|t: int| 0 <= t < 5 ==> #[trigger] bits[t]@ == amount_bit(s, t as u32),
    ensures
        r@ == (if k == s {
            1int
        } else {
            0int
        }),
{
    let mut acc = M31::one();
    let mut j: u32 = 0;
    proof {
        lemma_low_bits_ends(k, s);
    }
    while j < 5
        invariant
            j <= 5,
            k < 32,
            s < 32,
            bits.len() == 5,
            forall|t: int| 0 <= t < 5 ==> #[trigger] bits[t]@ == amount_bit(s, t as u32),
            acc@ == (if low_bits(k, j) == low_bits(s, j) {
                1int
            } else {
                0int
            }),
        decreases 5 - j,
    {
        let b = bits[j as usize];
        proof {
            lemma_bit_is_binary(s, j);
            lemma_bit_is_binary(k, j);
            lemma_low_bits_step(k, s, j);
        }
        let f = if (k >> j) & 1 == 1 {
            b
        } else {
            M31::one().sub(b)
        };
        acc = acc.mul(f);
        j = j + 1;
    }
    acc
}

/// The 32 selectors of the shift amount `s`, computed from its bit decomposition.
fn amount_selectors(s: u32) -> (r: Vec<M31>)
    requires
        s < 32,
    ensures
        r.len() == 32,
        forall|k: int| 0 <= k < 32 ==> #[trigger] r[k]@ == (if k == s {
            1int
        } else {
            0int
        }),
{
    let mut bits: Vec<M31> = Vec::with_capacity(5);
    let mut j: u32 = 0;
    while j < 5
        invariant
            j <= 5,
            bits.len() == j,
            forall|t: int| 0 <= t < j ==> #[trigger] bits[t]@ == amount_bit(s, t as u32),
        decreases 5 - j,
    {
        proof {
            lemma_bit_is_binary(s, j);
        }
        bits.push(M31::new((s >> j) & 1));
        j = j + 1;
    }
    let mut sels: Vec<M31> = Vec::with_capacity(32);
    let mut k: u32 = 0;
    while k < 32
        invariant
            k <= 32,
            s < 32,
            bits.len() == 5,
            forall|t: int| 0 <= t < 5 ==> #[trigger] bits[t]@ == amount_bit(s, t as u32),
            sels.len() == k,
            forall|t: int| 0 <= t < k ==> #[trigger] sels[t]@ == (if t == s {
                1int
            } else {
                0int
            }),
        decreases 32 - k,
    {
        let sel = amount_selector(&bits, k, Ghost(s));
        sels.push(sel);
        k = k + 1;
    }
    sels
}

/// `sum_k sel_k * diff_k`: with exactly one selector set, the difference it selects.
fn select_amount(sels: &Vec<M31>, diffs: &Vec<M31>, Ghost(s): Ghost<int>) -> (r: M31)
    requires
        sels.len() == 32,
        diffs.len() == 32,
        0 <= s < 32,
        forall|k: int| 0 <= k < 32 ==> #[trigger] sels[k]@ == (if k == s {
            1int
        } else {
            0int
        }),
    ensures
        r@ == modp(diffs[s]@),
{
    let mut acc = M31::zero();
    let mut k: usize = 0;
    while k < 32
        invariant
            k <= 32,
            sels.len() == 32,
            diffs.len() == 32,
            0 <= s < 32,
            forall|t: int| 0 <= t < 32 ==> #[trigger] sels[t]@ == (if t == s {
                1int
            } else {
                0int
            }),
            acc@ == (if s < k {
                modp(diffs[s]@)
            } else {
                0
            }),
        decreases 32 - k,
    {
        let term = sels[k].mul(diffs[k]);
        proof {
            lemma_modp_ops(diffs[s]@, 0);
            lemma_modp_ops(0, diffs[s]@);
        }
        acc = acc.add(term);
        k = k + 1;
    }
    acc
}

/// The input bit that a shift of kind `kind` by `k` moves to position `i`.
fn expected_bit(kind: ShiftKind, bits_value: &[M31; 32], i: usize, k: usize) -> (r: M31)
    requires
        i < 32,
        k < 32,
    ensures
        r@ == shift_source(kind, bits_value@, i as int, k as int),
{
    match kind {
        ShiftKind::LeftLogical => if i >= k {
            bits_value[i - k]
        } else {
            M31::zero()
        },
        ShiftKind::RightLogical => if i + k < 32 {
            bits_value[i + k]
        } else {
            M31::zero()
        },
        ShiftKind::RightArithmetic => if i + k < 32 {
            bits_value[i + k]
        } else {
            bits_value[31]
        },
    }
}

/// One constraint per output bit: `sum_k sel_k(amount) * (result[i] - source_k(i))`,
/// where `sel_k` is the product of the amount's bits that is one only for `k`.
fn shift_constraints(
    kind: ShiftKind,
    bits_value: &[M31; 32],
    bits_result: &[M31; 32],
    shift_amount: M31,
) -> (r: Vec<M31>)
    ensures
        r.len() == 32,
        forall|i: int|
            0 <= i < 32 ==> #[trigger] r[i]@ == modp(
                bits_result@[i]@ - shift_source(kind, bits_value@, i, shift_amount@ % 32),
            ),
{
    let s = shift_amount.value() % 32;
    let sels = amount_selectors(s);
    let mut constraints: Vec<M31> = Vec::with_capacity(32);
    let mut i: usize = 0;
    while i < 32
        invariant
            i <= 32,
            s < 32,
            s as int == shift_amount@ % 32,
            sels.len() == 32,
            forall|t: int| 0 <= t < 32 ==> #[trigger] sels[t]@ == (if t == s {
                1int
            } else {
                0int
            }),
            constraints.len() == i,
            forall|t: int|
                0 <= t < i ==> #[trigger] constraints[t]@ == modp(
                    bits_result@[t]@ - shift_source(kind, bits_value@, t, shift_amount@ % 32),
                ),
        decreases 32 - i,
    {
        let mut diffs: Vec<M31> = Vec::with_capacity(32);
        let mut k: usize = 0;
        while k < 32
            invariant
                i < 32,
                k <= 32,
                diffs.len() == k,
                forall|t: int|
                    0 <= t < k ==> #[trigger] diffs[t]@ == modp(
                        bits_result@[i as int]@ - shift_source(kind, bits_value@, i as int, t),
                    ),
            decreases 32 - k,
        {
            let e = expected_bit(kind, bits_value, i, k);
            diffs.push(bits_result[i].sub(e));
            k = k + 1;
        }
        let c = select_amount(&sels, &diffs, Ghost(s as int));
        proof {
            lemma_modp_ops(bits_result@[i as int]@ - shift_source(kind, bits_value@, i as int, s as int), 0);
        }
        constraints.push(c);
        i = i + 1;
    }
    constraints
}

/// Weighted sum of sixteen bits starting at `start`, reduced mod p.
fn weighted_bits(bits: &[M31; 32], start: usize) -> (r: M31)
    requires
        start <= 16,
    ensures
        r@ == modp(bits_value(bits@, start as int, 16)),
{
    let mut acc = M31::zero();
    let mut power = M31::one();
    let mut k: usize = 0;
    proof {
        lemma2_to64();
    }
    while k < 16
        invariant
            k <= 16,
            start <= 16,
            acc@ == modp(bits_value(bits@, start as int, k as nat)),
            power@ == pow2(k as nat),
        decreases 16 - k,
    {
        let b = bits[start + k];
        let term = b.mul(power);
        proof {
            let s = bits_value(bits@, start as int, k as nat);
            lemma_modp_ops(s, modp(b@ * pow2(k as nat)));
            lemma_modp_ops(s, b@ * pow2(k as nat));
            lemma2_to64();
            lemma_pow2_unfold((k + 1) as nat);
            lemma_pow2_strictly_increases(k as nat, 16);
            lemma_modp_small(2 * pow2(k as nat) as int);
        }
        acc = acc.add(term);
        power = power.add(power);
        k = k + 1;
    }
    acc
}

proof fn lemma_add_low_limb(a: int, rd: int, r1: int, r2: int, c: int)
    ensures
        modp(a * modp(modp(modp(rd - r1) - r2) + modp(c * 0x1_0000))) == modp(
            a * (rd - r1 - r2 + c * 0x1_0000),
        ),
{
    let x = rd - r1 - r2;
    let y = c * 0x1_0000;
    lemma_modp_ops(rd - r1, r2);
    lemma_modp_ops(x, modp(y));
    lemma_modp_ops(x, y);
    lemma_modp_ops(a, x + y);
}

proof fn lemma_add_high_limb(a: int, rd: int, r1: int, r2: int, c: int)
    ensures
        modp(a * modp(modp(modp(rd - r1) - r2) - c)) == modp(a * (rd - r1 - r2 - c)),
{
    lemma_modp_ops(rd - r1, r2);
    lemma_modp_ops(rd - r1 - r2, c);
    lemma_modp_ops(a, rd - r1 - r2 - c);
}

/// Constraint evaluator of the CPU AIR.
pub struct CpuAir;

impl CpuAir {
    /// `is_write_x0 * (rd_lo + rd_hi)`: a write to register 0 must leave it zero.
    pub fn x0_zero_constraint(is_write_x0: M31, rd_val_lo: M31, rd_val_hi: M31) -> (r: M31)
        ensures
            r@ == modp(is_write_x0@ * (rd_val_lo@ + rd_val_hi@)),
    {
        let r = is_write_x0.mul(rd_val_lo.add(rd_val_hi));
        proof {
            lemma_modp_ops(is_write_x0@, rd_val_lo@ + rd_val_hi@);
        }
        r
    }

    /// `(1 - is_branch - is_jal - is_jalr) * (next_pc - pc - 4)`.
    pub fn pc_increment_constraint(
        pc: M31,
        next_pc: M31,
        is_branch: M31,
        is_jal: M31,
        is_jalr: M31,
    ) -> (r: M31)
        ensures
            r@ == modp((1 - is_branch@ - is_jal@ - is_jalr@) * (next_pc@ - pc@ - 4)),
    {
        let four = M31::new(4);
        let selector = M31::one().sub(is_branch).sub(is_jal).sub(is_jalr);
        let diff = next_pc.sub(pc).sub(four);
        let r = selector.mul(diff);
        proof {
            let sel = 1 - is_branch@ - is_jal@ - is_jalr@;
            let d = next_pc@ - pc@ - 4;
            lemma_modp_ops(1 - is_branch@, is_jal@);
            lemma_modp_ops(1 - is_branch@ - is_jal@, is_jalr@);
            lemma_modp_ops(next_pc@ - pc@, 4);
            lemma_modp_ops(sel, modp(d));
            lemma_modp_ops(sel, d);
        }
        r
    }

    /// `is_lui * (rd - imm)`.
    pub fn lui_constraint(is_lui: M31, rd_val: M31, imm: M31) -> (r: M31)
        ensures
            r@ == modp(is_lui@ * (rd_val@ - imm@)),
    {
        let r = is_lui.mul(rd_val.sub(imm));
        proof {
            lemma_modp_ops(is_lui@, rd_val@ - imm@);
        }
        r
    }

    /// `is_auipc * (rd - pc - imm)`.
    pub fn auipc_constraint(is_auipc: M31, rd_val: M31, pc: M31, imm: M31) -> (r: M31)
        ensures
            r@ == modp(is_auipc@ * (rd_val@ - pc@ - imm@)),
    {
        let r = is_auipc.mul(rd_val.sub(pc).sub(imm));
        proof {
            lemma_modp_ops(rd_val@ - pc@, imm@);
            lemma_modp_ops(is_auipc@, rd_val@ - pc@ - imm@);
        }
        r
    }

    /// The two limb identities of ADD with carry `c` from the low limb:
    /// `is_add * (rd_lo - rs1_lo - rs2_lo + c * 2^16)` and
    /// `is_add * (rd_hi - rs1_hi - rs2_hi - c)`.
    pub fn add_constraint(
        is_add: M31,
        rd_val_lo: M31,
        rd_val_hi: M31,
        rs1_val_lo: M31,
        rs1_val_hi: M31,
        rs2_val_lo: M31,
        rs2_val_hi: M31,
        carry: M31,
    ) -> (r: (M31, M31))
        ensures
            r.0@ == modp(is_add@ * (rd_val_lo@ - rs1_val_lo@ - rs2_val_lo@ + carry@ * 0x1_0000)),
            r.1@ == modp(is_add@ * (rd_val_hi@ - rs1_val_hi@ - rs2_val_hi@ - carry@)),
    {
        let two_16 = M31::new(0x1_0000);
        let lo = rd_val_lo.sub(rs1_val_lo).sub(rs2_val_lo).add(carry.mul(two_16));
        let hi = rd_val_hi.sub(rs1_val_hi).sub(rs2_val_hi).sub(carry);
        let c1 = is_add.mul(lo);
        let c2 = is_add.mul(hi);
        proof {
            lemma_add_low_limb(is_add@, rd_val_lo@, rs1_val_lo@, rs2_val_lo@, carry@);
            lemma_add_high_limb(is_add@, rd_val_hi@, rs1_val_hi@, rs2_val_hi@, carry@);
        }
        (c1, c2)
    }

    /// 34 constraints: `b[i] * (b[i] - 1)` for each of the 32 bits, then
    /// `value_lo - sum_{i<16} 2^i b[i]` and `value_hi - sum_{i<16} 2^i b[16+i]`.
    pub fn bit_decomposition_constraints(value_lo: M31, value_hi: M31, bits: &[M31; 32]) -> (r: Vec<
        M31,
    >)
        ensures
            r.len() == 34,
            forall|i: int|
                0 <= i < 32 ==> #[trigger] r[i]@ == modp(bits@[i]@ * (bits@[i]@ - 1)),
            r[32]@ == modp(value_lo@ - bits_value(bits@, 0, 16)),
            r[33]@ == modp(value_hi@ - bits_value(bits@, 16, 16)),
    {
        let mut constraints: Vec<M31> = Vec::with_capacity(34);
        let mut i: usize = 0;
        while i < 32
            invariant
                i <= 32,
                constraints.len() == i,
                forall|j: int|
                    0 <= j < i ==> #[trigger] constraints[j]@ == modp(
                        bits@[j]@ * (bits@[j]@ - 1),
                    ),
            decreases 32 - i,
        {
            let bit = bits[i];
            let c = bit.mul(bit.sub(M31::one()));
            proof {
                lemma_modp_ops(bit@, bit@ - 1);
            }
            constraints.push(c);
            i = i + 1;
        }
        let recon_lo = weighted_bits(bits, 0);
        let recon_hi = weighted_bits(bits, 16);
        proof {
            lemma_modp_ops(value_lo@, bits_value(bits@, 0, 16));
            lemma_modp_ops(value_hi@, bits_value(bits@, 16, 16));
        }
        constraints.push(value_lo.sub(recon_lo));
        constraints.push(value_hi.sub(recon_hi));
        constraints
    }

    /// `result[i] - a[i] * b[i]` for each bit.
    pub fn bitwise_and_constraints(
        bits_a: &[M31; 32],
        bits_b: &[M31; 32],
        bits_result: &[M31; 32],
    ) -> (r: Vec<M31>)
        ensures
            r.len() == 32,
            forall|i: int|
                0 <= i < 32 ==> #[trigger] r[i]@ == modp(
                    bits_result@[i]@ - bits_a@[i]@ * bits_b@[i]@,
                ),
    {
        let mut constraints: Vec<M31> = Vec::with_capacity(32);
        let mut i: usize = 0;
        while i < 32
            invariant
                i <= 32,
                constraints.len() == i,
                forall|j: int|
                    0 <= j < i ==> #[trigger] constraints[j]@ == modp(
                        bits_result@[j]@ - bits_a@[j]@ * bits_b@[j]@,
                    ),
            decreases 32 - i,
        {
            let (a, b, res) = (bits_a[i], bits_b[i], bits_result[i]);
            proof {
                lemma_modp_ops(res@, a@ * b@);
            }
            constraints.push(res.sub(a.mul(b)));
            i = i + 1;
        }
        constraints
    }

    /// `result[i] - (a[i] + b[i] - a[i] * b[i])` for each bit.
    pub fn bitwise_or_constraints(
        bits_a: &[M31; 32],
        bits_b: &[M31; 32],
        bits_result: &[M31; 32],
    ) -> (r: Vec<M31>)
        ensures
            r.len() == 32,
            forall|i: int|
                0 <= i < 32 ==> #[trigger] r[i]@ == modp(
                    bits_result@[i]@ - (bits_a@[i]@ + bits_b@[i]@ - bits_a@[i]@ * bits_b@[i]@),
                ),
    {
        let mut constraints: Vec<M31> = Vec::with_capacity(32);
        let mut i: usize = 0;
        while i < 32
            invariant
                i <= 32,
                constraints.len() == i,
                forall|j: int|
                    0 <= j < i ==> #[trigger] constraints[j]@ == modp(
                        bits_result@[j]@ - (bits_a@[j]@ + bits_b@[j]@ - bits_a@[j]@
                            * bits_b@[j]@),
                    ),
            decreases 32 - i,
        {
            let (a, b, res) = (bits_a[i], bits_b[i], bits_result[i]);
            proof {
                lemma_modp_ops(a@ + b@, modp(a@ * b@));
                lemma_modp_ops(a@ + b@, a@ * b@);
                lemma_modp_ops(res@, a@ + b@ - a@ * b@);
            }
            constraints.push(res.sub(a.add(b).sub(a.mul(b))));
            i = i + 1;
        }
        constraints
    }

    /// `result[i] - (a[i] + b[i] - 2 * a[i] * b[i])` for each bit.
    pub fn bitwise_xor_constraints(
        bits_a: &[M31; 32],
        bits_b: &[M31; 32],
        bits_result: &[M31; 32],
    ) -> (r: Vec<M31>)
        ensures
            r.len() == 32,
            forall|i: int|
                0 <= i < 32 ==> #[trigger] r[i]@ == modp(
                    bits_result@[i]@ - (bits_a@[i]@ + bits_b@[i]@ - 2 * bits_a@[i]@
                        * bits_b@[i]@),
                ),
    {
        let mut constraints: Vec<M31> = Vec::with_capacity(32);
        let two = M31::new(2);
        let mut i: usize = 0;
        while i < 32
            invariant
                i <= 32,
                two@ == 2,
                constraints.len() == i,
                forall|j: int|
                    0 <= j < i ==> #[trigger] constraints[j]@ == modp(
                        bits_result@[j]@ - (bits_a@[j]@ + bits_b@[j]@ - 2 * bits_a@[j]@
                            * bits_b@[j]@),
                    ),
            decreases 32 - i,
        {
            let (a, b, res) = (bits_a[i], bits_b[i], bits_result[i]);
            proof {
                lemma_modp_ops(2 * a@, b@);
                lemma_modp_ops(a@ + b@, modp(2 * a@ * b@));
                lemma_modp_ops(a@ + b@, 2 * a@ * b@);
                lemma_modp_ops(res@, a@ + b@ - 2 * a@ * b@);
            }
            constraints.push(res.sub(a.add(b).sub(two.mul(a).mul(b))));
            i = i + 1;
        }
        constraints
    }

    /// SLL: output bit `i` must equal input bit `i - s` (zero below `s`),
    /// with `s` the amount taken mod 32.
    pub fn shift_left_logical_constraints(
        bits_value: &[M31; 32],
        bits_result: &[M31; 32],
        shift_amount: M31,
    ) -> (r: Vec<M31>)
        ensures
            r.len() == 32,
            forall|i: int|
                0 <= i < 32 ==> #[trigger] r[i]@ == modp(
                    bits_result@[i]@ - shift_source(
                        ShiftKind::LeftLogical,
                        bits_value@,
                        i,
                        shift_amount@ % 32,
                    ),
                ),
    {
        shift_constraints(ShiftKind::LeftLogical, bits_value, bits_result, shift_amount)
    }

    /// SRL: output bit `i` must equal input bit `i + s` (zero from `32 - s` up).
    pub fn shift_right_logical_constraints(
        bits_value: &[M31; 32],
        bits_result: &[M31; 32],
        shift_amount: M31,
    ) -> (r: Vec<M31>)
        ensures
            r.len() == 32,
            forall|i: int|
                0 <= i < 32 ==> #[trigger] r[i]@ == modp(
                    bits_result@[i]@ - shift_source(
                        ShiftKind::RightLogical,
                        bits_value@,
                        i,
                        shift_amount@ % 32,
                    ),
                ),
    {
        shift_constraints(ShiftKind::RightLogical, bits_value, bits_result, shift_amount)
    }

    /// SRA: as SRL, but the vacated high positions must equal bit 31 of the input.
    pub fn shift_right_arithmetic_constraints(
        bits_value: &[M31; 32],
        bits_result: &[M31; 32],
        shift_amount: M31,
    ) -> (r: Vec<M31>)
        ensures
            r.len() == 32,
            forall|i: int|
                0 <= i < 32 ==> #[trigger] r[i]@ == modp(
                    bits_result@[i]@ - shift_source(
                        ShiftKind::RightArithmetic,
                        bits_value@,
                        i,
                        shift_amount@ % 32,
                    ),
                ),
    {
        shift_constraints(ShiftKind::RightArithmetic, bits_value, bits_result, shift_amount)
    }
}

/// A row of ADD built from honest values satisfies both limb identities whenever the sum
/// fits in 32 bits: with `rd = a + b` and the carry `c` out of the low limbs,
/// `rd_lo - a_lo - b_lo + c * 2^16` and `rd_hi - a_hi - b_hi - c` are both zero.
pub proof fn lemma_add_row_satisfied(a: u32, b: u32, is_add: int)
    requires
        a + b < 0x1_0000_0000,
    ensures
        ({
            let rd = a as int + b as int;
            let c = (a as int % 0x1_0000 + b as int % 0x1_0000) / 0x1_0000;
            &&& modp(
                is_add * (rd % 0x1_0000 - a as int % 0x1_0000 - b as int % 0x1_0000 + c * 0x1_0000),
            ) == 0
            &&& modp(is_add * (rd / 0x1_0000 - a as int / 0x1_0000 - b as int / 0x1_0000 - c)) == 0
        }),
{
    let d = 0x1_0000int;
    let al = a as int % d;
    let ah = a as int / d;
    let bl = b as int % d;
    let bh = b as int / d;
    let c = (al + bl) / d;
    let low = (al + bl) % d;
    assert(a as int == ah * d + al);
    assert(b as int == bh * d + bl);
    assert(al + bl == c * d + low);
    let rd = a as int + b as int;
    assert(rd == (ah + bh + c) * d + low) by (nonlinear_arith)
        requires
            a as int == ah * d + al,
            b as int == bh * d + bl,
            al + bl == c * d + low,
            rd == a as int + b as int,
    ;
    vstd::arithmetic::div_mod::lemma_fundamental_div_mod_converse_mod(rd, d, ah + bh + c, low);
    vstd::arithmetic::div_mod::lemma_fundamental_div_mod_converse_div(rd, d, ah + bh + c, low);
    assert(is_add * 0 == 0) by (nonlinear_arith);
}

/// How the weighted sum of sixteen bits moves when the bits change at position `i` only.
proof fn lemma_bits_value_flip(bits: Seq<M31>, flipped: Seq<M31>, s: int, k: nat, i: int)
    requires
        0 <= s,
        s + k <= bits.len(),
        bits.len() == flipped.len(),
        forall|j: int| 0 <= j < bits.len() && j != i ==> flipped[j] == bits[j],
    ensures
        bits_value(flipped, s, k) - bits_value(bits, s, k) == if s <= i < s + k {
            (flipped[i]@ - bits[i]@) * pow2((i - s) as nat)
        } else {
            0
        },
    decreases k,
{
    if k > 0 {
        lemma_bits_value_flip(bits, flipped, s, (k - 1) as nat, i);
        let j = s + k - 1;
        if j != i {
            assert(flipped[j] == bits[j]);
        } else {
            assert(flipped[j]@ * pow2((k - 1) as nat) - bits[j]@ * pow2((k - 1) as nat) == (
            flipped[i]@ - bits[i]@) * pow2((i - s) as nat)) by (nonlinear_arith)
                requires
                    j == i,
                    i - s == k - 1,
            ;
        }
    }
}

/// Flipping any single bit of a decomposition that satisfies the reconstruction
/// identities makes one of them nonzero: the limb it belongs to moves by a power of two
/// below p.
pub proof fn lemma_bit_flip_detected(
    bits: Seq<M31>,
    flipped: Seq<M31>,
    value_lo: int,
    value_hi: int,
    i: int,
)
    requires
        bits.len() == 32,
        flipped.len() == 32,
        0 <= i < 32,
        forall|j: int| 0 <= j < 32 && j != i ==> flipped[j] == bits[j],
        (bits[i]@ == 0 && flipped[i]@ == 1) || (bits[i]@ == 1 && flipped[i]@ == 0),
        modp(value_lo - bits_value(bits, 0, 16)) == 0,
        modp(value_hi - bits_value(bits, 16, 16)) == 0,
    ensures
        modp(value_lo - bits_value(flipped, 0, 16)) != 0 || modp(
            value_hi - bits_value(flipped, 16, 16),
        ) != 0,
{
    lemma_bits_value_flip(bits, flipped, 0, 16, i);
    lemma_bits_value_flip(bits, flipped, 16, 16, i);
    let s = if i < 16 {
        0int
    } else {
        16int
    };
    let t = (i - s) as nat;
    lemma2_to64();
    lemma_pow2_pos(t);
    if t < 15 {
        lemma_pow2_strictly_increases(t, 15);
    }
    let value = if i < 16 {
        value_lo
    } else {
        value_hi
    };
    let old_sum = bits_value(bits, s, 16);
    let delta = (flipped[i]@ - bits[i]@) * pow2(t);
    assert(delta == pow2(t) || delta == -pow2(t));
    lemma_modp_ops(value - old_sum, delta);
    lemma_modp_ops(0, delta);
    assert(value - bits_value(flipped, s, 16) == (value - old_sum) - delta);
    if delta > 0 {
        lemma_modp_small(delta);
    } else {
        lemma_modp_small(crate::field::modulus() + delta);
        vstd::arithmetic::div_mod::lemma_mod_multiples_vanish(1, delta, crate::field::modulus());
    }
}

/// Sixteen or fewer consecutive honest bits weigh what the word's bits there are worth.
proof fn lemma_bits_value_of_word(w: u32, bits: Seq<M31>, s: nat, k: nat)
    requires
        s + k <= 32,
        bits.len() == 32,
        forall|i: int| 0 <= i < 32 ==> #[trigger] bits[i]@ == (w as nat / pow2(i as nat)) % 2,
    ensures
        bits_value(bits, s as int, k) == (w as nat / pow2(s)) % pow2(k),
    decreases k,
{
    let x = w as nat / pow2(s);
    lemma_pow2_pos(s);
    lemma_pow2_pos(k);
    if k == 0 {
        lemma2_to64();
    } else {
        let j = (k - 1) as nat;
        lemma_bits_value_of_word(w, bits, s, j);
        lemma_pow2_pos(j);
        lemma_pow2_unfold(k);
        lemma_pow2_adds(s, j);
        vstd::arithmetic::div_mod::lemma_div_denominator(w as int, pow2(s) as int, pow2(j) as int);
        vstd::arithmetic::div_mod::lemma_mod_breakdown(x as int, pow2(j) as int, 2);
        assert(bits[(s + j) as int]@ == (x / pow2(j)) % 2);
        assert(pow2(j) * ((x / pow2(j)) % 2) == ((x / pow2(j)) % 2) * pow2(j)) by (nonlinear_arith);
    }
}

/// The little-endian bits of any word satisfy every bit-decomposition identity with the
/// word's limbs: each bit is binary, and each limb is the weighted sum of its sixteen
/// bits. With `lemma_bit_flip_detected`, flipping any one of them is caught.
pub proof fn lemma_honest_bits(w: u32, bits: Seq<M31>)
    requires
        bits.len() == 32,
        forall|i: int| 0 <= i < 32 ==> #[trigger] bits[i]@ == (w >> (i as u32)) & 1,
    ensures
        forall|i: int| 0 <= i < 32 ==> modp(#[trigger] bits[i]@ * (bits[i]@ - 1)) == 0,
        modp(w % 0x1_0000 - bits_value(bits, 0, 16)) == 0,
        modp(w / 0x1_0000 - bits_value(bits, 16, 16)) == 0,
{
    assert forall|i: int| 0 <= i < 32 implies #[trigger] bits[i]@ == (w as nat / pow2(i as nat))
        % 2 by {
        vstd::bits::lemma_u32_shr_is_div(w, i as u32);
        let y = w >> (i as u32);
        assert(y & 1 == y % 2) by (bit_vector);
    }
    assert forall|i: int| 0 <= i < 32 implies modp(#[trigger] bits[i]@ * (bits[i]@ - 1)) == 0 by {
        assert(bits[i]@ == 0 || bits[i]@ == 1);
        lemma_modp_small(0);
    }
    lemma_bits_value_of_word(w, bits, 0, 16);
    lemma_bits_value_of_word(w, bits, 16, 16);
    lemma2_to64();
    lemma_modp_small(0);
    assert(w as nat / pow2(0) == w);
    assert((w as nat / 0x1_0000) % 0x1_0000 == w / 0x1_0000);
}

} // verus!
