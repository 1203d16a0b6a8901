use zp1::extension::QM31;
use zp1::field::{M31, P};
use zp1::limbs::{from_limbs, to_limbs};

#[test]
fn field_results_are_canonical() {
    let big = M31::new(P - 1);
    assert_eq!(big.add(big).value(), P - 2);
    assert_eq!(big.mul(big).value(), 1);
    assert_eq!(M31::new(P).value(), 0);
    assert_eq!(M31::new(u32::MAX).value(), 1);
    assert_eq!(M31::new(3).sub(M31::new(5)).value(), P - 2);
    assert_eq!(M31::new(7).neg().value(), P - 7);
    assert_eq!(M31::new(1 << 20).mul(M31::new(1 << 20)).value(), 1 << 9);
}

#[test]
fn inverse_times_element_is_one() {
    for v in [1u32, 2, 3, 12345, 1 << 30, P - 1] {
        let a = M31::new(v);
        assert_eq!(a.mul(a.inv()).value(), 1, "inverse of {}", v);
    }
    assert_eq!(M31::new(2).inv().value(), 1 << 30);
    assert_eq!(M31::zero().inv().value(), 0);
}

#[test]
fn pow_and_square() {
    assert_eq!(M31::new(3).pow(4).value(), 81);
    assert_eq!(M31::new(5).pow(0).value(), 1);
    assert_eq!(M31::new(2).pow(31).value(), 1);
    assert_eq!(M31::new(9).square().value(), 81);
}

#[test]
fn limbs_round_trip() {
    for w in [0u32, 1, 0xFFFF, 0x1_0000, 0x12345678, 0xFFFF_FFFF] {
        let (lo, hi) = to_limbs(w);
        assert_eq!(lo.value(), w & 0xFFFF);
        assert_eq!(hi.value(), w >> 16);
        assert_eq!(from_limbs(lo, hi), w);
    }
}

#[test]
fn qm31_multiplication_follows_the_tower() {
    let one = M31::one();
    let zero = M31::zero();
    let u = QM31::new(zero, one, zero, zero);
    let v = QM31::new(zero, zero, one, zero);
    let u2 = u.mul(u);
    assert_eq!(u2, QM31::new(M31::new(2), zero, zero, zero));
    let v2 = v.mul(v);
    assert_eq!(v2, QM31::new(M31::new(2), one, zero, zero));
    let x = QM31::new(M31::new(1), M31::new(2), M31::new(3), M31::new(4));
    let y = QM31::new(M31::new(5), M31::new(6), M31::new(7), M31::new(8));
    assert_eq!(x.mul(y), y.mul(x));
    assert_eq!(x.add(y).sub(y), x);
    assert_eq!(QM31::from_base(M31::new(3)).mul(x), QM31::new(M31::new(3), M31::new(6), M31::new(9), M31::new(12)));
}
