use zp1::circle::CirclePoint;
use zp1::delegation::{buses_balance, compress_call, logup_sum, DelegationCall};
use zp1::field::{M31, P};

#[test]
fn generator_lies_on_circle_and_has_order_two_to_the_31() {
    let g = CirclePoint::generator();
    assert!(g.is_on_circle());
    assert_eq!(g.repeated_double(31), CirclePoint::zero());
    let half = g.repeated_double(30);
    assert_eq!(half, CirclePoint { x: M31::new(P - 1), y: M31::zero() });
}

#[test]
fn subgroup_generators_have_their_order() {
    for log in [1u32, 3, 5, 10] {
        let h = CirclePoint::subgroup_generator(log);
        assert!(h.is_on_circle());
        assert_eq!(h.repeated_double(log), CirclePoint::zero());
        assert_ne!(h.repeated_double(log - 1), CirclePoint::zero());
    }
}

#[test]
fn group_law_closure_and_inverse() {
    let g = CirclePoint::generator();
    let h = CirclePoint::subgroup_generator(4);
    let p = g.add(h);
    assert!(p.is_on_circle());
    assert_eq!(p.add(p.conjugate()), CirclePoint::zero());
    assert_eq!(g.add(CirclePoint::zero()), g);
    assert!(!CirclePoint { x: M31::new(2), y: M31::new(2) }.is_on_circle());
}

fn call(id: u32, i: u32, o: u32, c: u32) -> DelegationCall {
    DelegationCall { precompile_id: M31::new(id), input_digest: M31::new(i), output_digest: M31::new(o), cycle: M31::new(c) }
}

#[test]
fn delegation_bus_balances_on_equal_multisets() {
    let alpha = M31::new(7);
    let gamma = M31::new(1_000_003);
    let cpu = [call(1, 10, 20, 5), call(2, 11, 21, 9), call(1, 10, 20, 5)];
    let pre = [call(2, 11, 21, 9), call(1, 10, 20, 5), call(1, 10, 20, 5)];
    assert!(buses_balance(&cpu, &pre, alpha, gamma));
    let missing = [call(2, 11, 21, 9), call(1, 10, 20, 5)];
    assert!(!buses_balance(&cpu, &missing, alpha, gamma));
    let altered = [call(2, 11, 21, 9), call(1, 10, 20, 5), call(1, 10, 22, 5)];
    assert!(!buses_balance(&cpu, &altered, alpha, gamma));
    assert_eq!(compress_call(&call(1, 2, 3, 4), M31::new(10)).value(), 1 + 10 * (2 + 10 * (3 + 10 * 4)));
    let single = logup_sum(&[call(0, 0, 0, 0)], alpha, M31::new(2));
    assert_eq!(single, M31::new(2).inv());
    assert_eq!(logup_sum(&[], alpha, gamma), M31::zero());
}
