//! The Mersenne-31 prime field, p = 2^31 - 1.
use vstd::arithmetic::div_mod::*;
use vstd::arithmetic::power::*;
use vstd::prelude::*;

verus! {

/// The modulus 2^31 - 1.
pub const P: u32 = 0x7fff_ffff;

/// The modulus as a mathematical integer.
pub open spec fn modulus() -> int {
    0x7fff_ffff
}

/// `x mod p`, in `[0, p)`.
pub open spec fn modp(x: int) -> int {
    x % modulus()
}

/// An element of the field of integers modulo 2^31 - 1, held in canonical form.
#[derive(Clone, Copy, Debug, PartialEq, Eq, Structural)]
pub struct M31 {
    value: u32,
}

impl View for M31 {
    type V = int;

    closed spec fn view(&self) -> int {
        self.value as int
    }
}

proof fn lemma_mul_fold(prod: u64, lo: u64, hi: u64)
    requires
        lo == prod % 0x8000_0000,
        hi == prod / 0x8000_0000,
    ensures
        (prod as int) % modulus() == (hi + lo) as int % modulus(),
{
    assert(prod as int == hi as int * modulus() + (hi + lo)) by (nonlinear_arith)
        requires
            lo == prod % 0x8000_0000,
            hi == prod / 0x8000_0000,
    ;
    lemma_mod_multiples_vanish(hi as int, (hi + lo) as int, modulus());
}

proof fn lemma_pow_halve(r: int, b: int, e: nat)
    ensures
        e % 2 == 0 ==> (r * pow(b * b, e / 2)) == r * pow(b, e),
        e % 2 == 1 ==> (r * b) * pow(b * b, e / 2) == r * pow(b, e),
{
    lemma_square_is_pow2(b);
    lemma_pow_multiplies(b, 2, e / 2);
    lemma_pow1(b);
    if e % 2 == 1 {
        lemma_pow_adds(b, 1, (2 * (e / 2)) as nat);
        assert((r * b) * pow(b, 2 * (e / 2)) == r * (b * pow(b, 2 * (e / 2)))) by (nonlinear_arith);
    }
}

proof fn lemma_pow_mod_step(r: int, b: int, k: nat)
    ensures
        ((r % modulus()) * pow((b * b) % modulus(), k)) % modulus() == (r * pow(b * b, k))
            % modulus(),
{
    lemma_pow_mod_noop(b * b, k, modulus());
    lemma_mul_mod_noop(r % modulus(), pow((b * b) % modulus(), k), modulus());
    lemma_mul_mod_noop(r, pow(b * b, k), modulus());
    lemma_mod_twice(r, modulus());
}

/// Reducing an operand before an addition, subtraction or product does not change the
/// reduced result.
pub proof fn lemma_modp_ops(x: int, y: int)
    ensures
        modp(modp(x) + y) == modp(x + y),
        modp(x + modp(y)) == modp(x + y),
        modp(modp(x) - y) == modp(x - y),
        modp(x - modp(y)) == modp(x - y),
        modp(modp(x) * y) == modp(x * y),
        modp(x * modp(y)) == modp(x * y),
{
    let m = modulus();
    lemma_add_mod_noop_right(y, x, m);
    lemma_add_mod_noop_right(x, y, m);
    lemma_sub_mod_noop_right(x, y, m);
    lemma_sub_mod_noop(x, y, m);
    lemma_sub_mod_noop_right(x % m, y, m);
    lemma_mod_twice(x, m);
    lemma_mul_mod_noop_left(x, y, m);
    lemma_mul_mod_noop_right(x, y, m);
}

/// A value already in `[0, p)` is its own reduction.
pub proof fn lemma_modp_small(x: int)
    requires
        0 <= x < modulus(),
    ensures
        modp(x) == x,
{
    lemma_small_mod(x as nat, modulus() as nat);
}

impl M31 {
    #[verifier::type_invariant]
    spec fn canonical(self) -> bool {
        self.value < P
    }

    /// The element `v mod p`, in specifications.
    pub closed spec fn spec_new(v: int) -> M31 {
        M31 { value: modp(v) as u32 }
    }

    /// The additive identity, in specifications.
    pub closed spec fn spec_zero() -> M31 {
        M31 { value: 0 }
    }

    /// The additive identity.
    pub fn zero() -> (r: M31)
        ensures
            r@ == 0,
            r == M31::spec_zero(),
    {
        M31 { value: 0 }
    }

    /// The multiplicative identity.
    pub fn one() -> (r: M31)
        ensures
            r@ == 1,
    {
        M31 { value: 1 }
    }

    /// The element `value mod p`; every `u32` is accepted and reduced.
    pub fn new(value: u32) -> (r: M31)
        ensures
            r@ == modp(value as int),
    {
        M31 { value: value % P }
    }

    /// The canonical representative in `[0, p)`.
    pub fn value(&self) -> (r: u32)
        ensures
            r as int == self@,
            r < P,
    {
        proof {
            use_type_invariant(self);
        }
        self.value
    }

    /// The canonical representative in `[0, p)`.
    pub fn as_u32(&self) -> (r: u32)
        ensures
            r as int == self@,
            r < P,
    {
        self.value()
    }

    /// `(self + other) mod p`.
    pub fn add(self, other: M31) -> (r: M31)
        ensures
            r@ == modp(self@ + other@),
    {
        proof {
            use_type_invariant(&self);
            use_type_invariant(&other);
        }
        let s = self.value + other.value;
        if s >= P {
            M31 { value: s - P }
        } else {
            M31 { value: s }
        }
    }

    /// `(self - other) mod p`.
    pub fn sub(self, other: M31) -> (r: M31)
        ensures
            r@ == modp(self@ - other@),
    {
        proof {
            use_type_invariant(&self);
            use_type_invariant(&other);
        }
        if self.value >= other.value {
            M31 { value: self.value - other.value }
        } else {
            M31 { value: self.value + (P - other.value) }
        }
    }

    /// `-self mod p`.
    pub fn neg(self) -> (r: M31)
        ensures
            r@ == modp(-self@),
    {
        M31::zero().sub(self)
    }

    /// `(self * other) mod p`: the 62-bit product is folded with 2^31 = 1 (mod p).
    pub fn mul(self, other: M31) -> (r: M31)
        ensures
            r@ == modp(self@ * other@),
    {
        proof {
            use_type_invariant(&self);
            use_type_invariant(&other);
        }
        let a = self.value as u64;
        let b = other.value as u64;
        assert(a * b <= 0x7fff_fffe * 0x7fff_fffe) by (nonlinear_arith)
            requires
                a < 0x7fff_ffff,
                b < 0x7fff_ffff,
        ;
        let prod: u64 = a * b;
        let lo: u64 = prod & 0x7fff_ffff;
        let hi: u64 = prod >> 31;
        assert(lo == prod % 0x8000_0000 && hi == prod / 0x8000_0000) by (bit_vector)
            requires
                lo == prod & 0x7fff_ffff,
                hi == prod >> 31,
        ;
        assert(hi < 0x7fff_fffe) by (nonlinear_arith)
            requires
                hi == prod / 0x8000_0000,
                prod <= 0x7fff_fffe * 0x7fff_fffe,
        ;
        proof {
            lemma_mul_fold(prod, lo, hi);
        }
        let s: u64 = hi + lo;
        let v: u64 = if s >= P as u64 {
            s - P as u64
        } else {
            s
        };
        proof {
            lemma_small_mod(v as nat, modulus() as nat);
            lemma_mod_sub_multiples_vanish(s as int, modulus());
        }
        M31 { value: v as u32 }
    }

    /// `self * self mod p`.
    pub fn square(self) -> (r: M31)
        ensures
            r@ == modp(self@ * self@),
    {
        self.mul(self)
    }

    /// `self^exp mod p` by square-and-multiply.
    pub fn pow(self, exp: u32) -> (r: M31)
        ensures
            r@ == modp(pow(self@, exp as nat)),
    {
        let mut result = M31::one();
        let mut base = self;
        let mut e = exp;
        proof {
            lemma_pow0(self@);
            lemma_pow1(self@);
        }
        while e > 0
            invariant
                (result@ * pow(base@, e as nat)) % modulus() == pow(self@, exp as nat)
                    % modulus(),
            decreases e,
        {
            proof {
                use_type_invariant(&result);
                use_type_invariant(&base);
                lemma_pow_halve(result@, base@, e as nat);
                lemma_small_mod(result@ as nat, modulus() as nat);
            }
            let odd = e % 2 == 1;
            if odd {
                let r2 = result.mul(base);
                proof {
                    lemma_pow_mod_step(result@ * base@, base@, (e / 2) as nat);
                }
                result = r2;
            } else {
                proof {
                    lemma_pow_mod_step(result@, base@, (e / 2) as nat);
                }
            }
            base = base.square();
            e = e / 2;
        }
        proof {
            lemma_pow0(base@);
            use_type_invariant(&result);
            lemma_small_mod(result@ as nat, modulus() as nat);
        }
        result
    }

    /// The inverse by Fermat's little theorem: `self^(p-2)`.
    pub fn inv(self) -> (r: M31)
        ensures
            r@ == modp(pow(self@, (modulus() - 2) as nat)),
    {
        self.pow(P - 2)
    }

    /// Whether this is the additive identity.
    pub fn is_zero(&self) -> (r: bool)
        ensures
            r == (self@ == 0),
    {
        self.value == 0
    }
}

/// `spec_new(v)` is `v mod p`, and an element is determined by its value.
pub proof fn lemma_spec_new(v: int)
    ensures
        M31::spec_new(v)@ == modp(v),
{
}

/// Two elements with the same value are the same element.
pub proof fn lemma_view_injective(a: M31, b: M31)
    requires
        a@ == b@,
    ensures
        a == b,
{
}

/// The sum and the product of two elements stay below the modulus, and an element times
/// its Fermat inverse is its `(p-1)`-th power.
pub proof fn lemma_field_ops_canonical(a: M31, b: M31)
    ensures
        0 <= modp(a@ + b@) < modulus(),
        0 <= modp(a@ * b@) < modulus(),
        modp(a@ * modp(pow(a@, (modulus() - 2) as nat))) == modp(pow(a@, (modulus() - 1) as nat)),
{
    lemma_modp_ops(a@, pow(a@, (modulus() - 2) as nat));
    lemma_pow1(a@);
    lemma_pow_adds(a@, 1, (modulus() - 2) as nat);
}

} // verus!
