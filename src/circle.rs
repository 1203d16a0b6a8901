//! The circle group `x^2 + y^2 = 1` over M31, of order 2^31.
use crate::field::{lemma_modp_ops, modp, M31};
use vstd::prelude::*;

verus! {

/// A point `(x, y)` as integers.
pub type PointSpec = (int, int);

/// Whether `(x, y)` lies on the circle.
pub open spec fn on_circle(p: PointSpec) -> bool {
    modp(p.0 * p.0 + p.1 * p.1) == 1
}

/// The group law `(x1, y1) * (x2, y2) = (x1 x2 - y1 y2, x1 y2 + y1 x2)`.
pub open spec fn circle_add(p: PointSpec, q: PointSpec) -> PointSpec {
    (modp(p.0 * q.0 - p.1 * q.1), modp(p.0 * q.1 + p.1 * q.0))
}

/// `p` combined with itself `2^n` times.
pub open spec fn circle_double_n(p: PointSpec, n: nat) -> PointSpec
    decreases n,
{
    if n == 0 {
        p
    } else {
        let q = circle_double_n(p, (n - 1) as nat);
        circle_add(q, q)
    }
}

/// The group law keeps points on the circle: the norm of a product is the product of
/// the norms.
pub proof fn lemma_circle_add_closed(p: PointSpec, q: PointSpec)
    requires
        on_circle(p),
        on_circle(q),
    ensures
        on_circle(circle_add(p, q)),
{
    let (x1, y1) = p;
    let (x2, y2) = q;
    let a = x1 * x2 - y1 * y2;
    let b = x1 * y2 + y1 * x2;
    let xx = x1 * x2;
    let yy = y1 * y2;
    let xy = x1 * y2;
    let yx = y1 * x2;
    assert((xx - yy) * (xx - yy) == xx * xx - 2 * (xx * yy) + yy * yy) by (nonlinear_arith);
    assert((xy + yx) * (xy + yx) == xy * xy + 2 * (xy * yx) + yx * yx) by (nonlinear_arith);
    assert(xx * yy == xy * yx) by (nonlinear_arith)
        requires
            xx == x1 * x2,
            yy == y1 * y2,
            xy == x1 * y2,
            yx == y1 * x2,
    ;
    assert(xx * xx == (x1 * x1) * (x2 * x2)) by (nonlinear_arith)
        requires
            xx == x1 * x2,
    ;
    assert(yy * yy == (y1 * y1) * (y2 * y2)) by (nonlinear_arith)
        requires
            yy == y1 * y2,
    ;
    assert(xy * xy == (x1 * x1) * (y2 * y2)) by (nonlinear_arith)
        requires
            xy == x1 * y2,
    ;
    assert(yx * yx == (y1 * y1) * (x2 * x2)) by (nonlinear_arith)
        requires
            yx == y1 * x2,
    ;
    let n1 = x1 * x1;
    let m1 = y1 * y1;
    let n2 = x2 * x2;
    let m2 = y2 * y2;
    assert((n1 + m1) * (n2 + m2) == n1 * n2 + n1 * m2 + m1 * n2 + m1 * m2) by (nonlinear_arith);
    assert(a * a + b * b == (x1 * x1 + y1 * y1) * (x2 * x2 + y2 * y2));
    lemma_norm_mod(a, b);
    lemma_modp_ops(x1 * x1 + y1 * y1, x2 * x2 + y2 * y2);
    lemma_modp_ops(1, x2 * x2 + y2 * y2);
}

/// The norm depends on the coordinates mod p only.
proof fn lemma_norm_mod(a: int, b: int)
    ensures
        modp(modp(a) * modp(a) + modp(b) * modp(b)) == modp(a * a + b * b),
{
    lemma_modp_ops(a, a);
    lemma_modp_ops(modp(a), a);
    lemma_modp_ops(b, b);
    lemma_modp_ops(modp(b), b);
    lemma_modp_ops(modp(a) * modp(a), modp(b) * modp(b));
    lemma_modp_ops(a * a, modp(b) * modp(b));
    lemma_modp_ops(a * a, b * b);
    lemma_modp_ops(modp(a * a), modp(b) * modp(b));
}

/// A point of the circle group.
#[derive(Clone, Copy, Debug, PartialEq, Eq, Structural)]
pub struct CirclePoint {
    pub x: M31,
    pub y: M31,
}

impl View for CirclePoint {
    type V = PointSpec;

    open spec fn view(&self) -> PointSpec {
        (self.x@, self.y@)
    }
}

impl CirclePoint {
    /// The identity `(1, 0)`.
    pub fn zero() -> (r: CirclePoint)
        ensures
            r@ == (1int, 0int),
    {
        CirclePoint { x: M31::one(), y: M31::zero() }
    }

    /// A generator of the whole group, of order 2^31.
    pub fn generator() -> (r: CirclePoint)
        ensures
            r@ == (2int, 1268011823int),
    {
        CirclePoint { x: M31::new(2), y: M31::new(1268011823) }
    }

    /// The group law.
    pub fn add(self, other: CirclePoint) -> (r: CirclePoint)
        ensures
            r@ == circle_add(self@, other@),
    {
        let x = self.x.mul(other.x).sub(self.y.mul(other.y));
        let y = self.x.mul(other.y).add(self.y.mul(other.x));
        proof {
            let (x1, y1) = self@;
            let (x2, y2) = other@;
            lemma_modp_ops(x1 * x2, modp(y1 * y2));
            lemma_modp_ops(x1 * x2, y1 * y2);
            lemma_modp_ops(x1 * y2, modp(y1 * x2));
            lemma_modp_ops(x1 * y2, y1 * x2);
        }
        CirclePoint { x, y }
    }

    /// `self * self`.
    pub fn double(self) -> (r: CirclePoint)
        ensures
            r@ == circle_add(self@, self@),
    {
        self.add(self)
    }

    /// The inverse `(x, -y)`: the image under the involution of twin cosets.
    pub fn conjugate(self) -> (r: CirclePoint)
        ensures
            r@ == (self.x@, modp(-self.y@)),
    {
        CirclePoint { x: self.x, y: self.y.neg() }
    }

    /// `self` doubled `n` times.
    pub fn repeated_double(self, n: u32) -> (r: CirclePoint)
        ensures
            r@ == circle_double_n(self@, n as nat),
    {
        let mut p = self;
        let mut i: u32 = 0;
        while i < n
            invariant
                i <= n,
                p@ == circle_double_n(self@, i as nat),
            decreases n - i,
        {
            p = p.double();
            i = i + 1;
        }
        p
    }

    /// A generator of the subgroup of order `2^log_size`.
    pub fn subgroup_generator(log_size: u32) -> (r: CirclePoint)
        requires
            log_size <= 31,
        ensures
            r@ == circle_double_n((2int, 1268011823int), (31 - log_size) as nat),
    {
        CirclePoint::generator().repeated_double(31 - log_size)
    }

    /// Whether the point satisfies `x^2 + y^2 = 1`.
    pub fn is_on_circle(&self) -> (r: bool)
        ensures
            r == on_circle(self@),
    {
        let n = self.x.square().add(self.y.square());
        proof {
            lemma_modp_ops(self.x@ * self.x@, modp(self.y@ * self.y@));
            lemma_modp_ops(self.x@ * self.x@, self.y@ * self.y@);
        }
        n.value() == 1
    }
}

} // verus!
