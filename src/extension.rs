//! The degree-4 extension QM31 = CM31[v]/(v^2 - (2 + u)) over CM31 = M31[u]/(u^2 - 2).
use crate::field::{modp, modulus, M31};
use vstd::arithmetic::div_mod::*;
use vstd::prelude::*;

verus! {

/// `u^2` in CM31.
pub const U_SQUARED: u32 = 2;

/// Components of a CM31 element `a + b*u` as integers.
pub type CM31Spec = (int, int);

/// Components of a QM31 element `(c0 + c1*u) + (c2 + c3*u)*v` as integers.
pub type QM31Spec = (int, int, int, int);

pub open spec fn cm31_add(a: CM31Spec, b: CM31Spec) -> CM31Spec {
    (modp(a.0 + b.0), modp(a.1 + b.1))
}

pub open spec fn cm31_sub(a: CM31Spec, b: CM31Spec) -> CM31Spec {
    (modp(a.0 - b.0), modp(a.1 - b.1))
}

/// `(a0 + a1 u)(b0 + b1 u) = (a0 b0 + 2 a1 b1) + (a0 b1 + a1 b0) u`.
pub open spec fn cm31_mul(a: CM31Spec, b: CM31Spec) -> CM31Spec {
    (modp(a.0 * b.0 + 2 * (a.1 * b.1)), modp(a.0 * b.1 + a.1 * b.0))
}

/// `(a + b v)(c + d v) = (a c + b d (2 + u)) + (a d + b c) v`.
pub open spec fn qm31_mul(x: QM31Spec, y: QM31Spec) -> QM31Spec {
    let a = (x.0, x.1);
    let b = (x.2, x.3);
    let c = (y.0, y.1);
    let d = (y.2, y.3);
    let lo = cm31_add(cm31_mul(a, c), cm31_mul(cm31_mul(b, d), (2, 1)));
    let hi = cm31_add(cm31_mul(a, d), cm31_mul(b, c));
    (lo.0, lo.1, hi.0, hi.1)
}

pub open spec fn qm31_add(x: QM31Spec, y: QM31Spec) -> QM31Spec {
    (modp(x.0 + y.0), modp(x.1 + y.1), modp(x.2 + y.2), modp(x.3 + y.3))
}

pub open spec fn qm31_sub(x: QM31Spec, y: QM31Spec) -> QM31Spec {
    (modp(x.0 - y.0), modp(x.1 - y.1), modp(x.2 - y.2), modp(x.3 - y.3))
}

/// An element `a + b*u` of CM31.
#[derive(Clone, Copy, Debug, PartialEq, Eq, Structural)]
pub struct CM31 {
    pub a: M31,
    pub b: M31,
}

impl View for CM31 {
    type V = CM31Spec;

    open spec fn view(&self) -> CM31Spec {
        (self.a@, self.b@)
    }
}

proof fn lemma_mod_sum(x: int, y: int)
    ensures
        modp(modp(x) + modp(y)) == modp(x + y),
{
    lemma_add_mod_noop(x, y, modulus());
}

impl CM31 {
    pub fn new(a: M31, b: M31) -> (r: CM31)
        ensures
            r.a == a,
            r.b == b,
    {
        CM31 { a, b }
    }

    pub fn add(self, o: CM31) -> (r: CM31)
        ensures
            r@ == cm31_add(self@, o@),
    {
        CM31 { a: self.a.add(o.a), b: self.b.add(o.b) }
    }

    pub fn sub(self, o: CM31) -> (r: CM31)
        ensures
            r@ == cm31_sub(self@, o@),
    {
        CM31 { a: self.a.sub(o.a), b: self.b.sub(o.b) }
    }

    pub fn mul(self, o: CM31) -> (r: CM31)
        ensures
            r@ == cm31_mul(self@, o@),
    {
        let x0 = self.a.value();
        let x1 = self.b.value();
        let y0 = o.a.value();
        let y1 = o.b.value();
        let t = self.b.mul(o.b);
        let a = self.a.mul(o.a).add(t.add(t));
        let b = self.a.mul(o.b).add(self.b.mul(o.a));
        proof {
            lemma_mod_sum(x1 * y1, x1 * y1);
            lemma_mod_sum(x0 * y0, 2 * (x1 * y1));
            lemma_mod_sum(x0 * y1, x1 * y0);
        }
        CM31 { a, b }
    }
}

/// An element `(c0 + c1*u) + (c2 + c3*u)*v` of QM31.
#[derive(Clone, Copy, Debug, PartialEq, Eq, Structural)]
pub struct QM31 {
    pub c0: M31,
    pub c1: M31,
    pub c2: M31,
    pub c3: M31,
}

impl View for QM31 {
    type V = QM31Spec;

    open spec fn view(&self) -> QM31Spec {
        (self.c0@, self.c1@, self.c2@, self.c3@)
    }
}

impl QM31 {
    pub fn new(c0: M31, c1: M31, c2: M31, c3: M31) -> (r: QM31)
        ensures
            r.c0 == c0,
            r.c1 == c1,
            r.c2 == c2,
            r.c3 == c3,
    {
        QM31 { c0, c1, c2, c3 }
    }

    /// The base-field element `x` seen in the extension.
    pub fn from_base(x: M31) -> (r: QM31)
        ensures
            r@ == (x@, 0int, 0int, 0int),
    {
        QM31 { c0: x, c1: M31::zero(), c2: M31::zero(), c3: M31::zero() }
    }

    pub fn add(self, o: QM31) -> (r: QM31)
        ensures
            r@ == qm31_add(self@, o@),
    {
        QM31 { c0: self.c0.add(o.c0), c1: self.c1.add(o.c1), c2: self.c2.add(o.c2), c3: self.c3.add(o.c3) }
    }

    pub fn sub(self, o: QM31) -> (r: QM31)
        ensures
            r@ == qm31_sub(self@, o@),
    {
        QM31 { c0: self.c0.sub(o.c0), c1: self.c1.sub(o.c1), c2: self.c2.sub(o.c2), c3: self.c3.sub(o.c3) }
    }

    pub fn mul(self, o: QM31) -> (r: QM31)
        ensures
            r@ == qm31_mul(self@, o@),
    {
        let a = CM31::new(self.c0, self.c1);
        let b = CM31::new(self.c2, self.c3);
        let c = CM31::new(o.c0, o.c1);
        let d = CM31::new(o.c2, o.c3);
        let v2 = CM31::new(M31::new(U_SQUARED), M31::one());
        let lo = a.mul(c).add(b.mul(d).mul(v2));
        let hi = a.mul(d).add(b.mul(c));
        QM31 { c0: lo.a, c1: lo.b, c2: hi.a, c3: hi.b }
    }
}

} // verus!
