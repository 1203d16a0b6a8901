//! A 32-bit word as two 16-bit limbs held in field elements.
use crate::field::{modp, M31};
use vstd::prelude::*;

verus! {

/// The limb base 2^16.
pub const LIMB_BASE: u32 = 0x1_0000;

/// Splits `w` into `(w & 0xFFFF, w >> 16)`.
pub fn to_limbs(w: u32) -> (r: (M31, M31))
    ensures
        r.0@ == w % 0x1_0000,
        r.1@ == w / 0x1_0000,
{
    let lo = w & 0xFFFF;
    let hi = w >> 16;
    assert(lo == w % 0x1_0000 && hi == w / 0x1_0000) by (bit_vector)
        requires
            lo == w & 0xFFFF,
            hi == w >> 16,
    ;
    (M31::new(lo), M31::new(hi))
}

/// Joins two limbs, each below 2^16, into `lo + hi * 2^16`.
pub fn from_limbs(lo: M31, hi: M31) -> (r: u32)
    requires
        lo@ < 0x1_0000,
        hi@ < 0x1_0000,
    ensures
        r == lo@ + hi@ * 0x1_0000,
{
    let l = lo.value();
    let h = hi.value();
    assert(h * 0x1_0000 + l <= 0xffff_ffff) by (nonlinear_arith)
        requires
            l < 0x1_0000,
            h < 0x1_0000,
    ;
    h * LIMB_BASE + l
}

/// Joining the limbs of a word gives the word back: the two contracts above compose
/// to the identity.
pub proof fn lemma_limbs_round_trip(w: u32)
    ensures
        w % 0x1_0000 < 0x1_0000,
        w / 0x1_0000 < 0x1_0000,
        (w % 0x1_0000) + (w / 0x1_0000) * 0x1_0000 == w,
        modp((w % 0x1_0000) as int) == w % 0x1_0000,
        modp((w / 0x1_0000) as int) == w / 0x1_0000,
{
}

} // verus!
