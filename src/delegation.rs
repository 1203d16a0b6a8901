//! The delegation bus: a LogUp argument that the CPU and a precompile record the same
//! multiset of calls.
//!
//! Each call `(id, input, output, cycle)` is compressed with a challenge `alpha` into
//! `t = id + alpha * (input + alpha * (output + alpha * cycle))`; a side's sum is
//! `sum_i 1 / (gamma - t_i)`, and the two sides balance when their sums agree.
use crate::field::{lemma_modp_ops, modp, M31};
use crate::lde::fermat_inverse;
use vstd::prelude::*;

verus! {

/// A delegated call as both sides of the bus record it.
#[derive(Clone, Copy, Debug, PartialEq, Eq, Structural)]
pub struct DelegationCall {
    pub precompile_id: M31,
    pub input_digest: M31,
    pub output_digest: M31,
    pub cycle: M31,
}

/// The compression of a call with challenge `alpha`.
pub open spec fn compress(c: DelegationCall, alpha: int) -> int {
    modp(
        c.precompile_id@ + modp(
            alpha * modp(c.input_digest@ + modp(alpha * modp(c.output_digest@ + modp(alpha * c.cycle@)))),
        ),
    )
}

/// `sum_i 1 / (gamma - t_i)` over the calls.
pub open spec fn logup_sum_spec(calls: Seq<DelegationCall>, alpha: int, gamma: int) -> int
    decreases calls.len(),
{
    if calls.len() == 0 {
        0
    } else {
        modp(
            logup_sum_spec(calls.drop_last(), alpha, gamma) + fermat_inverse(
                modp(gamma - compress(calls.last(), alpha)),
            ),
        )
    }
}

/// Compresses one call.
pub fn compress_call(c: &DelegationCall, alpha: M31) -> (r: M31)
    ensures
        r@ == compress(*c, alpha@),
{
    c.precompile_id.add(
        alpha.mul(c.input_digest.add(alpha.mul(c.output_digest.add(alpha.mul(c.cycle))))),
    )
}

/// The LogUp sum of one side of the bus.
pub fn logup_sum(calls: &[DelegationCall], alpha: M31, gamma: M31) -> (r: M31)
    ensures
        r@ == logup_sum_spec(calls@, alpha@, gamma@),
{
    let mut acc = M31::zero();
    let mut i: usize = 0;
    while i < calls.len()
        invariant
            i <= calls@.len(),
            acc@ == logup_sum_spec(calls@.subrange(0, i as int), alpha@, gamma@),
        decreases calls@.len() - i,
    {
        let t = compress_call(&calls[i], alpha);
        let term = gamma.sub(t).inv();
        proof {
            let s = calls@.subrange(0, i + 1);
            assert(s.drop_last() =~= calls@.subrange(0, i as int));
        }
        acc = acc.add(term);
        i = i + 1;
    }
    proof {
        assert(calls@.subrange(0, i as int) =~= calls@);
    }
    acc
}

/// Whether the CPU's and the precompile's records give the same LogUp sum.
pub fn buses_balance(
    cpu_calls: &[DelegationCall],
    precompile_calls: &[DelegationCall],
    alpha: M31,
    gamma: M31,
) -> (r: bool)
    ensures
        r == (logup_sum_spec(cpu_calls@, alpha@, gamma@) == logup_sum_spec(
            precompile_calls@,
            alpha@,
            gamma@,
        )),
{
    let a = logup_sum(cpu_calls, alpha, gamma);
    let b = logup_sum(precompile_calls, alpha, gamma);
    a.value() == b.value()
}

/// The sum over two runs of calls is the sum of their sums.
pub proof fn lemma_logup_sum_append(
    a: Seq<DelegationCall>,
    b: Seq<DelegationCall>,
    alpha: int,
    gamma: int,
)
    ensures
        logup_sum_spec(a + b, alpha, gamma) == modp(
            logup_sum_spec(a, alpha, gamma) + logup_sum_spec(b, alpha, gamma),
        ),
    decreases b.len(),
{
    if b.len() == 0 {
        assert(a + b =~= a);
        lemma_modp_ops(logup_sum_spec(a, alpha, gamma), 0);
        lemma_logup_sum_reduced(a, alpha, gamma);
    } else {
        let term = fermat_inverse(modp(gamma - compress(b.last(), alpha)));
        assert((a + b).drop_last() =~= a + b.drop_last());
        assert((a + b).last() == b.last());
        lemma_logup_sum_append(a, b.drop_last(), alpha, gamma);
        let sa = logup_sum_spec(a, alpha, gamma);
        let sb = logup_sum_spec(b.drop_last(), alpha, gamma);
        lemma_modp_ops(sa + sb, term);
        lemma_modp_ops(sa, sb + term);
        lemma_modp_ops(sa, modp(sb + term));
        assert(sa + sb + term == sa + (sb + term));
    }
}

proof fn lemma_logup_sum_reduced(a: Seq<DelegationCall>, alpha: int, gamma: int)
    ensures
        modp(logup_sum_spec(a, alpha, gamma)) == logup_sum_spec(a, alpha, gamma),
{
    if a.len() > 0 {
        let x = logup_sum_spec(a.drop_last(), alpha, gamma) + fermat_inverse(
            modp(gamma - compress(a.last(), alpha)),
        );
        lemma_modp_ops(x, 0);
    } else {
        crate::field::lemma_modp_small(0);
    }
}

/// Two sides that record the same multiset of calls have the same LogUp sum: an honest
/// bus balances whatever order each side records its calls in.
pub proof fn lemma_logup_sum_multiset(
    a: Seq<DelegationCall>,
    b: Seq<DelegationCall>,
    alpha: int,
    gamma: int,
)
    requires
        a.to_multiset() == b.to_multiset(),
    ensures
        logup_sum_spec(a, alpha, gamma) == logup_sum_spec(b, alpha, gamma),
    decreases a.len(),
{
    broadcast use vstd::multiset::group_multiset_axioms;

    vstd::seq_lib::to_multiset_len(a);
    vstd::seq_lib::to_multiset_len(b);
    if a.len() == 0 {
        assert(a =~= b);
    } else {
        let x = a.last();
        let a1 = a.drop_last();
        assert(a1.push(x) =~= a);
        vstd::seq_lib::to_multiset_build(a1, x);
        vstd::seq_lib::to_multiset_contains(b, x);
        assert(b.to_multiset().count(x) > 0);
        assert(b.contains(x));
        let j = choose|j: int| 0 <= j < b.len() && b[j] == x;
        let b1 = b.remove(j);
        vstd::seq_lib::to_multiset_remove(b, j);
        assert(a1.to_multiset() =~= a1.to_multiset().insert(x).remove(x));
        lemma_logup_sum_multiset(a1, b1, alpha, gamma);
        let pre = b.subrange(0, j);
        let post = b.subrange(j + 1, b.len() as int);
        let single = seq![x];
        assert(b =~= pre + (single + post));
        assert(b1 =~= pre + post);
        lemma_logup_sum_append(pre, single + post, alpha, gamma);
        lemma_logup_sum_append(single, post, alpha, gamma);
        lemma_logup_sum_append(pre, post, alpha, gamma);
        let z = modp(gamma - compress(x, alpha));
        let t = fermat_inverse(z);
        assert(single.drop_last() =~= Seq::<DelegationCall>::empty());
        assert(single.last() == x);
        assert(logup_sum_spec(single.drop_last(), alpha, gamma) == 0);
        lemma_modp_ops(vstd::arithmetic::power::pow(z, (crate::field::modulus() - 2) as nat), 0);
        assert(logup_sum_spec(single, alpha, gamma) == modp(0 + t));
        assert(logup_sum_spec(single, alpha, gamma) == t);
        let s_pre = logup_sum_spec(pre, alpha, gamma);
        let s_post = logup_sum_spec(post, alpha, gamma);
        lemma_modp_ops(s_pre, t + s_post);
        lemma_modp_ops(s_pre + s_post, t);
        assert(s_pre + (t + s_post) == s_pre + s_post + t);
    }
}

} // verus!
