//! STARK configuration, proof objects, and the prover's constraint evaluation.
use crate::field::{lemma_modp_ops, modp, M31};
use crate::merkle::MerkleProof;
use vstd::arithmetic::power2::*;
use vstd::prelude::*;

verus! {

/// Domain separator of the STARK transcript, shared by prover and verifier.
pub const DOMAIN_SEPARATOR: &'static str = "zp1-stark-v1";

/// Number of evaluations at which FRI stops folding and sends the rest in the clear.
pub const FRI_FINAL_SIZE: usize = 8;

/// `2^k`, for a `k` whose power fits in `usize`.
pub fn pow2_usize(k: usize) -> (r: usize)
    requires
        pow2(k as nat) <= usize::MAX,
    ensures
        r == pow2(k as nat),
{
    let mut r: usize = 1;
    let mut i: usize = 0;
    proof {
        lemma_pow2(0);
        vstd::arithmetic::power::lemma_pow0(2);
    }
    while i < k
        invariant
            i <= k,
            r == pow2(i as nat),
            pow2(k as nat) <= usize::MAX,
        decreases k - i,
    {
        proof {
            lemma_pow2_unfold((i + 1) as nat);
            if i + 1 < k {
                lemma_pow2_strictly_increases((i + 1) as nat, k as nat);
            }
        }
        r = r * 2;
        i = i + 1;
    }
    r
}

/// Configuration of the prover.
#[derive(Clone, Copy, Debug, PartialEq, Eq, Structural)]
pub struct StarkConfig {
    /// Log2 of the trace length.
    pub log_trace_len: usize,
    /// Ratio of the extension domain to the trace length.
    pub blowup_factor: usize,
    /// Number of queries.
    pub num_queries: usize,
    /// FRI folding factor; every fold halves the domain with one challenge.
    pub fri_folding_factor: usize,
}

impl Default for StarkConfig {
    fn default() -> (r: StarkConfig)
        ensures
            r == (StarkConfig {
                log_trace_len: 10,
                blowup_factor: 8,
                num_queries: 50,
                fri_folding_factor: 4,
            }),
    {
        StarkConfig { log_trace_len: 10, blowup_factor: 8, num_queries: 50, fri_folding_factor: 4 }
    }
}

impl StarkConfig {
    /// The default configuration for a trace of `2^log_trace_len` rows.
    pub fn for_trace_len(log_trace_len: usize) -> (r: StarkConfig)
        ensures
            r == (StarkConfig { log_trace_len, blowup_factor: 8, num_queries: 50, fri_folding_factor: 4 }),
    {
        StarkConfig { log_trace_len, ..Default::default() }
    }

    /// `2^log_trace_len`.
    pub open spec fn spec_trace_len(&self) -> nat {
        pow2(self.log_trace_len as nat)
    }

    /// Size of the extension domain.
    pub open spec fn spec_lde_domain_size(&self) -> nat {
        (self.spec_trace_len() * self.blowup_factor) as nat
    }

    /// The number of trace rows.
    pub fn trace_len(&self) -> (r: usize)
        requires
            self.spec_trace_len() <= usize::MAX,
        ensures
            r == self.spec_trace_len(),
    {
        pow2_usize(self.log_trace_len)
    }

    /// The size of the extension domain.
    pub fn lde_domain_size(&self) -> (r: usize)
        requires
            self.spec_trace_len() <= usize::MAX,
            self.spec_lde_domain_size() <= usize::MAX,
        ensures
            r == self.spec_lde_domain_size(),
    {
        proof {
            lemma_pow2_pos(self.log_trace_len as nat);
            if self.blowup_factor > 0 {
                vstd::arithmetic::mul::lemma_mul_increases(
                    self.blowup_factor as int,
                    self.spec_trace_len() as int,
                );
            }
        }
        self.trace_len() * self.blowup_factor
    }
}

/// Openings of one query: trace and composition values with their Merkle paths.
#[derive(Clone, Debug)]
pub struct QueryProof {
    /// Position in the extension domain.
    pub index: usize,
    /// The trace row at that position: every column's value.
    pub trace_values: Vec<M31>,
    /// Path of the row's leaf in the trace tree.
    pub trace_proof: MerkleProof,
    /// Composition value at that position.
    pub composition_value: M31,
    /// Path of the composition value.
    pub composition_proof: MerkleProof,
    /// The extended trace row one trace row later, at `index + blowup` (wrapping round).
    pub next_trace_values: Vec<M31>,
    /// Its path in the trace tree.
    pub next_trace_proof: MerkleProof,
    /// The trace row `t = index mod n` whose clock identities this query checks.
    pub row_values: Vec<M31>,
    /// Its path in the trace tree.
    pub row_proof: MerkleProof,
    /// Trace row `t + 1` (row 0 after the last).
    pub next_row_values: Vec<M31>,
    /// Its path in the trace tree.
    pub next_row_proof: MerkleProof,
}

/// Opening, at one FRI layer, of the sibling of the queried position.
#[derive(Clone, Debug)]
pub struct FriLayerQueryProof {
    /// Value at the sibling position.
    pub sibling_value: M31,
    /// Its Merkle path in the layer's tree.
    pub merkle_proof: Vec<[u8; 32]>,
}

/// One FRI query through every layer.
#[derive(Clone, Debug)]
pub struct FriQueryProof {
    /// Position in the first layer.
    pub index: usize,
    /// One opening per layer.
    pub layer_proofs: Vec<FriLayerQueryProof>,
}

/// Commitments to the folded layers, the queries, and the last layer in the clear.
#[derive(Clone, Debug)]
pub struct FriProof {
    pub layer_commitments: Vec<[u8; 32]>,
    pub query_proofs: Vec<FriQueryProof>,
    pub final_poly: Vec<M31>,
}

/// A STARK proof.
#[derive(Clone, Debug)]
pub struct StarkProof {
    /// Root of the trace tree, whose leaves are the rows of the extended trace.
    pub trace_commitment: [u8; 32],
    /// Root of the composition tree.
    pub composition_commitment: [u8; 32],
    pub fri_proof: FriProof,
    pub query_proofs: Vec<QueryProof>,
}

/// Sizes of the constraint system.
#[derive(Clone, Copy, Debug, PartialEq, Eq, Structural)]
pub struct ConstraintEvaluator {
    /// Number of trace columns.
    pub num_cols: usize,
    /// Number of constraint polynomials.
    pub num_constraints: usize,
}

/// `alphas[i]`, or one where there is none.
pub open spec fn alpha_or_one(alphas: Seq<M31>, i: int) -> int {
    if i < alphas.len() {
        alphas[i]@
    } else {
        1
    }
}

/// The clock identities at one point, combined with `alphas`: the boundary
/// `row[0]` (first row only) and the transition `next[0] - row[0] - 1`.
pub open spec fn clock_composition(
    row: Seq<M31>,
    next: Seq<M31>,
    alphas: Seq<M31>,
    is_boundary: bool,
) -> int {
    let boundary = if is_boundary && row.len() > 0 {
        modp(alpha_or_one(alphas, 0) * row[0]@)
    } else {
        0
    };
    let transition = if row.len() > 0 && next.len() > 0 {
        modp(alpha_or_one(alphas, 1) * (next[0]@ - row[0]@ - 1))
    } else {
        0
    };
    modp(boundary + transition)
}

impl ConstraintEvaluator {
    pub fn new(num_cols: usize, num_constraints: usize) -> (r: ConstraintEvaluator)
        ensures
            r.num_cols == num_cols,
            r.num_constraints == num_constraints,
    {
        ConstraintEvaluator { num_cols, num_constraints }
    }

    /// Evaluates the clock identities at one point.
    pub fn evaluate(
        &self,
        trace_row: &[M31],
        trace_row_next: &[M31],
        alphas: &[M31],
        is_boundary: bool,
    ) -> (r: M31)
        ensures
            r@ == clock_composition(trace_row@, trace_row_next@, alphas@, is_boundary),
    {
        let mut result = M31::zero();
        if is_boundary && trace_row.len() > 0 {
            let a = if alphas.len() > 0 {
                alphas[0]
            } else {
                M31::one()
            };
            result = result.add(a.mul(trace_row[0]));
        }
        if trace_row.len() > 0 && trace_row_next.len() > 0 {
            let a = if alphas.len() > 1 {
                alphas[1]
            } else {
                M31::one()
            };
            let c = trace_row_next[0].sub(trace_row[0]).sub(M31::one());
            proof {
                lemma_modp_ops(trace_row_next@[0]@ - trace_row@[0]@, 1);
                lemma_modp_ops(a@, trace_row_next@[0]@ - trace_row@[0]@ - 1);
            }
            result = result.add(a.mul(c));
        }
        proof {
            let row = trace_row@;
            let bnd = if is_boundary && row.len() > 0 {
                modp(alpha_or_one(alphas@, 0) * row[0]@)
            } else {
                0
            };
            lemma_modp_ops(0, bnd);
            lemma_modp_ops(bnd, 0);
            if is_boundary && row.len() > 0 {
                lemma_modp_ops(0, alpha_or_one(alphas@, 0) * row[0]@);
            }
        }
        result
    }
}

} // verus!
