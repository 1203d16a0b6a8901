//! STARK verification: transcript replay, Merkle openings, FRI folding, degree bound.
use crate::channel::{absorbed, challenges, initial_transcript, sponge_output, squeezes, ProverChannel};
use crate::field::{lemma_modp_ops, modp, M31};
use crate::merkle::{
    leaf_digest, level_index, level_view, path_root, row_digest, sibling, verify_path,
    verify_row_path, MerkleProof,
};
use crate::stark::{pow2_usize, FriQueryProof, QueryProof, StarkProof, DOMAIN_SEPARATOR};
use vstd::arithmetic::power2::*;
use vstd::prelude::*;
use vstd::string::StringSliceAdditionalSpecFns;

verus! {

/// Why a FRI query was rejected.
#[derive(Clone, Copy, Debug, PartialEq, Eq, Structural)]
pub enum FriFailure {
    /// The query opens another number of layers than were committed.
    LayerCountMismatch { expected: usize, got: usize },
    /// The query starts at another position than the trace query of the same rank.
    IndexMismatch { expected: usize, got: usize },
    /// A sibling's Merkle path does not lead to its layer's root.
    MerkleMismatch { query: usize },
    /// The folded value disagrees with the last layer sent in the clear.
    FinalValueMismatch { query: usize },
}

/// A structural defect of a proof.
#[derive(Clone, Copy, Debug, PartialEq, Eq, Structural)]
pub enum ProofDefect {
    /// Another number of trace queries than the configuration asks for.
    QueryCount { expected: usize, got: usize },
    /// Another number of FRI queries than the configuration asks for.
    FriQueryCount { expected: usize, got: usize },
}

/// Which constraint check failed.
#[derive(Clone, Copy, Debug, PartialEq, Eq, Structural)]
pub enum ConstraintFailure {
    /// A query opened no trace value.
    EmptyTraceValues,
    /// The opened composition value disagrees with the one recomputed from the opened rows.
    CompositionMismatch,
    /// The first trace row's clock is not zero.
    Boundary,
    /// A trace row's clock is not the previous row's plus one.
    Transition,
}

/// Verification errors; the verifier reports the first one met.
#[derive(Clone, Copy, Debug, PartialEq, Eq, Structural)]
pub enum VerifyError {
    InvalidCommitment,
    FriError { layer: usize, reason: FriFailure },
    ConstraintError { constraint: ConstraintFailure },
    MerkleError { index: usize },
    DegreeBoundError { got: usize, max: usize },
    InvalidProof { reason: ProofDefect },
    QueryIndexMismatch { expected: usize, got: usize },
}

/// Configuration of the verifier.
#[derive(Clone, Copy, Debug, PartialEq, Eq, Structural)]
pub struct VerifierConfig {
    pub log_trace_len: usize,
    pub blowup_factor: usize,
    pub num_queries: usize,
    pub fri_folding_factor: usize,
    /// Largest accepted number of values in the last FRI layer.
    pub fri_final_degree: usize,
}

impl Default for VerifierConfig {
    fn default() -> (r: VerifierConfig)
        ensures
            r == (VerifierConfig {
                log_trace_len: 10,
                blowup_factor: 8,
                num_queries: 50,
                fri_folding_factor: 4,
                fri_final_degree: 8,
            }),
    {
        VerifierConfig {
            log_trace_len: 10,
            blowup_factor: 8,
            num_queries: 50,
            fri_folding_factor: 4,
            fri_final_degree: 8,
        }
    }
}

/// Number of trailing zero bits of a positive `n`.
pub open spec fn trailing_zeros(n: nat) -> nat
    decreases n,
{
    if n == 0 || n % 2 == 1 {
        0
    } else {
        1 + trailing_zeros(n / 2)
    }
}

impl VerifierConfig {
    /// Size of the extension domain.
    pub open spec fn spec_lde_domain_size(&self) -> nat {
        (pow2(self.log_trace_len as nat) * self.blowup_factor) as nat
    }

    /// Whether the extension domain's size fits in `usize`.
    pub open spec fn fits(&self) -> bool {
        &&& pow2(self.log_trace_len as nat) <= usize::MAX
        &&& self.spec_lde_domain_size() <= usize::MAX
    }

    /// The size of the extension domain.
    pub fn lde_domain_size(&self) -> (r: usize)
        requires
            self.fits(),
        ensures
            r == self.spec_lde_domain_size(),
    {
        pow2_usize(self.log_trace_len) * self.blowup_factor
    }

    /// Log2 of the extension domain's size: the trace's plus the blowup's trailing zeros.
    pub fn log_lde_domain_size(&self) -> (r: usize)
        requires
            self.blowup_factor > 0,
            self.log_trace_len + 64 <= usize::MAX,
        ensures
            r == self.log_trace_len + trailing_zeros(self.blowup_factor as nat),
    {
        let mut b = self.blowup_factor;
        let mut count: usize = 0;
        proof {
            lemma2_to64();
        }
        while b % 2 == 0
            invariant
                b > 0,
                count + trailing_zeros(b as nat) == trailing_zeros(self.blowup_factor as nat),
                count <= 64,
                b * pow2(count as nat) == self.blowup_factor,
            decreases b,
        {
            proof {
                lemma_pow2_unfold((count + 1) as nat);
                if count >= 64 {
                    lemma2_to64();
                    let two_to_64 = pow2(64);
                    assert(b * two_to_64 >= two_to_64) by (nonlinear_arith)
                        requires
                            b > 0,
                            two_to_64 > 0,
                    ;
                    assert(false);
                }
                let c2 = pow2((count + 1) as nat);
                let c1 = pow2(count as nat);
                assert((b / 2) * c2 == b * c1) by (nonlinear_arith)
                    requires
                        b % 2 == 0,
                        c2 == 2 * c1,
                ;
            }
            b = b / 2;
            count = count + 1;
        }
        self.log_trace_len + count
    }
}

/// The positions a query at `idx` also opens: one trace row later, the checked trace row,
/// and the trace row after it.
pub(crate) fn query_positions(cfg: &VerifierConfig, idx: usize) -> (r: (usize, usize, usize))
    requires
        cfg.fits(),
        cfg.blowup_factor > 0,
        idx < cfg.spec_lde_domain_size(),
    ensures
        r.0 == next_position(*cfg, idx as int),
        r.1 == row_position(*cfg, checked_row(*cfg, idx as int)),
        r.2 == row_position(*cfg, checked_row(*cfg, idx as int) + 1),
        r.0 < cfg.spec_lde_domain_size(),
        r.1 < cfg.spec_lde_domain_size(),
        r.2 < cfg.spec_lde_domain_size(),
{
    let n = pow2_usize(cfg.log_trace_len);
    let b = cfg.blowup_factor;
    let domain = cfg.lde_domain_size();
    proof {
        lemma_pow2_pos(cfg.log_trace_len as nat);
        assert(b <= domain) by (nonlinear_arith)
            requires
                domain == n * b,
                n >= 1,
        ;
    }
    let ni = if idx >= domain - b {
        idx - (domain - b)
    } else {
        idx + b
    };
    proof {
        if idx >= domain - b {
            vstd::arithmetic::div_mod::lemma_fundamental_div_mod_converse_mod(
                idx + b,
                domain as int,
                1,
                ni as int,
            );
        } else {
            vstd::arithmetic::div_mod::lemma_small_mod((idx + b) as nat, domain as nat);
        }
    }
    let t = idx % n;
    let t1 = if t + 1 == n {
        0
    } else {
        t + 1
    };
    proof {
        assert(t * b < domain && t1 * b < domain) by (nonlinear_arith)
            requires
                domain == n * b,
                t < n,
                t1 < n,
                b > 0,
        ;
        vstd::arithmetic::div_mod::lemma_small_mod(t as nat, n as nat);
        if t + 1 < n {
            vstd::arithmetic::div_mod::lemma_small_mod((t + 1) as nat, n as nat);
        } else {
            vstd::arithmetic::div_mod::lemma_mod_self_0(n as int);
        }
    }
    (ni, t * b, t1 * b)
}

/// The STARK verifier.
pub struct Verifier {
    pub config: VerifierConfig,
}

/// The domain separator as bytes.
pub open spec fn domain_separator() -> Seq<u8> {
    DOMAIN_SEPARATOR.spec_bytes()
}

/// Transcript once the trace root is absorbed.
pub open spec fn after_trace(p: StarkProof) -> Seq<Option<u32>> {
    initial_transcript(domain_separator()) + absorbed(p.trace_commitment@)
}

/// Transcript once the constraint challenge is drawn and the composition root absorbed.
pub open spec fn after_composition(p: StarkProof) -> Seq<Option<u32>> {
    after_trace(p) + squeezes(4) + absorbed(p.composition_commitment@)
}

/// Transcript once the out-of-domain point is drawn.
pub open spec fn before_fri(p: StarkProof) -> Seq<Option<u32>> {
    after_composition(p) + squeezes(4)
}

/// Transcript from `t` on after absorbing the first `l` layer roots, each followed by
/// its folding challenge.
pub open spec fn fri_prefix(t: Seq<Option<u32>>, commits: Seq<[u8; 32]>, l: nat) -> Seq<
    Option<u32>,
>
    decreases l,
{
    if l == 0 {
        t
    } else {
        fri_prefix(t, commits, (l - 1) as nat) + absorbed(commits[l - 1]@) + squeezes(1)
    }
}

/// The folding challenge of layer `l`.
pub open spec fn fri_beta(p: StarkProof, l: nat) -> u32 {
    sponge_output(
        fri_prefix(before_fri(p), p.fri_proof.layer_commitments@, l) + absorbed(
            p.fri_proof.layer_commitments@[l as int]@,
        ),
    )
}

/// Transcript from which the query positions are drawn.
pub open spec fn query_transcript(p: StarkProof) -> Seq<Option<u32>> {
    fri_prefix(before_fri(p), p.fri_proof.layer_commitments@, p.fri_proof.layer_commitments@.len())
}

/// Position of query `i`.
pub open spec fn expected_index(cfg: VerifierConfig, p: StarkProof, i: int) -> int {
    challenges(query_transcript(p), cfg.num_queries as nat)[i] as int % cfg.spec_lde_domain_size() as int
}

/// Whether `path` leads from `value` at `index` to `root`.
pub open spec fn opens(root: [u8; 32], index: nat, value: M31, path: Seq<[u8; 32]>) -> bool {
    path_root(leaf_digest(value), index, level_view(path)) == root@
}

/// Whether `path` leads from the row `row` at `index` to `root`.
pub open spec fn opens_row(root: [u8; 32], index: nat, row: Seq<M31>, path: Seq<[u8; 32]>) -> bool {
    path_root(row_digest(row), index, level_view(path)) == root@
}

/// The composition value at a point with clock `cur`, clock `next` one trace row later,
/// and `boundary` on the first trace row's stretch: the boundary term `cur` there, plus
/// `alpha` times the transition `next - cur - 1`.
pub open spec fn composition_from(cur: int, next: int, boundary: bool, alpha: int) -> int {
    modp((if boundary {
        cur
    } else {
        0
    }) + modp(alpha * modp(next - cur - 1)))
}

/// The domain position one trace row after `i`, wrapping round.
pub open spec fn next_position(cfg: VerifierConfig, i: int) -> int {
    (i + cfg.blowup_factor) % (cfg.spec_lde_domain_size() as int)
}

/// The trace row whose clock identities the query at `i` checks.
pub open spec fn checked_row(cfg: VerifierConfig, i: int) -> int {
    i % (pow2(cfg.log_trace_len as nat) as int)
}

/// The domain position of trace row `t`.
pub open spec fn row_position(cfg: VerifierConfig, t: int) -> int {
    (t % (pow2(cfg.log_trace_len as nat) as int)) * cfg.blowup_factor
}

/// Whether an opened row fails to open: wrong position, no value, or a path that does not
/// lead to `root`.
pub open spec fn bad_opening(root: [u8; 32], index: int, values: Seq<M31>, proof: MerkleProof) -> bool {
    !(proof.leaf_index == index && values.len() > 0 && opens_row(
        root,
        index as nat,
        values,
        proof.path@,
    ))
}

/// The first failed check, if any, of the extra openings of a query and of the
/// constraints over them: the composition value recomputed from the opened row and the
/// next one with the drawn `alpha`, and the clock identities on the checked trace row.
pub open spec fn constraint_error(cfg: VerifierConfig, q: QueryProof, p: StarkProof) -> Option<
    VerifyError,
> {
    let n = pow2(cfg.log_trace_len as nat) as int;
    let ni = next_position(cfg, q.index as int);
    let t = checked_row(cfg, q.index as int);
    let r0 = row_position(cfg, t);
    let r1 = row_position(cfg, t + 1);
    let alpha = challenges(after_trace(p), 4)[0] as int;
    if bad_opening(p.trace_commitment, ni, q.next_trace_values@, q.next_trace_proof) {
        Some(VerifyError::MerkleError { index: ni as usize })
    } else if bad_opening(p.trace_commitment, r0, q.row_values@, q.row_proof) {
        Some(VerifyError::MerkleError { index: r0 as usize })
    } else if bad_opening(p.trace_commitment, r1, q.next_row_values@, q.next_row_proof) {
        Some(VerifyError::MerkleError { index: r1 as usize })
    } else if q.composition_value@ != composition_from(
        q.trace_values@[0]@,
        q.next_trace_values@[0]@,
        q.index < cfg.blowup_factor,
        alpha,
    ) {
        Some(VerifyError::ConstraintError { constraint: ConstraintFailure::CompositionMismatch })
    } else if t == 0 && q.row_values@[0]@ != 0 {
        Some(VerifyError::ConstraintError { constraint: ConstraintFailure::Boundary })
    } else if t + 1 < n && modp(q.next_row_values@[0]@ - q.row_values@[0]@ - 1) != 0 {
        Some(VerifyError::ConstraintError { constraint: ConstraintFailure::Transition })
    } else {
        None
    }
}

/// The first failed check of one trace query, if any.
pub open spec fn query_error(cfg: VerifierConfig, q: QueryProof, expected: int, p: StarkProof) -> Option<
    VerifyError,
> {
    if q.index != expected {
        Some(VerifyError::QueryIndexMismatch { expected: expected as usize, got: q.index })
    } else if q.trace_values@.len() > 0 && !(q.trace_proof.leaf_index == q.index && opens_row(
        p.trace_commitment,
        q.index as nat,
        q.trace_values@,
        q.trace_proof.path@,
    )) {
        Some(VerifyError::MerkleError { index: q.index })
    } else if !(q.composition_proof.leaf_index == q.index && opens(
        p.composition_commitment,
        q.index as nat,
        q.composition_value,
        q.composition_proof.path@,
    )) {
        Some(VerifyError::MerkleError { index: q.index })
    } else if q.trace_values@.len() == 0 {
        Some(VerifyError::ConstraintError { constraint: ConstraintFailure::EmptyTraceValues })
    } else {
        constraint_error(cfg, q, p)
    }
}

/// The first failed trace query from rank `i` on.
pub open spec fn first_query_error(cfg: VerifierConfig, p: StarkProof, i: nat) -> Option<
    VerifyError,
>
    decreases p.query_proofs@.len() - i,
{
    if i >= p.query_proofs@.len() {
        None
    } else {
        match query_error(cfg, p.query_proofs@[i as int], expected_index(cfg, p, i as int), p) {
            Some(e) => Some(e),
            None => first_query_error(cfg, p, i + 1),
        }
    }
}

/// `even + beta * odd`.
pub open spec fn fold_value(even: int, odd: int, beta: int) -> int {
    modp(even + modp(beta * odd))
}

/// Walks query `qi` from layer `l` on, with value `v` at position `c`: checks each
/// sibling's path and folds; gives the value reached past the last layer.
pub open spec fn fri_walk(p: StarkProof, fq: FriQueryProof, qi: nat, l: nat, c: nat, v: int) -> Result<
    int,
    VerifyError,
>
    decreases p.fri_proof.layer_commitments@.len() - l,
{
    if l >= p.fri_proof.layer_commitments@.len() {
        Ok(v)
    } else {
        let lp = fq.layer_proofs@[l as int];
        if !opens(
            p.fri_proof.layer_commitments@[l as int],
            sibling(c),
            lp.sibling_value,
            lp.merkle_proof@,
        ) {
            Err(
                VerifyError::FriError {
                    layer: l as usize,
                    reason: FriFailure::MerkleMismatch { query: qi as usize },
                },
            )
        } else {
            let next = if c % 2 == 0 {
                fold_value(v, lp.sibling_value@, fri_beta(p, l) as int)
            } else {
                fold_value(lp.sibling_value@, v, fri_beta(p, l) as int)
            };
            fri_walk(p, fq, qi, l + 1, c / 2, next)
        }
    }
}

/// The first failed check of FRI query `qi`, if any.
pub open spec fn fri_query_error(p: StarkProof, qi: nat) -> Option<VerifyError> {
    let fq = p.fri_proof.query_proofs@[qi as int];
    let num_layers = p.fri_proof.layer_commitments@.len();
    let start = p.query_proofs@[qi as int];
    if fq.layer_proofs@.len() != num_layers {
        Some(
            VerifyError::FriError {
                layer: 0,
                reason: FriFailure::LayerCountMismatch {
                    expected: num_layers as usize,
                    got: fq.layer_proofs@.len() as usize,
                },
            },
        )
    } else if fq.index != start.index {
        Some(
            VerifyError::FriError {
                layer: 0,
                reason: FriFailure::IndexMismatch { expected: start.index, got: fq.index },
            },
        )
    } else {
        match fri_walk(p, fq, qi, 0, fq.index as nat, start.composition_value@) {
            Err(e) => Some(e),
            Ok(v) => {
                let c = level_index(fq.index as nat, num_layers);
                if c < p.fri_proof.final_poly@.len() && p.fri_proof.final_poly@[c as int]@ == v {
                    None
                } else {
                    Some(
                        VerifyError::FriError {
                            layer: num_layers as usize,
                            reason: FriFailure::FinalValueMismatch { query: qi as usize },
                        },
                    )
                }
            },
        }
    }
}

/// The first failed FRI query from rank `i` on.
pub open spec fn first_fri_error(p: StarkProof, i: nat) -> Option<VerifyError>
    decreases p.fri_proof.query_proofs@.len() - i,
{
    if i >= p.fri_proof.query_proofs@.len() {
        None
    } else {
        match fri_query_error(p, i) {
            Some(e) => Some(e),
            None => first_fri_error(p, i + 1),
        }
    }
}

/// The verdict on `p`: the first failed check in the order trace queries, FRI queries,
/// degree bound, or acceptance.
pub open spec fn verify_result(cfg: VerifierConfig, p: StarkProof) -> Result<(), VerifyError> {
    let n = cfg.num_queries;
    if p.query_proofs@.len() != n {
        Err(
            VerifyError::InvalidProof {
                reason: ProofDefect::QueryCount { expected: n, got: p.query_proofs@.len() as usize },
            },
        )
    } else if first_query_error(cfg, p, 0) is Some {
        Err(first_query_error(cfg, p, 0)->0)
    } else if p.fri_proof.query_proofs@.len() != n {
        Err(
            VerifyError::InvalidProof {
                reason: ProofDefect::FriQueryCount {
                    expected: n,
                    got: p.fri_proof.query_proofs@.len() as usize,
                },
            },
        )
    } else if first_fri_error(p, 0) is Some {
        Err(first_fri_error(p, 0)->0)
    } else if p.fri_proof.final_poly@.len() > cfg.fri_final_degree {
        Err(
            VerifyError::DegreeBoundError {
                got: p.fri_proof.final_poly@.len() as usize,
                max: cfg.fri_final_degree,
            },
        )
    } else {
        Ok(())
    }
}

proof fn lemma_first_query_error_same(a: VerifierConfig, b: VerifierConfig, p: StarkProof, i: nat)
    requires
        a.num_queries == b.num_queries,
        a.log_trace_len == b.log_trace_len,
        a.blowup_factor == b.blowup_factor,
    ensures
        first_query_error(a, p, i) == first_query_error(b, p, i),
    decreases p.query_proofs@.len() - i,
{
    if i < p.query_proofs@.len() {
        assert(expected_index(a, p, i as int) == expected_index(b, p, i as int));
        lemma_first_query_error_same(a, b, p, i + 1);
    }
}

/// Acceptance depends on neither the folding factor nor the exact bound on the last FRI
/// layer: a proof accepted under one configuration is accepted under any other with the
/// same trace length, blowup and number of queries and a bound at least as loose.
pub proof fn lemma_accepted_under_looser_bound(a: VerifierConfig, b: VerifierConfig, p: StarkProof)
    requires
        verify_result(a, p) is Ok,
        b.log_trace_len == a.log_trace_len,
        b.blowup_factor == a.blowup_factor,
        b.num_queries == a.num_queries,
        b.fri_final_degree >= a.fri_final_degree,
    ensures
        verify_result(b, p) is Ok,
{
    lemma_first_query_error_same(a, b, p, 0);
}

impl Verifier {
    pub fn new(config: VerifierConfig) -> (r: Verifier)
        ensures
            r.config == config,
    {
        Verifier { config }
    }

    /// A verifier with blowup `2^blowup_log` and the other settings at their defaults.
    pub fn new_legacy(log_trace_len: usize, blowup_log: usize, num_queries: usize) -> (r: Verifier)
        requires
            pow2(blowup_log as nat) <= usize::MAX,
        ensures
            r.config == (VerifierConfig {
                log_trace_len,
                blowup_factor: pow2(blowup_log as nat) as usize,
                num_queries,
                fri_folding_factor: 4,
                fri_final_degree: 8,
            }),
    {
        Verifier {
            config: VerifierConfig {
                log_trace_len,
                blowup_factor: pow2_usize(blowup_log),
                num_queries,
                ..Default::default()
            },
        }
    }

    /// The first failed check of trace query `i`, or none.
    fn check_query(&self, proof: &StarkProof, q: &QueryProof, expected: usize, alpha: M31) -> (r:
        Option<VerifyError>)
        requires
            self.config.fits(),
            self.config.blowup_factor > 0,
            expected < self.config.spec_lde_domain_size(),
            alpha@ == challenges(after_trace(*proof), 4)[0],
        ensures
            r == query_error(self.config, *q, expected as int, *proof),
    {
        if q.index != expected {
            return Some(VerifyError::QueryIndexMismatch { expected, got: q.index });
        }
        if q.trace_values.len() > 0 {
            if !(q.trace_proof.leaf_index == q.index && verify_row_path(
                &proof.trace_commitment,
                q.index,
                q.trace_values.as_slice(),
                q.trace_proof.path.as_slice(),
            )) {
                return Some(VerifyError::MerkleError { index: q.index });
            }
        }
        if !(q.composition_proof.leaf_index == q.index && verify_path(
            &proof.composition_commitment,
            q.index,
            q.composition_value,
            q.composition_proof.path.as_slice(),
        )) {
            return Some(VerifyError::MerkleError { index: q.index });
        }
        if q.trace_values.len() == 0 {
            return Some(
                VerifyError::ConstraintError { constraint: ConstraintFailure::EmptyTraceValues },
            );
        }
        self.check_constraints(proof, q, alpha)
    }

    /// The extra openings of query `q` and the constraints over them.
    fn check_constraints(&self, proof: &StarkProof, q: &QueryProof, alpha: M31) -> (r: Option<
        VerifyError,
    >)
        requires
            self.config.fits(),
            self.config.blowup_factor > 0,
            q.index < self.config.spec_lde_domain_size(),
            q.trace_values@.len() > 0,
            alpha@ == challenges(after_trace(*proof), 4)[0],
        ensures
            r == constraint_error(self.config, *q, *proof),
    {
        let cfg = &self.config;
        let n = pow2_usize(cfg.log_trace_len);
        let b = cfg.blowup_factor;
        let idx = q.index;
        let (ni, r0, r1) = query_positions(cfg, idx);
        proof {
            lemma_pow2_pos(cfg.log_trace_len as nat);
        }
        let t = idx % n;
        if !(q.next_trace_proof.leaf_index == ni && q.next_trace_values.len() > 0
            && verify_row_path(
            &proof.trace_commitment,
            ni,
            q.next_trace_values.as_slice(),
            q.next_trace_proof.path.as_slice(),
        )) {
            return Some(VerifyError::MerkleError { index: ni });
        }
        if !(q.row_proof.leaf_index == r0 && q.row_values.len() > 0 && verify_row_path(
            &proof.trace_commitment,
            r0,
            q.row_values.as_slice(),
            q.row_proof.path.as_slice(),
        )) {
            return Some(VerifyError::MerkleError { index: r0 });
        }
        if !(q.next_row_proof.leaf_index == r1 && q.next_row_values.len() > 0 && verify_row_path(
            &proof.trace_commitment,
            r1,
            q.next_row_values.as_slice(),
            q.next_row_proof.path.as_slice(),
        )) {
            return Some(VerifyError::MerkleError { index: r1 });
        }
        let cur = q.trace_values[0];
        let next = q.next_trace_values[0];
        let boundary = if idx < b {
            cur
        } else {
            M31::zero()
        };
        let recomputed = boundary.add(alpha.mul(next.sub(cur).sub(M31::one())));
        proof {
            lemma_modp_ops(next@ - cur@, 1);
            lemma_modp_ops(alpha@, next@ - cur@ - 1);
        }
        if recomputed.value() != q.composition_value.value() {
            return Some(
                VerifyError::ConstraintError { constraint: ConstraintFailure::CompositionMismatch },
            );
        }
        let row = q.row_values[0];
        if t == 0 && row.value() != 0 {
            return Some(VerifyError::ConstraintError { constraint: ConstraintFailure::Boundary });
        }
        let step = q.next_row_values[0].sub(row).sub(M31::one());
        proof {
            lemma_modp_ops(q.next_row_values@[0]@ - row@, 1);
        }
        if t + 1 < n && step.value() != 0 {
            return Some(VerifyError::ConstraintError { constraint: ConstraintFailure::Transition });
        }
        None
    }

    /// The first failed check of FRI query `qi`, or none.
    fn verify_fri_query(&self, proof: &StarkProof, betas: &Vec<M31>, qi: usize) -> (r: Option<
        VerifyError,
    >)
        requires
            qi < proof.fri_proof.query_proofs@.len(),
            qi < proof.query_proofs@.len(),
            betas@.len() == proof.fri_proof.layer_commitments@.len(),
            forall|l: int|
                0 <= l < betas@.len() ==> #[trigger] betas@[l]@ == fri_beta(*proof, l as nat),
        ensures
            r == fri_query_error(*proof, qi as nat),
    {
        let fri = &proof.fri_proof;
        let fq = &fri.query_proofs[qi];
        let num_layers = fri.layer_commitments.len();
        if fq.layer_proofs.len() != num_layers {
            return Some(
                VerifyError::FriError {
                    layer: 0,
                    reason: FriFailure::LayerCountMismatch {
                        expected: num_layers,
                        got: fq.layer_proofs.len(),
                    },
                },
            );
        }
        let start = &proof.query_proofs[qi];
        if fq.index != start.index {
            return Some(
                VerifyError::FriError {
                    layer: 0,
                    reason: FriFailure::IndexMismatch { expected: start.index, got: fq.index },
                },
            );
        }
        let ghost whole = fri_walk(*proof, *fq, qi as nat, 0, fq.index as nat, start.composition_value@);
        let mut value = start.composition_value;
        let mut current = fq.index;
        let mut l: usize = 0;
        while l < num_layers
            invariant
                qi < proof.fri_proof.query_proofs@.len(),
                qi < proof.query_proofs@.len(),
                fq.index == proof.query_proofs@[qi as int].index,
                whole == fri_walk(
                    *proof,
                    *fq,
                    qi as nat,
                    0,
                    fq.index as nat,
                    proof.query_proofs@[qi as int].composition_value@,
                ),
                *fri == proof.fri_proof,
                num_layers == proof.fri_proof.layer_commitments@.len(),
                fq.layer_proofs@.len() == num_layers,
                betas@.len() == num_layers,
                forall|t: int| 0 <= t < betas@.len() ==> #[trigger] betas@[t]@ == fri_beta(*proof, t as nat),
                *fq == proof.fri_proof.query_proofs@[qi as int],
                l <= num_layers,
                current == level_index(fq.index as nat, l as nat),
                whole == fri_walk(*proof, *fq, qi as nat, l as nat, current as nat, value@),
            decreases num_layers - l,
        {
            let lp = &fq.layer_proofs[l];
            let sib = if current % 2 == 0 {
                current + 1
            } else {
                current - 1
            };
            if !verify_path(
                &fri.layer_commitments[l],
                sib,
                lp.sibling_value,
                lp.merkle_proof.as_slice(),
            ) {
                return Some(
                    VerifyError::FriError {
                        layer: l,
                        reason: FriFailure::MerkleMismatch { query: qi },
                    },
                );
            }
            let beta = betas[l];
            value = if current % 2 == 0 {
                value.add(beta.mul(lp.sibling_value))
            } else {
                lp.sibling_value.add(beta.mul(value))
            };
            current = current / 2;
            l = l + 1;
        }
        if current < fri.final_poly.len() && fri.final_poly[current].value() == value.value() {
            None
        } else {
            Some(
                VerifyError::FriError {
                    layer: num_layers,
                    reason: FriFailure::FinalValueMismatch { query: qi },
                },
            )
        }
    }

    /// Verifies a proof: replays the transcript, then checks every trace query, every FRI
    /// query and the size of the last FRI layer, and reports the first failure.
    pub fn verify(&self, proof: &StarkProof) -> (r: Result<(), VerifyError>)
        requires
            self.config.fits(),
            self.config.blowup_factor > 0,
        ensures
            r == verify_result(self.config, *proof),
    {
        let mut channel = ProverChannel::new(DOMAIN_SEPARATOR.as_bytes());
        channel.absorb_commitment(&proof.trace_commitment);
        let ghost after_trace_root = channel.transcript();
        let constraint_alpha = channel.squeeze_extension_challenge();
        let alpha = constraint_alpha.c0;
        proof {
            assert(after_trace_root == after_trace(*proof));
        }
        channel.absorb_commitment(&proof.composition_commitment);
        let _oods_point = channel.squeeze_extension_challenge();
        let commits = &proof.fri_proof.layer_commitments;
        let ghost t3 = channel.transcript();
        proof {
            assert(t3 == before_fri(*proof));
        }
        let mut betas: Vec<M31> = Vec::new();
        let mut k: usize = 0;
        while k < commits.len()
            invariant
                *commits == proof.fri_proof.layer_commitments,
                t3 == before_fri(*proof),
                k <= commits@.len(),
                channel.transcript() == fri_prefix(t3, commits@, k as nat),
                betas@.len() == k,
                forall|l: int| 0 <= l < k ==> #[trigger] betas@[l]@ == fri_beta(*proof, l as nat),
            decreases commits@.len() - k,
        {
            channel.absorb_commitment(&commits[k]);
            let beta = channel.squeeze_challenge();
            betas.push(beta);
            k = k + 1;
        }
        let n = self.config.num_queries;
        let domain = self.config.lde_domain_size();
        proof {
            lemma_pow2_pos(self.config.log_trace_len as nat);
            vstd::arithmetic::mul::lemma_mul_strictly_positive(
                pow2(self.config.log_trace_len as nat) as int,
                self.config.blowup_factor as int,
            );
        }
        let indices = channel.squeeze_query_indices(n, domain);
        if proof.query_proofs.len() != n {
            return Err(
                VerifyError::InvalidProof {
                    reason: ProofDefect::QueryCount { expected: n, got: proof.query_proofs.len() },
                },
            );
        }
        let mut i: usize = 0;
        while i < n
            invariant
                n == self.config.num_queries,
                self.config.fits(),
                self.config.blowup_factor > 0,
                domain == self.config.spec_lde_domain_size(),
                domain > 0,
                alpha@ == challenges(after_trace(*proof), 4)[0],
                proof.query_proofs@.len() == n,
                indices@.len() == n,
                forall|j: int|
                    0 <= j < n ==> #[trigger] indices@[j] == expected_index(self.config, *proof, j),
                i <= n,
                first_query_error(self.config, *proof, 0) == first_query_error(
                    self.config,
                    *proof,
                    i as nat,
                ),
            decreases n - i,
        {
            match self.check_query(proof, &proof.query_proofs[i], indices[i], alpha) {
                Some(e) => {
                    return Err(e);
                },
                None => {},
            }
            i = i + 1;
        }
        if proof.fri_proof.query_proofs.len() != n {
            return Err(
                VerifyError::InvalidProof {
                    reason: ProofDefect::FriQueryCount {
                        expected: n,
                        got: proof.fri_proof.query_proofs.len(),
                    },
                },
            );
        }
        let mut qi: usize = 0;
        while qi < n
            invariant
                n == self.config.num_queries,
                proof.query_proofs@.len() == n,
                proof.fri_proof.query_proofs@.len() == n,
                betas@.len() == proof.fri_proof.layer_commitments@.len(),
                forall|l: int|
                    0 <= l < betas@.len() ==> #[trigger] betas@[l]@ == fri_beta(*proof, l as nat),
                qi <= n,
                first_query_error(self.config, *proof, 0) is None,
                first_fri_error(*proof, 0) == first_fri_error(*proof, qi as nat),
            decreases n - qi,
        {
            match self.verify_fri_query(proof, &betas, qi) {
                Some(e) => {
                    return Err(e);
                },
                None => {},
            }
            qi = qi + 1;
        }
        if proof.fri_proof.final_poly.len() > self.config.fri_final_degree {
            return Err(
                VerifyError::DegreeBoundError {
                    got: proof.fri_proof.final_poly.len(),
                    max: self.config.fri_final_degree,
                },
            );
        }
        Ok(())
    }
}

/// `even + alpha * odd`: one FRI fold of a pair of sibling values.
pub fn compute_fold(even: M31, odd: M31, alpha: M31) -> (r: M31)
    ensures
        r@ == fold_value(even@, odd@, alpha@),
{
    even.add(alpha.mul(odd))
}

/// `sum_i coeffs[i] * x^i`, by Horner's rule from the highest coefficient.
pub open spec fn poly_eval(coeffs: Seq<M31>, x: int) -> int
    decreases coeffs.len(),
{
    if coeffs.len() == 0 {
        0
    } else {
        modp(coeffs[0]@ + modp(x * poly_eval(coeffs.drop_first(), x)))
    }
}

/// Evaluates the polynomial with coefficients `coeffs` (constant first) at `x`.
pub fn evaluate_poly(coeffs: &[M31], x: M31) -> (r: M31)
    ensures
        r@ == poly_eval(coeffs@, x@),
{
    let n = coeffs.len();
    let mut result = M31::zero();
    let mut i: usize = n;
    proof {
        assert(coeffs@.subrange(n as int, n as int) =~= Seq::<M31>::empty());
    }
    while i > 0
        invariant
            i <= n,
            n == coeffs@.len(),
            result@ == poly_eval(coeffs@.subrange(i as int, n as int), x@),
        decreases i,
    {
        let ghost tail = coeffs@.subrange(i as int, n as int);
        i = i - 1;
        proof {
            assert(coeffs@.subrange(i as int, n as int).drop_first() =~= tail);
        }
        result = coeffs[i].add(x.mul(result));
    }
    proof {
        assert(coeffs@.subrange(0, n as int) =~= coeffs@);
    }
    result
}

} // verus!
