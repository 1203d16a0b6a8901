//! The STARK prover: extend, commit, compose, fold, open.
use crate::channel::{
    absorbed, challenges, initial_transcript, sponge_output, squeezes, ProverChannel,
};
use crate::extension::QM31;
use crate::field::{lemma_modp_ops, modp, M31};
use crate::lde::{
    column_extends, extended_row, extension_column, lemma_extension_unique, row_of, TraceLDE,
};
use crate::merkle::{
    MerkleProof,
    fold_root, is_power_of_two, leaf_digest, level_index, level_view, path_root, row_digest,
    sibling, MerkleTree,
};
use crate::stark::{
    FriLayerQueryProof, FriProof, FriQueryProof, QueryProof, StarkConfig, StarkProof,
    DOMAIN_SEPARATOR, FRI_FINAL_SIZE,
};
use crate::verify::{
    after_trace, before_fri, checked_row, composition_from, constraint_error, domain_separator,
    next_position, query_positions, row_position, expected_index, first_fri_error, first_query_error, fold_value, fri_beta,
    fri_prefix, fri_query_error, fri_walk, opens, query_error, query_transcript, verify_result,
    VerifierConfig, VerifyError,
};
use vstd::arithmetic::power2::*;
use vstd::prelude::*;

verus! {

/// The composition value at point `i` of a domain of `size` points: the boundary
/// `col[i]` on the first `b` points plus `alpha` times the transition
/// `col[i + b] - col[i] - 1` (indices mod `size`).
pub open spec fn composition_at(col: Seq<M31>, b: int, size: int, alpha: int, i: int) -> int {
    composition_from(col[i]@, col[(i + b) % size]@, i < b, alpha)
}

/// Whether the trace's first column satisfies the clock identities: it starts at zero and
/// each row adds one.
pub open spec fn clock_valid(col: Seq<M31>) -> bool {
    &&& col.len() > 0
    &&& modp(col[0]@) == 0
    &&& forall|j: int| 0 <= j < col.len() - 1 ==> #[trigger] clock_step(col, j)
}

/// Row `j + 1` of `col` is row `j` plus one.
pub open spec fn clock_step(col: Seq<M31>, j: int) -> bool {
    modp(col[j + 1]@ - col[j]@ - 1) == 0
}

/// What the prover's query at `idx` holds: the extended rows at `idx`, one trace row later,
/// at the checked trace row and at the row after it, each with its path to `troot`; and
/// the composition value at `idx` with its path to `croot`.
#[verifier::opaque]
pub open spec fn honest_query(
    cfg: VerifierConfig,
    q: QueryProof,
    idx: int,
    cols: Seq<Vec<M31>>,
    troot: Seq<u8>,
    comp: Seq<M31>,
    croot: Seq<u8>,
) -> bool {
    let ni = next_position(cfg, idx);
    let r0 = row_position(cfg, checked_row(cfg, idx));
    let r1 = row_position(cfg, checked_row(cfg, idx) + 1);
    &&& q.index == idx
    &&& q.trace_values@ == row_of(cols, idx)
    &&& q.trace_proof.leaf_index == idx
    &&& path_root(row_digest(q.trace_values@), idx as nat, q.trace_proof.path_view()) == troot
    &&& q.composition_value == comp[idx]
    &&& q.composition_proof.leaf_index == idx
    &&& path_root(leaf_digest(q.composition_value), idx as nat, q.composition_proof.path_view())
        == croot
    &&& q.next_trace_values@ == row_of(cols, ni)
    &&& q.next_trace_proof.leaf_index == ni
    &&& path_root(row_digest(q.next_trace_values@), ni as nat, q.next_trace_proof.path_view())
        == troot
    &&& q.row_values@ == row_of(cols, r0)
    &&& q.row_proof.leaf_index == r0
    &&& path_root(row_digest(q.row_values@), r0 as nat, q.row_proof.path_view()) == troot
    &&& q.next_row_values@ == row_of(cols, r1)
    &&& q.next_row_proof.leaf_index == r1
    &&& path_root(row_digest(q.next_row_values@), r1 as nat, q.next_row_proof.path_view())
        == troot
}

/// The leaf digests of the trace tree: one per row of the extension of `trace`.
pub open spec fn trace_leaves(trace: Seq<Vec<M31>>, b: int, size: nat) -> Seq<Seq<u8>> {
    Seq::new(size, |i: int| row_digest(extended_row(trace, b, i)))
}

/// The leaf digests of the composition tree, from the extension of the first column.
pub open spec fn composition_leaves(trace: Seq<Vec<M31>>, b: int, size: nat, alpha: int) -> Seq<
    Seq<u8>,
> {
    Seq::new(
        size,
        |i: int|
            leaf_digest(
                M31::spec_new(
                    composition_at(extension_column(trace[0]@, b), b, size as int, alpha, i),
                ),
            ),
    )
}

/// Number of FRI layers committed for a domain of `n` points: one per halving down to
/// `FRI_FINAL_SIZE`.
pub open spec fn fri_layer_count(n: nat) -> nat
    decreases n,
{
    if n <= FRI_FINAL_SIZE {
        0
    } else {
        1 + fri_layer_count(n / 2)
    }
}

/// Whether `next` is `cur` folded with `beta`: `next[j] = cur[2j] + beta * cur[2j + 1]`.
pub open spec fn is_fold(cur: Seq<M31>, next: Seq<M31>, beta: int) -> bool {
    &&& cur.len() == 2 * next.len()
    &&& forall|j: int|
        0 <= j < next.len() ==> #[trigger] next[j]@ == fold_value(cur[2 * j]@, cur[2 * j + 1]@, beta)
}

/// Folds a layer of even length with challenge `beta`.
pub fn fold_layer(cur: &Vec<M31>, beta: M31) -> (r: Vec<M31>)
    requires
        cur@.len() % 2 == 0,
    ensures
        is_fold(cur@, r@, beta@),
{
    let len = cur.len();
    let half = len / 2;
    let mut next: Vec<M31> = Vec::with_capacity(half);
    let mut j: usize = 0;
    while j < half
        invariant
            len == cur@.len(),
            half == cur@.len() / 2,
            cur@.len() % 2 == 0,
            j <= half,
            next@.len() == j,
            forall|t: int|
                0 <= t < j ==> #[trigger] next@[t]@ == fold_value(
                    cur@[2 * t]@,
                    cur@[2 * t + 1]@,
                    beta@,
                ),
        decreases half - j,
    {
        next.push(cur[2 * j].add(beta.mul(cur[2 * j + 1])));
        j = j + 1;
    }
    next
}

/// Layer `l + 1` has half as many values as layer `l`, which has an even number.
pub open spec fn halves(layers: Seq<Vec<M31>>, l: int) -> bool {
    &&& layers[l]@.len() == 2 * layers[l + 1]@.len()
}

/// Layer `l` is folded with challenge `betas[l]` into layer `l + 1`.
pub open spec fn folds_to(layers: Seq<Vec<M31>>, betas: Seq<M31>, l: int) -> bool {
    is_fold(layers[l]@, layers[l + 1]@, betas[l]@)
}

/// The opening of layer `l` is the sibling, in that layer, of the ancestor of `idx`,
/// with a path to that layer's root.
pub open spec fn opens_layer(
    lps: Seq<FriLayerQueryProof>,
    layers: Seq<Vec<M31>>,
    trees: Seq<MerkleTree>,
    idx: nat,
    l: int,
) -> bool {
    let c = level_index(idx, l as nat);
    &&& lps[l].sibling_value == layers[l]@[sibling(c) as int]
    &&& path_root(leaf_digest(lps[l].sibling_value), sibling(c), level_view(lps[l].merkle_proof@))
        == trees[l].spec_root()
}

/// Everything that query `fq` needs at layer `t` to pass: the fold into layer `t + 1`,
/// and the opening of the sibling.
pub open spec fn fri_step_ok(
    p: StarkProof,
    fq: FriQueryProof,
    full: Seq<Seq<M31>>,
    idx: nat,
    t: int,
) -> bool {
    let c = level_index(idx, t as nat);
    &&& is_fold(full[t], full[t + 1], fri_beta(p, t as nat) as int)
    &&& fq.layer_proofs@[t].sibling_value == full[t][sibling(c) as int]
    &&& opens(
        p.fri_proof.layer_commitments@[t],
        sibling(c),
        fq.layer_proofs@[t].sibling_value,
        fq.layer_proofs@[t].merkle_proof@,
    )
}

/// A FRI query whose every layer folds and opens correctly walks from the value at its
/// position to the value at its ancestor in the last layer.
proof fn lemma_fri_walk(p: StarkProof, fq: FriQueryProof, qi: nat, idx: nat, l: nat, full: Seq<Seq<M31>>)
    requires
        full.len() == p.fri_proof.layer_commitments@.len() + 1,
        l < full.len(),
        fq.layer_proofs@.len() == p.fri_proof.layer_commitments@.len(),
        level_index(idx, l) < full[l as int].len(),
        forall|t: int| l <= t < full.len() - 1 ==> #[trigger] fri_step_ok(p, fq, full, idx, t),
    ensures
        level_index(idx, (full.len() - 1) as nat) < full[full.len() - 1].len(),
        fri_walk(p, fq, qi, l, level_index(idx, l), full[l as int][level_index(idx, l) as int]@)
            == Ok::<int, VerifyError>(
            full[full.len() - 1][level_index(idx, (full.len() - 1) as nat) as int]@,
        ),
    decreases full.len() - l,
{
    let last = full.len() - 1;
    if l < last {
        let c = level_index(idx, l);
        assert(fri_step_ok(p, fq, full, idx, l as int));
        let beta = fri_beta(p, l) as int;
        let cur = full[l as int];
        let nxt = full[l + 1 as int];
        assert(c / 2 < nxt.len());
        assert(nxt[(c / 2) as int]@ == fold_value(cur[2 * (c / 2) as int]@, cur[2 * (c / 2) as int + 1]@, beta));
        if c % 2 == 0 {
            assert(2 * (c / 2) == c);
        } else {
            assert(2 * (c / 2) + 1 == c);
        }
        assert(level_index(idx, l + 1) == c / 2);
        lemma_fri_walk(p, fq, qi, idx, l + 1, full);
    }
}

/// The extension at the point of trace row `t` is that row's value.
proof fn lemma_extension_at_row(ext: Seq<M31>, col: Seq<M31>, b: int, t: int)
    requires
        column_extends(ext, col, b),
        b > 0,
        0 <= t < col.len(),
    ensures
        t * b < ext.len(),
        ext[t * b]@ == modp(col[t]@),
{
    vstd::arithmetic::div_mod::lemma_mod_multiples_basic(t, b);
    vstd::arithmetic::div_mod::lemma_div_multiples_vanish(t, b);
    assert(b * t == t * b) by (nonlinear_arith);
    assert(t * b < col.len() * b) by (nonlinear_arith)
        requires
            t < col.len(),
            b > 0,
    ;
}

/// The clock identities hold on the rows that a query at `idx` checks, when the trace's
/// clock is valid.
proof fn lemma_checked_rows_valid(
    cfg: VerifierConfig,
    idx: int,
    col: Seq<M31>,
    tr0: Seq<M31>,
    row: M31,
    next_row: M31,
)
    requires
        cfg.blowup_factor > 0,
        tr0.len() == pow2(cfg.log_trace_len as nat),
        column_extends(col, tr0, cfg.blowup_factor as int),
        0 <= idx,
        clock_valid(tr0),
        row == col[row_position(cfg, checked_row(cfg, idx))],
        next_row == col[row_position(cfg, checked_row(cfg, idx) + 1)],
    ensures
        checked_row(cfg, idx) == 0 ==> row@ == 0,
        checked_row(cfg, idx) + 1 < pow2(cfg.log_trace_len as nat) ==> modp(
            next_row@ - row@ - 1,
        ) == 0,
{
    let b = cfg.blowup_factor as int;
    let n = pow2(cfg.log_trace_len as nat) as int;
    lemma_pow2_pos(cfg.log_trace_len as nat);
    let t = checked_row(cfg, idx);
    vstd::arithmetic::div_mod::lemma_small_mod(t as nat, n as nat);
    assert(row_position(cfg, t) == t * b);
    lemma_extension_at_row(col, tr0, b, t);
    assert(row@ == modp(tr0[t]@));
    if t + 1 < n {
        vstd::arithmetic::div_mod::lemma_small_mod((t + 1) as nat, n as nat);
        assert(row_position(cfg, t + 1) == (t + 1) * b);
        lemma_extension_at_row(col, tr0, b, t + 1);
        let a = tr0[t + 1]@;
        let c = tr0[t]@;
        assert(next_row@ == modp(a));
        assert(clock_step(tr0, t));
        lemma_modp_ops(a, modp(c) + 1);
        lemma_modp_ops(a - 1, c);
        assert(modp(a) - modp(c) - 1 == modp(a) - (modp(c) + 1));
        assert(a - (modp(c) + 1) == (a - 1) - modp(c));
    }
}

/// A query the prover opened honestly, on a trace whose clock is valid, passes every
/// check of the verifier.
proof fn lemma_honest_query_passes(
    cfg: VerifierConfig,
    p: StarkProof,
    q: QueryProof,
    idx: int,
    cols: Seq<Vec<M31>>,
    tr0: Seq<M31>,
    comp: Seq<M31>,
)
    requires
        honest_query(
            cfg,
            q,
            idx,
            cols,
            p.trace_commitment@,
            comp,
            p.composition_commitment@,
        ),
        cfg.fits(),
        cfg.blowup_factor > 0,
        0 <= idx < cfg.spec_lde_domain_size(),
        cols.len() > 0,
        column_extends(cols[0]@, tr0, cfg.blowup_factor as int),
        tr0.len() == pow2(cfg.log_trace_len as nat),
        comp[idx]@ == composition_at(
            cols[0]@,
            cfg.blowup_factor as int,
            cfg.spec_lde_domain_size() as int,
            challenges(after_trace(p), 4)[0] as int,
            idx,
        ),
        clock_valid(tr0),
    ensures
        query_error(cfg, q, idx, p) is None,
{
    reveal(honest_query);
    let col = cols[0]@;
    let ni = next_position(cfg, idx);
    let t = checked_row(cfg, idx);
    let r0 = row_position(cfg, t);
    let r1 = row_position(cfg, t + 1);
    assert(q.trace_values@[0] == col[idx]);
    assert(q.next_trace_values@[0] == col[ni]);
    assert(q.row_values@[0] == col[r0]);
    assert(q.next_row_values@[0] == col[r1]);
    lemma_checked_rows_valid(cfg, idx, col, tr0, q.row_values@[0], q.next_row_values@[0]);
}

/// Every query of an honest proof of a trace with a valid clock passes.
proof fn lemma_all_queries_pass(
    cfg: VerifierConfig,
    p: StarkProof,
    indices: Seq<usize>,
    cols: Seq<Vec<M31>>,
    tr0: Seq<M31>,
    comp: Seq<M31>,
)
    requires
        cfg.fits(),
        cfg.blowup_factor > 0,
        p.query_proofs@.len() == indices.len(),
        forall|j: int|
            0 <= j < indices.len() ==> #[trigger] indices[j] as int == expected_index(cfg, p, j),
        forall|j: int| 0 <= j < indices.len() ==> #[trigger] indices[j] < cfg.spec_lde_domain_size(),
        forall|j: int|
            0 <= j < p.query_proofs@.len() ==> #[trigger] honest_query(
                cfg,
                p.query_proofs@[j],
                indices[j] as int,
                cols,
                p.trace_commitment@,
                comp,
                p.composition_commitment@,
            ),
        cols.len() > 0,
        column_extends(cols[0]@, tr0, cfg.blowup_factor as int),
        tr0.len() == pow2(cfg.log_trace_len as nat),
        comp.len() == cfg.spec_lde_domain_size(),
        forall|i: int|
            0 <= i < comp.len() ==> #[trigger] comp[i]@ == composition_at(
                cols[0]@,
                cfg.blowup_factor as int,
                cfg.spec_lde_domain_size() as int,
                challenges(after_trace(p), 4)[0] as int,
                i,
            ),
        clock_valid(tr0),
    ensures
        forall|j: int|
            0 <= j < p.query_proofs@.len() ==> #[trigger] query_error(
                cfg,
                p.query_proofs@[j],
                expected_index(cfg, p, j),
                p,
            ) is None,
{
    assert forall|j: int| 0 <= j < p.query_proofs@.len() implies #[trigger] query_error(
        cfg,
        p.query_proofs@[j],
        expected_index(cfg, p, j),
        p,
    ) is None by {
        let idx = indices[j] as int;
        assert(honest_query(
            cfg,
            p.query_proofs@[j],
            idx,
            cols,
            p.trace_commitment@,
            comp,
            p.composition_commitment@,
        ));
        assert(comp[idx]@ == composition_at(
            cols[0]@,
            cfg.blowup_factor as int,
            cfg.spec_lde_domain_size() as int,
            challenges(after_trace(p), 4)[0] as int,
            idx,
        ));
        lemma_honest_query_passes(cfg, p, p.query_proofs@[j], idx, cols, tr0, comp);
    }
}

proof fn lemma_first_query_none(cfg: VerifierConfig, p: StarkProof, i: nat)
    requires
        forall|j: int|
            i <= j < p.query_proofs@.len() ==> #[trigger] query_error(
                cfg,
                p.query_proofs@[j],
                expected_index(cfg, p, j),
                p,
            ) is None,
    ensures
        first_query_error(cfg, p, i) is None,
    decreases p.query_proofs@.len() - i,
{
    if i < p.query_proofs@.len() {
        assert(query_error(cfg, p.query_proofs@[i as int], expected_index(cfg, p, i as int), p)
            is None);
        lemma_first_query_none(cfg, p, i + 1);
    }
}

proof fn lemma_first_fri_none(p: StarkProof, i: nat)
    requires
        forall|j: nat| i <= j < p.fri_proof.query_proofs@.len() ==> #[trigger] fri_query_error(p, j) is None,
    ensures
        first_fri_error(p, i) is None,
    decreases p.fri_proof.query_proofs@.len() - i,
{
    if i < p.fri_proof.query_proofs@.len() {
        assert(fri_query_error(p, i) is None);
        lemma_first_fri_none(p, i + 1);
    }
}

/// A copy of `v`.
fn copy_values(v: &Vec<M31>) -> (r: Vec<M31>)
    ensures
        r@ == v@,
{
    let mut out: Vec<M31> = Vec::with_capacity(v.len());
    let mut i: usize = 0;
    while i < v.len()
        invariant
            i <= v@.len(),
            out@ == v@.subrange(0, i as int),
        decreases v@.len() - i,
    {
        out.push(v[i]);
        i = i + 1;
        proof {
            assert(out@ =~= v@.subrange(0, i as int));
        }
    }
    proof {
        assert(out@ =~= v@);
    }
    out
}

proof fn lemma_power_of_two_double(x: nat)
    requires
        x >= 1,
    ensures
        is_power_of_two(2 * x) == is_power_of_two(x),
{
}

proof fn lemma_power_of_two_product(k: nat, b: nat)
    requires
        is_power_of_two(b),
    ensures
        is_power_of_two(pow2(k) * b),
    decreases k,
{
    if k == 0 {
        lemma2_to64();
    } else {
        lemma_power_of_two_product((k - 1) as nat, b);
        lemma_pow2_unfold(k);
        lemma_pow2_pos((k - 1) as nat);
        assert(pow2(k) * b == 2 * (pow2((k - 1) as nat) * b)) by (nonlinear_arith)
            requires
                pow2(k) == 2 * pow2((k - 1) as nat),
        ;
        assert(b >= 1) by {
            reveal_with_fuel(is_power_of_two, 1);
        }
        assert(pow2((k - 1) as nat) * b >= 1) by (nonlinear_arith)
            requires
                pow2((k - 1) as nat) > 0,
                b >= 1,
        ;
        lemma_power_of_two_double(pow2((k - 1) as nat) * b);
    }
}

/// The prover's layers' transcript prefix does not look past the roots it absorbed.
proof fn lemma_fri_prefix_push(t: Seq<Option<u32>>, c: Seq<[u8; 32]>, x: [u8; 32], l: nat)
    requires
        l <= c.len(),
    ensures
        fri_prefix(t, c.push(x), l) == fri_prefix(t, c, l),
    decreases l,
{
    if l > 0 {
        lemma_fri_prefix_push(t, c, x, (l - 1) as nat);
        assert(c.push(x)[l - 1] == c[l - 1]);
    }
}

/// The STARK prover.
pub struct StarkProver {
    pub config: StarkConfig,
}

impl StarkProver {
    pub fn new(config: StarkConfig) -> (r: StarkProver)
        ensures
            r.config == config,
    {
        StarkProver { config }
    }

    /// The verifier configuration that matches this prover's.
    pub open spec fn verifier_config(&self) -> VerifierConfig {
        VerifierConfig {
            log_trace_len: self.config.log_trace_len,
            blowup_factor: self.config.blowup_factor,
            num_queries: self.config.num_queries,
            fri_folding_factor: self.config.fri_folding_factor,
            fri_final_degree: FRI_FINAL_SIZE,
        }
    }

    /// What `prove` asks of its input: a nonempty set of columns of the configured
    /// length, a power-of-two blowup, and a domain of at most 2^30 points.
    pub open spec fn provable(&self, trace: Seq<Vec<M31>>) -> bool {
        &&& trace.len() > 0
        &&& forall|c: int| 0 <= c < trace.len() ==> #[trigger] trace[c]@.len() == self.config.spec_trace_len()
        &&& is_power_of_two(self.config.blowup_factor as nat)
        &&& self.config.spec_lde_domain_size() <= 0x4000_0000
    }

    /// The composition values over the whole domain, from the first extended column.
    fn evaluate_composition_polynomial(&self, trace_lde: &TraceLDE, random: QM31) -> (r: Vec<M31>)
        requires
            trace_lde.columns@.len() > 0,
            trace_lde.columns@[0]@.len() == trace_lde.size,
            trace_lde.size > 0,
            trace_lde.size <= 0x4000_0000,
            trace_lde.blowup <= trace_lde.size,
            trace_lde.blowup == self.config.blowup_factor,
        ensures
            r@.len() == trace_lde.size,
            forall|i: int|
                0 <= i < r@.len() ==> #[trigger] r@[i]@ == composition_at(
                    trace_lde.columns@[0]@,
                    trace_lde.blowup as int,
                    trace_lde.size as int,
                    random.c0@,
                    i,
                ),
    {
        let domain_size = trace_lde.domain_size();
        let blowup = self.config.blowup_factor;
        let alpha = random.c0;
        let col = &trace_lde.columns[0];
        let mut composition: Vec<M31> = Vec::with_capacity(domain_size);
        let mut i: usize = 0;
        while i < domain_size
            invariant
                domain_size == trace_lde.size,
                domain_size > 0,
                domain_size <= 0x4000_0000,
                blowup <= domain_size,
                blowup == trace_lde.blowup,
                *col == trace_lde.columns@[0],
                col@.len() == domain_size,
                alpha == random.c0,
                i <= domain_size,
                composition@.len() == i,
                forall|t: int|
                    0 <= t < i ==> #[trigger] composition@[t]@ == composition_at(
                        col@,
                        blowup as int,
                        domain_size as int,
                        alpha@,
                        t,
                    ),
            decreases domain_size - i,
        {
            let cur = col[i];
            let next = col[(i + blowup) % domain_size];
            let boundary = if i < blowup {
                cur
            } else {
                M31::zero()
            };
            let transition = next.sub(cur).sub(M31::one());
            proof {
                lemma_modp_ops(next@ - cur@, 1);
                lemma_modp_ops(alpha@, next@ - cur@ - 1);
            }
            composition.push(boundary.add(alpha.mul(transition)));
            i = i + 1;
        }
        composition
    }

    /// Proves the clock trace `trace_columns`: extends and commits the columns, draws
    /// the constraint challenge, commits the composition, folds it with FRI, and opens
    /// every queried position with the rows its checks read. The verifier accepts the
    /// proof when the first column satisfies the clock identities; otherwise the queries
    /// that reach a broken identity make it reject.
    pub fn prove(&mut self, trace_columns: Vec<Vec<M31>>) -> (r: StarkProof)
        requires
            old(self).provable(trace_columns@),
        ensures
            *final(self) == *old(self),
            r.query_proofs@.len() == old(self).config.num_queries,
            r.fri_proof.query_proofs@.len() == old(self).config.num_queries,
            r.fri_proof.final_poly@.len() <= FRI_FINAL_SIZE,
            r.fri_proof.layer_commitments@.len() == fri_layer_count(
                old(self).config.spec_lde_domain_size(),
            ),
            r.trace_commitment@ == fold_root(
                trace_leaves(
                    trace_columns@,
                    old(self).config.blowup_factor as int,
                    old(self).config.spec_lde_domain_size(),
                ),
            ),
            r.composition_commitment@ == fold_root(
                composition_leaves(
                    trace_columns@,
                    old(self).config.blowup_factor as int,
                    old(self).config.spec_lde_domain_size(),
                    challenges(after_trace(r), 4)[0] as int,
                ),
            ),
            forall|j: int|
                0 <= j < r.query_proofs@.len() ==> (#[trigger] r.query_proofs@[j]).trace_values@
                    == extended_row(
                    trace_columns@,
                    old(self).config.blowup_factor as int,
                    r.query_proofs@[j].index as int,
                ),
            clock_valid(trace_columns@[0]@) ==> verify_result(old(self).verifier_config(), r)
                == Ok::<(), VerifyError>(()),
    {
        let blowup = self.config.blowup_factor;
        proof {
            lemma_pow2_pos(self.config.log_trace_len as nat);
            assert(blowup > 0) by {
                reveal_with_fuel(is_power_of_two, 1);
            }
            let tl = self.config.spec_trace_len();
            assert(tl <= tl * blowup) by (nonlinear_arith)
                requires
                    blowup > 0,
                    tl > 0,
            ;
        }
        let n = self.config.trace_len();
        proof {
            assert(trace_columns@[0]@.len() == n);
            assert forall|c: int| 0 <= c < trace_columns@.len() implies #[trigger] trace_columns@[c]@.len()
                == trace_columns@[0]@.len() by {}
            assert(blowup > 0) by {
                reveal_with_fuel(is_power_of_two, 1);
            }
            vstd::arithmetic::mul::lemma_mul_increases(blowup as int, n as int);
            lemma_power_of_two_product(self.config.log_trace_len as nat, blowup as nat);
        }
        let trace_lde = TraceLDE::new(&trace_columns, blowup);
        let domain_size = trace_lde.domain_size();
        proof {
            assert(column_extends(trace_lde.columns@[0]@, trace_columns@[0]@, blowup as int));
            assert forall|c: int| 0 <= c < trace_lde.columns@.len() implies #[trigger] trace_lde.columns@[c]@.len()
                == trace_lde.size by {
                assert(column_extends(trace_lde.columns@[c]@, trace_columns@[c]@, blowup as int));
            }
            vstd::arithmetic::mul::lemma_mul_increases(n as int, blowup as int);
        }
        let rows = collect_rows(&trace_lde);
        let trace_tree = MerkleTree::from_rows(&rows);
        let trace_commitment = trace_tree.root();
        let mut channel = ProverChannel::new(DOMAIN_SEPARATOR.as_bytes());
        channel.absorb_commitment(&trace_commitment);
        let constraint_random = channel.squeeze_qm31();
        let composition_evals = self.evaluate_composition_polynomial(&trace_lde, constraint_random);
        let composition_tree = MerkleTree::new(composition_evals.as_slice());
        let composition_commitment = composition_tree.root();
        channel.absorb_commitment(&composition_commitment);
        let _oods_point = channel.squeeze_qm31();
        let ghost t3 = channel.transcript();
        let ghost tr = trace_columns@;
        let ghost alpha0 = constraint_random.c0@;
        proof {
            assert forall|i: int| 0 <= i < domain_size implies #[trigger] row_of(
                trace_lde.columns@,
                i,
            ) == extended_row(tr, blowup as int, i) by {
                assert forall|c: int| 0 <= c < tr.len() implies trace_lde.columns@[c]@[i]
                    == #[trigger] extended_row(tr, blowup as int, i)[c] by {
                    assert(column_extends(trace_lde.columns@[c]@, tr[c]@, blowup as int));
                    lemma_extension_unique(trace_lde.columns@[c]@, tr[c]@, blowup as int);
                }
                assert(row_of(trace_lde.columns@, i) =~= extended_row(tr, blowup as int, i));
            }
            assert(trace_tree.level(0) =~= trace_leaves(tr, blowup as int, domain_size as nat));
            lemma_extension_unique(trace_lde.columns@[0]@, tr[0]@, blowup as int);
            assert forall|i: int| 0 <= i < domain_size implies composition_evals@[i] == #[trigger] M31::spec_new(
                composition_at(
                    extension_column(tr[0]@, blowup as int),
                    blowup as int,
                    domain_size as int,
                    alpha0,
                    i,
                ),
            ) by {
                let v = composition_at(
                    extension_column(tr[0]@, blowup as int),
                    blowup as int,
                    domain_size as int,
                    alpha0,
                    i,
                );
                let cur = extension_column(tr[0]@, blowup as int)[i]@;
                let next = extension_column(tr[0]@, blowup as int)[(i + blowup) % domain_size as int]@;
                let bnd = if i < blowup {
                    cur
                } else {
                    0
                };
                lemma_modp_ops(bnd + modp(alpha0 * modp(next - cur - 1)), 0);
                crate::field::lemma_spec_new(v);
                crate::field::lemma_view_injective(composition_evals@[i], M31::spec_new(v));
            }
            assert(composition_tree.level(0) =~= composition_leaves(
                tr,
                blowup as int,
                domain_size as nat,
                alpha0,
            ));
            assert(is_power_of_two(trace_lde.columns@[0]@.len()));
            assert(trace_tree.level(0) =~= Seq::new(
                domain_size as nat,
                |i: int| row_digest(row_of(trace_lde.columns@, i)),
            ));
            assert(t3 == initial_transcript(domain_separator()) + absorbed(trace_commitment@)
                + squeezes(4) + absorbed(composition_commitment@) + squeezes(4));
        }
        let mut layers: Vec<Vec<M31>> = Vec::new();
        let mut trees: Vec<MerkleTree> = Vec::new();
        let mut commitments: Vec<[u8; 32]> = Vec::new();
        let mut betas: Vec<M31> = Vec::new();
        let mut current = copy_values(&composition_evals);
        while current.len() > FRI_FINAL_SIZE
            invariant
                t3 == initial_transcript(domain_separator()) + absorbed(trace_commitment@)
                    + squeezes(4) + absorbed(composition_commitment@) + squeezes(4),
                tr == trace_columns@,
                alpha0 == challenges(
                    initial_transcript(domain_separator()) + absorbed(trace_commitment@),
                    4,
                )[0],
                trace_commitment@ == fold_root(trace_leaves(tr, blowup as int, domain_size as nat)),
                composition_commitment@ == fold_root(
                    composition_leaves(tr, blowup as int, domain_size as nat, alpha0),
                ),
                forall|i: int|
                    0 <= i < domain_size ==> #[trigger] row_of(trace_lde.columns@, i) == extended_row(
                        tr,
                        blowup as int,
                        i,
                    ),
                layers@.len() + fri_layer_count(current@.len()) == fri_layer_count(
                    domain_size as nat,
                ),
                forall|i: int|
                    0 <= i < domain_size ==> #[trigger] composition_evals@[i]@ == composition_at(
                        trace_lde.columns@[0]@,
                        blowup as int,
                        domain_size as int,
                        alpha0,
                        i,
                    ),
                column_extends(trace_lde.columns@[0]@, tr[0]@, blowup as int),
                tr[0]@.len() == n,
                trace_tree.wf(),
                trace_tree.level(0) == Seq::new(
                    domain_size as nat,
                    |i: int| row_digest(row_of(trace_lde.columns@, i)),
                ),
                trace_commitment@ == trace_tree.spec_root(),
                composition_tree.wf(),
                composition_tree.level(0) == composition_evals@.map_values(|v: M31| leaf_digest(v)),
                composition_commitment@ == composition_tree.spec_root(),
                composition_evals@.len() == domain_size,
                trace_lde.columns@.len() > 0,
                forall|c: int|
                    0 <= c < trace_lde.columns@.len() ==> #[trigger] trace_lde.columns@[c]@.len()
                        == trace_lde.size,
                domain_size == trace_lde.size,
                domain_size == n * blowup,
                n == self.config.spec_trace_len(),
                blowup == self.config.blowup_factor,
                domain_size <= 0x4000_0000,
                forall|l: int| 0 <= l < layers@.len() - 1 ==> #[trigger] folds_to(layers@, betas@, l),
                layers@.len() > 0 ==> is_fold(
                    layers@[layers@.len() - 1]@,
                    current@,
                    betas@[layers@.len() - 1]@,
                ),
                is_power_of_two(current@.len()),
                current@.len() <= 0x4000_0000,
                layers@.len() == 0 ==> current@ == composition_evals@,
                layers@.len() > 0 ==> layers@[0]@ == composition_evals@,
                layers@.len() > 0 ==> layers@[layers@.len() - 1]@.len() == 2 * current@.len(),
                forall|l: int| 0 <= l < layers@.len() - 1 ==> #[trigger] halves(layers@, l),
                forall|l: int| 0 <= l < layers@.len() ==> (#[trigger] layers@[l]@.len()) % 2 == 0,
                layers@.len() == trees@.len(),
                layers@.len() == commitments@.len(),
                layers@.len() == betas@.len(),
                channel.transcript() == fri_prefix(t3, commitments@, commitments@.len()),
                forall|l: int| 0 <= l < trees@.len() ==> (#[trigger] trees@[l]).wf(),
                forall|l: int|
                    0 <= l < trees@.len() ==> (#[trigger] trees@[l]).level(0) == layers@[l]@.map_values(|v: M31| leaf_digest(v)),
                forall|l: int|
                    0 <= l < trees@.len() ==> (#[trigger] trees@[l]).spec_root() == commitments@[l]@,
                forall|l: int|
                    0 <= l < betas@.len() ==> #[trigger] betas@[l]@ == sponge_output(
                        fri_prefix(t3, commitments@, l as nat) + absorbed(commitments@[l]@),
                    ),
            decreases current@.len(),
        {
            let tree = MerkleTree::new(current.as_slice());
            let root = tree.root();
            let ghost before = commitments@;
            channel.absorb_commitment(&root);
            let beta = channel.squeeze_challenge();
            proof {
                assert(current@.len() % 2 == 0) by {
                    reveal_with_fuel(is_power_of_two, 1);
                }
            }
            let next = fold_layer(&current, beta);
            let ghost old_layers = layers@;
            layers.push(current);
            proof {
                assert forall|l: int| 0 <= l < layers@.len() - 1 implies #[trigger] halves(layers@, l) by {
                    if l < old_layers.len() - 1 {
                        assert(halves(old_layers, l));
                    }
                }
            }
            trees.push(tree);
            commitments.push(root);
            let ghost old_betas = betas@;
            betas.push(beta);
            proof {
                assert forall|l: int| 0 <= l < layers@.len() - 1 implies #[trigger] folds_to(
                    layers@,
                    betas@,
                    l,
                ) by {
                    if l < old_layers.len() - 1 {
                        assert(folds_to(old_layers, old_betas, l));
                    }
                }
                assert forall|l: nat| l <= before.len() implies fri_prefix(t3, commitments@, l)
                    == fri_prefix(t3, before, l) by {
                    lemma_fri_prefix_push(t3, before, root, l);
                }
                assert(commitments@[before.len() as int] == root);
                assert(channel.transcript() =~= fri_prefix(t3, commitments@, commitments@.len()));
                assert(next@.len() * 2 == current@.len());
                assert(is_power_of_two(next@.len())) by {
                    reveal_with_fuel(is_power_of_two, 2);
                }
            }
            current = next;
        }
        let final_poly = current;
        proof {
            lemma_pow2_pos(self.config.log_trace_len as nat);
            vstd::arithmetic::mul::lemma_mul_strictly_positive(n as int, blowup as int);
        }
        let query_indices = channel.squeeze_query_indices(self.config.num_queries, domain_size);
        let vcfg = VerifierConfig {
            log_trace_len: self.config.log_trace_len,
            blowup_factor: self.config.blowup_factor,
            num_queries: self.config.num_queries,
            fri_folding_factor: self.config.fri_folding_factor,
            fri_final_degree: FRI_FINAL_SIZE,
        };
        let query_proofs = generate_query_proofs(
            &query_indices,
            &trace_tree,
            &trace_lde,
            &composition_tree,
            &composition_evals,
            &vcfg,
        );
        let fri_queries = generate_fri_query_proofs(&query_indices, &layers, &trees);
        let r = StarkProof {
            trace_commitment,
            composition_commitment,
            fri_proof: FriProof { layer_commitments: commitments, query_proofs: fri_queries, final_poly },
            query_proofs,
        };
        proof {
            let cfg = self.verifier_config();
            let num = self.config.num_queries;
            assert(t3 == before_fri(r));
            assert(cfg.spec_lde_domain_size() == domain_size);
            assert(query_transcript(r) == fri_prefix(t3, commitments@, commitments@.len()));
            assert forall|j: int| 0 <= j < r.query_proofs@.len() implies (
            #[trigger] r.query_proofs@[j]).trace_values@ == extended_row(
                tr,
                blowup as int,
                r.query_proofs@[j].index as int,
            ) by {
                assert(honest_query(
                    vcfg,
                    query_proofs@[j],
                    query_indices@[j] as int,
                    trace_lde.columns@,
                    trace_tree.spec_root(),
                    composition_evals@,
                    composition_tree.spec_root(),
                ));
                reveal(honest_query);
                let idx = query_indices@[j] as int;
                assert(row_of(trace_lde.columns@, idx) == extended_row(tr, blowup as int, idx));
            }
            if clock_valid(tr[0]@) {
                lemma_all_queries_pass(
                    cfg,
                    r,
                    query_indices@,
                    trace_lde.columns@,
                    tr[0]@,
                    composition_evals@,
                );
                lemma_first_query_none(cfg, r, 0);
            }
            let num_layers = layers@.len();
            let full = Seq::new(
                num_layers + 1,
                |t: int|
                    if t < num_layers {
                        layers@[t]@
                    } else {
                        final_poly@
                    },
            );
            assert forall|qi: nat| qi < r.fri_proof.query_proofs@.len() implies #[trigger] fri_query_error(
                r,
                qi,
            ) is None by {
                let fq = r.fri_proof.query_proofs@[qi as int];
                let idx = query_indices@[qi as int] as nat;
                assert(honest_query(
                    vcfg,
                    query_proofs@[qi as int],
                    query_indices@[qi as int] as int,
                    trace_lde.columns@,
                    trace_tree.spec_root(),
                    composition_evals@,
                    composition_tree.spec_root(),
                ));
                assert(query_proofs@[qi as int].index == query_indices@[qi as int]
                    && query_proofs@[qi as int].composition_value
                    == composition_evals@[query_indices@[qi as int] as int]) by {
                    reveal(honest_query);
                }
                assert(fq == fri_queries@[qi as int]);
                assert(fq.index == idx);
                assert forall|t: int| 0 <= t < num_layers implies #[trigger] fri_step_ok(
                    r,
                    fq,
                    full,
                    idx,
                    t,
                ) by {
                    assert(opens_layer(fq.layer_proofs@, layers@, trees@, idx, t));
                    if t < num_layers - 1 {
                        assert(folds_to(layers@, betas@, t));
                    }
                    assert(betas@[t]@ == fri_beta(r, t as nat));
                }
                assert(full[0] == composition_evals@);
                assert(level_index(idx, 0) == idx);
                lemma_fri_walk(r, fq, qi, idx, 0, full);
            }
            lemma_first_fri_none(r, 0);
        }
        r
    }
}

/// The rows of the extended trace, one per domain point.
fn collect_rows(trace_lde: &TraceLDE) -> (r: Vec<Vec<M31>>)
    requires
        forall|c: int|
            0 <= c < trace_lde.columns@.len() ==> #[trigger] trace_lde.columns@[c]@.len()
                == trace_lde.size,
    ensures
        r@.len() == trace_lde.size,
        forall|i: int| 0 <= i < r@.len() ==> #[trigger] r@[i]@ == row_of(trace_lde.columns@, i),
{
    let mut rows: Vec<Vec<M31>> = Vec::with_capacity(trace_lde.size);
    let mut i: usize = 0;
    while i < trace_lde.size
        invariant
            forall|c: int|
                0 <= c < trace_lde.columns@.len() ==> #[trigger] trace_lde.columns@[c]@.len()
                    == trace_lde.size,
            i <= trace_lde.size,
            rows@.len() == i,
            forall|t: int| 0 <= t < i ==> #[trigger] rows@[t]@ == row_of(trace_lde.columns@, t),
        decreases trace_lde.size - i,
    {
        rows.push(trace_lde.get_row(i));
        i = i + 1;
    }
    rows
}

/// One row of the extended trace with its path in the trace tree.
fn open_row(trace_tree: &MerkleTree, trace_lde: &TraceLDE, i: usize) -> (r: (Vec<M31>, MerkleProof))
    requires
        trace_tree.wf(),
        i < trace_lde.size,
        forall|c: int|
            0 <= c < trace_lde.columns@.len() ==> #[trigger] trace_lde.columns@[c]@.len()
                == trace_lde.size,
        trace_tree.level(0) == Seq::new(
            trace_lde.size as nat,
            |k: int| row_digest(row_of(trace_lde.columns@, k)),
        ),
    ensures
        r.0@ == row_of(trace_lde.columns@, i as int),
        r.1.leaf_index == i,
        path_root(row_digest(r.0@), i as nat, r.1.path_view()) == trace_tree.spec_root(),
{
    (trace_lde.get_row(i), trace_tree.prove(i))
}

/// Opens the trace and composition trees at every queried position and at the positions
/// its constraint checks read.
fn generate_query_proofs(
    indices: &Vec<usize>,
    trace_tree: &MerkleTree,
    trace_lde: &TraceLDE,
    composition_tree: &MerkleTree,
    composition_evals: &Vec<M31>,
    cfg: &VerifierConfig,
) -> (r: Vec<QueryProof>)
    requires
        cfg.fits(),
        cfg.blowup_factor > 0,
        cfg.spec_lde_domain_size() == trace_lde.size,
        trace_tree.wf(),
        composition_tree.wf(),
        trace_lde.columns@.len() > 0,
        forall|c: int| 0 <= c < trace_lde.columns@.len() ==> #[trigger] trace_lde.columns@[c]@.len() == trace_lde.size,
        trace_tree.level(0) == Seq::new(
            trace_lde.size as nat,
            |i: int| row_digest(row_of(trace_lde.columns@, i)),
        ),
        composition_tree.level(0) == composition_evals@.map_values(|v: M31| leaf_digest(v)),
        composition_evals@.len() == trace_lde.size,
        forall|i: int| 0 <= i < indices@.len() ==> #[trigger] indices@[i] < trace_lde.size,
    ensures
        r@.len() == indices@.len(),
        forall|i: int|
            0 <= i < r@.len() ==> #[trigger] honest_query(
                *cfg,
                r@[i],
                indices@[i] as int,
                trace_lde.columns@,
                trace_tree.spec_root(),
                composition_evals@,
                composition_tree.spec_root(),
            ),
{
    let mut out: Vec<QueryProof> = Vec::with_capacity(indices.len());
    let mut i: usize = 0;
    while i < indices.len()
        invariant
            cfg.fits(),
            cfg.blowup_factor > 0,
            cfg.spec_lde_domain_size() == trace_lde.size,
            trace_tree.wf(),
            composition_tree.wf(),
            trace_lde.columns@.len() > 0,
            forall|c: int| 0 <= c < trace_lde.columns@.len() ==> #[trigger] trace_lde.columns@[c]@.len() == trace_lde.size,
            trace_tree.level(0) == Seq::new(
                trace_lde.size as nat,
                |k: int| row_digest(row_of(trace_lde.columns@, k)),
            ),
            composition_tree.level(0) == composition_evals@.map_values(|v: M31| leaf_digest(v)),
            composition_evals@.len() == trace_lde.size,
            forall|t: int| 0 <= t < indices@.len() ==> #[trigger] indices@[t] < trace_lde.size,
            i <= indices@.len(),
            out@.len() == i,
            forall|t: int|
                0 <= t < i ==> #[trigger] honest_query(
                    *cfg,
                    out@[t],
                    indices@[t] as int,
                    trace_lde.columns@,
                    trace_tree.spec_root(),
                    composition_evals@,
                    composition_tree.spec_root(),
                ),
        decreases indices@.len() - i,
    {
        let idx = indices[i];
        let (ni, r0, r1) = query_positions(cfg, idx);
        let (trace_values, trace_proof) = open_row(trace_tree, trace_lde, idx);
        let (next_trace_values, next_trace_proof) = open_row(trace_tree, trace_lde, ni);
        let (row_values, row_proof) = open_row(trace_tree, trace_lde, r0);
        let (next_row_values, next_row_proof) = open_row(trace_tree, trace_lde, r1);
        let composition_value = composition_evals[idx];
        let composition_proof = composition_tree.prove(idx);
        let ghost before = out@;
        proof {
            reveal(honest_query);
        }
        out.push(
            QueryProof {
                index: idx,
                trace_values,
                trace_proof,
                composition_value,
                composition_proof,
                next_trace_values,
                next_trace_proof,
                row_values,
                row_proof,
                next_row_values,
                next_row_proof,
            },
        );
        proof {
            assert forall|t: int| 0 <= t < i + 1 implies #[trigger] honest_query(
                *cfg,
                out@[t],
                indices@[t] as int,
                trace_lde.columns@,
                trace_tree.spec_root(),
                composition_evals@,
                composition_tree.spec_root(),
            ) by {
                if t < i {
                    assert(out@[t] == before[t]);
                }
            }
        }
        i = i + 1;
    }
    out
}

/// Opens, for every queried position, the sibling of its ancestor in every FRI layer.
fn generate_fri_query_proofs(
    indices: &Vec<usize>,
    layers: &Vec<Vec<M31>>,
    trees: &Vec<MerkleTree>,
) -> (r: Vec<FriQueryProof>)
    requires
        layers@.len() == trees@.len(),
        layers@.len() > 0 ==> forall|i: int| 0 <= i < indices@.len() ==> #[trigger] indices@[i] < layers@[0]@.len(),
        forall|l: int| 0 <= l < trees@.len() ==> (#[trigger] trees@[l]).wf(),
        forall|l: int| 0 <= l < trees@.len() ==> (#[trigger] trees@[l]).level(0) == layers@[l]@.map_values(|v: M31| leaf_digest(v)),
        forall|l: int| 0 <= l < layers@.len() - 1 ==> #[trigger] halves(layers@, l),
        forall|l: int| 0 <= l < layers@.len() ==> (#[trigger] layers@[l]@.len()) % 2 == 0,
    ensures
        r@.len() == indices@.len(),
        forall|i: int| 0 <= i < r@.len() ==> (#[trigger] r@[i]).index == indices@[i],
        forall|i: int| 0 <= i < r@.len() ==> (#[trigger] r@[i]).layer_proofs@.len() == layers@.len(),
        forall|i: int, l: int|
            0 <= i < r@.len() && 0 <= l < layers@.len() ==> #[trigger] opens_layer(
                r@[i].layer_proofs@,
                layers@,
                trees@,
                indices@[i] as nat,
                l,
            ),
{
    let mut out: Vec<FriQueryProof> = Vec::with_capacity(indices.len());
    let mut i: usize = 0;
    while i < indices.len()
        invariant
            layers@.len() == trees@.len(),
            layers@.len() > 0 ==> forall|t: int| 0 <= t < indices@.len() ==> #[trigger] indices@[t] < layers@[0]@.len(),
            forall|l: int| 0 <= l < trees@.len() ==> (#[trigger] trees@[l]).wf(),
            forall|l: int| 0 <= l < trees@.len() ==> (#[trigger] trees@[l]).level(0) == layers@[l]@.map_values(|v: M31| leaf_digest(v)),
            forall|l: int| 0 <= l < layers@.len() - 1 ==> #[trigger] halves(layers@, l),
            forall|l: int| 0 <= l < layers@.len() ==> (#[trigger] layers@[l]@.len()) % 2 == 0,
            i <= indices@.len(),
            out@.len() == i,
            forall|t: int| 0 <= t < i ==> (#[trigger] out@[t]).index == indices@[t],
            forall|t: int| 0 <= t < i ==> (#[trigger] out@[t]).layer_proofs@.len() == layers@.len(),
            forall|t: int, l: int|
                0 <= t < i && 0 <= l < layers@.len() ==> #[trigger] opens_layer(
                    out@[t].layer_proofs@,
                    layers@,
                    trees@,
                    indices@[t] as nat,
                    l,
                ),
        decreases indices@.len() - i,
    {
        let idx = indices[i];
        let mut layer_proofs: Vec<FriLayerQueryProof> = Vec::with_capacity(layers.len());
        let mut current = idx;
        let mut l: usize = 0;
        while l < layers.len()
            invariant
                layers@.len() == trees@.len(),
                layers@.len() > 0 ==> idx < layers@[0]@.len(),
                forall|t: int| 0 <= t < trees@.len() ==> (#[trigger] trees@[t]).wf(),
                forall|t: int| 0 <= t < trees@.len() ==> (#[trigger] trees@[t]).level(0) == layers@[t]@.map_values(|v: M31| leaf_digest(v)),
                forall|t: int| 0 <= t < layers@.len() - 1 ==> #[trigger] halves(layers@, t),
                forall|t: int| 0 <= t < layers@.len() ==> (#[trigger] layers@[t]@.len()) % 2 == 0,
                l <= layers@.len(),
                l < layers@.len() ==> current < layers@[l as int]@.len(),
                current == level_index(idx as nat, l as nat),
                layer_proofs@.len() == l,
                forall|t: int|
                    0 <= t < l ==> #[trigger] opens_layer(layer_proofs@, layers@, trees@, idx as nat, t),
            decreases layers@.len() - l,
        {
            let sib = if current % 2 == 0 {
                current + 1
            } else {
                current - 1
            };
            proof {
                assert(layers@[l as int]@.len() % 2 == 0);
            }
            let sibling_value = layers[l][sib];
            let proof_path = trees[l].prove(sib);
            let ghost before = layer_proofs@;
            layer_proofs.push(FriLayerQueryProof { sibling_value, merkle_proof: proof_path.path });
            proof {
                assert forall|t: int| 0 <= t <= l implies #[trigger] opens_layer(
                    layer_proofs@,
                    layers@,
                    trees@,
                    idx as nat,
                    t,
                ) by {
                    if t < l {
                        assert(opens_layer(before, layers@, trees@, idx as nat, t));
                        assert(layer_proofs@[t] == before[t]);
                    }
                }
            }
            proof {
                if l + 1 < layers@.len() {
                    assert(halves(layers@, l as int));
                }
            }
            current = current / 2;
            l = l + 1;
        }
        let ghost before = out@;
        out.push(FriQueryProof { index: idx, layer_proofs });
        proof {
            assert forall|t: int, l: int|
                0 <= t <= i && 0 <= l < layers@.len() implies #[trigger] opens_layer(
                out@[t].layer_proofs@,
                layers@,
                trees@,
                indices@[t] as nat,
                l,
            ) by {
                if t < i {
                    assert(out@[t] == before[t]);
                }
            }
        }
        i = i + 1;
    }
    out
}

} // verus!
