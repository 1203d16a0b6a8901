//! Low-degree extension of trace columns.
//!
//! Row `j` of a column of `n` rows sits at the point `j * B` of the extension domain
//! `{0, 1, ..., n * B - 1}`; the extension is the polynomial of degree below `n` through
//! those points, given by Lagrange interpolation and evaluated at every other domain
//! point. At the rows' own points it takes the rows' values.
use crate::field::{lemma_modp_ops, modp, modulus, M31};
use vstd::arithmetic::power::pow;
use vstd::prelude::*;

verus! {

/// `prod_{m < k, m != j} (x - m * b)`, reduced mod p.
pub open spec fn basis_numerator(x: int, j: int, b: int, k: nat) -> int
    decreases k,
{
    if k == 0 {
        1
    } else {
        let m = k - 1;
        let f = if m == j {
            1
        } else {
            modp(x - m * b)
        };
        modp(basis_numerator(x, j, b, (k - 1) as nat) * f)
    }
}

/// The inverse of `d` by Fermat: `d^(p-2)`.
pub open spec fn fermat_inverse(d: int) -> int {
    modp(pow(d, (modulus() - 2) as nat))
}

/// The Lagrange basis polynomial of row `j` of `n` rows at `x`.
pub open spec fn basis_weight(x: int, j: int, b: int, n: nat) -> int {
    modp(basis_numerator(x, j, b, n) * fermat_inverse(basis_numerator(j * b, j, b, n)))
}

/// `sum_{j < k} col[j] * weight_j(x)`, reduced mod p.
pub open spec fn lde_sum(col: Seq<M31>, b: int, x: int, k: nat) -> int
    decreases k,
{
    if k == 0 {
        0
    } else {
        modp(
            lde_sum(col, b, x, (k - 1) as nat) + modp(
                col[k - 1]@ * basis_weight(x, k - 1, b, col.len()),
            ),
        )
    }
}

/// The extension of `col` at the domain point `x`.
pub open spec fn lde_value(col: Seq<M31>, b: int, x: int) -> int {
    if b > 0 && x % b == 0 && 0 <= x / b < col.len() {
        modp(col[x / b]@)
    } else {
        lde_sum(col, b, x, col.len())
    }
}

/// `prod_{m < n, m != j} (x - m * b)`.
fn numerator(x: usize, j: usize, b: usize, n: usize) -> (r: M31)
    requires
        n * b <= 0x4000_0000,
        x < n * b,
    ensures
        r@ == basis_numerator(x as int, j as int, b as int, n as nat),
{
    let mut acc = M31::one();
    let mut m: usize = 0;
    while m < n
        invariant
            m <= n,
            n * b <= 0x4000_0000,
            x < n * b,
            acc@ == basis_numerator(x as int, j as int, b as int, m as nat),
        decreases n - m,
    {
        assert(m * b <= n * b) by (nonlinear_arith)
            requires
                m < n,
        ;
        let f = if m == j {
            M31::one()
        } else {
            M31::new(x as u32).sub(M31::new((m * b) as u32))
        };
        proof {
            lemma_modp_ops(x as int, (m * b) as int);
            crate::field::lemma_modp_small(x as int);
            crate::field::lemma_modp_small((m * b) as int);
        }
        acc = acc.mul(f);
        m = m + 1;
    }
    acc
}

/// The extension of `col` over the domain of `col.len() * b` points.
pub fn extend_column(col: &Vec<M31>, b: usize) -> (r: Vec<M31>)
    requires
        b > 0,
        col@.len() * b <= 0x4000_0000,
    ensures
        r@.len() == col@.len() * b,
        forall|x: int| 0 <= x < r@.len() ==> #[trigger] r@[x]@ == lde_value(col@, b as int, x),
{
    let n = col.len();
    let size = n * b;
    let mut inverses: Vec<M31> = Vec::with_capacity(n);
    let mut j: usize = 0;
    while j < n
        invariant
            n == col@.len(),
            size == n * b,
            size <= 0x4000_0000,
            b > 0,
            j <= n,
            inverses@.len() == j,
            forall|t: int|
                0 <= t < j ==> #[trigger] inverses@[t]@ == fermat_inverse(
                    basis_numerator(t * b, t, b as int, n as nat),
                ),
        decreases n - j,
    {
        assert(j * b < n * b) by (nonlinear_arith)
            requires
                j < n,
                b > 0,
        ;
        let d = numerator(j * b, j, b, n);
        inverses.push(d.inv());
        j = j + 1;
    }
    let mut out: Vec<M31> = Vec::with_capacity(size);
    let mut x: usize = 0;
    while x < size
        invariant
            n == col@.len(),
            size == n * b,
            size <= 0x4000_0000,
            inverses@.len() == n,
            forall|t: int|
                0 <= t < n ==> #[trigger] inverses@[t]@ == fermat_inverse(
                    basis_numerator(t * b, t, b as int, n as nat),
                ),
            b > 0,
            x <= size,
            out@.len() == x,
            forall|t: int| 0 <= t < x ==> #[trigger] out@[t]@ == lde_value(col@, b as int, t),
        decreases size - x,
    {
        if x % b == 0 {
            proof {
                assert(x / b < n) by (nonlinear_arith)
                    requires
                        x < n * b,
                        b > 0,
                ;
            }
            let v = M31::new(col[x / b].value());
            out.push(v);
            x = x + 1;
            continue;
        }
        let mut acc = M31::zero();
        let mut k: usize = 0;
        while k < n
            invariant
                n == col@.len(),
                size == n * b,
                size <= 0x4000_0000,
                x < size,
                inverses@.len() == n,
                forall|t: int|
                    0 <= t < n ==> #[trigger] inverses@[t]@ == fermat_inverse(
                        basis_numerator(t * b, t, b as int, n as nat),
                    ),
                k <= n,
                acc@ == lde_sum(col@, b as int, x as int, k as nat),
            decreases n - k,
        {
            let w = numerator(x, k, b, n).mul(inverses[k]);
            acc = acc.add(col[k].mul(w));
            proof {
                lemma_modp_ops(col@[k as int]@, basis_weight(x as int, k as int, b as int, n as nat));
            }
            k = k + 1;
        }
        out.push(acc);
        x = x + 1;
    }
    out
}

/// The values of every column at point `i`.
pub open spec fn row_of(columns: Seq<Vec<M31>>, i: int) -> Seq<M31> {
    Seq::new(columns.len(), |c: int| columns[c]@[i])
}

/// The extension of `col` by the factor `b`, as field elements.
pub open spec fn extension_column(col: Seq<M31>, b: int) -> Seq<M31> {
    Seq::new((col.len() * b) as nat, |x: int| M31::spec_new(lde_value(col, b, x)))
}

/// Row `i` of the extension of `trace` by the factor `b`: every column's value there.
pub open spec fn extended_row(trace: Seq<Vec<M31>>, b: int, i: int) -> Seq<M31> {
    Seq::new(trace.len(), |c: int| M31::spec_new(lde_value(trace[c]@, b, i)))
}

/// An extension value is already reduced.
pub proof fn lemma_lde_value_reduced(col: Seq<M31>, b: int, x: int)
    ensures
        modp(lde_value(col, b, x)) == lde_value(col, b, x),
{
    if b > 0 && x % b == 0 && 0 <= x / b < col.len() {
        lemma_modp_ops(col[x / b]@, 0);
    } else if col.len() > 0 {
        let k = col.len();
        let v = lde_sum(col, b, x, (k - 1) as nat) + modp(
            col[k - 1]@ * basis_weight(x, k - 1, b, col.len()),
        );
        lemma_modp_ops(v, 0);
    } else {
        crate::field::lemma_modp_small(0);
    }
}

/// A column that extends `col` is the extension of `col`.
pub proof fn lemma_extension_unique(ext: Seq<M31>, col: Seq<M31>, b: int)
    requires
        column_extends(ext, col, b),
    ensures
        ext == extension_column(col, b),
{
    assert forall|x: int| 0 <= x < ext.len() implies ext[x] == #[trigger] extension_column(
        col,
        b,
    )[x] by {
        lemma_lde_value_reduced(col, b, x);
        crate::field::lemma_spec_new(lde_value(col, b, x));
        crate::field::lemma_view_injective(ext[x], M31::spec_new(lde_value(col, b, x)));
    }
    assert(ext =~= extension_column(col, b));
}

/// Whether `ext` is the extension of `col` by the factor `b`.
pub open spec fn column_extends(ext: Seq<M31>, col: Seq<M31>, b: int) -> bool {
    &&& ext.len() == col.len() * b
    &&& forall|x: int| 0 <= x < ext.len() ==> #[trigger] ext[x]@ == lde_value(col, b, x)
}

/// The extensions of all trace columns over one domain.
pub struct TraceLDE {
    /// One extended column per trace column.
    pub columns: Vec<Vec<M31>>,
    /// Ratio of the domain size to the trace length.
    pub blowup: usize,
    /// Number of domain points.
    pub size: usize,
}

impl TraceLDE {
    /// Whether the columns extend `trace` over `trace[0].len() * blowup` points.
    pub open spec fn extends(&self, trace: Seq<Vec<M31>>) -> bool {
        &&& self.columns@.len() == trace.len()
        &&& trace.len() > 0
        &&& self.size == trace[0]@.len() * self.blowup
        &&& forall|c: int|
            0 <= c < trace.len() ==> #[trigger] column_extends(
                self.columns@[c]@,
                trace[c]@,
                self.blowup as int,
            )
    }

    /// Extends every column of `trace` by the factor `blowup`.
    pub fn new(trace: &Vec<Vec<M31>>, blowup: usize) -> (r: TraceLDE)
        requires
            blowup > 0,
            trace@.len() > 0,
            forall|c: int| 0 <= c < trace@.len() ==> #[trigger] trace@[c]@.len() == trace@[0]@.len(),
            trace@[0]@.len() * blowup <= 0x4000_0000,
        ensures
            r.extends(trace@),
            r.blowup == blowup,
    {
        let n = trace[0].len();
        let mut columns: Vec<Vec<M31>> = Vec::with_capacity(trace.len());
        let mut c: usize = 0;
        while c < trace.len()
            invariant
                trace@.len() > 0,
                n == trace@[0]@.len(),
                forall|t: int| 0 <= t < trace@.len() ==> #[trigger] trace@[t]@.len() == n,
                n * blowup <= 0x4000_0000,
                blowup > 0,
                c <= trace@.len(),
                columns@.len() == c,
                forall|t: int|
                    0 <= t < c ==> #[trigger] columns@[t]@.len() == n * blowup && forall|x: int|
                        0 <= x < n * blowup ==> #[trigger] columns@[t]@[x]@ == lde_value(
                            trace@[t]@,
                            blowup as int,
                            x,
                        ),
            decreases trace@.len() - c,
        {
            let col = extend_column(&trace[c], blowup);
            columns.push(col);
            c = c + 1;
        }
        let r = TraceLDE { columns, blowup, size: n * blowup };
        proof {
            assert forall|t: int| 0 <= t < trace@.len() implies #[trigger] column_extends(
                r.columns@[t]@,
                trace@[t]@,
                r.blowup as int,
            ) by {
                assert(trace@[t]@.len() == n);
            }
        }
        r
    }

    /// The number of domain points.
    pub fn domain_size(&self) -> (r: usize)
        ensures
            r == self.size,
    {
        self.size
    }

    /// Value of column `col` at point `i`.
    pub fn get(&self, col: usize, i: usize) -> (r: M31)
        requires
            col < self.columns@.len(),
            i < self.columns@[col as int]@.len(),
        ensures
            r == self.columns@[col as int]@[i as int],
    {
        self.columns[col][i]
    }

    /// Values of every column at point `i`.
    pub fn get_row(&self, i: usize) -> (r: Vec<M31>)
        requires
            forall|c: int| 0 <= c < self.columns@.len() ==> i < #[trigger] self.columns@[c]@.len(),
        ensures
            r@ == row_of(self.columns@, i as int),
    {
        let mut row: Vec<M31> = Vec::with_capacity(self.columns.len());
        let mut c: usize = 0;
        while c < self.columns.len()
            invariant
                forall|t: int| 0 <= t < self.columns@.len() ==> i < #[trigger] self.columns@[t]@.len(),
                c <= self.columns@.len(),
                row@.len() == c,
                forall|t: int| 0 <= t < c ==> #[trigger] row@[t] == self.columns@[t]@[i as int],
            decreases self.columns@.len() - c,
        {
            row.push(self.columns[c][i]);
            c = c + 1;
        }
        proof {
            assert(row@ =~= row_of(self.columns@, i as int));
        }
        row
    }
}

} // verus!
