//! Vector commitments: complete binary BLAKE3 Merkle trees over field elements or rows.
use crate::elf::{le32_bytes, push_le32};
use crate::field::M31;
use vstd::prelude::*;

verus! {

/// The BLAKE3 digest of `data`.
pub uninterp spec fn blake3_digest(data: Seq<u8>) -> Seq<u8>;

/// Relies on `blake3::hash`: the 32-byte BLAKE3 digest, which depends on the input alone.
#[verifier::external_body]
fn blake3_hash(data: &[u8]) -> (r: [u8; 32])
    ensures
        r@ == blake3_digest(data@),
{
    *blake3::hash(data).as_bytes()
}

/// The digest of a leaf: BLAKE3 over the element's 4-byte little-endian encoding.
pub open spec fn leaf_digest(v: M31) -> Seq<u8> {
    blake3_digest(le32_bytes(v@ as u32))
}

/// The digest of an inner node: BLAKE3 over `left || right`.
pub open spec fn node_digest(left: Seq<u8>, right: Seq<u8>) -> Seq<u8> {
    blake3_digest(left + right)
}

/// The root reached from digest `cur` at position `idx` by combining with the siblings
/// in `path`, bottom-up; the low bit of the position says which side `cur` is on.
pub open spec fn path_root(cur: Seq<u8>, idx: nat, path: Seq<Seq<u8>>) -> Seq<u8>
    decreases path.len(),
{
    if path.len() == 0 {
        cur
    } else {
        let next = if idx % 2 == 0 {
            node_digest(cur, path[0])
        } else {
            node_digest(path[0], cur)
        };
        path_root(next, idx / 2, path.drop_first())
    }
}

/// The digests of the level above `level`.
pub open spec fn pair_up(level: Seq<Seq<u8>>) -> Seq<Seq<u8>> {
    Seq::new(level.len() / 2, |j: int| node_digest(level[2 * j], level[2 * j + 1]))
}

/// The root of the tree whose bottom level is `level`.
pub open spec fn fold_root(level: Seq<Seq<u8>>) -> Seq<u8>
    decreases level.len(),
{
    if level.len() <= 1 {
        level[0]
    } else {
        fold_root(pair_up(level))
    }
}

/// Whether `n` is a power of two.
pub open spec fn is_power_of_two(n: nat) -> bool
    decreases n,
{
    if n == 0 {
        false
    } else if n == 1 {
        true
    } else {
        n % 2 == 0 && is_power_of_two(n / 2)
    }
}

/// Of two powers of two, the smaller is at most half the larger.
pub proof fn lemma_power_of_two_gap(a: nat, b: nat)
    requires
        is_power_of_two(a),
        is_power_of_two(b),
        a < b,
    ensures
        2 * a <= b,
    decreases a,
{
    if a > 1 {
        lemma_power_of_two_gap(a / 2, b / 2);
    }
}

/// The leaf digests that commit to `values`: those of `values`, then those of zeros up to
/// the smallest power of two that is at least their number (one leaf when there are none).
pub open spec fn is_padded_level(level: Seq<Seq<u8>>, values: Seq<M31>) -> bool {
    &&& is_power_of_two(level.len())
    &&& level.len() >= values.len()
    &&& (level.len() == 1 || level.len() < 2 * values.len())
    &&& forall|i: int|
        0 <= i < level.len() ==> #[trigger] level[i] == leaf_digest(
            if i < values.len() {
                values[i]
            } else {
                M31::spec_zero()
            },
        )
}

/// The little-endian encodings of a row's values, one after another.
pub open spec fn row_bytes(row: Seq<M31>) -> Seq<u8>
    decreases row.len(),
{
    if row.len() == 0 {
        Seq::empty()
    } else {
        row_bytes(row.drop_last()) + le32_bytes(row.last()@ as u32)
    }
}

/// The digest of a row leaf: BLAKE3 over its values' encodings.
pub open spec fn row_digest(row: Seq<M31>) -> Seq<u8> {
    blake3_digest(row_bytes(row))
}

/// Position of the ancestor `t` levels above position `idx`.
pub open spec fn level_index(idx: nat, t: nat) -> nat
    decreases t,
{
    if t == 0 {
        idx
    } else {
        level_index(idx, (t - 1) as nat) / 2
    }
}

/// Position of the sibling of `idx`.
pub open spec fn sibling(idx: nat) -> nat {
    if idx % 2 == 0 {
        idx + 1
    } else {
        (idx - 1) as nat
    }
}

/// Views of a level's digests.
pub open spec fn level_view(level: Seq<[u8; 32]>) -> Seq<Seq<u8>> {
    level.map_values(|h: [u8; 32]| h@)
}

/// A Merkle authentication path: the leaf position and the sibling digests, leaf first.
#[derive(Clone, Debug)]
pub struct MerkleProof {
    pub leaf_index: usize,
    pub path: Vec<[u8; 32]>,
}

impl MerkleProof {
    /// The sibling digests as sequences.
    pub open spec fn path_view(&self) -> Seq<Seq<u8>> {
        level_view(self.path@)
    }

    /// Whether the path leads from `leaf_value` at `leaf_index` to `root`.
    pub fn verify(&self, root: &[u8; 32], leaf_value: M31) -> (r: bool)
        ensures
            r == (path_root(leaf_digest(leaf_value), self.leaf_index as nat, self.path_view())
                == root@),
    {
        verify_path(root, self.leaf_index, leaf_value, self.path.as_slice())
    }
}

/// Whether `path` leads from `leaf_value` at position `index` to `root`.
pub fn verify_path(root: &[u8; 32], index: usize, leaf_value: M31, path: &[[u8; 32]]) -> (r: bool)
    ensures
        r == (path_root(leaf_digest(leaf_value), index as nat, level_view(path@)) == root@),
{
    let mut bytes: Vec<u8> = Vec::new();
    push_le32(&mut bytes, leaf_value.as_u32());
    proof {
        assert(bytes@ =~= le32_bytes(leaf_value@ as u32));
    }
    let leaf = blake3_hash(bytes.as_slice());
    path_reaches(root, index, &leaf, path)
}

/// Whether `path` leads from the row `row` at position `index` to `root`.
pub fn verify_row_path(root: &[u8; 32], index: usize, row: &[M31], path: &[[u8; 32]]) -> (r: bool)
    ensures
        r == (path_root(row_digest(row@), index as nat, level_view(path@)) == root@),
{
    let bytes = encode_row(row);
    let leaf = blake3_hash(bytes.as_slice());
    path_reaches(root, index, &leaf, path)
}

/// Whether `path` leads from the leaf digest `leaf` at position `index` to `root`.
fn path_reaches(root: &[u8; 32], index: usize, leaf: &[u8; 32], path: &[[u8; 32]]) -> (r: bool)
    ensures
        r == (path_root(leaf@, index as nat, level_view(path@)) == root@),
{
    let mut current = *leaf;
    let mut idx = index;
    let mut k: usize = 0;
    let ghost pv = level_view(path@);
    proof {
        assert(pv.subrange(0, path@.len() as int) =~= pv);
    }
    while k < path.len()
        invariant
            pv == level_view(path@),
            k <= path@.len(),
            path_root(leaf@, index as nat, pv) == path_root(
                current@,
                idx as nat,
                pv.subrange(k as int, path@.len() as int),
            ),
        decreases path@.len() - k,
    {
        let ghost rest = pv.subrange(k as int, path@.len() as int);
        let sibling = path[k];
        let mut buf: Vec<u8> = Vec::new();
        if idx % 2 == 0 {
            append_digest(&mut buf, &current);
            append_digest(&mut buf, &sibling);
        } else {
            append_digest(&mut buf, &sibling);
            append_digest(&mut buf, &current);
        }
        proof {
            assert(rest[0] == sibling@);
            assert(rest.drop_first() =~= pv.subrange(k + 1, path@.len() as int));
            assert(buf@ =~= (if idx % 2 == 0 {
                current@ + sibling@
            } else {
                sibling@ + current@
            }));
        }
        current = blake3_hash(buf.as_slice());
        idx = idx / 2;
        k = k + 1;
    }
    proof {
        assert(pv.subrange(k as int, path@.len() as int) =~= Seq::<Seq<u8>>::empty());
    }
    arrays_equal(&current, root)
}

fn append_digest(buf: &mut Vec<u8>, h: &[u8; 32])
    ensures
        final(buf)@ == old(buf)@ + h@,
{
    let mut i: usize = 0;
    while i < 32
        invariant
            i <= 32,
            buf@ == old(buf)@ + h@.subrange(0, i as int),
        decreases 32 - i,
    {
        buf.push(h[i]);
        i = i + 1;
        proof {
            assert(buf@ =~= old(buf)@ + h@.subrange(0, i as int));
        }
    }
    proof {
        assert(h@.subrange(0, 32) =~= h@);
    }
}

/// Byte-wise equality of two digests.
pub fn arrays_equal(a: &[u8; 32], b: &[u8; 32]) -> (r: bool)
    ensures
        r == (a@ == b@),
{
    let mut i: usize = 0;
    while i < 32
        invariant
            i <= 32,
            forall|j: int| 0 <= j < i ==> a@[j] == b@[j],
        decreases 32 - i,
    {
        if a[i] != b[i] {
            return false;
        }
        i = i + 1;
    }
    proof {
        assert(a@ =~= b@);
    }
    true
}

/// A complete binary Merkle tree, every level kept.
pub struct MerkleTree {
    layers: Vec<Vec<[u8; 32]>>,
}

/// The bytes of a row, little-endian value after value.
fn encode_row(row: &[M31]) -> (r: Vec<u8>)
    ensures
        r@ == row_bytes(row@),
{
    let mut out: Vec<u8> = Vec::new();
    let mut i: usize = 0;
    while i < row.len()
        invariant
            i <= row@.len(),
            out@ == row_bytes(row@.subrange(0, i as int)),
        decreases row@.len() - i,
    {
        let ghost before = row@.subrange(0, i as int);
        push_le32(&mut out, row[i].as_u32());
        i = i + 1;
        proof {
            assert(row@.subrange(0, i as int).drop_last() =~= before);
        }
    }
    proof {
        assert(row@.subrange(0, i as int) =~= row@);
    }
    out
}

impl MerkleTree {
    /// Level `k` of the tree, the leaf digests at level 0.
    pub closed spec fn level(&self, k: int) -> Seq<Seq<u8>> {
        level_view(self.layers@[k]@)
    }

    /// The number of levels.
    pub closed spec fn height(&self) -> nat {
        self.layers@.len()
    }

    /// Each level is the pairing of the one below, and the top level has one digest.
    pub open spec fn wf(&self) -> bool {
        &&& self.height() >= 1
        &&& self.level(self.height() - 1).len() == 1
        &&& forall|k: int| 0 <= k < self.height() - 1 ==> #[trigger] self.level_step(k)
    }

    /// Level `k + 1` pairs up level `k`, which has twice as many digests.
    pub open spec fn level_step(&self, k: int) -> bool {
        &&& self.level(k + 1) == pair_up(self.level(k))
        &&& self.level(k).len() == 2 * self.level(k + 1).len()
    }

    /// The root digest.
    pub open spec fn spec_root(&self) -> Seq<u8> {
        self.level(self.height() - 1)[0]
    }

    /// The tree over the given leaf digests, whose number is a power of two.
    pub fn from_leaf_digests(level: Vec<[u8; 32]>) -> (r: MerkleTree)
        requires
            is_power_of_two(level@.len()),
        ensures
            r.wf(),
            r.level(0) == level_view(level@),
            r.spec_root() == fold_root(level_view(level@)),
    {
        let ghost bottom = level_view(level@);
        let mut layers: Vec<Vec<[u8; 32]>> = Vec::new();
        layers.push(level);
        while layers[layers.len() - 1].len() > 1
            invariant
                layers@.len() >= 1,
                level_view(layers@[0]@) == bottom,
                is_power_of_two(layers@[layers@.len() - 1]@.len()),
                fold_root(bottom) == fold_root(level_view(layers@[layers@.len() - 1]@)),
                forall|k: int|
                    0 <= k < layers@.len() - 1 ==> #[trigger] level_view(layers@[k + 1]@)
                        == pair_up(level_view(layers@[k]@)),
                forall|k: int|
                    0 <= k < layers@.len() - 1 ==> (#[trigger] layers@[k]@).len() == 2
                        * layers@[k + 1]@.len(),
            decreases layers@[layers@.len() - 1]@.len(),
        {
            let top = layers.len() - 1;
            let len = layers[top].len();
            let mut next: Vec<[u8; 32]> = Vec::with_capacity(len / 2);
            let mut t: usize = 0;
            while t < len / 2
                invariant
                    top == layers@.len() - 1,
                    len == layers@[top as int]@.len(),
                    t <= len / 2,
                    next@.len() == t,
                    forall|u: int|
                        0 <= u < t ==> #[trigger] next@[u]@ == node_digest(
                            layers@[top as int]@[2 * u]@,
                            layers@[top as int]@[2 * u + 1]@,
                        ),
                decreases len / 2 - t,
            {
                let mut buf: Vec<u8> = Vec::new();
                append_digest(&mut buf, &layers[top][2 * t]);
                append_digest(&mut buf, &layers[top][2 * t + 1]);
                next.push(blake3_hash(buf.as_slice()));
                t = t + 1;
            }
            let ghost prev = level_view(layers@[top as int]@);
            proof {
                assert(level_view(next@) =~= pair_up(prev));
                assert(len % 2 == 0);
            }
            layers.push(next);
        }
        let r = MerkleTree { layers };
        proof {
            assert forall|k: int| 0 <= k < r.height() - 1 implies #[trigger] r.level_step(k) by {
                assert(level_view(r.layers@[k + 1]@) == pair_up(level_view(r.layers@[k]@)));
                assert(r.layers@[k]@.len() == 2 * r.layers@[k + 1]@.len());
            }
        }
        r
    }

    /// Commits to `values`, padded with zeros to a power-of-two length; each leaf is one
    /// element.
    pub fn new(values: &[M31]) -> (r: MerkleTree)
        requires
            values@.len() <= 0x4000_0000,
        ensures
            r.wf(),
            is_padded_level(r.level(0), values@),
            is_power_of_two(values@.len()) ==> r.level(0) == values@.map_values(
                |v: M31| leaf_digest(v),
            ),
            r.spec_root() == fold_root(r.level(0)),
    {
        let n = values.len();
        let mut size: usize = 1;
        while size < n
            invariant
                1 <= size <= 0x8000_0000,
                n <= 0x4000_0000,
                is_power_of_two(size as nat),
                size == 1 || size < 2 * n,
                is_power_of_two(n as nat) ==> size <= n,
            decreases 0x8000_0000 - size,
        {
            proof {
                if is_power_of_two(n as nat) {
                    lemma_power_of_two_gap(size as nat, n as nat);
                }
            }
            size = size * 2;
        }
        let mut level: Vec<[u8; 32]> = Vec::with_capacity(size);
        let mut j: usize = 0;
        while j < size
            invariant
                j <= size,
                n == values@.len(),
                level@.len() == j,
                forall|t: int|
                    0 <= t < j ==> #[trigger] level@[t]@ == leaf_digest(
                        if t < n {
                            values@[t]
                        } else {
                            M31::spec_zero()
                        },
                    ),
            decreases size - j,
        {
            let v = if j < n {
                values[j]
            } else {
                M31::zero()
            };
            let mut bytes: Vec<u8> = Vec::new();
            push_le32(&mut bytes, v.as_u32());
            proof {
                assert(bytes@ =~= le32_bytes(v@ as u32));
            }
            level.push(blake3_hash(bytes.as_slice()));
            j = j + 1;
        }
        proof {
            if is_power_of_two(n as nat) {
                assert(level_view(level@) =~= values@.map_values(|v: M31| leaf_digest(v)));
            }
        }
        MerkleTree::from_leaf_digests(level)
    }

    /// Commits to rows, one leaf per row hashed over its values' encodings; their
    /// number must be a power of two.
    pub fn from_rows(rows: &Vec<Vec<M31>>) -> (r: MerkleTree)
        requires
            is_power_of_two(rows@.len()),
        ensures
            r.wf(),
            r.level(0) == Seq::new(rows@.len(), |i: int| row_digest(rows@[i]@)),
            r.spec_root() == fold_root(r.level(0)),
    {
        let mut level: Vec<[u8; 32]> = Vec::with_capacity(rows.len());
        let mut j: usize = 0;
        while j < rows.len()
            invariant
                j <= rows@.len(),
                level@.len() == j,
                forall|t: int| 0 <= t < j ==> #[trigger] level@[t]@ == row_digest(rows@[t]@),
            decreases rows@.len() - j,
        {
            let bytes = encode_row(rows[j].as_slice());
            level.push(blake3_hash(bytes.as_slice()));
            j = j + 1;
        }
        proof {
            assert(level_view(level@) =~= Seq::new(rows@.len(), |i: int| row_digest(rows@[i]@)));
        }
        MerkleTree::from_leaf_digests(level)
    }

    /// The root digest.
    pub fn root(&self) -> (r: [u8; 32])
        requires
            self.wf(),
        ensures
            r@ == self.spec_root(),
    {
        let top = self.layers.len() - 1;
        self.layers[top][0]
    }

    /// The number of leaves, a power of two.
    pub fn num_leaves(&self) -> (r: usize)
        requires
            self.wf(),
        ensures
            r == self.level(0).len(),
    {
        self.layers[0].len()
    }

    /// The authentication path of leaf `index`: its sibling at every level, bottom-up.
    pub fn prove(&self, index: usize) -> (r: MerkleProof)
        requires
            self.wf(),
            index < self.level(0).len(),
        ensures
            r.leaf_index == index,
            path_root(self.level(0)[index as int], index as nat, r.path_view())
                == self.spec_root(),
    {
        let mut path: Vec<[u8; 32]> = Vec::new();
        let mut idx = index;
        let mut k: usize = 0;
        while k < self.layers.len() - 1
            invariant
                self.wf(),
                k < self.height(),
                idx == level_index(index as nat, k as nat),
                idx < self.level(k as int).len(),
                path@.len() == k,
                forall|t: int|
                    0 <= t < k ==> #[trigger] path@[t]@ == self.level(t)[sibling(
                        level_index(index as nat, t as nat),
                    ) as int],
            decreases self.height() - k,
        {
            let sib = if idx % 2 == 0 {
                idx + 1
            } else {
                idx - 1
            };
            proof {
                assert(self.level_step(k as int));
                assert(self.level(k as int) == level_view(self.layers@[k as int]@));
            }
            path.push(self.layers[k][sib]);
            idx = idx / 2;
            k = k + 1;
        }
        let r = MerkleProof { leaf_index: index, path };
        proof {
            assert forall|t: int| 0 <= t < r.path_view().len() implies #[trigger] r.path_view()[t]
                == self.level(0 + t)[sibling(level_index(index as nat, t as nat)) as int] by {
                assert(r.path_view()[t] == r.path@[t]@);
            }
            lemma_climb(self, 0, index as nat, r.path_view());
        }
        r
    }
}

proof fn lemma_level_index_shift(idx: nat, t: nat)
    ensures
        level_index(idx, t + 1) == level_index(idx / 2, t),
    decreases t,
{
    if t > 0 {
        lemma_level_index_shift(idx, (t - 1) as nat);
        assert(level_index(idx, t + 1) == level_index(idx, t) / 2);
        assert(level_index(idx / 2, t) == level_index(idx / 2, (t - 1) as nat) / 2);
    } else {
        assert(level_index(idx, 1) == level_index(idx, 0) / 2);
    }
}

/// From position `idx` of level `k`, the siblings of its ancestors lead to the root.
proof fn lemma_climb(tree: &MerkleTree, k: int, idx: nat, path: Seq<Seq<u8>>)
    requires
        tree.wf(),
        0 <= k < tree.height(),
        idx < tree.level(k).len(),
        path.len() == tree.height() - 1 - k,
        forall|t: int|
            0 <= t < path.len() ==> #[trigger] path[t] == tree.level(k + t)[sibling(
                level_index(idx, t as nat),
            ) as int],
    ensures
        path_root(tree.level(k)[idx as int], idx, path) == tree.spec_root(),
    decreases path.len(),
{
    if path.len() > 0 {
        let below = tree.level(k);
        let above = tree.level(k + 1);
        assert(tree.level_step(k));
        assert(above == pair_up(below));
        assert(below.len() == 2 * above.len());
        assert(path[0] == below[sibling(idx) as int]);
        let rest = path.drop_first();
        assert forall|t: int| 0 <= t < rest.len() implies #[trigger] rest[t] == tree.level(
            k + 1 + t,
        )[sibling(level_index(idx / 2, t as nat)) as int] by {
            lemma_level_index_shift(idx, t as nat);
            assert(rest[t] == path[t + 1]);
        }
        lemma_climb(tree, k + 1, idx / 2, rest);
    }
}

} // verus!
