//! Fiat-Shamir channel: a duplex sponge over Poseidon2 (width 16, rate 8) on Mersenne-31.
use crate::extension::QM31;
use crate::field::{modp, M31, P};
use p3_challenger::{CanObserve, CanSample, DuplexChallenger};
use p3_field::PrimeField32;
use p3_mersenne_31::{default_mersenne31_poseidon2_16, Mersenne31, Poseidon2Mersenne31};
use vstd::prelude::*;
use vstd::string::StringSliceAdditionalSpecFns;

verus! {

/// The Poseidon2 duplex sponge of p3-challenger, seen only through what it was fed.
#[verifier::external_body]
pub struct Sponge {
    inner: DuplexChallenger<Mersenne31, Poseidon2Mersenne31<16>, 16, 8>,
}

/// What a sponge has been fed since it was made, in order: `Some(x)` for an observed
/// element, `None` for a squeeze.
pub uninterp spec fn sponge_transcript(s: Sponge) -> Seq<Option<u32>>;

/// The element that a sponge squeezes after being fed `t`; the permutation's constants
/// are fixed, so it depends on `t` alone.
pub uninterp spec fn sponge_output(t: Seq<Option<u32>>) -> u32;

/// Relies on `DuplexChallenger::new` with the permutation of
/// `default_mersenne31_poseidon2_16` (fixed round constants): a fresh sponge with a zero
/// state and empty buffers.
#[verifier::external_body]
fn sponge_new() -> (r: Sponge)
    ensures
        sponge_transcript(r) == Seq::<Option<u32>>::empty(),
{
    Sponge { inner: DuplexChallenger::new(default_mersenne31_poseidon2_16()) }
}

/// Relies on `CanObserve::observe` of `DuplexChallenger`: absorbs one element.
#[verifier::external_body]
fn sponge_observe(s: &mut Sponge, x: u32)
    requires
        x < P,
    ensures
        sponge_transcript(*final(s)) == sponge_transcript(*old(s)).push(Some(x)),
{
    s.inner.observe(Mersenne31::new(x));
}

/// Relies on `CanSample::sample` of `DuplexChallenger` and on
/// `PrimeField32::as_canonical_u32`, whose result lies in `[0, p)`: squeezes one element.
#[verifier::external_body]
fn sponge_sample(s: &mut Sponge) -> (r: u32)
    ensures
        r < P,
        r == sponge_output(sponge_transcript(*old(s))),
        sponge_transcript(*final(s)) == sponge_transcript(*old(s)).push(None),
{
    let v: Mersenne31 = s.inner.sample();
    v.as_canonical_u32()
}

/// Relies on the derived `Clone` of `DuplexChallenger`, which copies the sponge state,
/// both buffers and the permutation: the copy continues exactly as the original would.
#[verifier::external_body]
fn sponge_clone(s: &Sponge) -> (r: Sponge)
    ensures
        sponge_transcript(r) == sponge_transcript(*s),
{
    Sponge { inner: s.inner.clone() }
}

/// Byte `i` of `data`, zero past its end.
pub open spec fn byte_or_zero(data: Seq<u8>, i: int) -> int {
    if i < data.len() {
        data[i] as int
    } else {
        0
    }
}

/// The element of chunk `k`: four bytes, zero-padded, little-endian, reduced mod p.
pub open spec fn chunk_value(data: Seq<u8>, k: int) -> u32 {
    modp(
        byte_or_zero(data, 4 * k) + byte_or_zero(data, 4 * k + 1) * 0x100 + byte_or_zero(
            data,
            4 * k + 2,
        ) * 0x1_0000 + byte_or_zero(data, 4 * k + 3) * 0x100_0000,
    ) as u32
}

/// Number of 4-byte chunks of `data`, the last one possibly short.
pub open spec fn num_chunks(data: Seq<u8>) -> nat {
    ((data.len() + 3) / 4) as nat
}

/// What absorbing `data` feeds the sponge: one element per 4-byte chunk.
pub open spec fn absorbed(data: Seq<u8>) -> Seq<Option<u32>> {
    Seq::new(num_chunks(data), |k: int| Some(chunk_value(data, k)))
}

/// `n` squeezes.
pub open spec fn squeezes(n: nat) -> Seq<Option<u32>> {
    Seq::new(n, |i: int| None::<u32>)
}

/// The `n` elements squeezed one after another from a sponge fed `t`.
pub open spec fn challenges(t: Seq<Option<u32>>, n: nat) -> Seq<u32> {
    Seq::new(n, |i: int| sponge_output(t + squeezes(i as nat)))
}

/// The element that closes a domain separator; no byte has this value.
pub const SEPARATOR_END: u32 = 256;

/// Transcript of a channel made with domain separator `ds`: each byte as one element,
/// then the closing element 256. The encoding is injective, and no continuation can make
/// two separators' transcripts meet (see `lemma_separators_apart`).
pub open spec fn initial_transcript(ds: Seq<u8>) -> Seq<Option<u32>> {
    ds.map_values(|b: u8| Some(b as u32)).push(Some(SEPARATOR_END))
}

/// The prover's and verifier's side of the Fiat-Shamir transcript.
pub struct ProverChannel {
    sponge: Sponge,
}

impl ProverChannel {
    /// Everything fed to the sponge so far.
    pub closed spec fn transcript(&self) -> Seq<Option<u32>> {
        sponge_transcript(self.sponge)
    }

    /// A channel whose sponge has absorbed the domain separator, byte by byte, then the
    /// closing element.
    pub fn new(domain_separator: &[u8]) -> (r: ProverChannel)
        ensures
            r.transcript() == initial_transcript(domain_separator@),
    {
        let mut ch = ProverChannel { sponge: sponge_new() };
        let ghost ds = domain_separator@;
        let mut i: usize = 0;
        proof {
            assert(ds.subrange(0, 0).map_values(|b: u8| Some(b as u32)) =~= Seq::<Option<u32>>::empty());
        }
        while i < domain_separator.len()
            invariant
                ds == domain_separator@,
                i <= ds.len(),
                ch.transcript() == ds.subrange(0, i as int).map_values(|b: u8| Some(b as u32)),
            decreases ds.len() - i,
        {
            sponge_observe(&mut ch.sponge, domain_separator[i] as u32);
            i = i + 1;
            proof {
                assert(ch.transcript() =~= ds.subrange(0, i as int).map_values(
                    |b: u8| Some(b as u32),
                ));
            }
        }
        sponge_observe(&mut ch.sponge, SEPARATOR_END);
        proof {
            assert(ds.subrange(0, i as int) =~= ds);
        }
        ch
    }

    /// Absorbs bytes: each 4-byte chunk, zero-padded and read little-endian, is reduced
    /// mod p and observed.
    pub fn absorb(&mut self, data: &[u8])
        ensures
            final(self).transcript() == old(self).transcript() + absorbed(data@),
    {
        let len = data.len();
        let n = len / 4 + if len % 4 != 0 {
            1
        } else {
            0
        };
        let ghost t0 = self.transcript();
        let mut k: usize = 0;
        while k < n
            invariant
                len == data@.len(),
                n == num_chunks(data@),
                k <= n,
                self.transcript() == t0 + absorbed(data@).subrange(0, k as int),
            decreases n - k,
        {
            let base = 4 * k;
            let rest = len - base;
            let b0 = data[base] as u32;
            let b1 = if rest > 1 {
                data[base + 1] as u32
            } else {
                0
            };
            let b2 = if rest > 2 {
                data[base + 2] as u32
            } else {
                0
            };
            let b3 = if rest > 3 {
                data[base + 3] as u32
            } else {
                0
            };
            let v = (b0 + b1 * 0x100 + b2 * 0x1_0000 + b3 * 0x100_0000) % P;
            sponge_observe(&mut self.sponge, v);
            k = k + 1;
            proof {
                assert(v == chunk_value(data@, k - 1));
                assert(self.transcript() =~= t0 + absorbed(data@).subrange(0, k as int));
            }
        }
        proof {
            assert(absorbed(data@).subrange(0, k as int) =~= absorbed(data@));
        }
    }

    /// Absorbs a 32-byte commitment as eight elements.
    pub fn absorb_commitment(&mut self, commitment: &[u8; 32])
        ensures
            final(self).transcript() == old(self).transcript() + absorbed(commitment@),
    {
        self.absorb(commitment.as_slice());
    }

    /// Absorbs one field element.
    pub fn absorb_felt(&mut self, felt: M31)
        ensures
            final(self).transcript() == old(self).transcript().push(Some(felt@ as u32)),
    {
        sponge_observe(&mut self.sponge, felt.value());
    }

    /// Squeezes one challenge.
    pub fn squeeze_challenge(&mut self) -> (r: M31)
        ensures
            r@ == sponge_output(old(self).transcript()),
            final(self).transcript() == old(self).transcript().push(None),
    {
        let v = sponge_sample(&mut self.sponge);
        M31::new(v)
    }

    /// Squeezes an extension challenge from four consecutive elements.
    pub fn squeeze_extension_challenge(&mut self) -> (r: QM31)
        ensures
            r@ == (
                challenges(old(self).transcript(), 4)[0] as int,
                challenges(old(self).transcript(), 4)[1] as int,
                challenges(old(self).transcript(), 4)[2] as int,
                challenges(old(self).transcript(), 4)[3] as int,
            ),
            final(self).transcript() == old(self).transcript() + squeezes(4),
    {
        let ghost t = self.transcript();
        let c0 = self.squeeze_challenge();
        let c1 = self.squeeze_challenge();
        let c2 = self.squeeze_challenge();
        let c3 = self.squeeze_challenge();
        proof {
            assert(t + squeezes(0) =~= t);
            assert(t + squeezes(1) =~= t.push(None));
            assert(t + squeezes(2) =~= t.push(None).push(None));
            assert(t + squeezes(3) =~= t.push(None).push(None).push(None));
            assert(t + squeezes(4) =~= t.push(None).push(None).push(None).push(None));
            assert(challenges(t, 4)[0] == sponge_output(t + squeezes(0)));
            assert(challenges(t, 4)[1] == sponge_output(t + squeezes(1)));
            assert(challenges(t, 4)[2] == sponge_output(t + squeezes(2)));
            assert(challenges(t, 4)[3] == sponge_output(t + squeezes(3)));
        }
        QM31::new(c0, c1, c2, c3)
    }

    /// The same as `squeeze_extension_challenge`.
    pub fn squeeze_qm31(&mut self) -> (r: QM31)
        ensures
            r@ == (
                challenges(old(self).transcript(), 4)[0] as int,
                challenges(old(self).transcript(), 4)[1] as int,
                challenges(old(self).transcript(), 4)[2] as int,
                challenges(old(self).transcript(), 4)[3] as int,
            ),
            final(self).transcript() == old(self).transcript() + squeezes(4),
    {
        self.squeeze_extension_challenge()
    }

    /// Squeezes `n` indices, each an element reduced mod `domain_size`.
    pub fn squeeze_query_indices(&mut self, n: usize, domain_size: usize) -> (r: Vec<usize>)
        requires
            domain_size > 0,
        ensures
            r@.len() == n,
            forall|i: int|
                0 <= i < n ==> #[trigger] r@[i] == challenges(old(self).transcript(), n as nat)[i] as int
                    % domain_size as int,
            final(self).transcript() == old(self).transcript() + squeezes(n as nat),
    {
        let ghost t = self.transcript();
        let mut indices: Vec<usize> = Vec::with_capacity(n);
        let mut i: usize = 0;
        proof {
            assert(t + squeezes(0) =~= t);
        }
        while i < n
            invariant
                domain_size > 0,
                i <= n,
                indices@.len() == i,
                self.transcript() == t + squeezes(i as nat),
                forall|j: int|
                    0 <= j < i ==> #[trigger] indices@[j] == sponge_output(t + squeezes(j as nat)) as int
                        % domain_size as int,
            decreases n - i,
        {
            let v = self.squeeze_challenge().value() as usize;
            indices.push(v % domain_size);
            proof {
                assert((t + squeezes(i as nat)).push(None) =~= t + squeezes((i + 1) as nat));
            }
            i = i + 1;
        }
        indices
    }
}

impl Clone for ProverChannel {
    /// A channel with the same transcript, which draws the same challenges from here on.
    fn clone(&self) -> (r: ProverChannel)
        ensures
            r.transcript() == self.transcript(),
    {
        ProverChannel { sponge: sponge_clone(&self.sponge) }
    }
}

impl Default for ProverChannel {
    /// A channel with the domain separator `zp1-default`.
    fn default() -> (r: ProverChannel)
        ensures
            r.transcript() == initial_transcript("zp1-default".spec_bytes()),
    {
        ProverChannel::new("zp1-default".as_bytes())
    }
}

/// Distinct domain separators keep transcripts apart: whatever the two channels are fed
/// afterwards, as long as it is the same, their transcripts differ.
pub proof fn lemma_separators_apart(d1: Seq<u8>, d2: Seq<u8>, fed: Seq<Option<u32>>)
    requires
        d1 != d2,
    ensures
        initial_transcript(d1) + fed != initial_transcript(d2) + fed,
{
    let t1 = initial_transcript(d1);
    let t2 = initial_transcript(d2);
    if t1 + fed == t2 + fed {
        assert((t1 + fed).len() == (t2 + fed).len());
        assert(t1.len() == d1.len() + 1 && t2.len() == d2.len() + 1);
        assert(t1.len() == t2.len());
        assert forall|i: int| 0 <= i < d1.len() implies d1[i] == d2[i] by {
            assert((t1 + fed)[i] == t1[i]);
            assert((t2 + fed)[i] == t2[i]);
        }
        assert(d1 =~= d2);
    }
}

/// Channels whose transcripts agree draw the same challenges, however many are drawn,
/// and their transcripts still agree afterwards; the transcript of a fresh channel
/// depends on its domain separator alone, and each absorb extends it by a function of
/// the absorbed bytes alone.
pub proof fn lemma_channel_determinism(a: &ProverChannel, b: &ProverChannel, n: nat)
    requires
        a.transcript() == b.transcript(),
    ensures
        challenges(a.transcript(), n) == challenges(b.transcript(), n),
        a.transcript() + squeezes(n) == b.transcript() + squeezes(n),
{
}

} // verus!
