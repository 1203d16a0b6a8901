//! Binary encoding of verification keys.
//!
//! A key is 108 bytes: the five sizes of its configuration as 8-byte little-endian
//! integers, the entry point as a 4-byte little-endian integer, then the constraints hash
//! and the public-inputs hash as raw 32-byte strings.
use crate::elf::{le32_bytes, push_le32};
use crate::memory::{le32, read_le32};
use vstd::prelude::*;

verus! {

/// Length of an encoded verification key.
pub const KEY_BYTES: usize = 108;

/// Proof configuration.
#[derive(Clone, Copy, Debug, PartialEq, Eq, Structural)]
pub struct ProofConfig {
    pub log_trace_len: usize,
    pub blowup_factor: usize,
    pub num_queries: usize,
    pub fri_folding_factor: usize,
    pub security_bits: usize,
    pub entry_point: u32,
}

/// Verification key: the configuration and the hashes a proof is checked against.
#[derive(Clone, Copy, Debug, PartialEq, Eq)]
pub struct VerificationKey {
    pub config: ProofConfig,
    pub constraints_hash: [u8; 32],
    pub public_inputs_hash: [u8; 32],
}

/// Why bytes are not an encoded key.
#[derive(Clone, Copy, Debug, PartialEq, Eq, Structural)]
pub enum KeyDecodeError {
    /// Not 108 bytes long.
    WrongLength { expected: usize, got: usize },
    /// A size does not fit in `usize`.
    SizeTooLarge { offset: usize },
}

/// The eight little-endian bytes of `x`.
pub open spec fn le64_bytes(x: u64) -> Seq<u8> {
    le32_bytes((x % 0x1_0000_0000) as u32) + le32_bytes((x / 0x1_0000_0000) as u32)
}

/// The 64-bit little-endian value at `o`.
pub open spec fn le64(d: Seq<u8>, o: int) -> int {
    le32(d, o) + le32(d, o + 4) * 0x1_0000_0000
}

/// The encoding of a configuration: 44 bytes.
pub open spec fn config_bytes(c: ProofConfig) -> Seq<u8> {
    le64_bytes(c.log_trace_len as u64) + le64_bytes(c.blowup_factor as u64) + le64_bytes(
        c.num_queries as u64,
    ) + le64_bytes(c.fri_folding_factor as u64) + le64_bytes(c.security_bits as u64)
        + le32_bytes(c.entry_point)
}

/// The encoding of a key: 108 bytes.
pub open spec fn key_bytes(k: VerificationKey) -> Seq<u8> {
    config_bytes(k.config) + k.constraints_hash@ + k.public_inputs_hash@
}

/// The first of the five size offsets whose value does not fit in `usize`, if any.
pub open spec fn oversized(b: Seq<u8>) -> Option<usize> {
    if le64(b, 0) > usize::MAX {
        Some(0)
    } else if le64(b, 8) > usize::MAX {
        Some(8)
    } else if le64(b, 16) > usize::MAX {
        Some(16)
    } else if le64(b, 24) > usize::MAX {
        Some(24)
    } else if le64(b, 32) > usize::MAX {
        Some(32)
    } else {
        None
    }
}

/// The configuration and the two hashes that `b` encodes, or why it encodes none.
pub open spec fn decode_key(b: Seq<u8>) -> Result<(ProofConfig, Seq<u8>, Seq<u8>), KeyDecodeError> {
    if b.len() != 108 {
        Err(KeyDecodeError::WrongLength { expected: 108, got: b.len() as usize })
    } else if oversized(b) is Some {
        Err(KeyDecodeError::SizeTooLarge { offset: oversized(b)->0 })
    } else {
        Ok(
            (
                ProofConfig {
                    log_trace_len: le64(b, 0) as usize,
                    blowup_factor: le64(b, 8) as usize,
                    num_queries: le64(b, 16) as usize,
                    fri_folding_factor: le64(b, 24) as usize,
                    security_bits: le64(b, 32) as usize,
                    entry_point: le32(b, 40) as u32,
                },
                b.subrange(44, 76),
                b.subrange(76, 108),
            ),
        )
    }
}

proof fn lemma_le32_round_trip(y: u32)
    ensures
        le32(le32_bytes(y), 0) == y,
{
    let b = le32_bytes(y);
    let y0 = y as int;
    assert(b[0] == y0 % 0x100);
    assert(b[1] == (y0 / 0x100) % 0x100);
    assert(b[2] == (y0 / 0x1_0000) % 0x100);
    assert(b[3] == y0 / 0x100_0000);
    assert(y0 % 0x100 + ((y0 / 0x100) % 0x100) * 0x100 + ((y0 / 0x1_0000) % 0x100) * 0x1_0000 + (
    y0 / 0x100_0000) * 0x100_0000 == y0) by (nonlinear_arith)
        requires
            0 <= y0 < 0x1_0000_0000,
    ;
}

proof fn lemma_le64_round_trip(x: u64)
    ensures
        le64(le64_bytes(x), 0) == x,
{
    let lo = (x % 0x1_0000_0000) as u32;
    let hi = (x / 0x1_0000_0000) as u32;
    lemma_le32_round_trip(lo);
    lemma_le32_round_trip(hi);
    let s = le64_bytes(x);
    assert(s.subrange(0, 4) =~= le32_bytes(lo));
    assert(s.subrange(4, 8) =~= le32_bytes(hi));
    assert(le32(s, 0) == le32(le32_bytes(lo), 0));
    assert(le32(s, 4) == le32(le32_bytes(hi), 0));
}

proof fn lemma_le32_prefix(a: Seq<u8>, r: Seq<u8>, o: int)
    requires
        0 <= o,
        o + 4 <= a.len(),
    ensures
        le32(a + r, o) == le32(a, o),
{
}

proof fn lemma_le32_suffix(a: Seq<u8>, r: Seq<u8>, o: int)
    requires
        0 <= o,
        o + 4 <= r.len(),
    ensures
        le32(a + r, a.len() + o) == le32(r, o),
{
}

proof fn lemma_le64_prefix(a: Seq<u8>, r: Seq<u8>, o: int)
    requires
        0 <= o,
        o + 8 <= a.len(),
    ensures
        le64(a + r, o) == le64(a, o),
{
    lemma_le32_prefix(a, r, o);
    lemma_le32_prefix(a, r, o + 4);
}

proof fn lemma_le64_suffix(a: Seq<u8>, r: Seq<u8>, o: int)
    requires
        0 <= o,
        o + 8 <= r.len(),
    ensures
        le64(a + r, a.len() + o) == le64(r, o),
{
    lemma_le32_suffix(a, r, o);
    lemma_le32_suffix(a, r, o + 4);
}

/// The configuration's fields read back from its encoding.
#[verifier::rlimit(80)]
proof fn lemma_config_round_trip(c: ProofConfig)
    ensures
        config_bytes(c).len() == 44,
        le64(config_bytes(c), 0) == c.log_trace_len,
        le64(config_bytes(c), 8) == c.blowup_factor,
        le64(config_bytes(c), 16) == c.num_queries,
        le64(config_bytes(c), 24) == c.fri_folding_factor,
        le64(config_bytes(c), 32) == c.security_bits,
        le32(config_bytes(c), 40) == c.entry_point,
{
    let f0 = le64_bytes(c.log_trace_len as u64);
    let f1 = le64_bytes(c.blowup_factor as u64);
    let f2 = le64_bytes(c.num_queries as u64);
    let f3 = le64_bytes(c.fri_folding_factor as u64);
    let f4 = le64_bytes(c.security_bits as u64);
    let f5 = le32_bytes(c.entry_point);
    lemma_le64_round_trip(c.log_trace_len as u64);
    lemma_le64_round_trip(c.blowup_factor as u64);
    lemma_le64_round_trip(c.num_queries as u64);
    lemma_le64_round_trip(c.fri_folding_factor as u64);
    lemma_le64_round_trip(c.security_bits as u64);
    lemma_le32_round_trip(c.entry_point);
    let p1 = f0 + f1;
    let p2 = p1 + f2;
    let p3 = p2 + f3;
    let p4 = p3 + f4;
    let all = p4 + f5;
    assert(config_bytes(c) == all);
    assert(f0.len() == 8 && f1.len() == 8 && f2.len() == 8 && f3.len() == 8 && f4.len() == 8);
    assert(le64(all, 0) == c.log_trace_len) by {
        lemma_le64_prefix(p4, f5, 0);
        lemma_le64_prefix(p3, f4, 0);
        lemma_le64_prefix(p2, f3, 0);
        lemma_le64_prefix(p1, f2, 0);
        lemma_le64_prefix(f0, f1, 0);
    }
    assert(le64(all, 8) == c.blowup_factor) by {
        lemma_le64_prefix(p4, f5, 8);
        lemma_le64_prefix(p3, f4, 8);
        lemma_le64_prefix(p2, f3, 8);
        lemma_le64_prefix(p1, f2, 8);
        lemma_le64_suffix(f0, f1, 0);
    }
    assert(le64(all, 16) == c.num_queries) by {
        lemma_le64_prefix(p4, f5, 16);
        lemma_le64_prefix(p3, f4, 16);
        lemma_le64_prefix(p2, f3, 16);
        lemma_le64_suffix(p1, f2, 0);
    }
    assert(le64(all, 24) == c.fri_folding_factor) by {
        lemma_le64_prefix(p4, f5, 24);
        lemma_le64_prefix(p3, f4, 24);
        lemma_le64_suffix(p2, f3, 0);
    }
    assert(le64(all, 32) == c.security_bits) by {
        lemma_le64_prefix(p4, f5, 32);
        lemma_le64_suffix(p3, f4, 0);
    }
    assert(le32(all, 40) == c.entry_point) by {
        lemma_le32_suffix(p4, f5, 0);
    }
}

/// Decoding the encoding of a key gives back its configuration and hashes.
pub proof fn lemma_key_round_trip(k: VerificationKey)
    ensures
        decode_key(key_bytes(k)) == Ok::<(ProofConfig, Seq<u8>, Seq<u8>), KeyDecodeError>(
            (k.config, k.constraints_hash@, k.public_inputs_hash@),
        ),
{
    let cfg = config_bytes(k.config);
    let h1 = k.constraints_hash@;
    let h2 = k.public_inputs_hash@;
    lemma_config_round_trip(k.config);
    let q = cfg + h1;
    let b = q + h2;
    assert(key_bytes(k) == b);
    lemma_le64_prefix(q, h2, 0);
    lemma_le64_prefix(cfg, h1, 0);
    lemma_le64_prefix(q, h2, 8);
    lemma_le64_prefix(cfg, h1, 8);
    lemma_le64_prefix(q, h2, 16);
    lemma_le64_prefix(cfg, h1, 16);
    lemma_le64_prefix(q, h2, 24);
    lemma_le64_prefix(cfg, h1, 24);
    lemma_le64_prefix(q, h2, 32);
    lemma_le64_prefix(cfg, h1, 32);
    lemma_le32_prefix(q, h2, 40);
    lemma_le32_prefix(cfg, h1, 40);
    assert(b.subrange(44, 76) =~= h1);
    assert(b.subrange(76, 108) =~= h2);
}

fn push_le64(v: &mut Vec<u8>, x: u64)
    ensures
        final(v)@ == old(v)@ + le64_bytes(x),
{
    push_le32(v, (x % 0x1_0000_0000) as u32);
    push_le32(v, (x / 0x1_0000_0000) as u32);
    proof {
        assert(final(v)@ =~= old(v)@ + le64_bytes(x));
    }
}

fn read_le64(d: &[u8], o: usize) -> (r: u64)
    requires
        o + 8 <= d@.len(),
    ensures
        r == le64(d@, o as int),
{
    let len = d.len();
    let lo = read_le32(d, o) as u64;
    let hi = read_le32(d, o + 4) as u64;
    lo + hi * 0x1_0000_0000
}

fn copy_hash(d: &[u8], o: usize) -> (r: [u8; 32])
    requires
        o + 32 <= d@.len(),
    ensures
        r@ == d@.subrange(o as int, o + 32),
{
    let len = d.len();
    let mut h = [0u8; 32];
    let mut i: usize = 0;
    while i < 32
        invariant
            len == d@.len(),
            o + 32 <= d@.len(),
            i <= 32,
            h@.len() == 32,
            forall|j: int| 0 <= j < i ==> #[trigger] h@[j] == d@[o + j],
        decreases 32 - i,
    {
        h[i] = d[o + i];
        i = i + 1;
    }
    proof {
        assert(h@ =~= d@.subrange(o as int, o + 32));
    }
    h
}

impl VerificationKey {
    /// The 108-byte encoding.
    pub fn to_bytes(&self) -> (r: Vec<u8>)
        ensures
            r@ == key_bytes(*self),
    {
        let c = &self.config;
        let mut out: Vec<u8> = Vec::with_capacity(KEY_BYTES);
        push_le64(&mut out, c.log_trace_len as u64);
        push_le64(&mut out, c.blowup_factor as u64);
        push_le64(&mut out, c.num_queries as u64);
        push_le64(&mut out, c.fri_folding_factor as u64);
        push_le64(&mut out, c.security_bits as u64);
        push_le32(&mut out, c.entry_point);
        let ghost head = out@;
        let mut i: usize = 0;
        while i < 32
            invariant
                i <= 32,
                out@ == head + self.constraints_hash@.subrange(0, i as int),
            decreases 32 - i,
        {
            out.push(self.constraints_hash[i]);
            i = i + 1;
            proof {
                assert(out@ =~= head + self.constraints_hash@.subrange(0, i as int));
            }
        }
        let ghost mid = out@;
        let mut j: usize = 0;
        while j < 32
            invariant
                j <= 32,
                out@ == mid + self.public_inputs_hash@.subrange(0, j as int),
            decreases 32 - j,
        {
            out.push(self.public_inputs_hash[j]);
            j = j + 1;
            proof {
                assert(out@ =~= mid + self.public_inputs_hash@.subrange(0, j as int));
            }
        }
        proof {
            assert(self.constraints_hash@.subrange(0, 32) =~= self.constraints_hash@);
            assert(self.public_inputs_hash@.subrange(0, 32) =~= self.public_inputs_hash@);
        }
        out
    }

    /// The key that `bytes` encodes.
    pub fn from_bytes(bytes: &[u8]) -> (r: Result<VerificationKey, KeyDecodeError>)
        ensures
            match decode_key(bytes@) {
                Ok((c, h1, h2)) => r matches Ok(k) && k.config == c && k.constraints_hash@ == h1
                    && k.public_inputs_hash@ == h2,
                Err(e) => r == Err::<VerificationKey, KeyDecodeError>(e),
            },
    {
        if bytes.len() != KEY_BYTES {
            return Err(KeyDecodeError::WrongLength { expected: KEY_BYTES, got: bytes.len() });
        }
        let s0 = read_le64(bytes, 0);
        if s0 > usize::MAX as u64 {
            return Err(KeyDecodeError::SizeTooLarge { offset: 0 });
        }
        let s1 = read_le64(bytes, 8);
        if s1 > usize::MAX as u64 {
            return Err(KeyDecodeError::SizeTooLarge { offset: 8 });
        }
        let s2 = read_le64(bytes, 16);
        if s2 > usize::MAX as u64 {
            return Err(KeyDecodeError::SizeTooLarge { offset: 16 });
        }
        let s3 = read_le64(bytes, 24);
        if s3 > usize::MAX as u64 {
            return Err(KeyDecodeError::SizeTooLarge { offset: 24 });
        }
        let s4 = read_le64(bytes, 32);
        if s4 > usize::MAX as u64 {
            return Err(KeyDecodeError::SizeTooLarge { offset: 32 });
        }
        let constraints_hash = copy_hash(bytes, 44);
        let public_inputs_hash = copy_hash(bytes, 76);
        let key = VerificationKey {
            config: ProofConfig {
                log_trace_len: s0 as usize,
                blowup_factor: s1 as usize,
                num_queries: s2 as usize,
                fri_folding_factor: s3 as usize,
                security_bits: s4 as usize,
                entry_point: read_le32(bytes, 40),
            },
            constraints_hash,
            public_inputs_hash,
        };
        proof {
            assert(oversized(bytes@) is None);
        }
        Ok(key)
    }
}

} // verus!
