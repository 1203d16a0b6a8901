use zp1::channel::ProverChannel;
use zp1::field::M31;
use zp1::hex;
use zp1::merkle::{MerkleProof, MerkleTree};
use zp1::prover::StarkProver;
use zp1::serialize::{KeyDecodeError, ProofConfig, VerificationKey};
use zp1::stark::{ConstraintEvaluator, StarkConfig};
use zp1::verify::{compute_fold, evaluate_poly, Verifier, VerifierConfig, VerifyError};

fn leaf_hash(v: u32) -> [u8; 32] {
    *blake3::hash(&v.to_le_bytes()).as_bytes()
}

fn node_hash(l: &[u8; 32], r: &[u8; 32]) -> [u8; 32] {
    let mut buf = Vec::new();
    buf.extend_from_slice(l);
    buf.extend_from_slice(r);
    *blake3::hash(&buf).as_bytes()
}

#[test]
fn test_channel_deterministic() {
    let mut ch1 = ProverChannel::new(b"test");
    let mut ch2 = ProverChannel::new(b"test");
    ch1.absorb(b"test data");
    ch2.absorb(b"test data");
    let c1 = ch1.squeeze_challenge();
    let c2 = ch2.squeeze_challenge();
    assert_eq!(c1, c2);
}

#[test]
fn test_query_indices() {
    let mut ch = ProverChannel::new(b"test");
    ch.absorb(b"seed");
    let indices = ch.squeeze_query_indices(10, 1024);
    assert_eq!(indices.len(), 10);
    for &idx in &indices {
        assert!(idx < 1024);
    }
}

#[test]
fn channel_sequences_agree_and_depend_on_input() {
    let mut a = ProverChannel::new(b"domain");
    let mut b = ProverChannel::new(b"domain");
    let mut c = ProverChannel::new(b"other");
    for ch in [&mut a, &mut b, &mut c] {
        ch.absorb_felt(M31::new(5));
        ch.absorb_commitment(&[7u8; 32]);
    }
    let sa: Vec<u32> = (0..6).map(|_| a.squeeze_challenge().value()).collect();
    let sb: Vec<u32> = (0..6).map(|_| b.squeeze_challenge().value()).collect();
    let sc: Vec<u32> = (0..6).map(|_| c.squeeze_challenge().value()).collect();
    assert_eq!(sa, sb);
    assert_ne!(sa, sc);
    assert_eq!(a.squeeze_qm31(), b.squeeze_qm31());
}

#[test]
fn separators_differing_by_trailing_zero_are_apart() {
    let mut a = ProverChannel::new(b"a");
    let mut b = ProverChannel::new(b"a\0");
    let mut c = ProverChannel::new(&[0xff, 0xff, 0xff, 0x7f]);
    let mut d = ProverChannel::new(&[0, 0, 0, 0]);
    assert_ne!(a.squeeze_challenge(), b.squeeze_challenge());
    assert_ne!(c.squeeze_challenge(), d.squeeze_challenge());
}

#[test]
fn cloned_channel_draws_the_same_challenges() {
    let mut a = ProverChannel::new(b"clone");
    a.absorb(b"state");
    let mut b = a.clone();
    assert_eq!(a.squeeze_challenge(), b.squeeze_challenge());
    assert_eq!(a.squeeze_qm31(), b.squeeze_qm31());
}

#[test]
fn default_channel_uses_its_own_separator() {
    let mut a = ProverChannel::default();
    let mut b = ProverChannel::new(b"zp1-default");
    let mut c = ProverChannel::new(b"zp1-other");
    let x = a.squeeze_challenge();
    assert_eq!(x, b.squeeze_challenge());
    assert_ne!(x, c.squeeze_challenge());
}

#[test]
fn test_hex_roundtrip() {
    let bytes = [
        0xab, 0xcd, 0xef, 0x01, 0x23, 0x45, 0x67, 0x89, 0xab, 0xcd, 0xef, 0x01, 0x23, 0x45, 0x67,
        0x89, 0xab, 0xcd, 0xef, 0x01, 0x23, 0x45, 0x67, 0x89, 0xab, 0xcd, 0xef, 0x01, 0x23, 0x45,
        0x67, 0x89,
    ];
    let encoded = hex::encode(&bytes);
    let decoded = hex::decode(&encoded).unwrap();
    assert_eq!(decoded, bytes.to_vec());
}

#[test]
fn hex_text_and_errors() {
    assert_eq!(hex::encode(&[0x00, 0x0f, 0xa0, 0xff]), "000fa0ff");
    assert_eq!(hex::decode("DEADbeef").unwrap(), vec![0xde, 0xad, 0xbe, 0xef]);
    assert_eq!(hex::decode("abc"), Err(hex::HexError::OddLength));
    assert_eq!(hex::decode("zz"), Err(hex::HexError::InvalidDigit));
    assert_eq!(hex::decode("").unwrap(), Vec::<u8>::new());
}

#[test]
fn test_stark_config() {
    let config = StarkConfig::for_trace_len(10);
    assert_eq!(config.trace_len(), 1024);
    assert_eq!(config.lde_domain_size(), 8192);
}

#[test]
fn test_simple_proof() {
    let trace_len = 8;
    let clock: Vec<M31> = (0..trace_len).map(|i| M31::new(i as u32)).collect();
    let config = StarkConfig { log_trace_len: 3, blowup_factor: 4, num_queries: 3, fri_folding_factor: 2 };
    let mut prover = StarkProver::new(config);
    let proof = prover.prove(vec![clock]);
    assert_eq!(proof.trace_commitment.len(), 32);
    assert_eq!(proof.composition_commitment.len(), 32);
    assert_eq!(proof.query_proofs.len(), 3);
}

fn clock_proof() -> zp1::stark::StarkProof {
    let clock: Vec<M31> = (0..8).map(|i| M31::new(i)).collect();
    let config = StarkConfig { log_trace_len: 3, blowup_factor: 4, num_queries: 3, fri_folding_factor: 2 };
    StarkProver::new(config).prove(vec![clock])
}

fn clock_verifier_with_bound(fri_final_degree: usize) -> Verifier {
    Verifier::new(VerifierConfig {
        log_trace_len: 3,
        blowup_factor: 4,
        num_queries: 3,
        fri_folding_factor: 4,
        fri_final_degree,
    })
}

fn clock_verifier() -> Verifier {
    Verifier::new(VerifierConfig {
        log_trace_len: 3,
        blowup_factor: 4,
        num_queries: 3,
        fri_folding_factor: 2,
        ..Default::default()
    })
}

#[test]
fn clock_trace_proves_and_verifies() {
    let proof = clock_proof();
    assert_eq!(proof.query_proofs.len(), 3);
    assert_eq!(proof.fri_proof.layer_commitments.len(), 2);
    assert!(clock_verifier_with_bound(100).verify(&proof).is_ok());
    assert_eq!(proof.fri_proof.final_poly.len(), 8);
    assert_eq!(proof.fri_proof.query_proofs.len(), 3);
    for q in &proof.query_proofs {
        assert!(q.index < 32);
        assert_eq!(q.trace_values.len(), 1);
        assert_eq!(q.trace_proof.path.len(), 5);
    }
    assert_eq!(clock_verifier().verify(&proof), Ok(()));
}

#[test]
fn extension_agrees_with_trace_rows() {
    let clock: Vec<M31> = (0..8).map(|i| M31::new(i * 3 + 1)).collect();
    let lde = zp1::lde::TraceLDE::new(&vec![clock.clone()], 4);
    assert_eq!(lde.domain_size(), 32);
    for j in 0..8 {
        assert_eq!(lde.get(0, 4 * j), clock[j]);
    }
    assert_eq!(lde.get(0, 2), M31::new(5).mul(M31::new(2).inv()));
}

#[test]
fn tampered_proofs_are_rejected() {
    let verifier = clock_verifier();
    let mut p = clock_proof();
    p.trace_commitment[0] ^= 1;
    assert_ne!(verifier.verify(&p), Ok(()));
    let mut p = clock_proof();
    p.composition_commitment[31] ^= 0x80;
    assert_ne!(verifier.verify(&p), Ok(()));
    let mut p = clock_proof();
    p.query_proofs[0].composition_value = p.query_proofs[0].composition_value.add(M31::one());
    assert!(matches!(verifier.verify(&p), Err(VerifyError::MerkleError { .. })));
    let mut p = clock_proof();
    p.fri_proof.final_poly[0] = p.fri_proof.final_poly[0].add(M31::one());
    p.fri_proof.final_poly[1] = p.fri_proof.final_poly[1].add(M31::one());
    p.fri_proof.final_poly[2] = p.fri_proof.final_poly[2].add(M31::one());
    p.fri_proof.final_poly[3] = p.fri_proof.final_poly[3].add(M31::one());
    p.fri_proof.final_poly[4] = p.fri_proof.final_poly[4].add(M31::one());
    p.fri_proof.final_poly[5] = p.fri_proof.final_poly[5].add(M31::one());
    p.fri_proof.final_poly[6] = p.fri_proof.final_poly[6].add(M31::one());
    p.fri_proof.final_poly[7] = p.fri_proof.final_poly[7].add(M31::one());
    assert!(matches!(verifier.verify(&p), Err(VerifyError::FriError { .. })));
    let mut p = clock_proof();
    p.query_proofs.pop();
    assert!(matches!(verifier.verify(&p), Err(VerifyError::InvalidProof { .. })));
    let mut p = clock_proof();
    p.fri_proof.final_poly.push(M31::zero());
    assert_eq!(verifier.verify(&p), Err(VerifyError::DegreeBoundError { got: 9, max: 8 }));
}

#[test]
fn test_verifier_creation() {
    let config = VerifierConfig { log_trace_len: 10, blowup_factor: 8, num_queries: 30, ..Default::default() };
    let verifier = Verifier::new(config.clone());
    assert_eq!(verifier.config.log_trace_len, 10);
    assert_eq!(config.lde_domain_size(), 1024 * 8);
}

#[test]
fn test_verifier_legacy() {
    let verifier = Verifier::new_legacy(10, 3, 30);
    assert_eq!(verifier.config.log_trace_len, 10);
    assert_eq!(verifier.config.blowup_factor, 8);
}

#[test]
fn test_verifier_config_default() {
    let config = VerifierConfig::default();
    assert_eq!(config.log_trace_len, 10);
    assert_eq!(config.blowup_factor, 8);
    assert_eq!(config.num_queries, 50);
    assert_eq!(config.log_lde_domain_size(), 13);
}

#[test]
fn test_merkle_proof_verify() {
    let proof = MerkleProof { leaf_index: 0, path: vec![] };
    let leaf = M31::new(42);
    let mut hasher = blake3::Hasher::new();
    hasher.update(&leaf.as_u32().to_le_bytes());
    let root = *hasher.finalize().as_bytes();
    assert!(proof.verify(&root, leaf));
    assert!(!proof.verify(&root, M31::new(43)));
}

#[test]
fn merkle_path_of_third_leaf() {
    let leaves = [M31::new(1), M31::new(2), M31::new(3), M31::new(4)];
    let tree = MerkleTree::new(&leaves);
    let left = node_hash(&leaf_hash(1), &leaf_hash(2));
    let right = node_hash(&leaf_hash(3), &leaf_hash(4));
    assert_eq!(tree.root(), node_hash(&left, &right));
    let proof = tree.prove(2);
    assert_eq!(proof.path, vec![leaf_hash(4), left]);
    assert!(proof.verify(&tree.root(), M31::new(3)));
    for k in 0..2 {
        let mut bad = proof.clone();
        bad.path[k][0] ^= 1;
        assert!(!bad.verify(&tree.root(), M31::new(3)));
    }
    assert!(!proof.verify(&tree.root(), M31::new(4)));
}

#[test]
fn merkle_tree_pads_with_zeros() {
    let tree = MerkleTree::new(&[M31::new(1), M31::new(2), M31::new(3)]);
    assert_eq!(tree.num_leaves(), 4);
    let padded = MerkleTree::new(&[M31::new(1), M31::new(2), M31::new(3), M31::zero()]);
    assert_eq!(tree.root(), padded.root());
    assert_eq!(MerkleTree::new(&[]).root(), leaf_hash(0));
}

#[test]
fn test_fri_fold() {
    let folded = compute_fold(M31::new(10), M31::new(20), M31::new(3));
    assert_eq!(folded.as_u32(), 70);
}

#[test]
fn test_evaluate_poly() {
    let coeffs = vec![M31::new(1), M31::new(2), M31::new(3)];
    assert_eq!(evaluate_poly(&coeffs, M31::zero()).as_u32(), 1);
    assert_eq!(evaluate_poly(&coeffs, M31::one()).as_u32(), 6);
    assert_eq!(evaluate_poly(&coeffs, M31::new(2)).as_u32(), 17);
    assert_eq!(evaluate_poly(&[], M31::new(2)).as_u32(), 0);
}

#[test]
fn constraint_evaluator_combines_boundary_and_transition() {
    let ev = ConstraintEvaluator::new(1, 2);
    assert_eq!(ev.num_cols, 1);
    let alphas = [M31::new(2), M31::new(3)];
    assert_eq!(ev.evaluate(&[M31::new(5)], &[M31::new(6)], &alphas, true).value(), 10);
    assert_eq!(ev.evaluate(&[M31::new(5)], &[M31::new(8)], &alphas, false).value(), 6);
    assert_eq!(ev.evaluate(&[M31::new(5)], &[M31::new(8)], &[], true).value(), 7);
    assert_eq!(ev.evaluate(&[], &[M31::new(8)], &alphas, true).value(), 0);
}

#[test]
fn every_trace_column_is_committed() {
    let clock: Vec<M31> = (0..8).map(|i| M31::new(i)).collect();
    let other: Vec<M31> = (0..8).map(|i| M31::new(100 + i * i)).collect();
    let config = StarkConfig { log_trace_len: 3, blowup_factor: 4, num_queries: 3, fri_folding_factor: 2 };
    let proof = StarkProver::new(config).prove(vec![clock, other]);
    assert_eq!(proof.query_proofs[0].trace_values.len(), 2);
    let verifier = clock_verifier();
    assert_eq!(verifier.verify(&proof), Ok(()));
    let mut p = proof.clone();
    p.query_proofs[1].trace_values[1] = p.query_proofs[1].trace_values[1].add(M31::one());
    let idx = p.query_proofs[1].index;
    assert_eq!(verifier.verify(&p), Err(VerifyError::MerkleError { index: idx }));
}

#[test]
fn row_leaf_of_one_column_is_the_element_leaf() {
    let values = [M31::new(5), M31::new(6)];
    let by_rows = MerkleTree::from_rows(&vec![vec![M31::new(5)], vec![M31::new(6)]]);
    assert_eq!(by_rows.root(), MerkleTree::new(&values).root());
    let wide = MerkleTree::from_rows(&vec![vec![M31::new(1), M31::new(2)], vec![M31::new(3), M31::new(4)]]);
    let mut row0 = Vec::new();
    row0.extend_from_slice(&1u32.to_le_bytes());
    row0.extend_from_slice(&2u32.to_le_bytes());
    let mut row1 = Vec::new();
    row1.extend_from_slice(&3u32.to_le_bytes());
    row1.extend_from_slice(&4u32.to_le_bytes());
    let l0 = *blake3::hash(&row0).as_bytes();
    let l1 = *blake3::hash(&row1).as_bytes();
    assert_eq!(wide.root(), node_hash(&l0, &l1));
}

#[test]
fn verification_key_binary_round_trip() {
    let vk = VerificationKey {
        config: ProofConfig {
            log_trace_len: 12,
            blowup_factor: 8,
            num_queries: 30,
            fri_folding_factor: 2,
            security_bits: 128,
            entry_point: 0x1000,
        },
        constraints_hash: [1u8; 32],
        public_inputs_hash: [2u8; 32],
    };
    let bytes = vk.to_bytes();
    assert_eq!(bytes.len(), 108);
    assert_eq!(&bytes[0..8], &12u64.to_le_bytes());
    assert_eq!(&bytes[40..44], &0x1000u32.to_le_bytes());
    assert_eq!(&bytes[44..76], &[1u8; 32]);
    let parsed = VerificationKey::from_bytes(&bytes).unwrap();
    assert_eq!(parsed, vk);
    assert_eq!(parsed.config.log_trace_len, 12);
    assert_eq!(
        VerificationKey::from_bytes(&bytes[..107]),
        Err(KeyDecodeError::WrongLength { expected: 108, got: 107 })
    );
}

#[test]
fn trace_breaking_the_clock_is_rejected() {
    let mut clock: Vec<M31> = (0..8).map(|i| M31::new(i)).collect();
    clock[3] = M31::new(7);
    let config = StarkConfig { log_trace_len: 3, blowup_factor: 4, num_queries: 30, fri_folding_factor: 2 };
    let proof = StarkProver::new(config).prove(vec![clock]);
    let verifier = Verifier::new(VerifierConfig {
        log_trace_len: 3,
        blowup_factor: 4,
        num_queries: 30,
        fri_folding_factor: 2,
        ..Default::default()
    });
    assert!(matches!(verifier.verify(&proof), Err(VerifyError::ConstraintError { .. })));
}

#[test]
fn valid_clock_with_many_queries_is_accepted() {
    let clock: Vec<M31> = (0..16).map(|i| M31::new(i)).collect();
    let config = StarkConfig { log_trace_len: 4, blowup_factor: 4, num_queries: 20, fri_folding_factor: 2 };
    let proof = StarkProver::new(config).prove(vec![clock]);
    let q = &proof.query_proofs[0];
    assert_eq!(q.next_trace_proof.leaf_index, (q.index + 4) % 64);
    assert_eq!(q.row_proof.leaf_index, (q.index % 16) * 4);
    assert_eq!(q.row_values[0], M31::new((q.index % 16) as u32));
    let verifier = Verifier::new(VerifierConfig {
        log_trace_len: 4,
        blowup_factor: 4,
        num_queries: 20,
        fri_folding_factor: 2,
        ..Default::default()
    });
    assert_eq!(verifier.verify(&proof), Ok(()));
}
