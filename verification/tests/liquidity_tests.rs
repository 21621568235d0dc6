use liquidity_ledger::field::{Digest32, FieldElement};
use liquidity_ledger::liquidity_backend::LiquidityBackend;
use liquidity_ledger::liquidity_proof::{
    check_liquidity_proof, generate_liquidity_proof, verify_liquidity_proof, ProofObject,
    VerifyOutcome,
};

#[test]
fn test_liquidity_proof_and_verification() {
    let mut backend = LiquidityBackend::new();

    let chain_id = 1;
    let new_liquidity_state = FieldElement::from_u32(1000u32);
    let root_1 = FieldElement::from_u32(0x5a17u32);

    let proof_1 = backend.update_liquidity(chain_id, new_liquidity_state, root_1);

    assert!(backend.verify_liquidity(chain_id, &proof_1));

    let new_liquidity_state_2 = FieldElement::from_u32(2000u32);
    let root_2 = FieldElement::from_u32(0x7c31u32);
    let proof_2 = backend.update_liquidity(chain_id, new_liquidity_state_2, root_2);

    assert!(backend.verify_liquidity(chain_id, &proof_2));

    println!("Liquidity state update and proofs verified successfully!");
}

#[test]
fn test_update_scenario() {
    let mut backend = LiquidityBackend::new();

    let p1 = backend.update_liquidity(1, FieldElement::from_u32(1000), FieldElement::from_u32(7001));
    assert!(p1.bytes.len() >= 64);
    assert!(backend.verify_liquidity(1, &p1));

    let p2 = backend.update_liquidity(1, FieldElement::from_u32(2000), FieldElement::from_u32(7002));
    assert_ne!(p1.bytes, p2.bytes);
    assert!(backend.verify_liquidity(1, &p2));

    // The state has moved on: the first proof no longer matches the
    // currently expected commitment.
    assert!(!backend.verify_liquidity(1, &p1));

    // Chain 2 was never updated.
    assert!(!backend.verify_liquidity(2, &p1));
}

#[test]
fn test_commitment_determinism() {
    let d1 = FieldElement::from_u32(1234).to_digest();
    let d2 = FieldElement::from_u32(1234).to_digest();
    assert_eq!(d1.bytes, d2.bytes);

    let p1 = generate_liquidity_proof(&d1, None);
    let p2 = generate_liquidity_proof(&d2, None);
    assert_eq!(p1.bytes, p2.bytes);

    let prev = ProofObject { bytes: p1.bytes.clone() };
    let p3 = generate_liquidity_proof(&d1, Some(&prev));
    let p4 = generate_liquidity_proof(&d2, Some(&prev));
    assert_eq!(p3.bytes, p4.bytes);
    assert_ne!(p1.bytes, p3.bytes);
}

#[test]
fn test_tamper_detection() {
    let commitment = FieldElement::from_u32(0xbeef).to_digest();
    let prev = generate_liquidity_proof(&FieldElement::from_u32(0xfeed).to_digest(), None);
    let valid = generate_liquidity_proof(&commitment, Some(&prev));
    assert!(verify_liquidity_proof(&valid, Some(&prev), &commitment));

    for i in 0..valid.bytes.len() {
        let mut tampered = valid.bytes.clone();
        tampered[i] ^= 0x01;
        let candidate = ProofObject { bytes: tampered };
        assert!(!verify_liquidity_proof(&candidate, Some(&prev), &commitment));
    }
}

#[test]
fn test_unknown_chain_closes_false() {
    let mut source = LiquidityBackend::new();
    let well_formed =
        source.update_liquidity(7, FieldElement::from_u32(500), FieldElement::from_u32(42));
    assert!(source.verify_liquidity(7, &well_formed));

    let fresh = LiquidityBackend::new();
    assert!(!fresh.verify_liquidity(7, &well_formed));
    assert_eq!(
        fresh.verify_liquidity_report(7, &well_formed),
        VerifyOutcome::UnknownChain
    );

    // A well-formed proof copied from another chain id is rejected too.
    assert!(!source.verify_liquidity(8, &well_formed));
}

#[test]
fn test_minimum_length_rejection() {
    let commitment = FieldElement::from_u32(9).to_digest();
    for len in [1usize, 31, 32, 33, 63] {
        let candidate = ProofObject { bytes: vec![0xabu8; len] };
        assert!(!verify_liquidity_proof(&candidate, None, &commitment));
        assert_eq!(
            check_liquidity_proof(&candidate, None, &commitment),
            VerifyOutcome::ProofTooShort
        );
    }
}

#[test]
fn test_verify_outcomes() {
    let mut backend = LiquidityBackend::new();
    let valid = backend.update_liquidity(3, FieldElement::from_u32(77), FieldElement::from_u32(88));
    assert_eq!(
        backend.verify_liquidity_report(3, &valid),
        VerifyOutcome::Accepted
    );

    let empty = ProofObject { bytes: Vec::new() };
    assert_eq!(
        backend.verify_liquidity_report(3, &empty),
        VerifyOutcome::EmptyProof
    );
    assert!(!backend.verify_liquidity(3, &empty));

    let short = ProofObject { bytes: vec![1u8; 40] };
    assert_eq!(
        backend.verify_liquidity_report(3, &short),
        VerifyOutcome::ProofTooShort
    );

    // Right length, wrong commitment segment.
    let mut wrong_commitment = valid.bytes.clone();
    wrong_commitment[0] ^= 0xff;
    assert_eq!(
        backend.verify_liquidity_report(3, &ProofObject { bytes: wrong_commitment }),
        VerifyOutcome::CommitmentMismatch
    );

    // A commitment segment longer than 32 bytes cannot match either.
    let mut stretched = valid.bytes.clone();
    stretched.insert(0, 0x00);
    assert_eq!(
        backend.verify_liquidity_report(3, &ProofObject { bytes: stretched }),
        VerifyOutcome::CommitmentMismatch
    );

    // Right commitment segment, wrong trailer.
    let mut wrong_trailer = valid.bytes.clone();
    let last = wrong_trailer.len() - 1;
    wrong_trailer[last] ^= 0xff;
    assert_eq!(
        backend.verify_liquidity_report(3, &ProofObject { bytes: wrong_trailer }),
        VerifyOutcome::TrailerMismatch
    );
}

#[test]
fn test_binding_trailer_vector() {
    // With no predecessor and an all-zero commitment, the trailer is the
    // Keccak-256 digest of 32 zero bytes.
    let commitment = Digest32 { bytes: vec![0u8; 32] };
    let generated = generate_liquidity_proof(&commitment, None);
    assert_eq!(generated.bytes.len(), 64);
    assert_eq!(&generated.bytes[..32], &[0u8; 32]);

    let expected_trailer: [u8; 32] = [
        0x29, 0x0d, 0xec, 0xd9, 0x54, 0x8b, 0x62, 0xa8, 0xd6, 0x03, 0x45, 0xa9, 0x88, 0x38, 0x6f,
        0xc8, 0x4b, 0xa6, 0xbc, 0x95, 0x48, 0x40, 0x08, 0xf6, 0x36, 0x2f, 0x93, 0x16, 0x0e, 0xf3,
        0xe5, 0x63,
    ];
    assert_eq!(&generated.bytes[32..], &expected_trailer);
}

#[test]
fn test_field_serialization() {
    let d = FieldElement::from_u32(0x01020304).to_digest();
    assert_eq!(d.bytes.len(), 32);
    assert_eq!(&d.bytes[..28], &[0u8; 28]);
    assert_eq!(&d.bytes[28..], &[1u8, 2, 3, 4]);

    let zero = FieldElement::zero().to_digest();
    assert_eq!(zero.bytes, vec![0u8; 32]);
    assert_eq!(FieldElement::from_u32(0).to_digest().bytes, zero.bytes);

    // Leading zero bytes carry no value: the canonical element is the same.
    let padded = FieldElement::from_bytes(&vec![0u8, 0, 0x12, 0x34]);
    assert_eq!(
        padded.to_digest().bytes,
        FieldElement::from_u32(0x1234).to_digest().bytes
    );

    // A representation wider than 32 bytes is truncated to its low-order
    // 32 bytes.
    let mut wide = vec![0x99u8];
    wide.extend_from_slice(&[0x11u8; 32]);
    let truncated = FieldElement::from_bytes(&wide).to_digest();
    assert_eq!(truncated.bytes, vec![0x11u8; 32]);
}
