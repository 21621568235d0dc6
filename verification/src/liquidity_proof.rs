//! Proof objects and the hash chain that binds them to their lineage.
//!
//! A proof for one update is the 32-byte commitment digest followed by a
//! 32-byte trailer: the byte hash of the predecessor proof's exact bytes
//! (empty when there is no predecessor) followed by the commitment.
//! Verification recomputes the trailer and compares both segments, so a
//! proof cannot be reattached to a different history, and the commitment
//! segment cannot be stretched or truncated without the length split
//! failing. Verification fails closed: every shape violation yields
//! `false`, with the reason reported only as a diagnostic value.

use vstd::prelude::*;

use crate::field::Digest32;

verus! {

/// The byte payload returned by an update: a commitment segment followed by
/// a 32-byte binding trailer. A payload of length zero is the distinguished
/// invalid/absent value.
pub struct ProofObject {
    pub bytes: Vec<u8>,
}

/// The Keccak-256 digest of a byte string: 32 bytes, a function of the
/// input alone.
pub uninterp spec fn keccak256(input: Seq<u8>) -> Seq<u8>;

/// Relies on tiny_keccak's `Keccak::v256`, `Hasher::update` and
/// `Hasher::finalize`: the returned 32 bytes are the Keccak-256 digest of
/// the absorbed input, a deterministic function of those bytes alone.
#[verifier::external_body]
fn keccak256_digest(input: &Vec<u8>) -> (r: Vec<u8>)
    ensures
        r@ == keccak256(input@),
        r@.len() == 32,
{
    let mut hasher = tiny_keccak::Keccak::v256();
    tiny_keccak::Hasher::update(&mut hasher, input.as_slice());
    let mut out = [0u8; 32];
    tiny_keccak::Hasher::finalize(hasher, &mut out);
    out.to_vec()
}

/// The bytes of an optional predecessor proof: empty when absent.
pub open spec fn opt_proof_bytes(prev: Option<&ProofObject>) -> Seq<u8> {
    match prev {
        Some(p) => p.bytes@,
        None => Seq::<u8>::empty(),
    }
}

/// The trailer that binds a proof to its lineage: the byte hash of the
/// predecessor's bytes followed by the commitment.
pub open spec fn binding_trailer(prev: Seq<u8>, commitment: Seq<u8>) -> Seq<u8> {
    keccak256(prev + commitment)
}

/// The bytes of the proof generated for `commitment` atop a predecessor
/// whose bytes are `prev`.
pub open spec fn chained_proof_bytes(prev: Seq<u8>, commitment: Seq<u8>) -> Seq<u8> {
    commitment + binding_trailer(prev, commitment)
}

/// Whether a proof passes verification against a predecessor and an
/// expected commitment: at least 64 bytes (which excludes the empty proof),
/// the leading segment byte-for-byte equal to the expected commitment, and
/// the trailing 32 bytes equal to the binding trailer.
pub open spec fn proof_accepted(candidate: Seq<u8>, prev: Seq<u8>, commitment: Seq<u8>) -> bool {
    &&& candidate.len() >= 64
    &&& candidate.subrange(0, candidate.len() - 32) == commitment
    &&& candidate.subrange(candidate.len() - 32, candidate.len() as int) == binding_trailer(
        prev,
        commitment,
    )
}

/// The outcome of one verification: acceptance, or the diagnostic reason
/// for which it failed closed.
#[derive(Clone, Copy, Debug, PartialEq, Eq, Structural)]
pub enum VerifyOutcome {
    /// The proof passed both checks.
    Accepted,
    /// No state is recorded for the chain.
    UnknownChain,
    /// The proof bytes are empty.
    EmptyProof,
    /// The proof is non-empty but shorter than one commitment limb plus the
    /// 32-byte trailer.
    ProofTooShort,
    /// The leading segment does not equal the expected commitment.
    CommitmentMismatch,
    /// The trailing 32 bytes do not equal the binding trailer.
    TrailerMismatch,
}

impl ProofObject {
    /// A byte-for-byte copy of this proof.
    pub fn duplicate(&self) -> (r: ProofObject)
        ensures
            r.bytes@ == self.bytes@,
    {
        let mut copied: Vec<u8> = Vec::new();
        append_bytes(&mut copied, &self.bytes);
        ProofObject { bytes: copied }
    }
}

/// Append a copy of `src` to `dst`.
fn append_bytes(dst: &mut Vec<u8>, src: &Vec<u8>)
    ensures
        final(dst)@ == old(dst)@ + src@,
{
    proof {
        assert(dst@ =~= old(dst)@ + src@.subrange(0, 0));
    }
    let mut i: usize = 0;
    while i < src.len()
        invariant
            i <= src@.len(),
            dst@ == old(dst)@ + src@.subrange(0, i as int),
        decreases src@.len() - i,
    {
        let b = src[i];
        dst.push(b);
        proof {
            assert(dst@ =~= old(dst)@ + src@.subrange(0, i + 1));
        }
        i += 1;
    }
    proof {
        assert(dst@ =~= old(dst)@ + src@);
    }
}

/// Whether `expected` equals the bytes of `data` starting at `offset`.
fn slice_matches(data: &Vec<u8>, offset: usize, expected: &Vec<u8>) -> (r: bool)
    requires
        offset + expected@.len() <= data@.len(),
    ensures
        r == (data@.subrange(offset as int, offset + expected@.len()) == expected@),
{
    let n = data.len();
    let mut i: usize = 0;
    while i < expected.len()
        invariant
            n == data@.len(),
            offset + expected@.len() <= n,
            i <= expected@.len(),
            forall|j: int| 0 <= j < i ==> data@[offset + j] == expected@[j],
        decreases expected@.len() - i,
    {
        if data[offset + i] != expected[i] {
            proof {
                let full = data@.subrange(offset as int, offset + expected@.len());
                assert(full[i as int] == data@[offset + i]);
            }
            return false;
        }
        i += 1;
    }
    proof {
        assert(data@.subrange(offset as int, offset + expected@.len()) =~= expected@);
    }
    true
}

/// Produce the proof object for a commitment atop an optional predecessor:
/// the commitment bytes followed by the binding trailer. The result always
/// verifies against the same predecessor and commitment.
pub fn generate_liquidity_proof(commitment: &Digest32, previous_proof: Option<&ProofObject>) -> (r:
    ProofObject)
    requires
        commitment.wf(),
    ensures
        r.bytes@ == chained_proof_bytes(opt_proof_bytes(previous_proof), commitment@),
        r.bytes@.len() == 64,
        proof_accepted(r.bytes@, opt_proof_bytes(previous_proof), commitment@),
{
    let mut lineage: Vec<u8> = Vec::new();
    match previous_proof {
        Some(prev) => append_bytes(&mut lineage, &prev.bytes),
        None => {},
    }
    append_bytes(&mut lineage, &commitment.bytes);
    proof {
        assert(lineage@ =~= opt_proof_bytes(previous_proof) + commitment@);
    }
    let trailer = keccak256_digest(&lineage);
    let mut proof_data: Vec<u8> = Vec::new();
    append_bytes(&mut proof_data, &commitment.bytes);
    append_bytes(&mut proof_data, &trailer);
    proof {
        let prev = opt_proof_bytes(previous_proof);
        assert(proof_data@ =~= chained_proof_bytes(prev, commitment@));
        assert(proof_data@.subrange(0, proof_data@.len() - 32) =~= commitment@);
        assert(proof_data@.subrange(proof_data@.len() - 32, proof_data@.len() as int)
            =~= binding_trailer(prev, commitment@));
    }
    ProofObject { bytes: proof_data }
}

/// Check a candidate proof against a predecessor and an expected
/// commitment, reporting the exact reason when it is not accepted.
pub fn check_liquidity_proof(
    candidate: &ProofObject,
    previous_proof: Option<&ProofObject>,
    expected_commitment: &Digest32,
) -> (r: VerifyOutcome)
    requires
        expected_commitment.wf(),
    ensures
        (r == VerifyOutcome::Accepted) == proof_accepted(
            candidate.bytes@,
            opt_proof_bytes(previous_proof),
            expected_commitment@,
        ),
        (r == VerifyOutcome::EmptyProof) == (candidate.bytes@.len() == 0),
        (r == VerifyOutcome::ProofTooShort) == (0 < candidate.bytes@.len() < 64),
        (r == VerifyOutcome::CommitmentMismatch) == (candidate.bytes@.len() >= 64
            && candidate.bytes@.subrange(0, candidate.bytes@.len() - 32) != expected_commitment@),
        (r == VerifyOutcome::TrailerMismatch) == (candidate.bytes@.len() >= 64
            && candidate.bytes@.subrange(0, candidate.bytes@.len() - 32) == expected_commitment@
            && candidate.bytes@.subrange(
            candidate.bytes@.len() - 32,
            candidate.bytes@.len() as int,
        ) != binding_trailer(opt_proof_bytes(previous_proof), expected_commitment@)),
        r != VerifyOutcome::UnknownChain,
{
    let n = candidate.bytes.len();
    if n == 0 {
        return VerifyOutcome::EmptyProof;
    }
    if n < 64 {
        return VerifyOutcome::ProofTooShort;
    }
    let split = n - 32;
    if split != 32 {
        proof {
            assert(candidate.bytes@.subrange(0, split as int).len() != expected_commitment@.len());
        }
        return VerifyOutcome::CommitmentMismatch;
    }
    if !slice_matches(&candidate.bytes, 0, &expected_commitment.bytes) {
        return VerifyOutcome::CommitmentMismatch;
    }
    let mut lineage: Vec<u8> = Vec::new();
    match previous_proof {
        Some(prev) => append_bytes(&mut lineage, &prev.bytes),
        None => {},
    }
    append_bytes(&mut lineage, &expected_commitment.bytes);
    proof {
        assert(lineage@ =~= opt_proof_bytes(previous_proof) + expected_commitment@);
    }
    let trailer = keccak256_digest(&lineage);
    if slice_matches(&candidate.bytes, split, &trailer) {
        VerifyOutcome::Accepted
    } else {
        VerifyOutcome::TrailerMismatch
    }
}

/// Verify a candidate proof against a predecessor and an expected
/// commitment. Fails closed: empty bytes, fewer than 64 bytes, a leading
/// segment differing from the expected commitment, or a trailer differing
/// from the recomputed binding trailer all yield `false`.
pub fn verify_liquidity_proof(
    candidate: &ProofObject,
    previous_proof: Option<&ProofObject>,
    expected_commitment: &Digest32,
) -> (r: bool)
    requires
        expected_commitment.wf(),
    ensures
        r == proof_accepted(
            candidate.bytes@,
            opt_proof_bytes(previous_proof),
            expected_commitment@,
        ),
{
    let outcome = check_liquidity_proof(candidate, previous_proof, expected_commitment);
    matches!(outcome, VerifyOutcome::Accepted)
}

/// For one predecessor and one expected commitment, at most one byte string
/// is accepted.
proof fn lemma_accepted_unique(p1: Seq<u8>, p2: Seq<u8>, prev: Seq<u8>, commitment: Seq<u8>)
    requires
        proof_accepted(p1, prev, commitment),
        proof_accepted(p2, prev, commitment),
    ensures
        p1 == p2,
{
    let k = commitment.len() as int;
    assert(p1.len() == k + 32);
    assert(p2.len() == k + 32);
    assert forall|j: int| 0 <= j < p1.len() implies p1[j] == p2[j] by {
        if j < k {
            assert(p1.subrange(0, k)[j] == p1[j]);
            assert(p2.subrange(0, k)[j] == p2[j]);
        } else {
            assert(p1.subrange(k, k + 32)[j - k] == p1[j]);
            assert(p2.subrange(k, k + 32)[j - k] == p2[j]);
        }
    }
    assert(p1 =~= p2);
}

/// Tamper detection: changing any single byte of an accepted proof, with
/// all other bytes kept, yields a proof that is no longer accepted for the
/// same predecessor and commitment.
pub proof fn lemma_tampered_proof_rejected(
    original: Seq<u8>,
    tampered: Seq<u8>,
    prev: Seq<u8>,
    commitment: Seq<u8>,
    i: int,
)
    requires
        tampered.len() == original.len(),
        0 <= i < original.len(),
        tampered[i] != original[i],
    ensures
        proof_accepted(original, prev, commitment) ==> !proof_accepted(tampered, prev, commitment),
{
    if proof_accepted(original, prev, commitment) && proof_accepted(tampered, prev, commitment) {
        lemma_accepted_unique(original, tampered, prev, commitment);
    }
}

/// Minimum-length rejection: a proof shorter than 64 bytes is accepted for
/// no predecessor and no commitment, whatever its content.
pub proof fn lemma_short_proof_rejected(candidate: Seq<u8>, prev: Seq<u8>, commitment: Seq<u8>)
    ensures
        candidate.len() < 64 ==> !proof_accepted(candidate, prev, commitment),
{
}

} // verus!
