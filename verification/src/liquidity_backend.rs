//! The per-chain liquidity ledger.
//!
//! The ledger owns, per chain id, one record holding the root pair, the
//! commitment digest binding them, and the proof pair; the record is
//! replaced as a whole on every update, so the state and the proof history
//! cannot drift apart. Entries are never removed: an absent chain id means
//! "no history". The algebraic hash that folds (previous root, new value)
//! into the commitment root is an outside collaborator (a sponge over field
//! elements, state width 16, parameters 8/16/8/14); the caller evaluates it
//! on the concrete values and passes the resulting root in, and this module
//! serializes it and chains the proofs.

use vstd::prelude::*;

use std::collections::HashMap;

use crate::field::{fit32, Digest32, FieldElement};
use crate::liquidity_proof::{
    binding_trailer, chained_proof_bytes, check_liquidity_proof, generate_liquidity_proof,
    opt_proof_bytes, proof_accepted, verify_liquidity_proof, ProofObject, VerifyOutcome,
};

verus! {

broadcast use vstd::std_specs::hash::group_hash_axioms;

/// Per chain: the previous and current state root. The current root of an
/// unseen chain is taken to be the zero element.
pub struct ChainState {
    pub previous_root: FieldElement,
    pub current_root: FieldElement,
}

/// Per chain: the previous proof (absent before the second update) and the
/// current proof.
pub struct ChainProofRecord {
    pub previous_proof: Option<ProofObject>,
    pub current_proof: ProofObject,
}

/// Everything the ledger records for one chain, replaced atomically on each
/// update: the root pair, the commitment digest computed at update time,
/// and the proof pair.
pub struct ChainRecord {
    pub state: ChainState,
    pub commitment: Digest32,
    pub proofs: ChainProofRecord,
}

/// The bytes of a recorded optional predecessor proof: empty when absent.
pub open spec fn stored_proof_bytes(prev: Option<ProofObject>) -> Seq<u8> {
    match prev {
        Some(p) => p.bytes@,
        None => Seq::<u8>::empty(),
    }
}

impl ChainRecord {
    /// The roots are canonical, the commitment is a 32-byte digest, and the
    /// current proof is exactly the proof generated for that commitment
    /// atop the recorded predecessor.
    pub open spec fn wf(self) -> bool {
        &&& self.state.previous_root.wf()
        &&& self.state.current_root.wf()
        &&& self.commitment.wf()
        &&& self.proofs.current_proof.bytes@ == chained_proof_bytes(
            stored_proof_bytes(self.proofs.previous_proof),
            self.commitment@,
        )
    }
}

/// The per-chain-id ledger: the exclusive owner of all recorded state.
pub struct LiquidityBackend {
    chains: HashMap<u32, ChainRecord>,
}

impl View for LiquidityBackend {
    type V = Map<u32, ChainRecord>;

    closed spec fn view(&self) -> Map<u32, ChainRecord> {
        self.chains@
    }
}

impl LiquidityBackend {
    /// Every recorded chain record is well formed.
    pub open spec fn wf(self) -> bool {
        forall|id: u32| self@.contains_key(id) ==> (#[trigger] self@[id]).wf()
    }

    /// Whether the ledger accepts a candidate proof for `chain_id`: the
    /// chain has recorded state and the candidate passes against the
    /// recorded predecessor proof and recorded commitment.
    pub open spec fn accepts(self, chain_id: u32, candidate: Seq<u8>) -> bool {
        &&& self@.contains_key(chain_id)
        &&& proof_accepted(
            candidate,
            stored_proof_bytes(self@[chain_id].proofs.previous_proof),
            self@[chain_id].commitment@,
        )
    }

    /// The root that the next update of `chain_id` chains from: the
    /// recorded current root, or the zero element for an unseen chain.
    pub open spec fn lineage_root(self, chain_id: u32) -> Seq<u8> {
        if self@.contains_key(chain_id) {
            self@[chain_id].state.current_root@
        } else {
            Seq::<u8>::empty()
        }
    }

    /// The proof bytes that the next update of `chain_id` chains from: the
    /// recorded current proof, or empty for an unseen chain.
    pub open spec fn lineage_proof(self, chain_id: u32) -> Seq<u8> {
        if self@.contains_key(chain_id) {
            self@[chain_id].proofs.current_proof.bytes@
        } else {
            Seq::<u8>::empty()
        }
    }

    /// An empty ledger: no chain has any history.
    pub fn new() -> (r: Self)
        ensures
            r@ == Map::<u32, ChainRecord>::empty(),
            r.wf(),
    {
        LiquidityBackend { chains: HashMap::new() }
    }

    /// Record a liquidity update for `chain_id` and return its proof.
    ///
    /// The recorded current root becomes the previous root and the recorded
    /// current proof becomes the previous proof (the zero element and no
    /// proof for an unseen chain); `new_value` becomes the current root.
    /// `commitment_root` must be the algebraic hash of (previous root,
    /// new value), evaluated by the caller's hash collaborator; it is
    /// serialized to the 32-byte commitment that the new proof carries.
    /// Never fails, and the returned proof verifies immediately.
    pub fn update_liquidity(
        &mut self,
        chain_id: u32,
        new_value: FieldElement,
        commitment_root: FieldElement,
    ) -> (r: ProofObject)
        requires
            old(self).wf(),
            new_value.wf(),
        ensures
            final(self).wf(),
            final(self)@.contains_key(chain_id),
            forall|k: u32|
                k != chain_id ==> #[trigger] final(self)@.contains_key(k) == old(
                    self,
                )@.contains_key(k),
            forall|k: u32|
                k != chain_id && old(self)@.contains_key(k) ==> #[trigger] final(self)@[k] == old(
                    self,
                )@[k],
            final(self)@[chain_id].state.previous_root@ == old(self).lineage_root(chain_id),
            final(self)@[chain_id].state.current_root@ == new_value@,
            final(self)@[chain_id].commitment@ == fit32(commitment_root@),
            final(self)@[chain_id].proofs.previous_proof is Some <==> old(self)@.contains_key(
                chain_id,
            ),
            stored_proof_bytes(final(self)@[chain_id].proofs.previous_proof) == old(
                self,
            ).lineage_proof(chain_id),
            final(self)@[chain_id].proofs.current_proof.bytes@ == r.bytes@,
            r.bytes@ == chained_proof_bytes(
                old(self).lineage_proof(chain_id),
                fit32(commitment_root@),
            ),
            r.bytes@.len() == 64,
            final(self).accepts(chain_id, r.bytes@),
    {
        let ghost old_map = self.chains@;
        let removed = self.chains.remove(&chain_id);
        let (previous_root, previous_proof): (FieldElement, Option<ProofObject>) = match removed {
            Some(rec) => (rec.state.current_root, Some(rec.proofs.current_proof)),
            None => (FieldElement::zero(), None),
        };
        proof {
            if old(self)@.contains_key(chain_id) {
                assert(old(self)@[chain_id].wf());
            }
        }
        let commitment = commitment_root.to_digest();
        let prev_ref = previous_proof.as_ref();
        proof {
            assert(opt_proof_bytes(prev_ref) == stored_proof_bytes(previous_proof));
        }
        let new_proof = generate_liquidity_proof(&commitment, prev_ref);
        let returned = new_proof.duplicate();
        let rec = ChainRecord {
            state: ChainState { previous_root, current_root: new_value },
            commitment,
            proofs: ChainProofRecord { previous_proof, current_proof: new_proof },
        };
        self.chains.insert(chain_id, rec);
        proof {
            assert(self.chains@ == old_map.remove(chain_id).insert(chain_id, rec));
            assert(rec.wf());
            assert forall|id: u32| self.chains@.contains_key(id) implies (
            #[trigger] self.chains@[id]).wf() by {
                if id != chain_id {
                    assert(old(self)@.contains_key(id) && self.chains@[id] == old(self)@[id]);
                    assert(old(self)@[id].wf());
                }
            }
        }
        returned
    }

    /// The recorded current root for `chain_id`, absent for an unseen
    /// chain: the root that the next update chains from.
    pub fn current_root(&self, chain_id: u32) -> (r: Option<&FieldElement>)
        ensures
            match r {
                Some(root) => self@.contains_key(chain_id) && root@ == self.lineage_root(chain_id),
                None => !self@.contains_key(chain_id),
            },
    {
        match self.chains.get(&chain_id) {
            None => None,
            Some(rec) => Some(&rec.state.current_root),
        }
    }

    /// Verify a candidate proof for `chain_id` against the recorded state.
    ///
    /// Returns false when the chain has no recorded state, and otherwise
    /// exactly when the candidate fails against the recorded predecessor
    /// proof and recorded commitment; it never fails in any other way.
    pub fn verify_liquidity(&self, chain_id: u32, candidate: &ProofObject) -> (r: bool)
        requires
            self.wf(),
        ensures
            r == self.accepts(chain_id, candidate.bytes@),
    {
        match self.chains.get(&chain_id) {
            None => false,
            Some(rec) => {
                proof {
                    assert(self@.contains_key(chain_id) && self@[chain_id] == *rec);
                    assert(self@[chain_id].wf());
                }
                let prev_ref = rec.proofs.previous_proof.as_ref();
                proof {
                    assert(opt_proof_bytes(prev_ref) == stored_proof_bytes(
                        rec.proofs.previous_proof,
                    ));
                }
                verify_liquidity_proof(candidate, prev_ref, &rec.commitment)
            },
        }
    }

    /// Verify a candidate proof for `chain_id`, reporting the diagnostic
    /// reason when it is not accepted. The boolean outcome of
    /// `verify_liquidity` is acceptance here; the reason is reported only
    /// as a diagnostic and never distinguished in that boolean.
    pub fn verify_liquidity_report(&self, chain_id: u32, candidate: &ProofObject) -> (r:
        VerifyOutcome)
        requires
            self.wf(),
        ensures
            (r == VerifyOutcome::Accepted) == self.accepts(chain_id, candidate.bytes@),
            (r == VerifyOutcome::UnknownChain) == !self@.contains_key(chain_id),
            (r == VerifyOutcome::EmptyProof) == (self@.contains_key(chain_id)
                && candidate.bytes@.len() == 0),
            (r == VerifyOutcome::ProofTooShort) == (self@.contains_key(chain_id) && 0
                < candidate.bytes@.len() < 64),
            (r == VerifyOutcome::CommitmentMismatch) == (self@.contains_key(chain_id)
                && candidate.bytes@.len() >= 64 && candidate.bytes@.subrange(
                0,
                candidate.bytes@.len() - 32,
            ) != self@[chain_id].commitment@),
            (r == VerifyOutcome::TrailerMismatch) == (self@.contains_key(chain_id)
                && candidate.bytes@.len() >= 64 && candidate.bytes@.subrange(
                0,
                candidate.bytes@.len() - 32,
            ) == self@[chain_id].commitment@ && candidate.bytes@.subrange(
                candidate.bytes@.len() - 32,
                candidate.bytes@.len() as int,
            ) != binding_trailer(
                stored_proof_bytes(self@[chain_id].proofs.previous_proof),
                self@[chain_id].commitment@,
            )),
    {
        match self.chains.get(&chain_id) {
            None => VerifyOutcome::UnknownChain,
            Some(rec) => {
                proof {
                    assert(self@.contains_key(chain_id) && self@[chain_id] == *rec);
                    assert(self@[chain_id].wf());
                }
                let prev_ref = rec.proofs.previous_proof.as_ref();
                proof {
                    assert(opt_proof_bytes(prev_ref) == stored_proof_bytes(
                        rec.proofs.previous_proof,
                    ));
                }
                check_liquidity_proof(candidate, prev_ref, &rec.commitment)
            },
        }
    }
}

/// Unknown chain closes false: a ledger accepts no proof at all, however
/// well formed, for a chain id with no recorded state.
pub proof fn lemma_unknown_chain_rejects(ledger: LiquidityBackend, chain_id: u32, candidate: Seq<u8>)
    ensures
        !ledger@.contains_key(chain_id) ==> !ledger.accepts(chain_id, candidate),
{
}

} // verus!
