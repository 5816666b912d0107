//! The verification registry.
//!
//! A keyed store binding circuit identifiers to verification keys, and a
//! record of which (subject, circuit) pairs have been verified, each pair at
//! most once. Submitting a proof looks the key up, checks the encodings,
//! verifies through the trusted boundary, rejects replays, and otherwise
//! records the pair and reports a notification event. The host ledger's
//! origin and event machinery are modelled as plain values: the caller is a
//! parameter, the event a return value.

use vstd::prelude::*;
use crate::groth16::byte_views;
use crate::groth16::groth16_accepts;
use crate::groth16::groth16_verify;
use crate::groth16::input_well_formed;
use crate::groth16::inputs_decode;
use crate::groth16::proof_decodes;
use crate::groth16::proof_well_formed;
use crate::groth16::vk_decodes;
use crate::groth16::vk_well_formed;
use crate::vault::AccountId;

verus! {

/// A proof submission: the encoded proof and the encoded public inputs, in
/// the order the circuit allocates its public variables.
#[derive(Debug)]
pub struct ZkProof {
    pub proof: Vec<u8>,
    pub public_inputs: Vec<Vec<u8>>,
}

/// Registry configuration, fixed at construction: who may register
/// verification keys. `None` leaves registration open to every caller;
/// `Some(r)` restricts it to `r`.
#[derive(Debug, Clone, Copy)]
pub struct Config {
    pub registrar: Option<AccountId>,
}

/// Whether `caller` may register keys under configuration `c`.
pub open spec fn registration_allowed(c: Config, caller: AccountId) -> bool {
    match c.registrar {
        Option::None => true,
        Option::Some(r) => caller == r,
    }
}

/// Notification events, reported to the caller on success.
#[derive(Debug, PartialEq, Eq)]
pub enum Event {
    /// A proof by the subject was verified and recorded for the circuit.
    ProofVerified(AccountId, Vec<u8>),
    /// A verification key was set for the circuit.
    VerifyingKeySet(Vec<u8>),
}

/// Errors of the registry operations.
#[derive(Debug, PartialEq, Eq, Structural, Clone, Copy)]
pub enum Error {
    /// Verification rejected the proof.
    InvalidProof,
    /// No verification key is registered for the circuit.
    VerifyingKeyNotFound,
    /// The (subject, circuit) pair is already recorded.
    ProofAlreadyVerified,
    /// Key, proof or public-input bytes are not canonical encodings.
    InvalidEncoding,
    /// The caller may not register keys.
    NotAuthorized,
}

/// Whether every public-input encoding in `inputs` is canonical.
pub open spec fn inputs_all_well_formed(inputs: Seq<Seq<u8>>) -> bool {
    forall|i: int| 0 <= i < inputs.len() ==> input_well_formed(#[trigger] inputs[i])
}

/// The index of the key entry for circuit `cid`, if one exists.
fn find_key(keys: &Vec<(Vec<u8>, Vec<u8>)>, cid: &Vec<u8>) -> (r: Option<usize>)
    ensures
        match r {
            Some(i) => i < keys@.len() && keys@[i as int].0@ == cid@,
            None => forall|k: int| 0 <= k < keys@.len() ==> (#[trigger] keys@[k]).0@ != cid@,
        },
{
    let n = keys.len();
    let mut i: usize = 0;
    while i < n
        invariant
            n == keys@.len(),
            0 <= i <= n,
            forall|k: int| 0 <= k < i ==> (#[trigger] keys@[k]).0@ != cid@,
        decreases n - i,
    {
        if crate::bytes::bytes_eq(&keys[i].0, cid) {
            return Some(i);
        }
        i += 1;
    }
    None
}

/// Whether the (subject, circuit) pair occurs in the record.
fn find_record(v: &Vec<(AccountId, Vec<u8>)>, who: AccountId, cid: &Vec<u8>) -> (r: bool)
    ensures
        r == exists|i: int|
            0 <= i < v@.len() && (#[trigger] v@[i]).0 == who && v@[i].1@ == cid@,
{
    let n = v.len();
    let mut i: usize = 0;
    while i < n
        invariant
            n == v@.len(),
            0 <= i <= n,
            forall|k: int| 0 <= k < i ==> !((#[trigger] v@[k]).0 == who && v@[k].1@ == cid@),
        decreases n - i,
    {
        if v[i].0 == who && crate::bytes::bytes_eq(&v[i].1, cid) {
            return true;
        }
        i += 1;
    }
    false
}

/// The registry: per circuit identifier the active verification key, and the
/// recorded (subject, circuit) pairs, each held as an association list.
pub struct ZkVerifier {
    config: Config,
    keys: Vec<(Vec<u8>, Vec<u8>)>,
    verified: Vec<(AccountId, Vec<u8>)>,
}

impl ZkVerifier {
    /// The key store as (circuit identifier, key bytes) pairs.
    pub closed spec fn keys_view(self) -> Seq<(Seq<u8>, Seq<u8>)> {
        self.keys@.map_values(|p: (Vec<u8>, Vec<u8>)| (p.0@, p.1@))
    }

    /// The recorded (subject, circuit identifier) pairs.
    pub closed spec fn recorded_view(self) -> Seq<(AccountId, Seq<u8>)> {
        self.verified@.map_values(|p: (AccountId, Vec<u8>)| (p.0, p.1@))
    }

    /// The configuration fixed at construction.
    pub closed spec fn spec_config(self) -> Config {
        self.config
    }

    /// Each circuit identifier holds at most one active key, and each
    /// (subject, circuit) pair is recorded at most once.
    pub open spec fn wf(self) -> bool {
        &&& forall|i: int, j: int|
            0 <= i < j < self.keys_view().len() ==> (#[trigger] self.keys_view()[i]).0 != (
            #[trigger] self.keys_view()[j]).0
        &&& forall|i: int, j: int|
            0 <= i < j < self.recorded_view().len() ==> !((#[trigger] self.recorded_view()[i]).0
                == (#[trigger] self.recorded_view()[j]).0 && self.recorded_view()[i].1
                == self.recorded_view()[j].1)
    }

    /// Whether a key is registered for circuit `cid`.
    pub open spec fn has_key(self, cid: Seq<u8>) -> bool {
        exists|i: int| 0 <= i < self.keys_view().len() && (#[trigger] self.keys_view()[i]).0 == cid
    }

    /// The active key for circuit `cid` (meaningful only when `has_key`).
    pub open spec fn key_of(self, cid: Seq<u8>) -> Seq<u8> {
        let i = choose|i: int|
            0 <= i < self.keys_view().len() && (#[trigger] self.keys_view()[i]).0 == cid;
        self.keys_view()[i].1
    }

    /// Whether the (subject, circuit) pair is recorded as verified.
    pub open spec fn is_recorded(self, who: AccountId, cid: Seq<u8>) -> bool {
        exists|i: int|
            0 <= i < self.recorded_view().len() && (#[trigger] self.recorded_view()[i]).0 == who
                && self.recorded_view()[i].1 == cid
    }

    /// The outcome a submission is owed: key lookup, then encoding checks,
    /// then verification, then replay protection.
    pub open spec fn submit_outcome(
        self,
        who: AccountId,
        proof: Seq<u8>,
        inputs: Seq<Seq<u8>>,
        cid: Seq<u8>,
    ) -> Result<(), Error> {
        if !self.has_key(cid) {
            Err(Error::VerifyingKeyNotFound)
        } else if !(vk_well_formed(self.key_of(cid)) && proof_well_formed(proof)
            && inputs_all_well_formed(inputs)) {
            Err(Error::InvalidEncoding)
        } else if !groth16_accepts(self.key_of(cid), proof, inputs) {
            Err(Error::InvalidProof)
        } else if self.is_recorded(who, cid) {
            Err(Error::ProofAlreadyVerified)
        } else {
            Ok(())
        }
    }

    /// In a well-formed registry, the key entry at any index holding `cid`
    /// is the one `key_of` speaks of.
    proof fn lemma_key_at(self, cid: Seq<u8>, i: int)
        requires
            self.wf(),
            0 <= i < self.keys_view().len(),
            self.keys_view()[i].0 == cid,
        ensures
            self.has_key(cid),
            self.key_of(cid) == self.keys_view()[i].1,
    {
        assert(self.has_key(cid));
        let j = choose|j: int|
            0 <= j < self.keys_view().len() && (#[trigger] self.keys_view()[j]).0 == cid;
        if i < j {
            assert(self.keys_view()[i].0 != self.keys_view()[j].0);
        } else if j < i {
            assert(self.keys_view()[j].0 != self.keys_view()[i].0);
        }
    }

    /// Two registries whose key entries agree on every index holding `id`
    /// agree on `id`'s key.
    proof fn lemma_other_keys(v1: Self, v2: Self, id: Seq<u8>)
        requires
            v1.wf(),
            v2.wf(),
            forall|i: int|
                0 <= i < v1.keys_view().len() && (#[trigger] v1.keys_view()[i]).0 == id ==> 0 <= i
                    < v2.keys_view().len() && v2.keys_view()[i] == v1.keys_view()[i],
            forall|i: int|
                0 <= i < v2.keys_view().len() && (#[trigger] v2.keys_view()[i]).0 == id ==> 0 <= i
                    < v1.keys_view().len() && v1.keys_view()[i] == v2.keys_view()[i],
        ensures
            v1.has_key(id) == v2.has_key(id),
            v1.has_key(id) ==> v1.key_of(id) == v2.key_of(id),
    {
        if v1.has_key(id) {
            let i = choose|i: int|
                0 <= i < v1.keys_view().len() && (#[trigger] v1.keys_view()[i]).0 == id;
            assert(v2.keys_view()[i].0 == id);
            v1.lemma_key_at(id, i);
            v2.lemma_key_at(id, i);
        } else if v2.has_key(id) {
            let i = choose|i: int|
                0 <= i < v2.keys_view().len() && (#[trigger] v2.keys_view()[i]).0 == id;
            assert(v1.keys_view()[i].0 == id);
        }
    }

    /// The occurrence of a pair among the stored vectors and among their
    /// views coincide.
    proof fn lemma_record_bridge(self, who: AccountId, cid: Seq<u8>)
        ensures
            (exists|i: int|
                0 <= i < self.verified@.len() && (#[trigger] self.verified@[i]).0 == who
                    && self.verified@[i].1@ == cid) == self.is_recorded(who, cid),
    {
        if exists|i: int|
            0 <= i < self.verified@.len() && (#[trigger] self.verified@[i]).0 == who
                && self.verified@[i].1@ == cid {
            let i = choose|i: int|
                0 <= i < self.verified@.len() && (#[trigger] self.verified@[i]).0 == who
                    && self.verified@[i].1@ == cid;
            assert(self.recorded_view()[i].0 == who && self.recorded_view()[i].1 == cid);
            assert(self.is_recorded(who, cid));
        }
        if self.is_recorded(who, cid) {
            let i = choose|i: int|
                0 <= i < self.recorded_view().len() && (#[trigger] self.recorded_view()[i]).0
                    == who && self.recorded_view()[i].1 == cid;
            assert(self.verified@[i].0 == who && self.verified@[i].1@ == cid);
        }
    }

    /// Creates an empty registry under the given configuration.
    pub fn new(config: Config) -> (r: Self)
        ensures
            r.wf(),
            r.spec_config() == config,
            forall|id: Seq<u8>| !r.has_key(id),
            forall|w: AccountId, c: Seq<u8>| !r.is_recorded(w, c),
    {
        ZkVerifier { config, keys: Vec::new(), verified: Vec::new() }
    }

    /// The active verification key for the circuit, if one is registered.
    pub fn verifying_key(&self, circuit_id: &Vec<u8>) -> (r: Option<Vec<u8>>)
        requires
            self.wf(),
        ensures
            match r {
                Some(v) => self.has_key(circuit_id@) && v@ == self.key_of(circuit_id@),
                None => !self.has_key(circuit_id@),
            },
    {
        match find_key(&self.keys, circuit_id) {
            Some(i) => {
                proof {
                    self.lemma_key_at(circuit_id@, i as int);
                }
                Some(crate::bytes::clone_bytes(&self.keys[i].1))
            },
            None => {
                proof {
                    assert(!self.has_key(circuit_id@));
                }
                None
            },
        }
    }

    /// Whether the (subject, circuit) pair is recorded as verified; false
    /// when it never was.
    pub fn verified_proof(&self, who: AccountId, circuit_id: &Vec<u8>) -> (r: bool)
        ensures
            r == self.is_recorded(who, circuit_id@),
    {
        let found = find_record(&self.verified, who, circuit_id);
        proof {
            self.lemma_record_bridge(who, circuit_id@);
        }
        found
    }

    /// Registers (or replaces) the verification key for the circuit. Only a
    /// caller the configuration allows may register; any other caller is
    /// refused and the registry is unchanged. Replacement governs future
    /// submissions only: recorded pairs are untouched.
    pub fn set_verifying_key(&mut self, caller: AccountId, circuit_id: Vec<u8>, vk: Vec<u8>) -> (r:
        Result<Event, Error>)
        requires
            old(self).wf(),
        ensures
            final(self).wf(),
            final(self).spec_config() == old(self).spec_config(),
            final(self).recorded_view() == old(self).recorded_view(),
            !registration_allowed(old(self).spec_config(), caller) ==> r == Err::<Event, Error>(
                Error::NotAuthorized,
            ) && *final(self) == *old(self),
            registration_allowed(old(self).spec_config(), caller) ==> {
                &&& r matches Ok(e) && e matches Event::VerifyingKeySet(cid) && cid@ == circuit_id@
                &&& final(self).has_key(circuit_id@)
                &&& final(self).key_of(circuit_id@) == vk@
                &&& forall|id: Seq<u8>|
                    id != circuit_id@ ==> #[trigger] final(self).has_key(id) == old(self).has_key(
                        id,
                    )
                &&& forall|id: Seq<u8>|
                    id != circuit_id@ && old(self).has_key(id) ==> (#[trigger] final(self).key_of(
                        id,
                    )) == old(self).key_of(id)
            },
    {
        let allowed = match self.config.registrar {
            Option::None => true,
            Option::Some(r) => caller == r,
        };
        if !allowed {
            return Err(Error::NotAuthorized);
        }
        let ghost pre = *self;
        match find_key(&self.keys, &circuit_id) {
            Some(i) => {
                let mut entry = self.keys.remove(i);
                entry.1 = vk;
                let ghost entryg = entry;
                self.keys.insert(i, entry);
                proof {
                    assert(self.keys@ =~= pre.keys@.update(i as int, entryg));
                    assert(self.keys_view() =~~= pre.keys_view().update(
                        i as int,
                        (circuit_id@, vk@),
                    ));
                    assert(self.recorded_view() == pre.recorded_view());
                    assert(self.wf()) by {
                        assert forall|p: int, q: int|
                            0 <= p < q < self.keys_view().len() implies (
                        #[trigger] self.keys_view()[p]).0 != (#[trigger] self.keys_view()[q]).0 by {
                            assert(pre.keys_view()[p].0 != pre.keys_view()[q].0);
                        }
                    }
                    self.lemma_key_at(circuit_id@, i as int);
                    assert forall|id: Seq<u8>| id != circuit_id@ implies self.has_key(id)
                        == pre.has_key(id) && (pre.has_key(id) ==> self.key_of(id) == pre.key_of(
                        id,
                    )) by {
                        Self::lemma_other_keys(pre, *self, id);
                    }
                }
                Ok(Event::VerifyingKeySet(circuit_id))
            },
            None => {
                let cid_store = crate::bytes::clone_bytes(&circuit_id);
                self.keys.push((cid_store, vk));
                proof {
                    assert(self.keys_view() =~~= pre.keys_view().push((circuit_id@, vk@)));
                    assert(self.recorded_view() == pre.recorded_view());
                    assert(self.wf()) by {
                        assert forall|p: int, q: int|
                            0 <= p < q < self.keys_view().len() implies (
                        #[trigger] self.keys_view()[p]).0 != (#[trigger] self.keys_view()[q]).0 by {
                            if q < pre.keys_view().len() {
                                assert(pre.keys_view()[p].0 != pre.keys_view()[q].0);
                            } else {
                                assert(pre.keys_view()[p].0 != circuit_id@);
                            }
                        }
                    }
                    self.lemma_key_at(circuit_id@, pre.keys_view().len() as int);
                    assert forall|id: Seq<u8>| id != circuit_id@ implies self.has_key(id)
                        == pre.has_key(id) && (pre.has_key(id) ==> self.key_of(id) == pre.key_of(
                        id,
                    )) by {
                        Self::lemma_other_keys(pre, *self, id);
                    }
                }
                Ok(Event::VerifyingKeySet(circuit_id))
            },
        }
    }

    /// Submits a proof by `caller` for the circuit: looks the key up, checks
    /// the three encodings, verifies, rejects a replayed pair, and otherwise
    /// records the pair and reports the notification. On every failure the
    /// registry is unchanged.
    pub fn verify_proof(&mut self, caller: AccountId, proof: ZkProof, circuit_id: Vec<u8>) -> (r:
        Result<Event, Error>)
        requires
            old(self).wf(),
        ensures
            final(self).wf(),
            final(self).spec_config() == old(self).spec_config(),
            final(self).keys_view() == old(self).keys_view(),
            (match old(self).submit_outcome(
                caller,
                proof.proof@,
                byte_views(proof.public_inputs@),
                circuit_id@,
            ) {
                Ok(u) => {
                    &&& r matches Ok(e) && e matches Event::ProofVerified(who, cid) && who == caller
                        && cid@ == circuit_id@
                    &&& final(self).is_recorded(caller, circuit_id@)
                    &&& forall|w: AccountId, c: Seq<u8>|
                        !(w == caller && c == circuit_id@) ==> #[trigger] final(self).is_recorded(
                            w,
                            c,
                        ) == old(self).is_recorded(w, c)
                },
                Err(e) => r == Err::<Event, Error>(e) && *final(self) == *old(self),
            }),
    {
        let i = match find_key(&self.keys, &circuit_id) {
            Some(i) => i,
            None => {
                proof {
                    assert(!self.has_key(circuit_id@));
                }
                return Err(Error::VerifyingKeyNotFound);
            },
        };
        proof {
            self.lemma_key_at(circuit_id@, i as int);
        }
        let vk_ok = vk_decodes(&self.keys[i].1);
        let proof_ok = proof_decodes(&proof.proof);
        let inputs_ok = inputs_decode(&proof.public_inputs);
        if !(vk_ok && proof_ok && inputs_ok) {
            return Err(Error::InvalidEncoding);
        }
        if !groth16_verify(&self.keys[i].1, &proof.proof, &proof.public_inputs) {
            return Err(Error::InvalidProof);
        }
        let already = find_record(&self.verified, caller, &circuit_id);
        proof {
            self.lemma_record_bridge(caller, circuit_id@);
        }
        if already {
            return Err(Error::ProofAlreadyVerified);
        }
        let ghost pre = *self;
        let cid_store = crate::bytes::clone_bytes(&circuit_id);
        self.verified.push((caller, cid_store));
        proof {
            assert(self.recorded_view() =~~= pre.recorded_view().push((caller, circuit_id@)));
            assert(self.wf()) by {
                assert forall|p: int, q: int|
                    0 <= p < q < self.recorded_view().len() implies !((
                #[trigger] self.recorded_view()[p]).0 == (#[trigger] self.recorded_view()[q]).0
                    && self.recorded_view()[p].1 == self.recorded_view()[q].1) by {
                    if q < pre.recorded_view().len() {
                        assert(!(pre.recorded_view()[p].0 == pre.recorded_view()[q].0
                            && pre.recorded_view()[p].1 == pre.recorded_view()[q].1));
                    } else {
                        assert(!pre.is_recorded(caller, circuit_id@));
                        assert(self.recorded_view()[p] == pre.recorded_view()[p]);
                    }
                }
            }
            assert(self.recorded_view()[pre.recorded_view().len() as int].0 == caller);
            assert(self.is_recorded(caller, circuit_id@));
            assert forall|w: AccountId, c: Seq<u8>| !(w == caller && c == circuit_id@) implies
                self.is_recorded(w, c) == pre.is_recorded(w, c) by {
                if self.is_recorded(w, c) {
                    let k = choose|k: int|
                        0 <= k < self.recorded_view().len() && (#[trigger] self.recorded_view()[k])
                            .0 == w && self.recorded_view()[k].1 == c;
                    if k < pre.recorded_view().len() {
                        assert(pre.recorded_view()[k].0 == w && pre.recorded_view()[k].1 == c);
                        assert(pre.is_recorded(w, c));
                    }
                }
                if pre.is_recorded(w, c) {
                    let k = choose|k: int|
                        0 <= k < pre.recorded_view().len() && (#[trigger] pre.recorded_view()[k]).0
                            == w && pre.recorded_view()[k].1 == c;
                    assert(self.recorded_view()[k].0 == w && self.recorded_view()[k].1 == c);
                    assert(self.is_recorded(w, c));
                }
            }
        }
        Ok(Event::ProofVerified(caller, circuit_id))
    }
}

/// Idempotent read: the verified status is a function of the registry state
/// alone, so two reads of the same state, with no submission between them,
/// return the same value.
pub proof fn lemma_status_read_idempotent(
    v: ZkVerifier,
    who: AccountId,
    cid: Seq<u8>,
    r1: bool,
    r2: bool,
)
    requires
        r1 == v.is_recorded(who, cid),
        r2 == v.is_recorded(who, cid),
    ensures
        r1 == r2,
{
}

/// Replay rejection: once a submission for a (subject, circuit) pair has
/// been recorded, a registry with the same keys judges an identical second
/// submission `ProofAlreadyVerified`.
pub proof fn lemma_replay_rejected(
    pre: ZkVerifier,
    post: ZkVerifier,
    who: AccountId,
    proof_bytes: Seq<u8>,
    inputs: Seq<Seq<u8>>,
    cid: Seq<u8>,
)
    requires
        pre.submit_outcome(who, proof_bytes, inputs, cid) == Ok::<(), Error>(()),
        post.is_recorded(who, cid),
        forall|id: Seq<u8>| #[trigger] post.has_key(id) == pre.has_key(id),
        forall|id: Seq<u8>| pre.has_key(id) ==> (#[trigger] post.key_of(id)) == pre.key_of(id),
    ensures
        post.submit_outcome(who, proof_bytes, inputs, cid) == Err::<(), Error>(
            Error::ProofAlreadyVerified,
        ),
{
    assert(post.has_key(cid) == pre.has_key(cid));
    assert(post.key_of(cid) == pre.key_of(cid));
}

/// Key replacement: a submission is judged against the currently registered
/// key alone. After `vk2` replaces the key for a circuit, a proof the new
/// key rejects fails `InvalidProof`, and one it accepts succeeds for an
/// unrecorded pair — whatever key was registered before.
pub proof fn lemma_key_replacement(
    post: ZkVerifier,
    who: AccountId,
    proof_bytes: Seq<u8>,
    inputs: Seq<Seq<u8>>,
    cid: Seq<u8>,
    vk2: Seq<u8>,
)
    requires
        post.has_key(cid),
        post.key_of(cid) == vk2,
        vk_well_formed(vk2),
        proof_well_formed(proof_bytes),
        inputs_all_well_formed(inputs),
    ensures
        !groth16_accepts(vk2, proof_bytes, inputs) ==> post.submit_outcome(
            who,
            proof_bytes,
            inputs,
            cid,
        ) == Err::<(), Error>(Error::InvalidProof),
        groth16_accepts(vk2, proof_bytes, inputs) && !post.is_recorded(who, cid)
            ==> post.submit_outcome(who, proof_bytes, inputs, cid) == Ok::<(), Error>(()),
{
}

} // verus!
