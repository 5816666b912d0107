//! Per-account attestation storage.
//!
//! The vault records, for each account, which credentials were attested and
//! with which proof bytes. The host environment's opaque account type and its
//! clock are modelled as plain values handed in by the caller.

use vstd::prelude::*;

verus! {

/// An account identifier, modelled as a plain integer. The surrounding
/// application converts the host environment's account type to and from it.
pub type AccountId = u64;

/// One recorded attestation: the credential kind, the proof bytes that backed
/// it, and the time it was recorded.
#[derive(Debug)]
pub struct Attestation {
    pub credential_type: Vec<u8>,
    pub proof: Vec<u8>,
    pub timestamp: u64,
}

impl Attestation {
    /// Mathematical model: credential type and proof as byte sequences, with
    /// the timestamp.
    pub open spec fn model(self) -> (Seq<u8>, Seq<u8>, u64) {
        (self.credential_type@, self.proof@, self.timestamp)
    }
}

/// Errors of the vault operations.
#[derive(Debug, PartialEq, Eq, Structural, Clone, Copy)]
pub enum Error {
    /// The caller is not the vault's owner.
    NotAuthorized,
    /// The supplied proof bytes were rejected.
    InvalidProof,
    /// No attestations are recorded for the account.
    AttestationNotFound,
}

/// The vault: an owner and, per account, the recorded attestations, held as
/// an association list in which each account appears at most once.
pub struct IdentityVault {
    owner: AccountId,
    attestations: Vec<(AccountId, Vec<Attestation>)>,
}

impl Default for IdentityVault {
    /// The vault owned by the zero account, with no attestations.
    fn default() -> (r: Self)
        ensures
            r.wf(),
            r.spec_owner() == 0,
            r.entries().len() == 0,
    {
        IdentityVault::new(0)
    }
}

/// The index of the entry for account `a`, if one exists.
fn find_account(v: &Vec<(AccountId, Vec<Attestation>)>, a: AccountId) -> (r: Option<usize>)
    ensures
        match r {
            Some(i) => i < v@.len() && v@[i as int].0 == a,
            None => forall|k: int| 0 <= k < v@.len() ==> (#[trigger] v@[k]).0 != a,
        },
{
    let n = v.len();
    let mut i: usize = 0;
    while i < n
        invariant
            n == v@.len(),
            0 <= i <= n,
            forall|k: int| 0 <= k < i ==> (#[trigger] v@[k]).0 != a,
        decreases n - i,
    {
        if v[i].0 == a {
            return Some(i);
        }
        i += 1;
    }
    None
}

impl IdentityVault {
    /// The stored entries, each account paired with the models of its
    /// recorded attestations.
    pub closed spec fn entries(self) -> Seq<(AccountId, Seq<(Seq<u8>, Seq<u8>, u64)>)> {
        self.attestations@.map_values(
            |p: (AccountId, Vec<Attestation>)|
                (p.0, p.1@.map_values(|a: Attestation| a.model())),
        )
    }

    /// The vault's owner.
    pub closed spec fn spec_owner(self) -> AccountId {
        self.owner
    }

    /// Each account appears in at most one entry.
    pub open spec fn wf(self) -> bool {
        forall|i: int, j: int|
            0 <= i < j < self.entries().len() ==> (#[trigger] self.entries()[i]).0 != (
            #[trigger] self.entries()[j]).0
    }

    /// Whether some entry is recorded for account `a`.
    pub open spec fn has_account(self, a: AccountId) -> bool {
        exists|i: int| 0 <= i < self.entries().len() && (#[trigger] self.entries()[i]).0 == a
    }

    /// The models of the attestations recorded for `a`; empty when no entry
    /// exists.
    pub open spec fn atts_of(self, a: AccountId) -> Seq<(Seq<u8>, Seq<u8>, u64)> {
        if self.has_account(a) {
            let i = choose|i: int|
                0 <= i < self.entries().len() && (#[trigger] self.entries()[i]).0 == a;
            self.entries()[i].1
        } else {
            Seq::empty()
        }
    }

    /// In a well-formed vault, the entry at any index holding `a` is the one
    /// `atts_of` speaks of.
    proof fn lemma_atts_at(self, a: AccountId, i: int)
        requires
            self.wf(),
            0 <= i < self.entries().len(),
            self.entries()[i].0 == a,
        ensures
            self.has_account(a),
            self.atts_of(a) == self.entries()[i].1,
    {
        assert(self.has_account(a));
        let j = choose|j: int|
            0 <= j < self.entries().len() && (#[trigger] self.entries()[j]).0 == a;
        if i < j {
            assert(self.entries()[i].0 != self.entries()[j].0);
        } else if j < i {
            assert(self.entries()[j].0 != self.entries()[i].0);
        }
    }

    /// Two vaults whose entries agree on every index holding `b` agree on
    /// `b`'s attestations.
    proof fn lemma_other_accounts(v1: Self, v2: Self, b: AccountId)
        requires
            v1.wf(),
            v2.wf(),
            forall|i: int|
                0 <= i < v1.entries().len() && (#[trigger] v1.entries()[i]).0 == b ==> 0 <= i
                    < v2.entries().len() && v2.entries()[i] == v1.entries()[i],
            forall|i: int|
                0 <= i < v2.entries().len() && (#[trigger] v2.entries()[i]).0 == b ==> 0 <= i
                    < v1.entries().len() && v1.entries()[i] == v2.entries()[i],
        ensures
            v1.has_account(b) == v2.has_account(b),
            v1.atts_of(b) == v2.atts_of(b),
    {
        if v1.has_account(b) {
            let i = choose|i: int|
                0 <= i < v1.entries().len() && (#[trigger] v1.entries()[i]).0 == b;
            assert(v2.entries()[i].0 == b);
            v1.lemma_atts_at(b, i);
            v2.lemma_atts_at(b, i);
        } else if v2.has_account(b) {
            let i = choose|i: int|
                0 <= i < v2.entries().len() && (#[trigger] v2.entries()[i]).0 == b;
            assert(v1.entries()[i].0 == b);
        }
    }

    /// Creates a vault owned by `caller`, with no attestations.
    pub fn new(caller: AccountId) -> (r: Self)
        ensures
            r.wf(),
            r.spec_owner() == caller,
            r.entries().len() == 0,
            forall|a: AccountId| !r.has_account(a),
    {
        IdentityVault { owner: caller, attestations: Vec::new() }
    }

    /// The vault's owner.
    pub fn owner(&self) -> (r: AccountId)
        ensures
            r == self.spec_owner(),
    {
        self.owner
    }

    /// Placeholder proof check. A production deployment replaces this with a
    /// cryptographic verification against a registered key; this template
    /// accepts every proof.
    fn verify_proof(&self, _proof: &Vec<u8>) -> (r: bool)
        ensures
            r == true,
    {
        true
    }

    /// Records an attestation of `credential_type` for `account`, backed by
    /// `proof`, at time `now`. Only the owner may record; any other caller is
    /// refused and the vault is unchanged.
    pub fn add_attestation(
        &mut self,
        caller: AccountId,
        account: AccountId,
        credential_type: Vec<u8>,
        proof: Vec<u8>,
        now: u64,
    ) -> (r: Result<(), Error>)
        requires
            old(self).wf(),
        ensures
            final(self).wf(),
            final(self).spec_owner() == old(self).spec_owner(),
            caller != old(self).spec_owner() ==> r == Err::<(), Error>(Error::NotAuthorized)
                && *final(self) == *old(self),
            caller == old(self).spec_owner() ==> r == Ok::<(), Error>(())
                && final(self).atts_of(account) =~= old(self).atts_of(account).push(
                (credential_type@, proof@, now),
            ),
            forall|b: AccountId| b != account ==> final(self).atts_of(b) == old(self).atts_of(b),
            forall|b: AccountId|
                b != account ==> final(self).has_account(b) == old(self).has_account(b),
    {
        if caller != self.owner {
            return Err(Error::NotAuthorized);
        }
        if !self.verify_proof(&proof) {
            return Err(Error::InvalidProof);
        }
        let att = Attestation { credential_type, proof, timestamp: now };
        let ghost attg = att;
        let ghost model = attg.model();
        let ghost pre = *self;
        match find_account(&self.attestations, account) {
            Some(i) => {
                let mut entry = self.attestations.remove(i);
                entry.1.push(att);
                let ghost entryg = entry;
                self.attestations.insert(i, entry);
                proof {
                    assert(self.attestations@ =~= pre.attestations@.update(i as int, entryg));
                    assert(self.entries() =~~= pre.entries().update(
                        i as int,
                        (account, pre.entries()[i as int].1.push(model)),
                    ));
                    assert(self.wf()) by {
                        assert forall|p: int, q: int|
                            0 <= p < q < self.entries().len() implies (
                        #[trigger] self.entries()[p]).0 != (#[trigger] self.entries()[q]).0 by {
                            assert(pre.entries()[p].0 != pre.entries()[q].0);
                        }
                    }
                    pre.lemma_atts_at(account, i as int);
                    self.lemma_atts_at(account, i as int);
                    assert forall|b: AccountId| b != account implies self.atts_of(b) == pre.atts_of(
                        b,
                    ) && self.has_account(b) == pre.has_account(b) by {
                        Self::lemma_other_accounts(pre, *self, b);
                    }
                }
                Ok(())
            },
            None => {
                let mut fresh: Vec<Attestation> = Vec::new();
                fresh.push(att);
                self.attestations.push((account, fresh));
                proof {
                    assert(self.entries() =~~= pre.entries().push(
                        (account, Seq::<(Seq<u8>, Seq<u8>, u64)>::empty().push(model)),
                    ));
                    assert(!pre.has_account(account));
                    assert(self.wf()) by {
                        assert forall|p: int, q: int|
                            0 <= p < q < self.entries().len() implies (
                        #[trigger] self.entries()[p]).0 != (#[trigger] self.entries()[q]).0 by {
                            if q < pre.entries().len() {
                                assert(pre.entries()[p].0 != pre.entries()[q].0);
                            } else {
                                assert(pre.entries()[p].0 != account);
                            }
                        }
                    }
                    self.lemma_atts_at(account, pre.entries().len() as int);
                    assert(pre.atts_of(account).push(model) =~= Seq::<(
                        Seq<u8>,
                        Seq<u8>,
                        u64,
                    )>::empty().push(model));
                    assert forall|b: AccountId| b != account implies self.atts_of(b) == pre.atts_of(
                        b,
                    ) && self.has_account(b) == pre.has_account(b) by {
                        Self::lemma_other_accounts(pre, *self, b);
                    }
                }
                Ok(())
            },
        }
    }

    /// The attestations recorded for `account`; the empty vector when none
    /// are recorded. A missing entry is not an error for this read, matching
    /// the write path, which creates the entry on first attestation.
    pub fn get_attestations(&self, account: AccountId) -> (r: Vec<Attestation>)
        requires
            self.wf(),
        ensures
            r@.map_values(|a: Attestation| a.model()) == self.atts_of(account),
    {
        match find_account(&self.attestations, account) {
            Some(i) => {
                proof {
                    self.lemma_atts_at(account, i as int);
                }
                let atts = &self.attestations[i].1;
                let mut out: Vec<Attestation> = Vec::new();
                let m = atts.len();
                let mut k: usize = 0;
                while k < m
                    invariant
                        m == atts.len(),
                        0 <= k <= m,
                        atts@.map_values(|a: Attestation| a.model()) == self.atts_of(account),
                        out@.len() == k,
                        forall|t: int|
                            0 <= t < k ==> (#[trigger] out@[t]).model() == atts@[t].model(),
                    decreases m - k,
                {
                    let copy = Attestation {
                        credential_type: crate::bytes::clone_bytes(&atts[k].credential_type),
                        proof: crate::bytes::clone_bytes(&atts[k].proof),
                        timestamp: atts[k].timestamp,
                    };
                    out.push(copy);
                    k += 1;
                }
                proof {
                    assert(out@.map_values(|a: Attestation| a.model()) =~= self.atts_of(account));
                }
                out
            },
            None => {
                proof {
                    assert(!self.has_account(account));
                    assert(Seq::<Attestation>::empty().map_values(|a: Attestation| a.model())
                        =~= Seq::<(Seq<u8>, Seq<u8>, u64)>::empty());
                }
                Vec::new()
            },
        }
    }

    /// Whether an attestation of `credential_type` is recorded for `account`.
    /// Fails with `AttestationNotFound` when no entry at all exists for the
    /// account; otherwise reports whether some recorded attestation carries
    /// that credential type.
    pub fn verify_attestation(&self, account: AccountId, credential_type: Vec<u8>) -> (r: Result<
        bool,
        Error,
    >)
        requires
            self.wf(),
        ensures
            !self.has_account(account) ==> r == Err::<bool, Error>(Error::AttestationNotFound),
            self.has_account(account) ==> r == Ok::<bool, Error>(
                exists|k: int|
                    0 <= k < self.atts_of(account).len() && (#[trigger] self.atts_of(account)[k]).0
                        == credential_type@,
            ),
    {
        match find_account(&self.attestations, account) {
            Some(i) => {
                proof {
                    self.lemma_atts_at(account, i as int);
                }
                let atts = &self.attestations[i].1;
                let m = atts.len();
                let mut k: usize = 0;
                while k < m
                    invariant
                        m == atts.len(),
                        0 <= k <= m,
                        atts@.map_values(|a: Attestation| a.model()) == self.atts_of(account),
                        forall|t: int|
                            0 <= t < k ==> (#[trigger] atts@[t]).credential_type@
                                != credential_type@,
                    decreases m - k,
                {
                    if crate::bytes::bytes_eq(&atts[k].credential_type, &credential_type) {
                        proof {
                            assert(self.atts_of(account)[k as int].0 == credential_type@);
                        }
                        return Ok(true);
                    }
                    k += 1;
                }
                proof {
                    assert forall|t: int|
                        0 <= t < self.atts_of(account).len() implies (#[trigger] self.atts_of(
                        account,
                    )[t]).0 != credential_type@ by {
                        assert(atts@[t].credential_type@ != credential_type@);
                    }
                }
                Ok(false)
            },
            None => {
                proof {
                    assert(!self.has_account(account));
                }
                Err(Error::AttestationNotFound)
            },
        }
    }
}

} // verus!
