//! The ceremony registry: all persistent protocol state, the registration
//! operation and the administrative reputation grant.

use vstd::prelude::*;

use crate::{
    AccountId, BalanceAmount, CeremonyIndexType, CeremonyPhase, CurrencyIdentifier, Error,
    ProofOfAttendance, ProofRejection, Reputation, Trait, REPUTATION_LIFETIME,
};
use crate::storage::{
    count_get, count_lookup, lemma_count_push, lemma_rep_push, lemma_slot_push, members_get,
    members_lookup, rep_get, rep_lookup, slot_get, slot_lookup, CountEntry, MembersEntry, RepEntry,
    SlotEntry,
};

verus! {

/// All state of the ceremonies core: per-(community, ceremony) stores, the
/// cross-ceremony reputation map, and the global configuration. The registry
/// is the sole writer of every store.
pub struct Ceremonies {
    /// Participant index (1-based) -> account.
    pub participant_registry: Vec<SlotEntry>,
    /// Account -> participant index (0 = unregistered).
    pub participant_index: Vec<SlotEntry>,
    /// Total registered participants per (community, ceremony).
    pub participant_count: Vec<CountEntry>,
    /// Reputation per (community, ceremony, account); never purged.
    pub participant_reputation: Vec<RepEntry>,
    /// Meetup index (1-based) -> assigned accounts.
    pub meetup_registry: Vec<MembersEntry>,
    /// Account -> meetup index (0 = unassigned).
    pub meetup_index: Vec<SlotEntry>,
    /// Number of committed meetups per (community, ceremony).
    pub meetup_count: Vec<CountEntry>,
    /// Attestation bundle index (1-based) -> witnessing accounts.
    pub attestation_registry: Vec<MembersEntry>,
    /// Account -> its stable attestation bundle index (0 = none).
    pub attestation_index: Vec<SlotEntry>,
    /// Number of attestation bundles per (community, ceremony).
    pub attestation_count: Vec<CountEntry>,
    /// Account -> self-reported observed meetup size.
    pub meetup_participant_count_vote: Vec<SlotEntry>,
    /// Fixed reward issued per verified attendance.
    pub ceremony_reward: BalanceAmount,
    /// Maximum accepted distance from the assigned meetup location.
    pub location_tolerance: u32,
    /// Maximum accepted deviation from the computed meetup time.
    pub time_tolerance: u64,
}

impl Ceremonies {
    pub open spec fn pregistry_of(self, cid: u64, cindex: u32, index: u64) -> u64 {
        slot_lookup(self.participant_registry@, cid, cindex, index)
    }

    pub open spec fn pindex_of(self, cid: u64, cindex: u32, account: u64) -> u64 {
        slot_lookup(self.participant_index@, cid, cindex, account)
    }

    pub open spec fn pcount_of(self, cid: u64, cindex: u32) -> u64 {
        count_lookup(self.participant_count@, cid, cindex)
    }

    pub open spec fn rep_of(self, cid: u64, cindex: u32, account: u64) -> Reputation {
        rep_lookup(self.participant_reputation@, cid, cindex, account)
    }

    pub open spec fn meetup_of(self, cid: u64, cindex: u32, idx: u64) -> Seq<u64> {
        members_lookup(self.meetup_registry@, cid, cindex, idx)
    }

    pub open spec fn mindex_of(self, cid: u64, cindex: u32, account: u64) -> u64 {
        slot_lookup(self.meetup_index@, cid, cindex, account)
    }

    pub open spec fn mcount_of(self, cid: u64, cindex: u32) -> u64 {
        count_lookup(self.meetup_count@, cid, cindex)
    }

    pub open spec fn bundle_of(self, cid: u64, cindex: u32, idx: u64) -> Seq<u64> {
        members_lookup(self.attestation_registry@, cid, cindex, idx)
    }

    pub open spec fn windex_of(self, cid: u64, cindex: u32, account: u64) -> u64 {
        slot_lookup(self.attestation_index@, cid, cindex, account)
    }

    pub open spec fn acount_of(self, cid: u64, cindex: u32) -> u64 {
        count_lookup(self.attestation_count@, cid, cindex)
    }

    pub open spec fn vote_of(self, cid: u64, cindex: u32, account: u64) -> u64 {
        slot_lookup(self.meetup_participant_count_vote@, cid, cindex, account)
    }

    /// The attestation bundle stored for `account`'s own stable bundle index.
    pub open spec fn bundle_for(self, cid: u64, cindex: u32, account: u64) -> Seq<u64> {
        self.bundle_of(cid, cindex, self.windex_of(cid, cindex, account))
    }

    /// An empty registry with the given configuration.
    pub fn new(ceremony_reward: BalanceAmount, location_tolerance: u32, time_tolerance: u64) -> (r:
        Ceremonies)
        ensures
            r.participant_registry@ == Seq::<SlotEntry>::empty(),
            r.participant_index@ == Seq::<SlotEntry>::empty(),
            r.participant_count@ == Seq::<CountEntry>::empty(),
            r.participant_reputation@ == Seq::<RepEntry>::empty(),
            r.meetup_registry@ == Seq::<MembersEntry>::empty(),
            r.meetup_index@ == Seq::<SlotEntry>::empty(),
            r.meetup_count@ == Seq::<CountEntry>::empty(),
            r.attestation_registry@ == Seq::<MembersEntry>::empty(),
            r.attestation_index@ == Seq::<SlotEntry>::empty(),
            r.attestation_count@ == Seq::<CountEntry>::empty(),
            r.meetup_participant_count_vote@ == Seq::<SlotEntry>::empty(),
            r.ceremony_reward == ceremony_reward,
            r.location_tolerance == location_tolerance,
            r.time_tolerance == time_tolerance,
    {
        Ceremonies {
            participant_registry: Vec::new(),
            participant_index: Vec::new(),
            participant_count: Vec::new(),
            participant_reputation: Vec::new(),
            meetup_registry: Vec::new(),
            meetup_index: Vec::new(),
            meetup_count: Vec::new(),
            attestation_registry: Vec::new(),
            attestation_index: Vec::new(),
            attestation_count: Vec::new(),
            meetup_participant_count_vote: Vec::new(),
            ceremony_reward,
            location_tolerance,
            time_tolerance,
        }
    }

    pub fn get_participant_registry(&self, cid: u64, cindex: u32, index: u64) -> (r: u64)
        ensures
            r == self.pregistry_of(cid, cindex, index),
    {
        slot_get(&self.participant_registry, cid, cindex, index)
    }

    pub fn get_participant_index(&self, cid: u64, cindex: u32, account: u64) -> (r: u64)
        ensures
            r == self.pindex_of(cid, cindex, account),
    {
        slot_get(&self.participant_index, cid, cindex, account)
    }

    pub fn get_participant_count(&self, cid: u64, cindex: u32) -> (r: u64)
        ensures
            r == self.pcount_of(cid, cindex),
    {
        count_get(&self.participant_count, cid, cindex)
    }

    pub fn get_participant_reputation(&self, cid: u64, cindex: u32, account: u64) -> (r:
        Reputation)
        ensures
            r == self.rep_of(cid, cindex, account),
    {
        rep_get(&self.participant_reputation, cid, cindex, account)
    }

    pub fn get_meetup_registry(&self, cid: u64, cindex: u32, idx: u64) -> (r: Vec<u64>)
        ensures
            r@ == self.meetup_of(cid, cindex, idx),
    {
        members_get(&self.meetup_registry, cid, cindex, idx)
    }

    pub fn get_meetup_index(&self, cid: u64, cindex: u32, account: u64) -> (r: u64)
        ensures
            r == self.mindex_of(cid, cindex, account),
    {
        slot_get(&self.meetup_index, cid, cindex, account)
    }

    pub fn get_meetup_count(&self, cid: u64, cindex: u32) -> (r: u64)
        ensures
            r == self.mcount_of(cid, cindex),
    {
        count_get(&self.meetup_count, cid, cindex)
    }

    pub fn get_attestation_registry(&self, cid: u64, cindex: u32, idx: u64) -> (r: Vec<u64>)
        ensures
            r@ == self.bundle_of(cid, cindex, idx),
    {
        members_get(&self.attestation_registry, cid, cindex, idx)
    }

    pub fn get_attestation_index(&self, cid: u64, cindex: u32, account: u64) -> (r: u64)
        ensures
            r == self.windex_of(cid, cindex, account),
    {
        slot_get(&self.attestation_index, cid, cindex, account)
    }

    pub fn get_attestation_count(&self, cid: u64, cindex: u32) -> (r: u64)
        ensures
            r == self.acount_of(cid, cindex),
    {
        count_get(&self.attestation_count, cid, cindex)
    }

    pub fn get_meetup_participant_count_vote(&self, cid: u64, cindex: u32, account: u64) -> (r:
        u64)
        ensures
            r == self.vote_of(cid, cindex, account),
    {
        slot_get(&self.meetup_participant_count_vote, cid, cindex, account)
    }

    /// The first rejection a registration request runs into, None if it is
    /// accepted. Checks run in this order: phase, community, duplicate
    /// registration, counter overflow, then the proof of attendance.
    pub open spec fn register_check<E: Trait>(
        self,
        ext: &E,
        sender: AccountId,
        cid: CurrencyIdentifier,
        proof_opt: Option<ProofOfAttendance>,
    ) -> Option<Error> {
        let cindex = ext.ceremony_index_spec();
        if ext.phase_spec() != CeremonyPhase::Registering {
            Some(Error::PhaseViolation)
        } else if !ext.communities_spec().contains(cid) {
            Some(Error::UnknownCommunity)
        } else if self.pindex_of(cid, cindex, sender) != 0 {
            Some(Error::AlreadyRegistered)
        } else if self.pcount_of(cid, cindex) == u64::MAX {
            Some(Error::ArithmeticOverflow)
        } else {
            match proof_opt {
                Option::None => None,
                Option::Some(p) => {
                    if p.prover_public != sender {
                        Some(Error::ProofInvalid(ProofRejection::WrongHolder))
                    } else if !(p.ceremony_index < cindex) {
                        Some(Error::ProofInvalid(ProofRejection::Acausal))
                    } else if p.ceremony_index + REPUTATION_LIFETIME < cindex {
                        Some(Error::ProofInvalid(ProofRejection::Stale))
                    } else if self.rep_of(
                        p.currency_identifier,
                        p.ceremony_index,
                        p.attendee_public,
                    ) != Reputation::VerifiedUnlinked {
                        Some(Error::ProofInvalid(ProofRejection::WrongReputationState))
                    } else if !ext.proof_signature_valid_spec(p) {
                        Some(Error::ProofInvalid(ProofRejection::BadSignature))
                    } else {
                        None
                    }
                },
            }
        }
    }

    /// Register `sender` for the current ceremony of community `cid`,
    /// optionally consuming a proof of attendance. Atomic: any rejection
    /// leaves the state untouched; on success the sender receives the next
    /// sequential index, and with a proof the source credential is burned to
    /// VerifiedLinked while the sender starts as UnverifiedReputable.
    pub fn register_participant<E: Trait>(
        &mut self,
        ext: &E,
        sender: AccountId,
        cid: CurrencyIdentifier,
        proof_opt: Option<ProofOfAttendance>,
    ) -> (r: Result<(), Error>)
        ensures
            match old(self).register_check(ext, sender, cid, proof_opt) {
                Some(e) => r == Err::<(), Error>(e) && *final(self) == *old(self),
                None => ({
                    let cindex = ext.ceremony_index_spec();
                    let nc = (old(self).pcount_of(cid, cindex) + 1) as u64;
                    &&& r == Ok::<(), Error>(())
                    &&& final(self).participant_registry@ == old(self).participant_registry@.push(
                        (SlotEntry { cid, cindex, key: nc, val: sender }),
                    )
                    &&& final(self).participant_index@ == old(self).participant_index@.push(
                        (SlotEntry { cid, cindex, key: sender, val: nc }),
                    )
                    &&& final(self).participant_count@ == old(self).participant_count@.push(
                        (CountEntry { cid, cindex, count: nc }),
                    )
                    &&& final(self).meetup_registry == old(self).meetup_registry
                    &&& final(self).meetup_index == old(self).meetup_index
                    &&& final(self).meetup_count == old(self).meetup_count
                    &&& final(self).attestation_registry == old(self).attestation_registry
                    &&& final(self).attestation_index == old(self).attestation_index
                    &&& final(self).attestation_count == old(self).attestation_count
                    &&& final(self).meetup_participant_count_vote == old(
                        self,
                    ).meetup_participant_count_vote
                    &&& final(self).ceremony_reward == old(self).ceremony_reward
                    &&& final(self).location_tolerance == old(self).location_tolerance
                    &&& final(self).time_tolerance == old(self).time_tolerance
                    &&& final(self).pcount_of(cid, cindex) == nc
                    &&& final(self).pindex_of(cid, cindex, sender) == nc
                    &&& final(self).pregistry_of(cid, cindex, nc) == sender
                    &&& forall|c: u64, ci: u32, a: u64|
                        !(c == cid && ci == cindex && a == sender) ==> #[trigger] final(self).pindex_of(
                            c,
                            ci,
                            a,
                        ) == old(self).pindex_of(c, ci, a)
                    &&& match proof_opt {
                        Option::None => final(self).participant_reputation == old(
                            self,
                        ).participant_reputation,
                        Option::Some(p) => {
                            &&& final(self).participant_reputation@ == old(
                                self,
                            ).participant_reputation@.push(
                                (RepEntry {
                                    cid: p.currency_identifier,
                                    cindex: p.ceremony_index,
                                    account: p.attendee_public,
                                    rep: Reputation::VerifiedLinked,
                                }),
                            ).push(
                                (RepEntry {
                                    cid,
                                    cindex,
                                    account: sender,
                                    rep: Reputation::UnverifiedReputable,
                                }),
                            )
                            &&& final(self).rep_of(
                                p.currency_identifier,
                                p.ceremony_index,
                                p.attendee_public,
                            ) == Reputation::VerifiedLinked
                            &&& final(self).rep_of(cid, cindex, sender)
                                == Reputation::UnverifiedReputable
                            &&& forall|c: u64, ci: u32, a: u64|
                                !(c == p.currency_identifier && ci == p.ceremony_index && a
                                    == p.attendee_public) && !(c == cid && ci == cindex && a
                                    == sender) ==> #[trigger] final(self).rep_of(c, ci, a) == old(
                                    self,
                                ).rep_of(c, ci, a)
                        },
                    }
                }),
            },
    {
        let cindex = ext.current_ceremony_index();
        if ext.current_phase() != CeremonyPhase::Registering {
            return Err(Error::PhaseViolation);
        }
        let cids = ext.currency_identifiers();
        if !crate::storage::contains_u64(&cids, cid) {
            return Err(Error::UnknownCommunity);
        }
        if slot_get(&self.participant_index, cid, cindex, sender) != 0 {
            return Err(Error::AlreadyRegistered);
        }
        let count = count_get(&self.participant_count, cid, cindex);
        if count == u64::MAX {
            return Err(Error::ArithmeticOverflow);
        }
        let new_count = count + 1;
        if let Some(p) = proof_opt {
            if p.prover_public != sender {
                return Err(Error::ProofInvalid(ProofRejection::WrongHolder));
            }
            if !(p.ceremony_index < cindex) {
                return Err(Error::ProofInvalid(ProofRejection::Acausal));
            }
            if p.ceremony_index + REPUTATION_LIFETIME < cindex {
                return Err(Error::ProofInvalid(ProofRejection::Stale));
            }
            if rep_get(
                &self.participant_reputation,
                p.currency_identifier,
                p.ceremony_index,
                p.attendee_public,
            ) != Reputation::VerifiedUnlinked {
                return Err(Error::ProofInvalid(ProofRejection::WrongReputationState));
            }
            if !ext.verify_proof_signature(&p) {
                return Err(Error::ProofInvalid(ProofRejection::BadSignature));
            }
            // The source credential is burned so it can never be used again.
            let ghost pre_reps = self.participant_reputation@;
            let burned = RepEntry {
                cid: p.currency_identifier,
                cindex: p.ceremony_index,
                account: p.attendee_public,
                rep: Reputation::VerifiedLinked,
            };
            self.participant_reputation.push(burned);
            proof {
                lemma_rep_push(pre_reps, burned);
            }
            let ghost mid_reps = self.participant_reputation@;
            let fresh = RepEntry {
                cid,
                cindex,
                account: sender,
                rep: Reputation::UnverifiedReputable,
            };
            self.participant_reputation.push(fresh);
            proof {
                lemma_rep_push(mid_reps, fresh);
            }
        }
        let ghost pre_registry = self.participant_registry@;
        let ghost pre_index = self.participant_index@;
        let ghost pre_count = self.participant_count@;
        self.participant_registry.push(SlotEntry { cid, cindex, key: new_count, val: sender });
        self.participant_index.push(SlotEntry { cid, cindex, key: sender, val: new_count });
        self.participant_count.push(CountEntry { cid, cindex, count: new_count });
        proof {
            lemma_slot_push(
                pre_registry,
                SlotEntry { cid, cindex, key: new_count, val: sender },
            );
            lemma_slot_push(pre_index, SlotEntry { cid, cindex, key: sender, val: new_count });
            lemma_count_push(pre_count, CountEntry { cid, cindex, count: new_count });
        }
        Ok(())
    }

    /// Administratively set the reputation of `reputable` for the previous
    /// ceremony of `cid` to VerifiedUnlinked. Only the designated ceremony
    /// master may call this; there is deliberately no phase restriction.
    pub fn grant_reputation<E: Trait>(
        &mut self,
        ext: &E,
        sender: AccountId,
        cid: CurrencyIdentifier,
        reputable: AccountId,
    ) -> (r: Result<(), Error>)
        ensures
            sender != ext.master_spec() ==> r == Err::<(), Error>(Error::NotCeremonyMaster)
                && *final(self) == *old(self),
            sender == ext.master_spec() && ext.ceremony_index_spec() == 0 ==> r == Err::<
                (),
                Error,
            >(Error::ArithmeticOverflow) && *final(self) == *old(self),
            sender == ext.master_spec() && ext.ceremony_index_spec() >= 1 ==> ({
                let ci = (ext.ceremony_index_spec() - 1) as u32;
                &&& r == Ok::<(), Error>(())
                &&& final(self).participant_reputation@ == old(self).participant_reputation@.push(
                    (RepEntry {
                        cid,
                        cindex: ci,
                        account: reputable,
                        rep: Reputation::VerifiedUnlinked,
                    }),
                )
                &&& final(self).rep_of(cid, ci, reputable) == Reputation::VerifiedUnlinked
                &&& forall|c: u64, i: u32, a: u64|
                    !(c == cid && i == ci && a == reputable) ==> #[trigger] final(self).rep_of(c, i, a)
                        == old(self).rep_of(c, i, a)
                &&& final(self).participant_registry == old(self).participant_registry
                &&& final(self).participant_index == old(self).participant_index
                &&& final(self).participant_count == old(self).participant_count
                &&& final(self).meetup_registry == old(self).meetup_registry
                &&& final(self).meetup_index == old(self).meetup_index
                &&& final(self).meetup_count == old(self).meetup_count
                &&& final(self).attestation_registry == old(self).attestation_registry
                &&& final(self).attestation_index == old(self).attestation_index
                &&& final(self).attestation_count == old(self).attestation_count
                &&& final(self).meetup_participant_count_vote == old(self).meetup_participant_count_vote
            }),
    {
        if sender != ext.ceremony_master() {
            return Err(Error::NotCeremonyMaster);
        }
        let cindex = ext.current_ceremony_index();
        if cindex == 0 {
            return Err(Error::ArithmeticOverflow);
        }
        let ghost pre_reps = self.participant_reputation@;
        let entry = RepEntry {
            cid,
            cindex: cindex - 1,
            account: reputable,
            rep: Reputation::VerifiedUnlinked,
        };
        self.participant_reputation.push(entry);
        proof {
            lemma_rep_push(pre_reps, entry);
        }
        Ok(())
    }
}

} // verus!
