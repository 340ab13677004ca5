//! Purge of concluded ceremonies and the phase-change hook that the external
//! phase authority invokes on every transition.

use vstd::prelude::*;

use crate::{CeremonyIndexType, CeremonyPhase, Reputation, Trait};
use crate::ballot::paid_since;
use crate::registry::Ceremonies;
use crate::storage::{count_purge, members_purge, slot_purge, slot_lookup, members_lookup, count_lookup};

verus! {

impl Ceremonies {
    /// Clear the participant, meetup and attestation stores of ceremony
    /// `cindex` for every community. Reputation entries are untouched and
    /// stay queryable.
    pub fn purge_registry(&mut self, cindex: CeremonyIndexType)
        ensures
            final(self).participant_reputation == old(self).participant_reputation,
            final(self).ceremony_reward == old(self).ceremony_reward,
            final(self).location_tolerance == old(self).location_tolerance,
            final(self).time_tolerance == old(self).time_tolerance,
            forall|c: u64, ci: u32, key: u64|
                #[trigger] slot_lookup(final(self).participant_registry@, c, ci, key) == (if ci
                    == cindex {
                    0u64
                } else {
                    slot_lookup(old(self).participant_registry@, c, ci, key)
                }),
            forall|c: u64, ci: u32, key: u64|
                #[trigger] slot_lookup(final(self).participant_index@, c, ci, key) == (if ci
                    == cindex {
                    0u64
                } else {
                    slot_lookup(old(self).participant_index@, c, ci, key)
                }),
            forall|c: u64, ci: u32|
                #[trigger] count_lookup(final(self).participant_count@, c, ci) == (if ci == cindex {
                    0u64
                } else {
                    count_lookup(old(self).participant_count@, c, ci)
                }),
            forall|c: u64, ci: u32, idx: u64|
                #[trigger] members_lookup(final(self).meetup_registry@, c, ci, idx) == (if ci
                    == cindex {
                    Seq::<u64>::empty()
                } else {
                    members_lookup(old(self).meetup_registry@, c, ci, idx)
                }),
            forall|c: u64, ci: u32, key: u64|
                #[trigger] slot_lookup(final(self).meetup_index@, c, ci, key) == (if ci == cindex {
                    0u64
                } else {
                    slot_lookup(old(self).meetup_index@, c, ci, key)
                }),
            forall|c: u64, ci: u32|
                #[trigger] count_lookup(final(self).meetup_count@, c, ci) == (if ci == cindex {
                    0u64
                } else {
                    count_lookup(old(self).meetup_count@, c, ci)
                }),
            forall|c: u64, ci: u32, idx: u64|
                #[trigger] members_lookup(final(self).attestation_registry@, c, ci, idx) == (if ci
                    == cindex {
                    Seq::<u64>::empty()
                } else {
                    members_lookup(old(self).attestation_registry@, c, ci, idx)
                }),
            forall|c: u64, ci: u32, key: u64|
                #[trigger] slot_lookup(final(self).attestation_index@, c, ci, key) == (if ci
                    == cindex {
                    0u64
                } else {
                    slot_lookup(old(self).attestation_index@, c, ci, key)
                }),
            forall|c: u64, ci: u32|
                #[trigger] count_lookup(final(self).attestation_count@, c, ci) == (if ci == cindex {
                    0u64
                } else {
                    count_lookup(old(self).attestation_count@, c, ci)
                }),
            forall|c: u64, ci: u32, key: u64|
                #[trigger] slot_lookup(final(self).meetup_participant_count_vote@, c, ci, key) == (
                if ci == cindex {
                    0u64
                } else {
                    slot_lookup(old(self).meetup_participant_count_vote@, c, ci, key)
                }),
    {
        self.participant_registry = slot_purge(&self.participant_registry, cindex);
        self.participant_index = slot_purge(&self.participant_index, cindex);
        self.participant_count = count_purge(&self.participant_count, cindex);
        self.meetup_registry = members_purge(&self.meetup_registry, cindex);
        self.meetup_index = slot_purge(&self.meetup_index, cindex);
        self.meetup_count = count_purge(&self.meetup_count, cindex);
        self.attestation_registry = members_purge(&self.attestation_registry, cindex);
        self.attestation_index = slot_purge(&self.attestation_index, cindex);
        self.attestation_count = count_purge(&self.attestation_count, cindex);
        self.meetup_participant_count_vote = slot_purge(&self.meetup_participant_count_vote, cindex);
    }

    /// Entry point for the external phase authority. ASSIGNING entry runs
    /// the assignment engine; REGISTERING entry runs the reward ballot for
    /// the previous ceremony and then purges its stores; ATTESTING entry
    /// changes nothing.
    pub fn on_ceremony_phase_change<E: Trait>(&mut self, ext: &mut E, new_phase: CeremonyPhase)
        ensures
            new_phase == CeremonyPhase::Attesting ==> *final(self) == *old(self),
            new_phase == CeremonyPhase::Assigning ==> ({
                &&& final(self).participant_registry == old(self).participant_registry
                &&& final(self).participant_index == old(self).participant_index
                &&& final(self).participant_count == old(self).participant_count
                &&& final(self).participant_reputation == old(self).participant_reputation
                &&& final(self).attestation_registry == old(self).attestation_registry
                &&& final(self).attestation_index == old(self).attestation_index
                &&& final(self).attestation_count == old(self).attestation_count
                &&& final(self).meetup_participant_count_vote == old(
                    self,
                ).meetup_participant_count_vote
                &&& final(self).ceremony_reward == old(self).ceremony_reward
                &&& final(self).location_tolerance == old(self).location_tolerance
                &&& final(self).time_tolerance == old(self).time_tolerance
                &&& forall|c: u64, ci2: u32|
                    !(old(ext).communities_spec().contains(c) && ci2 == old(
                        ext,
                    ).ceremony_index_spec()) ==> #[trigger] final(self).same_meetups_key(
                        *old(self),
                        c,
                        ci2,
                    )
                &&& forall|t: int|
                    0 <= t < old(ext).communities_spec().len() ==> final(self).community_settled(
                        *old(self),
                        &(*old(ext)),
                        #[trigger] old(ext).communities_spec()[t],
                        old(ext).ceremony_index_spec(),
                    )
            }),
            new_phase == CeremonyPhase::Registering ==> ({
                let cindex_now = old(ext).ceremony_index_spec();
                &&& final(self).rewards_only(
                    *old(self),
                    old(ext).communities_spec(),
                    cindex_now,
                )
                &&& (old(ext).phase_spec() == CeremonyPhase::Registering && cindex_now >= 1
                    ==> ({
                    let ci_prev = (cindex_now - 1) as u32;
                    let reqs = old(self).all_requests_spec(
                        old(ext).communities_spec(),
                        ci_prev,
                        old(self).ceremony_reward,
                    );
                    let log0 = old(ext).issued_log();
                    let log1 = final(ext).issued_log();
                    &&& log1.len() == log0.len() + reqs.len()
                    &&& forall|i: int| 0 <= i < log0.len() ==> #[trigger] log1[i] == log0[i]
                    &&& forall|i: int|
                        0 <= i < reqs.len() ==> ((#[trigger] log1[log0.len() + i]).0,
                        log1[log0.len() + i].1, log1[log0.len() + i].2) == reqs[i]
                    &&& forall|c: u64, ci2: u32, a: u64|
                        #[trigger] final(self).rep_of(c, ci2, a) == (if ci2 == ci_prev
                            && paid_since(
                            log1,
                            log0.len() as int,
                            c,
                            a,
                            old(self).ceremony_reward,
                        ) {
                            Reputation::VerifiedUnlinked
                        } else {
                            old(self).rep_of(c, ci2, a)
                        })
                }))
                &&& final(self).ceremony_reward == old(self).ceremony_reward
                &&& final(self).location_tolerance == old(self).location_tolerance
                &&& final(self).time_tolerance == old(self).time_tolerance
                &&& (cindex_now >= 1 ==> ({
                    let prev = (cindex_now - 1) as u32;
                    &&& forall|c: u64| #[trigger] final(self).pcount_of(c, prev) == 0
                    &&& forall|c: u64| #[trigger] final(self).mcount_of(c, prev) == 0
                    &&& forall|c: u64| #[trigger] final(self).acount_of(c, prev) == 0
                    &&& forall|c: u64, key: u64|
                        #[trigger] final(self).pindex_of(c, prev, key) == 0
                    &&& forall|c: u64, idx: u64|
                        #[trigger] final(self).meetup_of(c, prev, idx) == Seq::<u64>::empty()
                    &&& forall|c: u64, idx: u64|
                        #[trigger] final(self).bundle_of(c, prev, idx) == Seq::<u64>::empty()
                    &&& forall|c: u64, key: u64| #[trigger] final(self).vote_of(c, prev, key) == 0
                }))
                &&& (cindex_now == 0 ==> *final(self) == *old(self))
            }),
    {
        match new_phase {
            CeremonyPhase::Assigning => {
                self.assign_meetups(ext);
            },
            CeremonyPhase::Attesting => {},
            CeremonyPhase::Registering => {
                let cindex = ext.current_ceremony_index();
                self.issue_rewards(ext);
                let ghost mid = *self;
                if cindex >= 1 {
                    self.purge_registry(cindex - 1);
                }
                proof {
                    assert forall|c: u64, ci2: u32, a: u64|
                        #[trigger] self.rep_of(c, ci2, a) != old(self).rep_of(c, ci2, a) implies (
                    self.rep_of(c, ci2, a) == Reputation::VerifiedUnlinked && old(self).eligible(
                        old(ext).communities_spec(),
                        old(ext).ceremony_index_spec(),
                        c,
                        ci2,
                        a,
                    )) by {
                        assert(self.rep_of(c, ci2, a) == mid.rep_of(c, ci2, a));
                        assert(mid.rep_of(c, ci2, a) != old(self).rep_of(c, ci2, a));
                    }
                    assert forall|c: u64, ci2: u32, a: u64|
                        #[trigger] self.rep_of(c, ci2, a) == mid.rep_of(c, ci2, a) by {}
                }
            },
        }
    }
}

} // verus!
