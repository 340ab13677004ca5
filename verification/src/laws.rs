//! The protocol's cross-cutting guarantees, each proved from the operation
//! contracts alone.

use vstd::prelude::*;

use crate::{
    Attestation, CeremonyPhase, Error, Location, Moment, ProofOfAttendance, Reputation, Trait,
};
use crate::registry::Ceremonies;
use crate::attestation::claim_ok;
use crate::assignment::{lemma_last_index_unique, meetup_target_count, stored_total};
use crate::ballot::{lemma_ballot_some, lemma_meetup_requests_iff, meetup_requests, reciprocity};
use crate::storage::{members_lookup, slot_lookup};

verus! {

/// Re-submitting a registration that already succeeded is always refused as
/// AlreadyRegistered: a successful registration leaves the sender with the
/// fresh index `pcount + 1`, and any later attempt in the same ceremony —
/// with or without a proof — then reports exactly that error, so a sender
/// is never counted twice.
pub proof fn lemma_reregistration_rejected<E: Trait>(
    s1: Ceremonies,
    s2: Ceremonies,
    ext: &E,
    sender: u64,
    cid: u64,
    first_proof: Option<ProofOfAttendance>,
    second_proof: Option<ProofOfAttendance>,
)
    requires
        s1.register_check(ext, sender, cid, first_proof) is None,
        s2.pindex_of(cid, ext.ceremony_index_spec(), sender) == (s1.pcount_of(
            cid,
            ext.ceremony_index_spec(),
        ) + 1) as u64,
    ensures
        s2.register_check(ext, sender, cid, second_proof) == Some(Error::AlreadyRegistered),
{
}

/// A consumed credential can never pass the proof check again: whenever the
/// referenced reputation is no longer exactly VerifiedUnlinked — as after a
/// successful registration burned it to VerifiedLinked — registering with
/// that proof is refused, whatever else the request looks like.
pub proof fn lemma_burned_credential_rejected<E: Trait>(
    s: Ceremonies,
    ext: &E,
    sender: u64,
    cid: u64,
    p: ProofOfAttendance,
)
    requires
        s.rep_of(p.currency_identifier, p.ceremony_index, p.attendee_public)
            != Reputation::VerifiedUnlinked,
    ensures
        s.register_check(ext, sender, cid, Some(p)) is Some,
{
}

/// A committed assignment admits at most floor(reputables / 4) newbies,
/// commits at most floor(n / 12) + 1 meetups for the pool n of reputables
/// and admitted newbies, and every surviving meetup holds at least 3
/// registered participants.
pub proof fn lemma_assignment_shape<E: Trait>(s: Ceremonies, ext: &E, cid: u64, ci: u32)
    requires
        s.community_assigned(ext, cid, ci),
    ensures
        s.admitted_newbies_spec(ext, cid, ci) <= s.reputables_spec(ext, cid, ci).len() as int / 4,
        s.mcount_of(cid, ci) <= meetup_target_count(
            s.reputables_spec(ext, cid, ci).len() as int,
            s.admitted_newbies_spec(ext, cid, ci),
        ),
        forall|idx: u64|
            1 <= idx <= s.mcount_of(cid, ci) ==> (#[trigger] s.meetup_of(cid, ci, idx)).len() >= 3,
        stored_total(s.meetup_registry@, cid, ci, s.mcount_of(cid, ci) as int) <= s.reputables_spec(
            ext,
            cid,
            ci,
        ).len() + s.admitted_newbies_spec(ext, cid, ci),
        s.mcount_of(cid, ci) as int == s.assignment_spec(ext, cid, ci).len(),
        forall|idx: u64|
            1 <= idx <= s.mcount_of(cid, ci) ==> #[trigger] s.meetup_of(cid, ci, idx)
                == s.assignment_spec(ext, cid, ci)[idx - 1],
{
}

/// An attestation whose signer equals its claimant never survives
/// filtering, whatever the rest of the claim says.
pub proof fn lemma_no_self_attestation<E: Trait>(
    ext: &E,
    tol_loc: u32,
    tol_time: u64,
    cindex: u32,
    cid: u64,
    mindex: u64,
    mloc: Location,
    mtime: Moment,
    roster: Seq<u64>,
    att: Attestation,
)
    requires
        att.public == att.claim.claimant_public,
    ensures
        !claim_ok(ext, tol_loc, tol_time, cindex, cid, mindex, mloc, mtime, roster, att),
{
}

/// The ballot never pays a meetup whose winning headcount bucket has fewer
/// than 3 votes: reward eligibility requires a successful ballot, and a
/// successful ballot always names a bucket that reached the quorum.
pub proof fn lemma_quorum_needed(s: Ceremonies, cid: u64, ci: u32, m: u64, a: u64)
    requires
        s.meetup_reward_eligible(cid, ci, m, a),
    ensures
        s.ballot_spec(cid, ci, m) is Some,
        (s.ballot_spec(cid, ci, m)->Some_0).1 >= 3,
{
    lemma_ballot_some(s, cid, ci, m);
}

/// A member is reward-eligible only when at least (winning headcount − 1)
/// of the witnesses in their bundle list them back, and their own vote
/// equals the winning headcount.
pub proof fn lemma_reciprocity_needed(s: Ceremonies, cid: u64, ci: u32, m: u64, a: u64)
    requires
        s.meetup_reward_eligible(cid, ci, m, a),
    ensures
        ({
            let p = s.ballot_spec(cid, ci, m)->Some_0;
            let bundle = members_lookup(
                s.attestation_registry@,
                cid,
                ci,
                slot_lookup(s.attestation_index@, cid, ci, a),
            );
            &&& slot_lookup(s.meetup_participant_count_vote@, cid, ci, a) == p.0
            &&& bundle.len() >= p.0 - 1
            &&& reciprocity(s.attestation_registry@, s.attestation_index@, cid, ci, a, bundle)
                >= p.0 - 1
        }),
{
}

/// After a reward pass, any reputation that changed was promoted to
/// VerifiedUnlinked, belongs to the ceremony just adjudicated, and its
/// holder passed the full ballot of some meetup: quorum, matching vote,
/// enough witnesses, and reciprocity.
pub proof fn lemma_reward_needs_ballot(
    s1: Ceremonies,
    s2: Ceremonies,
    cids: Seq<u64>,
    cindex_now: u32,
    c: u64,
    ci: u32,
    a: u64,
)
    requires
        s2.rewards_only(s1, cids, cindex_now),
        s2.rep_of(c, ci, a) != s1.rep_of(c, ci, a),
    ensures
        s2.rep_of(c, ci, a) == Reputation::VerifiedUnlinked,
        cids.contains(c),
        cindex_now >= 1 && ci == cindex_now - 1,
        exists|m: u64| #[trigger] s1.meetup_reward_eligible(c, ci, m, a),
{
}

/// In a committed assignment, a member of meetup `idx` who sits in no later
/// committed meetup has their reverse-index binding equal to `idx` — so
/// with pairwise-disjoint rosters (as registration's unique indices
/// produce), every member is bound to exactly their own meetup.
pub proof fn lemma_member_meetup_index<E: Trait>(
    s: Ceremonies,
    ext: &E,
    cid: u64,
    ci: u32,
    idx: u64,
    a: u64,
)
    requires
        s.community_assigned(ext, cid, ci),
        1 <= idx <= s.mcount_of(cid, ci),
        s.meetup_of(cid, ci, idx).contains(a),
        forall|j: u64| idx < j <= s.mcount_of(cid, ci) ==> !(#[trigger] s.meetup_of(cid, ci, j)).contains(a),
    ensures
        s.mindex_of(cid, ci, a) == idx,
{
    let ms = s.assignment_spec(ext, cid, ci);
    assert(ms[idx - 1] == s.meetup_of(cid, ci, idx));
    assert forall|j: int| idx <= j < ms.len() implies !(#[trigger] ms[j]).contains(a) by {
        assert(ms[j] == s.meetup_of(cid, ci, (j + 1) as u64));
    }
    lemma_last_index_unique(ms, a, idx as int);
}

/// One meetup of the reward pass requests a ledger issuance for an account
/// exactly when the account sits in the roster and passes every pre-ledger
/// check: successful ballot, matching vote, enough witnesses, and enough
/// reciprocating witnesses. In particular a meetup without quorum, a
/// minority voter, or a member with a thin or uncorroborated bundle gets no
/// issue request at all.
pub proof fn lemma_issue_requested_iff_passing(
    s: Ceremonies,
    cid: u64,
    ci: u32,
    m: u64,
    reward: u64,
    a: u64,
)
    ensures
        meetup_requests(
            s.meetup_registry@,
            s.meetup_participant_count_vote@,
            s.attestation_registry@,
            s.attestation_index@,
            cid,
            ci,
            m,
            members_lookup(s.meetup_registry@, cid, ci, m),
            reward,
        ).contains((cid, a, reward)) <==> (members_lookup(s.meetup_registry@, cid, ci, m).contains(
            a,
        ) && s.passes_reward_checks(cid, ci, m, a)),
{
    lemma_meetup_requests_iff(
        s.meetup_registry@,
        s.meetup_participant_count_vote@,
        s.attestation_registry@,
        s.attestation_index@,
        cid,
        ci,
        m,
        members_lookup(s.meetup_registry@, cid, ci, m),
        reward,
        a,
    );
}

/// Registering outside the REGISTERING phase is always refused with
/// PhaseViolation, before any other consideration.
pub proof fn lemma_phase_guard<E: Trait>(
    s: Ceremonies,
    ext: &E,
    sender: u64,
    cid: u64,
    proof_opt: Option<ProofOfAttendance>,
)
    requires
        ext.phase_spec() != CeremonyPhase::Registering,
    ensures
        s.register_check(ext, sender, cid, proof_opt) == Some(Error::PhaseViolation),
{
}

} // verus!
