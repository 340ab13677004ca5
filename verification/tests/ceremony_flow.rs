use encointer_ceremonies::env::FixedEnv;
use encointer_ceremonies::registry::Ceremonies;
use encointer_ceremonies::attestation::{get_meetup_location, get_meetup_time};
use encointer_ceremonies::storage::{CountEntry, MembersEntry, SlotEntry};
use encointer_ceremonies::{
    Attestation, CeremonyPhase, ClaimOfAttendance, Error, Location, Reputation,
};

const CID: u64 = 1;
const MASTER: u64 = 999;
const REWARD: u64 = 100;

fn env(phase: CeremonyPhase, cindex: u32) -> FixedEnv {
    FixedEnv {
        phase,
        ceremony_index: cindex,
        master: MASTER,
        community_ids: vec![CID],
        bootstrappers: vec![],
        location_table: vec![(CID, Location { lat: 10, lon: 20 })],
        attesting_duration: 1000,
        next_phase_start: 10000,
        day_length: 86400,
        ledger_accepts: true,
        issued: vec![],
    }
}

fn state() -> Ceremonies {
    Ceremonies::new(REWARD, 5, 600)
}

// The meetup start computed from the table above: the ATTESTING phase starts
// at 10000 - 1000 = 9000, one day later is 95400, and longitude 20 shifts it
// 20 * (86400 / 360) = 4800 backwards.
const MEETUP_TIME: u64 = 90600;

fn setup_meetup(s: &mut Ceremonies, ci: u32, members: &[u64]) {
    s.meetup_registry.push(MembersEntry {
        cid: CID,
        cindex: ci,
        idx: 1,
        members: members.to_vec(),
    });
    for &m in members {
        s.meetup_index.push(SlotEntry { cid: CID, cindex: ci, key: m, val: 1 });
    }
    s.meetup_count.push(CountEntry { cid: CID, cindex: ci, count: 1 });
}

fn set_vote(s: &mut Ceremonies, ci: u32, account: u64, vote: u64) {
    s.meetup_participant_count_vote.push(SlotEntry {
        cid: CID,
        cindex: ci,
        key: account,
        val: vote,
    });
}

fn set_bundle(s: &mut Ceremonies, ci: u32, owner: u64, idx: u64, witnesses: &[u64]) {
    s.attestation_index.push(SlotEntry { cid: CID, cindex: ci, key: owner, val: idx });
    s.attestation_registry.push(MembersEntry {
        cid: CID,
        cindex: ci,
        idx,
        members: witnesses.to_vec(),
    });
    s.attestation_count.push(CountEntry { cid: CID, cindex: ci, count: idx });
}

fn claim_by(claimant: u64, loc: Location, ts: u64, confirmed: u32) -> ClaimOfAttendance {
    ClaimOfAttendance {
        claimant_public: claimant,
        ceremony_index: 1,
        currency_identifier: CID,
        meetup_index: 1,
        location: loc,
        timestamp: ts,
        number_of_participants_confirmed: confirmed,
    }
}

fn witness(claim: ClaimOfAttendance, signer: u64) -> Attestation {
    Attestation { claim, signature: signer, public: signer }
}

#[test]
fn assignment_nine_reputables_three_newbies() {
    let mut e = env(CeremonyPhase::Registering, 1);
    for a in 1..=9u64 {
        e.bootstrappers.push((CID, a));
    }
    let mut s = state();
    for a in 1..=12u64 {
        assert_eq!(s.register_participant(&e, a, CID, None), Ok(()));
    }
    s.assign_meetups(&e);
    // Admitted newbies = min(3, 9 / 4) = 2, n = 11, meetups = 11 / 12 + 1 = 1.
    assert_eq!(s.get_meetup_count(CID, 1), 1);
    let meetup = s.get_meetup_registry(CID, 1, 1);
    assert_eq!(meetup, vec![1, 2, 3, 4, 5, 6, 7, 8, 9, 10, 11]);
    assert_eq!(s.get_meetup_index(CID, 1, 5), 1);
    assert_eq!(s.get_meetup_index(CID, 1, 12), 0);
}

#[test]
fn assignment_forty_reputables_round_robin() {
    let mut e = env(CeremonyPhase::Registering, 1);
    for a in 1..=40u64 {
        e.bootstrappers.push((CID, a));
    }
    let mut s = state();
    for a in 1..=40u64 {
        assert_eq!(s.register_participant(&e, a, CID, None), Ok(()));
    }
    s.assign_meetups(&e);
    // meetups = 40 / 12 + 1 = 4, reputables spread 10 each by index modulo 4.
    assert_eq!(s.get_meetup_count(CID, 1), 4);
    for m in 1..=4u64 {
        assert_eq!(s.get_meetup_registry(CID, 1, m).len(), 10);
    }
    assert_eq!(
        s.get_meetup_registry(CID, 1, 1),
        vec![1, 5, 9, 13, 17, 21, 25, 29, 33, 37]
    );
}

#[test]
fn assignment_discards_undersized_meetups() {
    let mut e = env(CeremonyPhase::Registering, 1);
    e.bootstrappers.push((CID, 1));
    e.bootstrappers.push((CID, 2));
    let mut s = state();
    assert_eq!(s.register_participant(&e, 1, CID, None), Ok(()));
    assert_eq!(s.register_participant(&e, 2, CID, None), Ok(()));
    s.assign_meetups(&e);
    assert_eq!(s.get_meetup_count(CID, 1), 0);
    assert_eq!(s.get_meetup_registry(CID, 1, 1), Vec::<u64>::new());
    assert_eq!(s.get_meetup_index(CID, 1, 1), 0);
}

#[test]
fn assignment_admits_one_newbie_per_four_reputables() {
    let mut e = env(CeremonyPhase::Registering, 1);
    for a in 1..=4u64 {
        e.bootstrappers.push((CID, a));
    }
    let mut s = state();
    for a in 1..=14u64 {
        assert_eq!(s.register_participant(&e, a, CID, None), Ok(()));
    }
    s.assign_meetups(&e);
    // Admitted newbies = min(10, 4 / 4) = 1: only the first newbie joins.
    assert_eq!(s.get_meetup_count(CID, 1), 1);
    assert_eq!(s.get_meetup_registry(CID, 1, 1), vec![1, 2, 3, 4, 5]);
}

#[test]
fn assignment_admits_no_newbie_below_four_reputables() {
    let mut e = env(CeremonyPhase::Registering, 1);
    for a in 1..=3u64 {
        e.bootstrappers.push((CID, a));
    }
    let mut s = state();
    for a in 1..=8u64 {
        assert_eq!(s.register_participant(&e, a, CID, None), Ok(()));
    }
    s.assign_meetups(&e);
    assert_eq!(s.get_meetup_registry(CID, 1, 1), vec![1, 2, 3]);
}

#[test]
fn register_counter_overflow_fails_only_that_operation() {
    let e = env(CeremonyPhase::Registering, 1);
    let mut s = state();
    s.participant_count.push(CountEntry { cid: CID, cindex: 1, count: u64::MAX });
    assert_eq!(s.register_participant(&e, 10, CID, None), Err(Error::ArithmeticOverflow));
    // Another ceremony of the same community is unaffected.
    let e2 = env(CeremonyPhase::Registering, 2);
    let mut s2 = state();
    s2.participant_count.push(CountEntry { cid: CID, cindex: 1, count: u64::MAX });
    assert_eq!(s2.register_participant(&e2, 10, CID, None), Ok(()));
}

#[test]
fn ballot_quorum_example() {
    let mut s = state();
    setup_meetup(&mut s, 1, &[1, 2, 3, 4, 5]);
    set_vote(&mut s, 1, 1, 5);
    set_vote(&mut s, 1, 2, 5);
    set_vote(&mut s, 1, 3, 5);
    set_vote(&mut s, 1, 4, 4);
    set_vote(&mut s, 1, 5, 4);
    assert_eq!(s.ballot_meetup_n_votes(CID, 1, 1), Some((5, 3)));
}

#[test]
fn ballot_tie_prefers_first_encountered_value() {
    let mut s = state();
    setup_meetup(&mut s, 1, &[1, 2, 3, 4, 5, 6]);
    for a in 1..=3u64 {
        set_vote(&mut s, 1, a, 7);
    }
    for a in 4..=6u64 {
        set_vote(&mut s, 1, a, 4);
    }
    assert_eq!(s.ballot_meetup_n_votes(CID, 1, 1), Some((7, 3)));
}

#[test]
fn ballot_without_quorum_is_none() {
    let mut s = state();
    setup_meetup(&mut s, 1, &[1, 2, 3]);
    set_vote(&mut s, 1, 1, 5);
    set_vote(&mut s, 1, 2, 5);
    set_vote(&mut s, 1, 3, 4);
    assert_eq!(s.ballot_meetup_n_votes(CID, 1, 1), None);
    assert_eq!(s.ballot_meetup_n_votes(CID, 1, 2), None);
}

#[test]
fn ballot_ignores_missing_votes() {
    let mut s = state();
    setup_meetup(&mut s, 1, &[1, 2, 3, 4]);
    set_vote(&mut s, 1, 2, 5);
    set_vote(&mut s, 1, 3, 5);
    set_vote(&mut s, 1, 4, 5);
    assert_eq!(s.ballot_meetup_n_votes(CID, 1, 1), Some((5, 3)));
}

#[test]
fn attestations_accept_valid_and_drop_invalid() {
    let e = env(CeremonyPhase::Attesting, 1);
    let mut s = state();
    setup_meetup(&mut s, 1, &[10, 11, 12, 13]);
    let loc = Location { lat: 10, lon: 20 };
    let good = claim_by(10, loc, MEETUP_TIME, 4);
    let atts = vec![
        witness(good, 11),
        // Self-signed: signer equals claimant, always dropped.
        witness(good, 10),
        witness(good, 12),
    ];
    assert_eq!(s.register_attestations(&e, 10, atts), Ok(()));
    assert_eq!(s.get_attestation_index(CID, 1, 10), 1);
    assert_eq!(s.get_attestation_registry(CID, 1, 1), vec![11, 12]);
    assert_eq!(s.get_attestation_count(CID, 1), 1);
    assert_eq!(s.get_meetup_participant_count_vote(CID, 1, 10), 4);
}

#[test]
fn attestations_overwrite_previous_bundle() {
    let e = env(CeremonyPhase::Attesting, 1);
    let mut s = state();
    setup_meetup(&mut s, 1, &[10, 11, 12, 13]);
    let loc = Location { lat: 10, lon: 20 };
    let first = vec![witness(claim_by(10, loc, MEETUP_TIME, 4), 11)];
    let second = vec![witness(claim_by(10, loc, MEETUP_TIME, 3), 13)];
    assert_eq!(s.register_attestations(&e, 10, first), Ok(()));
    assert_eq!(s.register_attestations(&e, 10, second), Ok(()));
    assert_eq!(s.get_attestation_index(CID, 1, 10), 1);
    assert_eq!(s.get_attestation_registry(CID, 1, 1), vec![13]);
    assert_eq!(s.get_attestation_count(CID, 1), 1);
    assert_eq!(s.get_meetup_participant_count_vote(CID, 1, 10), 3);
}

#[test]
fn attestation_errors() {
    let e = env(CeremonyPhase::Attesting, 1);
    let mut s = state();
    setup_meetup(&mut s, 1, &[10, 11, 12, 13]);
    let loc = Location { lat: 10, lon: 20 };
    let good = claim_by(10, loc, MEETUP_TIME, 4);
    // Wrong phase.
    let er = env(CeremonyPhase::Registering, 1);
    assert_eq!(
        s.register_attestations(&er, 10, vec![witness(good, 11)]),
        Err(Error::PhaseViolation)
    );
    // Empty submission.
    assert_eq!(s.register_attestations(&e, 10, vec![]), Err(Error::NoValidAttestations));
    // Unknown community.
    let mut foreign = good;
    foreign.currency_identifier = 77;
    assert_eq!(
        s.register_attestations(&e, 10, vec![witness(foreign, 11)]),
        Err(Error::UnknownCommunity)
    );
    // Caller without a meetup assignment.
    assert_eq!(
        s.register_attestations(&e, 99, vec![witness(good, 11)]),
        Err(Error::NotInMeetup)
    );
    // More attestations than other members.
    let many = vec![
        witness(good, 11),
        witness(good, 12),
        witness(good, 13),
        witness(good, 11),
    ];
    assert_eq!(s.register_attestations(&e, 10, many), Err(Error::TooManyAttestations));
    // Only a self-signed claim: nothing survives.
    assert_eq!(
        s.register_attestations(&e, 10, vec![witness(good, 10)]),
        Err(Error::NoValidAttestations)
    );
    // Nothing was stored by the failed submissions.
    assert_eq!(s.get_attestation_count(CID, 1), 0);
}

#[test]
fn attestations_drop_claims_out_of_bounds() {
    let e = env(CeremonyPhase::Attesting, 1);
    let mut s = state();
    setup_meetup(&mut s, 1, &[10, 11, 12, 13]);
    // Beyond the location tolerance of 5.
    let far = claim_by(10, Location { lat: 10, lon: 26 }, MEETUP_TIME, 4);
    assert_eq!(
        s.register_attestations(&e, 10, vec![witness(far, 11)]),
        Err(Error::NoValidAttestations)
    );
    // Not a valid geolocation at all.
    let invalid = claim_by(10, Location { lat: 10, lon: 300 }, MEETUP_TIME, 4);
    assert_eq!(
        s.register_attestations(&e, 10, vec![witness(invalid, 11)]),
        Err(Error::NoValidAttestations)
    );
    // Beyond the time tolerance of 600, in both directions.
    let late = claim_by(10, Location { lat: 10, lon: 20 }, MEETUP_TIME + 601, 4);
    let early = claim_by(10, Location { lat: 10, lon: 20 }, MEETUP_TIME - 601, 4);
    assert_eq!(
        s.register_attestations(&e, 10, vec![witness(late, 11), witness(early, 12)]),
        Err(Error::NoValidAttestations)
    );
    // Within tolerance both ways is accepted.
    let edge = claim_by(10, Location { lat: 10, lon: 20 }, MEETUP_TIME - 600, 4);
    assert_eq!(s.register_attestations(&e, 10, vec![witness(edge, 11)]), Ok(()));
}

#[test]
fn attestation_unresolvable_meetup_location() {
    let e = env(CeremonyPhase::Attesting, 1);
    let mut s = state();
    // The caller sits in meetup 2, but the community has only one location.
    s.meetup_registry.push(MembersEntry {
        cid: CID,
        cindex: 1,
        idx: 2,
        members: vec![10, 11, 12],
    });
    s.meetup_index.push(SlotEntry { cid: CID, cindex: 1, key: 10, val: 2 });
    let mut c = claim_by(10, Location { lat: 10, lon: 20 }, MEETUP_TIME, 3);
    c.meetup_index = 2;
    assert_eq!(
        s.register_attestations(&e, 10, vec![witness(c, 11)]),
        Err(Error::LocationOrTimeUnresolvable)
    );
}

#[test]
fn meetup_location_and_time() {
    let e = env(CeremonyPhase::Attesting, 1);
    assert_eq!(get_meetup_location(&e, &CID, 1), Some(Location { lat: 10, lon: 20 }));
    assert_eq!(get_meetup_location(&e, &CID, 0), None);
    assert_eq!(get_meetup_location(&e, &CID, 2), None);
    assert_eq!(get_meetup_time(&e, &CID, 1), Some(MEETUP_TIME));
    // A western longitude shifts the meetup later instead of earlier.
    let mut west = env(CeremonyPhase::Attesting, 1);
    west.location_table = vec![(CID, Location { lat: 10, lon: -20 })];
    assert_eq!(get_meetup_time(&west, &CID, 1), Some(100200));
    // Outside the ATTESTING phase the time is unresolvable.
    let idle = env(CeremonyPhase::Registering, 1);
    assert_eq!(get_meetup_time(&idle, &CID, 1), None);
}

#[test]
fn rewards_paid_to_corroborated_members() {
    let mut e = env(CeremonyPhase::Registering, 2);
    let mut s = state();
    setup_meetup(&mut s, 1, &[10, 11, 12]);
    for &a in &[10u64, 11, 12] {
        set_vote(&mut s, 1, a, 3);
    }
    set_bundle(&mut s, 1, 10, 1, &[11, 12]);
    set_bundle(&mut s, 1, 11, 2, &[10, 12]);
    set_bundle(&mut s, 1, 12, 3, &[10, 11]);
    s.issue_rewards(&mut e);
    assert_eq!(
        e.issued,
        vec![(CID, 10, REWARD, true), (CID, 11, REWARD, true), (CID, 12, REWARD, true)]
    );
    for &a in &[10u64, 11, 12] {
        assert_eq!(s.get_participant_reputation(CID, 1, a), Reputation::VerifiedUnlinked);
    }
}

#[test]
fn rewards_skip_meetup_without_quorum() {
    let mut e = env(CeremonyPhase::Registering, 2);
    let mut s = state();
    setup_meetup(&mut s, 1, &[10, 11, 12]);
    set_vote(&mut s, 1, 10, 3);
    set_vote(&mut s, 1, 11, 3);
    set_bundle(&mut s, 1, 10, 1, &[11, 12]);
    set_bundle(&mut s, 1, 11, 2, &[10, 12]);
    set_bundle(&mut s, 1, 12, 3, &[10, 11]);
    s.issue_rewards(&mut e);
    assert_eq!(e.issued, Vec::<(u64, u64, u64, bool)>::new());
    assert_eq!(s.get_participant_reputation(CID, 1, 10), Reputation::Unverified);
}

#[test]
fn rewards_require_reciprocity() {
    let mut e = env(CeremonyPhase::Registering, 2);
    let mut s = state();
    setup_meetup(&mut s, 1, &[10, 11, 12]);
    for &a in &[10u64, 11, 12] {
        set_vote(&mut s, 1, a, 3);
    }
    // 11 only vouches for 12, so 10 lacks reciprocity and 11 lacks witnesses.
    set_bundle(&mut s, 1, 10, 1, &[11, 12]);
    set_bundle(&mut s, 1, 11, 2, &[12]);
    set_bundle(&mut s, 1, 12, 3, &[10, 11]);
    s.issue_rewards(&mut e);
    assert_eq!(e.issued, vec![(CID, 12, REWARD, true)]);
    assert_eq!(s.get_participant_reputation(CID, 1, 10), Reputation::Unverified);
    assert_eq!(s.get_participant_reputation(CID, 1, 11), Reputation::Unverified);
    assert_eq!(s.get_participant_reputation(CID, 1, 12), Reputation::VerifiedUnlinked);
}

#[test]
fn rewards_skip_wrong_vote() {
    let mut e = env(CeremonyPhase::Registering, 2);
    let mut s = state();
    setup_meetup(&mut s, 1, &[10, 11, 12, 13, 14]);
    set_vote(&mut s, 1, 10, 5);
    set_vote(&mut s, 1, 11, 5);
    set_vote(&mut s, 1, 12, 5);
    set_vote(&mut s, 1, 13, 4);
    set_vote(&mut s, 1, 14, 4);
    // Perfect bundles for the minority voters change nothing: their vote
    // differs from the winning headcount.
    set_bundle(&mut s, 1, 13, 1, &[10, 11, 12, 14]);
    set_bundle(&mut s, 1, 14, 2, &[10, 11, 12, 13]);
    s.issue_rewards(&mut e);
    assert_eq!(e.issued, Vec::<(u64, u64, u64, bool)>::new());
}

#[test]
fn rewards_without_ledger_leave_reputation_unset() {
    let mut e = env(CeremonyPhase::Registering, 2);
    e.ledger_accepts = false;
    let mut s = state();
    setup_meetup(&mut s, 1, &[10, 11, 12]);
    for &a in &[10u64, 11, 12] {
        set_vote(&mut s, 1, a, 3);
    }
    set_bundle(&mut s, 1, 10, 1, &[11, 12]);
    set_bundle(&mut s, 1, 11, 2, &[10, 12]);
    set_bundle(&mut s, 1, 12, 3, &[10, 11]);
    s.issue_rewards(&mut e);
    // Every passing member was requested, but the ledger declined each one.
    assert_eq!(
        e.issued,
        vec![(CID, 10, REWARD, false), (CID, 11, REWARD, false), (CID, 12, REWARD, false)]
    );
    assert_eq!(s.get_participant_reputation(CID, 1, 10), Reputation::Unverified);
}

#[test]
fn phase_change_purges_concluded_ceremony() {
    let mut e = env(CeremonyPhase::Registering, 2);
    let reg = env(CeremonyPhase::Registering, 1);
    let mut s = state();
    assert_eq!(s.register_participant(&reg, 10, CID, None), Ok(()));
    setup_meetup(&mut s, 1, &[10, 11, 12]);
    set_vote(&mut s, 1, 10, 3);
    set_bundle(&mut s, 1, 10, 1, &[11, 12]);
    assert_eq!(s.grant_reputation(&e, MASTER, CID, 10), Ok(()));
    // Data of the running ceremony index 2 must survive the purge.
    s.meetup_registry.push(MembersEntry { cid: CID, cindex: 2, idx: 1, members: vec![7, 8, 9] });
    s.on_ceremony_phase_change(&mut e, CeremonyPhase::Registering);
    assert_eq!(s.get_participant_count(CID, 1), 0);
    assert_eq!(s.get_participant_index(CID, 1, 10), 0);
    assert_eq!(s.get_participant_registry(CID, 1, 1), 0);
    assert_eq!(s.get_meetup_count(CID, 1), 0);
    assert_eq!(s.get_meetup_registry(CID, 1, 1), Vec::<u64>::new());
    assert_eq!(s.get_meetup_index(CID, 1, 10), 0);
    assert_eq!(s.get_attestation_count(CID, 1), 0);
    assert_eq!(s.get_attestation_registry(CID, 1, 1), Vec::<u64>::new());
    assert_eq!(s.get_attestation_index(CID, 1, 10), 0);
    assert_eq!(s.get_meetup_participant_count_vote(CID, 1, 10), 0);
    // Reputation is keyed independently and stays queryable.
    assert_eq!(s.get_participant_reputation(CID, 1, 10), Reputation::VerifiedUnlinked);
    assert_eq!(s.get_meetup_registry(CID, 2, 1), vec![7, 8, 9]);
}

#[test]
fn phase_change_dispatch() {
    let mut e = env(CeremonyPhase::Assigning, 1);
    for a in 1..=3u64 {
        e.bootstrappers.push((CID, a));
    }
    let reg = env(CeremonyPhase::Registering, 1);
    let mut s = state();
    for a in 1..=3u64 {
        assert_eq!(s.register_participant(&reg, a, CID, None), Ok(()));
    }
    // ATTESTING entry is a no-op.
    s.on_ceremony_phase_change(&mut e, CeremonyPhase::Attesting);
    assert_eq!(s.get_meetup_count(CID, 1), 0);
    // ASSIGNING entry runs the assignment engine.
    s.on_ceremony_phase_change(&mut e, CeremonyPhase::Assigning);
    assert_eq!(s.get_meetup_count(CID, 1), 1);
    assert_eq!(s.get_meetup_registry(CID, 1, 1), vec![1, 2, 3]);
}
