//! Attestation collection and validation during the ATTESTING phase, and the
//! meetup location/time queries it relies on.

use vstd::prelude::*;

use crate::{
    Attestation, CeremonyPhase, CurrencyIdentifier, Error, Location, MeetupIndexType, Moment,
    ProofOfAttendance, ProofRejection, Trait,
};
use crate::registry::Ceremonies;
use crate::storage::{
    contains_u64, count_get, lemma_count_push, lemma_members_push, lemma_slot_push, members_get,
    slot_get, CountEntry, MembersEntry, SlotEntry,
};

verus! {

/// The assigned location of a meetup: the community's 1-indexed location
/// list, looked up by meetup index; None when the index is out of range.
pub open spec fn meetup_location_spec<E: Trait>(
    ext: &E,
    cid: CurrencyIdentifier,
    meetup_idx: MeetupIndexType,
) -> Option<Location> {
    let locs = ext.locations_spec(cid);
    if 1 <= meetup_idx && meetup_idx <= locs.len() {
        Some(locs[meetup_idx - 1])
    } else {
        None
    }
}

/// The computed start moment of a meetup: one day after the ATTESTING phase
/// begins, shifted by the meetup location's longitude (a day divided by 360
/// per degree, towards local noon). None outside the ATTESTING phase, for an
/// unknown location, or when the arithmetic leaves the moment range.
pub open spec fn meetup_time_spec<E: Trait>(
    ext: &E,
    cid: CurrencyIdentifier,
    meetup_idx: MeetupIndexType,
) -> Option<Moment> {
    if ext.phase_spec() != CeremonyPhase::Attesting {
        None
    } else {
        match meetup_location_spec(ext, cid, meetup_idx) {
            None => None,
            Some(loc) => {
                let day = ext.moments_per_day_spec() as int;
                let perdegree = day / 360;
                let duration = ext.phase_duration_spec(CeremonyPhase::Attesting) as int;
                let next = ext.next_phase_timestamp_spec() as int;
                if next < duration {
                    None
                } else {
                    let start = next - duration;
                    let abs_lon = if loc.lon >= 0 {
                        loc.lon as int
                    } else {
                        -(loc.lon as int)
                    };
                    let lon_time = abs_lon * perdegree;
                    let t = if loc.lon < 0 {
                        start + day + lon_time
                    } else {
                        start + day - lon_time
                    };
                    if 0 <= t && t <= u64::MAX {
                        Some(t as u64)
                    } else {
                        None
                    }
                }
            },
        }
    }
}

/// Whether a claimed moment lies within `tol` of the computed meetup time,
/// in either direction.
pub open spec fn time_ok(mtime: Moment, ts: Moment, tol: u64) -> bool {
    if mtime >= ts {
        mtime - ts <= tol
    } else {
        ts - mtime <= tol
    }
}

/// `s` with every occurrence of `x` removed, order kept.
pub open spec fn roster_without(s: Seq<u64>, x: u64) -> Seq<u64>
    decreases s.len(),
{
    if s.len() == 0 {
        Seq::<u64>::empty()
    } else {
        let pre = roster_without(s.drop_last(), x);
        if s.last() == x {
            pre
        } else {
            pre.push(s.last())
        }
    }
}

/// Removing the occurrences of a present element strictly shrinks a roster.
pub proof fn lemma_roster_without_len(s: Seq<u64>, x: u64)
    ensures
        roster_without(s, x).len() <= s.len(),
        s.contains(x) ==> roster_without(s, x).len() < s.len(),
    decreases s.len(),
{
    if s.len() == 0 {
    } else {
        lemma_roster_without_len(s.drop_last(), x);
        if s.contains(x) && s.last() != x {
            assert(exists|i: int| 0 <= i < s.len() && s[i] == x);
            let i = choose|i: int| 0 <= i < s.len() && s[i] == x;
            assert(s.drop_last()[i] == x);
            assert(s.drop_last().contains(x));
        }
    }
}

/// Whether one attestation survives filtering: its signer is another member
/// of the caller's meetup roster, the claim matches the caller's context, the
/// location is valid and close enough, the moment within tolerance, and the
/// witness signature verifies and is not self-signed.
pub open spec fn claim_ok<E: Trait>(
    ext: &E,
    tol_loc: u32,
    tol_time: u64,
    cindex: u32,
    cid: CurrencyIdentifier,
    mindex: MeetupIndexType,
    mloc: Location,
    mtime: Moment,
    roster: Seq<u64>,
    att: Attestation,
) -> bool {
    &&& roster.contains(att.public)
    &&& att.claim.ceremony_index == cindex
    &&& att.claim.currency_identifier == cid
    &&& att.claim.meetup_index == mindex
    &&& ext.geo_valid_spec(att.claim.location)
    &&& ext.distance_spec(mloc, att.claim.location) <= tol_loc
    &&& time_ok(mtime, att.claim.timestamp, tol_time)
    &&& att.public != att.claim.claimant_public
    &&& ext.claim_signature_valid_spec(att.claim, att.signature, att.public)
}

/// The signers of the attestations that survive filtering, in submission
/// order.
pub open spec fn accepted_signers<E: Trait>(
    ext: &E,
    tol_loc: u32,
    tol_time: u64,
    cindex: u32,
    cid: CurrencyIdentifier,
    mindex: MeetupIndexType,
    mloc: Location,
    mtime: Moment,
    roster: Seq<u64>,
    atts: Seq<Attestation>,
) -> Seq<u64>
    decreases atts.len(),
{
    if atts.len() == 0 {
        Seq::<u64>::empty()
    } else {
        let pre = accepted_signers(
            ext,
            tol_loc,
            tol_time,
            cindex,
            cid,
            mindex,
            mloc,
            mtime,
            roster,
            atts.drop_last(),
        );
        if claim_ok(ext, tol_loc, tol_time, cindex, cid, mindex, mloc, mtime, roster, atts.last()) {
            pre.push(atts.last().public)
        } else {
            pre
        }
    }
}

/// No more signers survive than attestations were submitted.
pub proof fn lemma_accepted_len<E: Trait>(
    ext: &E,
    tol_loc: u32,
    tol_time: u64,
    cindex: u32,
    cid: CurrencyIdentifier,
    mindex: MeetupIndexType,
    mloc: Location,
    mtime: Moment,
    roster: Seq<u64>,
    atts: Seq<Attestation>,
)
    ensures
        accepted_signers(
            ext,
            tol_loc,
            tol_time,
            cindex,
            cid,
            mindex,
            mloc,
            mtime,
            roster,
            atts,
        ).len() <= atts.len(),
    decreases atts.len(),
{
    if atts.len() == 0 {
    } else {
        lemma_accepted_len(
            ext,
            tol_loc,
            tol_time,
            cindex,
            cid,
            mindex,
            mloc,
            mtime,
            roster,
            atts.drop_last(),
        );
    }
}

/// The headcount vote carried by the last surviving attestation, 0 if none
/// survives.
pub open spec fn last_accepted_vote<E: Trait>(
    ext: &E,
    tol_loc: u32,
    tol_time: u64,
    cindex: u32,
    cid: CurrencyIdentifier,
    mindex: MeetupIndexType,
    mloc: Location,
    mtime: Moment,
    roster: Seq<u64>,
    atts: Seq<Attestation>,
) -> u32
    decreases atts.len(),
{
    if atts.len() == 0 {
        0u32
    } else if claim_ok(
        ext,
        tol_loc,
        tol_time,
        cindex,
        cid,
        mindex,
        mloc,
        mtime,
        roster,
        atts.last(),
    ) {
        atts.last().claim.number_of_participants_confirmed
    } else {
        last_accepted_vote(
            ext,
            tol_loc,
            tol_time,
            cindex,
            cid,
            mindex,
            mloc,
            mtime,
            roster,
            atts.drop_last(),
        )
    }
}

/// The assigned location of a meetup, from the community registry's ordered
/// location list.
pub fn get_meetup_location<E: Trait>(
    ext: &E,
    cid: &CurrencyIdentifier,
    meetup_idx: MeetupIndexType,
) -> (r: Option<Location>)
    ensures
        r == meetup_location_spec(ext, *cid, meetup_idx),
{
    let locations = ext.locations(*cid);
    if 1 <= meetup_idx && meetup_idx <= locations.len() as u64 {
        Some(locations[(meetup_idx - 1) as usize])
    } else {
        None
    }
}

/// The computed start moment of a meetup; resolvable only during ATTESTING.
pub fn get_meetup_time<E: Trait>(
    ext: &E,
    cid: &CurrencyIdentifier,
    meetup_idx: MeetupIndexType,
) -> (r: Option<Moment>)
    ensures
        r == meetup_time_spec(ext, *cid, meetup_idx),
{
    if ext.current_phase() != CeremonyPhase::Attesting {
        return None;
    }
    let mloc = match get_meetup_location(ext, cid, meetup_idx) {
        Some(l) => l,
        None => {
            return None;
        },
    };
    let day = ext.moments_per_day();
    let perdegree = day / 360;
    let duration = ext.phase_durations(CeremonyPhase::Attesting);
    let next = ext.next_phase_timestamp();
    if next < duration {
        return None;
    }
    let start = next - duration;
    let abs_lon: u64 = if mloc.lon >= 0 {
        mloc.lon as u64
    } else {
        (-(mloc.lon as i128)) as u64
    };
    proof {
        assert((abs_lon as u128) * (perdegree as u128) <= (u64::MAX as u128) * (u64::MAX as u128))
            by (nonlinear_arith)
            requires
                abs_lon <= u64::MAX,
                perdegree <= u64::MAX,
        ;
    }
    let lon_time: u128 = (abs_lon as u128) * (perdegree as u128);
    if mloc.lon < 0 {
        let t: u128 = (start as u128) + (day as u128) + lon_time;
        if t <= u64::MAX as u128 {
            Some(t as u64)
        } else {
            None
        }
    } else {
        let base: u128 = (start as u128) + (day as u128);
        if base >= lon_time {
            let t: u128 = base - lon_time;
            if t <= u64::MAX as u128 {
                Some(t as u64)
            } else {
                None
            }
        } else {
            None
        }
    }
}

/// An attestation is acceptable only if it is not self-signed and its
/// witness signature verifies; relies on the signature capability.
pub fn verify_attestation_signature<E: Trait>(ext: &E, attestation: &Attestation) -> (r: Result<
    (),
    Error,
>)
    ensures
        r == (if attestation.public != attestation.claim.claimant_public
            && ext.claim_signature_valid_spec(
            attestation.claim,
            attestation.signature,
            attestation.public,
        ) {
            Ok::<(), Error>(())
        } else {
            Err::<(), Error>(Error::BadAttestationSignature)
        }),
{
    if attestation.public == attestation.claim.claimant_public {
        return Err(Error::BadAttestationSignature);
    }
    if ext.verify_claim_signature(&attestation.claim, attestation.signature, attestation.public) {
        Ok(())
    } else {
        Err(Error::BadAttestationSignature)
    }
}

/// A proof of attendance must carry the attendee's signature over
/// (prover, ceremony index); relies on the signature capability.
pub fn verify_attendee_signature<E: Trait>(ext: &E, proof_of: &ProofOfAttendance) -> (r: Result<
    (),
    Error,
>)
    ensures
        r == (if ext.proof_signature_valid_spec(*proof_of) {
            Ok::<(), Error>(())
        } else {
            Err::<(), Error>(Error::ProofInvalid(ProofRejection::BadSignature))
        }),
{
    if ext.verify_proof_signature(proof_of) {
        Ok(())
    } else {
        Err(Error::ProofInvalid(ProofRejection::BadSignature))
    }
}

impl Ceremonies {
    /// The first rejection an attestation submission runs into, None if it
    /// is accepted.
    pub open spec fn attestations_check<E: Trait>(
        self,
        ext: &E,
        sender: u64,
        atts: Seq<Attestation>,
    ) -> Option<Error> {
        let cindex = ext.ceremony_index_spec();
        if ext.phase_spec() != CeremonyPhase::Attesting {
            Some(Error::PhaseViolation)
        } else if atts.len() == 0 {
            Some(Error::NoValidAttestations)
        } else {
            let cid = atts[0].claim.currency_identifier;
            if !ext.communities_spec().contains(cid) {
                Some(Error::UnknownCommunity)
            } else {
                let mindex = self.mindex_of(cid, cindex, sender);
                let meetup = self.meetup_of(cid, cindex, mindex);
                if !meetup.contains(sender) {
                    Some(Error::NotInMeetup)
                } else {
                    let roster = roster_without(meetup, sender);
                    if atts.len() > roster.len() {
                        Some(Error::TooManyAttestations)
                    } else {
                        match meetup_location_spec(ext, cid, mindex) {
                            None => Some(Error::LocationOrTimeUnresolvable),
                            Some(mloc) => match meetup_time_spec(ext, cid, mindex) {
                                None => Some(Error::LocationOrTimeUnresolvable),
                                Some(mtime) => {
                                    if accepted_signers(
                                        ext,
                                        self.location_tolerance,
                                        self.time_tolerance,
                                        cindex,
                                        cid,
                                        mindex,
                                        mloc,
                                        mtime,
                                        roster,
                                        atts,
                                    ).len() == 0 {
                                        Some(Error::NoValidAttestations)
                                    } else if self.windex_of(cid, cindex, sender) == 0
                                        && self.acount_of(cid, cindex) == u64::MAX {
                                        Some(Error::ArithmeticOverflow)
                                    } else {
                                        None
                                    }
                                },
                            },
                        }
                    }
                }
            }
        }
    }

    /// The stable bundle index an accepted submission of `sender` writes to:
    /// the one already assigned this ceremony, or the next fresh index.
    pub open spec fn bundle_slot<E: Trait>(self, ext: &E, sender: u64, cid: u64) -> u64 {
        let cindex = ext.ceremony_index_spec();
        if self.windex_of(cid, cindex, sender) != 0 {
            self.windex_of(cid, cindex, sender)
        } else {
            (self.acount_of(cid, cindex) + 1) as u64
        }
    }

    /// Accept a non-empty batch of attestation claims about the caller's own
    /// meetup. Invalid entries are dropped silently; if none survives the
    /// whole call fails with NoValidAttestations and no state change. On
    /// success the surviving signer list overwrites the caller's stable
    /// bundle, and the caller's headcount vote is taken from the last
    /// surviving claim. The accepted count is always at most the meetup size
    /// minus one.
    pub fn register_attestations<E: Trait>(
        &mut self,
        ext: &E,
        sender: u64,
        attestations: Vec<Attestation>,
    ) -> (r: Result<(), Error>)
        ensures
            match old(self).attestations_check(ext, sender, attestations@) {
                Some(e) => r == Err::<(), Error>(e) && *final(self) == *old(self),
                None => ({
                    let cindex = ext.ceremony_index_spec();
                    let cid = attestations@[0].claim.currency_identifier;
                    let mindex = old(self).mindex_of(cid, cindex, sender);
                    let meetup = old(self).meetup_of(cid, cindex, mindex);
                    let roster = roster_without(meetup, sender);
                    let mloc = meetup_location_spec(ext, cid, mindex)->Some_0;
                    let mtime = meetup_time_spec(ext, cid, mindex)->Some_0;
                    let acc = accepted_signers(
                        ext,
                        old(self).location_tolerance,
                        old(self).time_tolerance,
                        cindex,
                        cid,
                        mindex,
                        mloc,
                        mtime,
                        roster,
                        attestations@,
                    );
                    let vote = last_accepted_vote(
                        ext,
                        old(self).location_tolerance,
                        old(self).time_tolerance,
                        cindex,
                        cid,
                        mindex,
                        mloc,
                        mtime,
                        roster,
                        attestations@,
                    );
                    let idx = old(self).bundle_slot(ext, sender, cid);
                    &&& r == Ok::<(), Error>(())
                    &&& acc.len() < meetup.len()
                    &&& final(self).bundle_of(cid, cindex, idx) == acc
                    &&& forall|c: u64, ci: u32, w: u64|
                        !(c == cid && ci == cindex && w == idx) ==> #[trigger] final(self).bundle_of(c, ci, w) == old(self).bundle_of(c, ci, w)
                    &&& final(self).windex_of(cid, cindex, sender) == idx
                    &&& forall|c: u64, ci: u32, a: u64|
                        !(c == cid && ci == cindex && a == sender) ==> #[trigger] final(self).windex_of(c, ci, a) == old(self).windex_of(c, ci, a)
                    &&& final(self).acount_of(cid, cindex) == (if old(self).windex_of(
                        cid,
                        cindex,
                        sender,
                    ) != 0 {
                        old(self).acount_of(cid, cindex)
                    } else {
                        (old(self).acount_of(cid, cindex) + 1) as u64
                    })
                    &&& forall|c: u64, ci: u32|
                        !(c == cid && ci == cindex) ==> #[trigger] final(self).acount_of(c, ci)
                            == old(self).acount_of(c, ci)
                    &&& final(self).vote_of(cid, cindex, sender) == vote as u64
                    &&& forall|c: u64, ci: u32, a: u64|
                        !(c == cid && ci == cindex && a == sender) ==> #[trigger] final(self).vote_of(c, ci, a) == old(self).vote_of(c, ci, a)
                    &&& final(self).participant_registry == old(self).participant_registry
                    &&& final(self).participant_index == old(self).participant_index
                    &&& final(self).participant_count == old(self).participant_count
                    &&& final(self).participant_reputation == old(self).participant_reputation
                    &&& final(self).meetup_registry == old(self).meetup_registry
                    &&& final(self).meetup_index == old(self).meetup_index
                    &&& final(self).meetup_count == old(self).meetup_count
                    &&& final(self).ceremony_reward == old(self).ceremony_reward
                    &&& final(self).location_tolerance == old(self).location_tolerance
                    &&& final(self).time_tolerance == old(self).time_tolerance
                }),
            },
    {
        let cindex = ext.current_ceremony_index();
        if ext.current_phase() != CeremonyPhase::Attesting {
            return Err(Error::PhaseViolation);
        }
        if attestations.len() == 0 {
            return Err(Error::NoValidAttestations);
        }
        let cid = attestations[0].claim.currency_identifier;
        let cids = ext.currency_identifiers();
        if !contains_u64(&cids, cid) {
            return Err(Error::UnknownCommunity);
        }
        let mindex = slot_get(&self.meetup_index, cid, cindex, sender);
        let meetup = members_get(&self.meetup_registry, cid, cindex, mindex);
        if !contains_u64(&meetup, sender) {
            return Err(Error::NotInMeetup);
        }
        // Remaining roster: the caller's meetup without the caller.
        let mut roster: Vec<u64> = Vec::new();
        let mut i: usize = 0;
        while i < meetup.len()
            invariant
                i <= meetup@.len(),
                roster@ == roster_without(meetup@.take(i as int), sender),
            decreases meetup@.len() - i,
        {
            proof {
                assert(meetup@.take(i as int + 1).drop_last() =~= meetup@.take(i as int));
                assert(meetup@.take(i as int + 1).last() == meetup@[i as int]);
            }
            if meetup[i] != sender {
                roster.push(meetup[i]);
            }
            i = i + 1;
        }
        proof {
            assert(meetup@.take(meetup@.len() as int) =~= meetup@);
        }
        if attestations.len() > roster.len() {
            return Err(Error::TooManyAttestations);
        }
        let mloc = match get_meetup_location(ext, &cid, mindex) {
            Some(l) => l,
            None => {
                return Err(Error::LocationOrTimeUnresolvable);
            },
        };
        let mtime = match get_meetup_time(ext, &cid, mindex) {
            Some(t) => t,
            None => {
                return Err(Error::LocationOrTimeUnresolvable);
            },
        };
        let ghost tol_loc = self.location_tolerance;
        let ghost tol_time = self.time_tolerance;
        let mut verified_attestation_accounts: Vec<u64> = Vec::new();
        let mut claim_n_participants: u32 = 0;
        let mut w: usize = 0;
        while w < attestations.len()
            invariant
                w <= attestations@.len(),
                tol_loc == self.location_tolerance,
                tol_time == self.time_tolerance,
                verified_attestation_accounts@ == accepted_signers(
                    ext,
                    tol_loc,
                    tol_time,
                    cindex,
                    cid,
                    mindex,
                    mloc,
                    mtime,
                    roster@,
                    attestations@.take(w as int),
                ),
                claim_n_participants == last_accepted_vote(
                    ext,
                    tol_loc,
                    tol_time,
                    cindex,
                    cid,
                    mindex,
                    mloc,
                    mtime,
                    roster@,
                    attestations@.take(w as int),
                ),
            decreases attestations@.len() - w,
        {
            let att = attestations[w];
            proof {
                assert(attestations@.take(w as int + 1).drop_last() =~= attestations@.take(
                    w as int,
                ));
                assert(attestations@.take(w as int + 1).last() == att);
            }
            let mut ok: bool = contains_u64(&roster, att.public);
            if ok && att.claim.ceremony_index != cindex {
                ok = false;
            }
            if ok && att.claim.currency_identifier != cid {
                ok = false;
            }
            if ok && att.claim.meetup_index != mindex {
                ok = false;
            }
            if ok && !ext.is_valid_geolocation(&att.claim.location) {
                ok = false;
            }
            if ok && ext.haversine_distance(&mloc, &att.claim.location) > self.location_tolerance {
                ok = false;
            }
            if ok {
                let within = if mtime >= att.claim.timestamp {
                    mtime - att.claim.timestamp <= self.time_tolerance
                } else {
                    att.claim.timestamp - mtime <= self.time_tolerance
                };
                if !within {
                    ok = false;
                }
            }
            if ok && verify_attestation_signature(ext, &att).is_err() {
                ok = false;
            }
            if ok {
                verified_attestation_accounts.push(att.public);
                claim_n_participants = att.claim.number_of_participants_confirmed;
            }
            w = w + 1;
        }
        proof {
            assert(attestations@.take(attestations@.len() as int) =~= attestations@);
        }
        if verified_attestation_accounts.len() == 0 {
            return Err(Error::NoValidAttestations);
        }
        let existing = slot_get(&self.attestation_index, cid, cindex, sender);
        let count = count_get(&self.attestation_count, cid, cindex);
        let idx: u64;
        if existing != 0 {
            idx = existing;
        } else {
            if count == u64::MAX {
                return Err(Error::ArithmeticOverflow);
            }
            let new_count = count + 1;
            let ghost pre_counts = self.attestation_count@;
            self.attestation_count.push(CountEntry { cid, cindex, count: new_count });
            proof {
                lemma_count_push(pre_counts, CountEntry { cid, cindex, count: new_count });
            }
            idx = new_count;
        }
        proof {
            lemma_accepted_len(
                ext,
                tol_loc,
                tol_time,
                cindex,
                cid,
                mindex,
                mloc,
                mtime,
                roster@,
                attestations@,
            );
            lemma_roster_without_len(meetup@, sender);
        }
        let ghost pre_bundles = self.attestation_registry@;
        let bundle = MembersEntry {
            cid,
            cindex,
            idx,
            members: verified_attestation_accounts,
        };
        proof {
            lemma_members_push(pre_bundles, bundle);
        }
        self.attestation_registry.push(bundle);
        let ghost pre_windex = self.attestation_index@;
        self.attestation_index.push(SlotEntry { cid, cindex, key: sender, val: idx });
        proof {
            lemma_slot_push(pre_windex, SlotEntry { cid, cindex, key: sender, val: idx });
        }
        let ghost pre_votes = self.meetup_participant_count_vote@;
        self.meetup_participant_count_vote.push(
            SlotEntry { cid, cindex, key: sender, val: claim_n_participants as u64 },
        );
        proof {
            lemma_slot_push(
                pre_votes,
                SlotEntry { cid, cindex, key: sender, val: claim_n_participants as u64 },
            );
        }
        Ok(())
    }
}

} // verus!
