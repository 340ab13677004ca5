//! A deterministic, table-driven environment implementing the capability
//! interface, for embedding the core without a real runtime: phases and
//! timing are plain fields, the community registry is a table, distances are
//! rectilinear, and a toy signature scheme accepts a signature exactly when
//! it equals the signer's identity.

use vstd::prelude::*;

use crate::{AccountId, CeremonyPhase, ClaimOfAttendance, CurrencyIdentifier, Location, Moment,
    ProofOfAttendance, SignatureValue, Trait};

verus! {

/// The locations registered for one community, in table order.
pub open spec fn locs_for(table: Seq<(u64, Location)>, cid: u64) -> Seq<Location>
    decreases table.len(),
{
    if table.len() == 0 {
        Seq::<Location>::empty()
    } else {
        let pre = locs_for(table.drop_last(), cid);
        if table.last().0 == cid {
            pre.push(table.last().1)
        } else {
            pre
        }
    }
}

/// Rectilinear stand-in for the geodesic distance: the coordinate
/// differences added up, saturated to the u32 range.
pub open spec fn flat_distance(from: Location, to: Location) -> int {
    let dlat = if from.lat >= to.lat {
        from.lat - to.lat
    } else {
        to.lat - from.lat
    };
    let dlon = if from.lon >= to.lon {
        from.lon - to.lon
    } else {
        to.lon - from.lon
    };
    dlat + dlon
}

/// A table-driven capability provider.
pub struct FixedEnv {
    pub phase: CeremonyPhase,
    pub ceremony_index: u32,
    pub master: AccountId,
    pub community_ids: Vec<CurrencyIdentifier>,
    pub bootstrappers: Vec<(CurrencyIdentifier, AccountId)>,
    pub location_table: Vec<(CurrencyIdentifier, Location)>,
    pub attesting_duration: Moment,
    pub next_phase_start: Moment,
    pub day_length: Moment,
    pub ledger_accepts: bool,
    /// Every issuance request received, with its outcome.
    pub issued: Vec<(CurrencyIdentifier, AccountId, u64, bool)>,
}

impl Trait for FixedEnv {
    open spec fn phase_spec(&self) -> CeremonyPhase {
        self.phase
    }

    open spec fn ceremony_index_spec(&self) -> u32 {
        self.ceremony_index
    }

    open spec fn master_spec(&self) -> AccountId {
        self.master
    }

    open spec fn communities_spec(&self) -> Seq<CurrencyIdentifier> {
        self.community_ids@
    }

    open spec fn bootstrapper_spec(&self, cid: CurrencyIdentifier, account: AccountId) -> bool {
        self.bootstrappers@.contains((cid, account))
    }

    open spec fn locations_spec(&self, cid: CurrencyIdentifier) -> Seq<Location> {
        locs_for(self.location_table@, cid)
    }

    open spec fn geo_valid_spec(&self, loc: Location) -> bool {
        -90 <= loc.lat <= 90 && -180 <= loc.lon <= 180
    }

    open spec fn distance_spec(&self, from: Location, to: Location) -> u32 {
        if flat_distance(from, to) > u32::MAX {
            u32::MAX
        } else {
            flat_distance(from, to) as u32
        }
    }

    open spec fn phase_duration_spec(&self, phase: CeremonyPhase) -> Moment {
        if phase == CeremonyPhase::Attesting {
            self.attesting_duration
        } else {
            0u64
        }
    }

    open spec fn next_phase_timestamp_spec(&self) -> Moment {
        self.next_phase_start
    }

    open spec fn moments_per_day_spec(&self) -> Moment {
        self.day_length
    }

    open spec fn claim_signature_valid_spec(
        &self,
        claim: ClaimOfAttendance,
        signature: SignatureValue,
        public: AccountId,
    ) -> bool {
        signature == public
    }

    open spec fn proof_signature_valid_spec(&self, proof_of: ProofOfAttendance) -> bool {
        proof_of.attendee_signature == proof_of.attendee_public
    }

    fn current_phase(&self) -> CeremonyPhase {
        self.phase
    }

    fn current_ceremony_index(&self) -> u32 {
        self.ceremony_index
    }

    fn ceremony_master(&self) -> AccountId {
        self.master
    }

    fn currency_identifiers(&self) -> (r: Vec<CurrencyIdentifier>) {
        crate::storage::copy_u64_vec(&self.community_ids)
    }

    fn is_bootstrapper(&self, cid: CurrencyIdentifier, account: AccountId) -> (r: bool) {
        let mut j: usize = 0;
        while j < self.bootstrappers.len()
            invariant
                j <= self.bootstrappers@.len(),
                forall|t: int| 0 <= t < j ==> self.bootstrappers@[t] != (cid, account),
            decreases self.bootstrappers@.len() - j,
        {
            let e = self.bootstrappers[j];
            if e.0 == cid && e.1 == account {
                assert(self.bootstrappers@[j as int] == (cid, account));
                return true;
            }
            j = j + 1;
        }
        false
    }

    fn locations(&self, cid: CurrencyIdentifier) -> (r: Vec<Location>) {
        let mut out: Vec<Location> = Vec::new();
        let mut j: usize = 0;
        while j < self.location_table.len()
            invariant
                j <= self.location_table@.len(),
                out@ == locs_for(self.location_table@.take(j as int), cid),
            decreases self.location_table@.len() - j,
        {
            let e = self.location_table[j];
            proof {
                assert(self.location_table@.take(j as int + 1).drop_last()
                    =~= self.location_table@.take(j as int));
                assert(self.location_table@.take(j as int + 1).last() == e);
            }
            if e.0 == cid {
                out.push(e.1);
            }
            j = j + 1;
        }
        proof {
            assert(self.location_table@.take(self.location_table@.len() as int)
                =~= self.location_table@);
        }
        out
    }

    fn is_valid_geolocation(&self, loc: &Location) -> bool {
        -90 <= loc.lat && loc.lat <= 90 && -180 <= loc.lon && loc.lon <= 180
    }

    fn haversine_distance(&self, from: &Location, to: &Location) -> (r: u32) {
        let dlat: i128 = if from.lat >= to.lat {
            from.lat as i128 - to.lat as i128
        } else {
            to.lat as i128 - from.lat as i128
        };
        let dlon: i128 = if from.lon >= to.lon {
            from.lon as i128 - to.lon as i128
        } else {
            to.lon as i128 - from.lon as i128
        };
        let d: i128 = dlat + dlon;
        if d > u32::MAX as i128 {
            u32::MAX
        } else {
            d as u32
        }
    }

    fn phase_durations(&self, phase: CeremonyPhase) -> Moment {
        if phase == CeremonyPhase::Attesting {
            self.attesting_duration
        } else {
            0
        }
    }

    fn next_phase_timestamp(&self) -> Moment {
        self.next_phase_start
    }

    fn moments_per_day(&self) -> Moment {
        self.day_length
    }

    fn verify_claim_signature(
        &self,
        claim: &ClaimOfAttendance,
        signature: SignatureValue,
        public: AccountId,
    ) -> bool {
        signature == public
    }

    fn verify_proof_signature(&self, proof_of: &ProofOfAttendance) -> bool {
        proof_of.attendee_signature == proof_of.attendee_public
    }

    open spec fn issued_log(&self) -> Seq<(CurrencyIdentifier, AccountId, u64, bool)> {
        self.issued@
    }

    fn issue(&mut self, cid: CurrencyIdentifier, account: AccountId, amount: u64) -> (r: bool) {
        let accepted = self.ledger_accepts;
        self.issued.push((cid, account, amount, accepted));
        accepted
    }
}

} // verus!
