//! Attendance-verification and reward protocol for periodic, location-bound,
//! peer-witnessed meetups ("ceremonies").
//!
//! Participants register per community and ceremony, are partitioned into
//! small meetups, mutually attest to each other's presence, and — when a
//! quorum of mutually corroborating headcount votes is reached — earn a
//! reward and a reputation credential that can be linked into a later
//! registration.
//!
//! External collaborators (phase authority, community registry, geodistance,
//! signature verification, token ledger) are consumed as capabilities through
//! the [`Trait`] interface; all protocol state lives in [`Ceremonies`] as
//! plain values.

use vstd::prelude::*;

pub mod storage;
pub mod registry;
pub mod attestation;
pub mod ballot;
pub mod assignment;
pub mod phase;
pub mod env;
pub mod laws;

verus! {

/// Index of a ceremony round; strictly increasing over time, starts at 1.
pub type CeremonyIndexType = u32;
/// Identifier of a community (the community registry scopes it).
pub type CurrencyIdentifier = u64;
/// Account identity of a participant.
pub type AccountId = u64;
/// 1-based index of a participant within one (community, ceremony) registry.
pub type ParticipantIndexType = u64;
/// 1-based index of a meetup within one (community, ceremony).
pub type MeetupIndexType = u64;
/// 1-based index of an attestation bundle within one (community, ceremony).
pub type AttestationIndexType = u64;
/// A moment in time, in the time authority's unit (e.g. milliseconds).
pub type Moment = u64;
/// An opaque signature value; validity is judged by the signature capability.
pub type SignatureValue = u64;
/// Amount of reward issued through the ledger capability.
pub type BalanceAmount = u64;

/// How many past ceremonies a reputation credential stays usable as proof.
pub const REPUTATION_LIFETIME: u32 = 1;

/// Phases of one ceremony cycle, owned by the external phase authority.
#[derive(Clone, Copy, PartialEq, Eq, Structural, Debug)]
pub enum CeremonyPhase {
    Registering,
    Assigning,
    Attesting,
}

/// Lifecycle of a reputation credential, keyed by (community, ceremony, account).
#[derive(Clone, Copy, PartialEq, Eq, Structural, Debug)]
pub enum Reputation {
    /// No attestations for an attendance claim.
    Unverified,
    /// No attestation yet, but linked to a prior reputation.
    UnverifiedReputable,
    /// Verified former attendance, not yet linked to a new registration.
    VerifiedUnlinked,
    /// Verified former attendance already linked to a new registration.
    VerifiedLinked,
}

impl Default for Reputation {
    fn default() -> (r: Self)
        ensures
            r == Reputation::Unverified,
    {
        Reputation::Unverified
    }
}

/// A meetup location; coordinates are held as plain integer degrees, finer
/// precision lives with the external geodistance capability.
#[derive(Clone, Copy, PartialEq, Eq, Structural, Debug)]
pub struct Location {
    pub lat: i64,
    pub lon: i64,
}

/// A claim, signed by a witness, that the claimant attended a given meetup.
#[derive(Clone, Copy, PartialEq, Eq, Structural, Debug)]
pub struct ClaimOfAttendance {
    pub claimant_public: AccountId,
    pub ceremony_index: CeremonyIndexType,
    pub currency_identifier: CurrencyIdentifier,
    pub meetup_index: MeetupIndexType,
    pub location: Location,
    pub timestamp: Moment,
    pub number_of_participants_confirmed: u32,
}

/// A claim of attendance together with the witness who vouches for it.
#[derive(Clone, Copy, PartialEq, Eq, Structural, Debug)]
pub struct Attestation {
    pub claim: ClaimOfAttendance,
    pub signature: SignatureValue,
    pub public: AccountId,
}

/// Presents an unconsumed VerifiedUnlinked credential of `attendee_public`
/// during a new registration by `prover_public`.
#[derive(Clone, Copy, PartialEq, Eq, Structural, Debug)]
pub struct ProofOfAttendance {
    pub prover_public: AccountId,
    pub ceremony_index: CeremonyIndexType,
    pub currency_identifier: CurrencyIdentifier,
    pub attendee_public: AccountId,
    pub attendee_signature: SignatureValue,
}

/// Why a proof of attendance was rejected.
#[derive(Clone, Copy, PartialEq, Eq, Structural, Debug)]
pub enum ProofRejection {
    /// The proof does not name the caller as prover.
    WrongHolder,
    /// The proof's ceremony index is not strictly earlier than the current one.
    Acausal,
    /// The proof's ceremony index is more than one ceremony old.
    Stale,
    /// The referenced reputation is not exactly VerifiedUnlinked.
    WrongReputationState,
    /// The attendee signature over (prover, ceremony index) does not verify.
    BadSignature,
}

/// Errors reported by the user-facing operations.
#[derive(Clone, Copy, PartialEq, Eq, Structural, Debug)]
pub enum Error {
    /// Operation attempted outside the phase that allows it.
    PhaseViolation,
    /// Only the designated ceremony master may grant reputation.
    NotCeremonyMaster,
    /// The named community is not known to the community registry.
    UnknownCommunity,
    /// The caller already holds a participant index for this ceremony.
    AlreadyRegistered,
    /// The supplied proof of attendance was rejected.
    ProofInvalid(ProofRejection),
    /// An attestation is self-signed or its witness signature does not verify.
    BadAttestationSignature,
    /// The caller is not assigned to the meetup they attest about.
    NotInMeetup,
    /// More attestations supplied than there are other meetup members.
    TooManyAttestations,
    /// No attestation in the submission survived filtering.
    NoValidAttestations,
    /// An index counter cannot be advanced without overflow.
    ArithmeticOverflow,
    /// Meetup location or time cannot be resolved in the current phase/bounds.
    LocationOrTimeUnresolvable,
}

/// Capability interface to the external collaborators: phase authority,
/// community registry, geodistance, signature verification and the ledger.
/// The runtime embedding this core implements it; each executable method is
/// tied to a spec-level counterpart so that the core's contracts can speak
/// about the environment's answers.
pub trait Trait {
    /// The current ceremony phase, as the phase authority reports it.
    spec fn phase_spec(&self) -> CeremonyPhase;

    /// The current ceremony index, as the phase authority reports it.
    spec fn ceremony_index_spec(&self) -> CeremonyIndexType;

    /// The single identity allowed to grant reputation administratively.
    spec fn master_spec(&self) -> AccountId;

    /// The community registry's list of known community identifiers.
    spec fn communities_spec(&self) -> Seq<CurrencyIdentifier>;

    /// Whether `account` is a designated founding member of `cid`.
    spec fn bootstrapper_spec(&self, cid: CurrencyIdentifier, account: AccountId) -> bool;

    /// The ordered, 1-indexed list of valid meetup locations of `cid`.
    spec fn locations_spec(&self, cid: CurrencyIdentifier) -> Seq<Location>;

    /// The community registry's geo-validity predicate.
    spec fn geo_valid_spec(&self, loc: Location) -> bool;

    /// The great-circle distance between two locations, in the registry's unit.
    spec fn distance_spec(&self, from: Location, to: Location) -> u32;

    /// The configured duration of a phase.
    spec fn phase_duration_spec(&self, phase: CeremonyPhase) -> Moment;

    /// The timestamp at which the next phase will begin.
    spec fn next_phase_timestamp_spec(&self) -> Moment;

    /// Length of one day in the time authority's unit.
    spec fn moments_per_day_spec(&self) -> Moment;

    /// Whether `signature` by `public` over `claim` verifies.
    spec fn claim_signature_valid_spec(
        &self,
        claim: ClaimOfAttendance,
        signature: SignatureValue,
        public: AccountId,
    ) -> bool;

    /// Whether the proof's attendee signature over (prover, ceremony index)
    /// verifies against the attendee's key.
    spec fn proof_signature_valid_spec(&self, proof: ProofOfAttendance) -> bool;

    fn current_phase(&self) -> (r: CeremonyPhase)
        ensures
            r == self.phase_spec(),
    ;

    fn current_ceremony_index(&self) -> (r: CeremonyIndexType)
        ensures
            r == self.ceremony_index_spec(),
    ;

    fn ceremony_master(&self) -> (r: AccountId)
        ensures
            r == self.master_spec(),
    ;

    fn currency_identifiers(&self) -> (r: Vec<CurrencyIdentifier>)
        ensures
            r@ == self.communities_spec(),
    ;

    fn is_bootstrapper(&self, cid: CurrencyIdentifier, account: AccountId) -> (r: bool)
        ensures
            r == self.bootstrapper_spec(cid, account),
    ;

    fn locations(&self, cid: CurrencyIdentifier) -> (r: Vec<Location>)
        ensures
            r@ == self.locations_spec(cid),
    ;

    fn is_valid_geolocation(&self, loc: &Location) -> (r: bool)
        ensures
            r == self.geo_valid_spec(*loc),
    ;

    fn haversine_distance(&self, from: &Location, to: &Location) -> (r: u32)
        ensures
            r == self.distance_spec(*from, *to),
    ;

    fn phase_durations(&self, phase: CeremonyPhase) -> (r: Moment)
        ensures
            r == self.phase_duration_spec(phase),
    ;

    fn next_phase_timestamp(&self) -> (r: Moment)
        ensures
            r == self.next_phase_timestamp_spec(),
    ;

    fn moments_per_day(&self) -> (r: Moment)
        ensures
            r == self.moments_per_day_spec(),
    ;

    fn verify_claim_signature(
        &self,
        claim: &ClaimOfAttendance,
        signature: SignatureValue,
        public: AccountId,
    ) -> (r: bool)
        ensures
            r == self.claim_signature_valid_spec(*claim, signature, public),
    ;

    fn verify_proof_signature(&self, proof: &ProofOfAttendance) -> (r: bool)
        ensures
            r == self.proof_signature_valid_spec(*proof),
    ;

    /// Ghost log of every issuance request this ledger has received:
    /// community, account, amount, and whether the ledger accepted it.
    spec fn issued_log(&self) -> Seq<(CurrencyIdentifier, AccountId, BalanceAmount, bool)>;

    /// Request the ledger to issue `amount` to `account` in community `cid`.
    /// Success is the ledger's decision; nothing is promised of the outcome,
    /// but every request is appended to the issuance log with its outcome.
    fn issue(&mut self, cid: CurrencyIdentifier, account: AccountId, amount: BalanceAmount) -> (r:
        bool)
        ensures
            final(self).issued_log() == old(self).issued_log().push((cid, account, amount, r)),
    ;
}

} // verus!
