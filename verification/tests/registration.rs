use encointer_ceremonies::env::FixedEnv;
use encointer_ceremonies::registry::Ceremonies;
use encointer_ceremonies::attestation::{verify_attendee_signature, verify_attestation_signature};
use encointer_ceremonies::{
    Attestation, CeremonyPhase, ClaimOfAttendance, Error, Location, ProofOfAttendance,
    ProofRejection, Reputation,
};

const CID: u64 = 1;
const MASTER: u64 = 999;

fn env(phase: CeremonyPhase, cindex: u32) -> FixedEnv {
    FixedEnv {
        phase,
        ceremony_index: cindex,
        master: MASTER,
        community_ids: vec![CID],
        bootstrappers: vec![],
        location_table: vec![(CID, Location { lat: 10, lon: 20 })],
        attesting_duration: 1000,
        next_phase_start: 10000,
        day_length: 86400,
        ledger_accepts: true,
        issued: vec![],
    }
}

fn state() -> Ceremonies {
    Ceremonies::new(100, 5, 600)
}

fn proof_for(prover: u64, attendee: u64, cindex: u32, sig: u64) -> ProofOfAttendance {
    ProofOfAttendance {
        prover_public: prover,
        ceremony_index: cindex,
        currency_identifier: CID,
        attendee_public: attendee,
        attendee_signature: sig,
    }
}

#[test]
fn register_assigns_sequential_indices() {
    let e = env(CeremonyPhase::Registering, 1);
    let mut s = state();
    assert_eq!(s.register_participant(&e, 10, CID, None), Ok(()));
    assert_eq!(s.register_participant(&e, 11, CID, None), Ok(()));
    assert_eq!(s.get_participant_index(CID, 1, 10), 1);
    assert_eq!(s.get_participant_index(CID, 1, 11), 2);
    assert_eq!(s.get_participant_registry(CID, 1, 1), 10);
    assert_eq!(s.get_participant_registry(CID, 1, 2), 11);
    assert_eq!(s.get_participant_count(CID, 1), 2);
    assert_eq!(s.get_participant_reputation(CID, 1, 10), Reputation::Unverified);
}

#[test]
fn resubmission_yields_already_registered() {
    let e = env(CeremonyPhase::Registering, 1);
    let mut s = state();
    assert_eq!(s.register_participant(&e, 10, CID, None), Ok(()));
    assert_eq!(s.register_participant(&e, 10, CID, None), Err(Error::AlreadyRegistered));
    assert_eq!(s.register_participant(&e, 10, CID, None), Err(Error::AlreadyRegistered));
    assert_eq!(s.get_participant_count(CID, 1), 1);
    assert_eq!(s.get_participant_index(CID, 1, 10), 1);
}

#[test]
fn register_outside_phase_is_refused() {
    let e = env(CeremonyPhase::Attesting, 1);
    let mut s = state();
    assert_eq!(s.register_participant(&e, 10, CID, None), Err(Error::PhaseViolation));
    assert_eq!(s.get_participant_count(CID, 1), 0);
}

#[test]
fn register_unknown_community_is_refused() {
    let e = env(CeremonyPhase::Registering, 1);
    let mut s = state();
    assert_eq!(s.register_participant(&e, 10, 77, None), Err(Error::UnknownCommunity));
}

#[test]
fn grant_reputation_requires_master() {
    let e = env(CeremonyPhase::Attesting, 2);
    let mut s = state();
    assert_eq!(s.grant_reputation(&e, 123, CID, 42), Err(Error::NotCeremonyMaster));
    assert_eq!(s.grant_reputation(&e, MASTER, CID, 42), Ok(()));
    assert_eq!(s.get_participant_reputation(CID, 1, 42), Reputation::VerifiedUnlinked);
}

#[test]
fn proof_consumption_burns_credential() {
    let e = env(CeremonyPhase::Registering, 2);
    let mut s = state();
    assert_eq!(s.grant_reputation(&e, MASTER, CID, 42), Ok(()));
    let p = proof_for(42, 42, 1, 42);
    assert_eq!(s.register_participant(&e, 42, CID, Some(p)), Ok(()));
    assert_eq!(s.get_participant_reputation(CID, 1, 42), Reputation::VerifiedLinked);
    assert_eq!(s.get_participant_reputation(CID, 2, 42), Reputation::UnverifiedReputable);
    // The same credential can never pass the proof check again.
    let p2 = proof_for(43, 42, 1, 42);
    assert_eq!(
        s.register_participant(&e, 43, CID, Some(p2)),
        Err(Error::ProofInvalid(ProofRejection::WrongReputationState))
    );
    assert_eq!(s.get_participant_count(CID, 2), 1);
}

#[test]
fn proof_rejections_by_reason() {
    let e = env(CeremonyPhase::Registering, 3);
    let mut s = state();
    assert_eq!(s.grant_reputation(&e, MASTER, CID, 42), Ok(()));
    // Wrong holder: the proof does not name the sender as prover.
    let p = proof_for(42, 42, 2, 42);
    assert_eq!(
        s.register_participant(&e, 41, CID, Some(p)),
        Err(Error::ProofInvalid(ProofRejection::WrongHolder))
    );
    // Acausal: the proof's ceremony is not strictly earlier.
    let p = proof_for(42, 42, 3, 42);
    assert_eq!(
        s.register_participant(&e, 42, CID, Some(p)),
        Err(Error::ProofInvalid(ProofRejection::Acausal))
    );
    // Stale: the proof is more than one ceremony old.
    let p = proof_for(42, 42, 1, 42);
    assert_eq!(
        s.register_participant(&e, 42, CID, Some(p)),
        Err(Error::ProofInvalid(ProofRejection::Stale))
    );
    // Bad signature: the toy scheme wants the attendee's own identity.
    let p = proof_for(42, 42, 2, 41);
    assert_eq!(
        s.register_participant(&e, 42, CID, Some(p)),
        Err(Error::ProofInvalid(ProofRejection::BadSignature))
    );
    // A failed proof leaves nothing registered.
    assert_eq!(s.get_participant_count(CID, 3), 0);
}

#[test]
fn attendee_signature_check() {
    let e = env(CeremonyPhase::Registering, 2);
    let good = proof_for(42, 42, 1, 42);
    let bad = proof_for(42, 42, 1, 7);
    assert_eq!(verify_attendee_signature(&e, &good), Ok(()));
    assert_eq!(
        verify_attendee_signature(&e, &bad),
        Err(Error::ProofInvalid(ProofRejection::BadSignature))
    );
}

#[test]
fn attestation_signature_check_rejects_self_signing() {
    let e = env(CeremonyPhase::Attesting, 1);
    let claim = ClaimOfAttendance {
        claimant_public: 10,
        ceremony_index: 1,
        currency_identifier: CID,
        meetup_index: 1,
        location: Location { lat: 10, lon: 20 },
        timestamp: 0,
        number_of_participants_confirmed: 4,
    };
    let self_signed = Attestation { claim, signature: 10, public: 10 };
    assert_eq!(
        verify_attestation_signature(&e, &self_signed),
        Err(Error::BadAttestationSignature)
    );
    let good = Attestation { claim, signature: 11, public: 11 };
    assert_eq!(verify_attestation_signature(&e, &good), Ok(()));
    let forged = Attestation { claim, signature: 12, public: 11 };
    assert_eq!(
        verify_attestation_signature(&e, &forged),
        Err(Error::BadAttestationSignature)
    );
}

#[test]
fn default_reputation_is_unverified() {
    assert_eq!(Reputation::default(), Reputation::Unverified);
}
