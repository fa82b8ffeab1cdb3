use ic_crypto::complaints::{open_transcript, verify_complaint, verify_opening, Complaint, Verdict};
use ic_crypto::errors::IdkgError;
use ic_crypto::idkg::{
    create_dealing, verify_dealing_private, verify_dealing_public, Dealing, IdkgOperation,
    TranscriptParams,
};
use ic_crypto::keys::NodeKeysToGenerate;
use ic_crypto::registry::{KeyPurpose, Registry};
use ic_crypto::transcript::{
    create_transcript, interpret_vault_load_outcome, interpret_vault_retain_outcome,
    load_transcript, load_transcript_with_openings, retain_active_transcripts, verify_transcript,
    BatchSignedDealing, Transcript,
};
use ic_crypto::vault::Vault;

const NODES: [u64; 4] = [1, 2, 3, 4];

fn setup() -> (Registry, Vec<Vault>) {
    let mut registry = Registry::new();
    let mut vaults = Vec::new();
    for (i, node) in NODES.iter().enumerate() {
        let mut vault = Vault::new_from_seed(1000 + i as u64);
        let keys = vault.generate_keys(&NodeKeysToGenerate::only_idkg_dealing_encryption_key());
        registry.add(
            *node,
            KeyPurpose::IDkgMEGaEncryption,
            1,
            keys.idkg_dealing_encryption_pk.unwrap(),
        );
        vaults.push(vault);
    }
    (registry, vaults)
}

fn params() -> TranscriptParams {
    TranscriptParams {
        transcript_id: 7,
        dealers: NODES.to_vec(),
        receivers: NODES.to_vec(),
        threshold: 1,
        registry_version: 1,
        operation: IdkgOperation::RandomSharing,
    }
}

fn batch(dealer_id: u64, dealing: Dealing) -> BatchSignedDealing {
    BatchSignedDealing { dealer_id, dealing, support_signers: vec![1, 2] }
}

fn all_dealings(p: &TranscriptParams, registry: &Registry, vaults: &mut Vec<Vault>) -> Vec<
    BatchSignedDealing,
> {
    let mut out = Vec::new();
    for (i, node) in NODES.iter().enumerate() {
        let d = create_dealing(p, *node, registry, &mut vaults[i]).unwrap();
        out.push(batch(*node, d));
    }
    out
}

fn assert_transcripts_identical(a: &Transcript, b: &Transcript) {
    assert_eq!(a.transcript_id, b.transcript_id);
    assert_eq!(a.receivers, b.receivers);
    assert_eq!(a.threshold, b.threshold);
    assert_eq!(a.registry_version, b.registry_version);
    assert_eq!(a.combined_commitment, b.combined_commitment);
    assert_eq!(a.dealings.len(), b.dealings.len());
    for (x, y) in a.dealings.iter().zip(b.dealings.iter()) {
        assert_eq!(x.dealer_id, y.dealer_id);
        assert_eq!(x.dealing.commitment, y.dealing.commitment);
        assert_eq!(x.dealing.ciphertexts, y.dealing.ciphertexts);
        assert_eq!(x.support_signers, y.support_signers);
    }
}

#[test]
fn dealing_from_entitled_dealer_passes_public_check() {
    let (registry, mut vaults) = setup();
    let p = params();
    let d = create_dealing(&p, 1, &registry, &mut vaults[0]).unwrap();
    assert!(verify_dealing_public(&p, 1, &d).is_ok());
    assert_eq!(d.commitment.len(), 2);
    assert_eq!(d.ciphertexts.len(), 4);
}

#[test]
fn dealing_from_outsider_is_rejected() {
    let (registry, mut vaults) = setup();
    let p = params();
    assert_eq!(
        create_dealing(&p, 9, &registry, &mut vaults[0]).err(),
        Some(IdkgError::NotADealer)
    );
    let d = create_dealing(&p, 1, &registry, &mut vaults[0]).unwrap();
    assert_eq!(verify_dealing_public(&p, 9, &d), Err(IdkgError::NotADealer));
}

#[test]
fn malformed_dealing_fails_public_check() {
    let p = params();
    let bad = Dealing { commitment: vec![0], ciphertexts: vec![] };
    assert_eq!(verify_dealing_public(&p, 1, &bad), Err(IdkgError::MalformedDealing));
}

#[test]
fn dealing_without_registered_receiver_key_fails() {
    let (_, mut vaults) = setup();
    let empty_registry = Registry::new();
    let p = params();
    assert_eq!(
        create_dealing(&p, 1, &empty_registry, &mut vaults[0]).err(),
        Some(IdkgError::PublicKeyNotFound)
    );
}

#[test]
fn resharing_requires_loaded_prior_transcript() {
    let (registry, mut vaults) = setup();
    let mut p = params();
    p.operation = IdkgOperation::ReshareOf(99);
    assert_eq!(
        create_dealing(&p, 1, &registry, &mut vaults[0]).err(),
        Some(IdkgError::PriorTranscriptNotLoaded)
    );
}

#[test]
fn private_check_accepts_honest_dealing() {
    let (registry, mut vaults) = setup();
    let p = params();
    let d = create_dealing(&p, 1, &registry, &mut vaults[0]).unwrap();
    for (i, node) in NODES.iter().enumerate() {
        assert!(verify_dealing_private(&p, 1, &d, *node, &vaults[i]).is_ok());
    }
    assert_eq!(
        verify_dealing_private(&p, 1, &d, 9, &vaults[0]),
        Err(IdkgError::NotAReceiver)
    );
}

#[test]
fn private_check_rejects_corrupted_ciphertext() {
    let (registry, mut vaults) = setup();
    let p = params();
    let mut d = create_dealing(&p, 1, &registry, &mut vaults[0]).unwrap();
    d.ciphertexts[0] = (d.ciphertexts[0] + 1) % ic_crypto::field::FIELD_MODULUS;
    assert_eq!(
        verify_dealing_private(&p, 1, &d, 1, &vaults[0]),
        Err(IdkgError::PrivateVerificationFailure)
    );
}

#[test]
fn four_dealers_any_two_dealings_build_a_transcript() {
    let (registry, mut vaults) = setup();
    let p = params();
    let ds = all_dealings(&p, &registry, &mut vaults);
    for i in 0..4 {
        for j in (i + 1)..4 {
            let pair = vec![ds[i].clone(), ds[j].clone()];
            assert!(create_transcript(&p, &pair).is_ok());
        }
    }
}

#[test]
fn transcript_depends_only_on_first_threshold_plus_one_valid_dealings() {
    let (registry, mut vaults) = setup();
    let p = params();
    let ds = all_dealings(&p, &registry, &mut vaults);
    let t_all = create_transcript(&p, &ds).unwrap();
    let t_first_two = create_transcript(&p, &ds[0..2].to_vec()).unwrap();
    let t_first_three = create_transcript(&p, &ds[0..3].to_vec()).unwrap();
    assert_transcripts_identical(&t_all, &t_first_two);
    assert_transcripts_identical(&t_all, &t_first_three);
}

#[test]
fn malformed_fifth_dealing_is_rejected_and_excluded() {
    let (registry, mut vaults) = setup();
    let p = params();
    let mut ds = all_dealings(&p, &registry, &mut vaults);
    let bad = Dealing { commitment: vec![1, 2, 3], ciphertexts: vec![0] };
    assert_eq!(verify_dealing_public(&p, 4, &bad), Err(IdkgError::MalformedDealing));
    let t_good = create_transcript(&p, &ds).unwrap();
    // The malformed dealing shadows dealer 4's honest one in the input map;
    // selection skips it and the transcript is unchanged.
    ds[3] = batch(4, bad);
    let t_with_bad = create_transcript(&p, &ds).unwrap();
    assert_transcripts_identical(&t_good, &t_with_bad);
}

#[test]
fn too_few_dealings_fail_transcript_construction() {
    let (registry, mut vaults) = setup();
    let p = params();
    let d = create_dealing(&p, 1, &registry, &mut vaults[0]).unwrap();
    assert_eq!(
        create_transcript(&p, &vec![batch(1, d)]).err(),
        Some(IdkgError::InsufficientDealings)
    );
}

#[test]
fn created_transcript_verifies_everywhere() {
    let (registry, mut vaults) = setup();
    let p = params();
    let ds = all_dealings(&p, &registry, &mut vaults);
    let t = create_transcript(&p, &ds).unwrap();
    assert!(verify_transcript(&p, &t).is_ok());
}

#[test]
fn tampered_combined_commitment_fails_verification() {
    let (registry, mut vaults) = setup();
    let p = params();
    let ds = all_dealings(&p, &registry, &mut vaults);
    let mut t = create_transcript(&p, &ds).unwrap();
    t.combined_commitment[0] = (t.combined_commitment[0] + 1) % ic_crypto::field::FIELD_MODULUS;
    assert_eq!(verify_transcript(&p, &t), Err(IdkgError::InvalidTranscript));
}

#[test]
fn transcript_with_too_few_dealers_always_fails_verification() {
    let (registry, mut vaults) = setup();
    let p = params();
    let ds = all_dealings(&p, &registry, &mut vaults);
    let mut t = create_transcript(&p, &ds).unwrap();
    t.dealings.truncate(1);
    assert_eq!(verify_transcript(&p, &t), Err(IdkgError::InsufficientDealings));
}

#[test]
fn loading_a_clean_transcript_yields_no_complaints() {
    let (registry, mut vaults) = setup();
    let p = params();
    let ds = all_dealings(&p, &registry, &mut vaults);
    let t = create_transcript(&p, &ds).unwrap();
    for (i, node) in NODES.iter().enumerate() {
        let complaints = load_transcript(&t, *node, &mut vaults[i]).unwrap();
        assert!(complaints.is_empty());
        assert!(vaults[i].get_share(7).is_some());
    }
}

#[test]
fn loading_by_non_receiver_fails() {
    let (registry, mut vaults) = setup();
    let p = params();
    let ds = all_dealings(&p, &registry, &mut vaults);
    let t = create_transcript(&p, &ds).unwrap();
    let mut outsider = Vault::new_from_seed(77);
    outsider.generate_keys(&NodeKeysToGenerate::only_idkg_dealing_encryption_key());
    assert_eq!(load_transcript(&t, 9, &mut outsider).err(), Some(IdkgError::NotAReceiver));
}

fn transcript_with_corrupt_dealing(
    registry: &Registry,
    vaults: &mut Vec<Vault>,
    victim_index: usize,
) -> Transcript {
    let p = params();
    let ds = all_dealings(&p, registry, vaults);
    let mut first = ds[0].clone();
    first.dealing.ciphertexts[victim_index] =
        (first.dealing.ciphertexts[victim_index] + 1) % ic_crypto::field::FIELD_MODULUS;
    create_transcript(&p, &vec![first, ds[1].clone()]).unwrap()
}

#[test]
fn corrupt_dealing_draws_one_complaint_against_its_dealer() {
    let (registry, mut vaults) = setup();
    let t = transcript_with_corrupt_dealing(&registry, &mut vaults, 2);
    let complaints = load_transcript(&t, 3, &mut vaults[2]).unwrap();
    assert_eq!(complaints.len(), 1);
    assert_eq!(complaints[0].dealer_id, 1);
    assert_eq!(complaints[0].complainer_id, 3);
    // No share is stored while a complaint is open.
    assert!(vaults[2].get_share(7).is_none());
    // Receivers with intact ciphertexts load without complaints.
    assert!(load_transcript(&t, 2, &mut vaults[1]).unwrap().is_empty());
}

#[test]
fn justified_complaint_verifies_and_opening_blames_dealer() {
    let (registry, mut vaults) = setup();
    let t = transcript_with_corrupt_dealing(&registry, &mut vaults, 2);
    let complaints = load_transcript(&t, 3, &mut vaults[2]).unwrap();
    let c = complaints[0];
    assert!(verify_complaint(&t, 3, &c, &registry).is_ok());
    let opening = open_transcript(&t, 3, &c, &registry).unwrap();
    assert_eq!(
        verify_opening(&t, 2, &opening, &c, &registry),
        Ok(Verdict::AgainstDealer)
    );
}

#[test]
fn baseless_complaint_is_rejected_and_opening_blames_complainer() {
    let (registry, mut vaults) = setup();
    let p = params();
    let ds = all_dealings(&p, &registry, &mut vaults);
    let t = create_transcript(&p, &ds).unwrap();
    // Disclose the true decryption of an honest dealing: the mismatch the
    // complaint alleges does not exist.
    let good_opening = open_transcript(
        &t,
        3,
        &Complaint { transcript_id: 7, dealer_id: 1, complainer_id: 3, share: 0 },
        &registry,
    )
    .unwrap();
    let c = Complaint { transcript_id: 7, dealer_id: 1, complainer_id: 3, share: good_opening.share };
    assert_eq!(verify_complaint(&t, 3, &c, &registry), Err(IdkgError::InvalidComplaint));
    assert_eq!(
        verify_opening(&t, 2, &good_opening, &c, &registry),
        Ok(Verdict::AgainstComplainer)
    );
}

#[test]
fn malformed_opening_fails_verification() {
    let (registry, mut vaults) = setup();
    let t = transcript_with_corrupt_dealing(&registry, &mut vaults, 2);
    let complaints = load_transcript(&t, 3, &mut vaults[2]).unwrap();
    let c = complaints[0];
    let mut opening = open_transcript(&t, 3, &c, &registry).unwrap();
    opening.share = (opening.share + 1) % ic_crypto::field::FIELD_MODULUS;
    assert_eq!(
        verify_opening(&t, 2, &opening, &c, &registry),
        Err(IdkgError::MalformedOpening)
    );
    let mut wrong_dealer = open_transcript(&t, 3, &c, &registry).unwrap();
    wrong_dealer.dealer_id = 2;
    assert_eq!(
        verify_opening(&t, 2, &wrong_dealer, &c, &registry),
        Err(IdkgError::MalformedOpening)
    );
}

#[test]
fn certified_openings_let_the_receiver_load_despite_a_faulty_dealer() {
    let (registry, mut vaults) = setup();
    let t = transcript_with_corrupt_dealing(&registry, &mut vaults, 2);
    let complaints = load_transcript(&t, 3, &mut vaults[2]).unwrap();
    let c = complaints[0];
    // Without openings the faulty dealer stays unresolved.
    assert_eq!(
        load_transcript_with_openings(&t, &vec![], 3, &mut vaults[2]),
        Err(IdkgError::InsufficientOpenings)
    );
    // The very opening the adjudication sub-protocol produces and
    // certifies resolves the faulty dealing.
    let opening = open_transcript(&t, 3, &c, &registry).unwrap();
    assert_eq!(
        verify_opening(&t, 2, &opening, &c, &registry),
        Ok(Verdict::AgainstDealer)
    );
    assert!(load_transcript_with_openings(&t, &vec![opening], 3, &mut vaults[2]).is_ok());
    assert!(vaults[2].get_share(7).is_some());
    // An opening with a wrong disclosure resolves nothing.
    let mut forged = open_transcript(&t, 3, &c, &registry).unwrap();
    forged.share = (forged.share + 1) % ic_crypto::field::FIELD_MODULUS;
    assert_eq!(
        load_transcript_with_openings(&t, &vec![forged], 3, &mut vaults[2]),
        Err(IdkgError::InsufficientOpenings)
    );
}

#[test]
fn loaded_share_from_openings_matches_the_commitment() {
    // After resolving the faulty dealer via a certified opening, the
    // receiver's combined share is consistent with the public combined
    // commitment: its signature shares verify like everyone else's.
    let (registry, mut vaults) = setup();
    let t = transcript_with_corrupt_dealing(&registry, &mut vaults, 2);
    let complaints = load_transcript(&t, 3, &mut vaults[2]).unwrap();
    let opening = open_transcript(&t, 3, &complaints[0], &registry).unwrap();
    load_transcript_with_openings(&t, &vec![opening], 3, &mut vaults[2]).unwrap();
    // Receiver 2 loaded cleanly; both shares evaluate the same polynomial.
    load_transcript(&t, 2, &mut vaults[1]).unwrap();
    let m = ic_crypto::field::FIELD_MODULUS;
    let eval_at = |x: u64| {
        let mut acc: u64 = 0;
        for c in t.combined_commitment.iter().rev() {
            acc = (acc * x + *c) % m;
        }
        acc
    };
    assert_eq!(vaults[1].get_share(7), Some(eval_at(2)));
    assert_eq!(vaults[2].get_share(7), Some(eval_at(3)));
}

#[test]
fn the_accused_dealer_can_stand_as_opener() {
    // Dealer 9 is entitled to deal but is not a receiver.
    let (mut registry, mut vaults) = setup();
    let mut outside_vault = Vault::new_from_seed(9000);
    let keys = outside_vault.generate_keys(
        &NodeKeysToGenerate::only_idkg_dealing_encryption_key(),
    );
    registry.add(9, KeyPurpose::IDkgMEGaEncryption, 1, keys.idkg_dealing_encryption_pk.unwrap());
    let p = TranscriptParams {
        transcript_id: 8,
        dealers: vec![1, 2, 3, 4, 9],
        receivers: NODES.to_vec(),
        threshold: 1,
        registry_version: 1,
        operation: IdkgOperation::RandomSharing,
    };
    let d1 = create_dealing(&p, 1, &registry, &mut vaults[0]).unwrap();
    let mut d9 = create_dealing(&p, 9, &registry, &mut outside_vault).unwrap();
    // Corrupt dealer 9's ciphertext for receiver 3.
    d9.ciphertexts[2] = (d9.ciphertexts[2] + 1) % ic_crypto::field::FIELD_MODULUS;
    let t = create_transcript(&p, &vec![batch(1, d1), batch(9, d9)]).unwrap();
    let complaints = load_transcript(&t, 3, &mut vaults[2]).unwrap();
    assert_eq!(complaints[0].dealer_id, 9);
    let opening = open_transcript(&t, 3, &complaints[0], &registry).unwrap();
    // The accused dealer, though no receiver, stands as opener.
    assert_eq!(
        verify_opening(&t, 9, &opening, &complaints[0], &registry),
        Ok(Verdict::AgainstDealer)
    );
    // A party that is neither receiver nor the accused dealer cannot.
    assert_eq!(
        verify_opening(&t, 77, &opening, &complaints[0], &registry),
        Err(IdkgError::NotAReceiver)
    );
}

#[test]
fn closed_vault_channel_during_load_or_retain_is_a_boundary_error() {
    let e = interpret_vault_load_outcome(None).err();
    assert_eq!(e, Some(IdkgError::VaultUnavailable));
    assert_ne!(e, Some(IdkgError::PrivateVerificationFailure));
    assert_ne!(e, Some(IdkgError::MalformedTranscript));
    // A delivered outcome passes through unchanged.
    let c = Complaint { transcript_id: 7, dealer_id: 1, complainer_id: 3, share: 5 };
    assert_eq!(interpret_vault_load_outcome(Some(Ok(vec![c]))), Ok(vec![c]));
    assert_eq!(
        interpret_vault_load_outcome(Some(Err(IdkgError::NotAReceiver))),
        Err(IdkgError::NotAReceiver)
    );
    assert_eq!(
        interpret_vault_retain_outcome(&None),
        Err(IdkgError::VaultUnavailable)
    );
    assert_eq!(interpret_vault_retain_outcome(&Some(())), Ok(()));
}

#[test]
fn retention_keeps_active_shares_and_drops_the_rest() {
    let (registry, mut vaults) = setup();
    let p = params();
    let ds = all_dealings(&p, &registry, &mut vaults);
    let t = create_transcript(&p, &ds).unwrap();
    load_transcript(&t, 1, &mut vaults[0]).unwrap();
    vaults[0].insert_share(42, 5);
    assert!(vaults[0].get_share(42).is_some());
    retain_active_transcripts(&mut vaults[0], &vec![t.clone()]).unwrap();
    assert!(vaults[0].get_share(7).is_some());
    assert!(vaults[0].get_share(42).is_none());
    // Idempotent: a second retention with the same set changes nothing.
    let kept = vaults[0].get_share(7);
    retain_active_transcripts(&mut vaults[0], &vec![t]).unwrap();
    assert_eq!(vaults[0].get_share(7), kept);
}

#[test]
fn structurally_broken_transcript_cannot_be_loaded() {
    let (registry, mut vaults) = setup();
    let p = params();
    let ds = all_dealings(&p, &registry, &mut vaults);
    let mut t = create_transcript(&p, &ds).unwrap();
    t.combined_commitment.truncate(1);
    assert_eq!(
        load_transcript(&t, 1, &mut vaults[0]).err(),
        Some(IdkgError::MalformedTranscript)
    );
}

#[test]
fn loading_without_a_decryption_key_fails() {
    let (registry, mut vaults) = setup();
    let p = params();
    let ds = all_dealings(&p, &registry, &mut vaults);
    let t = create_transcript(&p, &ds).unwrap();
    // Node 1 without its dealing-decryption key cannot decrypt anything.
    let mut keyless = Vault::new_from_seed(500);
    assert_eq!(
        load_transcript(&t, 1, &mut keyless).err(),
        Some(IdkgError::SecretKeyNotFound)
    );
}
