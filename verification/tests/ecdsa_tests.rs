use ic_crypto::ecdsa::{
    combine_sig_shares, interpret_vault_sign_outcome, path_digest, sign_share, verify_combined_sig,
    verify_sig_share, SigInputs, SigShare,
};
use ic_crypto::errors::EcdsaError;
use ic_crypto::field::{digest, FIELD_MODULUS};
use ic_crypto::idkg::{create_dealing, IdkgOperation, TranscriptParams};
use ic_crypto::keys::NodeKeysToGenerate;
use ic_crypto::registry::{KeyPurpose, Registry};
use ic_crypto::transcript::{create_transcript, load_transcript, BatchSignedDealing, Transcript};
use ic_crypto::vault::Vault;

const NODES: [u64; 4] = [1, 2, 3, 4];

fn setup() -> (Registry, Vec<Vault>) {
    let mut registry = Registry::new();
    let mut vaults = Vec::new();
    for (i, node) in NODES.iter().enumerate() {
        let mut vault = Vault::new_from_seed(2000 + i as u64);
        let keys = vault.generate_keys(&NodeKeysToGenerate::only_idkg_dealing_encryption_key());
        registry.add(
            *node,
            KeyPurpose::IDkgMEGaEncryption,
            1,
            keys.idkg_dealing_encryption_pk.unwrap(),
        );
        vaults.push(vault);
    }
    (registry, vaults)
}

fn run_idkg(
    transcript_id: u64,
    registry: &Registry,
    vaults: &mut Vec<Vault>,
) -> Transcript {
    let p = TranscriptParams {
        transcript_id,
        dealers: NODES.to_vec(),
        receivers: NODES.to_vec(),
        threshold: 1,
        registry_version: 1,
        operation: IdkgOperation::RandomSharing,
    };
    let mut ds = Vec::new();
    for (i, node) in NODES.iter().enumerate() {
        let d = create_dealing(&p, *node, registry, &mut vaults[i]).unwrap();
        ds.push(BatchSignedDealing { dealer_id: *node, dealing: d, support_signers: vec![1, 2] });
    }
    let t = create_transcript(&p, &ds).unwrap();
    for (i, node) in NODES.iter().enumerate() {
        assert!(load_transcript(&t, *node, &mut vaults[i]).unwrap().is_empty());
    }
    t
}

fn signing_inputs(registry: &Registry, vaults: &mut Vec<Vault>) -> SigInputs {
    let key_transcript = run_idkg(10, registry, vaults);
    let presig = run_idkg(11, registry, vaults);
    SigInputs {
        derivation_path: vec![1, 2],
        message: b"transfer 5 tokens".to_vec(),
        presig_transcripts: vec![presig],
        key_transcript,
    }
}

#[test]
fn every_signer_share_passes_public_verification() {
    let (registry, mut vaults) = setup();
    let inputs = signing_inputs(&registry, &mut vaults);
    for (i, node) in NODES.iter().enumerate() {
        let share = sign_share(&inputs, *node, &vaults[i]).unwrap();
        assert!(verify_sig_share(*node, &inputs, &share).is_ok());
    }
}

#[test]
fn tampered_share_fails_verification() {
    let (registry, mut vaults) = setup();
    let inputs = signing_inputs(&registry, &mut vaults);
    let mut share = sign_share(&inputs, 1, &vaults[0]).unwrap();
    share.value = (share.value + 1) % FIELD_MODULUS;
    assert_eq!(
        verify_sig_share(1, &inputs, &share),
        Err(EcdsaError::InvalidSigShare)
    );
}

#[test]
fn outsider_cannot_sign_or_be_verified() {
    let (registry, mut vaults) = setup();
    let inputs = signing_inputs(&registry, &mut vaults);
    assert_eq!(sign_share(&inputs, 9, &vaults[0]), Err(EcdsaError::NotASigner));
    assert_eq!(
        verify_sig_share(9, &inputs, &SigShare { value: 0 }),
        Err(EcdsaError::NotASigner)
    );
}

#[test]
fn signing_without_loaded_transcripts_fails_fast() {
    let (registry, mut vaults) = setup();
    let inputs = signing_inputs(&registry, &mut vaults);
    let mut fresh = Vault::new_from_seed(555);
    fresh.generate_keys(&NodeKeysToGenerate::only_idkg_dealing_encryption_key());
    assert_eq!(sign_share(&inputs, 2, &fresh), Err(EcdsaError::MissingLocalShare));
}

#[test]
fn any_two_quorums_combine_to_the_same_verifying_signature() {
    let (registry, mut vaults) = setup();
    let inputs = signing_inputs(&registry, &mut vaults);
    let shares: Vec<(u64, SigShare)> = NODES
        .iter()
        .enumerate()
        .map(|(i, node)| (*node, sign_share(&inputs, *node, &vaults[i]).unwrap()))
        .collect();
    let first_two = vec![shares[0], shares[1]];
    let last_two = vec![shares[2], shares[3]];
    let outer = vec![shares[0], shares[3]];
    let s1 = combine_sig_shares(&inputs, &first_two).unwrap();
    let s2 = combine_sig_shares(&inputs, &last_two).unwrap();
    let s3 = combine_sig_shares(&inputs, &outer).unwrap();
    let s4 = combine_sig_shares(&inputs, &shares).unwrap();
    assert_eq!(s1, s2);
    assert_eq!(s1, s3);
    assert_eq!(s1, s4);
    assert!(verify_combined_sig(&inputs, &s1).is_ok());
}

#[test]
fn combining_below_the_quorum_fails() {
    let (registry, mut vaults) = setup();
    let inputs = signing_inputs(&registry, &mut vaults);
    let one = vec![(1u64, sign_share(&inputs, 1, &vaults[0]).unwrap())];
    assert_eq!(
        combine_sig_shares(&inputs, &one),
        Err(EcdsaError::InsufficientSigShares)
    );
    assert_eq!(
        combine_sig_shares(&inputs, &vec![]),
        Err(EcdsaError::InsufficientSigShares)
    );
}

#[test]
fn invalid_shares_do_not_count_toward_the_quorum() {
    let (registry, mut vaults) = setup();
    let inputs = signing_inputs(&registry, &mut vaults);
    let good = sign_share(&inputs, 1, &vaults[0]).unwrap();
    let bad = SigShare { value: (good.value + 1) % FIELD_MODULUS };
    let shares = vec![(1u64, good), (2u64, bad)];
    assert_eq!(
        combine_sig_shares(&inputs, &shares),
        Err(EcdsaError::InsufficientSigShares)
    );
}

#[test]
fn forged_combined_signature_fails_verification() {
    let (registry, mut vaults) = setup();
    let inputs = signing_inputs(&registry, &mut vaults);
    let shares: Vec<(u64, SigShare)> = NODES
        .iter()
        .enumerate()
        .map(|(i, node)| (*node, sign_share(&inputs, *node, &vaults[i]).unwrap()))
        .collect();
    let mut sig = combine_sig_shares(&inputs, &shares).unwrap();
    sig.value = (sig.value + 1) % FIELD_MODULUS;
    assert_eq!(verify_combined_sig(&inputs, &sig), Err(EcdsaError::InvalidSignature));
}

#[test]
fn closed_vault_channel_is_a_boundary_error_and_a_retry_succeeds() {
    let (registry, mut vaults) = setup();
    let inputs = signing_inputs(&registry, &mut vaults);
    // The channel to the vault closes mid-call: no response arrives.
    let outcome: Option<Result<u64, u64>> = None;
    let r = interpret_vault_sign_outcome(&outcome);
    assert_eq!(r, Err(EcdsaError::VaultUnavailable));
    assert_ne!(r, Err(EcdsaError::MissingLocalShare));
    assert_ne!(r, Err(EcdsaError::InvalidSigShare));
    // The channel is restored: the same request against the same vault
    // state yields the same share the in-process path computes.
    let direct = sign_share(&inputs, 1, &vaults[0]).unwrap();
    let message_digest = digest(&inputs.message);
    let derivation_digest = path_digest(&inputs.derivation_path);
    let remote = vaults[0]
        .compute_sig_share(
            inputs.key_transcript.transcript_id,
            &vec![inputs.presig_transcripts[0].transcript_id],
            message_digest,
            derivation_digest,
        )
        .map_err(|_| 0u64);
    let retried = interpret_vault_sign_outcome(&Some(remote)).unwrap();
    assert_eq!(retried, direct);
}

#[test]
fn vault_sig_share_value_is_exact() {
    let mut vault = Vault::new_from_seed(9);
    vault.insert_share(10, 7);
    vault.insert_share(11, 9);
    // digest([1, 2]) folds with radix 256: 1 * 256 + 2 = 258.
    assert_eq!(digest(&vec![1, 2]), 258);
    // path_digest([1, 2]) folds with radix 31: (0 * 31 + 1) * 31 + 2 = 33.
    assert_eq!(path_digest(&vec![1, 2]), 33);
    // share = key_share * digest + presignature share + path digest.
    assert_eq!(vault.compute_sig_share(10, &vec![11], 258, 33), Ok(7 * 258 + 9 + 33));
    // The first missing transcript identifier is reported.
    assert_eq!(vault.compute_sig_share(12, &vec![11], 258, 33), Err(12));
    assert_eq!(vault.compute_sig_share(10, &vec![13], 258, 33), Err(13));
}

#[test]
fn inconsistent_signing_inputs_are_malformed() {
    let (registry, mut vaults) = setup();
    let mut inputs = signing_inputs(&registry, &mut vaults);
    // A presignature transcript for a different signer set does not fit.
    inputs.presig_transcripts[0].receivers = vec![1, 2];
    assert_eq!(sign_share(&inputs, 1, &vaults[0]), Err(EcdsaError::MalformedInputs));
    assert_eq!(
        verify_sig_share(1, &inputs, &SigShare { value: 0 }),
        Err(EcdsaError::MalformedInputs)
    );
}

#[test]
fn vault_error_outcomes_map_to_the_missing_share_error() {
    let outcome: Option<Result<u64, u64>> = Some(Err(13));
    assert_eq!(
        interpret_vault_sign_outcome(&outcome),
        Err(EcdsaError::MissingLocalShare)
    );
}
