use ic_crypto::errors::ThresholdSigError;
use ic_crypto::field::FIELD_MODULUS;
use ic_crypto::registry::{KeyPurpose, Registry};
use ic_crypto::threshold::{
    combine_threshold_sig_shares, sign_threshold, verify_combined_threshold_sig_by_public_key,
    verify_threshold_sig_combined, verify_threshold_sig_share, CombinedThresholdSig,
    ThresholdSigData, ThresholdSigDataStore, ThresholdSigShare,
};

// One key generation: committee {1, 2}, threshold 1, polynomial 5 + 3x.
// Node 1 evaluates at 1 (share 8), node 2 at 2 (share 11).
fn data_for_node_1() -> ThresholdSigData {
    ThresholdSigData {
        committee: vec![1, 2],
        threshold: 1,
        public_coefficients: vec![5, 3],
        my_share: Some(8),
    }
}

fn store_with_generation_3() -> ThresholdSigDataStore {
    let mut store = ThresholdSigDataStore::new();
    store.insert_transcript_data(3, data_for_node_1());
    store
}

const MESSAGE: [u8; 2] = [1, 2];

// digest([1, 2]) = 1 * 256 + 2 = 258.
const DIGEST: u64 = 258;

#[test]
fn sign_threshold_binds_the_stored_share_to_the_digest() {
    let store = store_with_generation_3();
    let share = sign_threshold(&MESSAGE.to_vec(), 3, &store).unwrap();
    assert_eq!(share.value, 8 * DIGEST);
}

#[test]
fn sign_threshold_without_data_or_share_fails() {
    let store = store_with_generation_3();
    assert_eq!(
        sign_threshold(&MESSAGE.to_vec(), 99, &store),
        Err(ThresholdSigError::ThresholdSigDataNotFound)
    );
    let mut no_share_store = ThresholdSigDataStore::new();
    let mut data = data_for_node_1();
    data.my_share = None;
    no_share_store.insert_transcript_data(4, data);
    assert_eq!(
        sign_threshold(&MESSAGE.to_vec(), 4, &no_share_store),
        Err(ThresholdSigError::SecretShareNotFound)
    );
}

#[test]
fn threshold_sig_shares_verify_against_the_public_coefficients() {
    let store = store_with_generation_3();
    let share_1 = ThresholdSigShare { value: 8 * DIGEST };
    let share_2 = ThresholdSigShare { value: 11 * DIGEST };
    assert!(verify_threshold_sig_share(&share_1, &MESSAGE.to_vec(), 3, 1, &store).is_ok());
    assert!(verify_threshold_sig_share(&share_2, &MESSAGE.to_vec(), 3, 2, &store).is_ok());
    assert_eq!(
        verify_threshold_sig_share(&share_2, &MESSAGE.to_vec(), 3, 1, &store),
        Err(ThresholdSigError::InvalidSigShare)
    );
    assert_eq!(
        verify_threshold_sig_share(&share_1, &MESSAGE.to_vec(), 3, 9, &store),
        Err(ThresholdSigError::NotACommitteeMember)
    );
}

#[test]
fn combined_threshold_signature_interpolates_to_the_secret_times_digest() {
    let store = store_with_generation_3();
    let shares = vec![
        (1u64, ThresholdSigShare { value: 8 * DIGEST }),
        (2u64, ThresholdSigShare { value: 11 * DIGEST }),
    ];
    let sig = combine_threshold_sig_shares(&shares, 3, &store).unwrap();
    // Interpolating the two share points at zero recovers the constant
    // term bound to the digest: 5 * 258.
    assert_eq!(sig.value, 5 * DIGEST);
    assert!(verify_threshold_sig_combined(&sig, &MESSAGE.to_vec(), 3, &store).is_ok());
}

#[test]
fn combining_too_few_threshold_shares_fails() {
    let store = store_with_generation_3();
    let one = vec![(1u64, ThresholdSigShare { value: 8 * DIGEST })];
    assert_eq!(
        combine_threshold_sig_shares(&one, 3, &store),
        Err(ThresholdSigError::InsufficientSigShares)
    );
    // A share from outside the committee does not count.
    let outsider = vec![
        (1u64, ThresholdSigShare { value: 8 * DIGEST }),
        (9u64, ThresholdSigShare { value: 1 }),
    ];
    assert_eq!(
        combine_threshold_sig_shares(&outsider, 3, &store),
        Err(ThresholdSigError::InsufficientSigShares)
    );
}

#[test]
fn forged_combined_threshold_signature_fails() {
    let store = store_with_generation_3();
    let forged = CombinedThresholdSig { value: (5 * DIGEST + 1) % FIELD_MODULUS };
    assert_eq!(
        verify_threshold_sig_combined(&forged, &MESSAGE.to_vec(), 3, &store),
        Err(ThresholdSigError::InvalidSignature)
    );
}

#[test]
fn subnet_signature_verifies_against_the_registry_key() {
    let mut registry = Registry::new();
    registry.add(77, KeyPurpose::ThresholdSigning, 1, 5);
    let sig = CombinedThresholdSig { value: 5 * DIGEST };
    assert!(
        verify_combined_threshold_sig_by_public_key(&sig, &MESSAGE.to_vec(), 77, &registry, 1)
            .is_ok()
    );
    assert_eq!(
        verify_combined_threshold_sig_by_public_key(&sig, &MESSAGE.to_vec(), 78, &registry, 1),
        Err(ThresholdSigError::PublicKeyNotFound)
    );
    let forged = CombinedThresholdSig { value: 5 * DIGEST + 1 };
    assert_eq!(
        verify_combined_threshold_sig_by_public_key(&forged, &MESSAGE.to_vec(), 77, &registry, 1),
        Err(ThresholdSigError::InvalidSignature)
    );
}

#[test]
fn store_updates_shadow_and_removal_drops_a_generation() {
    let mut store = ThresholdSigDataStore::new();
    store.insert_transcript_data(3, data_for_node_1());
    let mut newer = data_for_node_1();
    newer.public_coefficients = vec![6, 3];
    store.insert_transcript_data(3, newer);
    let got = store.transcript_data(3).unwrap();
    assert_eq!(got.public_coefficients, vec![6, 3]);
    store.insert_transcript_data(4, data_for_node_1());
    store.remove_transcript_data(3);
    assert!(store.transcript_data(3).is_none());
    assert!(store.transcript_data(4).is_some());
    // Removing an absent generation is no error.
    store.remove_transcript_data(3);
    assert!(store.transcript_data(4).is_some());
}
