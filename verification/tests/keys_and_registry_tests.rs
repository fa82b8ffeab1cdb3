use ic_crypto::field::FIELD_MODULUS;
use ic_crypto::keys::{interpret_vault_keygen_outcome, NodeKeysToGenerate};
use ic_crypto::logfmt::{log_err, log_ok_content};
use ic_crypto::registry::{KeyPurpose, Registry};
use ic_crypto::vault::Vault;

#[test]
fn all_selects_every_key() {
    let s = NodeKeysToGenerate::all();
    assert!(s.generate_node_signing_keys);
    assert!(s.generate_committee_signing_keys);
    assert!(s.generate_dkg_dealing_encryption_keys);
    assert!(s.generate_idkg_dealing_encryption_keys);
    assert!(s.generate_tls_keys_and_certificate);
}

#[test]
fn none_selects_no_key() {
    let s = NodeKeysToGenerate::none();
    assert!(!s.generate_node_signing_keys);
    assert!(!s.generate_committee_signing_keys);
    assert!(!s.generate_dkg_dealing_encryption_keys);
    assert!(!s.generate_idkg_dealing_encryption_keys);
    assert!(!s.generate_tls_keys_and_certificate);
}

#[test]
fn all_except_selectors_drop_exactly_one_key() {
    let s = NodeKeysToGenerate::all_except_dkg_dealing_encryption_key();
    assert!(!s.generate_dkg_dealing_encryption_keys);
    assert!(s.generate_node_signing_keys);
    assert!(s.generate_committee_signing_keys);
    assert!(s.generate_idkg_dealing_encryption_keys);
    assert!(s.generate_tls_keys_and_certificate);
    let s = NodeKeysToGenerate::all_except_idkg_dealing_encryption_key();
    assert!(!s.generate_idkg_dealing_encryption_keys);
    assert!(s.generate_dkg_dealing_encryption_keys);
}

#[test]
fn only_selectors_pick_exactly_one_key() {
    assert_eq!(
        NodeKeysToGenerate::only_node_signing_key(),
        NodeKeysToGenerate { generate_node_signing_keys: true, ..NodeKeysToGenerate::none() }
    );
    assert_eq!(
        NodeKeysToGenerate::only_committee_signing_key(),
        NodeKeysToGenerate { generate_committee_signing_keys: true, ..NodeKeysToGenerate::none() }
    );
    assert_eq!(
        NodeKeysToGenerate::only_dkg_dealing_encryption_key(),
        NodeKeysToGenerate {
            generate_dkg_dealing_encryption_keys: true,
            ..NodeKeysToGenerate::none()
        }
    );
    assert_eq!(
        NodeKeysToGenerate::only_idkg_dealing_encryption_key(),
        NodeKeysToGenerate {
            generate_idkg_dealing_encryption_keys: true,
            ..NodeKeysToGenerate::none()
        }
    );
    assert_eq!(
        NodeKeysToGenerate::only_tls_key_and_cert(),
        NodeKeysToGenerate {
            generate_tls_keys_and_certificate: true,
            ..NodeKeysToGenerate::none()
        }
    );
}

#[test]
fn vault_generates_exactly_the_selected_keys() {
    let mut vault = Vault::new_from_seed(1);
    let keys = vault.generate_keys(&NodeKeysToGenerate::only_idkg_dealing_encryption_key());
    assert!(keys.idkg_dealing_encryption_pk.is_some());
    assert!(keys.node_signing_pk.is_none());
    assert!(keys.committee_signing_pk.is_none());
    assert!(keys.dkg_dealing_encryption_pk.is_none());
    assert!(keys.tls_certificate.is_none());
    // Every published key is a reduced field element.
    assert!(keys.idkg_dealing_encryption_pk.unwrap() < FIELD_MODULUS);
    let keys = vault.generate_keys(&NodeKeysToGenerate::all());
    assert!(keys.node_signing_pk.unwrap() < FIELD_MODULUS);
    assert!(keys.committee_signing_pk.unwrap() < FIELD_MODULUS);
    assert!(keys.dkg_dealing_encryption_pk.unwrap() < FIELD_MODULUS);
    assert!(keys.idkg_dealing_encryption_pk.unwrap() < FIELD_MODULUS);
    assert!(keys.tls_certificate.unwrap() < FIELD_MODULUS);
}

#[test]
fn seeded_vaults_generate_reproducible_keys() {
    let mut a = Vault::new_from_seed(42);
    let mut b = Vault::new_from_seed(42);
    let ka = a.generate_keys(&NodeKeysToGenerate::all());
    let kb = b.generate_keys(&NodeKeysToGenerate::all());
    assert_eq!(ka, kb);
}

#[test]
fn registry_answers_with_the_latest_visible_record() {
    let mut registry = Registry::new();
    registry.add(1, KeyPurpose::NodeSigning, 1, 5);
    registry.add(1, KeyPurpose::NodeSigning, 3, 7);
    registry.add(1, KeyPurpose::CommitteeSigning, 1, 9);
    assert_eq!(registry.get_public_key(1, KeyPurpose::NodeSigning, 0), None);
    assert_eq!(registry.get_public_key(1, KeyPurpose::NodeSigning, 1), Some(5));
    assert_eq!(registry.get_public_key(1, KeyPurpose::NodeSigning, 2), Some(5));
    assert_eq!(registry.get_public_key(1, KeyPurpose::NodeSigning, 3), Some(7));
    assert_eq!(registry.get_public_key(1, KeyPurpose::NodeSigning, 9), Some(7));
    assert_eq!(registry.get_public_key(1, KeyPurpose::CommitteeSigning, 1), Some(9));
    assert_eq!(registry.get_public_key(2, KeyPurpose::NodeSigning, 9), None);
}

#[test]
fn later_registry_records_shadow_earlier_ones() {
    let mut registry = Registry::new();
    registry.add(1, KeyPurpose::NodeSigning, 1, 5);
    registry.add(1, KeyPurpose::NodeSigning, 1, 6);
    assert_eq!(registry.get_public_key(1, KeyPurpose::NodeSigning, 1), Some(6));
}

#[test]
fn log_ok_content_renders_the_content_or_none() {
    assert_eq!(log_ok_content(&Ok("signature".to_string())), "signature");
    assert_eq!(log_ok_content(&Err("boom".to_string())), "none");
}

#[test]
fn log_err_renders_the_error_or_none() {
    assert_eq!(log_err(&Some("timeout".to_string())), "timeout");
    assert_eq!(log_err(&None), "none");
}

#[test]
fn vault_share_log_shadows_and_retains() {
    let mut vault = Vault::new_from_seed(3);
    vault.insert_share(1, 10);
    vault.insert_share(1, 20);
    assert_eq!(vault.get_share(1), Some(20));
    assert_eq!(vault.get_share(2), None);
}

#[test]
fn registering_node_keys_publishes_each_present_key() {
    let mut registry = Registry::new();
    let mut vault = Vault::new_from_seed(11);
    let keys = vault.generate_keys(&NodeKeysToGenerate {
        generate_node_signing_keys: true,
        generate_idkg_dealing_encryption_keys: true,
        ..NodeKeysToGenerate::none()
    });
    ic_crypto::keys::register_node_keys(&mut registry, 5, 2, &keys);
    assert_eq!(
        registry.get_public_key(5, KeyPurpose::NodeSigning, 2),
        keys.node_signing_pk
    );
    assert_eq!(
        registry.get_public_key(5, KeyPurpose::IDkgMEGaEncryption, 2),
        keys.idkg_dealing_encryption_pk
    );
    assert_eq!(registry.get_public_key(5, KeyPurpose::CommitteeSigning, 2), None);
    assert_eq!(registry.get_public_key(5, KeyPurpose::TlsCertificate, 2), None);
    // Not yet visible at an earlier version.
    assert_eq!(registry.get_public_key(5, KeyPurpose::NodeSigning, 1), None);
}

#[test]
fn closed_vault_channel_during_key_generation_is_a_boundary_error() {
    assert_eq!(
        interpret_vault_keygen_outcome(&None),
        Err(ic_crypto::errors::IdkgError::VaultUnavailable)
    );
    let mut vault = Vault::new_from_seed(21);
    let keys = vault.generate_keys(&NodeKeysToGenerate::only_node_signing_key());
    assert_eq!(interpret_vault_keygen_outcome(&Some(keys)), Ok(keys));
}
