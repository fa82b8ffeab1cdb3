//! Selection and publication of a node's key material.
//!
//! A node holds up to five kinds of keys: a node-signing key, a committee
//! (multi-)signing key, a dealing-encryption key for the non-interactive DKG,
//! a dealing-encryption key for the interactive DKG, and a TLS key.  The
//! vault generates whichever of them a [`NodeKeysToGenerate`] selector asks
//! for; the corresponding public keys are what a node registers in the
//! public-key directory.

use vstd::prelude::*;

use crate::registry::{KeyPurpose, Registry, RegistryRecord};

verus! {

/// Selects which keys the vault should generate for a node.
#[derive(Clone, Copy, Debug, PartialEq, Eq, Structural)]
pub struct NodeKeysToGenerate {
    pub generate_node_signing_keys: bool,
    pub generate_committee_signing_keys: bool,
    pub generate_dkg_dealing_encryption_keys: bool,
    pub generate_idkg_dealing_encryption_keys: bool,
    pub generate_tls_keys_and_certificate: bool,
}


/// The selector that picks every key, as a specification value.
pub open spec fn spec_all() -> NodeKeysToGenerate {
    NodeKeysToGenerate {
        generate_node_signing_keys: true,
        generate_committee_signing_keys: true,
        generate_dkg_dealing_encryption_keys: true,
        generate_idkg_dealing_encryption_keys: true,
        generate_tls_keys_and_certificate: true,
    }
}

/// The selector that picks no key, as a specification value.
pub open spec fn spec_none() -> NodeKeysToGenerate {
    NodeKeysToGenerate {
        generate_node_signing_keys: false,
        generate_committee_signing_keys: false,
        generate_dkg_dealing_encryption_keys: false,
        generate_idkg_dealing_encryption_keys: false,
        generate_tls_keys_and_certificate: false,
    }
}

impl NodeKeysToGenerate {
    /// Selects every kind of key.
    pub fn all() -> (r: Self)
        ensures
            r == spec_all(),
    {
        NodeKeysToGenerate {
            generate_node_signing_keys: true,
            generate_committee_signing_keys: true,
            generate_dkg_dealing_encryption_keys: true,
            generate_idkg_dealing_encryption_keys: true,
            generate_tls_keys_and_certificate: true,
        }
    }

    /// Selects no key at all.
    pub fn none() -> (r: Self)
        ensures
            r == spec_none(),
    {
        NodeKeysToGenerate {
            generate_node_signing_keys: false,
            generate_committee_signing_keys: false,
            generate_dkg_dealing_encryption_keys: false,
            generate_idkg_dealing_encryption_keys: false,
            generate_tls_keys_and_certificate: false,
        }
    }

    /// Selects every key but the non-interactive DKG dealing-encryption key.
    pub fn all_except_dkg_dealing_encryption_key() -> (r: Self)
        ensures
            r == (NodeKeysToGenerate {
                generate_dkg_dealing_encryption_keys: false,
                ..spec_all()
            }),
    {
        NodeKeysToGenerate { generate_dkg_dealing_encryption_keys: false, ..Self::all() }
    }

    /// Selects every key but the interactive DKG dealing-encryption key.
    pub fn all_except_idkg_dealing_encryption_key() -> (r: Self)
        ensures
            r == (NodeKeysToGenerate {
                generate_idkg_dealing_encryption_keys: false,
                ..spec_all()
            }),
    {
        NodeKeysToGenerate { generate_idkg_dealing_encryption_keys: false, ..Self::all() }
    }

    /// Selects only the node-signing key.
    pub fn only_node_signing_key() -> (r: Self)
        ensures
            r == (NodeKeysToGenerate { generate_node_signing_keys: true, ..spec_none() }),
    {
        NodeKeysToGenerate { generate_node_signing_keys: true, ..Self::none() }
    }

    /// Selects only the committee-signing key.
    pub fn only_committee_signing_key() -> (r: Self)
        ensures
            r == (NodeKeysToGenerate { generate_committee_signing_keys: true, ..spec_none() }),
    {
        NodeKeysToGenerate { generate_committee_signing_keys: true, ..Self::none() }
    }

    /// Selects only the non-interactive DKG dealing-encryption key.
    pub fn only_dkg_dealing_encryption_key() -> (r: Self)
        ensures
            r == (NodeKeysToGenerate {
                generate_dkg_dealing_encryption_keys: true,
                ..spec_none()
            }),
    {
        NodeKeysToGenerate { generate_dkg_dealing_encryption_keys: true, ..Self::none() }
    }

    /// Selects only the interactive DKG dealing-encryption key.
    pub fn only_idkg_dealing_encryption_key() -> (r: Self)
        ensures
            r == (NodeKeysToGenerate {
                generate_idkg_dealing_encryption_keys: true,
                ..spec_none()
            }),
    {
        NodeKeysToGenerate { generate_idkg_dealing_encryption_keys: true, ..Self::none() }
    }

    /// Selects only the TLS key and certificate.
    pub fn only_tls_key_and_cert() -> (r: Self)
        ensures
            r == (NodeKeysToGenerate { generate_tls_keys_and_certificate: true, ..spec_none() }),
    {
        NodeKeysToGenerate { generate_tls_keys_and_certificate: true, ..Self::none() }
    }
}

/// The public counterparts of a node's generated keys: one field per key
/// kind, present exactly where the selector asked for generation.
#[derive(Clone, Copy, Debug, PartialEq, Eq, Structural)]
pub struct NodePublicKeys {
    pub node_signing_pk: Option<u64>,
    pub committee_signing_pk: Option<u64>,
    pub dkg_dealing_encryption_pk: Option<u64>,
    pub idkg_dealing_encryption_pk: Option<u64>,
    pub tls_certificate: Option<u64>,
}

/// The directory records that publishing a node's generated keys appends:
/// one record per present key, in a fixed order of purposes.
pub open spec fn spec_registry_entries(
    node_id: u64,
    version: u64,
    keys: NodePublicKeys,
) -> Seq<RegistryRecord> {
    let s = Seq::<RegistryRecord>::empty();
    let s = match keys.node_signing_pk {
        Some(k) => {
        s.push(RegistryRecord { subject: node_id, purpose: KeyPurpose::NodeSigning, version, key: k })
        },
        None => s,
    };
    let s = match keys.committee_signing_pk {
        Some(k) => {
        s.push(
            RegistryRecord {
                subject: node_id,
                purpose: KeyPurpose::CommitteeSigning,
                version,
                key: k,
            },
        )
        },
        None => s,
    };
    let s = match keys.dkg_dealing_encryption_pk {
        Some(k) => {
        s.push(
            RegistryRecord {
                subject: node_id,
                purpose: KeyPurpose::DkgDealingEncryption,
                version,
                key: k,
            },
        )
        },
        None => s,
    };
    let s = match keys.idkg_dealing_encryption_pk {
        Some(k) => {
        s.push(
            RegistryRecord {
                subject: node_id,
                purpose: KeyPurpose::IDkgMEGaEncryption,
                version,
                key: k,
            },
        )
        },
        None => s,
    };
    match keys.tls_certificate {
        Some(k) => {
        s.push(
            RegistryRecord {
                subject: node_id,
                purpose: KeyPurpose::TlsCertificate,
                version,
                key: k,
            },
        )
        },
        None => s,
    }
}

/// Every present key is a reduced field element, as the vault publishes
/// them.
pub open spec fn keys_wf(keys: NodePublicKeys) -> bool {
    &&& (keys.node_signing_pk matches Some(k) ==> crate::field::is_elem(k))
    &&& (keys.committee_signing_pk matches Some(k) ==> crate::field::is_elem(k))
    &&& (keys.dkg_dealing_encryption_pk matches Some(k) ==> crate::field::is_elem(k))
    &&& (keys.idkg_dealing_encryption_pk matches Some(k) ==> crate::field::is_elem(k))
    &&& (keys.tls_certificate matches Some(k) ==> crate::field::is_elem(k))
}

/// Publishes a node's generated public keys in the directory, each under
/// its purpose, all visible from the given version.
pub fn register_node_keys(
    registry: &mut Registry,
    node_id: u64,
    version: u64,
    keys: &NodePublicKeys,
)
    requires
        old(registry).wf(),
        keys_wf(*keys),
    ensures
        final(registry).wf(),
        final(registry)@ == old(registry)@ + spec_registry_entries(node_id, version, *keys),
{
    let ghost pre = registry@;
    if let Some(k) = keys.node_signing_pk {
        registry.add(node_id, KeyPurpose::NodeSigning, version, k);
    }
    if let Some(k) = keys.committee_signing_pk {
        registry.add(node_id, KeyPurpose::CommitteeSigning, version, k);
    }
    if let Some(k) = keys.dkg_dealing_encryption_pk {
        registry.add(node_id, KeyPurpose::DkgDealingEncryption, version, k);
    }
    if let Some(k) = keys.idkg_dealing_encryption_pk {
        registry.add(node_id, KeyPurpose::IDkgMEGaEncryption, version, k);
    }
    if let Some(k) = keys.tls_certificate {
        registry.add(node_id, KeyPurpose::TlsCertificate, version, k);
    }
    proof {
        assert(registry@ =~= pre + spec_registry_entries(node_id, version, *keys));
    }
}

/// Maps the transport outcome of a remote-vault key-generation call into
/// the error taxonomy: a closed or timed-out channel is the distinct
/// boundary error; delivered public keys pass through unchanged.
pub fn interpret_vault_keygen_outcome(outcome: &Option<NodePublicKeys>) -> (r: Result<
    NodePublicKeys,
    crate::errors::IdkgError,
>)
    ensures
        match outcome {
            None => r == Err::<NodePublicKeys, crate::errors::IdkgError>(
                crate::errors::IdkgError::VaultUnavailable,
            ),
            Some(keys) => r == Ok::<NodePublicKeys, crate::errors::IdkgError>(*keys),
        },
{
    match outcome {
        None => Err(crate::errors::IdkgError::VaultUnavailable),
        Some(keys) => Ok(*keys),
    }
}

} // verus!
