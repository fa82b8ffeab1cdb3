//! The secret vault: the one component that touches raw secret scalars.
//!
//! Every operation that handles a secret — key generation, decryption of
//! dealt shares, signature-share computation — lives behind this boundary.
//! Requests carry only public parameters and ciphertexts; responses carry
//! only public keys, disclosed shares of the accountability sub-protocol,
//! or signatures.  Loaded transcript shares are kept in an append-ordered
//! log in which a later entry for a transcript identifier shadows every
//! earlier one, so reloading a transcript is idempotent.

use vstd::prelude::*;

use crate::field::{
    add_elem, is_elem, mul_elem, spec_add, spec_mul, spec_sub, spec_sum, sub_elem, FIELD_MODULUS,
};
use crate::keys::{NodeKeysToGenerate, NodePublicKeys};

verus! {

/// Declares `rand_chacha::ChaCha20Rng`, the vault's random-number
/// generator, as an opaque outside type.
#[verifier::external_type_specification]
#[verifier::external_body]
pub struct ExChaCha20Rng(rand_chacha::ChaCha20Rng);

/// Relies on `rand_chacha::ChaCha20Rng::from_entropy` (via `rand`'s
/// `SeedableRng`) for a generator seeded from the operating system's
/// entropy source.
#[verifier::external_body]
fn chacha_from_entropy() -> rand_chacha::ChaCha20Rng {
    <rand_chacha::ChaCha20Rng as rand::SeedableRng>::from_entropy()
}

/// Relies on `rand_chacha::ChaCha20Rng::seed_from_u64` (via `rand`'s
/// `SeedableRng`) for a generator derived from a caller-supplied seed.
#[verifier::external_body]
fn chacha_from_seed(seed: u64) -> rand_chacha::ChaCha20Rng {
    <rand_chacha::ChaCha20Rng as rand::SeedableRng>::seed_from_u64(seed)
}

/// Relies on `rand::Rng::gen_range`: a value drawn from `0..bound`,
/// whatever the generator state; nothing more is assumed of it.
#[verifier::external_body]
fn sample_below(rng: &mut rand_chacha::ChaCha20Rng, bound: u64) -> (r: u64)
    requires
        bound > 0,
    ensures
        r < bound,
{
    rand::Rng::gen_range(rng, 0..bound)
}

/// The share a transcript identifier maps to in the vault's log: the last
/// entry for the identifier wins.
pub open spec fn share_lookup(shares: Seq<(u64, u64)>, transcript_id: u64) -> Option<u64>
    decreases shares.len(),
{
    if shares.len() == 0 {
        None
    } else if shares.last().0 == transcript_id {
        Some(shares.last().1)
    } else {
        share_lookup(shares.drop_last(), transcript_id)
    }
}

/// Every stored share is a reduced field element.
pub open spec fn shares_wf(shares: Seq<(u64, u64)>) -> bool {
    forall|i: int| 0 <= i < shares.len() ==> is_elem(#[trigger] shares[i].1)
}

/// A looked-up share of a well-formed log is a field element.
pub proof fn lemma_share_lookup_is_elem(shares: Seq<(u64, u64)>, transcript_id: u64)
    requires
        shares_wf(shares),
    ensures
        match share_lookup(shares, transcript_id) {
            Some(s) => is_elem(s),
            None => true,
        },
    decreases shares.len(),
{
    if shares.len() > 0 {
        assert(shares_wf(shares.drop_last()));
        lemma_share_lookup_is_elem(shares.drop_last(), transcript_id);
    }
}

/// The entries of the log that survive retention: exactly those whose
/// transcript identifier is in the active set.
pub open spec fn spec_retained(shares: Seq<(u64, u64)>, active: Seq<u64>) -> Seq<(u64, u64)>
    decreases shares.len(),
{
    if shares.len() == 0 {
        Seq::empty()
    } else {
        let rest = spec_retained(shares.drop_last(), active);
        if active.contains(shares.last().0) {
            rest.push(shares.last())
        } else {
            rest
        }
    }
}

/// Retention keeps the shares of active transcripts unchanged and removes
/// every other share.
pub proof fn lemma_retained_lookup(shares: Seq<(u64, u64)>, active: Seq<u64>, transcript_id: u64)
    ensures
        share_lookup(spec_retained(shares, active), transcript_id) == if active.contains(
            transcript_id,
        ) {
            share_lookup(shares, transcript_id)
        } else {
            None
        },
    decreases shares.len(),
{
    if shares.len() > 0 {
        lemma_retained_lookup(shares.drop_last(), active, transcript_id);
        let rest = spec_retained(shares.drop_last(), active);
        if active.contains(shares.last().0) {
            assert(rest.push(shares.last()).drop_last() =~= rest);
            assert(rest.push(shares.last()).last() == shares.last());
        }
    }
}

/// Retention is idempotent: a second run with the same active set leaves
/// the vault exactly as the first left it.
pub proof fn lemma_retained_idempotent(shares: Seq<(u64, u64)>, active: Seq<u64>)
    ensures
        spec_retained(spec_retained(shares, active), active) == spec_retained(shares, active),
    decreases shares.len(),
{
    if shares.len() == 0 {
        assert(spec_retained(spec_retained(shares, active), active) =~= spec_retained(
            shares,
            active,
        ));
    } else {
        lemma_retained_idempotent(shares.drop_last(), active);
        let rest = spec_retained(shares.drop_last(), active);
        if active.contains(shares.last().0) {
            assert(spec_retained(rest.push(shares.last()), active) == spec_retained(
                rest,
                active,
            ).push(shares.last())) by {
                assert(rest.push(shares.last()).drop_last() =~= rest);
            }
        }
    }
}

/// Retention never grows the log.
pub proof fn lemma_retained_wf(shares: Seq<(u64, u64)>, active: Seq<u64>)
    requires
        shares_wf(shares),
    ensures
        shares_wf(spec_retained(shares, active)),
    decreases shares.len(),
{
    if shares.len() > 0 {
        assert(shares_wf(shares.drop_last()));
        lemma_retained_wf(shares.drop_last(), active);
    }
}

/// A node's signature share over signing inputs, as the vault computes it
/// from the node's loaded transcript shares: the key share bound to the
/// message digest, the presignature shares, and the derivation-path digest,
/// folded in the field.
pub open spec fn spec_sig_share_value(
    key_share: u64,
    presig_shares: Seq<u64>,
    message_digest: u64,
    path_digest: u64,
) -> u64 {
    spec_add(spec_add(spec_mul(key_share, message_digest), spec_sum(presig_shares)), path_digest)
}

/// The first referenced transcript whose share the vault does not hold:
/// the key transcript first, then the presignature transcripts in order.
pub open spec fn spec_first_missing(
    shares: Seq<(u64, u64)>,
    key_transcript_id: u64,
    presignature_ids: Seq<u64>,
) -> Option<u64>
    decreases presignature_ids.len(),
{
    if share_lookup(shares, key_transcript_id).is_none() {
        Some(key_transcript_id)
    } else if presignature_ids.len() == 0 {
        None
    } else if share_lookup(shares, presignature_ids[0]).is_none() {
        Some(presignature_ids[0])
    } else {
        spec_first_missing(shares, key_transcript_id, presignature_ids.skip(1))
    }
}

/// The two vaults hold the same long-term keys.
pub open spec fn same_keys(a: &Vault, b: &Vault) -> bool {
    &&& a.node_signing_key() == b.node_signing_key()
    &&& a.committee_signing_key() == b.committee_signing_key()
    &&& a.dkg_key() == b.dkg_key()
    &&& a.idkg_key() == b.idkg_key()
    &&& a.tls_key() == b.tls_key()
}

/// The isolated holder of all secret key material of one node.
pub struct Vault {
    node_signing_sk: Option<u64>,
    committee_signing_sk: Option<u64>,
    dkg_dealing_encryption_sk: Option<u64>,
    idkg_dealing_encryption_sk: Option<u64>,
    tls_sk: Option<u64>,
    shares: Vec<(u64, u64)>,
    rng: rand_chacha::ChaCha20Rng,
}

impl Vault {
    /// The log of loaded transcript shares.
    pub closed spec fn shares_view(&self) -> Seq<(u64, u64)> {
        self.shares@
    }

    pub closed spec fn idkg_key(&self) -> Option<u64> {
        self.idkg_dealing_encryption_sk
    }

    pub closed spec fn node_signing_key(&self) -> Option<u64> {
        self.node_signing_sk
    }

    pub closed spec fn committee_signing_key(&self) -> Option<u64> {
        self.committee_signing_sk
    }

    pub closed spec fn dkg_key(&self) -> Option<u64> {
        self.dkg_dealing_encryption_sk
    }

    pub closed spec fn tls_key(&self) -> Option<u64> {
        self.tls_sk
    }

    pub open spec fn wf(&self) -> bool {
        &&& shares_wf(self.shares_view())
        &&& (self.node_signing_key() matches Some(k) ==> is_elem(k))
        &&& (self.committee_signing_key() matches Some(k) ==> is_elem(k))
        &&& (self.dkg_key() matches Some(k) ==> is_elem(k))
        &&& (self.idkg_key() matches Some(k) ==> is_elem(k))
        &&& (self.tls_key() matches Some(k) ==> is_elem(k))
    }

    /// A fresh vault with no keys and no shares, drawing randomness from
    /// the operating system.
    pub fn new() -> (r: Vault)
        ensures
            r.shares_view() == Seq::<(u64, u64)>::empty(),
            r.idkg_key().is_none(),
            r.node_signing_key().is_none(),
            r.committee_signing_key().is_none(),
            r.dkg_key().is_none(),
            r.tls_key().is_none(),
            r.wf(),
    {
        Vault {
            node_signing_sk: None,
            committee_signing_sk: None,
            dkg_dealing_encryption_sk: None,
            idkg_dealing_encryption_sk: None,
            tls_sk: None,
            shares: Vec::new(),
            rng: chacha_from_entropy(),
        }
    }

    /// A fresh vault whose randomness derives from the given seed.
    pub fn new_from_seed(seed: u64) -> (r: Vault)
        ensures
            r.shares_view() == Seq::<(u64, u64)>::empty(),
            r.idkg_key().is_none(),
            r.node_signing_key().is_none(),
            r.committee_signing_key().is_none(),
            r.dkg_key().is_none(),
            r.tls_key().is_none(),
            r.wf(),
    {
        Vault {
            node_signing_sk: None,
            committee_signing_sk: None,
            dkg_dealing_encryption_sk: None,
            idkg_dealing_encryption_sk: None,
            tls_sk: None,
            shares: Vec::new(),
            rng: chacha_from_seed(seed),
        }
    }

    /// Draws one fresh field element.
    pub fn sample_elem(&mut self) -> (r: u64)
        requires
            old(self).wf(),
        ensures
            is_elem(r),
            final(self).wf(),
            final(self).shares_view() == old(self).shares_view(),
            final(self).idkg_key() == old(self).idkg_key(),
            final(self).node_signing_key() == old(self).node_signing_key(),
            final(self).committee_signing_key() == old(self).committee_signing_key(),
            final(self).dkg_key() == old(self).dkg_key(),
            final(self).tls_key() == old(self).tls_key(),
    {
        sample_below(&mut self.rng, FIELD_MODULUS)
    }

    /// Generates the selected keys, storing the secret parts and returning
    /// the public parts.  In this model a key pair is transparent: the
    /// published key equals the stored scalar, so the pair is binding but
    /// not hiding; role checks, not hardness, gate decryption.
    pub fn generate_keys(&mut self, selector: &NodeKeysToGenerate) -> (r: NodePublicKeys)
        requires
            old(self).wf(),
        ensures
            final(self).wf(),
            final(self).shares_view() == old(self).shares_view(),
            selector.generate_node_signing_keys ==> final(self).node_signing_key().is_some()
                && r.node_signing_pk == final(self).node_signing_key(),
            !selector.generate_node_signing_keys ==> final(self).node_signing_key()
                == old(self).node_signing_key() && r.node_signing_pk.is_none(),
            selector.generate_committee_signing_keys
                ==> final(self).committee_signing_key().is_some()
                && r.committee_signing_pk == final(self).committee_signing_key(),
            !selector.generate_committee_signing_keys ==> final(self).committee_signing_key()
                == old(self).committee_signing_key() && r.committee_signing_pk.is_none(),
            selector.generate_dkg_dealing_encryption_keys ==> final(self).dkg_key().is_some()
                && r.dkg_dealing_encryption_pk == final(self).dkg_key(),
            !selector.generate_dkg_dealing_encryption_keys ==> final(self).dkg_key()
                == old(self).dkg_key() && r.dkg_dealing_encryption_pk.is_none(),
            selector.generate_idkg_dealing_encryption_keys ==> final(self).idkg_key().is_some()
                && r.idkg_dealing_encryption_pk == final(self).idkg_key(),
            !selector.generate_idkg_dealing_encryption_keys ==> final(self).idkg_key()
                == old(self).idkg_key() && r.idkg_dealing_encryption_pk.is_none(),
            selector.generate_tls_keys_and_certificate ==> final(self).tls_key().is_some()
                && r.tls_certificate == final(self).tls_key(),
            !selector.generate_tls_keys_and_certificate ==> final(self).tls_key()
                == old(self).tls_key() && r.tls_certificate.is_none(),
    {
        let node_signing_pk = if selector.generate_node_signing_keys {
            let sk = self.sample_elem();
            self.node_signing_sk = Some(sk);
            Some(sk)
        } else {
            None
        };
        let committee_signing_pk = if selector.generate_committee_signing_keys {
            let sk = self.sample_elem();
            self.committee_signing_sk = Some(sk);
            Some(sk)
        } else {
            None
        };
        let dkg_dealing_encryption_pk = if selector.generate_dkg_dealing_encryption_keys {
            let sk = self.sample_elem();
            self.dkg_dealing_encryption_sk = Some(sk);
            Some(sk)
        } else {
            None
        };
        let idkg_dealing_encryption_pk = if selector.generate_idkg_dealing_encryption_keys {
            let sk = self.sample_elem();
            self.idkg_dealing_encryption_sk = Some(sk);
            Some(sk)
        } else {
            None
        };
        let tls_certificate = if selector.generate_tls_keys_and_certificate {
            let sk = self.sample_elem();
            self.tls_sk = Some(sk);
            Some(sk)
        } else {
            None
        };
        NodePublicKeys {
            node_signing_pk,
            committee_signing_pk,
            dkg_dealing_encryption_pk,
            idkg_dealing_encryption_pk,
            tls_certificate,
        }
    }

    /// Whether the vault holds a dealing-decryption key.
    pub fn has_idkg_key(&self) -> (r: bool)
        ensures
            r == self.idkg_key().is_some(),
    {
        self.idkg_dealing_encryption_sk.is_some()
    }

    /// Decrypts one dealt ciphertext with this node's dealing-decryption
    /// key; `None` where the vault holds no such key.
    pub fn idkg_decrypt(&self, ciphertext: u64) -> (r: Option<u64>)
        requires
            self.wf(),
            is_elem(ciphertext),
        ensures
            match self.idkg_key() {
                Some(k) => r == Some(spec_sub(ciphertext, k)) && is_elem(r.unwrap()),
                None => r.is_none(),
            },
    {
        match self.idkg_dealing_encryption_sk {
            Some(k) => Some(sub_elem(ciphertext, k)),
            None => None,
        }
    }

    /// Records this node's combined share of a transcript; a later record
    /// for the same identifier shadows any earlier one.
    pub fn insert_share(&mut self, transcript_id: u64, share: u64)
        requires
            old(self).wf(),
            is_elem(share),
        ensures
            final(self).wf(),
            final(self).shares_view() == old(self).shares_view().push((transcript_id, share)),
            share_lookup(final(self).shares_view(), transcript_id) == Some(share),
            forall|t: u64|
                t != transcript_id ==> #[trigger] share_lookup(final(self).shares_view(), t)
                    == share_lookup(old(self).shares_view(), t),
            final(self).idkg_key() == old(self).idkg_key(),
            final(self).node_signing_key() == old(self).node_signing_key(),
            final(self).committee_signing_key() == old(self).committee_signing_key(),
            final(self).dkg_key() == old(self).dkg_key(),
            final(self).tls_key() == old(self).tls_key(),
    {
        self.shares.push((transcript_id, share));
        proof {
            assert forall|t: u64| t != transcript_id implies #[trigger] share_lookup(
                self.shares@,
                t,
            ) == share_lookup(old(self).shares@, t) by {
                assert(self.shares@.drop_last() =~= old(self).shares@);
            }
            assert(self.shares@.drop_last() =~= old(self).shares@);
        }
    }

    /// The share loaded for a transcript, if any.
    pub fn get_share(&self, transcript_id: u64) -> (r: Option<u64>)
        ensures
            r == share_lookup(self.shares_view(), transcript_id),
    {
        let mut i: usize = self.shares.len();
        proof {
            assert(self.shares@.take(self.shares@.len() as int) =~= self.shares@);
        }
        while i > 0
            invariant
                i <= self.shares.len(),
                share_lookup(self.shares@.take(i as int), transcript_id) == share_lookup(
                    self.shares@,
                    transcript_id,
                ),
            decreases i,
        {
            i = i - 1;
            let entry = self.shares[i];
            proof {
                assert(self.shares@.take(i as int + 1).drop_last() =~= self.shares@.take(i as int));
                assert(self.shares@.take(i as int + 1).last() == self.shares@[i as int]);
            }
            if entry.0 == transcript_id {
                return Some(entry.1);
            }
        }
        None
    }

    /// Drops the share of every transcript whose identifier is not in the
    /// active set.  Idempotent; a transcript already absent is no error.
    pub fn retain_active_transcripts(&mut self, active: &Vec<u64>)
        requires
            old(self).wf(),
        ensures
            final(self).wf(),
            final(self).shares_view() == spec_retained(old(self).shares_view(), active@),
            forall|t: u64|
                #[trigger] share_lookup(final(self).shares_view(), t) == if active@.contains(t) {
                    share_lookup(old(self).shares_view(), t)
                } else {
                    None::<u64>
                },
            final(self).idkg_key() == old(self).idkg_key(),
            final(self).node_signing_key() == old(self).node_signing_key(),
            final(self).committee_signing_key() == old(self).committee_signing_key(),
            final(self).dkg_key() == old(self).dkg_key(),
            final(self).tls_key() == old(self).tls_key(),
    {
        let mut kept: Vec<(u64, u64)> = Vec::new();
        let mut i: usize = 0;
        while i < self.shares.len()
            invariant
                i <= self.shares.len(),
                kept@ == spec_retained(self.shares@.take(i as int), active@),
            decreases self.shares.len() - i,
        {
            let entry = self.shares[i];
            proof {
                assert(self.shares@.take(i as int + 1).drop_last() =~= self.shares@.take(i as int));
                assert(self.shares@.take(i as int + 1).last() == self.shares@[i as int]);
            }
            if contains_id(active, entry.0) {
                kept.push(entry);
            }
            i = i + 1;
        }
        proof {
            assert(self.shares@.take(self.shares@.len() as int) =~= self.shares@);
        }
        self.shares = kept;
        proof {
            lemma_retained_wf(old(self).shares@, active@);
            assert forall|t: u64| #[trigger]
                share_lookup(self.shares@, t) == if active@.contains(t) {
                    share_lookup(old(self).shares@, t)
                } else {
                    None::<u64>
                } by {
                lemma_retained_lookup(old(self).shares@, active@, t);
            }
        }
    }

    /// Computes this node's signature share over signing inputs from its
    /// loaded transcript shares; fails with the first referenced transcript
    /// identifier whose share is missing.
    pub fn compute_sig_share(
        &self,
        key_transcript_id: u64,
        presignature_ids: &Vec<u64>,
        message_digest: u64,
        path_digest: u64,
    ) -> (r: Result<u64, u64>)
        requires
            self.wf(),
            is_elem(message_digest),
            is_elem(path_digest),
        ensures
            match spec_first_missing(self.shares_view(), key_transcript_id, presignature_ids@) {
                Some(t) => r == Err::<u64, u64>(t),
                None => r == Ok::<u64, u64>(
                    spec_sig_share_value(
                        share_lookup(self.shares_view(), key_transcript_id).unwrap(),
                        presignature_ids@.map_values(
                            |t: u64| share_lookup(self.shares_view(), t).unwrap(),
                        ),
                        message_digest,
                        path_digest,
                    ),
                ),
            },
            r matches Ok(v) ==> is_elem(v),
    {
        let key_share = match self.get_share(key_transcript_id) {
            Some(s) => s,
            None => {
                return Err(key_transcript_id);
            },
        };
        proof {
            lemma_share_lookup_is_elem(self.shares@, key_transcript_id);
        }
        let ghost all = presignature_ids@.map_values(
            |t: u64| share_lookup(self.shares@, t).unwrap(),
        );
        let mut presig_shares: Vec<u64> = Vec::new();
        let mut i: usize = 0;
        proof {
            assert(presignature_ids@.skip(0) =~= presignature_ids@);
            assert(all.take(0) =~= Seq::<u64>::empty());
        }
        while i < presignature_ids.len()
            invariant
                i <= presignature_ids.len(),
                self.wf(),
                share_lookup(self.shares@, key_transcript_id).is_some(),
                all == presignature_ids@.map_values(
                    |t: u64| share_lookup(self.shares@, t).unwrap(),
                ),
                presig_shares@ == all.take(i as int),
                shares_wf(self.shares@),
                forall|j: int|
                    0 <= j < i ==> share_lookup(
                        self.shares@,
                        #[trigger] presignature_ids@[j],
                    ).is_some(),
                spec_first_missing(self.shares@, key_transcript_id, presignature_ids@)
                    == spec_first_missing(
                    self.shares@,
                    key_transcript_id,
                    presignature_ids@.skip(i as int),
                ),
            decreases presignature_ids.len() - i,
        {
            let tid = presignature_ids[i];
            proof {
                assert(presignature_ids@.skip(i as int)[0] == presignature_ids@[i as int]);
            }
            match self.get_share(tid) {
                Some(s) => {
                    presig_shares.push(s);
                    i = i + 1;
                    proof {
                        assert(presignature_ids@.skip(i as int - 1).skip(1)
                            =~= presignature_ids@.skip(i as int));
                        assert(all.take(i as int) =~= all.take(i as int - 1).push(
                            all[i as int - 1],
                        ));
                        lemma_share_lookup_is_elem(self.shares@, tid);
                    }
                },
                None => {
                    return Err(tid);
                },
            }
        }
        proof {
            assert(presignature_ids@.skip(i as int) =~= Seq::<u64>::empty());
            assert(all.take(i as int) =~= all);
            assert(forall|j: int|
                0 <= j < all.len() ==> is_elem(#[trigger] all[j])) by {
                assert forall|j: int| 0 <= j < all.len() implies is_elem(#[trigger] all[j]) by {
                    lemma_share_lookup_is_elem(self.shares@, presignature_ids@[j]);
                }
            }
        }
        let sum = crate::field::sum_elems(&presig_shares);
        let bound = mul_elem(key_share, message_digest);
        Ok(add_elem(add_elem(bound, sum), path_digest))
    }
}

/// Whether a sorted-or-not identifier list contains an identifier.
pub fn contains_id(ids: &Vec<u64>, id: u64) -> (r: bool)
    ensures
        r == ids@.contains(id),
{
    let mut i: usize = 0;
    while i < ids.len()
        invariant
            i <= ids.len(),
            forall|j: int| 0 <= j < i ==> ids@[j] != id,
        decreases ids.len() - i,
    {
        if ids[i] == id {
            return true;
        }
        i = i + 1;
    }
    false
}

} // verus!
