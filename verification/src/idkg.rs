//! Dealings of the interactive distributed key generation protocol.
//!
//! One IDKG run is identified by immutable [`TranscriptParams`].  Each
//! dealer contributes a [`Dealing`]: a public polynomial commitment — in
//! this model the coefficient vector itself, perfectly binding — and, for
//! every receiver, the receiver's share of the dealt polynomial encrypted
//! under the receiver's registered dealing-encryption key.  A dealing is
//! checked in two phases with different trust assumptions: a public check
//! anyone can run on public data alone, and a private check only the
//! addressed receiver can run, because it decrypts with the receiver's own
//! vault-held key.

use vstd::prelude::*;

use crate::errors::IdkgError;
use crate::field::{
    add_elem, all_elems, is_elem, mul_elem, poly_eval, spec_add, spec_mul, spec_poly_eval,
    spec_sub, sub_elem, FIELD_MODULUS,
};
use crate::registry::{spec_lookup, KeyPurpose, Registry, RegistryRecord};
use crate::vault::{share_lookup, Vault};

verus! {

/// A sequence of node identifiers forming a set: strictly increasing.
pub open spec fn strictly_increasing(s: Seq<u64>) -> bool {
    forall|i: int, j: int| 0 <= i < j < s.len() ==> #[trigger] s[i] < #[trigger] s[j]
}

proof fn lemma_lt_by_steps(s: Seq<u64>, i: int, j: int)
    requires
        forall|k: int| 0 <= k < s.len() - 1 ==> #[trigger] s[k] < s[k + 1],
        0 <= i < j < s.len(),
    ensures
        s[i] < s[j],
    decreases j - i,
{
    if i + 1 < j {
        lemma_lt_by_steps(s, i, j - 1);
        assert(s[j - 1] < s[j]);
    }
}

/// Two positions of a strictly increasing sequence holding the same value
/// are the same position.
pub proof fn lemma_index_unique(s: Seq<u64>, i: int, j: int)
    requires
        strictly_increasing(s),
        0 <= i < s.len(),
        0 <= j < s.len(),
        s[i] == s[j],
    ensures
        i == j,
{
}

/// Checks that a node-identifier list is strictly increasing.
pub fn check_strictly_increasing(ids: &Vec<u64>) -> (r: bool)
    ensures
        r == strictly_increasing(ids@),
{
    let mut i: usize = 1;
    while i < ids.len()
        invariant
            1 <= i || ids.len() == 0,
            i <= ids.len() + 1,
            forall|k: int| 0 <= k < i - 1 ==> #[trigger] ids@[k] < ids@[k + 1],
        decreases ids.len() - i,
    {
        if ids[i - 1] >= ids[i] {
            return false;
        }
        i = i + 1;
    }
    proof {
        assert forall|a: int, b: int| 0 <= a < b < ids@.len() implies #[trigger] ids@[a]
            < #[trigger] ids@[b] by {
            lemma_lt_by_steps(ids@, a, b);
        }
    }
    true
}

/// The position of a node in a node list, or `None` where absent.
pub fn find_index(ids: &Vec<u64>, id: u64) -> (r: Option<usize>)
    ensures
        match r {
            Some(i) => i < ids@.len() && ids@[i as int] == id && ids@.contains(id),
            None => !ids@.contains(id),
        },
{
    let mut i: usize = 0;
    while i < ids.len()
        invariant
            i <= ids.len(),
            forall|j: int| 0 <= j < i ==> ids@[j] != id,
        decreases ids.len() - i,
    {
        if ids[i] == id {
            return Some(i);
        }
        i = i + 1;
    }
    None
}

/// What one IDKG run computes: a fresh random sharing, a resharing of a
/// completed transcript, or a sharing of the product of two completed
/// transcripts.
#[derive(Clone, Copy, Debug, PartialEq, Eq, Structural)]
pub enum IdkgOperation {
    RandomSharing,
    ReshareOf(u64),
    ProductOf(u64, u64),
}

/// The immutable parameters identifying one IDKG run.
#[derive(Clone, Debug)]
pub struct TranscriptParams {
    pub transcript_id: u64,
    /// The nodes entitled to deal, as a strictly increasing identifier list.
    pub dealers: Vec<u64>,
    /// The nodes addressed by the dealt shares, strictly increasing.
    pub receivers: Vec<u64>,
    /// The reconstruction threshold R: any R+1 valid dealings suffice, any
    /// R reveal nothing.
    pub threshold: usize,
    /// The registry version at which receiver keys are looked up.
    pub registry_version: u64,
    pub operation: IdkgOperation,
}

#[verifier::ext_equal]
pub ghost struct TranscriptParamsView {
    pub transcript_id: u64,
    pub dealers: Seq<u64>,
    pub receivers: Seq<u64>,
    pub threshold: int,
    pub registry_version: u64,
    pub operation: IdkgOperation,
}

impl View for TranscriptParams {
    type V = TranscriptParamsView;

    open spec fn view(&self) -> TranscriptParamsView {
        TranscriptParamsView {
            transcript_id: self.transcript_id,
            dealers: self.dealers@,
            receivers: self.receivers@,
            threshold: self.threshold as int,
            registry_version: self.registry_version,
            operation: self.operation,
        }
    }
}

impl TranscriptParamsView {
    /// Well-formed parameters: both node sets are sets, a transcript is
    /// attainable from the dealer set, and every receiver has a distinct
    /// nonzero evaluation point below the field modulus.
    pub open spec fn wf(self) -> bool {
        &&& 0 <= self.threshold
        &&& strictly_increasing(self.dealers)
        &&& strictly_increasing(self.receivers)
        &&& self.threshold + 1 <= self.dealers.len()
        &&& 1 <= self.receivers.len()
        &&& self.receivers.len() < FIELD_MODULUS
        &&& self.threshold + 1 < FIELD_MODULUS
    }
}

impl TranscriptParams {
    /// Checks well-formedness of the parameters.
    pub fn check_wf(&self) -> (r: bool)
        ensures
            r == self@.wf(),
    {
        check_strictly_increasing(&self.dealers) && check_strictly_increasing(&self.receivers)
            && self.threshold < self.dealers.len() && 1 <= self.receivers.len()
            && (self.receivers.len() as u64) < FIELD_MODULUS
            && (self.threshold as u64) + 1 < FIELD_MODULUS
    }
}

/// The fixed evaluation point of the receiver at a position: position plus
/// one, so that no receiver evaluates at zero, where the secret sits.
pub open spec fn spec_eval_point(j: int) -> u64 {
    (j + 1) as u64
}

/// The evaluation point of the receiver at position `j`.
pub fn eval_point(j: usize) -> (r: u64)
    requires
        j + 1 < FIELD_MODULUS,
    ensures
        r == spec_eval_point(j as int),
        is_elem(r),
{
    (j as u64) + 1
}

/// One dealer's contribution to an IDKG run.
#[derive(Clone, Debug)]
pub struct Dealing {
    /// The public polynomial commitment: the coefficients, constant term
    /// first, of the dealt polynomial.
    pub commitment: Vec<u64>,
    /// Per receiver position, the receiver's share of the polynomial
    /// encrypted under the receiver's registered dealing-encryption key.
    pub ciphertexts: Vec<u64>,
}

#[verifier::ext_equal]
pub ghost struct DealingView {
    pub commitment: Seq<u64>,
    pub ciphertexts: Seq<u64>,
}

impl View for Dealing {
    type V = DealingView;

    open spec fn view(&self) -> DealingView {
        DealingView { commitment: self.commitment@, ciphertexts: self.ciphertexts@ }
    }
}

impl DealingView {
    /// The structural (public) well-formedness of a dealing under given
    /// parameters: commitment degree and ciphertext framing.
    pub open spec fn wf(self, params: TranscriptParamsView) -> bool {
        &&& self.commitment.len() == params.threshold + 1
        &&& all_elems(self.commitment)
        &&& self.ciphertexts.len() == params.receivers.len()
        &&& all_elems(self.ciphertexts)
    }
}

/// Checks that every entry of a vector is a reduced field element.
pub fn check_all_elems(values: &Vec<u64>) -> (r: bool)
    ensures
        r == all_elems(values@),
{
    let mut i: usize = 0;
    while i < values.len()
        invariant
            i <= values.len(),
            forall|j: int| 0 <= j < i ==> is_elem(#[trigger] values@[j]),
        decreases values.len() - i,
    {
        if values[i] >= FIELD_MODULUS {
            return false;
        }
        i = i + 1;
    }
    true
}

/// The dealing-encryption key of a receiver, from the directory.
pub open spec fn spec_receiver_key(
    registry: Seq<RegistryRecord>,
    node: u64,
    version: u64,
) -> Option<u64> {
    spec_lookup(registry, node, KeyPurpose::IDkgMEGaEncryption, version)
}

/// The ciphertext an honest dealer addresses to the receiver at position
/// `j`: the share masked with the receiver's key.
pub open spec fn spec_ciphertext(coeffs: Seq<u64>, key: u64, j: int) -> u64 {
    spec_add(spec_poly_eval(coeffs, spec_eval_point(j)), key)
}

/// The ciphertext at position `k` is the honest one for the receiver at
/// that position, whose key is present in the directory.
pub open spec fn ciphertext_ok_at(
    cts: Seq<u64>,
    coeffs: Seq<u64>,
    params: TranscriptParamsView,
    registry: Seq<RegistryRecord>,
    k: int,
) -> bool {
    &&& spec_receiver_key(registry, params.receivers[k], params.registry_version).is_some()
    &&& cts[k] == spec_ciphertext(
        coeffs,
        spec_receiver_key(registry, params.receivers[k], params.registry_version).unwrap(),
        k,
    )
}

/// Whether a dealing is exactly the honest dealing of the polynomial
/// `coeffs` under the given parameters and directory contents.
pub open spec fn dealing_matches_coeffs(
    d: DealingView,
    coeffs: Seq<u64>,
    params: TranscriptParamsView,
    registry: Seq<RegistryRecord>,
) -> bool {
    &&& d.commitment == coeffs
    &&& d.ciphertexts.len() == params.receivers.len()
    &&& forall|j: int|
        0 <= j < params.receivers.len() ==> #[trigger] ciphertext_ok_at(
            d.ciphertexts,
            coeffs,
            params,
            registry,
            j,
        )
}

/// Valid coefficients for a dealing under the parameters: reduced, of
/// degree the threshold, with the constant term the operation prescribes
/// relative to this dealer's loaded prior shares.
pub open spec fn secret0_prescribed(
    secret0: u64,
    operation: IdkgOperation,
    vault_shares: Seq<(u64, u64)>,
) -> bool {
    match operation {
        IdkgOperation::RandomSharing => true,
        IdkgOperation::ReshareOf(t) => secret0 == share_lookup(vault_shares, t).unwrap(),
        IdkgOperation::ProductOf(a, b) => secret0 == spec_mul(
            share_lookup(vault_shares, a).unwrap(),
            share_lookup(vault_shares, b).unwrap(),
        ),
    }
}

pub open spec fn coeffs_valid_for(
    coeffs: Seq<u64>,
    params: TranscriptParamsView,
    vault_shares: Seq<(u64, u64)>,
) -> bool {
    &&& coeffs.len() == params.threshold + 1
    &&& all_elems(coeffs)
    &&& secret0_prescribed(coeffs[0], params.operation, vault_shares)
}

/// Whether the vault holds the prior shares the operation builds on.
pub open spec fn prior_shares_loaded(
    operation: IdkgOperation,
    vault_shares: Seq<(u64, u64)>,
) -> bool {
    match operation {
        IdkgOperation::RandomSharing => true,
        IdkgOperation::ReshareOf(t) => share_lookup(vault_shares, t).is_some(),
        IdkgOperation::ProductOf(a, b) => share_lookup(vault_shares, a).is_some() && share_lookup(
            vault_shares,
            b,
        ).is_some(),
    }
}

/// Every receiver's dealing-encryption key is in the directory at the
/// parameters' registry version.
pub open spec fn all_receiver_keys_present(
    params: TranscriptParamsView,
    registry: Seq<RegistryRecord>,
) -> bool {
    forall|j: int|
        0 <= j < params.receivers.len() ==> #[trigger] spec_receiver_key(
            registry,
            params.receivers[j],
            params.registry_version,
        ).is_some()
}

/// Creates this dealer's dealing for the run: samples the polynomial —
/// with the constant term the operation prescribes — and encrypts each
/// receiver's share under the receiver's registered key.  The polynomial
/// is drawn inside the vault; only the commitment and the ciphertexts
/// leave it.
pub fn create_dealing(
    params: &TranscriptParams,
    dealer_id: u64,
    registry: &Registry,
    vault: &mut Vault,
) -> (r: Result<Dealing, IdkgError>)
    requires
        params@.wf(),
        old(vault).wf(),
        registry.wf(),
    ensures
        final(vault).wf(),
        final(vault).shares_view() == old(vault).shares_view(),
        crate::vault::same_keys(final(vault), old(vault)),
        !params@.dealers.contains(dealer_id) ==> r == Err::<Dealing, IdkgError>(
            IdkgError::NotADealer,
        ),
        params@.dealers.contains(dealer_id) && !prior_shares_loaded(
            params@.operation,
            old(vault).shares_view(),
        ) ==> r == Err::<Dealing, IdkgError>(IdkgError::PriorTranscriptNotLoaded),
        params@.dealers.contains(dealer_id) && prior_shares_loaded(
            params@.operation,
            old(vault).shares_view(),
        ) && !all_receiver_keys_present(params@, registry@) ==> r == Err::<Dealing, IdkgError>(
            IdkgError::PublicKeyNotFound,
        ),
        params@.dealers.contains(dealer_id) && prior_shares_loaded(
            params@.operation,
            old(vault).shares_view(),
        ) && all_receiver_keys_present(params@, registry@) ==> match r {
            Ok(d) => exists|coeffs: Seq<u64>|
                coeffs_valid_for(coeffs, params@, old(vault).shares_view())
                    && dealing_matches_coeffs(#[trigger] d@, coeffs, params@, registry@),
            Err(_) => false,
        },
{
    if !crate::vault::contains_id(&params.dealers, dealer_id) {
        return Err(IdkgError::NotADealer);
    }
    let secret0: u64 = match params.operation {
        IdkgOperation::RandomSharing => vault.sample_elem(),
        IdkgOperation::ReshareOf(t) => {
            match vault.get_share(t) {
                Some(s) => {
                    proof {
                        crate::vault::lemma_share_lookup_is_elem(vault.shares_view(), t);
                    }
                    s
                },
                None => {
                    return Err(IdkgError::PriorTranscriptNotLoaded);
                },
            }
        },
        IdkgOperation::ProductOf(a, b) => {
            let sa = match vault.get_share(a) {
                Some(s) => s,
                None => {
                    return Err(IdkgError::PriorTranscriptNotLoaded);
                },
            };
            let sb = match vault.get_share(b) {
                Some(s) => s,
                None => {
                    return Err(IdkgError::PriorTranscriptNotLoaded);
                },
            };
            proof {
                crate::vault::lemma_share_lookup_is_elem(vault.shares_view(), a);
                crate::vault::lemma_share_lookup_is_elem(vault.shares_view(), b);
            }
            mul_elem(sa, sb)
        },
    };
    let mut coeffs: Vec<u64> = Vec::new();
    coeffs.push(secret0);
    while coeffs.len() < params.threshold + 1
        invariant
            1 <= coeffs@.len() <= params@.threshold + 1,
            params@.threshold + 1 < FIELD_MODULUS,
            all_elems(coeffs@),
            coeffs@[0] == secret0,
            vault.wf(),
            vault.shares_view() == old(vault).shares_view(),
            crate::vault::same_keys(vault, old(vault)),
            params@.dealers.contains(dealer_id),
            prior_shares_loaded(params@.operation, old(vault).shares_view()),
            secret0_prescribed(secret0, params@.operation, old(vault).shares_view()),
        decreases params.threshold + 1 - coeffs.len(),
    {
        let c = vault.sample_elem();
        coeffs.push(c);
    }
    let mut ciphertexts: Vec<u64> = Vec::new();
    let mut j: usize = 0;
    while j < params.receivers.len()
        invariant
            j <= params@.receivers.len(),
            params@.wf(),
            all_elems(coeffs@),
            coeffs@.len() == params@.threshold + 1,
            coeffs@[0] == secret0,
            vault.wf(),
            vault.shares_view() == old(vault).shares_view(),
            crate::vault::same_keys(vault, old(vault)),
            params@.dealers.contains(dealer_id),
            prior_shares_loaded(params@.operation, old(vault).shares_view()),
            secret0_prescribed(secret0, params@.operation, old(vault).shares_view()),
            registry.wf(),
            ciphertexts@.len() == j,
            forall|k: int|
                0 <= k < j ==> #[trigger] ciphertext_ok_at(
                    ciphertexts@,
                    coeffs@,
                    params@,
                    registry@,
                    k,
                ),
            all_elems(ciphertexts@),
        decreases params.receivers.len() - j,
    {
        let receiver = params.receivers[j];
        let key = match registry.get_public_key(
            receiver,
            KeyPurpose::IDkgMEGaEncryption,
            params.registry_version,
        ) {
            Some(k) => k,
            None => {
                proof {
                    assert(spec_receiver_key(
                        registry@,
                        params@.receivers[j as int],
                        params@.registry_version,
                    ).is_none());
                }
                return Err(IdkgError::PublicKeyNotFound);
            },
        };
        proof {
            crate::registry::lemma_lookup_is_elem(
                registry@,
                receiver,
                KeyPurpose::IDkgMEGaEncryption,
                params.registry_version,
            );
        }
        let share = poly_eval(&coeffs, eval_point(j));
        let ghost prior_cts = ciphertexts@;
        ciphertexts.push(add_elem(share, key));
        j = j + 1;
        proof {
            let jj = j as int - 1;
            assert(ciphertexts@ == prior_cts.push(spec_add(share, key)));
            assert forall|k: int| 0 <= k < j implies #[trigger] ciphertext_ok_at(
                ciphertexts@,
                coeffs@,
                params@,
                registry@,
                k,
            ) by {
                if k < jj {
                    assert(ciphertext_ok_at(prior_cts, coeffs@, params@, registry@, k));
                    assert(ciphertexts@[k] == prior_cts[k]);
                } else {
                    assert(spec_receiver_key(
                        registry@,
                        params@.receivers[jj],
                        params@.registry_version,
                    ) == Some(key));
                    assert(ciphertexts@[jj] == spec_add(share, key));
                }
            }
        }
    }
    let ghost chosen_coeffs = coeffs@;
    let ghost cts = ciphertexts@;
    let dealing = Dealing { commitment: coeffs, ciphertexts };
    proof {
        assert(coeffs_valid_for(chosen_coeffs, params@, old(vault).shares_view()));
        assert forall|k: int| 0 <= k < params@.receivers.len() implies #[trigger] ciphertext_ok_at(
            dealing@.ciphertexts,
            chosen_coeffs,
            params@,
            registry@,
            k,
        ) by {
            assert(ciphertext_ok_at(cts, chosen_coeffs, params@, registry@, k));
            assert(dealing@.ciphertexts =~= cts);
        }
        assert(dealing_matches_coeffs(dealing@, chosen_coeffs, params@, registry@));
        assert forall|k: int| 0 <= k < params@.receivers.len() implies #[trigger] spec_receiver_key(
            registry@,
            params@.receivers[k],
            params@.registry_version,
        ).is_some() by {
            assert(ciphertext_ok_at(cts, chosen_coeffs, params@, registry@, k));
        }
        assert(all_receiver_keys_present(params@, registry@));
    }
    Ok(dealing)
}

/// The public check of a dealing: a pure function of public data that any
/// party can run; no secret material is required.
pub fn verify_dealing_public(params: &TranscriptParams, dealer_id: u64, dealing: &Dealing) -> (r:
    Result<(), IdkgError>)
    requires
        params@.wf(),
    ensures
        r matches Ok(_) <==> params@.dealers.contains(dealer_id) && dealing@.wf(params@),
        r == Err::<(), IdkgError>(IdkgError::NotADealer) <==> !params@.dealers.contains(dealer_id),
        r == Err::<(), IdkgError>(IdkgError::MalformedDealing) <==> params@.dealers.contains(
            dealer_id,
        ) && !dealing@.wf(params@),
{
    if !crate::vault::contains_id(&params.dealers, dealer_id) {
        return Err(IdkgError::NotADealer);
    }
    if dealing.commitment.len() != params.threshold + 1 {
        return Err(IdkgError::MalformedDealing);
    }
    if !check_all_elems(&dealing.commitment) {
        return Err(IdkgError::MalformedDealing);
    }
    if dealing.ciphertexts.len() != params.receivers.len() {
        return Err(IdkgError::MalformedDealing);
    }
    if !check_all_elems(&dealing.ciphertexts) {
        return Err(IdkgError::MalformedDealing);
    }
    Ok(())
}

/// Whether the receiver at position `idx` can decrypt its share of the
/// dealing with key `sk` to the value the commitment prescribes.
pub open spec fn spec_private_ok(d: DealingView, sk: u64, idx: int) -> bool {
    spec_sub(d.ciphertexts[idx], sk) == spec_poly_eval(d.commitment, spec_eval_point(idx))
}

/// The private check of a dealing, runnable only by an addressed receiver:
/// decrypts the receiver's share inside the vault and compares it with the
/// public commitment's evaluation at the receiver's point.
pub fn verify_dealing_private(
    params: &TranscriptParams,
    dealer_id: u64,
    dealing: &Dealing,
    receiver_id: u64,
    vault: &Vault,
) -> (r: Result<(), IdkgError>)
    requires
        params@.wf(),
        vault.wf(),
    ensures
        !params@.dealers.contains(dealer_id) ==> r == Err::<(), IdkgError>(IdkgError::NotADealer),
        params@.dealers.contains(dealer_id) && !dealing@.wf(params@) ==> r == Err::<(), IdkgError>(
            IdkgError::MalformedDealing,
        ),
        !params@.receivers.contains(receiver_id) && params@.dealers.contains(dealer_id)
            && dealing@.wf(params@) ==> r == Err::<(), IdkgError>(IdkgError::NotAReceiver),
        params@.receivers.contains(receiver_id) && params@.dealers.contains(dealer_id)
            && dealing@.wf(params@) && vault.idkg_key().is_none() ==> r == Err::<(), IdkgError>(
            IdkgError::SecretKeyNotFound,
        ),
        params@.receivers.contains(receiver_id) && params@.dealers.contains(dealer_id)
            && dealing@.wf(params@) && vault.idkg_key().is_some() ==> {
            let idx = params@.receivers.index_of(receiver_id);
            if spec_private_ok(dealing@, vault.idkg_key().unwrap(), idx) {
                r == Ok::<(), IdkgError>(())
            } else {
                r == Err::<(), IdkgError>(IdkgError::PrivateVerificationFailure)
            }
        },
{
    match verify_dealing_public(params, dealer_id, dealing) {
        Ok(_) => {},
        Err(e) => {
            return Err(e);
        },
    }
    let idx = match find_index(&params.receivers, receiver_id) {
        Some(i) => i,
        None => {
            return Err(IdkgError::NotAReceiver);
        },
    };
    proof {
        lemma_index_unique(params@.receivers, idx as int, params@.receivers.index_of(receiver_id));
    }
    let share = match vault.idkg_decrypt(dealing.ciphertexts[idx]) {
        Some(s) => s,
        None => {
            return Err(IdkgError::SecretKeyNotFound);
        },
    };
    let expected = poly_eval(&dealing.commitment, eval_point(idx));
    if share == expected {
        Ok(())
    } else {
        Err(IdkgError::PrivateVerificationFailure)
    }
}

/// An honest dealing passes the private check of every receiver whose
/// vault key matches its registered key: decryption is the exact inverse
/// of the dealer's masking.
pub proof fn lemma_honest_dealing_private_ok(
    d: DealingView,
    coeffs: Seq<u64>,
    params: TranscriptParamsView,
    registry: Seq<RegistryRecord>,
    sk: u64,
    idx: int,
)
    requires
        dealing_matches_coeffs(d, coeffs, params, registry),
        0 <= idx < params.receivers.len(),
        spec_receiver_key(registry, params.receivers[idx], params.registry_version) == Some(sk),
        is_elem(sk),
        all_elems(coeffs),
        params.wf(),
    ensures
        spec_private_ok(d, sk, idx),
{
    let x = spec_eval_point(idx);
    let share = spec_poly_eval(coeffs, x);
    assert(ciphertext_ok_at(d.ciphertexts, coeffs, params, registry, idx));
    assert(d.ciphertexts[idx] == spec_add(share, sk));
    lemma_poly_eval_is_elem(coeffs, x);
    crate::field::lemma_sub_add_cancel(share, sk);
}

/// `spec_poly_eval` of any coefficients is reduced.
pub proof fn lemma_poly_eval_is_elem(coeffs: Seq<u64>, x: u64)
    ensures
        is_elem(spec_poly_eval(coeffs, x)),
    decreases coeffs.len(),
{
    if coeffs.len() == 0 {
    } else {
        lemma_poly_eval_is_elem(coeffs.skip(1), x);
        let m = FIELD_MODULUS as int;
        vstd::arithmetic::div_mod::lemma_mod_bound(
            (coeffs[0] as int) + (spec_mul(x, spec_poly_eval(coeffs.skip(1), x)) as int),
            m,
        );
    }
}

} // verus!
