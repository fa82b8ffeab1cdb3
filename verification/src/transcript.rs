//! Transcript construction, verification, loading and retention.
//!
//! A transcript is the finalized output of one IDKG run: the batch-signed
//! dealings it was built from and the combined polynomial commitment, the
//! coefficient-wise sum of the selected dealings' commitments.  Construction
//! deterministically selects the first threshold-plus-one valid dealings in
//! dealer order, so every honest node that sees the same leading valid
//! dealings builds the identical transcript; verification recomputes the
//! combination from the carried dealings and checks equality.  Loading a
//! transcript decrypts this receiver's share of every dealing inside the
//! vault, raises one complaint per dealing that fails private verification,
//! and on success persists the receiver's combined share.

use vstd::prelude::*;

use crate::errors::IdkgError;
use crate::field::{
    add_elem, all_elems, is_elem, poly_eval, spec_add, spec_poly_eval, spec_sub, sub_elem,
    FIELD_MODULUS,
};
use crate::idkg::{
    check_all_elems, check_strictly_increasing, eval_point, find_index, lemma_index_unique,
    spec_eval_point, spec_private_ok, strictly_increasing, Dealing, DealingView, TranscriptParams,
    TranscriptParamsView,
};
use crate::vault::{spec_retained, Vault};

verus! {

/// A dealing together with the quorum of support signatures that admitted
/// it into transcript construction.
#[derive(Clone, Debug)]
pub struct BatchSignedDealing {
    pub dealer_id: u64,
    pub dealing: Dealing,
    /// The receivers that attested the public check, strictly increasing.
    pub support_signers: Vec<u64>,
}

#[verifier::ext_equal]
pub ghost struct BatchSignedDealingView {
    pub dealer_id: u64,
    pub dealing: DealingView,
    pub support_signers: Seq<u64>,
}

impl View for BatchSignedDealing {
    type V = BatchSignedDealingView;

    open spec fn view(&self) -> BatchSignedDealingView {
        BatchSignedDealingView {
            dealer_id: self.dealer_id,
            dealing: self.dealing@,
            support_signers: self.support_signers@,
        }
    }
}

/// A quorum of distinct receivers attests the dealing's public check.
pub open spec fn support_quorum(b: BatchSignedDealingView, params: TranscriptParamsView) -> bool {
    &&& strictly_increasing(b.support_signers)
    &&& b.support_signers.len() >= params.threshold + 1
    &&& forall|i: int|
        0 <= i < b.support_signers.len() ==> params.receivers.contains(
            #[trigger] b.support_signers[i],
        )
}

/// The admission test into transcript construction: a structurally valid
/// dealing from an entitled dealer, supported by a quorum.
pub open spec fn batch_dealing_valid(
    b: BatchSignedDealingView,
    params: TranscriptParamsView,
) -> bool {
    &&& params.dealers.contains(b.dealer_id)
    &&& b.dealing.wf(params)
    &&& support_quorum(b, params)
}

/// The dealings are ordered as a map keyed by dealer: strictly increasing
/// dealer identifiers, hence distinct dealers.
pub open spec fn sorted_by_dealer(ds: Seq<BatchSignedDealingView>) -> bool {
    forall|i: int, j: int|
        0 <= i < j < ds.len() ==> #[trigger] ds[i].dealer_id < #[trigger] ds[j].dealer_id
}

/// The view of a dealing collection.
pub open spec fn dealings_view(ds: Seq<BatchSignedDealing>) -> Seq<BatchSignedDealingView> {
    ds.map_values(|b: BatchSignedDealing| b@)
}

/// The valid dealings of a collection, in order.
pub open spec fn valid_filter(
    params: TranscriptParamsView,
    ds: Seq<BatchSignedDealingView>,
) -> Seq<BatchSignedDealingView>
    decreases ds.len(),
{
    if ds.len() == 0 {
        Seq::empty()
    } else {
        let rest = valid_filter(params, ds.drop_last());
        if batch_dealing_valid(ds.last(), params) {
            rest.push(ds.last())
        } else {
            rest
        }
    }
}

/// What construction selects: the first threshold-plus-one valid dealings
/// in dealer order.
pub open spec fn spec_selected(
    params: TranscriptParamsView,
    ds: Seq<BatchSignedDealingView>,
) -> Seq<BatchSignedDealingView> {
    valid_filter(params, ds).take(params.threshold + 1)
}

/// The sum, over the selected dealings, of the commitment coefficient at
/// one position.
pub open spec fn spec_column_sum(sel: Seq<BatchSignedDealingView>, k: int) -> u64
    decreases sel.len(),
{
    if sel.len() == 0 {
        0u64
    } else {
        spec_add(spec_column_sum(sel.drop_last(), k), sel.last().dealing.commitment[k])
    }
}

/// The combined commitment: coefficient-wise sum of the selected dealings'
/// commitments.
pub open spec fn spec_combined_commitment(
    params: TranscriptParamsView,
    sel: Seq<BatchSignedDealingView>,
) -> Seq<u64> {
    Seq::new((params.threshold + 1) as nat, |k: int| spec_column_sum(sel, k))
}

/// The finalized output of one IDKG run.
#[derive(Clone, Debug)]
pub struct Transcript {
    pub transcript_id: u64,
    pub receivers: Vec<u64>,
    pub threshold: usize,
    pub registry_version: u64,
    /// The dealings the transcript was built from, keyed by dealer.
    pub dealings: Vec<BatchSignedDealing>,
    /// The coefficient-wise sum of the carried dealings' commitments.
    pub combined_commitment: Vec<u64>,
}

#[verifier::ext_equal]
pub ghost struct TranscriptView {
    pub transcript_id: u64,
    pub receivers: Seq<u64>,
    pub threshold: int,
    pub registry_version: u64,
    pub dealings: Seq<BatchSignedDealingView>,
    pub combined_commitment: Seq<u64>,
}

impl View for Transcript {
    type V = TranscriptView;

    open spec fn view(&self) -> TranscriptView {
        TranscriptView {
            transcript_id: self.transcript_id,
            receivers: self.receivers@,
            threshold: self.threshold as int,
            registry_version: self.registry_version,
            dealings: dealings_view(self.dealings@),
            combined_commitment: self.combined_commitment@,
        }
    }
}

/// The transcript that construction produces from a selection.
pub open spec fn spec_transcript_of(
    params: TranscriptParamsView,
    sel: Seq<BatchSignedDealingView>,
) -> TranscriptView {
    TranscriptView {
        transcript_id: params.transcript_id,
        receivers: params.receivers,
        threshold: params.threshold,
        registry_version: params.registry_version,
        dealings: sel,
        combined_commitment: spec_combined_commitment(params, sel),
    }
}

/// Every element of the valid filter is a valid dealing drawn from the
/// collection, and dealer order is preserved.
pub proof fn lemma_valid_filter_props(
    params: TranscriptParamsView,
    ds: Seq<BatchSignedDealingView>,
)
    ensures
        valid_filter(params, ds).len() <= ds.len(),
        forall|i: int|
            0 <= i < valid_filter(params, ds).len() ==> batch_dealing_valid(
                #[trigger] valid_filter(params, ds)[i],
                params,
            ),
        forall|i: int|
            0 <= i < valid_filter(params, ds).len() ==> ds.contains(
                #[trigger] valid_filter(params, ds)[i],
            ),
        sorted_by_dealer(ds) ==> sorted_by_dealer(valid_filter(params, ds)),
    decreases ds.len(),
{
    if ds.len() > 0 {
        lemma_valid_filter_props(params, ds.drop_last());
        let rest = valid_filter(params, ds.drop_last());
        assert(forall|i: int|
            0 <= i < ds.drop_last().len() ==> ds.drop_last()[i] == #[trigger] ds[i]);
        assert forall|i: int| 0 <= i < rest.len() implies ds.contains(#[trigger] rest[i]) by {
            assert(ds.drop_last().contains(rest[i]));
            let w = choose|w: int| 0 <= w < ds.drop_last().len() && ds.drop_last()[w] == rest[i];
            assert(ds[w] == rest[i]);
        }
        if batch_dealing_valid(ds.last(), params) {
            let vf = rest.push(ds.last());
            assert(forall|i: int| 0 <= i < rest.len() ==> #[trigger] vf[i] == rest[i]);
            assert(vf.last() == ds.last());
            assert(ds.contains(ds.last())) by {
                assert(ds[ds.len() - 1] == ds.last());
            }
            if sorted_by_dealer(ds) {
                assert forall|i: int, j: int| 0 <= i < j < vf.len() implies #[trigger] vf[i]
                    .dealer_id < #[trigger] vf[j].dealer_id by {
                    if j < vf.len() - 1 {
                        assert(sorted_by_dealer(ds.drop_last()));
                    } else {
                        assert(ds.drop_last().contains(rest[i]));
                        let w = choose|w: int|
                            0 <= w < ds.drop_last().len() && ds.drop_last()[w] == rest[i];
                        assert(ds[w].dealer_id < ds[ds.len() - 1].dealer_id);
                    }
                }
            }
        }
    }
}

/// The valid filter distributes over concatenation: dealings appended
/// after a collection filter independently.
pub proof fn lemma_valid_filter_append(
    params: TranscriptParamsView,
    ds: Seq<BatchSignedDealingView>,
    extra: Seq<BatchSignedDealingView>,
)
    ensures
        valid_filter(params, ds + extra) == valid_filter(params, ds) + valid_filter(params, extra),
    decreases extra.len(),
{
    if extra.len() == 0 {
        assert(ds + extra =~= ds);
        assert(valid_filter(params, ds) + valid_filter(params, extra) =~= valid_filter(
            params,
            ds,
        ));
    } else {
        lemma_valid_filter_append(params, ds, extra.drop_last());
        assert((ds + extra).drop_last() =~= ds + extra.drop_last());
        assert((ds + extra).last() == extra.last());
        if batch_dealing_valid(extra.last(), params) {
            assert(valid_filter(params, ds) + valid_filter(params, extra) =~= (valid_filter(
                params,
                ds,
            ) + valid_filter(params, extra.drop_last())).push(extra.last()));
        }
    }
}

/// Determinism and agreement of construction: the transcript is a function
/// of the first threshold-plus-one valid dealings alone, so any two
/// collections that agree on those — in particular, any two large-enough
/// leading subsets of one overall collection — yield the identical
/// transcript.
pub proof fn lemma_transcript_agreement(
    params: TranscriptParamsView,
    d1: Seq<BatchSignedDealingView>,
    d2: Seq<BatchSignedDealingView>,
)
    requires
        spec_selected(params, d1) == spec_selected(params, d2),
    ensures
        spec_transcript_of(params, spec_selected(params, d1)) == spec_transcript_of(
            params,
            spec_selected(params, d2),
        ),
{
}

/// Dealings arriving after the first threshold-plus-one valid ones do not
/// change what construction selects, hence not the transcript either.
pub proof fn lemma_transcript_ignores_late_dealings(
    params: TranscriptParamsView,
    ds: Seq<BatchSignedDealingView>,
    extra: Seq<BatchSignedDealingView>,
)
    requires
        valid_filter(params, ds).len() >= params.threshold + 1,
        params.threshold >= 0,
    ensures
        spec_selected(params, ds + extra) == spec_selected(params, ds),
        spec_transcript_of(params, spec_selected(params, ds + extra)) == spec_transcript_of(
            params,
            spec_selected(params, ds),
        ),
{
    lemma_valid_filter_append(params, ds, extra);
    let a = valid_filter(params, ds);
    let b = valid_filter(params, extra);
    assert((a + b).take(params.threshold + 1) =~= a.take(params.threshold + 1));
}

/// Creates the transcript for the run from a dealer-keyed collection of
/// batch-signed dealings: selects the first threshold-plus-one valid ones
/// in dealer order and combines their commitments; fails where fewer valid
/// dealings than the reconstruction threshold requires are present.
pub fn create_transcript(params: &TranscriptParams, dealings: &Vec<BatchSignedDealing>) -> (r:
    Result<Transcript, IdkgError>)
    requires
        params@.wf(),
        sorted_by_dealer(dealings_view(dealings@)),
    ensures
        valid_filter(params@, dealings_view(dealings@)).len() >= params@.threshold + 1 ==> match r {
            Ok(t) => t@ == spec_transcript_of(
                params@,
                spec_selected(params@, dealings_view(dealings@)),
            ),
            Err(_) => false,
        },
        valid_filter(params@, dealings_view(dealings@)).len() < params@.threshold + 1 ==> r
            == Err::<Transcript, IdkgError>(IdkgError::InsufficientDealings),
{
    let ghost dsv = dealings_view(dealings@);
    let mut valid: Vec<BatchSignedDealing> = Vec::new();
    let mut i: usize = 0;
    proof {
        assert(dsv.take(0) =~= Seq::<BatchSignedDealingView>::empty());
        assert(dealings_view(valid@) =~= Seq::<BatchSignedDealingView>::empty());
    }
    while i < dealings.len()
        invariant
            i <= dealings.len(),
            params@.wf(),
            dsv == dealings_view(dealings@),
            dealings_view(valid@) == valid_filter(params@, dsv.take(i as int)),
        decreases dealings.len() - i,
    {
        let ghost prior = dealings_view(valid@);
        if is_valid_batch_dealing(params, &dealings[i]) {
            let copy = clone_batch_signed_dealing(&dealings[i]);
            valid.push(copy);
            proof {
                assert(dealings_view(valid@) =~= prior.push(copy@));
            }
        }
        i = i + 1;
        proof {
            assert(dsv.take(i as int).drop_last() =~= dsv.take(i as int - 1));
            assert(dsv.take(i as int).last() == dsv[i as int - 1]);
            assert(dsv[i as int - 1] == dealings@[i as int - 1]@);
        }
    }
    proof {
        assert(dsv.take(dsv.len() as int) =~= dsv);
    }
    if valid.len() < params.threshold + 1 {
        return Err(IdkgError::InsufficientDealings);
    }
    let ghost vf = valid_filter(params@, dsv);
    let mut selected: Vec<BatchSignedDealing> = Vec::new();
    let mut k: usize = 0;
    proof {
        assert(dealings_view(selected@) =~= vf.take(0));
    }
    while k < params.threshold + 1
        invariant
            k <= params@.threshold + 1,
            params@.wf(),
            vf == valid_filter(params@, dsv),
            dealings_view(valid@) == vf,
            valid@.len() >= params@.threshold + 1,
            dealings_view(selected@) == vf.take(k as int),
        decreases params.threshold + 1 - k,
    {
        let ghost prior = dealings_view(selected@);
        let copy = clone_batch_signed_dealing(&valid[k]);
        proof {
            assert(copy@ == dealings_view(valid@)[k as int]);
        }
        selected.push(copy);
        k = k + 1;
        proof {
            assert(dealings_view(selected@) =~= prior.push(copy@));
            assert(vf.take(k as int).drop_last() =~= vf.take(k as int - 1));
            assert(vf.take(k as int).last() == vf[k as int - 1]);
        }
    }
    let ghost sel = spec_selected(params@, dsv);
    proof {
        assert(dealings_view(selected@) == sel);
        lemma_valid_filter_props(params@, dsv);
    }
    let combined = combine_commitments(params, &selected);
    let transcript = Transcript {
        transcript_id: params.transcript_id,
        receivers: clone_vec_u64(&params.receivers),
        threshold: params.threshold,
        registry_version: params.registry_version,
        dealings: selected,
        combined_commitment: combined,
    };
    proof {
        assert(transcript@ =~= spec_transcript_of(params@, sel));
    }
    Ok(transcript)
}

/// Sums the carried dealings' commitments coefficient-wise.
fn combine_commitments(params: &TranscriptParams, sel: &Vec<BatchSignedDealing>) -> (r: Vec<u64>)
    requires
        params@.wf(),
        forall|i: int|
            0 <= i < sel@.len() ==> batch_dealing_valid(
                #[trigger] dealings_view(sel@)[i],
                params@,
            ),
    ensures
        r@ == spec_combined_commitment(params@, dealings_view(sel@)),
        all_elems(r@),
{
    let ghost sv = dealings_view(sel@);
    let mut combined: Vec<u64> = Vec::new();
    let mut k: usize = 0;
    while k < params.threshold + 1
        invariant
            k <= params@.threshold + 1,
            params@.wf(),
            sv == dealings_view(sel@),
            forall|i: int| 0 <= i < sv.len() ==> batch_dealing_valid(#[trigger] sv[i], params@),
            combined@.len() == k,
            forall|kk: int| 0 <= kk < k ==> #[trigger] combined@[kk] == spec_column_sum(sv, kk),
            all_elems(combined@),
        decreases params.threshold + 1 - k,
    {
        let mut acc: u64 = 0;
        let mut j: usize = 0;
        proof {
            assert(sv.take(0) =~= Seq::<BatchSignedDealingView>::empty());
        }
        while j < sel.len()
            invariant
                j <= sel@.len(),
                params@.wf(),
                k < params@.threshold + 1,
                sv == dealings_view(sel@),
                forall|i: int| 0 <= i < sv.len() ==> batch_dealing_valid(#[trigger] sv[i], params@),
                is_elem(acc),
                acc == spec_column_sum(sv.take(j as int), k as int),
            decreases sel@.len() - j,
        {
            proof {
                assert(batch_dealing_valid(sv[j as int], params@));
                assert(sv[j as int] == sel@[j as int]@);
            }
            acc = add_elem(acc, sel[j].dealing.commitment[k]);
            j = j + 1;
            proof {
                assert(sv.take(j as int).drop_last() =~= sv.take(j as int - 1));
                assert(sv.take(j as int).last() == sv[j as int - 1]);
            }
        }
        proof {
            assert(sv.take(sv.len() as int) =~= sv);
        }
        combined.push(acc);
        k = k + 1;
    }
    proof {
        assert(combined@ =~= spec_combined_commitment(params@, sv));
    }
    combined
}

/// Checks the admission test of one batch-signed dealing.
pub fn is_valid_batch_dealing(params: &TranscriptParams, b: &BatchSignedDealing) -> (r: bool)
    requires
        params@.wf(),
    ensures
        r == batch_dealing_valid(b@, params@),
{
    let public_ok = match crate::idkg::verify_dealing_public(params, b.dealer_id, &b.dealing) {
        Ok(_) => true,
        Err(_) => false,
    };
    if !public_ok {
        return false;
    }
    if !check_strictly_increasing(&b.support_signers) {
        return false;
    }
    if b.support_signers.len() < params.threshold + 1 {
        return false;
    }
    let mut i: usize = 0;
    while i < b.support_signers.len()
        invariant
            i <= b.support_signers@.len(),
            forall|j: int|
                0 <= j < i ==> params@.receivers.contains(#[trigger] b.support_signers@[j]),
        decreases b.support_signers@.len() - i,
    {
        if !crate::vault::contains_id(&params.receivers, b.support_signers[i]) {
            return false;
        }
        i = i + 1;
    }
    true
}

/// Copies a `u64` vector.
pub fn clone_vec_u64(v: &Vec<u64>) -> (r: Vec<u64>)
    ensures
        r@ == v@,
{
    let mut r: Vec<u64> = Vec::new();
    let mut i: usize = 0;
    while i < v.len()
        invariant
            i <= v@.len(),
            r@ == v@.take(i as int),
        decreases v@.len() - i,
    {
        r.push(v[i]);
        i = i + 1;
        proof {
            assert(v@.take(i as int).drop_last() =~= v@.take(i as int - 1));
            assert(v@.take(i as int).last() == v@[i as int - 1]);
        }
    }
    proof {
        assert(v@.take(v@.len() as int) =~= v@);
    }
    r
}

/// Copies a dealing.
pub fn clone_dealing(d: &Dealing) -> (r: Dealing)
    ensures
        r@ == d@,
{
    Dealing {
        commitment: clone_vec_u64(&d.commitment),
        ciphertexts: clone_vec_u64(&d.ciphertexts),
    }
}

/// Copies a batch-signed dealing.
pub fn clone_batch_signed_dealing(b: &BatchSignedDealing) -> (r: BatchSignedDealing)
    ensures
        r@ == b@,
{
    BatchSignedDealing {
        dealer_id: b.dealer_id,
        dealing: clone_dealing(&b.dealing),
        support_signers: clone_vec_u64(&b.support_signers),
    }
}

/// The framing of a transcript matches its parameters.
pub open spec fn transcript_framing_ok(params: TranscriptParamsView, t: TranscriptView) -> bool {
    &&& t.transcript_id == params.transcript_id
    &&& t.receivers == params.receivers
    &&& t.threshold == params.threshold
    &&& t.registry_version == params.registry_version
}

/// The carried dealings are dealer-ordered and each passes the admission
/// test.
pub open spec fn transcript_dealings_ok(params: TranscriptParamsView, t: TranscriptView) -> bool {
    &&& sorted_by_dealer(t.dealings)
    &&& forall|i: int|
        0 <= i < t.dealings.len() ==> batch_dealing_valid(#[trigger] t.dealings[i], params)
}

/// The combined commitment equals the recombination of the carried
/// dealings.
pub open spec fn transcript_commitment_ok(
    params: TranscriptParamsView,
    t: TranscriptView,
) -> bool {
    t.combined_commitment == spec_combined_commitment(params, t.dealings)
}

/// Verifies a transcript built by another node: checks the framing, the
/// carried dealings' admission, the dealer count against the threshold,
/// and recomputes the combination from the same selection policy.
pub fn verify_transcript(params: &TranscriptParams, transcript: &Transcript) -> (r: Result<
    (),
    IdkgError,
>)
    requires
        params@.wf(),
    ensures
        r matches Ok(_) <==> transcript_framing_ok(params@, transcript@) && transcript_dealings_ok(
            params@,
            transcript@,
        ) && transcript@.dealings.len() >= params@.threshold + 1 && transcript_commitment_ok(
            params@,
            transcript@,
        ),
        r == Err::<(), IdkgError>(IdkgError::MalformedTranscript) <==> !(transcript_framing_ok(
            params@,
            transcript@,
        ) && transcript_dealings_ok(params@, transcript@)),
        r == Err::<(), IdkgError>(IdkgError::InsufficientDealings) <==> transcript_framing_ok(
            params@,
            transcript@,
        ) && transcript_dealings_ok(params@, transcript@) && transcript@.dealings.len()
            < params@.threshold + 1,
        r == Err::<(), IdkgError>(IdkgError::InvalidTranscript) <==> transcript_framing_ok(
            params@,
            transcript@,
        ) && transcript_dealings_ok(params@, transcript@) && transcript@.dealings.len()
            >= params@.threshold + 1 && !transcript_commitment_ok(params@, transcript@),
{
    let ghost tv = transcript@;
    if transcript.transcript_id != params.transcript_id {
        return Err(IdkgError::MalformedTranscript);
    }
    if !eq_vec_u64(&transcript.receivers, &params.receivers) {
        return Err(IdkgError::MalformedTranscript);
    }
    if transcript.threshold != params.threshold {
        return Err(IdkgError::MalformedTranscript);
    }
    if transcript.registry_version != params.registry_version {
        return Err(IdkgError::MalformedTranscript);
    }
    if !check_sorted_by_dealer(&transcript.dealings) {
        return Err(IdkgError::MalformedTranscript);
    }
    let mut i: usize = 0;
    while i < transcript.dealings.len()
        invariant
            i <= transcript.dealings@.len(),
            params@.wf(),
            tv == transcript@,
            forall|j: int|
                0 <= j < i ==> batch_dealing_valid(#[trigger] tv.dealings[j], params@),
        decreases transcript.dealings@.len() - i,
    {
        if !is_valid_batch_dealing(params, &transcript.dealings[i]) {
            proof {
                assert(tv.dealings[i as int] == transcript.dealings@[i as int]@);
            }
            return Err(IdkgError::MalformedTranscript);
        }
        proof {
            assert(tv.dealings[i as int] == transcript.dealings@[i as int]@);
        }
        i = i + 1;
    }
    if transcript.dealings.len() < params.threshold + 1 {
        return Err(IdkgError::InsufficientDealings);
    }
    let recombined = combine_commitments(params, &transcript.dealings);
    if eq_vec_u64(&transcript.combined_commitment, &recombined) {
        proof {
            assert(transcript_commitment_ok(params@, transcript@));
        }
        Ok(())
    } else {
        proof {
            assert(!transcript_commitment_ok(params@, transcript@));
        }
        Err(IdkgError::InvalidTranscript)
    }
}

/// Compares two `u64` vectors for equality of contents.
pub fn eq_vec_u64(a: &Vec<u64>, b: &Vec<u64>) -> (r: bool)
    ensures
        r == (a@ == b@),
{
    if a.len() != b.len() {
        proof {
            assert(a@.len() != b@.len());
        }
        return false;
    }
    let mut i: usize = 0;
    while i < a.len()
        invariant
            i <= a@.len(),
            a@.len() == b@.len(),
            forall|j: int| 0 <= j < i ==> a@[j] == b@[j],
        decreases a@.len() - i,
    {
        if a[i] != b[i] {
            return false;
        }
        i = i + 1;
    }
    proof {
        assert(a@ =~= b@);
    }
    true
}

/// Checks dealer ordering of a dealing collection.
pub fn check_sorted_by_dealer(ds: &Vec<BatchSignedDealing>) -> (r: bool)
    ensures
        r == sorted_by_dealer(dealings_view(ds@)),
{
    let ghost dsv = dealings_view(ds@);
    let mut i: usize = 1;
    while i < ds.len()
        invariant
            1 <= i || ds@.len() == 0,
            i <= ds@.len() + 1,
            dsv == dealings_view(ds@),
            forall|k: int| 0 <= k < i - 1 ==> #[trigger] dsv[k].dealer_id < dsv[k + 1].dealer_id,
        decreases ds@.len() - i,
    {
        if ds[i - 1].dealer_id >= ds[i].dealer_id {
            proof {
                assert(dsv[i as int - 1].dealer_id >= dsv[i as int].dealer_id);
            }
            return false;
        }
        proof {
            assert(dsv[i as int - 1] == ds@[i as int - 1]@);
            assert(dsv[i as int] == ds@[i as int]@);
        }
        i = i + 1;
    }
    proof {
        assert forall|a: int, b: int| 0 <= a < b < dsv.len() implies #[trigger] dsv[a].dealer_id
            < #[trigger] dsv[b].dealer_id by {
            lemma_dealer_lt_by_steps(dsv, a, b);
        }
    }
    true
}

proof fn lemma_dealer_lt_by_steps(s: Seq<BatchSignedDealingView>, i: int, j: int)
    requires
        forall|k: int| 0 <= k < s.len() - 1 ==> #[trigger] s[k].dealer_id < s[k + 1].dealer_id,
        0 <= i < j < s.len(),
    ensures
        s[i].dealer_id < s[j].dealer_id,
    decreases j - i,
{
    if i + 1 < j {
        lemma_dealer_lt_by_steps(s, i, j - 1);
        assert(s[j - 1].dealer_id < s[j].dealer_id);
    }
}

/// A transcript built by `create_transcript` from well-formed parameters
/// passes `verify_transcript` at every honest node; and, by the latter's
/// contract, any transcript carrying fewer distinct dealers than the
/// reconstruction threshold requires is always rejected.
pub proof fn lemma_create_then_verify(
    params: TranscriptParamsView,
    ds: Seq<BatchSignedDealingView>,
)
    requires
        params.wf(),
        sorted_by_dealer(ds),
        valid_filter(params, ds).len() >= params.threshold + 1,
    ensures
        transcript_framing_ok(params, spec_transcript_of(params, spec_selected(params, ds))),
        transcript_dealings_ok(params, spec_transcript_of(params, spec_selected(params, ds))),
        spec_transcript_of(params, spec_selected(params, ds)).dealings.len() == params.threshold
            + 1,
        transcript_commitment_ok(params, spec_transcript_of(params, spec_selected(params, ds))),
{
    lemma_valid_filter_props(params, ds);
    let vf = valid_filter(params, ds);
    let sel = spec_selected(params, ds);
    assert(sel.len() == params.threshold + 1);
    assert(forall|i: int| 0 <= i < sel.len() ==> #[trigger] sel[i] == vf[i]);
    assert forall|i: int| 0 <= i < sel.len() implies batch_dealing_valid(
        #[trigger] sel[i],
        params,
    ) by {
        assert(sel[i] == vf[i]);
    }
    assert forall|i: int, j: int| 0 <= i < j < sel.len() implies #[trigger] sel[i].dealer_id
        < #[trigger] sel[j].dealer_id by {
        assert(sel[i] == vf[i]);
        assert(sel[j] == vf[j]);
    }
}

/// Structural well-formedness of a transcript on its own: receiver set,
/// threshold bounds, dealer ordering, and per-dealing framing.
pub open spec fn dealing_frame_ok(t: TranscriptView, i: int) -> bool {
    &&& t.dealings[i].dealing.commitment.len() == t.threshold + 1
    &&& all_elems(t.dealings[i].dealing.commitment)
    &&& t.dealings[i].dealing.ciphertexts.len() == t.receivers.len()
    &&& all_elems(t.dealings[i].dealing.ciphertexts)
}

pub open spec fn transcript_wf(t: TranscriptView) -> bool {
    &&& 0 <= t.threshold
    &&& t.threshold + 1 < FIELD_MODULUS
    &&& strictly_increasing(t.receivers)
    &&& 1 <= t.receivers.len()
    &&& t.receivers.len() < FIELD_MODULUS
    &&& sorted_by_dealer(t.dealings)
    &&& t.combined_commitment.len() == t.threshold + 1
    &&& all_elems(t.combined_commitment)
    &&& forall|i: int| 0 <= i < t.dealings.len() ==> #[trigger] dealing_frame_ok(t, i)
}

/// Checks a transcript's structural well-formedness.
pub fn check_transcript_wf(t: &Transcript) -> (r: bool)
    ensures
        r == transcript_wf(t@),
{
    let ghost tv = t@;
    if (t.threshold as u64) >= FIELD_MODULUS - 1 {
        return false;
    }
    if !check_strictly_increasing(&t.receivers) {
        return false;
    }
    if t.receivers.len() < 1 {
        return false;
    }
    if (t.receivers.len() as u64) >= FIELD_MODULUS {
        return false;
    }
    if !check_sorted_by_dealer(&t.dealings) {
        return false;
    }
    if t.combined_commitment.len() != t.threshold + 1 {
        return false;
    }
    if !check_all_elems(&t.combined_commitment) {
        return false;
    }
    let mut i: usize = 0;
    while i < t.dealings.len()
        invariant
            i <= t.dealings@.len(),
            tv == t@,
            (t.threshold as u64) < FIELD_MODULUS - 1,
            forall|j: int| 0 <= j < i ==> #[trigger] dealing_frame_ok(tv, j),
        decreases t.dealings@.len() - i,
    {
        proof {
            assert(tv.dealings[i as int] == t.dealings@[i as int]@);
        }
        let d = &t.dealings[i].dealing;
        if d.commitment.len() != t.threshold + 1 {
            proof {
                assert(!dealing_frame_ok(tv, i as int));
            }
            return false;
        }
        if !check_all_elems(&d.commitment) {
            proof {
                assert(!dealing_frame_ok(tv, i as int));
            }
            return false;
        }
        if d.ciphertexts.len() != t.receivers.len() {
            proof {
                assert(!dealing_frame_ok(tv, i as int));
            }
            return false;
        }
        if !check_all_elems(&d.ciphertexts) {
            proof {
                assert(!dealing_frame_ok(tv, i as int));
            }
            return false;
        }
        i = i + 1;
    }
    true
}

/// Two positions of a dealer-ordered collection holding the same dealer
/// are the same position.
pub proof fn lemma_dealer_index_unique(ds: Seq<BatchSignedDealingView>, i: int, j: int)
    requires
        sorted_by_dealer(ds),
        0 <= i < ds.len(),
        0 <= j < ds.len(),
        ds[i].dealer_id == ds[j].dealer_id,
    ensures
        i == j,
{
}

/// The complaints a receiver raises on loading: one per dealing whose
/// share fails private verification, disclosing the decrypted value.
pub open spec fn spec_complaints_for(
    ds: Seq<BatchSignedDealingView>,
    transcript_id: u64,
    receiver_id: u64,
    sk: u64,
    idx: int,
) -> Seq<crate::complaints::Complaint>
    decreases ds.len(),
{
    if ds.len() == 0 {
        Seq::empty()
    } else {
        let rest = spec_complaints_for(ds.drop_last(), transcript_id, receiver_id, sk, idx);
        if spec_private_ok(ds.last().dealing, sk, idx) {
            rest
        } else {
            rest.push(
                crate::complaints::Complaint {
                    transcript_id,
                    dealer_id: ds.last().dealer_id,
                    complainer_id: receiver_id,
                    share: spec_sub(ds.last().dealing.ciphertexts[idx], sk),
                },
            )
        }
    }
}

/// The receiver's combined share: the sum of its decrypted per-dealing
/// shares.
pub open spec fn spec_shares_sum(ds: Seq<BatchSignedDealingView>, sk: u64, idx: int) -> u64
    decreases ds.len(),
{
    if ds.len() == 0 {
        0u64
    } else {
        spec_add(
            spec_shares_sum(ds.drop_last(), sk, idx),
            spec_sub(ds.last().dealing.ciphertexts[idx], sk),
        )
    }
}

/// Loads a transcript at this receiver: decrypts the receiver's share of
/// every carried dealing inside the vault, returns one complaint per
/// dealing that fails private verification, and — exactly when there is
/// none — persists the receiver's combined share in the vault.
pub fn load_transcript(transcript: &Transcript, receiver_id: u64, vault: &mut Vault) -> (r: Result<
    Vec<crate::complaints::Complaint>,
    IdkgError,
>)
    requires
        old(vault).wf(),
    ensures
        final(vault).wf(),
        crate::vault::same_keys(final(vault), old(vault)),
        !transcript_wf(transcript@) ==> r == Err::<Vec<crate::complaints::Complaint>, IdkgError>(
            IdkgError::MalformedTranscript,
        ) && final(vault).shares_view() == old(vault).shares_view(),
        transcript_wf(transcript@) && !transcript@.receivers.contains(receiver_id) ==> r == Err::<
            Vec<crate::complaints::Complaint>,
            IdkgError,
        >(IdkgError::NotAReceiver) && final(vault).shares_view() == old(vault).shares_view(),
        transcript_wf(transcript@) && transcript@.receivers.contains(receiver_id) && old(vault).idkg_key().is_none() ==> r == Err::<Vec<crate::complaints::Complaint>, IdkgError>(
            IdkgError::SecretKeyNotFound,
        ) && final(vault).shares_view() == old(vault).shares_view(),
        transcript_wf(transcript@) && transcript@.receivers.contains(receiver_id) && old(vault).idkg_key().is_some() ==> {
            let sk = old(vault).idkg_key().unwrap();
            let idx = transcript@.receivers.index_of(receiver_id);
            let cs = spec_complaints_for(
                transcript@.dealings,
                transcript@.transcript_id,
                receiver_id,
                sk,
                idx,
            );
            match r {
                Ok(v) => v@ == cs && if cs.len() == 0 {
                    final(vault).shares_view() == old(vault).shares_view().push(
                        (transcript@.transcript_id, spec_shares_sum(transcript@.dealings, sk, idx)),
                    )
                } else {
                    final(vault).shares_view() == old(vault).shares_view()
                },
                Err(_) => false,
            }
        },
{
    let ghost tv = transcript@;
    if !check_transcript_wf(transcript) {
        return Err(IdkgError::MalformedTranscript);
    }
    let idx = match find_index(&transcript.receivers, receiver_id) {
        Some(i) => i,
        None => {
            return Err(IdkgError::NotAReceiver);
        },
    };
    proof {
        lemma_index_unique(tv.receivers, idx as int, tv.receivers.index_of(receiver_id));
    }
    if !vault.has_idkg_key() {
        return Err(IdkgError::SecretKeyNotFound);
    }
    let ghost sk = vault.idkg_key().unwrap();
    let mut complaints: Vec<crate::complaints::Complaint> = Vec::new();
    let mut sum: u64 = 0;
    let mut i: usize = 0;
    proof {
        assert(tv.dealings.take(0) =~= Seq::<BatchSignedDealingView>::empty());
    }
    while i < transcript.dealings.len()
        invariant
            i <= transcript.dealings@.len(),
            tv == transcript@,
            transcript_wf(tv),
            idx < tv.receivers.len(),
            idx as int == tv.receivers.index_of(receiver_id),
            tv.receivers[idx as int] == receiver_id,
            vault.wf(),
            crate::vault::same_keys(vault, old(vault)),
            vault.shares_view() == old(vault).shares_view(),
            vault.idkg_key() == Some(sk),
            is_elem(sum),
            complaints@ == spec_complaints_for(
                tv.dealings.take(i as int),
                tv.transcript_id,
                receiver_id,
                sk,
                idx as int,
            ),
            sum == spec_shares_sum(tv.dealings.take(i as int), sk, idx as int),
        decreases transcript.dealings@.len() - i,
    {
        proof {
            assert(dealing_frame_ok(tv, i as int));
            assert(tv.dealings[i as int] == transcript.dealings@[i as int]@);
        }
        let dealing = &transcript.dealings[i].dealing;
        let share = match vault.idkg_decrypt(dealing.ciphertexts[idx]) {
            Some(s) => s,
            None => {
                return Err(IdkgError::SecretKeyNotFound);
            },
        };
        let expected = poly_eval(&dealing.commitment, eval_point(idx));
        if share != expected {
            complaints.push(
                crate::complaints::Complaint {
                    transcript_id: transcript.transcript_id,
                    dealer_id: transcript.dealings[i].dealer_id,
                    complainer_id: receiver_id,
                    share,
                },
            );
        }
        sum = add_elem(sum, share);
        i = i + 1;
        proof {
            assert(tv.dealings.take(i as int).drop_last() =~= tv.dealings.take(i as int - 1));
            assert(tv.dealings.take(i as int).last() == tv.dealings[i as int - 1]);
        }
    }
    proof {
        assert(tv.dealings.take(tv.dealings.len() as int) =~= tv.dealings);
    }
    if complaints.len() == 0 {
        vault.insert_share(transcript.transcript_id, sum);
    }
    Ok(complaints)
}

/// Every complaint names a dealer whose carried dealing really fails the
/// receiver's private check.
pub proof fn lemma_complaints_characterized(
    ds: Seq<BatchSignedDealingView>,
    transcript_id: u64,
    receiver_id: u64,
    sk: u64,
    idx: int,
)
    ensures
        forall|c: crate::complaints::Complaint| #[trigger]
            spec_complaints_for(ds, transcript_id, receiver_id, sk, idx).contains(c) ==> exists|
                j: int,
            |
                0 <= j < ds.len() && (#[trigger] ds[j]).dealer_id == c.dealer_id
                    && !spec_private_ok(ds[j].dealing, sk, idx),
    decreases ds.len(),
{
    if ds.len() > 0 {
        lemma_complaints_characterized(ds.drop_last(), transcript_id, receiver_id, sk, idx);
        let rest = spec_complaints_for(ds.drop_last(), transcript_id, receiver_id, sk, idx);
        let cs = spec_complaints_for(ds, transcript_id, receiver_id, sk, idx);
        assert forall|c: crate::complaints::Complaint| #[trigger] cs.contains(c) implies exists|
            j: int,
        |
            0 <= j < ds.len() && (#[trigger] ds[j]).dealer_id == c.dealer_id && !spec_private_ok(
                ds[j].dealing,
                sk,
                idx,
            ) by {
            let w = choose|w: int| 0 <= w < cs.len() && cs[w] == c;
            if w < rest.len() {
                assert(rest.contains(c)) by {
                    assert(rest[w] == c);
                }
                let j = choose|j: int|
                    0 <= j < ds.drop_last().len() && (#[trigger] ds.drop_last()[j]).dealer_id
                        == c.dealer_id && !spec_private_ok(ds.drop_last()[j].dealing, sk, idx);
                assert(ds[j] == ds.drop_last()[j]);
                assert(0 <= j < ds.len() && ds[j].dealer_id == c.dealer_id && !spec_private_ok(
                    ds[j].dealing,
                    sk,
                    idx,
                ));
            } else {
                assert(!spec_private_ok(ds.last().dealing, sk, idx));
                assert(c == cs.last());
                let j = ds.len() - 1;
                assert(ds[j] == ds.last());
                assert(ds[j].dealer_id == c.dealer_id);
            }
        }
    }
}

/// A dealing that passes the receiver's private check draws no complaint
/// against its dealer: the round trip from public and private dealing
/// verification into loading is complaint-free for that dealer.
pub proof fn lemma_no_complaint_against_verified_dealer(
    ds: Seq<BatchSignedDealingView>,
    transcript_id: u64,
    receiver_id: u64,
    sk: u64,
    idx: int,
    i: int,
)
    requires
        sorted_by_dealer(ds),
        0 <= i < ds.len(),
        spec_private_ok(ds[i].dealing, sk, idx),
    ensures
        forall|c: crate::complaints::Complaint| #[trigger]
            spec_complaints_for(ds, transcript_id, receiver_id, sk, idx).contains(c)
                ==> c.dealer_id != ds[i].dealer_id,
{
    lemma_complaints_characterized(ds, transcript_id, receiver_id, sk, idx);
    assert forall|c: crate::complaints::Complaint| #[trigger]
        spec_complaints_for(ds, transcript_id, receiver_id, sk, idx).contains(c)
            implies c.dealer_id != ds[i].dealer_id by {
        let j = choose|j: int|
            0 <= j < ds.len() && (#[trigger] ds[j]).dealer_id == c.dealer_id && !spec_private_ok(
                ds[j].dealing,
                sk,
                idx,
            );
        if c.dealer_id == ds[i].dealer_id {
            lemma_dealer_index_unique(ds, i, j);
        }
    }
}

/// A receiver for which every carried dealing passes the private check
/// loads the transcript with zero complaints.
pub proof fn lemma_all_verified_no_complaints(
    ds: Seq<BatchSignedDealingView>,
    transcript_id: u64,
    receiver_id: u64,
    sk: u64,
    idx: int,
)
    requires
        forall|i: int| 0 <= i < ds.len() ==> spec_private_ok((#[trigger] ds[i]).dealing, sk, idx),
    ensures
        spec_complaints_for(ds, transcript_id, receiver_id, sk, idx).len() == 0,
    decreases ds.len(),
{
    if ds.len() > 0 {
        assert(forall|i: int|
            0 <= i < ds.drop_last().len() ==> spec_private_ok(
                (#[trigger] ds.drop_last()[i]).dealing,
                sk,
                idx,
            ));
        lemma_all_verified_no_complaints(ds.drop_last(), transcript_id, receiver_id, sk, idx);
        assert(ds.last() == ds[ds.len() - 1]);
    }
}

/// An opening resolves a dealing for a receiver when it belongs to this
/// transcript, dealer and receiver and discloses the receiver's true
/// decryption of the accused ciphertext — exactly the disclosure that
/// `crate::complaints::verify_opening` certifies.
pub open spec fn opening_resolves(
    o: crate::complaints::Opening,
    transcript_id: u64,
    dealer_id: u64,
    receiver_id: u64,
    disclosed: u64,
) -> bool {
    &&& o.transcript_id == transcript_id
    &&& o.dealer_id == dealer_id
    &&& o.complainer_id == receiver_id
    &&& o.share == disclosed
}

/// The share a receiver obtains for one dealing when loading with
/// openings: its own decryption where the private check passes; the
/// committed share where a certified opening confirms the dealing faulty
/// by disclosing the receiver's true decryption; nothing otherwise.
pub open spec fn spec_resolved_share(
    b: BatchSignedDealingView,
    os: Seq<crate::complaints::Opening>,
    transcript_id: u64,
    receiver_id: u64,
    sk: u64,
    idx: int,
) -> Option<u64> {
    if spec_private_ok(b.dealing, sk, idx) {
        Some(spec_sub(b.dealing.ciphertexts[idx], sk))
    } else if exists|j: int|
        0 <= j < os.len() && opening_resolves(
            #[trigger] os[j],
            transcript_id,
            b.dealer_id,
            receiver_id,
            spec_sub(b.dealing.ciphertexts[idx], sk),
        ) {
        Some(spec_poly_eval(b.dealing.commitment, spec_eval_point(idx)))
    } else {
        None
    }
}

/// The combined share under openings; `None` where some dealing stays
/// unresolved.
pub open spec fn spec_resolved_sum(
    ds: Seq<BatchSignedDealingView>,
    os: Seq<crate::complaints::Opening>,
    transcript_id: u64,
    receiver_id: u64,
    sk: u64,
    idx: int,
) -> Option<u64>
    decreases ds.len(),
{
    if ds.len() == 0 {
        Some(0u64)
    } else {
        let rest = spec_resolved_sum(ds.drop_last(), os, transcript_id, receiver_id, sk, idx);
        let here = spec_resolved_share(ds.last(), os, transcript_id, receiver_id, sk, idx);
        if rest.is_some() && here.is_some() {
            Some(spec_add(rest.unwrap(), here.unwrap()))
        } else {
            None
        }
    }
}

proof fn lemma_resolved_sum_none(
    ds: Seq<BatchSignedDealingView>,
    os: Seq<crate::complaints::Opening>,
    transcript_id: u64,
    receiver_id: u64,
    sk: u64,
    idx: int,
    i: int,
)
    requires
        0 <= i < ds.len(),
        spec_resolved_share(ds[i], os, transcript_id, receiver_id, sk, idx).is_none(),
    ensures
        spec_resolved_sum(ds, os, transcript_id, receiver_id, sk, idx).is_none(),
    decreases ds.len(),
{
    if i == ds.len() - 1 {
        assert(ds.last() == ds[i]);
    } else {
        assert(ds.drop_last()[i] == ds[i]);
        lemma_resolved_sum_none(ds.drop_last(), os, transcript_id, receiver_id, sk, idx, i);
    }
}

/// An opening the adjudication sub-protocol certifies lets the load
/// resolve its dealing: one whose framing names this transcript, dealer
/// and receiver and whose `share` is the receiver's true decryption — the
/// very condition under which `crate::complaints::verify_opening` answers
/// with a verdict — yields a share for the dealing, whether or not the
/// private check passes.
pub proof fn lemma_certified_opening_resolves(
    b: BatchSignedDealingView,
    os: Seq<crate::complaints::Opening>,
    j: int,
    transcript_id: u64,
    receiver_id: u64,
    sk: u64,
    idx: int,
)
    requires
        0 <= j < os.len(),
        opening_resolves(
            os[j],
            transcript_id,
            b.dealer_id,
            receiver_id,
            spec_sub(b.dealing.ciphertexts[idx], sk),
        ),
    ensures
        spec_resolved_share(b, os, transcript_id, receiver_id, sk, idx).is_some(),
{
}

/// A receiver whose openings resolve every carried dealing loads the
/// transcript despite the faulty dealers: the combined share exists.
pub proof fn lemma_all_resolved_sum_some(
    ds: Seq<BatchSignedDealingView>,
    os: Seq<crate::complaints::Opening>,
    transcript_id: u64,
    receiver_id: u64,
    sk: u64,
    idx: int,
)
    requires
        forall|i: int|
            0 <= i < ds.len() ==> spec_resolved_share(
                #[trigger] ds[i],
                os,
                transcript_id,
                receiver_id,
                sk,
                idx,
            ).is_some(),
    ensures
        spec_resolved_sum(ds, os, transcript_id, receiver_id, sk, idx).is_some(),
    decreases ds.len(),
{
    if ds.len() > 0 {
        assert(forall|i: int|
            0 <= i < ds.drop_last().len() ==> spec_resolved_share(
                #[trigger] ds.drop_last()[i],
                os,
                transcript_id,
                receiver_id,
                sk,
                idx,
            ).is_some());
        lemma_all_resolved_sum_some(ds.drop_last(), os, transcript_id, receiver_id, sk, idx);
        assert(ds.last() == ds[ds.len() - 1]);
    }
}

/// Whether some opening in the collection resolves the dealing by
/// disclosing the receiver's true decryption.
fn find_resolving_opening(
    openings: &Vec<crate::complaints::Opening>,
    transcript_id: u64,
    dealer_id: u64,
    receiver_id: u64,
    disclosed: u64,
) -> (r: bool)
    ensures
        r == exists|j: int|
            0 <= j < openings@.len() && opening_resolves(
                #[trigger] openings@[j],
                transcript_id,
                dealer_id,
                receiver_id,
                disclosed,
            ),
{
    let mut i: usize = 0;
    while i < openings.len()
        invariant
            i <= openings@.len(),
            forall|j: int|
                0 <= j < i ==> !opening_resolves(
                    #[trigger] openings@[j],
                    transcript_id,
                    dealer_id,
                    receiver_id,
                    disclosed,
                ),
        decreases openings@.len() - i,
    {
        let o = openings[i];
        if o.transcript_id == transcript_id && o.dealer_id == dealer_id && o.complainer_id
            == receiver_id && o.share == disclosed {
            proof {
                assert(opening_resolves(
                    openings@[i as int],
                    transcript_id,
                    dealer_id,
                    receiver_id,
                    disclosed,
                ));
            }
            return true;
        }
        i = i + 1;
    }
    false
}

/// Retries the semantics of `load_transcript` with openings incorporated:
/// a dealing that fails the private check is resolved by an opening that
/// discloses the receiver's true decryption — the disclosure the
/// adjudication sub-protocol certifies — whereupon the receiver adopts
/// the committed share, so it still obtains and persists a combined share
/// despite faulty dealers; fails where openings do not cover every faulty
/// dealing.
pub fn load_transcript_with_openings(
    transcript: &Transcript,
    openings: &Vec<crate::complaints::Opening>,
    receiver_id: u64,
    vault: &mut Vault,
) -> (r: Result<(), IdkgError>)
    requires
        old(vault).wf(),
    ensures
        final(vault).wf(),
        crate::vault::same_keys(final(vault), old(vault)),
        !transcript_wf(transcript@) ==> r == Err::<(), IdkgError>(IdkgError::MalformedTranscript)
            && final(vault).shares_view() == old(vault).shares_view(),
        transcript_wf(transcript@) && !transcript@.receivers.contains(receiver_id) ==> r == Err::<
            (),
            IdkgError,
        >(IdkgError::NotAReceiver) && final(vault).shares_view() == old(vault).shares_view(),
        transcript_wf(transcript@) && transcript@.receivers.contains(receiver_id) && old(vault).idkg_key().is_none() ==> r == Err::<(), IdkgError>(IdkgError::SecretKeyNotFound) && final(vault).shares_view() == old(vault).shares_view(),
        transcript_wf(transcript@) && transcript@.receivers.contains(receiver_id) && old(vault).idkg_key().is_some() ==> {
            let sk = old(vault).idkg_key().unwrap();
            let idx = transcript@.receivers.index_of(receiver_id);
            match spec_resolved_sum(
                transcript@.dealings,
                openings@,
                transcript@.transcript_id,
                receiver_id,
                sk,
                idx,
            ) {
                Some(s) => r == Ok::<(), IdkgError>(()) && final(vault).shares_view() == old(vault).shares_view().push((transcript@.transcript_id, s)),
                None => r == Err::<(), IdkgError>(IdkgError::InsufficientOpenings) && final(vault).shares_view() == old(vault).shares_view(),
            }
        },
{
    let ghost tv = transcript@;
    if !check_transcript_wf(transcript) {
        return Err(IdkgError::MalformedTranscript);
    }
    let idx = match find_index(&transcript.receivers, receiver_id) {
        Some(i) => i,
        None => {
            return Err(IdkgError::NotAReceiver);
        },
    };
    proof {
        lemma_index_unique(tv.receivers, idx as int, tv.receivers.index_of(receiver_id));
    }
    if !vault.has_idkg_key() {
        return Err(IdkgError::SecretKeyNotFound);
    }
    let ghost sk = vault.idkg_key().unwrap();
    let mut sum: u64 = 0;
    let mut i: usize = 0;
    proof {
        assert(tv.dealings.take(0) =~= Seq::<BatchSignedDealingView>::empty());
    }
    while i < transcript.dealings.len()
        invariant
            i <= transcript.dealings@.len(),
            tv == transcript@,
            transcript_wf(tv),
            idx < tv.receivers.len(),
            idx as int == tv.receivers.index_of(receiver_id),
            tv.receivers[idx as int] == receiver_id,
            tv.receivers.contains(receiver_id),
            vault.wf(),
            crate::vault::same_keys(vault, old(vault)),
            vault.shares_view() == old(vault).shares_view(),
            vault.idkg_key() == Some(sk),
            is_elem(sum),
            spec_resolved_sum(
                tv.dealings.take(i as int),
                openings@,
                tv.transcript_id,
                receiver_id,
                sk,
                idx as int,
            ) == Some(sum),
        decreases transcript.dealings@.len() - i,
    {
        proof {
            assert(dealing_frame_ok(tv, i as int));
            assert(tv.dealings[i as int] == transcript.dealings@[i as int]@);
        }
        let dealing = &transcript.dealings[i].dealing;
        let share = match vault.idkg_decrypt(dealing.ciphertexts[idx]) {
            Some(s) => s,
            None => {
                return Err(IdkgError::SecretKeyNotFound);
            },
        };
        let expected = poly_eval(&dealing.commitment, eval_point(idx));
        let resolved: u64 = if share == expected {
            share
        } else if find_resolving_opening(
            openings,
            transcript.transcript_id,
            transcript.dealings[i].dealer_id,
            receiver_id,
            share,
        ) {
            expected
        } else {
            proof {
                assert(spec_resolved_share(
                    tv.dealings[i as int],
                    openings@,
                    tv.transcript_id,
                    receiver_id,
                    sk,
                    idx as int,
                ).is_none());
                lemma_resolved_sum_none(
                    tv.dealings,
                    openings@,
                    tv.transcript_id,
                    receiver_id,
                    sk,
                    idx as int,
                    i as int,
                );
            }
            return Err(IdkgError::InsufficientOpenings);
        };
        proof {
            assert(spec_resolved_share(
                tv.dealings[i as int],
                openings@,
                tv.transcript_id,
                receiver_id,
                sk,
                idx as int,
            ) == Some(resolved));
        }
        sum = add_elem(sum, resolved);
        i = i + 1;
        proof {
            assert(tv.dealings.take(i as int).drop_last() =~= tv.dealings.take(i as int - 1));
            assert(tv.dealings.take(i as int).last() == tv.dealings[i as int - 1]);
        }
    }
    proof {
        assert(tv.dealings.take(tv.dealings.len() as int) =~= tv.dealings);
    }
    vault.insert_share(transcript.transcript_id, sum);
    Ok(())
}

/// Maps the transport outcome of a remote-vault transcript load into the
/// error taxonomy: a closed or timed-out channel is the distinct boundary
/// error, never conflated with a verification failure or a complaint; a
/// delivered outcome passes through unchanged.
pub fn interpret_vault_load_outcome(
    outcome: Option<Result<Vec<crate::complaints::Complaint>, IdkgError>>,
) -> (r: Result<Vec<crate::complaints::Complaint>, IdkgError>)
    ensures
        match outcome {
            None => r == Err::<Vec<crate::complaints::Complaint>, IdkgError>(
                IdkgError::VaultUnavailable,
            ),
            Some(delivered) => r == delivered,
        },
{
    match outcome {
        None => Err(IdkgError::VaultUnavailable),
        Some(delivered) => delivered,
    }
}

/// Maps the transport outcome of a remote-vault retention call into the
/// error taxonomy: a closed or timed-out channel is the distinct boundary
/// error; an acknowledged call is the success retention itself promises.
pub fn interpret_vault_retain_outcome(outcome: &Option<()>) -> (r: Result<(), IdkgError>)
    ensures
        match outcome {
            None => r == Err::<(), IdkgError>(IdkgError::VaultUnavailable),
            Some(_) => r == Ok::<(), IdkgError>(()),
        },
{
    match outcome {
        None => Err(IdkgError::VaultUnavailable),
        Some(_) => Ok(()),
    }
}

/// Instructs the vault to drop the shares of every transcript not in the
/// active set.  Idempotent, and never fails on transcripts already absent.
pub fn retain_active_transcripts(vault: &mut Vault, active: &Vec<Transcript>) -> (r: Result<
    (),
    IdkgError,
>)
    requires
        old(vault).wf(),
    ensures
        r == Ok::<(), IdkgError>(()),
        final(vault).wf(),
        crate::vault::same_keys(final(vault), old(vault)),
        final(vault).shares_view() == spec_retained(
            old(vault).shares_view(),
            active@.map_values(|t: Transcript| t.transcript_id),
        ),
{
    let ghost ids_spec = active@.map_values(|t: Transcript| t.transcript_id);
    let mut ids: Vec<u64> = Vec::new();
    let mut i: usize = 0;
    proof {
        assert(ids@ =~= ids_spec.take(0));
    }
    while i < active.len()
        invariant
            i <= active@.len(),
            ids_spec == active@.map_values(|t: Transcript| t.transcript_id),
            ids@ == ids_spec.take(i as int),
        decreases active@.len() - i,
    {
        ids.push(active[i].transcript_id);
        i = i + 1;
        proof {
            assert(ids@ =~= ids_spec.take(i as int));
        }
    }
    proof {
        assert(ids_spec.take(ids_spec.len() as int) =~= ids_spec);
    }
    vault.retain_active_transcripts(&ids);
    Ok(())
}

/// What a receiver loads is what the public combination prescribes: where
/// every carried dealing decrypts to its committed share for the receiver,
/// the stored combined share equals the combined commitment's evaluation
/// at the receiver's point.  This is the bridge from loading a transcript
/// to every later public check of the receiver's signature shares.
pub proof fn lemma_loaded_share_matches_commitment(
    params: TranscriptParamsView,
    sel: Seq<BatchSignedDealingView>,
    sk: u64,
    idx: int,
)
    requires
        0 <= params.threshold,
        forall|i: int|
            0 <= i < sel.len() ==> (#[trigger] sel[i]).dealing.commitment.len() == params.threshold
                + 1,
        forall|i: int| 0 <= i < sel.len() ==> spec_private_ok((#[trigger] sel[i]).dealing, sk, idx),
    ensures
        spec_shares_sum(sel, sk, idx) == spec_poly_eval(
            spec_combined_commitment(params, sel),
            spec_eval_point(idx),
        ),
    decreases sel.len(),
{
    let x = spec_eval_point(idx);
    if sel.len() == 0 {
        assert(spec_combined_commitment(params, sel) =~= crate::field::zero_coeffs(
            (params.threshold + 1) as nat,
        ));
        crate::field::lemma_poly_eval_zero((params.threshold + 1) as nat, x);
    } else {
        let rest = sel.drop_last();
        assert(forall|i: int|
            0 <= i < rest.len() ==> (#[trigger] rest[i]).dealing.commitment.len()
                == params.threshold + 1 && spec_private_ok(rest[i].dealing, sk, idx)) by {
            assert(forall|i: int| 0 <= i < rest.len() ==> rest[i] == #[trigger] sel[i]);
        }
        lemma_loaded_share_matches_commitment(params, rest, sk, idx);
        let last = sel.last();
        assert(spec_private_ok(last.dealing, sk, idx)) by {
            assert(sel[sel.len() - 1] == last);
        }
        assert(last.dealing.commitment.len() == params.threshold + 1) by {
            assert(sel[sel.len() - 1] == last);
        }
        assert(spec_combined_commitment(params, sel) =~= crate::field::zip_add(
            spec_combined_commitment(params, rest),
            last.dealing.commitment,
        ));
        crate::field::lemma_poly_eval_add(
            spec_combined_commitment(params, rest),
            last.dealing.commitment,
            x,
        );
    }
}

} // verus!
