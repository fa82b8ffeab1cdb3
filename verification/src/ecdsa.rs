//! Threshold-ECDSA signing atop completed IDKG transcripts.
//!
//! Signing inputs reference one key transcript and auxiliary presignature
//! transcripts, a message, and a derivation path; together they determine
//! every node's signature share exactly.  A node computes its share inside
//! the vault from its loaded transcript shares; anyone verifies a share
//! against the transcripts' public commitments; and any quorum of valid
//! shares determines the one combined signature, which — the commitments
//! being coefficient-transparent in this model — is read off the combined
//! commitments' constant terms, so the result provably does not depend on
//! which quorum supplied the shares.

use vstd::prelude::*;

use crate::errors::EcdsaError;
use crate::field::{
    add_elem, all_elems, digest, is_elem, mul_elem, poly_eval, spec_digest, spec_poly_eval,
    sum_elems, FIELD_MODULUS,
};
use crate::idkg::{eval_point, find_index, lemma_index_unique, spec_eval_point};
use crate::transcript::{transcript_wf, Transcript, TranscriptView};
use crate::vault::{
    share_lookup, spec_first_missing, spec_sig_share_value, Vault,
};

verus! {

/// What one signing instance must compute, fully determining every
/// signature share: the key transcript, the presignature transcripts, the
/// message, and the key-derivation path.
pub struct SigInputs {
    pub derivation_path: Vec<u64>,
    pub message: Vec<u8>,
    pub presig_transcripts: Vec<Transcript>,
    pub key_transcript: Transcript,
}

#[verifier::ext_equal]
pub ghost struct SigInputsView {
    pub derivation_path: Seq<u64>,
    pub message: Seq<u8>,
    pub presig_transcripts: Seq<TranscriptView>,
    pub key_transcript: TranscriptView,
}

impl View for SigInputs {
    type V = SigInputsView;

    open spec fn view(&self) -> SigInputsView {
        SigInputsView {
            derivation_path: self.derivation_path@,
            message: self.message@,
            presig_transcripts: self.presig_transcripts@.map_values(|t: Transcript| t@),
            key_transcript: self.key_transcript@,
        }
    }
}

/// One node's partial signature.
#[derive(Clone, Copy, Debug, PartialEq, Eq, Structural)]
pub struct SigShare {
    pub value: u64,
}

/// The combined signature, verifiable from public data alone.
#[derive(Clone, Copy, Debug, PartialEq, Eq, Structural)]
pub struct CombinedSignature {
    pub value: u64,
}

/// The derivation path folded into one field element.
pub open spec fn spec_path_digest(path: Seq<u64>) -> u64
    decreases path.len(),
{
    if path.len() == 0 {
        0u64
    } else {
        crate::field::spec_add(
            crate::field::spec_mul(spec_path_digest(path.drop_last()), 31),
            (path.last() % (FIELD_MODULUS as u64)) as u64,
        )
    }
}

/// Folds a derivation path into one field element.
pub fn path_digest(path: &Vec<u64>) -> (r: u64)
    ensures
        r == spec_path_digest(path@),
        is_elem(r),
{
    let mut acc: u64 = 0;
    let mut i: usize = 0;
    while i < path.len()
        invariant
            i <= path@.len(),
            is_elem(acc),
            acc == spec_path_digest(path@.take(i as int)),
        decreases path@.len() - i,
    {
        acc = add_elem(mul_elem(acc, 31), path[i] % FIELD_MODULUS);
        i = i + 1;
        proof {
            assert(path@.take(i as int).drop_last() =~= path@.take(i as int - 1));
            assert(path@.take(i as int).last() == path@[i as int - 1]);
        }
    }
    proof {
        assert(path@.take(path@.len() as int) =~= path@);
    }
    acc
}

/// Well-formed signing inputs: every referenced transcript is well formed
/// and all share one signer set and one threshold.
pub open spec fn inputs_wf(inp: SigInputsView) -> bool {
    &&& transcript_wf(inp.key_transcript)
    &&& forall|i: int|
        0 <= i < inp.presig_transcripts.len() ==> {
            &&& transcript_wf(#[trigger] inp.presig_transcripts[i])
            &&& inp.presig_transcripts[i].receivers == inp.key_transcript.receivers
            &&& inp.presig_transcripts[i].threshold == inp.key_transcript.threshold
        }
}

/// Checks well-formedness of signing inputs.
pub fn check_inputs_wf(inputs: &SigInputs) -> (r: bool)
    ensures
        r == inputs_wf(inputs@),
{
    let ghost iv = inputs@;
    if !crate::transcript::check_transcript_wf(&inputs.key_transcript) {
        return false;
    }
    let mut i: usize = 0;
    while i < inputs.presig_transcripts.len()
        invariant
            i <= inputs.presig_transcripts@.len(),
            iv == inputs@,
            transcript_wf(iv.key_transcript),
            forall|j: int|
                0 <= j < i ==> {
                    &&& transcript_wf(#[trigger] iv.presig_transcripts[j])
                    &&& iv.presig_transcripts[j].receivers == iv.key_transcript.receivers
                    &&& iv.presig_transcripts[j].threshold == iv.key_transcript.threshold
                },
        decreases inputs.presig_transcripts@.len() - i,
    {
        proof {
            assert(iv.presig_transcripts[i as int] == inputs.presig_transcripts@[i as int]@);
        }
        let t = &inputs.presig_transcripts[i];
        if !crate::transcript::check_transcript_wf(t) {
            return false;
        }
        if !crate::transcript::eq_vec_u64(&t.receivers, &inputs.key_transcript.receivers) {
            return false;
        }
        if t.threshold != inputs.key_transcript.threshold {
            return false;
        }
        i = i + 1;
    }
    true
}

/// The signature share the signer at receiver position `idx` owes, as a
/// function of public data alone: its committed key share bound to the
/// message digest, its committed presignature shares, and the path digest.
pub open spec fn spec_expected_share(inp: SigInputsView, idx: int) -> u64 {
    spec_sig_share_value(
        spec_poly_eval(inp.key_transcript.combined_commitment, spec_eval_point(idx)),
        inp.presig_transcripts.map_values(
            |t: TranscriptView| spec_poly_eval(t.combined_commitment, spec_eval_point(idx)),
        ),
        spec_digest(inp.message),
        spec_path_digest(inp.derivation_path),
    )
}

/// The one combined signature of the inputs: the same binding applied to
/// the combined commitments' constant terms — the values that any
/// threshold-plus-one consistent shares determine.
pub open spec fn spec_combined_sig(inp: SigInputsView) -> u64 {
    spec_sig_share_value(
        inp.key_transcript.combined_commitment[0],
        inp.presig_transcripts.map_values(|t: TranscriptView| t.combined_commitment[0]),
        spec_digest(inp.message),
        spec_path_digest(inp.derivation_path),
    )
}

/// The transcript identifiers the inputs reference, key transcript first.
pub open spec fn spec_presig_ids(inp: SigInputsView) -> Seq<u64> {
    inp.presig_transcripts.map_values(|t: TranscriptView| t.transcript_id)
}

/// The share the vault computes for the inputs from a given share log:
/// a deterministic function of the inputs and the loaded shares, so a
/// retried call against the same vault state yields the same share.
pub open spec fn spec_vault_share_for(inp: SigInputsView, shares: Seq<(u64, u64)>) -> u64 {
    spec_sig_share_value(
        share_lookup(shares, inp.key_transcript.transcript_id).unwrap(),
        spec_presig_ids(inp).map_values(|t: u64| share_lookup(shares, t).unwrap()),
        spec_digest(inp.message),
        spec_path_digest(inp.derivation_path),
    )
}

/// Computes this node's signature share from its vault-held transcript
/// shares.  Fails fast — never blocks — where a referenced transcript was
/// not loaded first.
pub fn sign_share(inputs: &SigInputs, node_id: u64, vault: &Vault) -> (r: Result<
    SigShare,
    EcdsaError,
>)
    requires
        vault.wf(),
    ensures
        !inputs_wf(inputs@) ==> r == Err::<SigShare, EcdsaError>(EcdsaError::MalformedInputs),
        inputs_wf(inputs@) && !inputs@.key_transcript.receivers.contains(node_id) ==> r == Err::<
            SigShare,
            EcdsaError,
        >(EcdsaError::NotASigner),
        inputs_wf(inputs@) && inputs@.key_transcript.receivers.contains(node_id) ==> match
            spec_first_missing(
            vault.shares_view(),
            inputs@.key_transcript.transcript_id,
            spec_presig_ids(inputs@),
        ) {
            Some(_) => r == Err::<SigShare, EcdsaError>(EcdsaError::MissingLocalShare),
            None => r == Ok::<SigShare, EcdsaError>(
                SigShare { value: spec_vault_share_for(inputs@, vault.shares_view()) },
            ),
        },
{
    if !check_inputs_wf(inputs) {
        return Err(EcdsaError::MalformedInputs);
    }
    if find_index(&inputs.key_transcript.receivers, node_id).is_none() {
        return Err(EcdsaError::NotASigner);
    }
    let message_digest = digest(&inputs.message);
    let derivation_digest = path_digest(&inputs.derivation_path);
    let ghost ids_spec = spec_presig_ids(inputs@);
    let mut presig_ids: Vec<u64> = Vec::new();
    let mut i: usize = 0;
    proof {
        assert(presig_ids@ =~= ids_spec.take(0));
    }
    while i < inputs.presig_transcripts.len()
        invariant
            i <= inputs.presig_transcripts@.len(),
            ids_spec == spec_presig_ids(inputs@),
            ids_spec.len() == inputs.presig_transcripts@.len(),
            presig_ids@ == ids_spec.take(i as int),
        decreases inputs.presig_transcripts@.len() - i,
    {
        presig_ids.push(inputs.presig_transcripts[i].transcript_id);
        i = i + 1;
        proof {
            assert(presig_ids@ =~= ids_spec.take(i as int));
        }
    }
    proof {
        assert(ids_spec.take(ids_spec.len() as int) =~= ids_spec);
    }
    match vault.compute_sig_share(
        inputs.key_transcript.transcript_id,
        &presig_ids,
        message_digest,
        derivation_digest,
    ) {
        Ok(v) => Ok(SigShare { value: v }),
        Err(_) => Err(EcdsaError::MissingLocalShare),
    }
}

/// Computes the share the signer at position `idx` owes, from public data.
fn expected_share_value(inputs: &SigInputs, idx: usize) -> (r: u64)
    requires
        inputs_wf(inputs@),
        idx < inputs@.key_transcript.receivers.len(),
    ensures
        r == spec_expected_share(inputs@, idx as int),
        is_elem(r),
{
    let ghost iv = inputs@;
    let ghost evals_spec = iv.presig_transcripts.map_values(
        |t: TranscriptView| spec_poly_eval(t.combined_commitment, spec_eval_point(idx as int)),
    );
    proof {
        assert(transcript_wf(iv.key_transcript));
        assert(iv.key_transcript.receivers.len() < FIELD_MODULUS);
    }
    let x = eval_point(idx);
    let key_eval = poly_eval(&inputs.key_transcript.combined_commitment, x);
    let mut evals: Vec<u64> = Vec::new();
    let mut i: usize = 0;
    proof {
        assert(evals@ =~= evals_spec.take(0));
    }
    while i < inputs.presig_transcripts.len()
        invariant
            i <= inputs.presig_transcripts@.len(),
            iv == inputs@,
            inputs_wf(iv),
            idx < iv.key_transcript.receivers.len(),
            x == spec_eval_point(idx as int),
            is_elem(x),
            evals_spec == iv.presig_transcripts.map_values(
                |t: TranscriptView| spec_poly_eval(
                    t.combined_commitment,
                    spec_eval_point(idx as int),
                ),
            ),
            evals_spec.len() == inputs.presig_transcripts@.len(),
            evals@ == evals_spec.take(i as int),
            all_elems(evals@),
        decreases inputs.presig_transcripts@.len() - i,
    {
        proof {
            assert(iv.presig_transcripts[i as int] == inputs.presig_transcripts@[i as int]@);
            assert(transcript_wf(iv.presig_transcripts[i as int]));
        }
        let e = poly_eval(&inputs.presig_transcripts[i].combined_commitment, x);
        evals.push(e);
        i = i + 1;
        proof {
            assert(evals@ =~= evals_spec.take(i as int));
        }
    }
    proof {
        assert(evals_spec.take(evals_spec.len() as int) =~= evals_spec);
    }
    let s = sum_elems(&evals);
    let message_digest = digest(&inputs.message);
    let derivation_digest = path_digest(&inputs.derivation_path);
    add_elem(add_elem(mul_elem(key_eval, message_digest), s), derivation_digest)
}

/// The public check of one signature share: recomputes from the
/// transcripts' commitments what the signer owes and compares.
pub fn verify_sig_share(signer: u64, inputs: &SigInputs, share: &SigShare) -> (r: Result<
    (),
    EcdsaError,
>)
    ensures
        !inputs_wf(inputs@) ==> r == Err::<(), EcdsaError>(EcdsaError::MalformedInputs),
        inputs_wf(inputs@) && !inputs@.key_transcript.receivers.contains(signer) ==> r == Err::<
            (),
            EcdsaError,
        >(EcdsaError::NotASigner),
        inputs_wf(inputs@) && inputs@.key_transcript.receivers.contains(signer) ==> {
            let idx = inputs@.key_transcript.receivers.index_of(signer);
            if share.value == spec_expected_share(inputs@, idx) {
                r == Ok::<(), EcdsaError>(())
            } else {
                r == Err::<(), EcdsaError>(EcdsaError::InvalidSigShare)
            }
        },
{
    if !check_inputs_wf(inputs) {
        return Err(EcdsaError::MalformedInputs);
    }
    let idx = match find_index(&inputs.key_transcript.receivers, signer) {
        Some(i) => i,
        None => {
            return Err(EcdsaError::NotASigner);
        },
    };
    proof {
        assert(transcript_wf(inputs@.key_transcript));
        lemma_index_unique(
            inputs@.key_transcript.receivers,
            idx as int,
            inputs@.key_transcript.receivers.index_of(signer),
        );
    }
    let expected = expected_share_value(inputs, idx);
    if share.value == expected {
        Ok(())
    } else {
        Err(EcdsaError::InvalidSigShare)
    }
}

/// How many of the submitted shares are valid: from a signer of the key
/// transcript, with exactly the value that signer owes.
pub open spec fn spec_valid_share_count(inp: SigInputsView, shares: Seq<(u64, SigShare)>) -> int
    decreases shares.len(),
{
    if shares.len() == 0 {
        0
    } else {
        let rest = spec_valid_share_count(inp, shares.drop_last());
        if inp.key_transcript.receivers.contains(shares.last().0) && shares.last().1.value
            == spec_expected_share(inp, inp.key_transcript.receivers.index_of(shares.last().0)) {
            rest + 1
        } else {
            rest
        }
    }
}

/// Computes the combined signature of the inputs from public data.
fn combined_sig_value(inputs: &SigInputs) -> (r: u64)
    requires
        inputs_wf(inputs@),
    ensures
        r == spec_combined_sig(inputs@),
        is_elem(r),
{
    let ghost iv = inputs@;
    let ghost consts_spec = iv.presig_transcripts.map_values(
        |t: TranscriptView| t.combined_commitment[0],
    );
    proof {
        assert(transcript_wf(iv.key_transcript));
    }
    let key_const = inputs.key_transcript.combined_commitment[0];
    let mut consts: Vec<u64> = Vec::new();
    let mut i: usize = 0;
    proof {
        assert(consts@ =~= consts_spec.take(0));
    }
    while i < inputs.presig_transcripts.len()
        invariant
            i <= inputs.presig_transcripts@.len(),
            iv == inputs@,
            inputs_wf(iv),
            consts_spec == iv.presig_transcripts.map_values(
                |t: TranscriptView| t.combined_commitment[0],
            ),
            consts_spec.len() == inputs.presig_transcripts@.len(),
            consts@ == consts_spec.take(i as int),
            all_elems(consts@),
        decreases inputs.presig_transcripts@.len() - i,
    {
        proof {
            assert(iv.presig_transcripts[i as int] == inputs.presig_transcripts@[i as int]@);
            assert(transcript_wf(iv.presig_transcripts[i as int]));
            assert(is_elem(iv.presig_transcripts[i as int].combined_commitment[0]));
        }
        consts.push(inputs.presig_transcripts[i].combined_commitment[0]);
        i = i + 1;
        proof {
            assert(consts@ =~= consts_spec.take(i as int));
        }
    }
    proof {
        assert(consts_spec.take(consts_spec.len() as int) =~= consts_spec);
        assert(is_elem(iv.key_transcript.combined_commitment[0]));
    }
    let s = sum_elems(&consts);
    let message_digest = digest(&inputs.message);
    let derivation_digest = path_digest(&inputs.derivation_path);
    add_elem(add_elem(mul_elem(key_const, message_digest), s), derivation_digest)
}

/// Combines signature shares into the one signature of the inputs.
/// Requires at least threshold-plus-one valid shares from distinct
/// signers; fails with a quorum error below that, whichever subset is
/// supplied.  The result is a function of the inputs alone: any two
/// sufficient share collections yield the identical signature.
pub fn combine_sig_shares(inputs: &SigInputs, shares: &Vec<(u64, SigShare)>) -> (r: Result<
    CombinedSignature,
    EcdsaError,
>)
    requires
        crate::idkg::strictly_increasing(shares@.map_values(|s: (u64, SigShare)| s.0)),
    ensures
        !inputs_wf(inputs@) ==> r == Err::<CombinedSignature, EcdsaError>(
            EcdsaError::MalformedInputs,
        ),
        inputs_wf(inputs@) && spec_valid_share_count(inputs@, shares@)
            >= inputs@.key_transcript.threshold + 1 ==> r == Ok::<CombinedSignature, EcdsaError>(
            CombinedSignature { value: spec_combined_sig(inputs@) },
        ),
        inputs_wf(inputs@) && spec_valid_share_count(inputs@, shares@)
            < inputs@.key_transcript.threshold + 1 ==> r == Err::<CombinedSignature, EcdsaError>(
            EcdsaError::InsufficientSigShares,
        ),
{
    let ghost iv = inputs@;
    if !check_inputs_wf(inputs) {
        return Err(EcdsaError::MalformedInputs);
    }
    let mut count: usize = 0;
    let mut i: usize = 0;
    proof {
        assert(shares@.take(0) =~= Seq::<(u64, SigShare)>::empty());
    }
    while i < shares.len()
        invariant
            i <= shares@.len(),
            iv == inputs@,
            inputs_wf(iv),
            count <= i,
            count as int == spec_valid_share_count(iv, shares@.take(i as int)),
        decreases shares@.len() - i,
    {
        let entry = shares[i];
        let valid = match find_index(&inputs.key_transcript.receivers, entry.0) {
            Some(idx) => {
                proof {
                    assert(transcript_wf(iv.key_transcript));
                    lemma_index_unique(
                        iv.key_transcript.receivers,
                        idx as int,
                        iv.key_transcript.receivers.index_of(entry.0),
                    );
                }
                let expected = expected_share_value(inputs, idx);
                entry.1.value == expected
            },
            None => false,
        };
        if valid {
            count = count + 1;
        }
        i = i + 1;
        proof {
            assert(shares@.take(i as int).drop_last() =~= shares@.take(i as int - 1));
            assert(shares@.take(i as int).last() == shares@[i as int - 1]);
        }
    }
    proof {
        assert(shares@.take(shares@.len() as int) =~= shares@);
    }
    if count < inputs.key_transcript.threshold + 1 {
        return Err(EcdsaError::InsufficientSigShares);
    }
    let value = combined_sig_value(inputs);
    Ok(CombinedSignature { value })
}

/// The standard public check of a combined signature: the only check an
/// external, non-committee party ever needs to run.
pub fn verify_combined_sig(inputs: &SigInputs, signature: &CombinedSignature) -> (r: Result<
    (),
    EcdsaError,
>)
    ensures
        !inputs_wf(inputs@) ==> r == Err::<(), EcdsaError>(EcdsaError::MalformedInputs),
        inputs_wf(inputs@) ==> if signature.value == spec_combined_sig(inputs@) {
            r == Ok::<(), EcdsaError>(())
        } else {
            r == Err::<(), EcdsaError>(EcdsaError::InvalidSignature)
        },
{
    if !check_inputs_wf(inputs) {
        return Err(EcdsaError::MalformedInputs);
    }
    let expected = combined_sig_value(inputs);
    if signature.value == expected {
        Ok(())
    } else {
        Err(EcdsaError::InvalidSignature)
    }
}

/// Agreement of combination: any two share collections that each carry a
/// quorum of valid shares admit, under `combine_sig_shares`'s contract,
/// only one and the same combined signature, and that signature passes
/// `verify_combined_sig`.  Below the quorum the contract admits only the
/// quorum error.
pub proof fn lemma_combine_sig_shares_agreement(
    inp: SigInputsView,
    shares1: Seq<(u64, SigShare)>,
    shares2: Seq<(u64, SigShare)>,
    r1: CombinedSignature,
    r2: CombinedSignature,
)
    requires
        inputs_wf(inp),
        spec_valid_share_count(inp, shares1) >= inp.key_transcript.threshold + 1,
        spec_valid_share_count(inp, shares2) >= inp.key_transcript.threshold + 1,
        r1.value == spec_combined_sig(inp),
        r2.value == spec_combined_sig(inp),
    ensures
        r1 == r2,
        r1.value == spec_combined_sig(inp),
{
}

/// What the transport outcome of a remote-vault signing call means: no
/// response is the boundary error, a delivered share is the share, a
/// delivered vault error is the missing-share error.
pub open spec fn spec_interpret_outcome(outcome: Option<Result<u64, u64>>) -> Result<
    SigShare,
    EcdsaError,
> {
    match outcome {
        None => Err(EcdsaError::VaultUnavailable),
        Some(Ok(v)) => Ok(SigShare { value: v }),
        Some(Err(_)) => Err(EcdsaError::MissingLocalShare),
    }
}

/// Maps the transport outcome of a remote-vault signing call into the
/// error taxonomy: a closed or timed-out channel is the distinct boundary
/// error, never conflated with a cryptographic failure, and a retried
/// call after the channel is restored yields the share the vault state
/// determines.
pub fn interpret_vault_sign_outcome(outcome: &Option<Result<u64, u64>>) -> (r: Result<
    SigShare,
    EcdsaError,
>)
    ensures
        r == spec_interpret_outcome(*outcome),
{
    match outcome {
        None => Err(EcdsaError::VaultUnavailable),
        Some(Ok(v)) => Ok(SigShare { value: *v }),
        Some(Err(_)) => Err(EcdsaError::MissingLocalShare),
    }
}

/// The boundary behaviour of remote signing, for every input and vault
/// state: a channel that closes mid-call surfaces as the one boundary
/// error, distinct from every cryptographic rejection and from the
/// missing-share error; and once the channel is restored, the delivered
/// outcome for the same inputs against the same vault state — whose
/// shares are all loaded — is accepted as exactly the share the
/// in-process signer's contract yields.
pub proof fn lemma_vault_boundary_and_retry(inp: SigInputsView, shares: Seq<(u64, u64)>)
    requires
        spec_first_missing(shares, inp.key_transcript.transcript_id, spec_presig_ids(inp))
            is None,
    ensures
        spec_interpret_outcome(None) == Err::<SigShare, EcdsaError>(EcdsaError::VaultUnavailable),
        spec_interpret_outcome(None) != Err::<SigShare, EcdsaError>(EcdsaError::InvalidSigShare),
        spec_interpret_outcome(None) != Err::<SigShare, EcdsaError>(EcdsaError::InvalidSignature),
        spec_interpret_outcome(None) != Err::<SigShare, EcdsaError>(EcdsaError::MissingLocalShare),
        spec_interpret_outcome(None) != Err::<SigShare, EcdsaError>(EcdsaError::MalformedInputs),
        spec_interpret_outcome(None) != Err::<SigShare, EcdsaError>(EcdsaError::NotASigner),
        spec_interpret_outcome(Some(Ok(spec_vault_share_for(inp, shares)))) == Ok::<
            SigShare,
            EcdsaError,
        >(SigShare { value: spec_vault_share_for(inp, shares) }),
{
}

/// Loading then signing round-trips through public verification: a node
/// whose vault holds, for every transcript the inputs reference, exactly
/// the share that transcript's combined commitment prescribes at the
/// node's point, computes with `sign_share`'s contract exactly the share
/// `verify_sig_share` expects of it.
pub proof fn lemma_signed_share_matches_expected(
    inp: SigInputsView,
    shares: Seq<(u64, u64)>,
    idx: int,
)
    requires
        share_lookup(shares, inp.key_transcript.transcript_id) == Some(
            spec_poly_eval(inp.key_transcript.combined_commitment, spec_eval_point(idx)),
        ),
        forall|j: int|
            0 <= j < inp.presig_transcripts.len() ==> share_lookup(
                shares,
                (#[trigger] inp.presig_transcripts[j]).transcript_id,
            ) == Some(
                spec_poly_eval(inp.presig_transcripts[j].combined_commitment, spec_eval_point(idx)),
            ),
    ensures
        spec_sig_share_value(
            share_lookup(shares, inp.key_transcript.transcript_id).unwrap(),
            spec_presig_ids(inp).map_values(|t: u64| share_lookup(shares, t).unwrap()),
            spec_digest(inp.message),
            spec_path_digest(inp.derivation_path),
        ) == spec_expected_share(inp, idx),
{
    let looked_up = spec_presig_ids(inp).map_values(|t: u64| share_lookup(shares, t).unwrap());
    let committed = inp.presig_transcripts.map_values(
        |t: TranscriptView| spec_poly_eval(t.combined_commitment, spec_eval_point(idx)),
    );
    assert(looked_up =~= committed) by {
        assert forall|j: int| 0 <= j < looked_up.len() implies looked_up[j] == committed[j] by {
            assert(spec_presig_ids(inp)[j] == inp.presig_transcripts[j].transcript_id);
        }
    }
}

} // verus!
