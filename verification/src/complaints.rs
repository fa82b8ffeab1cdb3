//! The complaint and opening accountability sub-protocol.
//!
//! A receiver that cannot privately verify a dealing raises a [`Complaint`]
//! disclosing what its share decrypted to.  Any party can then obtain an
//! [`Opening`] — the disclosure of the complainer's decryption, computable
//! here from the registered (transparent) dealing-encryption key — and
//! adjudicate: if the ciphertext really decrypts to something other than
//! the commitment's evaluation at the complainer's point, the dealer is at
//! fault; otherwise the complaint was baseless and the complainer is.  No
//! secret of an uninvolved party is revealed.

use vstd::prelude::*;

use crate::errors::IdkgError;
use crate::field::{is_elem, poly_eval, spec_poly_eval, spec_sub, sub_elem, FIELD_MODULUS};
use crate::idkg::{find_index, lemma_index_unique, spec_eval_point};
use crate::registry::KeyPurpose;
use crate::registry::Registry;
use crate::transcript::{
    check_transcript_wf, transcript_wf, BatchSignedDealingView, Transcript, TranscriptView,
};

verus! {

/// A receiver's challenge against one dealer's dealing in a transcript,
/// disclosing what the receiver's share decrypted to.
#[derive(Clone, Copy, Debug, PartialEq, Eq, Structural)]
pub struct Complaint {
    pub transcript_id: u64,
    pub dealer_id: u64,
    pub complainer_id: u64,
    /// What the complainer's ciphertext decrypted to under its key.
    pub share: u64,
}

/// The disclosure that lets any third party adjudicate a complaint: the
/// complainer's decrypted share of the accused dealing.
#[derive(Clone, Copy, Debug, PartialEq, Eq, Structural)]
pub struct Opening {
    pub transcript_id: u64,
    pub dealer_id: u64,
    pub complainer_id: u64,
    /// The complainer's share of the accused dealing.
    pub share: u64,
}

/// Whom a verified opening attributes the fault to.
#[derive(Clone, Copy, Debug, PartialEq, Eq, Structural)]
pub enum Verdict {
    /// The dealing really fails the complainer's private check.
    AgainstDealer,
    /// The dealing verifies; the complaint was baseless.
    AgainstComplainer,
}

/// A dealer appears in a transcript's dealing collection.
pub open spec fn has_dealer(ds: Seq<BatchSignedDealingView>, dealer_id: u64) -> bool {
    exists|i: int| 0 <= i < ds.len() && #[trigger] ds[i].dealer_id == dealer_id
}

/// The position of a dealer in a transcript's dealing collection.
pub open spec fn dealer_index(ds: Seq<BatchSignedDealingView>, dealer_id: u64) -> int {
    choose|i: int| 0 <= i < ds.len() && #[trigger] ds[i].dealer_id == dealer_id
}

/// Finds the dealing of a dealer in a transcript.
pub fn find_dealing(ds: &Vec<crate::transcript::BatchSignedDealing>, dealer_id: u64) -> (r: Option<
    usize,
>)
    ensures
        match r {
            Some(i) => i < ds@.len() && crate::transcript::dealings_view(ds@)[i as int].dealer_id
                == dealer_id && has_dealer(crate::transcript::dealings_view(ds@), dealer_id),
            None => !has_dealer(crate::transcript::dealings_view(ds@), dealer_id),
        },
{
    let ghost dsv = crate::transcript::dealings_view(ds@);
    let mut i: usize = 0;
    while i < ds.len()
        invariant
            i <= ds@.len(),
            dsv == crate::transcript::dealings_view(ds@),
            forall|j: int| 0 <= j < i ==> #[trigger] dsv[j].dealer_id != dealer_id,
        decreases ds@.len() - i,
    {
        if ds[i].dealer_id == dealer_id {
            proof {
                assert(dsv[i as int] == ds@[i as int]@);
                assert(has_dealer(dsv, dealer_id)) by {
                    assert(dsv[i as int].dealer_id == dealer_id);
                }
            }
            return Some(i);
        }
        proof {
            assert(dsv[i as int] == ds@[i as int]@);
        }
        i = i + 1;
    }
    None
}

/// What the complainer's ciphertext in the accused dealing decrypts to
/// under the complainer's registered key.
pub open spec fn spec_disclosed_share(t: TranscriptView, c: Complaint, key: u64) -> u64 {
    spec_sub(
        t.dealings[dealer_index(t.dealings, c.dealer_id)].dealing.ciphertexts[t.receivers.index_of(
            c.complainer_id,
        )],
        key,
    )
}

/// The commitment's evaluation at the complainer's point: the share the
/// accused dealing owes the complainer.
pub open spec fn spec_committed_share(t: TranscriptView, c: Complaint) -> u64 {
    spec_poly_eval(
        t.dealings[dealer_index(t.dealings, c.dealer_id)].dealing.commitment,
        spec_eval_point(t.receivers.index_of(c.complainer_id)),
    )
}

/// The structural part of complaint verification: the complaint references
/// this transcript, its complainer, a dealer the transcript carries, and
/// the complainer's key is registered.
pub open spec fn complaint_frame_ok(
    t: TranscriptView,
    registry: Seq<crate::registry::RegistryRecord>,
    complainer_id: u64,
    c: Complaint,
) -> bool {
    &&& c.transcript_id == t.transcript_id
    &&& c.complainer_id == complainer_id
    &&& t.receivers.contains(complainer_id)
    &&& has_dealer(t.dealings, c.dealer_id)
    &&& crate::idkg::spec_receiver_key(registry, complainer_id, t.registry_version).is_some()
}

/// Who may stand as the opener of a complaint: the accused dealer or any
/// receiver of the transcript.
pub open spec fn opener_allowed(t: TranscriptView, opening: Opening, opener_id: u64) -> bool {
    t.receivers.contains(opener_id) || opener_id == opening.dealer_id
}

/// The fault a verified opening attributes: against the dealer where the
/// disclosed decryption misses the committed share, against the complainer
/// where it matches.
pub open spec fn spec_verdict(t: TranscriptView, c: Complaint, key: u64) -> Verdict {
    if spec_disclosed_share(t, c, key) == spec_committed_share(t, c) {
        Verdict::AgainstComplainer
    } else {
        Verdict::AgainstDealer
    }
}

/// Verifies a complaint's proof: any party can run this on public data.
/// A complaint is valid when its disclosed decryption is the true
/// decryption under the complainer's registered key and that decryption
/// misses the committed share.
pub fn verify_complaint(
    transcript: &Transcript,
    complainer_id: u64,
    complaint: &Complaint,
    registry: &Registry,
) -> (r: Result<(), IdkgError>)
    requires
        registry.wf(),
    ensures
        !transcript_wf(transcript@) ==> r == Err::<(), IdkgError>(IdkgError::MalformedTranscript),
        transcript_wf(transcript@) && !(complaint.transcript_id == transcript@.transcript_id
            && complaint.complainer_id == complainer_id && has_dealer(
            transcript@.dealings,
            complaint.dealer_id,
        )) ==> r == Err::<(), IdkgError>(IdkgError::MalformedComplaint),
        transcript_wf(transcript@) && complaint.transcript_id == transcript@.transcript_id
            && complaint.complainer_id == complainer_id && has_dealer(
            transcript@.dealings,
            complaint.dealer_id,
        ) && !transcript@.receivers.contains(complainer_id) ==> r == Err::<(), IdkgError>(
            IdkgError::NotAReceiver,
        ),
        transcript_wf(transcript@) && complaint.transcript_id == transcript@.transcript_id
            && complaint.complainer_id == complainer_id && has_dealer(
            transcript@.dealings,
            complaint.dealer_id,
        ) && transcript@.receivers.contains(complainer_id) && crate::idkg::spec_receiver_key(
            registry@,
            complainer_id,
            transcript@.registry_version,
        ).is_none() ==> r == Err::<(), IdkgError>(IdkgError::PublicKeyNotFound),
        transcript_wf(transcript@) && complaint_frame_ok(
            transcript@,
            registry@,
            complainer_id,
            *complaint,
        ) ==> {
            let key = crate::idkg::spec_receiver_key(
                registry@,
                complainer_id,
                transcript@.registry_version,
            ).unwrap();
            if complaint.share == spec_disclosed_share(transcript@, *complaint, key)
                && spec_disclosed_share(transcript@, *complaint, key) != spec_committed_share(
                transcript@,
                *complaint,
            ) {
                r == Ok::<(), IdkgError>(())
            } else {
                r == Err::<(), IdkgError>(IdkgError::InvalidComplaint)
            }
        },
{
    if !check_transcript_wf(transcript) {
        return Err(IdkgError::MalformedTranscript);
    }
    if complaint.transcript_id != transcript.transcript_id {
        return Err(IdkgError::MalformedComplaint);
    }
    if complaint.complainer_id != complainer_id {
        return Err(IdkgError::MalformedComplaint);
    }
    let d = match find_dealing(&transcript.dealings, complaint.dealer_id) {
        Some(i) => i,
        None => {
            return Err(IdkgError::MalformedComplaint);
        },
    };
    let idx = match find_index(&transcript.receivers, complainer_id) {
        Some(i) => i,
        None => {
            return Err(IdkgError::NotAReceiver);
        },
    };
    let key = match registry.get_public_key(
        complainer_id,
        KeyPurpose::IDkgMEGaEncryption,
        transcript.registry_version,
    ) {
        Some(k) => k,
        None => {
            return Err(IdkgError::PublicKeyNotFound);
        },
    };
    proof {
        crate::registry::lemma_lookup_is_elem(
            registry@,
            complainer_id,
            KeyPurpose::IDkgMEGaEncryption,
            transcript.registry_version,
        );
        lemma_index_unique(
            transcript@.receivers,
            idx as int,
            transcript@.receivers.index_of(complainer_id),
        );
        crate::transcript::lemma_dealer_index_unique(
            transcript@.dealings,
            d as int,
            dealer_index(transcript@.dealings, complaint.dealer_id),
        );
        assert(transcript@.dealings[d as int] == transcript.dealings@[d as int]@);
        assert(crate::transcript::dealing_frame_ok(transcript@, d as int));
        assert(is_elem(transcript@.dealings[d as int].dealing.ciphertexts[idx as int]));
    }
    let dealing = &transcript.dealings[d].dealing;
    let disclosed = sub_elem(dealing.ciphertexts[idx], key);
    let committed = poly_eval(&dealing.commitment, crate::idkg::eval_point(idx));
    if complaint.share == disclosed && disclosed != committed {
        Ok(())
    } else {
        Err(IdkgError::InvalidComplaint)
    }
}

/// Produces the opening that adjudicates a complaint: the disclosure of
/// the complainer's decryption, computed from the registered key.  The
/// accused dealer or any receiver can produce it.
pub fn open_transcript(
    transcript: &Transcript,
    complainer_id: u64,
    complaint: &Complaint,
    registry: &Registry,
) -> (r: Result<Opening, IdkgError>)
    requires
        registry.wf(),
    ensures
        !transcript_wf(transcript@) ==> r == Err::<Opening, IdkgError>(
            IdkgError::MalformedTranscript,
        ),
        transcript_wf(transcript@) && !(complaint.transcript_id == transcript@.transcript_id
            && complaint.complainer_id == complainer_id && has_dealer(
            transcript@.dealings,
            complaint.dealer_id,
        )) ==> r == Err::<Opening, IdkgError>(IdkgError::MalformedComplaint),
        transcript_wf(transcript@) && complaint.transcript_id == transcript@.transcript_id
            && complaint.complainer_id == complainer_id && has_dealer(
            transcript@.dealings,
            complaint.dealer_id,
        ) && !transcript@.receivers.contains(complainer_id) ==> r == Err::<Opening, IdkgError>(
            IdkgError::NotAReceiver,
        ),
        transcript_wf(transcript@) && complaint.transcript_id == transcript@.transcript_id
            && complaint.complainer_id == complainer_id && has_dealer(
            transcript@.dealings,
            complaint.dealer_id,
        ) && transcript@.receivers.contains(complainer_id) && crate::idkg::spec_receiver_key(
            registry@,
            complainer_id,
            transcript@.registry_version,
        ).is_none() ==> r == Err::<Opening, IdkgError>(IdkgError::PublicKeyNotFound),
        transcript_wf(transcript@) && complaint_frame_ok(
            transcript@,
            registry@,
            complainer_id,
            *complaint,
        ) ==> r == Ok::<Opening, IdkgError>(
            Opening {
                transcript_id: complaint.transcript_id,
                dealer_id: complaint.dealer_id,
                complainer_id,
                share: spec_disclosed_share(
                    transcript@,
                    *complaint,
                    crate::idkg::spec_receiver_key(
                        registry@,
                        complainer_id,
                        transcript@.registry_version,
                    ).unwrap(),
                ),
            },
        ),
{
    if !check_transcript_wf(transcript) {
        return Err(IdkgError::MalformedTranscript);
    }
    if complaint.transcript_id != transcript.transcript_id {
        return Err(IdkgError::MalformedComplaint);
    }
    if complaint.complainer_id != complainer_id {
        return Err(IdkgError::MalformedComplaint);
    }
    let d = match find_dealing(&transcript.dealings, complaint.dealer_id) {
        Some(i) => i,
        None => {
            return Err(IdkgError::MalformedComplaint);
        },
    };
    let idx = match find_index(&transcript.receivers, complainer_id) {
        Some(i) => i,
        None => {
            return Err(IdkgError::NotAReceiver);
        },
    };
    let key = match registry.get_public_key(
        complainer_id,
        KeyPurpose::IDkgMEGaEncryption,
        transcript.registry_version,
    ) {
        Some(k) => k,
        None => {
            return Err(IdkgError::PublicKeyNotFound);
        },
    };
    proof {
        crate::registry::lemma_lookup_is_elem(
            registry@,
            complainer_id,
            KeyPurpose::IDkgMEGaEncryption,
            transcript.registry_version,
        );
        lemma_index_unique(
            transcript@.receivers,
            idx as int,
            transcript@.receivers.index_of(complainer_id),
        );
        crate::transcript::lemma_dealer_index_unique(
            transcript@.dealings,
            d as int,
            dealer_index(transcript@.dealings, complaint.dealer_id),
        );
        assert(transcript@.dealings[d as int] == transcript.dealings@[d as int]@);
        assert(crate::transcript::dealing_frame_ok(transcript@, d as int));
        assert(is_elem(transcript@.dealings[d as int].dealing.ciphertexts[idx as int]));
    }
    let disclosed = sub_elem(transcript.dealings[d].dealing.ciphertexts[idx], key);
    Ok(
        Opening {
            transcript_id: complaint.transcript_id,
            dealer_id: complaint.dealer_id,
            complainer_id,
            share: disclosed,
        },
    )
}

/// Adjudicates a complaint with an opening: checks that the opening
/// belongs to the complaint, that its opener is the accused dealer or a
/// receiver, and that it really discloses the decryption under the
/// complainer's registered key, then attributes the fault to exactly one
/// of dealer and complainer.
pub fn verify_opening(
    transcript: &Transcript,
    opener_id: u64,
    opening: &Opening,
    complaint: &Complaint,
    registry: &Registry,
) -> (r: Result<Verdict, IdkgError>)
    requires
        registry.wf(),
    ensures
        !transcript_wf(transcript@) ==> r == Err::<Verdict, IdkgError>(
            IdkgError::MalformedTranscript,
        ),
        transcript_wf(transcript@) && !(opening.transcript_id == complaint.transcript_id
            && opening.dealer_id == complaint.dealer_id && opening.complainer_id
            == complaint.complainer_id) ==> r == Err::<Verdict, IdkgError>(
            IdkgError::MalformedOpening,
        ),
        transcript_wf(transcript@) && opening.transcript_id == complaint.transcript_id
            && opening.dealer_id == complaint.dealer_id && opening.complainer_id
            == complaint.complainer_id && !opener_allowed(transcript@, *opening, opener_id)
            ==> r == Err::<Verdict, IdkgError>(IdkgError::NotAReceiver),
        transcript_wf(transcript@) && opening.transcript_id == complaint.transcript_id
            && opening.dealer_id == complaint.dealer_id && opening.complainer_id
            == complaint.complainer_id && opener_allowed(transcript@, *opening, opener_id) && !(
        complaint.transcript_id == transcript@.transcript_id && transcript@.receivers.contains(
            complaint.complainer_id,
        ) && has_dealer(transcript@.dealings, complaint.dealer_id)) ==> r == Err::<
            Verdict,
            IdkgError,
        >(IdkgError::MalformedOpening),
        transcript_wf(transcript@) && opening.transcript_id == complaint.transcript_id
            && opening.dealer_id == complaint.dealer_id && opening.complainer_id
            == complaint.complainer_id && opener_allowed(transcript@, *opening, opener_id)
            && complaint.transcript_id == transcript@.transcript_id
            && transcript@.receivers.contains(complaint.complainer_id) && has_dealer(
            transcript@.dealings,
            complaint.dealer_id,
        ) && crate::idkg::spec_receiver_key(
            registry@,
            complaint.complainer_id,
            transcript@.registry_version,
        ).is_none() ==> r == Err::<Verdict, IdkgError>(IdkgError::PublicKeyNotFound),
        transcript_wf(transcript@) && opening.transcript_id == complaint.transcript_id
            && opening.dealer_id == complaint.dealer_id && opening.complainer_id
            == complaint.complainer_id && opener_allowed(transcript@, *opening, opener_id)
            && complaint_frame_ok(
            transcript@,
            registry@,
            complaint.complainer_id,
            *complaint,
        ) ==> {
            let key = crate::idkg::spec_receiver_key(
                registry@,
                complaint.complainer_id,
                transcript@.registry_version,
            ).unwrap();
            if opening.share == spec_disclosed_share(transcript@, *complaint, key) {
                r == Ok::<Verdict, IdkgError>(spec_verdict(transcript@, *complaint, key))
            } else {
                r == Err::<Verdict, IdkgError>(IdkgError::MalformedOpening)
            }
        },
{
    if !check_transcript_wf(transcript) {
        return Err(IdkgError::MalformedTranscript);
    }
    if opening.transcript_id != complaint.transcript_id || opening.dealer_id != complaint.dealer_id
        || opening.complainer_id != complaint.complainer_id {
        return Err(IdkgError::MalformedOpening);
    }
    if find_index(&transcript.receivers, opener_id).is_none() && opener_id != opening.dealer_id {
        return Err(IdkgError::NotAReceiver);
    }
    if complaint.transcript_id != transcript.transcript_id {
        return Err(IdkgError::MalformedOpening);
    }
    let idx = match find_index(&transcript.receivers, complaint.complainer_id) {
        Some(i) => i,
        None => {
            return Err(IdkgError::MalformedOpening);
        },
    };
    let d = match find_dealing(&transcript.dealings, complaint.dealer_id) {
        Some(i) => i,
        None => {
            return Err(IdkgError::MalformedOpening);
        },
    };
    let key = match registry.get_public_key(
        complaint.complainer_id,
        KeyPurpose::IDkgMEGaEncryption,
        transcript.registry_version,
    ) {
        Some(k) => k,
        None => {
            return Err(IdkgError::PublicKeyNotFound);
        },
    };
    proof {
        crate::registry::lemma_lookup_is_elem(
            registry@,
            complaint.complainer_id,
            KeyPurpose::IDkgMEGaEncryption,
            transcript.registry_version,
        );
        lemma_index_unique(
            transcript@.receivers,
            idx as int,
            transcript@.receivers.index_of(complaint.complainer_id),
        );
        crate::transcript::lemma_dealer_index_unique(
            transcript@.dealings,
            d as int,
            dealer_index(transcript@.dealings, complaint.dealer_id),
        );
        assert(transcript@.dealings[d as int] == transcript.dealings@[d as int]@);
        assert(crate::transcript::dealing_frame_ok(transcript@, d as int));
        assert(is_elem(transcript@.dealings[d as int].dealing.ciphertexts[idx as int]));
    }
    let dealing = &transcript.dealings[d].dealing;
    let disclosed = sub_elem(dealing.ciphertexts[idx], key);
    if opening.share != disclosed {
        return Err(IdkgError::MalformedOpening);
    }
    let committed = poly_eval(&dealing.commitment, crate::idkg::eval_point(idx));
    if disclosed == committed {
        Ok(Verdict::AgainstComplainer)
    } else {
        Ok(Verdict::AgainstDealer)
    }
}

/// A valid opening attributes fault to exactly one of dealer and
/// complainer, as a deterministic function of the transcript, the
/// complaint and the complainer's registered key: against the dealer
/// exactly where the true decryption misses the committed share, against
/// the complainer exactly where it matches.
pub proof fn lemma_opening_attributes_exactly_one(t: TranscriptView, c: Complaint, key: u64)
    ensures
        (spec_verdict(t, c, key) == Verdict::AgainstDealer) <==> spec_disclosed_share(t, c, key)
            != spec_committed_share(t, c),
        (spec_verdict(t, c, key) == Verdict::AgainstComplainer) <==> spec_disclosed_share(t, c, key)
            == spec_committed_share(t, c),
        (spec_verdict(t, c, key) == Verdict::AgainstDealer) != (spec_verdict(t, c, key)
            == Verdict::AgainstComplainer),
{
}

} // verus!
