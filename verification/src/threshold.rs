//! The classic (non-interactive DKG) threshold-signature scheme and its
//! data store.
//!
//! The store maps a key-generation identifier to that generation's combined
//! public coefficients and, where this node is a receiver, its private
//! signing share.  Readers copy what they need out of the store and run the
//! cryptographic computation outside it, so a long combination never holds
//! the store; a caller that shares the store across threads wraps it in a
//! reader-writer lock around these short lookup-and-copy calls.  Signature
//! shares are polynomial evaluations bound to the message digest, and
//! combination interpolates any threshold-plus-one of them at zero with
//! Lagrange weights over the signers' fixed evaluation points.

use vstd::prelude::*;

use crate::errors::ThresholdSigError;
use crate::field::{
    add_elem, all_elems, digest, inv_elem, is_elem, mul_elem, poly_eval, spec_add, spec_digest,
    spec_inv, spec_mul, spec_poly_eval, spec_sub, sub_elem, FIELD_MODULUS,
};
use crate::idkg::{eval_point, find_index, lemma_index_unique, spec_eval_point, strictly_increasing};
use crate::registry::{KeyPurpose, Registry};

verus! {

/// One node's partial threshold signature.
#[derive(Clone, Copy, Debug, PartialEq, Eq, Structural)]
pub struct ThresholdSigShare {
    pub value: u64,
}

/// The combined threshold signature of a key generation.
#[derive(Clone, Copy, Debug, PartialEq, Eq, Structural)]
pub struct CombinedThresholdSig {
    pub value: u64,
}

/// One key generation's material: the committee, the reconstruction
/// threshold, the combined public coefficients, and — where this node is a
/// receiver — its private signing share.
#[derive(Clone, Debug)]
pub struct ThresholdSigData {
    /// The committee, as a strictly increasing identifier list.
    pub committee: Vec<u64>,
    /// The reconstruction threshold R: R+1 shares combine, R reveal nothing.
    pub threshold: usize,
    /// The combined public polynomial, constant term first.
    pub public_coefficients: Vec<u64>,
    /// This node's signing share, if it holds one.
    pub my_share: Option<u64>,
}

#[verifier::ext_equal]
pub ghost struct ThresholdSigDataView {
    pub committee: Seq<u64>,
    pub threshold: int,
    pub public_coefficients: Seq<u64>,
    pub my_share: Option<u64>,
}

impl View for ThresholdSigData {
    type V = ThresholdSigDataView;

    open spec fn view(&self) -> ThresholdSigDataView {
        ThresholdSigDataView {
            committee: self.committee@,
            threshold: self.threshold as int,
            public_coefficients: self.public_coefficients@,
            my_share: self.my_share,
        }
    }
}

impl ThresholdSigDataView {
    pub open spec fn wf(self) -> bool {
        &&& strictly_increasing(self.committee)
        &&& 1 <= self.committee.len()
        &&& self.committee.len() < FIELD_MODULUS
        &&& 0 <= self.threshold
        &&& self.public_coefficients.len() == self.threshold + 1
        &&& all_elems(self.public_coefficients)
        &&& (self.my_share matches Some(s) ==> is_elem(s))
    }
}

/// Copies one generation's data.
pub fn clone_threshold_sig_data(d: &ThresholdSigData) -> (r: ThresholdSigData)
    ensures
        r@ == d@,
{
    ThresholdSigData {
        committee: crate::transcript::clone_vec_u64(&d.committee),
        threshold: d.threshold,
        public_coefficients: crate::transcript::clone_vec_u64(&d.public_coefficients),
        my_share: d.my_share,
    }
}

/// The view of the store's entries.
pub open spec fn entries_view(
    entries: Seq<(u64, ThresholdSigData)>,
) -> Seq<(u64, ThresholdSigDataView)> {
    entries.map_values(|e: (u64, ThresholdSigData)| (e.0, e.1@))
}

/// The data a key-generation identifier maps to: the last entry wins.
pub open spec fn store_lookup(
    entries: Seq<(u64, ThresholdSigDataView)>,
    dkg_id: u64,
) -> Option<ThresholdSigDataView>
    decreases entries.len(),
{
    if entries.len() == 0 {
        None
    } else if entries.last().0 == dkg_id {
        Some(entries.last().1)
    } else {
        store_lookup(entries.drop_last(), dkg_id)
    }
}

/// Every stored entry is well formed.
pub open spec fn store_entries_wf(entries: Seq<(u64, ThresholdSigDataView)>) -> bool {
    forall|i: int| 0 <= i < entries.len() ==> (#[trigger] entries[i]).1.wf()
}

/// A looked-up entry of a well-formed store is well formed.
pub proof fn lemma_store_lookup_wf(entries: Seq<(u64, ThresholdSigDataView)>, dkg_id: u64)
    requires
        store_entries_wf(entries),
    ensures
        match store_lookup(entries, dkg_id) {
            Some(d) => d.wf(),
            None => true,
        },
    decreases entries.len(),
{
    if entries.len() > 0 {
        assert(store_entries_wf(entries.drop_last()));
        lemma_store_lookup_wf(entries.drop_last(), dkg_id);
    }
}

/// The entries that survive removal of one identifier.
pub open spec fn spec_store_removed(
    entries: Seq<(u64, ThresholdSigDataView)>,
    dkg_id: u64,
) -> Seq<(u64, ThresholdSigDataView)>
    decreases entries.len(),
{
    if entries.len() == 0 {
        Seq::empty()
    } else {
        let rest = spec_store_removed(entries.drop_last(), dkg_id);
        if entries.last().0 == dkg_id {
            rest
        } else {
            rest.push(entries.last())
        }
    }
}

/// Removal drops exactly the removed identifier's data.
pub proof fn lemma_store_removed_lookup(
    entries: Seq<(u64, ThresholdSigDataView)>,
    dkg_id: u64,
    q: u64,
)
    ensures
        store_lookup(spec_store_removed(entries, dkg_id), q) == if q == dkg_id {
            None
        } else {
            store_lookup(entries, q)
        },
    decreases entries.len(),
{
    if entries.len() > 0 {
        lemma_store_removed_lookup(entries.drop_last(), dkg_id, q);
        let rest = spec_store_removed(entries.drop_last(), dkg_id);
        if entries.last().0 != dkg_id {
            assert(rest.push(entries.last()).drop_last() =~= rest);
            assert(rest.push(entries.last()).last() == entries.last());
        }
    }
}

proof fn lemma_store_removed_wf(entries: Seq<(u64, ThresholdSigDataView)>, dkg_id: u64)
    requires
        store_entries_wf(entries),
    ensures
        store_entries_wf(spec_store_removed(entries, dkg_id)),
    decreases entries.len(),
{
    if entries.len() > 0 {
        assert(store_entries_wf(entries.drop_last()));
        lemma_store_removed_wf(entries.drop_last(), dkg_id);
    }
}

/// The single-writer, multi-reader map from key-generation identifier to
/// threshold-signature material.  Entries are kept as an append-ordered
/// log in which a later entry for an identifier shadows earlier ones.
pub struct ThresholdSigDataStore {
    entries: Vec<(u64, ThresholdSigData)>,
}

impl ThresholdSigDataStore {
    /// The store's contents.
    pub closed spec fn view(&self) -> Seq<(u64, ThresholdSigDataView)> {
        entries_view(self.entries@)
    }

    pub open spec fn wf(&self) -> bool {
        store_entries_wf(self@)
    }

    /// An empty store.
    pub fn new() -> (r: ThresholdSigDataStore)
        ensures
            r@ == Seq::<(u64, ThresholdSigDataView)>::empty(),
            r.wf(),
    {
        let s = ThresholdSigDataStore { entries: Vec::new() };
        proof {
            assert(s@ =~= Seq::<(u64, ThresholdSigDataView)>::empty());
        }
        s
    }

    /// Records a completed key generation's material; a later record for
    /// the same identifier shadows any earlier one.
    pub fn insert_transcript_data(&mut self, dkg_id: u64, data: ThresholdSigData)
        requires
            old(self).wf(),
            data@.wf(),
        ensures
            final(self).wf(),
            final(self)@ == old(self)@.push((dkg_id, data@)),
            store_lookup(final(self)@, dkg_id) == Some(data@),
            forall|q: u64|
                q != dkg_id ==> #[trigger] store_lookup(final(self)@, q) == store_lookup(
                    old(self)@,
                    q,
                ),
    {
        let ghost pre = self@;
        let ghost dv = data@;
        self.entries.push((dkg_id, data));
        proof {
            assert(self@ =~= pre.push((dkg_id, dv)));
            assert(self@.drop_last() =~= pre);
            assert forall|q: u64| q != dkg_id implies #[trigger] store_lookup(self@, q)
                == store_lookup(pre, q) by {
                assert(self@.drop_last() =~= pre);
            }
        }
    }

    /// Copies one generation's material out of the store, so that the
    /// cryptographic computation runs outside any lock a caller holds
    /// around this lookup.
    pub fn transcript_data(&self, dkg_id: u64) -> (r: Option<ThresholdSigData>)
        ensures
            match r {
                Some(d) => store_lookup(self@, dkg_id) == Some(d@),
                None => store_lookup(self@, dkg_id).is_none(),
            },
    {
        let mut i: usize = self.entries.len();
        proof {
            assert(self@.take(self@.len() as int) =~= self@);
            assert(self@.len() == self.entries@.len());
        }
        while i > 0
            invariant
                i <= self.entries@.len(),
                self@.len() == self.entries@.len(),
                self@ == entries_view(self.entries@),
                store_lookup(self@.take(i as int), dkg_id) == store_lookup(self@, dkg_id),
            decreases i,
        {
            i = i - 1;
            proof {
                assert(self@.take(i as int + 1).drop_last() =~= self@.take(i as int));
                assert(self@.take(i as int + 1).last() == self@[i as int]);
                assert(self@[i as int] == (self.entries@[i as int].0, self.entries@[i as int].1@));
            }
            if self.entries[i].0 == dkg_id {
                return Some(clone_threshold_sig_data(&self.entries[i].1));
            }
        }
        None
    }

    /// Drops one generation's material; entries for other identifiers are
    /// untouched, and removing an absent identifier is no error.
    pub fn remove_transcript_data(&mut self, dkg_id: u64)
        requires
            old(self).wf(),
        ensures
            final(self).wf(),
            final(self)@ == spec_store_removed(old(self)@, dkg_id),
            store_lookup(final(self)@, dkg_id).is_none(),
            forall|q: u64|
                q != dkg_id ==> #[trigger] store_lookup(final(self)@, q) == store_lookup(
                    old(self)@,
                    q,
                ),
    {
        let ghost pre = self@;
        let mut kept: Vec<(u64, ThresholdSigData)> = Vec::new();
        let mut i: usize = 0;
        proof {
            assert(entries_view(kept@) =~= spec_store_removed(pre.take(0), dkg_id));
            assert(pre.take(0) =~= Seq::<(u64, ThresholdSigDataView)>::empty());
        }
        while i < self.entries.len()
            invariant
                i <= self.entries@.len(),
                pre == entries_view(self.entries@),
                pre.len() == self.entries@.len(),
                entries_view(kept@) == spec_store_removed(pre.take(i as int), dkg_id),
            decreases self.entries@.len() - i,
        {
            let ghost kept_pre = entries_view(kept@);
            proof {
                assert(pre[i as int] == (self.entries@[i as int].0, self.entries@[i as int].1@));
            }
            if self.entries[i].0 != dkg_id {
                let entry_id = self.entries[i].0;
                let entry_data = clone_threshold_sig_data(&self.entries[i].1);
                kept.push((entry_id, entry_data));
                proof {
                    assert(entries_view(kept@) =~= kept_pre.push(
                        (pre[i as int].0, pre[i as int].1),
                    ));
                }
            }
            i = i + 1;
            proof {
                assert(pre.take(i as int).drop_last() =~= pre.take(i as int - 1));
                assert(pre.take(i as int).last() == pre[i as int - 1]);
                assert(entries_view(kept@) =~= spec_store_removed(pre.take(i as int), dkg_id));
            }
        }
        proof {
            assert(pre.take(pre.len() as int) =~= pre);
        }
        self.entries = kept;
        proof {
            lemma_store_removed_wf(pre, dkg_id);
            lemma_store_removed_lookup(pre, dkg_id, dkg_id);
            assert forall|q: u64| q != dkg_id implies #[trigger] store_lookup(self@, q)
                == store_lookup(pre, q) by {
                lemma_store_removed_lookup(pre, dkg_id, q);
            }
        }
    }
}

/// Produces this node's partial signature under a key generation: its
/// stored share bound to the message digest.  Fails fast where the store
/// holds no data or no share for the identifier.
pub fn sign_threshold(message: &Vec<u8>, dkg_id: u64, store: &ThresholdSigDataStore) -> (r: Result<
    ThresholdSigShare,
    ThresholdSigError,
>)
    requires
        store.wf(),
    ensures
        match store_lookup(store@, dkg_id) {
            None => r == Err::<ThresholdSigShare, ThresholdSigError>(
                ThresholdSigError::ThresholdSigDataNotFound,
            ),
            Some(d) => match d.my_share {
                None => r == Err::<ThresholdSigShare, ThresholdSigError>(
                    ThresholdSigError::SecretShareNotFound,
                ),
                Some(s) => r == Ok::<ThresholdSigShare, ThresholdSigError>(
                    ThresholdSigShare { value: spec_mul(s, spec_digest(message@)) },
                ),
            },
        },
{
    let data = match store.transcript_data(dkg_id) {
        Some(d) => d,
        None => {
            return Err(ThresholdSigError::ThresholdSigDataNotFound);
        },
    };
    proof {
        lemma_store_lookup_wf(store@, dkg_id);
    }
    let share = match data.my_share {
        Some(s) => s,
        None => {
            return Err(ThresholdSigError::SecretShareNotFound);
        },
    };
    let d = digest(message);
    Ok(ThresholdSigShare { value: mul_elem(share, d) })
}

/// The public check of one partial threshold signature against the
/// committee's public coefficients.
pub fn verify_threshold_sig_share(
    signature: &ThresholdSigShare,
    message: &Vec<u8>,
    dkg_id: u64,
    signer: u64,
    store: &ThresholdSigDataStore,
) -> (r: Result<(), ThresholdSigError>)
    requires
        store.wf(),
    ensures
        match store_lookup(store@, dkg_id) {
            None => r == Err::<(), ThresholdSigError>(ThresholdSigError::ThresholdSigDataNotFound),
            Some(d) => if !d.committee.contains(signer) {
                r == Err::<(), ThresholdSigError>(ThresholdSigError::NotACommitteeMember)
            } else if signature.value == spec_mul(
                spec_poly_eval(
                    d.public_coefficients,
                    spec_eval_point(d.committee.index_of(signer)),
                ),
                spec_digest(message@),
            ) {
                r == Ok::<(), ThresholdSigError>(())
            } else {
                r == Err::<(), ThresholdSigError>(ThresholdSigError::InvalidSigShare)
            },
        },
{
    let data = match store.transcript_data(dkg_id) {
        Some(d) => d,
        None => {
            return Err(ThresholdSigError::ThresholdSigDataNotFound);
        },
    };
    proof {
        lemma_store_lookup_wf(store@, dkg_id);
    }
    let idx = match find_index(&data.committee, signer) {
        Some(i) => i,
        None => {
            return Err(ThresholdSigError::NotACommitteeMember);
        },
    };
    proof {
        lemma_index_unique(data@.committee, idx as int, data@.committee.index_of(signer));
    }
    let d = digest(message);
    let expected = mul_elem(poly_eval(&data.public_coefficients, eval_point(idx)), d);
    if signature.value == expected {
        Ok(())
    } else {
        Err(ThresholdSigError::InvalidSigShare)
    }
}

/// The running Lagrange weight of the point at position `j`, over the
/// first `k` evaluation points: the product of `x_m / (x_m - x_j)` for
/// `m` before `k`, `m != j`.
pub open spec fn spec_weight_partial(xs: Seq<u64>, j: int, k: nat) -> u64
    decreases k,
{
    if k == 0 {
        1u64
    } else {
        let w = spec_weight_partial(xs, j, (k - 1) as nat);
        if k - 1 == j {
            w
        } else {
            spec_mul(w, spec_mul(xs[k - 1], spec_inv(spec_sub(xs[k - 1], xs[j]))))
        }
    }
}

/// The Lagrange weight at zero of the point at position `j`.
pub open spec fn spec_lagrange_weight(xs: Seq<u64>, j: int) -> u64 {
    spec_weight_partial(xs, j, xs.len())
}

/// The interpolation at zero of the first `k` points.
pub open spec fn spec_interp_partial(points: Seq<(u64, u64)>, k: nat) -> u64
    decreases k,
{
    if k == 0 {
        0u64
    } else {
        spec_add(
            spec_interp_partial(points, (k - 1) as nat),
            spec_mul(
                spec_lagrange_weight(points.map_values(|p: (u64, u64)| p.0), k - 1),
                points[k - 1].1,
            ),
        )
    }
}

/// Lagrange interpolation at zero of a set of points: what any
/// threshold-plus-one consistent shares reconstruct.
pub open spec fn spec_interpolate(points: Seq<(u64, u64)>) -> u64 {
    spec_interp_partial(points, points.len())
}

/// All coordinates are reduced field elements.
pub open spec fn points_wf(points: Seq<(u64, u64)>) -> bool {
    forall|i: int|
        0 <= i < points.len() ==> is_elem((#[trigger] points[i]).0) && is_elem(points[i].1)
}

/// Computes the Lagrange weight at zero of the point at position `j`.
fn lagrange_weight(xs: &Vec<u64>, j: usize) -> (r: u64)
    requires
        all_elems(xs@),
        j < xs@.len(),
    ensures
        r == spec_lagrange_weight(xs@, j as int),
        is_elem(r),
{
    let mut w: u64 = 1;
    let mut k: usize = 0;
    while k < xs.len()
        invariant
            k <= xs@.len(),
            all_elems(xs@),
            j < xs@.len(),
            is_elem(w),
            w == spec_weight_partial(xs@, j as int, k as nat),
        decreases xs@.len() - k,
    {
        if k != j {
            w = mul_elem(w, mul_elem(xs[k], inv_elem(sub_elem(xs[k], xs[j]))));
        }
        k = k + 1;
    }
    w
}

/// Interpolates a point set at zero.
fn interpolate_at_zero(points: &Vec<(u64, u64)>) -> (r: u64)
    requires
        points_wf(points@),
    ensures
        r == spec_interpolate(points@),
        is_elem(r),
{
    let ghost xs_spec = points@.map_values(|p: (u64, u64)| p.0);
    let mut xs: Vec<u64> = Vec::new();
    let mut i: usize = 0;
    proof {
        assert(xs@ =~= xs_spec.take(0));
    }
    while i < points.len()
        invariant
            i <= points@.len(),
            points_wf(points@),
            xs_spec == points@.map_values(|p: (u64, u64)| p.0),
            xs_spec.len() == points@.len(),
            xs@ == xs_spec.take(i as int),
        decreases points@.len() - i,
    {
        xs.push(points[i].0);
        i = i + 1;
        proof {
            assert(xs@ =~= xs_spec.take(i as int));
        }
    }
    proof {
        assert(xs_spec.take(xs_spec.len() as int) =~= xs_spec);
        assert forall|m: int| 0 <= m < xs_spec.len() implies is_elem(#[trigger] xs_spec[m]) by {
            assert(is_elem(points@[m].0));
        }
    }
    let mut acc: u64 = 0;
    let mut k: usize = 0;
    while k < points.len()
        invariant
            k <= points@.len(),
            points_wf(points@),
            xs@ == xs_spec,
            xs_spec == points@.map_values(|p: (u64, u64)| p.0),
            xs@.len() == points@.len(),
            all_elems(xs@),
            is_elem(acc),
            acc == spec_interp_partial(points@, k as nat),
        decreases points@.len() - k,
    {
        let w = lagrange_weight(&xs, k);
        proof {
            assert(is_elem(points@[k as int].1));
        }
        acc = add_elem(acc, mul_elem(w, points[k].1));
        k = k + 1;
    }
    acc
}

/// The evaluation points and reduced values of the submitted shares whose
/// signer belongs to the committee, in submission order.
pub open spec fn spec_share_points(
    d: ThresholdSigDataView,
    shares: Seq<(u64, ThresholdSigShare)>,
) -> Seq<(u64, u64)>
    decreases shares.len(),
{
    if shares.len() == 0 {
        Seq::empty()
    } else {
        let rest = spec_share_points(d, shares.drop_last());
        if d.committee.contains(shares.last().0) {
            rest.push(
                (
                    spec_eval_point(d.committee.index_of(shares.last().0)),
                    (shares.last().1.value % (FIELD_MODULUS as u64)) as u64,
                ),
            )
        } else {
            rest
        }
    }
}

/// Combines partial threshold signatures by interpolating any
/// threshold-plus-one of them — the first in signer order — at zero.
/// Fails with a quorum error where fewer committee members' shares than
/// the threshold requires were submitted.
pub fn combine_threshold_sig_shares(
    shares: &Vec<(u64, ThresholdSigShare)>,
    dkg_id: u64,
    store: &ThresholdSigDataStore,
) -> (r: Result<CombinedThresholdSig, ThresholdSigError>)
    requires
        store.wf(),
        strictly_increasing(shares@.map_values(|s: (u64, ThresholdSigShare)| s.0)),
    ensures
        match store_lookup(store@, dkg_id) {
            None => r == Err::<CombinedThresholdSig, ThresholdSigError>(
                ThresholdSigError::ThresholdSigDataNotFound,
            ),
            Some(d) => if spec_share_points(d, shares@).len() >= d.threshold + 1 {
                r == Ok::<CombinedThresholdSig, ThresholdSigError>(
                    CombinedThresholdSig {
                        value: spec_interpolate(
                            spec_share_points(d, shares@).take(d.threshold + 1),
                        ),
                    },
                )
            } else {
                r == Err::<CombinedThresholdSig, ThresholdSigError>(
                    ThresholdSigError::InsufficientSigShares,
                )
            },
        },
{
    let data = match store.transcript_data(dkg_id) {
        Some(d) => d,
        None => {
            return Err(ThresholdSigError::ThresholdSigDataNotFound);
        },
    };
    proof {
        lemma_store_lookup_wf(store@, dkg_id);
    }
    let ghost dv = data@;
    let mut points: Vec<(u64, u64)> = Vec::new();
    let mut i: usize = 0;
    proof {
        assert(shares@.take(0) =~= Seq::<(u64, ThresholdSigShare)>::empty());
        assert(points@ =~= spec_share_points(dv, shares@.take(0)));
    }
    while i < shares.len()
        invariant
            i <= shares@.len(),
            dv == data@,
            dv.wf(),
            points@ == spec_share_points(dv, shares@.take(i as int)),
            points_wf(points@),
        decreases shares@.len() - i,
    {
        let ghost prior = points@;
        let entry = shares[i];
        match find_index(&data.committee, entry.0) {
            Some(idx) => {
                proof {
                    lemma_index_unique(dv.committee, idx as int, dv.committee.index_of(entry.0));
                }
                points.push((eval_point(idx), entry.1.value % FIELD_MODULUS));
                proof {
                    assert(points@ =~= prior.push(
                        (
                            spec_eval_point(dv.committee.index_of(entry.0)),
                            (entry.1.value % (FIELD_MODULUS as u64)) as u64,
                        ),
                    ));
                }
            },
            None => {},
        }
        i = i + 1;
        proof {
            assert(shares@.take(i as int).drop_last() =~= shares@.take(i as int - 1));
            assert(shares@.take(i as int).last() == shares@[i as int - 1]);
        }
    }
    proof {
        assert(shares@.take(shares@.len() as int) =~= shares@);
    }
    if points.len() <= data.threshold {
        return Err(ThresholdSigError::InsufficientSigShares);
    }
    let ghost all_points = points@;
    let mut selected: Vec<(u64, u64)> = Vec::new();
    let mut k: usize = 0;
    proof {
        assert(selected@ =~= all_points.take(0));
    }
    while k <= data.threshold
        invariant
            data.threshold < usize::MAX,
            k <= data@.threshold + 1,
            dv == data@,
            dv.wf(),
            all_points == points@,
            points@.len() >= dv.threshold + 1,
            points_wf(points@),
            selected@ == all_points.take(k as int),
        decreases data.threshold + 1 - k,
    {
        selected.push(points[k]);
        k = k + 1;
        proof {
            assert(selected@ =~= all_points.take(k as int));
        }
    }
    proof {
        assert(points_wf(selected@)) by {
            assert forall|m: int| 0 <= m < selected@.len() implies is_elem(
                (#[trigger] selected@[m]).0,
            ) && is_elem(selected@[m].1) by {
                assert(selected@[m] == all_points[m]);
            }
        }
    }
    let value = interpolate_at_zero(&selected);
    Ok(CombinedThresholdSig { value })
}

/// The public check of a combined threshold signature against the stored
/// public coefficients.
pub fn verify_threshold_sig_combined(
    signature: &CombinedThresholdSig,
    message: &Vec<u8>,
    dkg_id: u64,
    store: &ThresholdSigDataStore,
) -> (r: Result<(), ThresholdSigError>)
    requires
        store.wf(),
    ensures
        match store_lookup(store@, dkg_id) {
            None => r == Err::<(), ThresholdSigError>(ThresholdSigError::ThresholdSigDataNotFound),
            Some(d) => if signature.value == spec_mul(
                d.public_coefficients[0],
                spec_digest(message@),
            ) {
                r == Ok::<(), ThresholdSigError>(())
            } else {
                r == Err::<(), ThresholdSigError>(ThresholdSigError::InvalidSignature)
            },
        },
{
    let data = match store.transcript_data(dkg_id) {
        Some(d) => d,
        None => {
            return Err(ThresholdSigError::ThresholdSigDataNotFound);
        },
    };
    proof {
        lemma_store_lookup_wf(store@, dkg_id);
        assert(is_elem(data@.public_coefficients[0]));
    }
    let d = digest(message);
    let expected = mul_elem(data.public_coefficients[0], d);
    if signature.value == expected {
        Ok(())
    } else {
        Err(ThresholdSigError::InvalidSignature)
    }
}

/// Verifies a combined threshold signature of a whole subnet against the
/// subnet's registered public key: the check a party outside the
/// committee runs, with the directory as its only input.
pub fn verify_combined_threshold_sig_by_public_key(
    signature: &CombinedThresholdSig,
    message: &Vec<u8>,
    subnet_id: u64,
    registry: &Registry,
    registry_version: u64,
) -> (r: Result<(), ThresholdSigError>)
    requires
        registry.wf(),
    ensures
        match crate::registry::spec_lookup(
            registry@,
            subnet_id,
            KeyPurpose::ThresholdSigning,
            registry_version,
        ) {
            None => r == Err::<(), ThresholdSigError>(ThresholdSigError::PublicKeyNotFound),
            Some(key) => if signature.value == spec_mul(key, spec_digest(message@)) {
                r == Ok::<(), ThresholdSigError>(())
            } else {
                r == Err::<(), ThresholdSigError>(ThresholdSigError::InvalidSignature)
            },
        },
{
    let key = match registry.get_public_key(
        subnet_id,
        KeyPurpose::ThresholdSigning,
        registry_version,
    ) {
        Some(k) => k,
        None => {
            return Err(ThresholdSigError::PublicKeyNotFound);
        },
    };
    proof {
        crate::registry::lemma_lookup_is_elem(
            registry@,
            subnet_id,
            KeyPurpose::ThresholdSigning,
            registry_version,
        );
    }
    let d = digest(message);
    let expected = mul_elem(key, d);
    if signature.value == expected {
        Ok(())
    } else {
        Err(ThresholdSigError::InvalidSignature)
    }
}

} // verus!
