//! The versioned public-key directory.
//!
//! A read-only, versioned map from `(subject, key purpose, version)` to a
//! public key.  Lookups are deterministic functions of the directory's
//! contents: a query at version `v` answers with the most recently added
//! record for the subject and purpose whose version is at most `v`.  A
//! missing key is the caller's verification-precondition error, reported
//! as such and never conflated with a cryptographic failure.

use vstd::prelude::*;

use crate::field::is_elem;

verus! {

/// What a registered public key is used for.
#[derive(Clone, Copy, Debug, PartialEq, Eq, Structural)]
pub enum KeyPurpose {
    /// Ordinary message signing by a node.
    NodeSigning,
    /// Committee (multi-)signing by a node.
    CommitteeSigning,
    /// Dealing encryption of the non-interactive DKG.
    DkgDealingEncryption,
    /// Dealing encryption of the interactive DKG.
    IDkgMEGaEncryption,
    /// The node's TLS certificate.
    TlsCertificate,
    /// The combined threshold-signing key of a whole subnet.
    ThresholdSigning,
}

/// One directory entry.
#[derive(Clone, Copy, Debug, PartialEq, Eq, Structural)]
pub struct RegistryRecord {
    /// The node (or, for [`KeyPurpose::ThresholdSigning`], subnet) the key
    /// belongs to.
    pub subject: u64,
    pub purpose: KeyPurpose,
    /// The directory version from which this record is visible.
    pub version: u64,
    pub key: u64,
}

/// The most recently added record for `subject` and `purpose` visible at
/// `version`, scanning from the end of the record list.
pub open spec fn spec_lookup(
    records: Seq<RegistryRecord>,
    subject: u64,
    purpose: KeyPurpose,
    version: u64,
) -> Option<u64>
    decreases records.len(),
{
    if records.len() == 0 {
        None
    } else {
        let last = records.last();
        if last.subject == subject && last.purpose == purpose && last.version <= version {
            Some(last.key)
        } else {
            spec_lookup(records.drop_last(), subject, purpose, version)
        }
    }
}

/// Every key a directory may hand out is a reduced field element.
pub open spec fn records_wf(records: Seq<RegistryRecord>) -> bool {
    forall|i: int| 0 <= i < records.len() ==> is_elem(#[trigger] records[i].key)
}

/// A successful lookup in a well-formed directory yields a field element.
pub proof fn lemma_lookup_is_elem(
    records: Seq<RegistryRecord>,
    subject: u64,
    purpose: KeyPurpose,
    version: u64,
)
    requires
        records_wf(records),
    ensures
        match spec_lookup(records, subject, purpose, version) {
            Some(k) => is_elem(k),
            None => true,
        },
    decreases records.len(),
{
    if records.len() > 0 {
        assert(records_wf(records.drop_last()));
        lemma_lookup_is_elem(records.drop_last(), subject, purpose, version);
    }
}

/// The public-key directory.
pub struct Registry {
    records: Vec<RegistryRecord>,
}

impl Registry {
    /// The directory's contents, in order of addition.
    pub closed spec fn view(&self) -> Seq<RegistryRecord> {
        self.records@
    }

    pub open spec fn wf(&self) -> bool {
        records_wf(self@)
    }

    /// An empty directory.
    pub fn new() -> (r: Registry)
        ensures
            r@ == Seq::<RegistryRecord>::empty(),
            r.wf(),
    {
        Registry { records: Vec::new() }
    }

    /// Adds a record; later additions shadow earlier ones for the same
    /// subject, purpose and version range.
    pub fn add(&mut self, subject: u64, purpose: KeyPurpose, version: u64, key: u64)
        requires
            old(self).wf(),
            is_elem(key),
        ensures
            final(self)@ == old(self)@.push(
                RegistryRecord { subject, purpose, version, key },
            ),
            final(self).wf(),
    {
        self.records.push(RegistryRecord { subject, purpose, version, key });
    }

    /// Looks a public key up; `None` where no record is visible at the
    /// version.
    pub fn get_public_key(&self, subject: u64, purpose: KeyPurpose, version: u64) -> (r: Option<
        u64,
    >)
        ensures
            r == spec_lookup(self@, subject, purpose, version),
    {
        let mut i: usize = self.records.len();
        proof {
            assert(self@.take(self@.len() as int) =~= self@);
        }
        while i > 0
            invariant
                i <= self.records.len(),
                spec_lookup(self@.take(i as int), subject, purpose, version) == spec_lookup(
                    self@,
                    subject,
                    purpose,
                    version,
                ),
            decreases i,
        {
            i = i - 1;
            let rec = self.records[i];
            proof {
                assert(self@.take(i as int + 1).drop_last() =~= self@.take(i as int));
                assert(self@.take(i as int + 1).last() == self@[i as int]);
            }
            if rec.subject == subject && rec.purpose == purpose && rec.version <= version {
                return Some(rec.key);
            }
        }
        None
    }
}

} // verus!
