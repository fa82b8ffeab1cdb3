//! Core of a committee-operated threshold-cryptography subsystem.
//!
//! A committee of nodes jointly holds a secret signing key of which no single
//! node ever possesses the whole, and produces publicly verifiable signatures
//! that tolerate a bounded number of faulty participants.  The crate covers:
//!
//! * the interactive distributed key generation (IDKG) protocol: dealing
//!   creation and verification, transcript construction, the complaint and
//!   opening accountability sub-protocol, and transcript retention;
//! * the threshold-ECDSA signing protocol built atop completed IDKG
//!   transcripts: per-node signature shares, their verification, and their
//!   combination into one signature;
//! * the secret-vault boundary that keeps private key material behind a
//!   narrow request/response surface carrying only public data;
//! * the data store of the classic (non-interactive DKG) threshold scheme.
//!
//! Group elements, commitments and signatures are modelled as arithmetic over
//! a fixed prime field (`field`): a polynomial commitment is the coefficient
//! vector itself, perfectly binding though not hiding, so every public check
//! of the protocol is an exact arithmetic statement.  The underlying curve
//! arithmetic of a deployment is outside this crate.

pub mod complaints;
pub mod ecdsa;
pub mod errors;
pub mod field;
pub mod keys;
pub mod idkg;
pub mod logfmt;
pub mod registry;
pub mod threshold;
pub mod transcript;
pub mod vault;
