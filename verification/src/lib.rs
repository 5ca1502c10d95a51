//! The holder's side of disclosing attributes of mobile documents (ISO
//! 18013-5) to a verifier.
//!
//! A session starts from a verifier's engagement. The holder answers with its
//! own, both derive the keys of the session from the two engagements, and the
//! verifier sends its request. The holder checks who signed the request and
//! what the signer is registered for, matches the request against the
//! credentials that it holds, and proposes a disclosure that holds exactly
//! what is asked. Once the user agrees, the holder signs the proposal and
//! sends it.
//!
//! * [`iso`] holds the messages and how they are written as CBOR.
//! * [`holder`] holds the matching, the checks and the session.
//! * [`utils`] holds CBOR, JSON, COSE, certificates and cryptography, each on
//!   top of the crate that does the work.
//! * [`models`] holds what a user interface is told.
//! * [`lock`] holds the locked state of a wallet.

pub mod error;
pub mod holder;
pub mod identifier_set;
pub mod identifiers;
pub mod iso;
pub mod lock;
pub mod models;
pub mod utils;
