//! The errors of this library.

use crate::holder::HolderError;
use crate::iso::disclosure::SigningError;
use crate::utils::cose::CoseError;
use crate::utils::crypto::CryptoError;
use crate::utils::x509::CertificateError;
use vstd::prelude::*;

verus! {

/// Why bytes are not the message that they should be, or a message has no
/// bytes.
#[derive(Debug, Clone, Copy, PartialEq, Eq)]
pub enum CborError {
    /// The bytes are not well-formed CBOR, or hold what this library cannot
    /// hold.
    Decoding,
    /// The data item is not the message that was expected.
    UnexpectedItem,
    /// The message holds an integer that CBOR cannot encode.
    Encoding,
}

/// Why a message could not be exchanged with the verifier.
#[derive(Debug)]
pub struct TransportError {
    pub message: String,
}

/// Everything that can go wrong in this library.
#[derive(Debug)]
pub enum Error {
    Cbor(CborError),
    Cose(CoseError),
    Crypto(CryptoError),
    Certificate(CertificateError),
    Holder(HolderError),
    Http(TransportError),
    /// A key of the holder did not sign.
    Signing(SigningError),
}

} // verus!
