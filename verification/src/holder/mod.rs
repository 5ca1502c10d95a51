pub mod disclosure;
pub mod proofs;
pub mod session;
pub mod wallet;

use crate::identifiers::AttributeIdentifier;
use crate::iso::mdocs::{DocType, IssuerSigned, IssuerSignedView};
use crate::utils::reader_auth::ReaderRegistration;
use crate::utils::x509::Certificate;
use vstd::prelude::*;

verus! {

/// A credential that the holder keeps: what the issuer signed, and the name
/// under which the private key that belongs to it is kept.
#[derive(Debug)]
pub struct Mdoc {
    pub doc_type: DocType,
    pub private_key_id: String,
    pub issuer_signed: IssuerSigned,
}

/// The mathematical value of an [`Mdoc`].
pub struct MdocView {
    pub doc_type: Seq<char>,
    pub private_key_id: Seq<char>,
    pub issuer_signed: IssuerSignedView,
}

impl View for Mdoc {
    type V = MdocView;

    open spec fn view(&self) -> MdocView {
        MdocView {
            doc_type: self.doc_type@,
            private_key_id: self.private_key_id@,
            issuer_signed: self.issuer_signed@,
        }
    }
}

/// The values of a sequence of credentials.
pub open spec fn mdoc_views(mdocs: Seq<Mdoc>) -> Seq<MdocView> {
    mdocs.map_values(|mdoc: Mdoc| mdoc@)
}

/// The values of credentials in groups.
pub open spec fn group_views(groups: Seq<Vec<Mdoc>>) -> Seq<Seq<MdocView>> {
    groups.map_values(|group: Vec<Mdoc>| mdoc_views(group@))
}

/// Why the holder's store of credentials could not answer.
#[derive(Debug)]
pub struct DataSourceError {
    pub message: String,
}

/// Why a holder turns a verifier's request down.
#[derive(Debug)]
pub enum HolderError {
    /// The verifier's engagement names no address to answer to.
    VerifierUrlMissing,
    /// The verifier's engagement holds no key.
    VerifierEphemeralKeyMissing,
    /// The verifier asks for nothing.
    NoDocumentRequests,
    /// A request is not signed: either all are signed or the verifier is
    /// unknown, and unknown verifiers are not answered.
    ReaderAuthMissing,
    /// The requests are signed with different certificates.
    ReaderAuthsInconsistent,
    /// The verifier's certificate does not say what it is registered for.
    NoReaderRegistration(Certificate),
    /// The verifier asks for attributes that it is not registered for;
    /// these are listed.
    UnregisteredAttributes(Vec<AttributeIdentifier>),
    /// The holder has no credential of this type that it can disclose.
    UnsatisfiableRequest(DocType),
    /// The store of credentials failed.
    MdocDataSource(DataSourceError),
    /// The verifier answered a disclosure with this status in place of an
    /// acknowledgement.
    DisclosureResponse(u64),
    /// More than one credential of these types could serve the request.
    MultipleCandidates(Vec<DocType>),
    /// The holder lacks some of what is asked. The verifier's registration
    /// comes with the missing identifiers, so that the user can be told who
    /// asked for what.
    AttributesNotAvailable {
        reader_registration: Box<ReaderRegistration>,
        missing_attributes: Vec<AttributeIdentifier>,
    },
}

} // verus!
