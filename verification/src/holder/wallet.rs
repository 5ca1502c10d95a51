//! Disclosing credentials to a verifier whose request is at hand.

use crate::error::Error;
use crate::holder::{HolderError, Mdoc};
use crate::iso::device_retrieval::{
    DataElements, DeviceRequest, DocRequest, IndentToRetain, ItemsRequest, NameSpaces,
};
use crate::iso::disclosure::{
    device_authentication_challenge, signing_input, DeviceAuthentication, DeviceResponse,
    DeviceResponseVersion, DeviceSigned, Document, KeyFactory, MdocEcdsaKey, SigningError,
};
use crate::iso::engagement::SessionTranscript;
use crate::utils::cbor::Cbor;
use crate::iso::mdocs::{
    item_views, name_space_views, Attributes, DataElementIdentifier, IssuerNameSpaces,
    IssuerSigned, IssuerSignedItem, ItemView, NameSpace, NameSpacesView,
};
use vstd::prelude::*;

verus! {

/// Whether the attribute `name` is among `elements`.
pub open spec fn element_requested(
    elements: Seq<(DataElementIdentifier, IndentToRetain)>,
    name: Seq<char>,
) -> bool {
    exists|k: int| 0 <= k < elements.len() && (#[trigger] elements[k]).0@ == name
}

/// The test whether an attribute is among `elements`.
pub open spec fn is_requested_item(
    elements: Seq<(DataElementIdentifier, IndentToRetain)>,
) -> spec_fn(ItemView) -> bool {
    |item: ItemView| element_requested(elements, item.element_identifier)
}

/// The attributes among `items` that `elements` ask for, in their order.
pub open spec fn disclosed_items(
    items: Seq<ItemView>,
    elements: Seq<(DataElementIdentifier, IndentToRetain)>,
) -> Seq<ItemView> {
    items.filter(is_requested_item(elements))
}

/// What a request asks of the namespace `name_space`: the attributes of the
/// first entry for it, if there is one.
pub open spec fn requested_of_name_space(
    requested: Seq<(NameSpace, DataElements)>,
    name_space: Seq<char>,
) -> Option<Seq<(DataElementIdentifier, IndentToRetain)>>
    decreases requested.len(),
{
    if requested.len() == 0 {
        None
    } else if requested[0].0@ == name_space {
        Some(requested[0].1@)
    } else {
        requested_of_name_space(requested.skip(1), name_space)
    }
}

/// The test whether a request asks anything of a namespace.
pub open spec fn is_requested_name_space(requested: Seq<(NameSpace, DataElements)>) -> spec_fn(
    (Seq<char>, Seq<ItemView>),
) -> bool {
    |entry: (Seq<char>, Seq<ItemView>)| requested_of_name_space(requested, entry.0) is Some
}

/// A namespace cut down to what a request asks of it.
pub open spec fn disclose_name_space(requested: Seq<(NameSpace, DataElements)>) -> spec_fn(
    (Seq<char>, Seq<ItemView>),
) -> (Seq<char>, Seq<ItemView>) {
    |entry: (Seq<char>, Seq<ItemView>)|
        (entry.0, disclosed_items(entry.1, requested_of_name_space(requested, entry.0)->0))
}

/// The namespaces that a request asks of, each cut down to the attributes
/// that the request asks of it, in the order of the credential. A namespace
/// of which the request asks only what is not there stays, empty.
pub open spec fn disclosed_name_spaces(
    name_spaces: NameSpacesView,
    requested: Seq<(NameSpace, DataElements)>,
) -> NameSpacesView {
    name_spaces.filter(is_requested_name_space(requested)).map_values(
        disclose_name_space(requested),
    )
}

/// Whether the attribute `name` is among `elements`.
pub fn contains_element(elements: &DataElements, name: &String) -> (found: bool)
    ensures
        found == element_requested(elements@, name@),
{
    let mut k: usize = 0;
    while k < elements.len()
        invariant
            k <= elements.len(),
            forall|c: int| 0 <= c < k ==> (#[trigger] elements[c]).0@ != name@,
        decreases elements.len() - k,
    {
        if elements[k].0 == *name {
            return true;
        }
        k += 1;
    }
    false
}

/// Finds [`requested_of_name_space`].
pub fn find_name_space<'a>(requested: &'a NameSpaces, name_space: &String) -> (found: Option<
    &'a DataElements,
>)
    ensures
        match found {
            Some(elements) => requested_of_name_space(requested@, name_space@) == Some(elements@),
            None => requested_of_name_space(requested@, name_space@) is None,
        },
{
    let mut i: usize = 0;
    assert(requested@.skip(0) =~= requested@);
    while i < requested.len()
        invariant
            i <= requested.len(),
            requested_of_name_space(requested@, name_space@) == requested_of_name_space(
                requested@.skip(i as int),
                name_space@,
            ),
        decreases requested.len() - i,
    {
        proof {
            assert(requested@.skip(i as int)[0] == requested@[i as int]);
            assert(requested@.skip(i as int).skip(1) =~= requested@.skip(i + 1));
        }
        if requested[i].0 == *name_space {
            return Some(&requested[i].1);
        }
        i += 1;
    }
    None
}

/// A copy of `attributes` that holds only what `requested` asks for.
pub fn filter(attributes: &Attributes, requested: &DataElements) -> (kept: Attributes)
    ensures
        item_views(kept@) == disclosed_items(item_views(attributes@), requested@),
{
    let ghost items = item_views(attributes@);
    let ghost wanted = is_requested_item(requested@);
    let mut kept: Vec<IssuerSignedItem> = Vec::new();
    let mut j: usize = 0;
    proof {
        reveal(Seq::filter);
        assert(items.take(0).filter(wanted) =~= Seq::<ItemView>::empty());
        assert(item_views(kept@) =~= Seq::<ItemView>::empty());
    }
    while j < attributes.len()
        invariant
            j <= attributes.len(),
            items == item_views(attributes@),
            wanted == is_requested_item(requested@),
            item_views(kept@) == items.take(j as int).filter(wanted),
        decreases attributes.len() - j,
    {
        proof {
            items.lemma_take_succ_push(j as int);
            items.take(j as int).lemma_filter_push(items[j as int], wanted);
        }
        if contains_element(requested, &attributes[j].element_identifier) {
            let copy = attributes[j].clone();
            proof {
                kept@.lemma_push_map_commute(|item: IssuerSignedItem| item@, copy);
            }
            kept.push(copy);
        }
        j += 1;
    }
    proof {
        items.lemma_take_len();
    }
    kept
}

/// The namespaces of a credential that a request asks of, cut down to what
/// it asks.
pub fn disclose_name_spaces(name_spaces: &IssuerNameSpaces, requested: &NameSpaces) -> (disclosed:
    IssuerNameSpaces)
    ensures
        name_space_views(disclosed@) == disclosed_name_spaces(
            name_space_views(name_spaces@),
            requested@,
        ),
{
    let ghost entries = name_space_views(name_spaces@);
    let ghost asked = is_requested_name_space(requested@);
    let ghost cut = disclose_name_space(requested@);
    let mut disclosed: IssuerNameSpaces = Vec::new();
    let mut i: usize = 0;
    proof {
        reveal(Seq::filter);
        assert(entries.take(0).filter(asked).map_values(cut) =~= Seq::<
            (Seq<char>, Seq<ItemView>),
        >::empty());
        assert(name_space_views(disclosed@) =~= Seq::<(Seq<char>, Seq<ItemView>)>::empty());
    }
    while i < name_spaces.len()
        invariant
            i <= name_spaces.len(),
            entries == name_space_views(name_spaces@),
            asked == is_requested_name_space(requested@),
            cut == disclose_name_space(requested@),
            name_space_views(disclosed@) == entries.take(i as int).filter(asked).map_values(cut),
        decreases name_spaces.len() - i,
    {
        proof {
            entries.lemma_take_succ_push(i as int);
            entries.take(i as int).lemma_filter_push(entries[i as int], asked);
            entries.take(i as int).filter(asked).lemma_push_map_commute(cut, entries[i as int]);
            assert(entries[i as int] == (name_spaces[i as int].0@, item_views(name_spaces[i as int].1@)));
        }
        match find_name_space(requested, &name_spaces[i].0) {
            Some(elements) => {
                let entry = (name_spaces[i].0.clone(), filter(&name_spaces[i].1, elements));
                proof {
                    disclosed@.lemma_push_map_commute(
                        |entry: (NameSpace, Attributes)| (entry.0@, item_views(entry.1@)),
                        entry,
                    );
                }
                disclosed.push(entry);
            },
            None => {},
        }
        i += 1;
    }
    proof {
        entries.lemma_take_len();
    }
    disclosed
}

/// Whether `document` discloses of the credential `mdoc` what
/// `items_request` asks, in the session of `transcript`: the type is the
/// requested one, the attributes are the requested ones among those of
/// the credential, what the issuer signed over them is the credential's,
/// and the holder's proof wraps a signature that the credential's key, as
/// `key_factory` finds it, gave over the signing input of the challenge
/// for the transcript and the credential's type.
pub open spec fn is_disclosure_of<KF: KeyFactory>(
    key_factory: &KF,
    mdoc: &Mdoc,
    items_request: &ItemsRequest,
    transcript: Cbor,
    document: Document,
) -> bool {
    &&& document.doc_type@ == items_request.doc_type@
    &&& document.issuer_signed@.name_spaces == Some(
        disclosed_name_spaces(mdoc.issuer_signed@.name_spaces->0, items_request.name_spaces@),
    )
    &&& document.issuer_signed@.issuer_auth == mdoc.issuer_signed@.issuer_auth
    &&& document.errors is None
    &&& document.device_signed.device_auth is DeviceSignature
    &&& exists|key: KF::Key, signature: Seq<u8>|
        {
            &&& #[trigger] key_factory.finds(mdoc.private_key_id@, key)
            &&& #[trigger] key.signs(
                signing_input(device_authentication_challenge(transcript, mdoc.doc_type@)),
                signature,
            )
            &&& document.device_signed.wraps(signature)
        }
}

/// Whether the key of the credential `mdoc`, as `key_factory` finds it,
/// refused with `error` to sign the signing input of the challenge for the
/// transcript and the credential's type.
pub open spec fn is_refused_disclosure<KF: KeyFactory>(
    key_factory: &KF,
    mdoc: &Mdoc,
    transcript: Cbor,
    error: SigningError,
) -> bool {
    exists|key: KF::Key|
        {
            &&& #[trigger] key_factory.finds(mdoc.private_key_id@, key)
            &&& key.refuses(
                signing_input(device_authentication_challenge(transcript, mdoc.doc_type@)),
                error,
            )
        }
}

/// Whether `document` is what comes of disclosing of the credential
/// `mdoc` what `items_request` asks: the disclosure with the key's
/// signature, or the key's refusal.
pub open spec fn disclosure_of_credential<KF: KeyFactory>(
    key_factory: &KF,
    mdoc: &Mdoc,
    items_request: &ItemsRequest,
    transcript: Cbor,
    document: Result<Document, Error>,
) -> bool {
    match document {
        Ok(document) => is_disclosure_of(key_factory, mdoc, items_request, transcript, document),
        Err(Error::Signing(error)) => is_refused_disclosure(key_factory, mdoc, transcript, error),
        Err(_) => false,
    }
}

impl Mdoc {
    /// Discloses of this credential what a request asks of it, with the
    /// holder's signature for the session. The credential must have
    /// namespaces. Whether the key signs is up to the key: what comes back
    /// is the disclosure with the key's signature, or the key's refusal.
    pub fn disclose_document<KF: KeyFactory>(
        &self,
        items_request: &ItemsRequest,
        session_transcript: &SessionTranscript,
        key_factory: &KF,
    ) -> (document: Result<Document, Error>)
        requires
            self.issuer_signed.name_spaces is Some,
        ensures
            disclosure_of_credential(
                key_factory,
                self,
                items_request,
                session_transcript.to_cbor(),
                document,
            ),
    {
        let disclosed_namespaces = match &self.issuer_signed.name_spaces {
            Some(name_spaces) => disclose_name_spaces(name_spaces, &items_request.name_spaces),
            None => Vec::new(),
        };
        let challenge = DeviceAuthentication::from_session_transcript(
            session_transcript.duplicate(),
            self.doc_type.clone(),
        ).to_bytes();
        let private_key = key_factory.generate_existing(&self.private_key_id);
        let device_signed = match DeviceSigned::new_signature(&private_key, &challenge) {
            Ok(device_signed) => device_signed,
            Err(error) => { return Err(Error::Signing(error)); },
        };
        Ok(
            Document {
                doc_type: items_request.doc_type.clone(),
                issuer_signed: IssuerSigned {
                    name_spaces: Some(disclosed_namespaces),
                    issuer_auth: self.issuer_signed.issuer_auth.clone(),
                },
                device_signed,
                errors: None,
            },
        )
    }
}

/// The copies of one credential that the holder keeps. There is at least
/// one.
pub struct MdocCopies {
    cred_copies: Vec<Mdoc>,
}

impl MdocCopies {
    /// The copies.
    pub closed spec fn copies(&self) -> Seq<Mdoc> {
        self.cred_copies@
    }

    #[verifier::type_invariant]
    spec fn holds_one(&self) -> bool {
        self.cred_copies.len() > 0
    }

    /// The copies of a credential; nothing where there is none.
    pub fn new(cred_copies: Vec<Mdoc>) -> (copies: Option<Self>)
        ensures
            match copies {
                Some(copies) => cred_copies.len() > 0 && copies.copies() == cred_copies@,
                None => cred_copies.len() == 0,
            },
    {
        if cred_copies.len() > 0 {
            Some(MdocCopies { cred_copies })
        } else {
            None
        }
    }

    /// The first copy.
    pub fn first(&self) -> (mdoc: &Mdoc)
        ensures
            self.copies().len() > 0,
            *mdoc == self.copies()[0],
    {
        proof {
            use_type_invariant(self);
        }
        &self.cred_copies[0]
    }
}

/// Finds the credentials of the holder by their type.
pub trait MdocRetriever {
    /// Whether `found` is what the holder has of type `doc_type`. What
    /// this means is up to the one who implements it.
    open spec fn holds(&self, doc_type: Seq<char>, found: Option<Vec<MdocCopies>>) -> bool {
        true
    }

    /// The credentials of type `doc_type`, if the holder has any.
    fn get(&self, doc_type: &String) -> (found: Option<Vec<MdocCopies>>)
        ensures
            self.holds(doc_type@, found),
    ;
}

/// The credential that is disclosed out of what the holder has of a type:
/// the first copy of the first credential, if it has namespaces.
pub open spec fn credential_to_disclose(found: Option<Vec<MdocCopies>>) -> Option<Mdoc> {
    match found {
        Some(credentials) => if credentials.len() > 0 && credentials[0].copies().len() > 0
            && credentials[0].copies()[0].issuer_signed.name_spaces is Some {
            Some(credentials[0].copies()[0])
        } else {
            None
        },
        None => None,
    }
}

/// Whether `document` is what comes of serving `doc_request` out of
/// `found`: where no credential can be disclosed, the error that says that
/// the request for this type cannot be satisfied; otherwise what comes of
/// disclosing that credential.
pub open spec fn document_outcome<KF: KeyFactory>(
    key_factory: &KF,
    found: Option<Vec<MdocCopies>>,
    doc_request: &DocRequest,
    transcript: Cbor,
    document: Result<Document, Error>,
) -> bool {
    match credential_to_disclose(found) {
        None => document matches Err(Error::Holder(HolderError::UnsatisfiableRequest(doc_type)))
            && doc_type@ == doc_request.items_request.doc_type@,
        Some(mdoc) => disclosure_of_credential(
            key_factory,
            &mdoc,
            &doc_request.items_request,
            transcript,
            document,
        ),
    }
}

/// Whether `document` is what comes of serving `doc_request` out of what
/// `mdoc_retriever` has of the requested type.
pub open spec fn request_outcome<KF: KeyFactory, R: MdocRetriever>(
    key_factory: &KF,
    mdoc_retriever: &R,
    doc_request: &DocRequest,
    transcript: Cbor,
    document: Result<Document, Error>,
) -> bool {
    exists|found: Option<Vec<MdocCopies>>|
        {
            &&& #[trigger] mdoc_retriever.holds(doc_request.items_request.doc_type@, found)
            &&& document_outcome(key_factory, found, doc_request, transcript, document)
        }
}

/// Whether `documents` serve the first of `doc_requests`, one for one and
/// in order, each out of what `mdoc_retriever` has of the requested type.
pub open spec fn serves_requests<KF: KeyFactory, R: MdocRetriever>(
    key_factory: &KF,
    mdoc_retriever: &R,
    doc_requests: Seq<DocRequest>,
    transcript: Cbor,
    documents: Seq<Document>,
) -> bool {
    &&& documents.len() <= doc_requests.len()
    &&& forall|k: int|
        0 <= k < documents.len() ==> request_outcome(
            key_factory,
            mdoc_retriever,
            &doc_requests[k],
            transcript,
            Ok(#[trigger] documents[k]),
        )
}

/// Serves one request out of what the holder has of the requested type:
/// discloses of the first copy of the first credential. Where there is
/// none, or it has no namespaces, the request cannot be satisfied.
pub fn disclose_found<KF: KeyFactory>(
    found: Option<Vec<MdocCopies>>,
    doc_request: &DocRequest,
    session_transcript: &SessionTranscript,
    key_factory: &KF,
) -> (document: Result<Document, Error>)
    ensures
        document_outcome(key_factory, found, doc_request, session_transcript.to_cbor(), document),
{
    let items_request = &doc_request.items_request;
    let creds = match found {
        Some(creds) => creds,
        None => {
            return Err(
                Error::Holder(HolderError::UnsatisfiableRequest(items_request.doc_type.clone())),
            );
        },
    };
    if creds.len() == 0 {
        return Err(
            Error::Holder(HolderError::UnsatisfiableRequest(items_request.doc_type.clone())),
        );
    }
    let cred = creds[0].first();
    if cred.issuer_signed.name_spaces.is_none() {
        return Err(
            Error::Holder(HolderError::UnsatisfiableRequest(items_request.doc_type.clone())),
        );
    }
    cred.disclose_document(items_request, session_transcript, key_factory)
}

/// A holder that discloses what a verifier asks without further ado: of
/// each type the first credential that it has.
pub struct Wallet<H> {
    pub client: H,
}

impl<H> Wallet<H> {
    pub fn new(client: H) -> (wallet: Self)
        ensures
            wallet.client == client,
    {
        Wallet { client }
    }

    /// Discloses what one request asks: of the first credential of the
    /// type that the holder has. Where the holder has none, or has one
    /// without namespaces, the request cannot be satisfied.
    pub fn disclose_document<KF: KeyFactory, R: MdocRetriever>(
        &self,
        doc_request: &DocRequest,
        session_transcript: &SessionTranscript,
        key_factory: &KF,
        mdoc_retriever: &R,
    ) -> (document: Result<Document, Error>)
        ensures
            request_outcome(
                key_factory,
                mdoc_retriever,
                doc_request,
                session_transcript.to_cbor(),
                document,
            ),
    {
        let found = mdoc_retriever.get(&doc_request.items_request.doc_type);
        disclose_found(found, doc_request, session_transcript, key_factory)
    }

    /// Discloses what a verifier asks: one document for each request, in
    /// order, each out of what the holder has of the requested type, in a
    /// response with version 1.0 and status 0. The first request that
    /// cannot be served ends this, with its error.
    pub fn disclose<KF: KeyFactory, R: MdocRetriever>(
        &self,
        device_request: &DeviceRequest,
        session_transcript: &SessionTranscript,
        key_factory: &KF,
        mdoc_retriever: &R,
    ) -> (response: Result<DeviceResponse, Error>)
        ensures
            match response {
                Ok(response) => {
                    &&& response.version == DeviceResponseVersion::V1_0
                    &&& response.status == 0
                    &&& response.document_errors is None
                    &&& response.documents is Some
                    &&& response.documents->0.len() == device_request.doc_requests.len()
                    &&& serves_requests(
                        key_factory,
                        mdoc_retriever,
                        device_request.doc_requests@,
                        session_transcript.to_cbor(),
                        response.documents->0@,
                    )
                },
                Err(error) => exists|documents: Seq<Document>|
                    {
                        let i = documents.len() as int;
                        &&& i < device_request.doc_requests.len()
                        &&& #[trigger] serves_requests(
                            key_factory,
                            mdoc_retriever,
                            device_request.doc_requests@,
                            session_transcript.to_cbor(),
                            documents,
                        )
                        &&& request_outcome(
                            key_factory,
                            mdoc_retriever,
                            &device_request.doc_requests[i],
                            session_transcript.to_cbor(),
                            Err(error),
                        )
                    },
            },
    {
        let mut docs: Vec<Document> = Vec::new();
        let mut i: usize = 0;
        while i < device_request.doc_requests.len()
            invariant
                i <= device_request.doc_requests.len(),
                docs.len() == i,
                serves_requests(
                    key_factory,
                    mdoc_retriever,
                    device_request.doc_requests@,
                    session_transcript.to_cbor(),
                    docs@,
                ),
            decreases device_request.doc_requests.len() - i,
        {
            let ghost served = docs@;
            match self.disclose_document(
                &device_request.doc_requests[i],
                session_transcript,
                key_factory,
                mdoc_retriever,
            ) {
                Ok(document) => {
                    docs.push(document);
                    proof {
                        assert forall|k: int| 0 <= k < docs.len() implies request_outcome(
                            key_factory,
                            mdoc_retriever,
                            &device_request.doc_requests[k],
                            session_transcript.to_cbor(),
                            Ok(#[trigger] docs[k]),
                        ) by {
                            if k < i {
                                assert(docs[k] == served[k]);
                            }
                        }
                    }
                },
                Err(error) => { return Err(error); },
            }
            i += 1;
        }
        Ok(DeviceResponse::new(docs))
    }
}

} // verus!
