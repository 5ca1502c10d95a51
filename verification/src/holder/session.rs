//! Setting a session up with a verifier.

use crate::error::{CborError, Error, TransportError};
use crate::holder::{group_views, DataSourceError, HolderError, Mdoc, MdocView};
use crate::holder::disclosure::{
    all_proposals, ambiguous_types, groups_well_formed, match_result, proposal_views,
    select_proposals, DeviceRequestMatch, DeviceRequestMatchView, ProposedDocument,
    ProposedDocumentView,
};
use crate::holder::proofs::{
    lemma_one_proposal_per_type, lemma_proposals_well_formed, one_proposal_per_type,
    proposals_well_formed,
};
use crate::identifiers::{identifier_views, AttributeIdentifier};
use crate::iso::device_retrieval::{lemma_distinct_no_duplicates, string_views, DeviceRequest};
use crate::iso::disclosure::{
    device_response_cbor, signing_input, DeviceResponse, DeviceSigned, Document, KeyFactory,
    MdocEcdsaKey, SigningError,
};
use crate::iso::engagement::{
    connection_methods_cbor, cose_key_cbor, origin_accepted, origin_infos_cbor, reads_as_cose_key,
    session_transcript_cbor, CipherSuiteIdentifier, CoseKey, DeviceEngagement, Engagement,
    EngagementVersion, OriginInfo, OriginInfoDirection, OriginInfoType, ReaderEngagement,
    Security, SessionTranscript, SessionType,
};
use crate::iso::mdocs::{
    item_views, name_space_views, DocType, Entry, IssuerSignedView, ItemView, NameSpace,
};
use crate::iso::session::{SessionData, SESSION_TERMINATION};
use crate::utils::cbor::{cbor_decoding, cbor_encoding, decode, encode, encode_total, Cbor};
use crate::utils::x509::byte_views;
use crate::utils::crypto::{
    aes256_gcm_opened, aes256_gcm_sealed, p256_public_key, session_key_bytes, CryptoError,
    PublicKey, SecretKey, SessionKey, SessionKeyUser,
};
use crate::utils::reader_auth::ReaderRegistration;
use crate::utils::time::now;
use crate::utils::urls::url_accepted;
use vstd::prelude::*;

verus! {

/// The way to the verifier: sends a message to an address and hands back
/// the answer. How that is done is up to the one who implements this.
pub trait HttpClient {
    /// Whether the verifier at `url`, sent `message`, came back with
    /// `answer`. What this means is up to the one who implements it.
    open spec fn answers(&self, url: Seq<char>, message: Seq<u8>, answer: Seq<u8>) -> bool {
        true
    }

    /// Whether sending `message` to `url` came to nothing, with `error`.
    open spec fn fails(&self, url: Seq<char>, message: Seq<u8>, error: TransportError) -> bool {
        true
    }

    /// Sends `message` to `url` and hands back what came of it.
    fn post(&self, url: &String, message: &Vec<u8>) -> (answer: Result<Vec<u8>, TransportError>)
        ensures
            match answer {
                Ok(answer) => self.answers(url@, message@, answer@),
                Err(error) => self.fails(url@, message@, error),
            },
    ;
}

/// The store of the holder's credentials.
pub trait MdocDataSource {
    /// All credentials of the given types, of which none is given twice.
    /// The answer comes in groups: the credentials of one group are of one
    /// type, no two groups that hold anything are of the same type, and
    /// every type is among those asked for. The order of the groups is up
    /// to the store.
    fn mdoc_by_doc_types(&self, doc_types: &Vec<DocType>) -> (mdocs: Result<
        Vec<Vec<Mdoc>>,
        DataSourceError,
    >)
        requires
            string_views(doc_types@).no_duplicates(),
        ensures
            match mdocs {
                Ok(groups) => groups_well_formed(string_views(doc_types@), group_views(groups@))
                    && self.holds(string_views(doc_types@), group_views(groups@)),
                Err(error) => self.fails(string_views(doc_types@), error),
            },
    ;

    /// Whether the store, asked for the credentials of `doc_types`, holds
    /// `groups`. What this means is up to the one who implements it.
    open spec fn holds(&self, doc_types: Seq<Seq<char>>, groups: Seq<Seq<MdocView>>) -> bool {
        true
    }

    /// Whether the store, asked for the credentials of `doc_types`, failed
    /// with `error`.
    open spec fn fails(&self, doc_types: Seq<Seq<char>>, error: DataSourceError) -> bool {
        true
    }
}

/// The address that the holder gives for where it came from. The holder
/// does not use it.
pub const REFERRER_URL: &'static str = "https://referrer.url/";

/// The coordinates of the key that `bytes` encode, if they encode a data
/// item that reads as a key.
pub open spec fn key_coordinates(bytes: Seq<u8>) -> Option<(Seq<u8>, Seq<u8>)> {
    match cbor_decoding(bytes) {
        Some(item) => if exists|point: (Seq<u8>, Seq<u8>)|
            reads_as_cose_key(item, point.0, point.1) {
            Some(choose|point: (Seq<u8>, Seq<u8>)| reads_as_cose_key(item, point.0, point.1))
        } else {
            None
        },
        None => None,
    }
}

/// Different coordinates give different data items.
pub proof fn lemma_cose_key_injective(x: Seq<u8>, y: Seq<u8>, other_x: Seq<u8>, other_y: Seq<u8>)
    requires
        cose_key_cbor(x, y) == cose_key_cbor(other_x, other_y),
    ensures
        x == other_x,
        y == other_y,
{
    assert(cose_key_cbor(x, y)->Table_0[2] == cose_key_cbor(other_x, other_y)->Table_0[2]);
    assert(cose_key_cbor(x, y)->Table_0[3] == cose_key_cbor(other_x, other_y)->Table_0[3]);
}

impl ReaderEngagement {
    /// Whether this engagement names an address at which the verifier can
    /// be reached.
    pub open spec fn names_address(&self) -> bool {
        self.0.connection_methods matches Some(methods) && methods.len() > 0
    }

    /// The address at which the verifier takes the holder's messages: that
    /// of the first way to reach it.
    pub open spec fn address(&self) -> Seq<char> {
        self.0.connection_methods->0[0].connection_options.uri@
    }

    /// Reads a verifier's engagement from its encoded form.
    pub fn from_bytes(bytes: &[u8]) -> (engagement: Result<Self, CborError>)
        ensures
            match engagement {
                Ok(engagement) => engagement.0.read_from_bytes(bytes@)
                    && engagement.0.well_formed(),
                Err(CborError::Decoding) => cbor_decoding(bytes@) is None,
                Err(CborError::UnexpectedItem) => cbor_decoding(bytes@) is Some
                    && holds_no_engagement(cbor_decoding(bytes@)->0),
                Err(_) => false,
            },
    {
        let item = match decode(bytes) {
            Some(item) => item,
            None => { return Err(CborError::Decoding); },
        };
        let engagement = match Engagement::from_data_item(&item) {
            Some(engagement) => engagement,
            None => { return Err(CborError::UnexpectedItem); },
        };
        if !engagement.is_well_formed() {
            proof {
                assert forall|other: Engagement| #[trigger]
                    other.read_from(item@) implies !other.well_formed() by {
                    lemma_same_cbor_same_addresses(&engagement, &other);
                }
            }
            return Err(CborError::UnexpectedItem);
        }
        Ok(ReaderEngagement(engagement))
    }

    /// The address at which the verifier takes the holder's messages: that
    /// of the first way to reach it.
    pub fn verifier_url(&self) -> (url: Result<&String, HolderError>)
        ensures
            match url {
                Ok(url) => self.0.connection_methods matches Some(methods) && methods.len() > 0
                    && *url == methods[0].connection_options.uri,
                Err(HolderError::VerifierUrlMissing) => match self.0.connection_methods {
                    Some(methods) => methods.len() == 0,
                    None => true,
                },
                Err(_) => false,
            },
    {
        match &self.0.connection_methods {
            Some(methods) => {
                if methods.len() > 0 {
                    Ok(&methods[0].connection_options.uri)
                } else {
                    Err(HolderError::VerifierUrlMissing)
                }
            },
            None => Err(HolderError::VerifierUrlMissing),
        }
    }

    /// The verifier's ephemeral public key.
    pub fn verifier_public_key(&self) -> (key: Result<PublicKey, Error>)
        ensures
            match key {
                Ok(key) => self.0.security matches Some(security) && key_coordinates(
                    security.e_sender_key_bytes@,
                ) == Some((key.x@, key.y@)),
                Err(Error::Holder(HolderError::VerifierEphemeralKeyMissing)) => self.0.security
                    is None,
                Err(Error::Cbor(CborError::Decoding)) => self.0.security matches Some(security)
                    && cbor_decoding(security.e_sender_key_bytes@) is None,
                Err(Error::Cbor(CborError::UnexpectedItem)) => self.0.security matches Some(
                    security,
                ) && cbor_decoding(security.e_sender_key_bytes@) is Some && key_coordinates(
                    security.e_sender_key_bytes@,
                ) is None,
                Err(_) => false,
            },
    {
        let security = match &self.0.security {
            Some(security) => security,
            None => { return Err(Error::Holder(HolderError::VerifierEphemeralKeyMissing)); },
        };
        let item = match decode(security.e_sender_key_bytes.as_slice()) {
            Some(item) => item,
            None => { return Err(Error::Cbor(CborError::Decoding)); },
        };
        match CoseKey::from_data_item(&item) {
            Some(key) => {
                proof {
                    let point = (key.x@, key.y@);
                    assert(reads_as_cose_key(item@, point.0, point.1));
                    let chosen = choose|point: (Seq<u8>, Seq<u8>)|
                        reads_as_cose_key(item@, point.0, point.1);
                    lemma_cose_key_injective(key.x@, key.y@, chosen.0, chosen.1);
                }
                Ok(PublicKey { x: key.x, y: key.y })
            },
            None => Err(Error::Cbor(CborError::UnexpectedItem)),
        }
    }
}

/// What a holder's engagement for the private key `scalar` looks like: it
/// carries the public key of that key and no way to reach the holder, and
/// says that it was received through the website `referrer_url` and is
/// delivered inside a message.
pub open spec fn is_device_engagement(
    engagement: &DeviceEngagement,
    scalar: Seq<u8>,
    referrer_url: Seq<char>,
) -> bool {
    &&& p256_public_key(scalar) matches Some(point)
    &&& engagement.0.security matches Some(security)
    &&& security.e_sender_key_bytes@ == cbor_encoding(cose_key_cbor(point.0, point.1))
    &&& engagement.0.connection_methods is None
    &&& engagement.0.origin_infos@.len() == 2
    &&& engagement.0.origin_infos[0].cat == OriginInfoDirection::Received
    &&& engagement.0.origin_infos[0].typ is Website
    &&& engagement.0.origin_infos[0].typ->Website_0@ == referrer_url
    &&& engagement.0.origin_infos[1].cat == OriginInfoDirection::Delivered
    &&& engagement.0.origin_infos[1].typ is MessageData
}

impl DeviceEngagement {
    /// The holder's engagement for a given private key.
    pub fn for_key(referrer_url: String, private_key: &SecretKey) -> (engagement: Result<
        DeviceEngagement,
        CryptoError,
    >)
        ensures
            match engagement {
                Ok(engagement) => is_device_engagement(
                    &engagement,
                    private_key.scalar(),
                    referrer_url@,
                ),
                Err(error) => error == CryptoError::KeyGeneration && p256_public_key(
                    private_key.scalar(),
                ) is None,
            },
    {
        let public_key = match private_key.public_key() {
            Some(public_key) => public_key,
            None => { return Err(CryptoError::KeyGeneration); },
        };
        let key = CoseKey { x: public_key.x, y: public_key.y };
        proof {
            key.lemma_encodable();
        }
        let e_sender_key_bytes = encode_total(&key.to_data_item());
        let mut origin_infos: Vec<OriginInfo> = Vec::new();
        origin_infos.push(
            OriginInfo {
                cat: OriginInfoDirection::Received,
                typ: OriginInfoType::Website(referrer_url),
            },
        );
        origin_infos.push(
            OriginInfo { cat: OriginInfoDirection::Delivered, typ: OriginInfoType::MessageData },
        );
        Ok(
            DeviceEngagement(
                Engagement {
                    version: EngagementVersion::V1_0,
                    security: Some(
                        Security {
                            cipher_suite_identifier: CipherSuiteIdentifier::P256,
                            e_sender_key_bytes,
                        },
                    ),
                    connection_methods: None,
                    origin_infos,
                },
            ),
        )
    }

    /// A holder's engagement with a fresh private key, and that key. A key
    /// that is drawn is a key of the curve, so this does not fail.
    pub fn new_device_engagement(referrer_url: String) -> (engaged: Result<
        (DeviceEngagement, SecretKey),
        Error,
    >)
        ensures
            engaged matches Ok(pair) && pair.1.scalar().len() == 32 && is_device_engagement(
                &pair.0,
                pair.1.scalar(),
                referrer_url@,
            ),
    {
        let private_key = SecretKey::random();
        match Self::for_key(referrer_url, &private_key) {
            Ok(engagement) => Ok((engagement, private_key)),
            Err(error) => Err(Error::Crypto(error)),
        }
    }

    /// The encoded form of this engagement.
    pub fn to_bytes(&self) -> (bytes: Vec<u8>)
        ensures
            bytes@ == cbor_encoding(self.0.to_cbor()),
    {
        proof {
            self.0.lemma_encodable();
        }
        encode_total(&self.0.to_data_item())
    }
}

impl ReaderEngagement {
    /// The encoded form of this engagement.
    pub fn to_bytes(&self) -> (bytes: Vec<u8>)
        ensures
            bytes@ == cbor_encoding(self.0.to_cbor()),
    {
        proof {
            self.0.lemma_encodable();
        }
        encode_total(&self.0.to_data_item())
    }

    /// Whether `derived` is what this engagement, the holder's engagement
    /// and the holder's private key `scalar` give: the transcript of the
    /// two engagements, the key for the verifier's messages and the key for
    /// the holder's messages; or the reason for which this engagement
    /// holds no key to agree with.
    pub open spec fn derivation_outcome(
        &self,
        session_type: SessionType,
        device_engagement: &DeviceEngagement,
        scalar: Seq<u8>,
        derived: Result<(SessionTranscript, SessionKey, SessionKey), Error>,
    ) -> bool {
        match derived {
            Ok((transcript, reader_key, device_key)) => {
                let security = self.0.security->0;
                let found = key_coordinates(security.e_sender_key_bytes@);
                let point = found->0;
                &&& self.0.security is Some
                &&& found is Some
                &&& point.0.len() == 32
                &&& point.1.len() == 32
                &&& transcript.to_cbor() == session_transcript_cbor(
                    session_type,
                    self.0.to_cbor(),
                    security.e_sender_key_bytes@,
                    device_engagement.0.to_cbor(),
                )
                &&& session_key_bytes(
                    scalar,
                    point.0,
                    point.1,
                    transcript.to_cbor(),
                    SessionKeyUser::Reader,
                ) == Some(reader_key.bytes())
                &&& reader_key.user() == SessionKeyUser::Reader
                &&& session_key_bytes(
                    scalar,
                    point.0,
                    point.1,
                    transcript.to_cbor(),
                    SessionKeyUser::Device,
                ) == Some(device_key.bytes())
                &&& device_key.user() == SessionKeyUser::Device
            },
            Err(Error::Holder(HolderError::VerifierEphemeralKeyMissing)) => self.0.security
                is None,
            Err(Error::Cbor(_)) => self.0.security is Some && key_coordinates(
                self.0.security->0.e_sender_key_bytes@,
            ) is None,
            Err(Error::Crypto(CryptoError::KeyAgreement)) => {
                let security = self.0.security->0;
                let found = key_coordinates(security.e_sender_key_bytes@);
                let point = found->0;
                &&& self.0.security is Some
                &&& found is Some
                &&& (point.0.len() != 32 || point.1.len() != 32 || session_key_bytes(
                    scalar,
                    point.0,
                    point.1,
                    session_transcript_cbor(
                        session_type,
                        self.0.to_cbor(),
                        security.e_sender_key_bytes@,
                        device_engagement.0.to_cbor(),
                    ),
                    SessionKeyUser::Reader,
                ) is None)
            },
            Err(_) => false,
        }
    }

    /// The transcript of the session that this engagement and the holder's
    /// set up, the key for the verifier's messages and the key for the
    /// holder's messages.
    pub fn transcript_and_keys_for_device_engagement(
        &self,
        session_type: SessionType,
        device_engagement: &DeviceEngagement,
        device_private_key: SecretKey,
    ) -> (derived: Result<(SessionTranscript, SessionKey, SessionKey), Error>)
        ensures
            self.derivation_outcome(
                session_type,
                device_engagement,
                device_private_key.scalar(),
                derived,
            ),
    {
        let verifier_public_key = match self.verifier_public_key() {
            Ok(key) => key,
            Err(error) => { return Err(error); },
        };
        let session_transcript = match SessionTranscript::new(
            session_type,
            self,
            device_engagement,
        ) {
            Ok(transcript) => transcript,
            Err(_) => { return Err(Error::Holder(HolderError::VerifierEphemeralKeyMissing)); },
        };
        let reader_key = match SessionKey::new(
            &device_private_key,
            &verifier_public_key,
            &session_transcript,
            SessionKeyUser::Reader,
        ) {
            Ok(key) => key,
            Err(error) => { return Err(Error::Crypto(error)); },
        };
        let device_key = match SessionKey::new(
            &device_private_key,
            &verifier_public_key,
            &session_transcript,
            SessionKeyUser::Device,
        ) {
            Ok(key) => key,
            Err(error) => { return Err(Error::Crypto(error)); },
        };
        Ok((session_transcript, reader_key, device_key))
    }
}

/// Whether `envelope` is the envelope in `bytes` and carries `plaintext`
/// under the key.
pub open spec fn opens_to(
    bytes: Seq<u8>,
    key: &SessionKey,
    envelope: &SessionData,
    plaintext: Seq<u8>,
) -> bool {
    &&& envelope.read_from_bytes(bytes)
    &&& envelope.data is Some
    &&& aes256_gcm_opened(key.bytes(), key.user().nonce(), envelope.data->0@) == Some(plaintext)
}

/// Whether `request` is the request that the envelope in `bytes` carries
/// under the key.
pub open spec fn carries_request(bytes: Seq<u8>, key: &SessionKey, request: &DeviceRequest) -> bool {
    exists|envelope: SessionData, plaintext: Seq<u8>, item: Cbor|
        #![trigger opens_to(bytes, key, &envelope, plaintext), request.decoded_from(item)]
        opens_to(bytes, key, &envelope, plaintext) && cbor_decoding(plaintext) == Some(item)
            && request.decoded_from(item)
}

/// Whether a data item is no envelope.
pub open spec fn is_no_envelope(item: Cbor) -> bool {
    forall|envelope: SessionData| !#[trigger] envelope.read_from(item)
}

/// Whether the envelope in `bytes` carries, under the key, a data item that
/// is no request.
pub open spec fn carries_no_request(bytes: Seq<u8>, key: &SessionKey) -> bool {
    exists|envelope: SessionData, plaintext: Seq<u8>|
        #[trigger] opens_to(bytes, key, &envelope, plaintext) && cbor_decoding(plaintext) is Some
            && forall|other: DeviceRequest|
            !#[trigger] other.decoded_from(cbor_decoding(plaintext)->0)
}

/// Whether `request` is the request that the envelope in `bytes` carries
/// under the key, read as a table of tables: where a namespace or an
/// attribute stands twice in what is carried, the last entry stays, at the
/// place of the first.
pub open spec fn carries_merged_request(
    bytes: Seq<u8>,
    key: &SessionKey,
    request: &DeviceRequest,
) -> bool {
    exists|raw: DeviceRequest| #[trigger]
        carries_request(bytes, key, &raw) && request.is_merged_from(&raw)
}

/// Whether `request` is what the verifier's answer `envelope_bytes` to the
/// holder's engagement opens to under `reader_key`: the request that it
/// carries, read as a table of tables, if it asks for something; or the
/// reason for which it carries none.
pub open spec fn opening_outcome(
    envelope_bytes: Seq<u8>,
    reader_key: &SessionKey,
    request: Result<DeviceRequest, Error>,
) -> bool {
    match request {
        Ok(request) => carries_merged_request(envelope_bytes, reader_key, &request)
            && request.well_formed() && request.doc_requests.len() > 0,
        Err(Error::Holder(HolderError::NoDocumentRequests)) => exists|other: DeviceRequest|
            #[trigger] carries_request(envelope_bytes, reader_key, &other)
                && other.doc_requests.len() == 0,
        Err(Error::Crypto(CryptoError::MissingCiphertext)) => exists|envelope: SessionData|
            #[trigger] envelope.read_from_bytes(envelope_bytes)
                && envelope.data is None,
        Err(Error::Crypto(CryptoError::Decryption)) => exists|envelope: SessionData|
            #[trigger] envelope.read_from_bytes(envelope_bytes)
                && envelope.data is Some && aes256_gcm_opened(
                reader_key.bytes(),
                reader_key.user().nonce(),
                envelope.data->0@,
            ) is None,
        Err(Error::Cbor(CborError::Decoding)) => cbor_decoding(envelope_bytes) is None || exists|
            envelope: SessionData,
            plaintext: Seq<u8>,
        |
            #[trigger] opens_to(envelope_bytes, reader_key, &envelope, plaintext)
                && cbor_decoding(plaintext) is None,
        Err(Error::Cbor(CborError::UnexpectedItem)) => cbor_decoding(envelope_bytes) is Some && (
        is_no_envelope(cbor_decoding(envelope_bytes)->0) || carries_no_request(
            envelope_bytes,
            reader_key,
        )),
        Err(_) => false,
    }
}

/// Opens the verifier's answer to the holder's engagement: decodes the
/// envelope, decrypts what it carries, and decodes that as a request.
/// Where a namespace or an attribute stands twice in a request, the last
/// entry stays, at the place of the first. A request that asks for
/// nothing is refused.
pub fn open_device_request(envelope_bytes: &Vec<u8>, reader_key: &SessionKey) -> (request: Result<
    DeviceRequest,
    Error,
>)
    ensures
        opening_outcome(envelope_bytes@, reader_key, request),
{
    let item = match decode(envelope_bytes.as_slice()) {
        Some(item) => item,
        None => { return Err(Error::Cbor(CborError::Decoding)); },
    };
    let envelope = match SessionData::from_data_item(&item) {
        Some(envelope) => envelope,
        None => { return Err(Error::Cbor(CborError::UnexpectedItem)); },
    };
    let plaintext = match envelope.decrypt(reader_key) {
        Ok(plaintext) => plaintext,
        Err(error) => { return Err(Error::Crypto(error)); },
    };
    assert(opens_to(envelope_bytes@, reader_key, &envelope, plaintext@));
    let decoded = match decode(plaintext.as_slice()) {
        Some(decoded) => decoded,
        None => { return Err(Error::Cbor(CborError::Decoding)); },
    };
    let raw = match DeviceRequest::from_data_item(&decoded) {
        Some(raw) => raw,
        None => { return Err(Error::Cbor(CborError::UnexpectedItem)); },
    };
    assert(carries_request(envelope_bytes@, reader_key, &raw));
    let request = raw.merged();
    if request.doc_requests.len() == 0 {
        return Err(Error::Holder(HolderError::NoDocumentRequests));
    }
    Ok(request)
}

/// What is proposed for a request, given how it fares against the holder's
/// credentials: where something is missing, nothing is proposed and the
/// missing identifiers are reported with the verifier's registration; where
/// a type has several candidates, nothing is proposed and those types are
/// reported; otherwise all candidates are proposed.
pub fn propose(matched: DeviceRequestMatch, reader_registration: ReaderRegistration) -> (proposed:
    Result<(Vec<ProposedDocument>, ReaderRegistration), HolderError>)
    ensures
        match matched@ {
            DeviceRequestMatchView::MissingAttributes(missing) => {
                &&& proposed is Err
                &&& proposed->Err_0 is AttributesNotAvailable
                &&& identifier_views(
                    proposed->Err_0->AttributesNotAvailable_missing_attributes@,
                ) == missing
                &&& *proposed->Err_0->AttributesNotAvailable_reader_registration
                    == reader_registration
            },
            DeviceRequestMatchView::Candidates(candidates) => if ambiguous_types(candidates).len()
                > 0 {
                &&& proposed is Err
                &&& proposed->Err_0 is MultipleCandidates
                &&& string_views(proposed->Err_0->MultipleCandidates_0@) == ambiguous_types(
                    candidates,
                )
            } else {
                &&& proposed is Ok
                &&& proposal_views(proposed->Ok_0.0@) == all_proposals(candidates)
                &&& proposed->Ok_0.1 == reader_registration
            },
        },
{
    match matched {
        DeviceRequestMatch::MissingAttributes(missing_attributes) => Err(
            HolderError::AttributesNotAvailable {
                reader_registration: Box::new(reader_registration),
                missing_attributes,
            },
        ),
        DeviceRequestMatch::Candidates(candidates) => match select_proposals(candidates) {
            Ok(proposals) => Ok((proposals, reader_registration)),
            Err(error) => Err(error),
        },
    }
}

/// What is shown to the user of a proposal: for each credential type its
/// namespaces, and for each namespace the names and values of the
/// attributes that would be disclosed.
pub type ProposedAttributes = Vec<(DocType, Vec<(NameSpace, Vec<Entry>)>)>;

/// The names and values of attributes.
pub open spec fn entry_views_of(items: Seq<ItemView>) -> Seq<(Seq<char>, Seq<u8>)> {
    Seq::new(items.len(), |i: int| (items[i].element_identifier, items[i].element_value))
}

/// The values of entries.
pub open spec fn shown_views(entries: Seq<Entry>) -> Seq<(Seq<char>, Seq<u8>)> {
    Seq::new(entries.len(), |j: int| entries[j]@)
}

/// Whether `shown` shows the attributes of `issuer_signed`, namespace by
/// namespace and attribute by attribute, in order.
pub open spec fn shows(shown: Seq<(NameSpace, Vec<Entry>)>, issuer_signed: IssuerSignedView) -> bool {
    match issuer_signed.name_spaces {
        Some(name_spaces) => shown.len() == name_spaces.len() && forall|i: int|
            0 <= i < shown.len() ==> (#[trigger] shown[i]).0@ == name_spaces[i].0 && shown_views(
                shown[i].1@,
            ) == entry_views_of(name_spaces[i].1),
        None => shown.len() == 0,
    }
}

impl ProposedDocument {
    /// The attributes of this proposal, for display.
    pub fn name_spaces(&self) -> (shown: Vec<(NameSpace, Vec<Entry>)>)
        ensures
            shows(shown@, self@.issuer_signed),
    {
        let mut shown: Vec<(NameSpace, Vec<Entry>)> = Vec::new();
        match &self.issuer_signed.name_spaces {
            None => {},
            Some(name_spaces) => {
                let ghost views = name_space_views(name_spaces@);
                let mut i: usize = 0;
                while i < name_spaces.len()
                    invariant
                        i <= name_spaces.len(),
                        shown.len() == i,
                        views == name_space_views(name_spaces@),
                        forall|k: int|
                            0 <= k < i ==> (#[trigger] shown[k]).0@ == views[k].0 && shown_views(
                                shown[k].1@,
                            ) == entry_views_of(views[k].1),
                    decreases name_spaces.len() - i,
                {
                    let attributes = &name_spaces[i].1;
                    let mut entries: Vec<Entry> = Vec::new();
                    let mut j: usize = 0;
                    while j < attributes.len()
                        invariant
                            j <= attributes.len(),
                            entries.len() == j,
                            forall|k: int|
                                0 <= k < j ==> (#[trigger] entries[k])@ == (
                                    attributes[k]@.element_identifier,
                                    attributes[k]@.element_value,
                                ),
                        decreases attributes.len() - j,
                    {
                        entries.push(attributes[j].to_entry());
                        j += 1;
                    }
                    assert(views[i as int] == (name_spaces[i as int].0@, item_views(attributes@)));
                    assert(shown_views(entries@) =~= entry_views_of(item_views(attributes@)));
                    shown.push((name_spaces[i].0.clone(), entries));
                    i += 1;
                }
            },
        }
        shown
    }
}

/// Why a disclosure failed, and whether the verifier may have received
/// something all the same.
#[derive(Debug)]
pub struct DisclosureError {
    pub data_shared: bool,
    pub error: Error,
}

/// The data item of an envelope that carries `data` and no status.
pub open spec fn data_envelope_cbor(data: Seq<u8>) -> Cbor {
    Cbor::Table(seq![(Cbor::Text("data"@), Cbor::Bytes(data))])
}

/// Whether `message` is the holder's answer that discloses `documents`
/// under `device_key`: the response that holds the documents, encoded,
/// encrypted with the key, put in an envelope and encoded again; or the
/// error of the step that cannot be done.
pub open spec fn is_response_message(
    documents: Seq<Document>,
    device_key: &SessionKey,
    message: Result<Seq<u8>, Error>,
) -> bool {
    match device_response_cbor(Some(documents), 0) {
        None => message matches Err(Error::Cbor(CborError::Encoding)),
        Some(response) => if !response.encodable() {
            message matches Err(Error::Cbor(CborError::Encoding))
        } else {
            match aes256_gcm_sealed(
                device_key.bytes(),
                device_key.user().nonce(),
                cbor_encoding(response),
            ) {
                None => message matches Err(Error::Crypto(CryptoError::Encryption)),
                Some(sealed) => message matches Ok(bytes) && bytes == cbor_encoding(
                    data_envelope_cbor(sealed),
                ),
            }
        },
    }
}

/// The mathematical value of what [`assemble_response`] hands back.
pub open spec fn message_view(message: Result<Vec<u8>, Error>) -> Result<Seq<u8>, Error> {
    match message {
        Ok(bytes) => Ok(bytes@),
        Err(error) => Err(error),
    }
}

/// Puts the holder's answer together: the response that discloses the
/// documents, encoded, encrypted with the holder's key, put in an envelope
/// and encoded again.
pub fn assemble_response(documents: Vec<Document>, device_key: &SessionKey) -> (message: Result<
    Vec<u8>,
    Error,
>)
    ensures
        is_response_message(documents@, device_key, message_view(message)),
{
    let response = DeviceResponse::new(documents);
    let item = match response.to_data_item() {
        Some(item) => item,
        None => { return Err(Error::Cbor(CborError::Encoding)); },
    };
    let plaintext = match encode(&item) {
        Some(plaintext) => plaintext,
        None => { return Err(Error::Cbor(CborError::Encoding)); },
    };
    let envelope = match SessionData::encrypt(&plaintext, device_key) {
        Ok(envelope) => envelope,
        Err(error) => { return Err(Error::Crypto(error)); },
    };
    proof {
        envelope.lemma_encodable();
        assert(envelope.to_cbor()->Table_0 =~= data_envelope_cbor(envelope.data->0@)->Table_0);
    }
    Ok(encode_total(&envelope.to_data_item()))
}

/// A session with a verifier in which the holder has something to propose:
/// the verifier is known, and the holder has settled on the credentials
/// that it would disclose.
pub struct DisclosureSession<H> {
    return_url: Option<String>,
    client: H,
    verifier_url: String,
    device_key: SessionKey,
    proposed_documents: Vec<ProposedDocument>,
    reader_registration: ReaderRegistration,
}

/// Where a session stands after it was started.
#[derive(Debug)]
pub enum MdocDisclosureSessionState<M, P> {
    /// The holder lacks something that is asked; nothing can be disclosed.
    MissingAttributes(M),
    /// The holder can disclose what is asked, if the user agrees.
    Proposal(P),
}

/// A session in which the holder lacks something that is asked: who
/// asked, and what is missing. Nothing can be disclosed in it; it can only
/// be ended.
pub struct DisclosureMissingAttributes<H> {
    client: H,
    verifier_url: String,
    reader_registration: ReaderRegistration,
    missing_attributes: Vec<AttributeIdentifier>,
}

/// The message that ends a session: the encoding of the envelope that
/// carries the status of termination and no data.
pub open spec fn termination_message() -> Seq<u8> {
    cbor_encoding((SessionData { data: None, status: Some(SESSION_TERMINATION) }).to_cbor())
}

/// Whether `told` is what came of sending the message that ends a session
/// to `address` through `client`: success where the verifier answered,
/// whatever it answered, and otherwise the error of the client.
pub open spec fn termination_outcome<H: HttpClient>(
    client: &H,
    address: Seq<char>,
    told: Result<(), Error>,
) -> bool {
    match told {
        Ok(()) => exists|answer: Seq<u8>| #[trigger]
            client.answers(address, termination_message(), answer),
        Err(Error::Http(error)) => client.fails(address, termination_message(), error),
        Err(_) => false,
    }
}

/// Tells the verifier at `verifier_url` that the session is over.
fn post_termination<H: HttpClient>(client: &H, verifier_url: &String) -> (told: Result<(), Error>)
    ensures
        termination_outcome(client, verifier_url@, told),
{
    let envelope = SessionData::new_termination();
    proof {
        envelope.lemma_encodable();
    }
    let message = encode_total(&envelope.to_data_item());
    proof {
        assert(envelope.to_cbor() == (SessionData {
            data: None,
            status: Some(SESSION_TERMINATION),
        }).to_cbor());
    }
    match client.post(verifier_url, &message) {
        Ok(answer) => {
            proof {
                assert(client.answers(verifier_url@, termination_message(), answer@));
            }
            Ok(())
        },
        Err(error) => Err(Error::Http(error)),
    }
}

impl<H: HttpClient> DisclosureMissingAttributes<H> {
    /// What is missing.
    pub closed spec fn missing(&self) -> Seq<AttributeIdentifier> {
        self.missing_attributes@
    }

    /// What the verifier is registered for.
    pub closed spec fn registration(&self) -> ReaderRegistration {
        self.reader_registration
    }

    /// The address at which the verifier takes the holder's messages.
    pub closed spec fn verifier_address(&self) -> Seq<char> {
        self.verifier_url@
    }

    /// What is missing.
    pub fn missing_attributes(&self) -> (missing: &Vec<AttributeIdentifier>)
        ensures
            missing@ == self.missing(),
    {
        &self.missing_attributes
    }

    /// What the verifier is registered for.
    pub fn reader_registration(&self) -> (reader_registration: &ReaderRegistration)
        ensures
            *reader_registration == self.registration(),
    {
        &self.reader_registration
    }

    /// The way to the verifier that this session uses.
    pub closed spec fn connection(&self) -> H {
        self.client
    }

    /// Ends the session, and tells the verifier so: the message that ends
    /// a session goes to the verifier's address. The session is used up
    /// even if the verifier cannot be told.
    pub fn terminate(self) -> (terminated: Result<(), Error>)
        ensures
            termination_outcome(&self.connection(), self.verifier_address(), terminated),
    {
        post_termination(&self.client, &self.verifier_url)
    }
}

impl<H: HttpClient> MdocDisclosureSessionState<DisclosureMissingAttributes<H>, DisclosureSession<H>> {
    /// Ends the session, whichever state it is in, and tells the verifier
    /// so, as the session of that state does. The session is used up even
    /// if the verifier cannot be told.
    pub fn terminate(self) -> (terminated: Result<(), Error>)
        ensures
            match self {
                MdocDisclosureSessionState::MissingAttributes(session) => termination_outcome(
                    &session.connection(),
                    session.verifier_address(),
                    terminated,
                ),
                MdocDisclosureSessionState::Proposal(session) => termination_outcome(
                    &session.connection(),
                    session.verifier_address(),
                    terminated,
                ),
            },
    {
        match self {
            MdocDisclosureSessionState::MissingAttributes(session) => session.terminate(),
            MdocDisclosureSessionState::Proposal(session) => session.terminate(),
        }
    }
}

/// Whether the verifier's engagement in `bytes` names `address` as the
/// first address at which the verifier can be reached.
pub open spec fn engagement_names(bytes: Seq<u8>, address: Seq<char>) -> bool {
    exists|engagement: Engagement|
        #[trigger] engagement.read_from_bytes(bytes) && engagement.connection_methods is Some
            && engagement.connection_methods->0.len() > 0
            && engagement.connection_methods->0[0].connection_options.uri@ == address
}

/// Whether `bytes` hold an engagement that names no address at which the
/// verifier can be reached.
pub open spec fn engagement_names_no_address(bytes: Seq<u8>) -> bool {
    exists|engagement: Engagement|
        #[trigger] engagement.read_from_bytes(bytes) && engagement.well_formed()
            && (match engagement.connection_methods {
            Some(methods) => methods.len() == 0,
            None => true,
        })
}

/// Whether `checked` is what the verifier's `answer` to a disclosure
/// says: success where the answer is an envelope without a status, the
/// status where it is an envelope that carries one, and otherwise the
/// reason for which the answer cannot be read as an envelope.
pub open spec fn acknowledgement_outcome(answer: Seq<u8>, checked: Result<(), Error>) -> bool {
    match checked {
        Ok(()) => exists|envelope: SessionData|
            #[trigger] envelope.read_from_bytes(answer) && envelope.status
                is None,
        Err(Error::Cbor(CborError::Decoding)) => cbor_decoding(answer) is None,
        Err(Error::Cbor(CborError::UnexpectedItem)) => cbor_decoding(answer) is Some
            && forall|envelope: SessionData|
            !#[trigger] envelope.read_from(cbor_decoding(answer)->0),
        Err(Error::Holder(HolderError::DisclosureResponse(status))) => exists|
            envelope: SessionData,
        |
            #[trigger] envelope.read_from_bytes(answer) && envelope.status
                == Some(status),
        Err(_) => false,
    }
}

/// Reads the verifier's answer to a disclosure. The answer must be an
/// envelope; one that carries a status says that the verifier did not
/// take the disclosure.
pub fn check_acknowledgement(answer: &Vec<u8>) -> (checked: Result<(), Error>)
    ensures
        acknowledgement_outcome(answer@, checked),
{
    let item = match decode(answer.as_slice()) {
        Some(item) => item,
        None => { return Err(Error::Cbor(CborError::Decoding)); },
    };
    let envelope = match SessionData::from_data_item(&item) {
        Some(envelope) => envelope,
        None => { return Err(Error::Cbor(CborError::UnexpectedItem)); },
    };
    assert(envelope.read_from_bytes(answer@));
    match envelope.status {
        Some(status) => Err(Error::Holder(HolderError::DisclosureResponse(status))),
        None => Ok(()),
    }
}

/// Whether `document` is `proposal` signed: the type and what the issuer
/// signed are those of the proposal, and the holder's proof wraps a
/// signature that the key of the proposal's name, as `key_factory` finds
/// it, gave over the signing input of the proposal's challenge.
pub open spec fn is_signed_proposal<KF: KeyFactory>(
    key_factory: &KF,
    proposal: ProposedDocument,
    document: Document,
) -> bool {
    &&& document.doc_type == proposal.doc_type
    &&& document.issuer_signed == proposal.issuer_signed
    &&& document.errors is None
    &&& exists|key: KF::Key, signature: Seq<u8>|
        {
            &&& #[trigger] key_factory.finds(proposal.private_key_id@, key)
            &&& #[trigger] key.signs(signing_input(proposal.device_signed_challenge@), signature)
            &&& document.device_signed.wraps(signature)
        }
}

/// Whether `documents` are `proposals` signed, one for one and in order.
pub open spec fn are_signed_proposals<KF: KeyFactory>(
    key_factory: &KF,
    proposals: Seq<ProposedDocument>,
    documents: Seq<Document>,
) -> bool {
    &&& documents.len() == proposals.len()
    &&& forall|i: int|
        0 <= i < documents.len() ==> is_signed_proposal(
            key_factory,
            proposals[i],
            #[trigger] documents[i],
        )
}

/// Whether the key of the proposal's name, as `key_factory` finds it,
/// refused with `error` to sign the signing input of the proposal's
/// challenge.
pub open spec fn is_refused_proposal<KF: KeyFactory>(
    key_factory: &KF,
    proposal: ProposedDocument,
    error: SigningError,
) -> bool {
    exists|key: KF::Key|
        {
            &&& #[trigger] key_factory.finds(proposal.private_key_id@, key)
            &&& key.refuses(signing_input(proposal.device_signed_challenge@), error)
        }
}

/// Whether one of `proposals` was refused with `error`, and all before it
/// could be signed.
pub open spec fn signing_refused<KF: KeyFactory>(
    key_factory: &KF,
    proposals: Seq<ProposedDocument>,
    error: SigningError,
) -> bool {
    exists|i: int, documents: Seq<Document>|
        {
            &&& 0 <= i < proposals.len()
            &&& #[trigger] are_signed_proposals(key_factory, proposals.take(i), documents)
            &&& is_refused_proposal(key_factory, proposals[i], error)
        }
}

/// Signs the challenge of every proposal with the key that belongs to it,
/// and puts each proposal together with its signature to a document.
/// The first key that does not sign ends this, with what that key said.
pub fn sign_proposals<KF: KeyFactory>(
    proposed_documents: Vec<ProposedDocument>,
    key_factory: &KF,
) -> (documents: Result<Vec<Document>, SigningError>)
    ensures
        match documents {
            Ok(documents) => are_signed_proposals(key_factory, proposed_documents@, documents@),
            Err(error) => signing_refused(key_factory, proposed_documents@, error),
        },
{
    let ghost original = proposed_documents@;
    let mut documents: Vec<Document> = Vec::new();
    for proposal in it: proposed_documents
        invariant
            it.seq() == original,
            are_signed_proposals(key_factory, original.take(it.index() as int), documents@),
    {
        let ghost index = it.index() as int;
        let ghost signed_before = documents@;
        assert(proposal == original[index]);
        let private_key = key_factory.generate_existing(&proposal.private_key_id);
        let device_signed = match DeviceSigned::new_signature(
            &private_key,
            &proposal.device_signed_challenge,
        ) {
            Ok(device_signed) => device_signed,
            Err(error) => {
                proof {
                    assert(is_refused_proposal(key_factory, original[index], error));
                    assert(signing_refused(key_factory, original, error));
                }
                return Err(error);
            },
        };
        let document = Document {
            doc_type: proposal.doc_type,
            issuer_signed: proposal.issuer_signed,
            device_signed,
            errors: None,
        };
        proof {
            assert(is_signed_proposal(key_factory, original[index], document));
        }
        documents.push(document);
        proof {
            let next = original.take(index + 1);
            assert forall|i: int| 0 <= i < documents.len() implies is_signed_proposal(
                key_factory,
                next[i],
                #[trigger] documents[i],
            ) by {
                if i < index {
                    assert(documents[i] == signed_before[i]);
                    assert(next[i] == original.take(index)[i]);
                }
            }
        }
    }
    proof {
        assert(original.take(original.len() as int) =~= original);
    }
    Ok(documents)
}

/// Whether `message` is the holder's answer that discloses `proposals`,
/// signed by the keys that `key_factory` finds, under `device_key`.
pub open spec fn is_signed_answer<KF: KeyFactory>(
    key_factory: &KF,
    proposals: Seq<ProposedDocument>,
    device_key: &SessionKey,
    message: Seq<u8>,
) -> bool {
    exists|documents: Seq<Document>|
        {
            &&& #[trigger] are_signed_proposals(key_factory, proposals, documents)
            &&& is_response_message(documents, device_key, Ok(message))
        }
}

/// Whether `proposals` were signed by the keys that `key_factory` finds,
/// and the answer that discloses them could not be put together, for
/// `error`.
pub open spec fn is_unsendable<KF: KeyFactory>(
    key_factory: &KF,
    proposals: Seq<ProposedDocument>,
    device_key: &SessionKey,
    error: Error,
) -> bool {
    exists|documents: Seq<Document>|
        {
            &&& #[trigger] are_signed_proposals(key_factory, proposals, documents)
            &&& is_response_message(documents, device_key, Err(error))
        }
}

/// Whether the holder's answer that discloses `proposals` was sent to
/// `address` through `client`, and sending it failed with `error`.
pub open spec fn is_unanswered<H: HttpClient, KF: KeyFactory>(
    key_factory: &KF,
    proposals: Seq<ProposedDocument>,
    device_key: &SessionKey,
    client: &H,
    address: Seq<char>,
    error: TransportError,
) -> bool {
    exists|message: Seq<u8>|
        {
            &&& #[trigger] is_signed_answer(key_factory, proposals, device_key, message)
            &&& client.fails(address, message, error)
        }
}

/// Whether the holder's answer that discloses `proposals` was sent to
/// `address` through `client`, and `checked` is what the verifier's
/// answer to it says.
pub open spec fn is_acknowledged<H: HttpClient, KF: KeyFactory>(
    key_factory: &KF,
    proposals: Seq<ProposedDocument>,
    device_key: &SessionKey,
    client: &H,
    address: Seq<char>,
    checked: Result<(), Error>,
) -> bool {
    exists|message: Seq<u8>, answer: Seq<u8>|
        {
            &&& is_signed_answer(key_factory, proposals, device_key, message)
            &&& #[trigger] client.answers(address, message, answer)
            &&& acknowledgement_outcome(answer, checked)
        }
}

/// Whether `disclosed` is what comes of disclosing `proposals` to the
/// verifier at `address`. Every proposal is signed by its key, the answer
/// that holds them is put together under `device_key` and sent through
/// `client`, and the verifier's answer is read. Success is the verifier's
/// acknowledgement. An error is that of the first step that failed; the
/// verifier may have received the answer exactly where sending it or a
/// later step failed.
pub open spec fn disclosure_outcome<H: HttpClient, KF: KeyFactory>(
    key_factory: &KF,
    proposals: Seq<ProposedDocument>,
    device_key: &SessionKey,
    client: &H,
    address: Seq<char>,
    disclosed: Result<(), DisclosureError>,
) -> bool {
    match disclosed {
        Ok(()) => is_acknowledged(key_factory, proposals, device_key, client, address, Ok(())),
        Err(failed) => if failed.data_shared {
            match failed.error {
                Error::Http(error) => is_unanswered(
                    key_factory,
                    proposals,
                    device_key,
                    client,
                    address,
                    error,
                ),
                error => is_acknowledged(
                    key_factory,
                    proposals,
                    device_key,
                    client,
                    address,
                    Err(error),
                ),
            }
        } else {
            match failed.error {
                Error::Signing(error) => signing_refused(key_factory, proposals, error),
                error => is_unsendable(key_factory, proposals, device_key, error),
            }
        },
    }
}

/// Whether `checked` is what the verifier's `answer` to the holder's
/// engagement comes to at `time`: the request that it carries, with what
/// the verifier is registered for, if the request is signed and the
/// signatures are good; otherwise the reason for which the answer carries
/// no request, the reason for which the signatures are refused, or, for a
/// request that is not signed, that the signature is missing.
pub open spec fn checked_request_outcome(
    answer: Seq<u8>,
    reader_key: &SessionKey,
    transcript: Cbor,
    time: u64,
    trust_anchors: Seq<Seq<u8>>,
    checked: Result<(DeviceRequest, ReaderRegistration), Error>,
) -> bool {
    exists|opened: Result<DeviceRequest, Error>|
        {
            &&& #[trigger] opening_outcome(answer, reader_key, opened)
            &&& match opened {
                Err(error) => checked matches Err(returned) && returned == error,
                Ok(request) => is_verified_request(
                    request,
                    transcript,
                    time,
                    trust_anchors,
                    checked,
                ),
            }
        }
}

/// Whether `checked` is what checking the signatures of `request` comes
/// to at `time`: the request with what the verifier is registered for;
/// the reason for which the signatures are refused; or, for a request
/// that is not signed, that the signature is missing.
pub open spec fn is_verified_request(
    request: DeviceRequest,
    transcript: Cbor,
    time: u64,
    trust_anchors: Seq<Seq<u8>>,
    checked: Result<(DeviceRequest, ReaderRegistration), Error>,
) -> bool {
    exists|verified: Result<Option<ReaderRegistration>, Error>|
        {
            &&& #[trigger] request.verification_outcome(transcript, time, trust_anchors, verified)
            &&& match verified {
                Err(error) => checked matches Err(returned) && returned == error,
                Ok(None) => checked matches Err(Error::Holder(HolderError::ReaderAuthMissing)),
                Ok(Some(registration)) => checked matches Ok(pair) && pair.0 == request && pair.1
                    == registration,
            }
        }
}

/// Reads the verifier's answer to the holder's engagement: opens it with
/// the key for the verifier's messages, and checks the signatures of the
/// request in it against the transcript, the time and the trust anchors.
/// A verifier that does not sign is not answered. Of the holder's own
/// reasons to refuse, only those that concern the request, the signatures
/// and the registration come back.
pub fn check_request(
    answer: &Vec<u8>,
    reader_key: &SessionKey,
    session_transcript: &SessionTranscript,
    time: u64,
    trust_anchors: &[Vec<u8>],
) -> (checked: Result<(DeviceRequest, ReaderRegistration), Error>)
    ensures
        checked_request_outcome(
            answer@,
            reader_key,
            session_transcript.to_cbor(),
            time,
            byte_views(trust_anchors@),
            checked,
        ),
        checked matches Err(Error::Holder(error)) ==> error is NoDocumentRequests || error
            is ReaderAuthMissing || error is ReaderAuthsInconsistent || error
            is NoReaderRegistration || error is UnregisteredAttributes,
{
    let opened = open_device_request(answer, reader_key);
    let device_request = match opened {
        Ok(device_request) => device_request,
        Err(error) => { return Err(error); },
    };
    let verified = device_request.verify(session_transcript, time, trust_anchors);
    let checked = match verified {
        Ok(Some(reader_registration)) => Ok((device_request, reader_registration)),
        Ok(None) => Err(Error::Holder(HolderError::ReaderAuthMissing)),
        Err(error) => Err(error),
    };
    proof {
        assert(is_verified_request(
            device_request,
            session_transcript.to_cbor(),
            time,
            byte_views(trust_anchors@),
            checked,
        ));
    }
    checked
}

/// Whether `session` is the state that a match leaves a session in. Where
/// something is missing, the state says what, with the verifier's
/// registration. Where a type has several candidates, there is no
/// session, and the error names exactly those types. Otherwise the state
/// is a proposal of all candidates. A state keeps the way to the verifier
/// and its address; a proposal also the address to return to and the key
/// for the holder's messages.
pub open spec fn session_of_match<H: HttpClient>(
    client: H,
    address: Seq<char>,
    return_url: Option<String>,
    device_key: SessionKey,
    registration: ReaderRegistration,
    matched: DeviceRequestMatchView,
    session: Result<
        MdocDisclosureSessionState<DisclosureMissingAttributes<H>, DisclosureSession<H>>,
        Error,
    >,
) -> bool {
    match matched {
        DeviceRequestMatchView::MissingAttributes(missing) => {
            &&& session matches Ok(MdocDisclosureSessionState::MissingAttributes(state))
            &&& state.connection() == client
            &&& state.verifier_address() == address
            &&& state.registration() == registration
            &&& identifier_views(state.missing()) == missing
        },
        DeviceRequestMatchView::Candidates(candidates) => if ambiguous_types(candidates).len()
            > 0 {
            &&& session matches Err(Error::Holder(HolderError::MultipleCandidates(types)))
            &&& string_views(types@) == ambiguous_types(candidates)
        } else {
            &&& session matches Ok(MdocDisclosureSessionState::Proposal(state))
            &&& state.connection() == client
            &&& state.verifier_address() == address
            &&& state.returning_to() == return_url
            &&& state.sending_key() == device_key
            &&& state.registration() == registration
            &&& state.proposals() == all_proposals(candidates)
        },
    }
}

/// The state that a match leaves a session in.
pub fn session_from_match<H: HttpClient>(
    client: H,
    verifier_url: String,
    return_url: Option<String>,
    device_key: SessionKey,
    reader_registration: ReaderRegistration,
    matched: DeviceRequestMatch,
) -> (session: Result<
    MdocDisclosureSessionState<DisclosureMissingAttributes<H>, DisclosureSession<H>>,
    Error,
>)
    ensures
        session_of_match(
            client,
            verifier_url@,
            return_url,
            device_key,
            reader_registration,
            matched@,
            session,
        ),
{
    match propose(matched, reader_registration) {
        Ok((proposed_documents, reader_registration)) => Ok(
            MdocDisclosureSessionState::Proposal(
                DisclosureSession {
                    return_url,
                    client,
                    verifier_url,
                    device_key,
                    proposed_documents,
                    reader_registration,
                },
            ),
        ),
        Err(HolderError::AttributesNotAvailable { reader_registration, missing_attributes }) => {
            Ok(
                MdocDisclosureSessionState::MissingAttributes(
                    DisclosureMissingAttributes {
                        client,
                        verifier_url,
                        reader_registration: *reader_registration,
                        missing_attributes,
                    },
                ),
            )
        },
        Err(error) => Err(Error::Holder(error)),
    }
}

/// Whether `session` is what comes of matching the verified `request`
/// against what `store` holds: the store's error, or the state that the
/// match leaves the session in.
pub open spec fn session_of_request<H: HttpClient, S: MdocDataSource>(
    client: H,
    address: Seq<char>,
    return_url: Option<String>,
    device_key: SessionKey,
    store: &S,
    request: DeviceRequest,
    registration: ReaderRegistration,
    transcript: Cbor,
    session: Result<
        MdocDisclosureSessionState<DisclosureMissingAttributes<H>, DisclosureSession<H>>,
        Error,
    >,
) -> bool {
    exists|matched: Result<DeviceRequestMatch, HolderError>|
        {
            &&& #[trigger] request.stored_match_outcome(store, transcript, matched)
            &&& match matched {
                Err(error) => session matches Err(Error::Holder(returned)) && returned == error,
                Ok(matched) => session_of_match(
                    client,
                    address,
                    return_url,
                    device_key,
                    registration,
                    matched@,
                    session,
                ),
            }
        }
}

/// Whether `session` is what comes of the verifier's `answer` to the
/// holder's engagement, read at `time`: the reason for which the answer
/// is refused, or what comes of the request in it.
pub open spec fn session_of_answer<H: HttpClient, S: MdocDataSource>(
    client: H,
    address: Seq<char>,
    return_url: Option<String>,
    reader_key: SessionKey,
    device_key: SessionKey,
    transcript: Cbor,
    store: &S,
    trust_anchors: Seq<Seq<u8>>,
    answer: Seq<u8>,
    time: u64,
    session: Result<
        MdocDisclosureSessionState<DisclosureMissingAttributes<H>, DisclosureSession<H>>,
        Error,
    >,
) -> bool {
    exists|checked: Result<(DeviceRequest, ReaderRegistration), Error>|
        {
            &&& #[trigger] checked_request_outcome(
                answer,
                &reader_key,
                transcript,
                time,
                trust_anchors,
                checked,
            )
            &&& match checked {
                Err(error) => session matches Err(returned) && returned == error,
                Ok(pair) => session_of_request(
                    client,
                    address,
                    return_url,
                    device_key,
                    store,
                    pair.0,
                    pair.1,
                    transcript,
                    session,
                ),
            }
        }
}

/// Whether `session` is what comes of sending `message` to the verifier
/// at `address`: the error of the way to the verifier, or what comes of
/// the verifier's answer at the time that the clock shows.
pub open spec fn session_of_exchange<H: HttpClient, S: MdocDataSource>(
    client: H,
    address: Seq<char>,
    message: Seq<u8>,
    return_url: Option<String>,
    reader_key: SessionKey,
    device_key: SessionKey,
    transcript: Cbor,
    store: &S,
    trust_anchors: Seq<Seq<u8>>,
    session: Result<
        MdocDisclosureSessionState<DisclosureMissingAttributes<H>, DisclosureSession<H>>,
        Error,
    >,
) -> bool {
    ||| exists|error: TransportError|
        {
            &&& #[trigger] client.fails(address, message, error)
            &&& session matches Err(Error::Http(returned))
            &&& returned == error
        }
    ||| exists|answer: Seq<u8>, time: u64|
        {
            &&& client.answers(address, message, answer)
            &&& #[trigger] session_of_answer(
                client,
                address,
                return_url,
                reader_key,
                device_key,
                transcript,
                store,
                trust_anchors,
                answer,
                time,
                session,
            )
        }
}

/// Whether `session` is what comes of answering the verifier's
/// engagement. An engagement that names no address is refused. Otherwise
/// the holder draws a key, makes its own engagement for it, which says
/// that it was received through the website of [`REFERRER_URL`], derives
/// the transcript and the keys of the session, and sends its engagement,
/// encoded, to the first address that the verifier names.
pub open spec fn session_of_engagement<H: HttpClient, S: MdocDataSource>(
    client: H,
    reader_engagement: ReaderEngagement,
    return_url: Option<String>,
    session_type: SessionType,
    store: &S,
    trust_anchors: Seq<Seq<u8>>,
    session: Result<
        MdocDisclosureSessionState<DisclosureMissingAttributes<H>, DisclosureSession<H>>,
        Error,
    >,
) -> bool {
    if !reader_engagement.names_address() {
        session matches Err(Error::Holder(HolderError::VerifierUrlMissing))
    } else {
        exists|
            device_engagement: DeviceEngagement,
            scalar: Seq<u8>,
            derived: Result<(SessionTranscript, SessionKey, SessionKey), Error>,
        |
            {
                &&& scalar.len() == 32
                &&& is_device_engagement(&device_engagement, scalar, REFERRER_URL@)
                &&& #[trigger] reader_engagement.derivation_outcome(
                    session_type,
                    &device_engagement,
                    scalar,
                    derived,
                )
                &&& match derived {
                    Err(error) => session matches Err(returned) && returned == error,
                    Ok(keys) => session_of_exchange(
                        client,
                        reader_engagement.address(),
                        cbor_encoding(device_engagement.0.to_cbor()),
                        return_url,
                        keys.1,
                        keys.2,
                        keys.0.to_cbor(),
                        store,
                        trust_anchors,
                        session,
                    ),
                }
            }
    }
}

/// Whether `session` is what comes of starting a session on the
/// verifier's engagement in `bytes`: the reason for which the bytes hold
/// no engagement, or what comes of answering the engagement that they
/// hold.
pub open spec fn start_outcome<H: HttpClient, S: MdocDataSource>(
    client: H,
    bytes: Seq<u8>,
    return_url: Option<String>,
    session_type: SessionType,
    store: &S,
    trust_anchors: Seq<Seq<u8>>,
    session: Result<
        MdocDisclosureSessionState<DisclosureMissingAttributes<H>, DisclosureSession<H>>,
        Error,
    >,
) -> bool {
    match cbor_decoding(bytes) {
        None => session matches Err(Error::Cbor(CborError::Decoding)),
        Some(item) => if holds_no_engagement(item) {
            session matches Err(Error::Cbor(CborError::UnexpectedItem))
        } else {
            exists|reader_engagement: ReaderEngagement|
                {
                    &&& #[trigger] reader_engagement.0.read_from(item)
                    &&& reader_engagement.0.well_formed()
                    &&& session_of_engagement(
                        client,
                        reader_engagement,
                        return_url,
                        session_type,
                        store,
                        trust_anchors,
                        session,
                    )
                }
        },
    }
}

/// Whether `item` reads as no well-formed engagement.
pub open spec fn holds_no_engagement(item: Cbor) -> bool {
    forall|other: Engagement| #[trigger] other.read_from(item) ==> !other.well_formed()
}

/// Whether `session` is what a caller who wants a proposal or nothing
/// gets of `state`: the proposal; for a state of missing attributes, the
/// error that says what is missing, with the verifier's registration; or
/// the error for which there is no state.
pub open spec fn proposal_or_error<H: HttpClient>(
    state: Result<
        MdocDisclosureSessionState<DisclosureMissingAttributes<H>, DisclosureSession<H>>,
        Error,
    >,
    session: Result<DisclosureSession<H>, Error>,
) -> bool {
    match state {
        Ok(MdocDisclosureSessionState::Proposal(proposal)) => session matches Ok(returned)
            && returned == proposal,
        Ok(MdocDisclosureSessionState::MissingAttributes(missing)) => {
            &&& session matches Err(Error::Holder(error))
            &&& error is AttributesNotAvailable
            &&& *error->AttributesNotAvailable_reader_registration == missing.registration()
            &&& error->AttributesNotAvailable_missing_attributes@ == missing.missing()
        },
        Err(error) => session matches Err(returned) && returned == error,
    }
}

/// Keeps of the state of a session the proposal, and turns a state of
/// missing attributes into the error that says what is missing.
pub fn proposal_of<H: HttpClient>(
    state: Result<
        MdocDisclosureSessionState<DisclosureMissingAttributes<H>, DisclosureSession<H>>,
        Error,
    >,
) -> (session: Result<DisclosureSession<H>, Error>)
    ensures
        proposal_or_error(state, session),
{
    match state {
        Ok(MdocDisclosureSessionState::Proposal(session)) => Ok(session),
        Ok(MdocDisclosureSessionState::MissingAttributes(session)) => Err(
            Error::Holder(
                HolderError::AttributesNotAvailable {
                    reader_registration: Box::new(session.reader_registration),
                    missing_attributes: session.missing_attributes,
                },
            ),
        ),
        Err(error) => Err(error),
    }
}

impl<H: HttpClient> DisclosureSession<H> {
    /// The proposals of this session as they are held, each with the name
    /// of its key and the challenge that the key is to sign.
    pub closed spec fn proposed(&self) -> Seq<ProposedDocument> {
        self.proposed_documents@
    }

    /// The proposals of this session, by their values.
    pub open spec fn proposals(&self) -> Seq<ProposedDocumentView> {
        proposal_views(self.proposed())
    }

    /// The key with which the holder encrypts what it sends.
    pub closed spec fn sending_key(&self) -> SessionKey {
        self.device_key
    }

    /// The way to the verifier that this session uses.
    pub closed spec fn connection(&self) -> H {
        self.client
    }

    /// The address at which the verifier takes the holder's messages.
    pub closed spec fn verifier_address(&self) -> Seq<char> {
        self.verifier_url@
    }

    /// The address to send the user to when the session is over.
    pub closed spec fn returning_to(&self) -> Option<String> {
        self.return_url
    }

    /// What the verifier is registered for.
    pub closed spec fn registration(&self) -> ReaderRegistration {
        self.reader_registration
    }

    /// The address to send the user to when the session is over.
    pub fn return_url(&self) -> (return_url: &Option<String>)
        ensures
            *return_url == self.returning_to(),
    {
        &self.return_url
    }

    /// What the verifier is registered for.
    pub fn reader_registration(&self) -> (reader_registration: &ReaderRegistration)
        ensures
            *reader_registration == self.registration(),
    {
        &self.reader_registration
    }

    /// Starts a session with the verifier whose engagement is given, and
    /// says in which state the session is.
    ///
    /// The holder answers the engagement with its own, derives the keys of
    /// the session, receives the verifier's request, checks who the verifier
    /// is and what it may ask, and matches the request against its
    /// credentials. Where the holder lacks something, the session is one of
    /// missing attributes. Where it has exactly one credential for every
    /// type that is asked of, the session is a proposal. Everything else
    /// leaves no session. What the verifier sends, what the store of
    /// credentials holds, which key is drawn and what the clock shows is not
    /// known here; [`start_outcome`] says what follows from each, step by
    /// step.
    pub fn start_session<S: MdocDataSource>(
        client: H,
        reader_engagement_bytes: &[u8],
        return_url: Option<String>,
        session_type: SessionType,
        mdoc_data_source: &S,
        trust_anchors: &[Vec<u8>],
    ) -> (session: Result<
        MdocDisclosureSessionState<DisclosureMissingAttributes<H>, DisclosureSession<H>>,
        Error,
    >)
        ensures
            start_outcome(
                client,
                reader_engagement_bytes@,
                return_url,
                session_type,
                mdoc_data_source,
                byte_views(trust_anchors@),
                session,
            ),
            cbor_decoding(reader_engagement_bytes@) is None ==> session matches Err(
                Error::Cbor(CborError::Decoding),
            ),
            cbor_decoding(reader_engagement_bytes@) matches Some(item) && holds_no_engagement(item)
                ==> session matches Err(Error::Cbor(CborError::UnexpectedItem)),
            engagement_names_no_address(reader_engagement_bytes@) <==> session matches Err(
                Error::Holder(HolderError::VerifierUrlMissing),
            ),
            session matches Ok(MdocDisclosureSessionState::Proposal(proposal)) ==> {
                &&& one_proposal_per_type(proposal.proposals())
                &&& proposals_well_formed(proposal.proposals())
                &&& proposal.returning_to() == return_url
                &&& proposal.connection() == client
                &&& engagement_names(reader_engagement_bytes@, proposal.verifier_address())
            },
            session matches Ok(MdocDisclosureSessionState::MissingAttributes(missing)) ==> {
                &&& missing.connection() == client
                &&& engagement_names(reader_engagement_bytes@, missing.verifier_address())
            },
    {
        let reader_engagement = match ReaderEngagement::from_bytes(reader_engagement_bytes) {
            Ok(reader_engagement) => reader_engagement,
            Err(error) => {
                proof {
                    if error == CborError::UnexpectedItem {
                        assert forall|engagement: Engagement| #[trigger]
                            engagement.read_from_bytes(
                                reader_engagement_bytes@,
                            ) implies !engagement.well_formed() by {}
                    }
                }
                return Err(Error::Cbor(error));
            },
        };
        proof {
            assert forall|engagement: Engagement| #[trigger]
                engagement.read_from_bytes(
                    reader_engagement_bytes@,
                ) implies (engagement.connection_methods is Some
                <==> reader_engagement.0.connection_methods is Some) && (
            engagement.connection_methods is Some ==> engagement.connection_methods->0.len()
                == reader_engagement.0.connection_methods->0.len()) by {
                lemma_same_cbor_same_parts(&engagement, &reader_engagement.0);
                if engagement.connection_methods is Some {
                    let mine = connection_methods_cbor(engagement.connection_methods->0@)->Array_0;
                    let theirs = connection_methods_cbor(
                        reader_engagement.0.connection_methods->0@,
                    )->Array_0;
                    assert(mine.len() == engagement.connection_methods->0.len());
                    assert(theirs.len() == reader_engagement.0.connection_methods->0.len());
                }
            }
        }
        let verifier_url = match reader_engagement.verifier_url() {
            Ok(verifier_url) => verifier_url.clone(),
            Err(error) => { return Err(Error::Holder(error)); },
        };
        let ghost anchors = byte_views(trust_anchors@);
        let (device_engagement, ephemeral_privkey) = match DeviceEngagement::new_device_engagement(
            REFERRER_URL.to_owned(),
        ) {
            Ok(engaged) => engaged,
            Err(error) => { return Err(error); },
        };
        let ghost scalar = ephemeral_privkey.scalar();
        let derived = reader_engagement.transcript_and_keys_for_device_engagement(
            session_type,
            &device_engagement,
            ephemeral_privkey,
        );
        let ghost derivation = derived;
        let (transcript, reader_key, device_key) = match derived {
            Ok(derived) => derived,
            Err(error) => {
                let failed = Err(error);
                proof {
                    assert(reader_engagement.derivation_outcome(
                        session_type,
                        &device_engagement,
                        scalar,
                        derivation,
                    ));
                    assert(session_of_engagement(
                        client,
                        reader_engagement,
                        return_url,
                        session_type,
                        mdoc_data_source,
                        anchors,
                        failed,
                    ));
                }
                return failed;
            },
        };
        let message = device_engagement.to_bytes();
        let ghost address = verifier_url@;
        let ghost keys = (reader_key, device_key);
        let session = match client.post(&verifier_url, &message) {
            Err(error) => Err(Error::Http(error)),
            Ok(answer) => {
                let time = now();
                let session = match check_request(
                    &answer,
                    &reader_key,
                    &transcript,
                    time,
                    trust_anchors,
                ) {
                    Err(error) => Err(error),
                    Ok((device_request, reader_registration)) => {
                        let ghost request = device_request;
                        let ghost registration = reader_registration;
                        let session = match device_request.match_stored_documents(
                            mdoc_data_source,
                            &transcript,
                        ) {
                            Err(error) => Err(Error::Holder(error)),
                            Ok(matched) => {
                                proof {
                                    let groups = choose|groups: Seq<Seq<MdocView>>|
                                        {
                                            &&& mdoc_data_source.holds(
                                                device_request.requested_doc_types(),
                                                groups,
                                            )
                                            &&& groups_well_formed(
                                                device_request.requested_doc_types(),
                                                groups,
                                            )
                                            &&& matched@ == #[trigger] match_result(
                                                device_request.requested_doc_types(),
                                                device_request.all_identifiers(),
                                                groups,
                                                transcript.to_cbor(),
                                            )
                                        };
                                    if matched@ is Candidates {
                                        lemma_proposals_well_formed(
                                            device_request.requested_doc_types(),
                                            device_request.all_identifiers(),
                                            groups,
                                            transcript.to_cbor(),
                                        );
                                        if ambiguous_types(matched@->Candidates_0).len() == 0 {
                                            lemma_one_proposal_per_type(
                                                device_request.requested_doc_types(),
                                                device_request.all_identifiers(),
                                                groups,
                                                transcript.to_cbor(),
                                            );
                                        }
                                    }
                                }
                                session_from_match(
                                    client,
                                    verifier_url,
                                    return_url,
                                    device_key,
                                    reader_registration,
                                    matched,
                                )
                            },
                        };
                        proof {
                            assert(session_of_request(
                                client,
                                address,
                                return_url,
                                keys.1,
                                mdoc_data_source,
                                request,
                                registration,
                                transcript.to_cbor(),
                                session,
                            ));
                        }
                        session
                    },
                };
                proof {
                    assert(session_of_answer(
                        client,
                        address,
                        return_url,
                        keys.0,
                        keys.1,
                        transcript.to_cbor(),
                        mdoc_data_source,
                        anchors,
                        answer@,
                        time,
                        session,
                    ));
                }
                session
            },
        };
        proof {
            assert(session_of_exchange(
                client,
                address,
                message@,
                return_url,
                keys.0,
                keys.1,
                transcript.to_cbor(),
                mdoc_data_source,
                anchors,
                session,
            ));
            assert(reader_engagement.derivation_outcome(
                session_type,
                &device_engagement,
                scalar,
                derivation,
            ));
            assert(session_of_engagement(
                client,
                reader_engagement,
                return_url,
                session_type,
                mdoc_data_source,
                anchors,
                session,
            ));
        }
        session
    }

    /// Starts a session with the verifier whose engagement is given. A
    /// session comes back only if the holder has something to propose;
    /// where it lacks something, what is missing comes back as an error,
    /// with the verifier's registration.
    pub fn start<S: MdocDataSource>(
        client: H,
        reader_engagement_bytes: &[u8],
        return_url: Option<String>,
        session_type: SessionType,
        mdoc_data_source: &S,
        trust_anchors: &[Vec<u8>],
    ) -> (session: Result<Self, Error>)
        ensures
            exists|
                state: Result<
                    MdocDisclosureSessionState<DisclosureMissingAttributes<H>, DisclosureSession<H>>,
                    Error,
                >,
            |
                {
                    &&& #[trigger] start_outcome(
                        client,
                        reader_engagement_bytes@,
                        return_url,
                        session_type,
                        mdoc_data_source,
                        byte_views(trust_anchors@),
                        state,
                    )
                    &&& proposal_or_error(state, session)
                },
            cbor_decoding(reader_engagement_bytes@) is None ==> session matches Err(
                Error::Cbor(CborError::Decoding),
            ),
            cbor_decoding(reader_engagement_bytes@) matches Some(item) && holds_no_engagement(item)
                ==> session matches Err(Error::Cbor(CborError::UnexpectedItem)),
            engagement_names_no_address(reader_engagement_bytes@) <==> session matches Err(
                Error::Holder(HolderError::VerifierUrlMissing),
            ),
            session matches Ok(session) ==> {
                &&& one_proposal_per_type(session.proposals())
                &&& proposals_well_formed(session.proposals())
                &&& session.returning_to() == return_url
                &&& session.connection() == client
                &&& engagement_names(reader_engagement_bytes@, session.verifier_address())
            },
    {
        let state = Self::start_session(
            client,
            reader_engagement_bytes,
            return_url,
            session_type,
            mdoc_data_source,
            trust_anchors,
        );
        proposal_of(state)
    }

    /// What would be disclosed, for the user to look at: for each proposal
    /// its type and its attributes, in order.
    pub fn proposed_attributes(&self) -> (shown: ProposedAttributes)
        ensures
            shown.len() == self.proposals().len(),
            forall|i: int|
                0 <= i < shown.len() ==> (#[trigger] shown[i]).0@ == self.proposals()[i].doc_type
                    && shows(shown[i].1@, self.proposals()[i].issuer_signed),
    {
        let mut shown: ProposedAttributes = Vec::new();
        let mut i: usize = 0;
        while i < self.proposed_documents.len()
            invariant
                i <= self.proposed_documents.len(),
                shown.len() == i,
                forall|k: int|
                    0 <= k < i ==> (#[trigger] shown[k]).0@ == self.proposed_documents[k]@.doc_type
                        && shows(shown[k].1@, self.proposed_documents[k]@.issuer_signed),
            decreases self.proposed_documents.len() - i,
        {
            let document = &self.proposed_documents[i];
            shown.push((document.doc_type.clone(), document.name_spaces()));
            i += 1;
        }
        shown
    }

    /// Discloses what is proposed: signs every proposal with its key, sends
    /// the answer to the verifier, and reads the verifier's acknowledgement.
    /// The session is used up, whatever comes of it. An error says whether
    /// the verifier may have received the answer: not before the answer is
    /// sent, and from then on.
    pub fn disclose<KF: KeyFactory>(self, key_factory: &KF) -> (disclosed: Result<
        (),
        DisclosureError,
    >)
        ensures
            disclosure_outcome(
                key_factory,
                self.proposed(),
                &self.sending_key(),
                &self.connection(),
                self.verifier_address(),
                disclosed,
            ),
            disclosed matches Err(failed) ==> (!failed.data_shared <==> failed.error is Signing
                || failed.error is Crypto || (failed.error matches Error::Cbor(error) && error
                == CborError::Encoding)),
    {
        let ghost proposals = self.proposed_documents@;
        let documents = match sign_proposals(self.proposed_documents, key_factory) {
            Ok(documents) => documents,
            Err(error) => {
                return Err(DisclosureError { data_shared: false, error: Error::Signing(error) });
            },
        };
        let ghost signed = documents@;
        let message = match assemble_response(documents, &self.device_key) {
            Ok(message) => message,
            Err(error) => {
                proof {
                    assert(is_unsendable(key_factory, proposals, &self.device_key, error));
                }
                return Err(DisclosureError { data_shared: false, error });
            },
        };
        proof {
            assert(is_signed_answer(key_factory, proposals, &self.device_key, message@));
        }
        let answer = match self.client.post(&self.verifier_url, &message) {
            Ok(answer) => answer,
            Err(error) => {
                proof {
                    assert(is_unanswered(
                        key_factory,
                        proposals,
                        &self.device_key,
                        &self.client,
                        self.verifier_url@,
                        error,
                    ));
                }
                return Err(DisclosureError { data_shared: true, error: Error::Http(error) });
            },
        };
        let checked = check_acknowledgement(&answer);
        proof {
            assert(self.client.answers(self.verifier_url@, message@, answer@));
            assert(is_acknowledged(
                key_factory,
                proposals,
                &self.device_key,
                &self.client,
                self.verifier_url@,
                checked,
            ));
        }
        match checked {
            Ok(()) => Ok(()),
            Err(error) => Err(DisclosureError { data_shared: true, error }),
        }
    }

    /// Ends the session without disclosing anything, and tells the verifier
    /// so: the message that ends a session goes to the verifier's address.
    /// The session is used up even if the verifier cannot be told.
    pub fn terminate(self) -> (terminated: Result<(), Error>)
        ensures
            termination_outcome(&self.connection(), self.verifier_address(), terminated),
    {
        post_termination(&self.client, &self.verifier_url)
    }
}

impl DeviceRequest {
    /// Whether `matched` is what comes of asking `store` for the
    /// credentials of the types that this request asks of, each type once,
    /// and matching the request against them: the match against what the
    /// store holds, or the store's own error.
    pub open spec fn stored_match_outcome<S: MdocDataSource>(
        &self,
        store: &S,
        transcript: Cbor,
        matched: Result<DeviceRequestMatch, HolderError>,
    ) -> bool {
        match matched {
            Ok(matched) => exists|groups: Seq<Seq<MdocView>>|
                {
                    &&& store.holds(self.requested_doc_types(), groups)
                    &&& groups_well_formed(self.requested_doc_types(), groups)
                    &&& matched@ == #[trigger] match_result(
                        self.requested_doc_types(),
                        self.all_identifiers(),
                        groups,
                        transcript,
                    )
                },
            Err(HolderError::MdocDataSource(error)) => store.fails(
                self.requested_doc_types(),
                error,
            ),
            Err(_) => false,
        }
    }

    /// Asks the store for the credentials of the types that the request
    /// asks of, and matches the request against them.
    pub fn match_stored_documents<S: MdocDataSource>(
        &self,
        mdoc_data_source: &S,
        session_transcript: &SessionTranscript,
    ) -> (matched: Result<DeviceRequestMatch, HolderError>)
        ensures
            self.stored_match_outcome(mdoc_data_source, session_transcript.to_cbor(), matched),
    {
        let doc_types = self.doc_types();
        proof {
            lemma_distinct_no_duplicates(self.all_doc_types());
        }
        let mdocs = match mdoc_data_source.mdoc_by_doc_types(&doc_types) {
            Ok(mdocs) => mdocs,
            Err(error) => { return Err(HolderError::MdocDataSource(error)); },
        };
        let ghost groups = group_views(mdocs@);
        let matched = self.match_documents(mdocs, session_transcript);
        assert(matched@ == match_result(
            self.requested_doc_types(),
            self.all_identifiers(),
            groups,
            session_transcript.to_cbor(),
        ));
        Ok(matched)
    }
}

/// Engagements with the same data item have the same parts.
pub proof fn lemma_same_cbor_same_parts(left: &Engagement, right: &Engagement)
    requires
        left.to_cbor() == right.to_cbor(),
    ensures
        left.parts() == right.parts(),
{
    let all = left.to_cbor()->Table_0;
    let other = right.to_cbor()->Table_0;
    assert(all == other);
    assert(all[all.len() - 1] == (Cbor::Integer(5), left.parts().2));
    assert(other[other.len() - 1] == (Cbor::Integer(5), right.parts().2));
    if left.parts().0 is Some {
        assert(all[1] == (Cbor::Integer(1), left.parts().0->0));
        if right.parts().0 is None {
            assert(other[1].0 != Cbor::Integer(1));
        } else {
            assert(other[1] == (Cbor::Integer(1), right.parts().0->0));
        }
    } else {
        assert(all[1].0 != Cbor::Integer(1));
        if right.parts().0 is Some {
            assert(other[1] == (Cbor::Integer(1), right.parts().0->0));
        }
    }
    if left.parts().1 is Some {
        assert(all[all.len() - 2] == (Cbor::Integer(2), left.parts().1->0));
        if right.parts().1 is None {
            assert(other[other.len() - 2].0 != Cbor::Integer(2));
        } else {
            assert(other[other.len() - 2] == (Cbor::Integer(2), right.parts().1->0));
        }
    } else {
        assert(all[all.len() - 2].0 != Cbor::Integer(2));
        if right.parts().1 is Some {
            assert(other[other.len() - 2] == (Cbor::Integer(2), right.parts().1->0));
        }
    }
}

/// Engagements with the same data item hold the same addresses.
pub proof fn lemma_same_cbor_same_addresses(left: &Engagement, right: &Engagement)
    requires
        left.to_cbor() == right.to_cbor(),
    ensures
        left.well_formed() == right.well_formed(),
{
    lemma_same_cbor_same_parts(left, right);
    match (left.connection_methods, right.connection_methods) {
        (Some(mine), Some(theirs)) => {
            let items = connection_methods_cbor(mine@)->Array_0;
            let others = connection_methods_cbor(theirs@)->Array_0;
            assert(items == others);
            assert(items.len() == mine.len());
            assert(others.len() == theirs.len());
            assert(mine.len() == theirs.len());
            assert forall|i: int| 0 <= i < mine.len() implies (
            #[trigger] mine[i]).connection_options.uri@ == theirs[i].connection_options.uri@ by {
                assert(items[i] == others[i]);
                assert(mine[i].to_cbor()->Array_0[2]->Table_0[0] == theirs[i].to_cbor()->Array_0[2]->Table_0[0]);
            }
            assert((forall|i: int|
                0 <= i < mine.len() ==> url_accepted(
                    (#[trigger] mine[i]).connection_options.uri@,
                )) == (forall|i: int|
                0 <= i < theirs.len() ==> url_accepted(
                    (#[trigger] theirs[i]).connection_options.uri@,
                ))) by {
                if forall|i: int|
                    0 <= i < mine.len() ==> url_accepted(
                        (#[trigger] mine[i]).connection_options.uri@,
                    ) {
                    assert forall|i: int| 0 <= i < theirs.len() implies url_accepted(
                        (#[trigger] theirs[i]).connection_options.uri@,
                    ) by {
                        assert(mine[i].connection_options.uri@ == theirs[i].connection_options.uri@);
                    }
                }
                if forall|i: int|
                    0 <= i < theirs.len() ==> url_accepted(
                        (#[trigger] theirs[i]).connection_options.uri@,
                    ) {
                    assert forall|i: int| 0 <= i < mine.len() implies url_accepted(
                        (#[trigger] mine[i]).connection_options.uri@,
                    ) by {
                        assert(mine[i].connection_options.uri@ == theirs[i].connection_options.uri@);
                    }
                }
            }
        },
        _ => {},
    }
    let mine = left.origin_infos@;
    let theirs = right.origin_infos@;
    let items = origin_infos_cbor(mine)->Array_0;
    let others = origin_infos_cbor(theirs)->Array_0;
    assert(items == others);
    assert(items.len() == mine.len());
    assert(others.len() == theirs.len());
    assert(mine.len() == theirs.len());
    assert forall|i: int| 0 <= i < mine.len() implies origin_accepted(#[trigger] mine[i])
        == origin_accepted(theirs[i]) by {
        assert(items[i] == others[i]);
        let a = mine[i].to_cbor()->Table_0;
        let b = theirs[i].to_cbor()->Table_0;
        assert(a == b);
        assert(a[1] == b[1]);
        if mine[i].typ is Website {
            assert(a.len() == 3);
            assert(theirs[i].typ is Website);
            assert(a[2].1->Table_0[0] == b[2].1->Table_0[0]);
        } else {
            assert(a.len() == 2);
        }
    }
    if left.well_formed() {
        assert forall|i: int| 0 <= i < theirs.len() implies origin_accepted(#[trigger] theirs[i]) by {
            assert(origin_accepted(mine[i]));
        }
    }
    if right.well_formed() {
        assert forall|i: int| 0 <= i < mine.len() implies origin_accepted(#[trigger] mine[i]) by {
            assert(origin_accepted(theirs[i]));
        }
    }
}

/// A session's transcript and keys are a matter of the kind of session, the
/// two engagements and the holder's private key alone: whoever works them
/// out again from the same gets the same transcript, byte for byte, and the
/// same keys.
pub proof fn lemma_transcript_and_keys_determined(
    session_type: SessionType,
    reader: &ReaderEngagement,
    reader_again: &ReaderEngagement,
    device: &DeviceEngagement,
    device_again: &DeviceEngagement,
    transcript: &SessionTranscript,
    transcript_again: &SessionTranscript,
    scalar: Seq<u8>,
    user: SessionKeyUser,
)
    requires
        reader.0.to_cbor() == reader_again.0.to_cbor(),
        device.0.to_cbor() == device_again.0.to_cbor(),
        reader.0.security is Some,
        reader_again.0.security is Some,
        transcript.to_cbor() == session_transcript_cbor(
            session_type,
            reader.0.to_cbor(),
            reader.0.security->0.e_sender_key_bytes@,
            device.0.to_cbor(),
        ),
        transcript_again.to_cbor() == session_transcript_cbor(
            session_type,
            reader_again.0.to_cbor(),
            reader_again.0.security->0.e_sender_key_bytes@,
            device_again.0.to_cbor(),
        ),
    ensures
        transcript.to_cbor() == transcript_again.to_cbor(),
        cbor_encoding(transcript.to_cbor()) == cbor_encoding(transcript_again.to_cbor()),
        key_coordinates(reader.0.security->0.e_sender_key_bytes@) == key_coordinates(
            reader_again.0.security->0.e_sender_key_bytes@,
        ),
        key_coordinates(reader.0.security->0.e_sender_key_bytes@) matches Some(point)
            ==> session_key_bytes(scalar, point.0, point.1, transcript.to_cbor(), user)
            == session_key_bytes(scalar, point.0, point.1, transcript_again.to_cbor(), user),
{
    lemma_same_cbor_same_parts(&reader.0, &reader_again.0);
    let mine = reader.0.security->0.to_cbor()->Array_0;
    let theirs = reader_again.0.security->0.to_cbor()->Array_0;
    assert(mine == theirs);
    assert(mine[1] == theirs[1]);
    assert(reader.0.security->0.e_sender_key_bytes@
        == reader_again.0.security->0.e_sender_key_bytes@);
}

} // verus!
