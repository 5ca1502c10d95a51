use std::sync::Mutex;

use p256::ecdsa::signature::{Signer, Verifier};
use p256::pkcs8::DecodePrivateKey;

use mdoc_holder::error::{CborError, Error, TransportError};
use mdoc_holder::holder::disclosure::{DeviceRequestMatch, ProposedDocument};
use mdoc_holder::holder::session::{
    check_acknowledgement, check_request, open_device_request, proposal_of, session_from_match,
    DisclosureMissingAttributes, DisclosureSession, HttpClient, MdocDataSource, MdocDisclosureSessionState,
};
use mdoc_holder::holder::{DataSourceError, HolderError, Mdoc};
use mdoc_holder::identifiers::AttributeIdentifier;
use mdoc_holder::iso::device_retrieval::{
    DeviceRequest, DeviceRequestVersion, DocRequest, ItemsRequest, ReaderAuthenticationKeyed,
};
use mdoc_holder::iso::disclosure::{KeyFactory, MdocEcdsaKey, SigningError};
use mdoc_holder::iso::engagement::{
    CipherSuiteIdentifier, ConnectionMethod, CoseKey, Engagement, EngagementVersion, Handover,
    ReaderEngagement, Security, SessionTranscript, SessionType,
    DeviceEngagement,
};
use mdoc_holder::iso::mdocs::{IssuerSigned, IssuerSignedItem};
use mdoc_holder::iso::session::SessionData;
use mdoc_holder::utils::cbor::{decode, encode, DataItem};
use mdoc_holder::utils::cose::{es256_header_bytes, CoseError, CoseSign1};
use mdoc_holder::utils::crypto::{CryptoError, PublicKey, SecretKey, SessionKey, SessionKeyUser};
use mdoc_holder::utils::reader_auth::{
    DeletionPolicy, Image, ImageType, Organization, ReaderRegistration, RetentionPolicy, SharingPolicy,
};
use mdoc_holder::utils::x509::{Certificate, CertificateError};

const RP_CA_CN: &str = "ca.rp.example.com";
const RP_CERT_CN: &str = "cert.rp.example.com";
const SESSION_URL: &str = "http://example.com/disclosure";
const RETURN_URL: &str = "http://example.com/return";

const EXAMPLE_DOC_TYPE: &str = "org.iso.18013.5.1.mDL";
const EXAMPLE_NAMESPACE: &str = "org.iso.18013.5.1";
const EXAMPLE_ATTRIBUTES: [&str; 5] =
    ["family_name", "issue_date", "expiry_date", "document_number", "driving_privileges"];

// The first of January 2024, in seconds since 1970.
const NOW: u64 = 1_704_067_200;

/// A UTF-8 string in DER.
fn der_utf8(text: &str) -> Vec<u8> {
    let mut der = vec![0x0c];
    let length = text.len();
    if length < 0x80 {
        der.push(length as u8);
    } else if length < 0x100 {
        der.extend_from_slice(&[0x81, length as u8]);
    } else {
        der.extend_from_slice(&[0x82, (length >> 8) as u8, length as u8]);
    }
    der.extend_from_slice(text.as_bytes());
    der
}

fn registration_json(doc_type: &str, name_space: &str, attributes: &[&str]) -> String {
    let attributes: Vec<String> =
        attributes.iter().map(|attribute| format!("\"{}\": {{}}", attribute)).collect();
    format!(
        "{{\"purposeStatement\": {{\"nl\": \"Leeftijd controleren\", \"en\": \"Checking age\"}}, \
         \"retentionPolicy\": {{\"intentToRetain\": true, \"maxDurationInMinutes\": 1440}}, \
         \"sharingPolicy\": {{\"intentToShare\": false}}, \
         \"deletionPolicy\": {{\"deleteable\": true}}, \
         \"organization\": {{\"displayName\": {{\"en\": \"Shop\"}}, \"legalName\": {{\"en\": \"Shop Ltd\"}}, \
         \"description\": {{\"en\": \"A shop\"}}, \"category\": {{\"en\": \"Retail\"}}, \
         \"logo\": {{\"mimeType\": \"image/png\", \"imageData\": \"aGVsbG8=\"}}, \
         \"webUrl\": \"https://shop.example.com\", \"kvk\": \"12345678\", \
         \"city\": {{\"en\": \"The Hague\"}}, \"countryCode\": \"nl\", \
         \"privacyPolicyUrl\": \"https://shop.example.com/privacy\"}}, \
         \"requestOriginBaseUrl\": \"https://shop.example.com\", \
         \"attributes\": {{\"{}\": {{\"{}\": {{{}}}}}}}}}",
        doc_type,
        name_space,
        attributes.join(", ")
    )
}

struct Authority {
    certificate: Vec<u8>,
    issuer: rcgen::Issuer<'static, rcgen::KeyPair>,
}

fn authority(common_name: &str) -> Authority {
    let key = rcgen::KeyPair::generate().unwrap();
    let mut params = rcgen::CertificateParams::new(Vec::<String>::new()).unwrap();
    params.is_ca = rcgen::IsCa::Ca(rcgen::BasicConstraints::Unconstrained);
    params.distinguished_name = rcgen::DistinguishedName::new();
    params.distinguished_name.push(rcgen::DnType::CommonName, common_name);
    params.key_usages = vec![rcgen::KeyUsagePurpose::KeyCertSign, rcgen::KeyUsagePurpose::CrlSign];
    let certificate = params.self_signed(&key).unwrap().der().to_vec();
    Authority { certificate, issuer: rcgen::Issuer::new(params, key) }
}

struct Reader {
    certificate: Vec<u8>,
    signing_key: p256::ecdsa::SigningKey,
}

fn reader(authority: &Authority, registration: Option<&str>, for_readers: bool) -> Reader {
    let key = rcgen::KeyPair::generate().unwrap();
    let mut params = rcgen::CertificateParams::new(Vec::<String>::new()).unwrap();
    params.distinguished_name = rcgen::DistinguishedName::new();
    params.distinguished_name.push(rcgen::DnType::CommonName, RP_CERT_CN);
    params.extended_key_usages = if for_readers {
        vec![rcgen::ExtendedKeyUsagePurpose::Other(vec![1, 0, 18013, 5, 1, 6])]
    } else {
        vec![rcgen::ExtendedKeyUsagePurpose::ServerAuth]
    };
    if let Some(registration) = registration {
        params
            .custom_extensions
            .push(rcgen::CustomExtension::from_oid_content(&[2, 1, 123, 1], der_utf8(registration)));
    }
    let certificate = params.signed_by(&key, &authority.issuer).unwrap().der().to_vec();
    let signing_key = p256::ecdsa::SigningKey::from_pkcs8_der(key.serialized_der()).unwrap();
    Reader { certificate, signing_key }
}

fn items_request(doc_type: &str, name_space: &str, attributes: &[&str]) -> ItemsRequest {
    ItemsRequest {
        doc_type: doc_type.to_string(),
        name_spaces: vec![(
            name_space.to_string(),
            attributes.iter().map(|attribute| (attribute.to_string(), false)).collect(),
        )],
        request_info: None,
    }
}

fn sign(reader: &Reader, transcript: &SessionTranscript, items_request: &ItemsRequest) -> CoseSign1 {
    let payload = ReaderAuthenticationKeyed::new(transcript, items_request).to_bytes().unwrap();
    let protected = es256_header_bytes();
    let header = coset::ProtectedHeader {
        original_data: Some(protected.clone()),
        header: coset::Header::default(),
    };
    let message =
        coset::sig_structure_data(coset::SignatureContext::CoseSign1, header, None, &[], &payload);
    let signature: p256::ecdsa::Signature = reader.signing_key.sign(&message);
    CoseSign1 {
        protected,
        unprotected: vec![(DataItem::Integer(33), DataItem::Bytes(reader.certificate.clone()))],
        payload: None,
        signature: signature.to_bytes().to_vec(),
    }
}

fn signed_request(
    reader: &Reader,
    transcript: &SessionTranscript,
    items_request: ItemsRequest,
) -> DocRequest {
    let reader_auth = Some(sign(reader, transcript, &items_request));
    DocRequest { items_request, reader_auth }
}

fn device_request(doc_requests: Vec<DocRequest>) -> DeviceRequest {
    DeviceRequest { version: DeviceRequestVersion::V1_0, doc_requests, return_url: None }
}

fn transcript() -> SessionTranscript {
    SessionTranscript {
        device_engagement_bytes: vec![0xa0],
        ereader_key_bytes: vec![0xa0],
        handover: Handover::QrHandover,
    }
}

fn identifier(doc_type: &str, name_space: &str, attribute: &str) -> AttributeIdentifier {
    AttributeIdentifier {
        doc_type: doc_type.to_string(),
        namespace: name_space.to_string(),
        attribute: attribute.to_string(),
    }
}

fn example_registration() -> String {
    registration_json(EXAMPLE_DOC_TYPE, EXAMPLE_NAMESPACE, &EXAMPLE_ATTRIBUTES)
}

fn english(text: &str) -> Vec<(String, String)> {
    vec![("en".to_string(), text.to_string())]
}

/// The registration that `example_registration` writes down.
fn example_registration_value() -> ReaderRegistration {
    ReaderRegistration {
        purpose_statement: vec![
            ("nl".to_string(), "Leeftijd controleren".to_string()),
            ("en".to_string(), "Checking age".to_string()),
        ],
        retention_policy: RetentionPolicy { intent_to_retain: true, max_duration_in_minutes: Some(1440) },
        sharing_policy: SharingPolicy { intent_to_share: false },
        deletion_policy: DeletionPolicy { deleteable: true },
        organization: Organization {
            display_name: english("Shop"),
            legal_name: english("Shop Ltd"),
            description: english("A shop"),
            category: english("Retail"),
            logo: Some(Image { mime_type: ImageType::Png, image_data: "aGVsbG8=".to_string() }),
            web_url: Some("https://shop.example.com".to_string()),
            kvk: Some("12345678".to_string()),
            city: Some(english("The Hague")),
            department: None,
            country_code: Some("nl".to_string()),
            privacy_policy_url: Some("https://shop.example.com/privacy".to_string()),
        },
        request_origin_base_url: "https://shop.example.com".to_string(),
        attributes: vec![(
            EXAMPLE_DOC_TYPE.to_string(),
            vec![(
                EXAMPLE_NAMESPACE.to_string(),
                EXAMPLE_ATTRIBUTES.iter().map(|attribute| attribute.to_string()).collect(),
            )],
        )],
    }
}

fn example_items_request() -> ItemsRequest {
    items_request(EXAMPLE_DOC_TYPE, EXAMPLE_NAMESPACE, &EXAMPLE_ATTRIBUTES)
}

#[test]
fn registration_is_read_from_the_certificate() {
    let authority = authority(RP_CA_CN);
    let reader = reader(&authority, Some(&example_registration()), true);

    let registration = ReaderRegistration::from_certificate(&Certificate::from_der(reader.certificate))
        .expect("the certificate is read")
        .expect("the certificate carries a registration");

    assert_eq!(
        registration.purpose_statement,
        vec![
            ("nl".to_string(), "Leeftijd controleren".to_string()),
            ("en".to_string(), "Checking age".to_string()),
        ]
    );
    assert!(registration.retention_policy.intent_to_retain);
    assert_eq!(registration.retention_policy.max_duration_in_minutes, Some(1440));
    assert!(!registration.sharing_policy.intent_to_share);
    assert!(registration.deletion_policy.deleteable);
    assert_eq!(registration.organization.display_name, vec![("en".to_string(), "Shop".to_string())]);
    assert_eq!(registration.organization.web_url.as_deref(), Some("https://shop.example.com"));
    assert_eq!(registration.organization.kvk.as_deref(), Some("12345678"));
    assert!(registration.organization.department.is_none());
    assert_eq!(registration.organization.logo.as_ref().unwrap().image_data, "aGVsbG8=");
    assert_eq!(registration.request_origin_base_url, "https://shop.example.com");
    assert_eq!(
        registration.attributes,
        vec![(
            EXAMPLE_DOC_TYPE.to_string(),
            vec![(
                EXAMPLE_NAMESPACE.to_string(),
                EXAMPLE_ATTRIBUTES.iter().map(|attribute| attribute.to_string()).collect()
            )]
        )]
    );
    assert!(registration.is_authorized(&identifier(EXAMPLE_DOC_TYPE, EXAMPLE_NAMESPACE, "issue_date")));
    assert!(!registration.is_authorized(&identifier(EXAMPLE_DOC_TYPE, EXAMPLE_NAMESPACE, "portrait")));
    assert!(!registration.is_authorized(&identifier(EXAMPLE_DOC_TYPE, "other", "issue_date")));
}

#[test]
fn certificate_without_registration_carries_none() {
    let authority = authority(RP_CA_CN);
    let reader = reader(&authority, None, true);
    let registration =
        ReaderRegistration::from_certificate(&Certificate::from_der(reader.certificate)).unwrap();
    assert!(registration.is_none());
}

#[test]
fn certificate_with_something_else_in_place_of_a_registration_is_refused() {
    let authority = authority(RP_CA_CN);
    let not_json = reader(&authority, Some("no registration"), true);
    assert!(matches!(
        ReaderRegistration::from_certificate(&Certificate::from_der(not_json.certificate)),
        Err(CertificateError::Parsing)
    ));
    let incomplete = reader(&authority, Some("{\"attributes\": {}}"), true);
    assert!(matches!(
        ReaderRegistration::from_certificate(&Certificate::from_der(incomplete.certificate)),
        Err(CertificateError::Parsing)
    ));
    assert!(matches!(
        ReaderRegistration::from_certificate(&Certificate::from_der(vec![1, 2, 3])),
        Err(CertificateError::Parsing)
    ));
}

#[test]
fn signed_request_gives_the_certificate_of_the_signer() {
    let authority = authority(RP_CA_CN);
    let reader = reader(&authority, Some(&example_registration()), true);
    let request = signed_request(&reader, &transcript(), example_items_request());

    let certificate = request
        .verify(&transcript(), NOW, &vec![authority.certificate.clone()])
        .expect("the signature is good")
        .expect("the request is signed");
    assert_eq!(certificate.der, reader.certificate);
}

#[test]
fn request_without_signature_gives_no_certificate() {
    let request = DocRequest { items_request: example_items_request(), reader_auth: None };
    assert!(request.verify(&transcript(), NOW, &vec![]).unwrap().is_none());
}

#[test]
fn signature_under_another_transcript_is_refused() {
    let authority = authority(RP_CA_CN);
    let reader = reader(&authority, Some(&example_registration()), true);
    let request = signed_request(&reader, &transcript(), example_items_request());
    let mut other = transcript();
    other.handover = Handover::SchemeHandoverBytes(vec![0xa0]);

    assert!(matches!(
        request.verify(&other, NOW, &vec![authority.certificate.clone()]),
        Err(Error::Cose(CoseError::EcdsaSignatureVerificationFailed))
    ));
}

#[test]
fn signature_under_another_request_is_refused() {
    let authority = authority(RP_CA_CN);
    let reader = reader(&authority, Some(&example_registration()), true);
    let mut request = signed_request(&reader, &transcript(), example_items_request());
    request.items_request.name_spaces[0].1.push(("portrait".to_string(), false));

    assert!(matches!(
        request.verify(&transcript(), NOW, &vec![authority.certificate.clone()]),
        Err(Error::Cose(CoseError::EcdsaSignatureVerificationFailed))
    ));
}

#[test]
fn certificate_of_an_unknown_authority_is_refused() {
    let authority = authority(RP_CA_CN);
    let other = self::authority("ca.other.example.com");
    let reader = reader(&authority, Some(&example_registration()), true);
    let request = signed_request(&reader, &transcript(), example_items_request());

    assert!(matches!(
        request.verify(&transcript(), NOW, &vec![other.certificate.clone()]),
        Err(Error::Cose(CoseError::Certificate(CertificateError::Verification)))
    ));
    assert!(matches!(
        request.verify(&transcript(), NOW, &vec![]),
        Err(Error::Cose(CoseError::Certificate(CertificateError::Verification)))
    ));
    // With both authorities trusted, the certificate is accepted.
    assert!(request
        .verify(&transcript(), NOW, &vec![other.certificate, authority.certificate])
        .is_ok());
}

#[test]
fn certificate_is_refused_before_it_is_valid() {
    let authority = authority(RP_CA_CN);
    let reader = reader(&authority, Some(&example_registration()), true);
    let request = signed_request(&reader, &transcript(), example_items_request());

    assert!(matches!(
        request.verify(&transcript(), 0, &vec![authority.certificate.clone()]),
        Err(Error::Cose(CoseError::Certificate(CertificateError::Verification)))
    ));
}

#[test]
fn certificate_for_another_use_is_refused() {
    let authority = authority(RP_CA_CN);
    let reader = reader(&authority, Some(&example_registration()), false);
    let request = signed_request(&reader, &transcript(), example_items_request());

    assert!(matches!(
        request.verify(&transcript(), NOW, &vec![authority.certificate.clone()]),
        Err(Error::Cose(CoseError::Certificate(CertificateError::Verification)))
    ));
}

#[test]
fn signature_that_names_no_signer_is_refused() {
    let authority = authority(RP_CA_CN);
    let reader = reader(&authority, Some(&example_registration()), true);
    let mut request = signed_request(&reader, &transcript(), example_items_request());
    request.reader_auth.as_mut().unwrap().unprotected.clear();
    assert!(matches!(
        request.verify(&transcript(), NOW, &vec![authority.certificate.clone()]),
        Err(Error::Cose(CoseError::MissingLabel))
    ));

    request.reader_auth.as_mut().unwrap().unprotected =
        vec![(DataItem::Integer(33), DataItem::Text("certificate".to_string()))];
    assert!(matches!(
        request.verify(&transcript(), NOW, &vec![authority.certificate.clone()]),
        Err(Error::Cose(CoseError::CertificateUnexpectedHeaderType))
    ));
}

#[test]
fn requests_without_signatures_are_from_an_unknown_verifier() {
    let request = device_request(vec![
        DocRequest { items_request: example_items_request(), reader_auth: None },
        DocRequest { items_request: example_items_request(), reader_auth: None },
    ]);
    assert!(matches!(request.verify(&transcript(), NOW, &vec![]), Ok(None)));
    assert!(matches!(device_request(vec![]).verify(&transcript(), NOW, &vec![]), Ok(None)));
}

#[test]
fn requests_of_which_only_some_are_signed_are_refused() {
    let authority = authority(RP_CA_CN);
    let reader = reader(&authority, Some(&example_registration()), true);
    let signed = signed_request(&reader, &transcript(), example_items_request());
    let unsigned = DocRequest { items_request: example_items_request(), reader_auth: None };

    let request = device_request(vec![signed, unsigned]);
    assert!(matches!(
        request.verify(&transcript(), NOW, &vec![authority.certificate.clone()]),
        Err(Error::Holder(HolderError::ReaderAuthMissing))
    ));

    let signed = signed_request(&reader, &transcript(), example_items_request());
    let unsigned = DocRequest { items_request: example_items_request(), reader_auth: None };
    let request = device_request(vec![unsigned, signed]);
    assert!(matches!(
        request.verify(&transcript(), NOW, &vec![authority.certificate.clone()]),
        Err(Error::Holder(HolderError::ReaderAuthMissing))
    ));
}

#[test]
fn requests_signed_with_different_certificates_are_refused() {
    let authority = authority(RP_CA_CN);
    let first = reader(&authority, Some(&example_registration()), true);
    let second = reader(&authority, Some(&example_registration()), true);
    let request = device_request(vec![
        signed_request(&first, &transcript(), example_items_request()),
        signed_request(&second, &transcript(), example_items_request()),
    ]);

    assert!(matches!(
        request.verify(&transcript(), NOW, &vec![authority.certificate.clone()]),
        Err(Error::Holder(HolderError::ReaderAuthsInconsistent))
    ));
}

#[test]
fn requests_signed_with_one_certificate_give_its_registration() {
    let authority = authority(RP_CA_CN);
    let reader = reader(&authority, Some(&example_registration()), true);
    let request = device_request(vec![
        signed_request(&reader, &transcript(), example_items_request()),
        signed_request(
            &reader,
            &transcript(),
            items_request(EXAMPLE_DOC_TYPE, EXAMPLE_NAMESPACE, &["family_name"]),
        ),
    ]);

    let registration = request
        .verify(&transcript(), NOW, &vec![authority.certificate.clone()])
        .expect("the signatures are good")
        .expect("the requests are signed");
    assert_eq!(registration.request_origin_base_url, "https://shop.example.com");
}

#[test]
fn verifier_without_registration_is_refused() {
    let authority = authority(RP_CA_CN);
    let reader = reader(&authority, None, true);
    let request =
        device_request(vec![signed_request(&reader, &transcript(), example_items_request())]);

    match request.verify(&transcript(), NOW, &vec![authority.certificate.clone()]) {
        Err(Error::Holder(HolderError::NoReaderRegistration(certificate))) => {
            assert_eq!(certificate.der, reader.certificate)
        }
        _ => panic!("a verifier without registration should be refused"),
    }
}

#[test]
fn verifier_that_asks_more_than_it_may_is_refused() {
    let authority = authority(RP_CA_CN);
    let registration = registration_json(EXAMPLE_DOC_TYPE, EXAMPLE_NAMESPACE, &["family_name"]);
    let reader = reader(&authority, Some(&registration), true);
    let request = device_request(vec![signed_request(
        &reader,
        &transcript(),
        items_request(EXAMPLE_DOC_TYPE, EXAMPLE_NAMESPACE, &["issue_date", "family_name", "portrait"]),
    )]);

    match request.verify(&transcript(), NOW, &vec![authority.certificate.clone()]) {
        Err(Error::Holder(HolderError::UnregisteredAttributes(refused))) => assert_eq!(
            refused,
            vec![
                identifier(EXAMPLE_DOC_TYPE, EXAMPLE_NAMESPACE, "issue_date"),
                identifier(EXAMPLE_DOC_TYPE, EXAMPLE_NAMESPACE, "portrait"),
            ]
        ),
        _ => panic!("a verifier that asks too much should be refused"),
    }
}

// From here on: whole sessions against a verifier that lives in the test.

fn example_mdoc(key: &str, attributes: &[&str]) -> Mdoc {
    Mdoc {
        doc_type: EXAMPLE_DOC_TYPE.to_string(),
        private_key_id: key.to_string(),
        issuer_signed: IssuerSigned {
            name_spaces: Some(vec![(
                EXAMPLE_NAMESPACE.to_string(),
                attributes
                    .iter()
                    .enumerate()
                    .map(|(digest_id, attribute)| IssuerSignedItem {
                        digest_id: digest_id as u64,
                        random: vec![digest_id as u8; 16],
                        element_identifier: attribute.to_string(),
                        element_value: encode(&DataItem::Text(format!("value of {}", attribute))).unwrap(),
                    })
                    .collect(),
            )]),
            issuer_auth: encode(&DataItem::Array(vec![
                DataItem::Bytes(vec![]),
                DataItem::Table(vec![]),
                DataItem::Null,
                DataItem::Bytes(vec![0; 64]),
            ]))
            .unwrap(),
        },
    }
}

struct MockMdocDataSource {
    mdocs: Vec<(&'static str, Vec<&'static str>)>,
    fails: bool,
    asked: Mutex<Vec<Vec<String>>>,
}

impl MockMdocDataSource {
    fn with(mdocs: Vec<(&'static str, Vec<&'static str>)>) -> Self {
        MockMdocDataSource { mdocs, fails: false, asked: Mutex::new(vec![]) }
    }
}

impl MdocDataSource for MockMdocDataSource {
    fn mdoc_by_doc_types(&self, doc_types: &Vec<String>) -> Result<Vec<Vec<Mdoc>>, DataSourceError> {
        self.asked.lock().unwrap().push(doc_types.clone());
        if self.fails {
            return Err(DataSourceError { message: "the store is closed".to_string() });
        }
        if doc_types.iter().any(|doc_type| doc_type == EXAMPLE_DOC_TYPE) && !self.mdocs.is_empty() {
            return Ok(vec![self
                .mdocs
                .iter()
                .map(|(key, attributes)| example_mdoc(key, attributes))
                .collect()]);
        }
        Ok(vec![])
    }
}

/// What the verifier in the test answers to the holder's engagement.
enum Answer {
    /// A request for these attributes of the example type, signed.
    Request(Vec<&'static str>),
    /// The same, from a verifier that cannot be reached afterwards.
    RequestAndThenNothing(Vec<&'static str>),
    /// The same, from a verifier that answers everything afterwards with a status.
    RequestAndThenStatus(Vec<&'static str>, u64),
    /// A request that asks for nothing.
    NoDocRequests,
    /// A request without signature.
    Unsigned,
    /// An envelope that was encrypted for someone else.
    WrongKey,
    /// Something that is no envelope.
    Garbage,
    /// No answer at all.
    Nothing,
}

struct MockVerifierSession {
    session_type: SessionType,
    authority: Authority,
    reader: Reader,
    reader_engagement: ReaderEngagement,
    reader_ephemeral_key: Vec<u8>,
    answer: Answer,
    posted: Mutex<Vec<(String, Vec<u8>)>>,
    device_key: Mutex<Option<SessionKey>>,
    transcript: Mutex<Option<SessionTranscript>>,
}

impl MockVerifierSession {
    fn new(session_type: SessionType, registration: &str, answer: Answer) -> Self {
        let authority = authority(RP_CA_CN);
        let reader = reader(&authority, Some(registration), true);
        let reader_ephemeral_key = SecretKey::random();
        let public_key = reader_ephemeral_key.public_key().unwrap();
        let key = CoseKey { x: public_key.x, y: public_key.y };
        let reader_engagement = ReaderEngagement(Engagement {
            version: EngagementVersion::V1_0,
            security: Some(Security {
                cipher_suite_identifier: CipherSuiteIdentifier::P256,
                e_sender_key_bytes: encode(&key.to_data_item()).unwrap(),
            }),
            connection_methods: Some(vec![ConnectionMethod::rest_api(SESSION_URL.to_string())]),
            origin_infos: vec![],
        });
        MockVerifierSession {
            session_type,
            authority,
            reader,
            reader_engagement,
            reader_ephemeral_key: reader_ephemeral_key.to_bytes(),
            answer,
            posted: Mutex::new(vec![]),
            device_key: Mutex::new(None),
            transcript: Mutex::new(None),
        }
    }

    fn client(&self) -> MockVerifierSessionClient<'_> {
        MockVerifierSessionClient { session: self }
    }

    fn reader_engagement_bytes(&self) -> Vec<u8> {
        self.reader_engagement.to_bytes()
    }

    fn trust_anchors(&self) -> Vec<Vec<u8>> {
        vec![self.authority.certificate.clone()]
    }

    fn device_request_session_data(&self, device_engagement_bytes: &[u8]) -> Vec<u8> {
        let device_engagement = DeviceEngagement(
            Engagement::from_data_item(&decode(device_engagement_bytes).unwrap())
                .expect("the holder sends an engagement"),
        );
        let session_transcript =
            SessionTranscript::new(self.session_type, &self.reader_engagement, &device_engagement)
                .unwrap();
        let security = device_engagement.0.security.as_ref().unwrap();
        let device_key = CoseKey::from_data_item(&decode(&security.e_sender_key_bytes).unwrap()).unwrap();
        let device_public_key = PublicKey { x: device_key.x, y: device_key.y };
        let private_key = SecretKey::from_bytes(self.reader_ephemeral_key.clone());
        let reader_key = SessionKey::new(
            &private_key,
            &device_public_key,
            &session_transcript,
            SessionKeyUser::Reader,
        )
        .unwrap();
        *self.device_key.lock().unwrap() = Some(
            SessionKey::new(
                &private_key,
                &device_public_key,
                &session_transcript,
                SessionKeyUser::Device,
            )
            .unwrap(),
        );

        let device_request = match &self.answer {
            Answer::Request(attributes)
            | Answer::RequestAndThenNothing(attributes)
            | Answer::RequestAndThenStatus(attributes, _) => device_request(vec![signed_request(
                &self.reader,
                &session_transcript,
                items_request(EXAMPLE_DOC_TYPE, EXAMPLE_NAMESPACE, attributes),
            )]),
            Answer::NoDocRequests => device_request(vec![]),
            Answer::Unsigned => device_request(vec![DocRequest {
                items_request: example_items_request(),
                reader_auth: None,
            }]),
            Answer::WrongKey | Answer::Garbage | Answer::Nothing => device_request(vec![]),
        };
        *self.transcript.lock().unwrap() = Some(session_transcript);
        let plaintext = encode(&device_request.to_data_item().unwrap()).unwrap();
        let envelope = match &self.answer {
            Answer::WrongKey => {
                let other = SessionKey::new(
                    &SecretKey::random(),
                    &device_public_key,
                    &transcript(),
                    SessionKeyUser::Reader,
                )
                .unwrap();
                SessionData::encrypt(&plaintext, &other).unwrap()
            }
            _ => SessionData::encrypt(&plaintext, &reader_key).unwrap(),
        };
        encode(&envelope.to_data_item()).unwrap()
    }
}

struct MockVerifierSessionClient<'a> {
    session: &'a MockVerifierSession,
}

impl HttpClient for MockVerifierSessionClient<'_> {
    fn post(&self, url: &String, message: &Vec<u8>) -> Result<Vec<u8>, TransportError> {
        // The address has to be the one in the verifier's engagement.
        assert_eq!(url, self.session.reader_engagement.verifier_url().unwrap());
        let first = {
            let mut posted = self.session.posted.lock().unwrap();
            posted.push((url.clone(), message.clone()));
            posted.len() == 1
        };
        if !first {
            // The acknowledgement of whatever came after the engagement.
            return match self.session.answer {
                Answer::Nothing | Answer::RequestAndThenNothing(_) => {
                    Err(TransportError { message: "no connection".to_string() })
                }
                Answer::RequestAndThenStatus(_, status) => {
                    Ok(encode(&SessionData { data: None, status: Some(status) }.to_data_item()).unwrap())
                }
                _ => Ok(encode(&SessionData { data: None, status: None }.to_data_item()).unwrap()),
            };
        }
        match self.session.answer {
            Answer::Garbage => Ok(vec![0x01]),
            Answer::Nothing => Err(TransportError { message: "no connection".to_string() }),
            _ => Ok(self.session.device_request_session_data(message)),
        }
    }
}

type State<'a> = MdocDisclosureSessionState<
    DisclosureMissingAttributes<MockVerifierSessionClient<'a>>,
    DisclosureSession<MockVerifierSessionClient<'a>>,
>;

fn start_session<'a>(
    verifier_session: &'a MockVerifierSession,
    mdoc_data_source: &MockMdocDataSource,
) -> Result<State<'a>, Error> {
    DisclosureSession::start_session(
        verifier_session.client(),
        &verifier_session.reader_engagement_bytes(),
        None,
        verifier_session.session_type,
        mdoc_data_source,
        &verifier_session.trust_anchors(),
    )
}

fn start<'a>(
    verifier_session: &'a MockVerifierSession,
    return_url: Option<String>,
    mdoc_data_source: &MockMdocDataSource,
) -> Result<DisclosureSession<MockVerifierSessionClient<'a>>, Error> {
    DisclosureSession::start(
        verifier_session.client(),
        &verifier_session.reader_engagement_bytes(),
        return_url,
        verifier_session.session_type,
        mdoc_data_source,
        &verifier_session.trust_anchors(),
    )
}

#[test]
fn test_disclosure_session_start() {
    // Create a mock session, client and mdoc data source.
    let verifier_session = MockVerifierSession::new(
        SessionType::SameDevice,
        &example_registration(),
        Answer::Request(EXAMPLE_ATTRIBUTES.to_vec()),
    );
    let mdoc_data_source = MockMdocDataSource::with(vec![("key1", EXAMPLE_ATTRIBUTES.to_vec())]);

    let return_url = RETURN_URL.to_string();

    // Starting a disclosure session should now succeed.
    let session = start(&verifier_session, Some(return_url.clone()), &mdoc_data_source)
        .expect("Could not start disclosure session");

    // Test if the return URL and `ReaderRegistration` match the input.
    assert_eq!(session.return_url().as_ref().unwrap(), &return_url);
    assert_eq!(session.reader_registration(), &example_registration_value());

    // Test that the proposal for disclosure contains the example attributes, in order.
    let mut proposed = session.proposed_attributes();
    assert_eq!(proposed.len(), 1);
    let (doc_type, mut name_spaces) = proposed.remove(0);
    assert_eq!(doc_type, EXAMPLE_DOC_TYPE);
    assert_eq!(name_spaces.len(), 1);
    let (name_space, entries) = name_spaces.remove(0);
    assert_eq!(name_space, EXAMPLE_NAMESPACE);
    let entry_keys = entries.into_iter().map(|entry| entry.name).collect::<Vec<_>>();
    assert_eq!(entry_keys, EXAMPLE_ATTRIBUTES);

    // The store was asked for the type of the request, and the verifier received an engagement.
    assert_eq!(*mdoc_data_source.asked.lock().unwrap(), vec![vec![EXAMPLE_DOC_TYPE.to_string()]]);
    assert_eq!(verifier_session.posted.lock().unwrap().len(), 1);
}

#[test]
fn test_disclosure_session_start_error_decode_reader_engagement() {
    let verifier_session =
        MockVerifierSession::new(SessionType::SameDevice, &example_registration(), Answer::Nothing);
    let mdoc_data_source = MockMdocDataSource::with(vec![]);

    // Starting a `DisclosureSession` with invalid `ReaderEngagement`
    // bytes should result in a `Error::Cbor` error.
    let error = DisclosureSession::start(
        verifier_session.client(),
        &vec![],
        None,
        verifier_session.session_type,
        &mdoc_data_source,
        &verifier_session.trust_anchors(),
    )
    .err()
    .expect("Starting disclosure session should have resulted in an error");

    assert!(matches!(error, Error::Cbor(CborError::Decoding)));
    assert!(verifier_session.posted.lock().unwrap().is_empty());
}

#[test]
fn session_across_devices_starts_as_well() {
    let verifier_session = MockVerifierSession::new(
        SessionType::CrossDevice,
        &example_registration(),
        Answer::Request(vec!["family_name"]),
    );
    let mdoc_data_source = MockMdocDataSource::with(vec![("key1", EXAMPLE_ATTRIBUTES.to_vec())]);
    let session = start(&verifier_session, None, &mdoc_data_source).expect("the session starts");
    assert!(session.return_url().is_none());
    let proposed = session.proposed_attributes();
    assert_eq!(proposed[0].1[0].1.len(), 1);
    assert_eq!(proposed[0].1[0].1[0].name, "family_name");
    assert_eq!(proposed[0].1[0].1[0].value, encode(&DataItem::Text("value of family_name".to_string())).unwrap());
}

#[test]
fn session_of_the_wrong_kind_does_not_start() {
    // The verifier thinks that the session runs across devices, the holder that it runs on one.
    let verifier_session = MockVerifierSession::new(
        SessionType::CrossDevice,
        &example_registration(),
        Answer::Request(vec!["family_name"]),
    );
    let mdoc_data_source = MockMdocDataSource::with(vec![("key1", EXAMPLE_ATTRIBUTES.to_vec())]);
    let error = DisclosureSession::start(
        verifier_session.client(),
        &verifier_session.reader_engagement_bytes(),
        None,
        SessionType::SameDevice,
        &mdoc_data_source,
        &verifier_session.trust_anchors(),
    )
    .err()
    .expect("the transcripts differ");
    assert!(matches!(error, Error::Crypto(CryptoError::Decryption)));
}

#[test]
fn engagement_without_address_does_not_start_a_session() {
    let mut verifier_session =
        MockVerifierSession::new(SessionType::SameDevice, &example_registration(), Answer::Nothing);
    verifier_session.reader_engagement.0.connection_methods = None;
    let mdoc_data_source = MockMdocDataSource::with(vec![]);
    let error = DisclosureSession::start(
        verifier_session.client(),
        &verifier_session.reader_engagement_bytes(),
        None,
        SessionType::SameDevice,
        &mdoc_data_source,
        &verifier_session.trust_anchors(),
    )
    .err()
    .unwrap();
    assert!(matches!(error, Error::Holder(HolderError::VerifierUrlMissing)));

    verifier_session.reader_engagement.0.connection_methods = Some(vec![]);
    let error = DisclosureSession::start(
        verifier_session.client(),
        &verifier_session.reader_engagement_bytes(),
        None,
        SessionType::SameDevice,
        &mdoc_data_source,
        &verifier_session.trust_anchors(),
    )
    .err()
    .unwrap();
    assert!(matches!(error, Error::Holder(HolderError::VerifierUrlMissing)));
}

#[test]
fn engagement_without_key_does_not_start_a_session() {
    let mut verifier_session =
        MockVerifierSession::new(SessionType::SameDevice, &example_registration(), Answer::Nothing);
    verifier_session.reader_engagement.0.security = None;
    let mdoc_data_source = MockMdocDataSource::with(vec![]);
    let error = start(&verifier_session, None, &mdoc_data_source).err().unwrap();
    assert!(matches!(error, Error::Holder(HolderError::VerifierEphemeralKeyMissing)));
    assert!(verifier_session.posted.lock().unwrap().is_empty());
}

#[test]
fn request_for_nothing_does_not_start_a_session() {
    let verifier_session = MockVerifierSession::new(
        SessionType::SameDevice,
        &example_registration(),
        Answer::NoDocRequests,
    );
    let mdoc_data_source = MockMdocDataSource::with(vec![("key1", EXAMPLE_ATTRIBUTES.to_vec())]);
    let error = start(&verifier_session, None, &mdoc_data_source).err().unwrap();
    assert!(matches!(error, Error::Holder(HolderError::NoDocumentRequests)));
    assert!(mdoc_data_source.asked.lock().unwrap().is_empty());
}

#[test]
fn unknown_verifier_does_not_start_a_session() {
    let verifier_session =
        MockVerifierSession::new(SessionType::SameDevice, &example_registration(), Answer::Unsigned);
    let mdoc_data_source = MockMdocDataSource::with(vec![("key1", EXAMPLE_ATTRIBUTES.to_vec())]);
    let error = start(&verifier_session, None, &mdoc_data_source).err().unwrap();
    assert!(matches!(error, Error::Holder(HolderError::ReaderAuthMissing)));
}

#[test]
fn answer_that_cannot_be_read_does_not_start_a_session() {
    let mdoc_data_source = MockMdocDataSource::with(vec![("key1", EXAMPLE_ATTRIBUTES.to_vec())]);

    let garbage =
        MockVerifierSession::new(SessionType::SameDevice, &example_registration(), Answer::Garbage);
    assert!(matches!(
        start(&garbage, None, &mdoc_data_source).err().unwrap(),
        Error::Cbor(CborError::UnexpectedItem)
    ));

    let wrong_key =
        MockVerifierSession::new(SessionType::SameDevice, &example_registration(), Answer::WrongKey);
    assert!(matches!(
        start(&wrong_key, None, &mdoc_data_source).err().unwrap(),
        Error::Crypto(CryptoError::Decryption)
    ));

    let nothing =
        MockVerifierSession::new(SessionType::SameDevice, &example_registration(), Answer::Nothing);
    match start(&nothing, None, &mdoc_data_source).err().unwrap() {
        Error::Http(error) => assert_eq!(error.message, "no connection"),
        _ => panic!("the verifier did not answer"),
    }
}

#[test]
fn envelope_is_opened_step_by_step() {
    let device = SecretKey::from_bytes(vec![7; 32]);
    let reader = SecretKey::from_bytes(vec![9; 32]);
    let key = SessionKey::new(&device, &reader.public_key().unwrap(), &transcript(), SessionKeyUser::Reader)
        .unwrap();

    assert!(matches!(open_device_request(&vec![], &key), Err(Error::Cbor(CborError::Decoding))));
    let no_data = encode(&SessionData { data: None, status: Some(20) }.to_data_item()).unwrap();
    assert!(matches!(
        open_device_request(&no_data, &key),
        Err(Error::Crypto(CryptoError::MissingCiphertext))
    ));
    let no_cbor = encode(&SessionData::encrypt(&vec![0xff], &key).unwrap().to_data_item()).unwrap();
    assert!(matches!(open_device_request(&no_cbor, &key), Err(Error::Cbor(CborError::Decoding))));
    let no_request =
        encode(&SessionData::encrypt(&vec![0x80], &key).unwrap().to_data_item()).unwrap();
    assert!(matches!(
        open_device_request(&no_request, &key),
        Err(Error::Cbor(CborError::UnexpectedItem))
    ));

    let request = device_request(vec![DocRequest {
        items_request: example_items_request(),
        reader_auth: None,
    }]);
    let plaintext = encode(&request.to_data_item().unwrap()).unwrap();
    let good = encode(&SessionData::encrypt(&plaintext, &key).unwrap().to_data_item()).unwrap();
    let opened = open_device_request(&good, &key).expect("a request was sent");
    assert_eq!(opened.doc_requests.len(), 1);
    assert_eq!(opened.doc_requests[0].items_request.doc_type, EXAMPLE_DOC_TYPE);

    // Where an attribute stands twice in a request, the last entry stays, at the place of the first.
    let mut twice = example_items_request();
    twice.name_spaces[0].1.push(("family_name".to_string(), true));
    assert!(!twice.is_well_formed());
    assert!(example_items_request().is_well_formed());
    let request = device_request(vec![DocRequest { items_request: twice, reader_auth: None }]);
    assert!(!request.is_well_formed());
    let plaintext = encode(&request.to_data_item().unwrap()).unwrap();
    let repeated = encode(&SessionData::encrypt(&plaintext, &key).unwrap().to_data_item()).unwrap();
    let opened = open_device_request(&repeated, &key).expect("a request was sent");
    assert!(opened.is_well_formed());
    let mut expected: Vec<(String, bool)> =
        EXAMPLE_ATTRIBUTES.iter().map(|attribute| (attribute.to_string(), false)).collect();
    expected[0].1 = true;
    assert_eq!(
        opened.doc_requests[0].items_request.name_spaces,
        vec![(EXAMPLE_NAMESPACE.to_string(), expected)]
    );

    // And so it is where a namespace stands twice.
    let mut twice = example_items_request();
    twice.name_spaces.push((EXAMPLE_NAMESPACE.to_string(), vec![("portrait".to_string(), false)]));
    assert!(!twice.is_well_formed());
    let merged = twice.merged();
    assert!(merged.is_well_formed());
    assert_eq!(
        merged.name_spaces,
        vec![(EXAMPLE_NAMESPACE.to_string(), vec![("portrait".to_string(), false)])]
    );
}

#[test]
fn entries_under_one_name_are_merged_as_a_table_takes_them() {
    let elements = |names: &[(&str, bool)]| -> Vec<(String, bool)> {
        names.iter().map(|(name, keep)| (name.to_string(), *keep)).collect()
    };
    let request = ItemsRequest {
        doc_type: "X".to_string(),
        name_spaces: vec![
            ("ns1".to_string(), elements(&[("a", false), ("b", false), ("a", true)])),
            ("ns2".to_string(), elements(&[("c", true)])),
            ("ns1".to_string(), elements(&[("d", false), ("e", true), ("d", true), ("f", false), ("e", false)])),
            ("ns3".to_string(), elements(&[])),
            ("ns2".to_string(), elements(&[("c", false), ("g", true)])),
        ],
        request_info: Some(vec![
            ("x".to_string(), DataItem::Integer(1)),
            ("y".to_string(), DataItem::Integer(2)),
            ("x".to_string(), DataItem::Integer(3)),
        ]),
    };
    let merged = request.merged();
    assert_eq!(merged.doc_type, "X");
    assert_eq!(
        merged.name_spaces,
        vec![
            ("ns1".to_string(), elements(&[("d", true), ("e", false), ("f", false)])),
            ("ns2".to_string(), elements(&[("c", false), ("g", true)])),
            ("ns3".to_string(), elements(&[])),
        ]
    );
    let info = merged.request_info.unwrap();
    assert_eq!(info.len(), 2);
    assert_eq!(info[0].0, "x");
    assert!(info[0].1.is_integer(3));
    assert_eq!(info[1].0, "y");
    assert!(info[1].1.is_integer(2));

    let plain = example_items_request().merged();
    assert_eq!(plain.name_spaces, example_items_request().name_spaces);
}

#[test]
fn store_that_fails_does_not_start_a_session() {
    let verifier_session = MockVerifierSession::new(
        SessionType::SameDevice,
        &example_registration(),
        Answer::Request(vec!["family_name"]),
    );
    let mut mdoc_data_source = MockMdocDataSource::with(vec![]);
    mdoc_data_source.fails = true;
    match start(&verifier_session, None, &mdoc_data_source).err().unwrap() {
        Error::Holder(HolderError::MdocDataSource(error)) => {
            assert_eq!(error.message, "the store is closed")
        }
        _ => panic!("the store failed"),
    }
}

#[test]
fn missing_attributes_come_with_the_registration() {
    let verifier_session = MockVerifierSession::new(
        SessionType::SameDevice,
        &example_registration(),
        Answer::Request(vec!["family_name", "issue_date"]),
    );
    let mdoc_data_source = MockMdocDataSource::with(vec![("key1", vec!["family_name"])]);

    match start(&verifier_session, None, &mdoc_data_source) {
        Err(Error::Holder(HolderError::AttributesNotAvailable { reader_registration, missing_attributes })) => {
            assert_eq!(reader_registration.request_origin_base_url, "https://shop.example.com");
            assert_eq!(
                missing_attributes,
                vec![identifier(EXAMPLE_DOC_TYPE, EXAMPLE_NAMESPACE, "issue_date")]
            );
        }
        _ => panic!("an attribute is missing"),
    }
}

#[test]
fn session_with_missing_attributes_can_only_be_ended() {
    let verifier_session = MockVerifierSession::new(
        SessionType::SameDevice,
        &example_registration(),
        Answer::Request(vec!["family_name", "issue_date"]),
    );
    let mdoc_data_source = MockMdocDataSource::with(vec![("key1", vec!["family_name"])]);

    match start_session(&verifier_session, &mdoc_data_source) {
        Ok(MdocDisclosureSessionState::MissingAttributes(missing)) => {
            assert_eq!(
                missing.missing_attributes(),
                &vec![identifier(EXAMPLE_DOC_TYPE, EXAMPLE_NAMESPACE, "issue_date")]
            );
            assert_eq!(missing.reader_registration().request_origin_base_url, "https://shop.example.com");
            missing.terminate().expect("the verifier is told");
        }
        _ => panic!("an attribute is missing"),
    }

    let posted = verifier_session.posted.lock().unwrap();
    assert_eq!(posted.len(), 2);
    assert_eq!(posted[1].0, SESSION_URL);
    let envelope = SessionData::from_data_item(&decode(&posted[1].1).unwrap()).unwrap();
    assert!(envelope.data.is_none());
    assert_eq!(envelope.status, Some(20));
}

#[test]
fn holder_without_the_credential_misses_everything_that_is_asked() {
    let verifier_session = MockVerifierSession::new(
        SessionType::SameDevice,
        &example_registration(),
        Answer::Request(vec!["family_name", "issue_date"]),
    );
    let mdoc_data_source = MockMdocDataSource::with(vec![]);
    match start(&verifier_session, None, &mdoc_data_source) {
        Err(Error::Holder(HolderError::AttributesNotAvailable { missing_attributes, .. })) => assert_eq!(
            missing_attributes,
            vec![
                identifier(EXAMPLE_DOC_TYPE, EXAMPLE_NAMESPACE, "family_name"),
                identifier(EXAMPLE_DOC_TYPE, EXAMPLE_NAMESPACE, "issue_date"),
            ]
        ),
        _ => panic!("the credential is missing"),
    }
}

#[test]
fn two_credentials_that_serve_the_request_do_not_start_a_session() {
    let verifier_session = MockVerifierSession::new(
        SessionType::SameDevice,
        &example_registration(),
        Answer::Request(vec!["family_name"]),
    );
    let mdoc_data_source = MockMdocDataSource::with(vec![
        ("key1", vec!["family_name"]),
        ("key2", vec!["family_name", "issue_date"]),
    ]);
    match start(&verifier_session, None, &mdoc_data_source) {
        Err(Error::Holder(HolderError::MultipleCandidates(doc_types))) => {
            assert_eq!(doc_types, vec![EXAMPLE_DOC_TYPE.to_string()])
        }
        _ => panic!("two credentials serve the request"),
    }
}

#[test]
fn session_that_started_is_a_proposal() {
    let verifier_session = MockVerifierSession::new(
        SessionType::SameDevice,
        &example_registration(),
        Answer::Request(vec!["family_name"]),
    );
    let mdoc_data_source = MockMdocDataSource::with(vec![("key1", EXAMPLE_ATTRIBUTES.to_vec())]);
    match start_session(&verifier_session, &mdoc_data_source) {
        Ok(MdocDisclosureSessionState::Proposal(session)) => {
            assert_eq!(session.proposed_attributes().len(), 1)
        }
        _ => panic!("the holder has what is asked"),
    }

    let verifier_session = MockVerifierSession::new(
        SessionType::SameDevice,
        &example_registration(),
        Answer::Request(vec!["family_name"]),
    );
    let state = start_session(&verifier_session, &mdoc_data_source).unwrap();
    state.terminate().expect("the verifier is told");
    assert_eq!(verifier_session.posted.lock().unwrap().len(), 2);

    let failed = MockVerifierSession::new(
        SessionType::SameDevice,
        &example_registration(),
        Answer::NoDocRequests,
    );
    assert!(matches!(
        start_session(&failed, &mdoc_data_source),
        Err(Error::Holder(HolderError::NoDocumentRequests))
    ));
}

struct SoftwareKey {
    key: Option<p256::ecdsa::SigningKey>,
}

impl MdocEcdsaKey for SoftwareKey {
    fn try_sign(&self, message: &Vec<u8>) -> Result<Vec<u8>, SigningError> {
        match &self.key {
            Some(key) => {
                let signature: p256::ecdsa::Signature = key.sign(message);
                Ok(signature.to_bytes().to_vec())
            }
            None => Err(SigningError { message: "no such key".to_string() }),
        }
    }
}

struct SoftwareKeyFactory {
    known: &'static str,
    key: p256::ecdsa::SigningKey,
    asked: Mutex<Vec<String>>,
}

impl SoftwareKeyFactory {
    fn knowing(known: &'static str) -> Self {
        SoftwareKeyFactory {
            known,
            key: p256::ecdsa::SigningKey::from_slice(&[3; 32]).unwrap(),
            asked: Mutex::new(vec![]),
        }
    }
}

impl KeyFactory for SoftwareKeyFactory {
    type Key = SoftwareKey;

    fn generate_existing(&self, identifier: &String) -> SoftwareKey {
        self.asked.lock().unwrap().push(identifier.clone());
        SoftwareKey { key: (identifier == self.known).then(|| self.key.clone()) }
    }
}

fn entry<'a>(item: &'a DataItem, name: &str) -> &'a DataItem {
    match item {
        DataItem::Table(entries) => entries
            .iter()
            .find(|(key, _)| key.is_text(name))
            .map(|(_, value)| value)
            .unwrap_or_else(|| panic!("no entry {}", name)),
        _ => panic!("no table"),
    }
}

#[test]
fn disclosure_sends_the_signed_response_to_the_verifier() {
    let verifier_session = MockVerifierSession::new(
        SessionType::SameDevice,
        &example_registration(),
        Answer::Request(vec!["issue_date", "family_name"]),
    );
    let mdoc_data_source = MockMdocDataSource::with(vec![("key1", EXAMPLE_ATTRIBUTES.to_vec())]);
    let session = start(&verifier_session, None, &mdoc_data_source).unwrap();
    let key_factory = SoftwareKeyFactory::knowing("key1");

    session.disclose(&key_factory).expect("the disclosure goes through");

    assert_eq!(*key_factory.asked.lock().unwrap(), vec!["key1".to_string()]);
    let posted = verifier_session.posted.lock().unwrap();
    assert_eq!(posted.len(), 2);
    assert_eq!(posted[1].0, SESSION_URL);

    // The verifier opens the envelope with the key for the holder's messages.
    let envelope = SessionData::from_data_item(&decode(&posted[1].1).unwrap()).unwrap();
    assert!(envelope.status.is_none());
    let device_key = verifier_session.device_key.lock().unwrap();
    let response = decode(&envelope.decrypt(device_key.as_ref().unwrap()).unwrap()).unwrap();

    assert!(entry(&response, "version").is_text("1.0"));
    assert!(entry(&response, "status").is_integer(0));
    let DataItem::Array(documents) = entry(&response, "documents") else {
        panic!("documents are an array");
    };
    assert_eq!(documents.len(), 1);
    assert!(entry(&documents[0], "docType").is_text(EXAMPLE_DOC_TYPE));

    // What the issuer signed is cut down to what was asked, in the issuer's order.
    let issuer_signed = entry(&documents[0], "issuerSigned");
    let DataItem::Array(items) = entry(entry(issuer_signed, "nameSpaces"), EXAMPLE_NAMESPACE) else {
        panic!("attributes are an array");
    };
    let names: Vec<String> = items
        .iter()
        .map(|item| match item {
            DataItem::Tag(24, inner) => match &**inner {
                DataItem::Bytes(bytes) => match entry(&decode(bytes).unwrap(), "elementIdentifier") {
                    DataItem::Text(name) => name.clone(),
                    _ => panic!("names are texts"),
                },
                _ => panic!("attributes are embedded"),
            },
            _ => panic!("attributes are embedded"),
        })
        .collect();
    assert_eq!(names, vec!["family_name".to_string(), "issue_date".to_string()]);
    let DataItem::Tag(24, first) = &items[0] else { panic!("attributes are embedded") };
    let DataItem::Bytes(first) = &**first else { panic!("attributes are embedded") };
    let first = decode(first).unwrap();
    assert!(entry(&first, "digestID").is_integer(0));
    assert!(matches!(entry(&first, "random"), DataItem::Bytes(random) if *random == vec![0; 16]));
    assert!(entry(&first, "elementValue").is_text("value of family_name"));
    assert!(matches!(entry(issuer_signed, "issuerAuth"), DataItem::Array(parts) if parts.len() == 4));

    // The holder's signature is over the challenge for this type and this session.
    let device_signed = entry(&documents[0], "deviceSigned");
    assert!(matches!(entry(device_signed, "nameSpaces"), DataItem::Tag(24, _)));
    let signature =
        CoseSign1::from_data_item(entry(entry(device_signed, "deviceAuth"), "deviceSignature"))
            .expect("the proof is a signature");
    assert_eq!(signature.protected, vec![0xa1, 0x01, 0x26]);
    assert!(signature.payload.is_none());
    let transcript = verifier_session.transcript.lock().unwrap();
    let challenge = mdoc_holder::iso::disclosure::DeviceAuthentication::from_session_transcript(
        transcript.as_ref().unwrap().duplicate(),
        EXAMPLE_DOC_TYPE.to_string(),
    )
    .to_bytes();
    let header = coset::ProtectedHeader {
        original_data: Some(signature.protected.clone()),
        header: coset::Header::default(),
    };
    let message =
        coset::sig_structure_data(coset::SignatureContext::CoseSign1, header, None, &[], &challenge);
    key_factory
        .key
        .verifying_key()
        .verify(&message, &p256::ecdsa::Signature::from_slice(&signature.signature).unwrap())
        .expect("the signature fits the challenge");
}

#[test]
fn disclosure_without_the_key_shares_nothing() {
    let verifier_session = MockVerifierSession::new(
        SessionType::SameDevice,
        &example_registration(),
        Answer::Request(vec!["family_name"]),
    );
    let mdoc_data_source = MockMdocDataSource::with(vec![("key1", EXAMPLE_ATTRIBUTES.to_vec())]);
    let session = start(&verifier_session, None, &mdoc_data_source).unwrap();

    let error = session.disclose(&SoftwareKeyFactory::knowing("another key")).err().unwrap();
    assert!(!error.data_shared);
    assert!(matches!(error.error, Error::Signing(SigningError { message }) if message == "no such key"));
    assert_eq!(verifier_session.posted.lock().unwrap().len(), 1);
}

#[test]
fn termination_tells_the_verifier() {
    let verifier_session = MockVerifierSession::new(
        SessionType::SameDevice,
        &example_registration(),
        Answer::Request(vec!["family_name"]),
    );
    let mdoc_data_source = MockMdocDataSource::with(vec![("key1", EXAMPLE_ATTRIBUTES.to_vec())]);
    let session = start(&verifier_session, None, &mdoc_data_source).unwrap();

    session.terminate().expect("the verifier is told");

    let posted = verifier_session.posted.lock().unwrap();
    assert_eq!(posted.len(), 2);
    let envelope = SessionData::from_data_item(&decode(&posted[1].1).unwrap()).unwrap();
    assert!(envelope.data.is_none());
    assert_eq!(envelope.status, Some(20));
}

#[test]
fn disclosure_that_does_not_reach_the_verifier_may_have_shared_something() {
    let verifier_session = MockVerifierSession::new(
        SessionType::SameDevice,
        &example_registration(),
        Answer::RequestAndThenNothing(vec!["family_name"]),
    );
    let mdoc_data_source = MockMdocDataSource::with(vec![("key1", EXAMPLE_ATTRIBUTES.to_vec())]);
    let session = start(&verifier_session, None, &mdoc_data_source).unwrap();

    let error = session.disclose(&SoftwareKeyFactory::knowing("key1")).err().unwrap();
    assert!(error.data_shared);
    assert!(matches!(error.error, Error::Http(TransportError { message }) if message == "no connection"));
    assert_eq!(verifier_session.posted.lock().unwrap().len(), 2);
}

#[test]
fn termination_that_does_not_reach_the_verifier_still_ends_the_session() {
    let verifier_session = MockVerifierSession::new(
        SessionType::SameDevice,
        &example_registration(),
        Answer::RequestAndThenNothing(vec!["family_name"]),
    );
    let mdoc_data_source = MockMdocDataSource::with(vec![("key1", EXAMPLE_ATTRIBUTES.to_vec())]);
    let session = start(&verifier_session, None, &mdoc_data_source).unwrap();

    assert!(matches!(session.terminate(), Err(Error::Http(_))));
}

#[test]
fn request_that_cannot_be_written_cannot_be_checked() {
    let authority = authority(RP_CA_CN);
    let reader = reader(&authority, Some(&example_registration()), true);
    let mut request = signed_request(&reader, &transcript(), example_items_request());
    // An integer beyond what CBOR can write.
    request.items_request.request_info =
        Some(vec![("count".to_string(), DataItem::Integer(1 << 64))]);

    assert!(matches!(
        request.verify(&transcript(), NOW, &vec![authority.certificate.clone()]),
        Err(Error::Cbor(CborError::Encoding))
    ));
    assert!(ReaderAuthenticationKeyed::new(&transcript(), &request.items_request).to_bytes().is_none());
    assert!(device_request(vec![request]).to_data_item().is_none());
}

#[test]
fn disclosure_that_the_verifier_does_not_take_comes_back_with_its_status() {
    let verifier_session = MockVerifierSession::new(
        SessionType::SameDevice,
        &example_registration(),
        Answer::RequestAndThenStatus(vec!["family_name"], 10),
    );
    let mdoc_data_source = MockMdocDataSource::with(vec![("key1", EXAMPLE_ATTRIBUTES.to_vec())]);
    let session = start(&verifier_session, None, &mdoc_data_source).unwrap();

    let error = session.disclose(&SoftwareKeyFactory::knowing("key1")).err().unwrap();
    assert!(error.data_shared);
    assert!(matches!(error.error, Error::Holder(HolderError::DisclosureResponse(10))));
}

#[test]
fn acknowledgement_is_an_envelope_without_status() {
    let plain = encode(&SessionData { data: None, status: None }.to_data_item()).unwrap();
    assert!(check_acknowledgement(&plain).is_ok());
    let with_data = encode(&SessionData { data: Some(vec![1]), status: None }.to_data_item()).unwrap();
    assert!(check_acknowledgement(&with_data).is_ok());
    let ended = encode(&SessionData::new_termination().to_data_item()).unwrap();
    assert!(matches!(
        check_acknowledgement(&ended),
        Err(Error::Holder(HolderError::DisclosureResponse(20)))
    ));
    assert!(matches!(check_acknowledgement(&vec![]), Err(Error::Cbor(CborError::Decoding))));
    assert!(matches!(check_acknowledgement(&vec![0x80]), Err(Error::Cbor(CborError::UnexpectedItem))));
}

#[test]
fn credential_with_more_than_is_asked_is_proposed_with_what_is_asked() {
    let verifier_session = MockVerifierSession::new(
        SessionType::SameDevice,
        &example_registration(),
        Answer::Request(vec!["family_name", "issue_date"]),
    );
    let mdoc_data_source =
        MockMdocDataSource::with(vec![("key1", vec!["family_name", "issue_date", "expiry_date"])]);

    let session = start(&verifier_session, None, &mdoc_data_source).expect("the holder has what is asked");

    let mut proposed = session.proposed_attributes();
    assert_eq!(proposed.len(), 1);
    let (doc_type, mut name_spaces) = proposed.remove(0);
    assert_eq!(doc_type, EXAMPLE_DOC_TYPE);
    assert_eq!(name_spaces.len(), 1);
    let (name_space, entries) = name_spaces.remove(0);
    assert_eq!(name_space, EXAMPLE_NAMESPACE);
    let names: Vec<String> = entries.into_iter().map(|entry| entry.name).collect();
    assert_eq!(names, vec!["family_name", "issue_date"]);
}

#[test]
fn answer_that_is_no_envelope_is_no_request() {
    let device = SecretKey::random();
    let reader = SecretKey::random();
    let key = SessionKey::new(&device, &reader.public_key().unwrap(), &transcript(), SessionKeyUser::Reader)
        .expect("the keys agree");

    let checked = check_request(&vec![0xff], &key, &transcript(), NOW, &[]);
    assert!(matches!(checked, Err(Error::Cbor(CborError::Decoding))));

    let array = encode(&DataItem::Array(vec![])).unwrap();
    let checked = check_request(&array, &key, &transcript(), NOW, &[]);
    assert!(matches!(checked, Err(Error::Cbor(CborError::UnexpectedItem))));
}

struct NoClient;

impl HttpClient for NoClient {
    fn post(&self, _url: &String, _message: &Vec<u8>) -> Result<Vec<u8>, TransportError> {
        Err(TransportError { message: "there is no verifier".to_string() })
    }
}

fn any_session_key() -> SessionKey {
    let device = SecretKey::random();
    let reader = SecretKey::random();
    SessionKey::new(&device, &reader.public_key().unwrap(), &transcript(), SessionKeyUser::Device)
        .expect("the keys agree")
}

fn proposal(doc_type: &str, key: &str) -> ProposedDocument {
    ProposedDocument {
        private_key_id: key.to_string(),
        doc_type: doc_type.to_string(),
        issuer_signed: example_mdoc(key, &["family_name"]).issuer_signed,
        device_signed_challenge: vec![1, 2, 3],
    }
}

#[test]
fn match_with_something_missing_leaves_a_session_that_says_what() {
    let missing = vec![identifier(EXAMPLE_DOC_TYPE, EXAMPLE_NAMESPACE, "issue_date")];
    let state = session_from_match(
        NoClient,
        SESSION_URL.to_string(),
        Some(RETURN_URL.to_string()),
        any_session_key(),
        example_registration_value(),
        DeviceRequestMatch::MissingAttributes(missing.clone()),
    );
    let Ok(MdocDisclosureSessionState::MissingAttributes(session)) = state else {
        panic!("something is missing");
    };
    assert_eq!(session.missing_attributes(), &missing);
    assert_eq!(session.reader_registration(), &example_registration_value());

    // Asked for a proposal, the caller gets the same as an error.
    let state = session_from_match(
        NoClient,
        SESSION_URL.to_string(),
        None,
        any_session_key(),
        example_registration_value(),
        DeviceRequestMatch::MissingAttributes(missing.clone()),
    );
    match proposal_of(state) {
        Err(Error::Holder(HolderError::AttributesNotAvailable { reader_registration, missing_attributes })) => {
            assert_eq!(*reader_registration, example_registration_value());
            assert_eq!(missing_attributes, missing);
        }
        _ => panic!("something is missing"),
    }
}

#[test]
fn match_with_one_candidate_for_each_type_leaves_a_proposal() {
    let state = session_from_match(
        NoClient,
        SESSION_URL.to_string(),
        Some(RETURN_URL.to_string()),
        any_session_key(),
        example_registration_value(),
        DeviceRequestMatch::Candidates(vec![
            ("X".to_string(), vec![proposal("X", "key1")]),
            ("Y".to_string(), vec![proposal("Y", "key2")]),
        ]),
    );
    let session = proposal_of(state).expect("there is one candidate for each type");
    assert_eq!(session.return_url(), &Some(RETURN_URL.to_string()));
    assert_eq!(session.reader_registration(), &example_registration_value());
    let types: Vec<String> = session.proposed_attributes().into_iter().map(|shown| shown.0).collect();
    assert_eq!(types, vec!["X", "Y"]);
}

#[test]
fn match_with_several_candidates_for_a_type_leaves_no_session() {
    let state = session_from_match(
        NoClient,
        SESSION_URL.to_string(),
        None,
        any_session_key(),
        example_registration_value(),
        DeviceRequestMatch::Candidates(vec![
            ("X".to_string(), vec![proposal("X", "key1"), proposal("X", "key2")]),
            ("Y".to_string(), vec![proposal("Y", "key3")]),
            ("Z".to_string(), vec![proposal("Z", "key4"), proposal("Z", "key5")]),
        ]),
    );
    match state {
        Err(Error::Holder(HolderError::MultipleCandidates(doc_types))) => assert_eq!(doc_types, vec!["X", "Z"]),
        _ => panic!("two types have several candidates"),
    }
}

#[test]
fn failure_to_start_is_handed_on_as_it_is() {
    let failed: Result<
        MdocDisclosureSessionState<DisclosureMissingAttributes<NoClient>, DisclosureSession<NoClient>>,
        Error,
    > = Err(Error::Holder(HolderError::ReaderAuthMissing));
    assert!(matches!(proposal_of(failed), Err(Error::Holder(HolderError::ReaderAuthMissing))));
}
