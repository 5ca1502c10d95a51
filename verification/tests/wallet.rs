use mdoc_holder::error::Error;
use mdoc_holder::holder::wallet::{
    contains_element, disclose_found, disclose_name_spaces, filter, find_name_space, MdocCopies,
    MdocRetriever, Wallet,
};
use mdoc_holder::holder::{HolderError, Mdoc};
use mdoc_holder::iso::device_retrieval::{
    DeviceRequest, DeviceRequestVersion, DocRequest, ItemsRequest,
};
use mdoc_holder::iso::disclosure::{
    DeviceAuth, DeviceResponse, DeviceResponseVersion, KeyFactory, MdocEcdsaKey, SigningError,
};
use mdoc_holder::iso::engagement::{Handover, SessionTranscript};
use mdoc_holder::iso::mdocs::{IssuerSigned, IssuerSignedItem};
use mdoc_holder::utils::cbor::{decode, encode, DataItem};

fn item(digest_id: u64, name: &str) -> IssuerSignedItem {
    IssuerSignedItem {
        digest_id,
        random: vec![1, 2, 3],
        element_identifier: name.to_string(),
        element_value: vec![0xf5],
    }
}

fn mdoc(doc_type: &str, key: &str, name_spaces: Vec<(&str, Vec<&str>)>) -> Mdoc {
    Mdoc {
        doc_type: doc_type.to_string(),
        private_key_id: key.to_string(),
        issuer_signed: IssuerSigned {
            name_spaces: Some(
                name_spaces
                    .into_iter()
                    .map(|(name_space, names)| {
                        (
                            name_space.to_string(),
                            names.into_iter().enumerate().map(|(i, name)| item(i as u64, name)).collect(),
                        )
                    })
                    .collect(),
            ),
            issuer_auth: vec![0x80],
        },
    }
}

fn items_request(doc_type: &str, name_spaces: Vec<(&str, Vec<&str>)>) -> ItemsRequest {
    ItemsRequest {
        doc_type: doc_type.to_string(),
        name_spaces: name_spaces
            .into_iter()
            .map(|(name_space, names)| {
                (
                    name_space.to_string(),
                    names.into_iter().map(|name| (name.to_string(), true)).collect(),
                )
            })
            .collect(),
        request_info: None,
    }
}

fn transcript() -> SessionTranscript {
    SessionTranscript {
        device_engagement_bytes: vec![0xa0],
        ereader_key_bytes: vec![0xa0],
        handover: Handover::QrHandover,
    }
}

struct FixedKey(Option<Vec<u8>>);

impl MdocEcdsaKey for FixedKey {
    fn try_sign(&self, message: &Vec<u8>) -> Result<Vec<u8>, SigningError> {
        match &self.0 {
            // Not a signature, but it shows what was handed to the key.
            Some(prefix) => Ok([prefix.clone(), message.clone()].concat()),
            None => Err(SigningError { message: "the key is locked".to_string() }),
        }
    }
}

struct FixedKeys {
    locked: bool,
}

impl KeyFactory for FixedKeys {
    type Key = FixedKey;

    fn generate_existing(&self, identifier: &String) -> FixedKey {
        FixedKey((!self.locked).then(|| identifier.as_bytes().to_vec()))
    }
}

struct Store(Vec<Mdoc>);

impl MdocRetriever for Store {
    fn get(&self, doc_type: &String) -> Option<Vec<MdocCopies>> {
        let copies: Vec<MdocCopies> = self
            .0
            .iter()
            .filter(|held| &held.doc_type == doc_type)
            .map(|held| {
                MdocCopies::new(vec![Mdoc {
                    doc_type: held.doc_type.clone(),
                    private_key_id: held.private_key_id.clone(),
                    issuer_signed: IssuerSigned {
                        name_spaces: held.issuer_signed.name_spaces.as_ref().map(|name_spaces| {
                            name_spaces
                                .iter()
                                .map(|(name_space, items)| (name_space.clone(), items.clone()))
                                .collect()
                        }),
                        issuer_auth: held.issuer_signed.issuer_auth.clone(),
                    },
                }])
                .unwrap()
            })
            .collect();
        if copies.is_empty() {
            None
        } else {
            Some(copies)
        }
    }
}

fn names(items: &[IssuerSignedItem]) -> Vec<&str> {
    items.iter().map(|item| item.element_identifier.as_str()).collect()
}

#[test]
fn attributes_are_cut_down_to_what_is_asked() {
    let attributes = vec![item(0, "a"), item(1, "b"), item(2, "c")];
    let requested = vec![("c".to_string(), false), ("a".to_string(), true), ("z".to_string(), true)];
    let kept = filter(&attributes, &requested);
    assert_eq!(names(&kept), vec!["a", "c"]);
    assert_eq!(kept[1].digest_id, 2);
    assert_eq!(kept[1].random, vec![1, 2, 3]);
    assert_eq!(kept[1].element_value, vec![0xf5]);
    assert!(filter(&attributes, &vec![]).is_empty());
    assert!(contains_element(&requested, &"z".to_string()));
    assert!(!contains_element(&requested, &"b".to_string()));
}

#[test]
fn name_spaces_that_are_asked_of_stay_even_if_empty() {
    let held = mdoc("X", "key", vec![("ns1", vec!["a", "b"]), ("ns2", vec!["c"]), ("ns3", vec!["d"])]);
    let request = items_request("X", vec![("ns3", vec!["e"]), ("ns1", vec!["b"])]);
    let disclosed =
        disclose_name_spaces(held.issuer_signed.name_spaces.as_ref().unwrap(), &request.name_spaces);
    assert_eq!(disclosed.len(), 2);
    assert_eq!(disclosed[0].0, "ns1");
    assert_eq!(names(&disclosed[0].1), vec!["b"]);
    assert_eq!(disclosed[1].0, "ns3");
    assert!(disclosed[1].1.is_empty());
    assert!(find_name_space(&request.name_spaces, &"ns2".to_string()).is_none());
    assert_eq!(find_name_space(&request.name_spaces, &"ns1".to_string()).unwrap().len(), 1);
}

#[test]
fn document_is_signed_with_the_key_of_the_credential() {
    let held = mdoc("X", "key7", vec![("ns1", vec!["a", "b"])]);
    let request = items_request("X", vec![("ns1", vec!["a"])]);

    let document = held
        .disclose_document(&request, &transcript(), &FixedKeys { locked: false })
        .expect("the key signs");

    assert_eq!(document.doc_type, "X");
    assert_eq!(document.issuer_signed.issuer_auth, vec![0x80]);
    let name_spaces = document.issuer_signed.name_spaces.as_ref().unwrap();
    assert_eq!(names(&name_spaces[0].1), vec!["a"]);
    let DeviceAuth::DeviceSignature(signature) = &document.device_signed.device_auth else {
        panic!("a signature was asked for");
    };
    assert_eq!(signature.protected, vec![0xa1, 0x01, 0x26]);
    assert!(signature.payload.is_none());
    assert!(signature.unprotected.is_empty());
    // What the key was given: the signature structure of the challenge for the type.
    assert_eq!(&signature.signature[..4], b"key7");
    let structure = decode(&signature.signature[4..]).unwrap();
    let DataItem::Array(parts) = structure else { panic!("the structure is an array") };
    assert_eq!(parts.len(), 4);
    assert!(parts[0].is_text("Signature1"));
    assert!(matches!(&parts[1], DataItem::Bytes(header) if *header == vec![0xa1, 0x01, 0x26]));
    assert!(matches!(&parts[2], DataItem::Bytes(further) if further.is_empty()));
    let DataItem::Bytes(challenge) = &parts[3] else { panic!("the payload is a byte string") };
    let DataItem::Tag(24, inner) = decode(challenge).unwrap() else { panic!("the challenge is embedded") };
    let DataItem::Bytes(inner) = *inner else { panic!("the challenge is embedded") };
    let DataItem::Array(authentication) = decode(&inner).unwrap() else { panic!("an array") };
    assert!(authentication[0].is_text("DeviceAuthentication"));
    assert_eq!(encode(&authentication[1]), encode(&transcript().to_data_item()));
    assert!(authentication[2].is_text("X"));
}

#[test]
fn document_is_not_disclosed_if_the_key_does_not_sign() {
    let held = mdoc("X", "key7", vec![("ns1", vec!["a"])]);
    let request = items_request("X", vec![("ns1", vec!["a"])]);
    match held.disclose_document(&request, &transcript(), &FixedKeys { locked: true }) {
        Err(Error::Signing(error)) => assert_eq!(error.message, "the key is locked"),
        _ => panic!("the key does not sign"),
    }
}

fn device_request(items_requests: Vec<ItemsRequest>) -> DeviceRequest {
    DeviceRequest {
        version: DeviceRequestVersion::V1_0,
        doc_requests: items_requests
            .into_iter()
            .map(|items_request| DocRequest { items_request, reader_auth: None })
            .collect(),
        return_url: None,
    }
}

#[test]
fn response_holds_one_document_for_each_request() {
    let wallet = Wallet::new(());
    let store = Store(vec![
        mdoc("X", "key1", vec![("ns1", vec!["a", "b"])]),
        mdoc("Y", "key2", vec![("ns1", vec!["c"])]),
        mdoc("X", "key3", vec![("ns1", vec!["a"])]),
    ]);
    let request = device_request(vec![
        items_request("Y", vec![("ns1", vec!["c"])]),
        items_request("X", vec![("ns1", vec!["b"])]),
    ]);

    let response = wallet
        .disclose(&request, &transcript(), &FixedKeys { locked: false }, &store)
        .expect("the holder has both");

    assert_eq!(response.version, DeviceResponseVersion::V1_0);
    assert_eq!(response.status, 0);
    assert!(response.document_errors.is_none());
    let documents = response.documents.as_ref().unwrap();
    assert_eq!(documents.len(), 2);
    assert_eq!(documents[0].doc_type, "Y");
    assert_eq!(documents[1].doc_type, "X");
    // Of two credentials of a type, the first is taken.
    let DeviceAuth::DeviceSignature(signature) = &documents[1].device_signed.device_auth else {
        panic!("a signature was asked for");
    };
    assert_eq!(&signature.signature[..4], b"key1");
    assert_eq!(names(&documents[1].issuer_signed.name_spaces.as_ref().unwrap()[0].1), vec!["b"]);
    assert!(response.to_data_item().is_some());
}

#[test]
fn request_for_a_type_that_the_holder_lacks_cannot_be_satisfied() {
    let wallet = Wallet::new(());
    let store = Store(vec![mdoc("X", "key1", vec![("ns1", vec!["a"])])]);
    let request = device_request(vec![
        items_request("X", vec![("ns1", vec!["a"])]),
        items_request("Z", vec![("ns1", vec!["a"])]),
    ]);
    match wallet.disclose(&request, &transcript(), &FixedKeys { locked: false }, &store) {
        Err(Error::Holder(HolderError::UnsatisfiableRequest(doc_type))) => assert_eq!(doc_type, "Z"),
        _ => panic!("the holder has no such credential"),
    }
}

#[test]
fn copies_of_a_credential_are_at_least_one() {
    assert!(MdocCopies::new(vec![]).is_none());
    let copies = MdocCopies::new(vec![
        mdoc("X", "key1", vec![("ns1", vec!["a"])]),
        mdoc("X", "key2", vec![("ns1", vec!["a"])]),
    ])
    .unwrap();
    assert_eq!(copies.first().private_key_id, "key1");
}

fn doc_request(doc_type: &str) -> DocRequest {
    DocRequest { items_request: items_request(doc_type, vec![("ns1", vec!["a"])]), reader_auth: None }
}

fn unsatisfiable(found: Option<Vec<MdocCopies>>) -> String {
    match disclose_found(found, &doc_request("X"), &transcript(), &FixedKeys { locked: false }) {
        Err(Error::Holder(HolderError::UnsatisfiableRequest(doc_type))) => doc_type,
        _ => panic!("nothing can be disclosed"),
    }
}

#[test]
fn nothing_is_disclosed_where_no_credential_is_found() {
    assert_eq!(unsatisfiable(None), "X");
    assert_eq!(unsatisfiable(Some(vec![])), "X");
    let bare = Mdoc {
        doc_type: "X".to_string(),
        private_key_id: "key1".to_string(),
        issuer_signed: IssuerSigned { name_spaces: None, issuer_auth: vec![0x80] },
    };
    assert_eq!(unsatisfiable(Some(vec![MdocCopies::new(vec![bare]).unwrap()])), "X");
}

#[test]
fn the_first_copy_of_the_first_credential_is_disclosed() {
    let found = vec![
        MdocCopies::new(vec![
            mdoc("X", "key1", vec![("ns1", vec!["a", "b"])]),
            mdoc("X", "key2", vec![("ns1", vec!["a", "b"])]),
        ])
        .unwrap(),
        MdocCopies::new(vec![mdoc("X", "key3", vec![("ns1", vec!["a"])])]).unwrap(),
    ];
    let document = disclose_found(Some(found), &doc_request("X"), &transcript(), &FixedKeys { locked: false })
        .expect("the holder has the credential");
    assert_eq!(document.doc_type, "X");
    assert!(document.errors.is_none());
    assert_eq!(names(&document.issuer_signed.name_spaces.as_ref().unwrap()[0].1), vec!["a"]);

    // Reasons for attributes left out, where a document has any, stand last in its table.
    let written = document.to_data_item().expect("the document has a data item");
    let DataItem::Table(entries) = &written else {
        panic!("a document is a table");
    };
    assert_eq!(entries.len(), 3);
    let mut with_reasons = document;
    with_reasons.errors = Some(vec![("ns1".to_string(), vec![("b".to_string(), 10), ("c".to_string(), -2)])]);
    let written = with_reasons.to_data_item().expect("the document has a data item");
    let DataItem::Table(entries) = &written else {
        panic!("a document is a table");
    };
    assert_eq!(entries.len(), 4);
    assert!(entries[3].0.is_text("errors"));
    let DataItem::Table(reasons) = &entries[3].1 else {
        panic!("the reasons are a table");
    };
    assert!(reasons[0].0.is_text("ns1"));
    let DataItem::Table(items) = &reasons[0].1 else {
        panic!("the reasons of a namespace are a table");
    };
    assert!(items[0].0.is_text("b") && items[0].1.is_integer(10));
    assert!(items[1].0.is_text("c") && items[1].1.is_integer(-2));
    let document = with_reasons;
    let DeviceAuth::DeviceSignature(signature) = &document.device_signed.device_auth else {
        panic!("a signature was asked for");
    };
    assert_eq!(&signature.signature[..4], b"key1");

    let found = vec![MdocCopies::new(vec![mdoc("X", "key1", vec![("ns1", vec!["a"])])]).unwrap()];
    let refused = disclose_found(Some(found), &doc_request("X"), &transcript(), &FixedKeys { locked: true });
    assert!(matches!(refused, Err(Error::Signing(_))));
}

#[test]
fn reasons_for_documents_left_out_are_encoded_between_documents_and_status() {
    let response = DeviceResponse {
        version: DeviceResponseVersion::V1_0,
        documents: None,
        document_errors: Some(vec![vec![("X".to_string(), 10)], vec![("Y".to_string(), -1)]]),
        status: 20,
    };
    let item = response.to_data_item().expect("there is no document that could fail");
    let DataItem::Table(entries) = &item else {
        panic!("a response is a table");
    };
    assert_eq!(entries.len(), 3);
    assert!(entries[0].0.is_text("version"));
    assert!(entries[1].0.is_text("documentErrors"));
    let DataItem::Array(errors) = &entries[1].1 else {
        panic!("the reasons are an array");
    };
    assert_eq!(errors.len(), 2);
    let DataItem::Table(first) = &errors[0] else {
        panic!("a reason is a table");
    };
    assert!(first[0].0.is_text("X"));
    assert!(first[0].1.is_integer(10));
    let DataItem::Table(second) = &errors[1] else {
        panic!("a reason is a table");
    };
    assert!(second[0].1.is_integer(-1));
    assert!(entries[2].0.is_text("status"));
    assert!(entries[2].1.is_integer(20));
    // a2 67 "version" 63 "1.0" ... as the first entry of a table of three.
    let bytes = encode(&item).unwrap();
    assert_eq!(bytes[0], 0xa3);
    assert_eq!(decode(&bytes).map(|decoded| encode(&decoded).unwrap()), Some(bytes));
}
