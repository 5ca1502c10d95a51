use mdoc_holder::error::Error;
use mdoc_holder::holder::HolderError;
use mdoc_holder::iso::mdocs::Entry;
use mdoc_holder::models::{
    localized_strings, AcceptDisclosureResult, AcceptError, DisclosureDocument,
    DisclosureProposal, Image, InstructionError, MissingAttribute, MissingDisclosureAttributes,
    Organization, RPLocalizedStrings, RequestPolicy, RequestedCard, StartDisclosureResult,
    StartError, WalletInstructionError,
};
use mdoc_holder::utils::json::{parse_json, JsonValue};
use mdoc_holder::utils::reader_auth::{
    read_authorized, read_localized, DeletionPolicy, ImageType, ReaderRegistration,
    RetentionPolicy, SharingPolicy,
};

fn strings(pairs: &[(&str, &str)]) -> Vec<(String, String)> {
    pairs.iter().map(|(language, value)| (language.to_string(), value.to_string())).collect()
}

fn pairs_of(strings: &[mdoc_holder::models::LocalizedString]) -> Vec<(&str, &str)> {
    strings.iter().map(|string| (string.language.as_str(), string.value.as_str())).collect()
}

fn registration() -> ReaderRegistration {
    ReaderRegistration {
        purpose_statement: strings(&[("nl", "Leeftijd"), ("en", "Age")]),
        retention_policy: RetentionPolicy { intent_to_retain: true, max_duration_in_minutes: Some(60) },
        sharing_policy: SharingPolicy { intent_to_share: true },
        deletion_policy: DeletionPolicy { deleteable: false },
        organization: mdoc_holder::utils::reader_auth::Organization {
            display_name: strings(&[("en", "Shop")]),
            legal_name: strings(&[("en", "Shop Ltd")]),
            description: strings(&[("en", "A shop")]),
            category: strings(&[("en", "Retail")]),
            logo: Some(mdoc_holder::utils::reader_auth::Image {
                mime_type: ImageType::Jpeg,
                image_data: "/9j/".to_string(),
            }),
            web_url: Some("https://shop.example.com".to_string()),
            kvk: None,
            city: Some(strings(&[("en", "The Hague")])),
            department: None,
            country_code: Some("nl".to_string()),
            privacy_policy_url: None,
        },
        request_origin_base_url: "https://shop.example.com".to_string(),
        attributes: vec![],
    }
}

#[test]
fn texts_are_shown_language_by_language() {
    let source = strings(&[("nl", "Hallo"), ("en", "Hello")]);
    assert_eq!(pairs_of(&localized_strings(&source)), vec![("nl", "Hallo"), ("en", "Hello")]);
    assert_eq!(
        pairs_of(&RPLocalizedStrings(source).into_localized_strings()),
        vec![("nl", "Hallo"), ("en", "Hello")]
    );
    assert!(localized_strings(&vec![]).is_empty());
}

#[test]
fn images_are_shown_by_their_kind() {
    let image = |mime_type| mdoc_holder::utils::reader_auth::Image {
        mime_type,
        image_data: "data".to_string(),
    };
    assert!(matches!(Image::from_logo(&image(ImageType::Svg)), Image::Svg { xml } if xml == "data"));
    assert!(matches!(Image::from_logo(&image(ImageType::Png)), Image::Png { base64 } if base64 == "data"));
    assert!(matches!(Image::from_logo(&image(ImageType::Jpeg)), Image::Jpg { base64 } if base64 == "data"));
}

#[test]
fn organization_is_shown_as_it_is_registered() {
    let shown = Organization::from_registration(&registration().organization);
    assert_eq!(pairs_of(&shown.legal_name), vec![("en", "Shop Ltd")]);
    assert_eq!(pairs_of(&shown.display_name), vec![("en", "Shop")]);
    assert_eq!(pairs_of(&shown.description), vec![("en", "A shop")]);
    assert_eq!(pairs_of(&shown.category), vec![("en", "Retail")]);
    assert!(matches!(&shown.image, Some(Image::Jpg { base64 }) if base64 == "/9j/"));
    assert_eq!(shown.web_url.as_deref(), Some("https://shop.example.com"));
    assert!(shown.kvk.is_none());
    assert_eq!(pairs_of(shown.city.as_ref().unwrap()), vec![("en", "The Hague")]);
    assert!(shown.department.is_none());
    assert_eq!(shown.country_code.as_deref(), Some("nl"));
}

#[test]
fn policy_is_shown_as_it_is_registered() {
    let mut registration = registration();
    let policy = RequestPolicy::from_registration(&registration);
    assert_eq!(policy.data_storage_duration_in_minutes, Some(60));
    assert!(policy.data_shared_with_third_parties);
    assert!(!policy.data_deletion_possible);
    assert_eq!(policy.policy_url, "");

    registration.organization.privacy_policy_url = Some("https://shop.example.com/privacy".to_string());
    registration.retention_policy.max_duration_in_minutes = None;
    let policy = RequestPolicy::from_registration(&registration);
    assert_eq!(policy.policy_url, "https://shop.example.com/privacy");
    assert_eq!(policy.data_storage_duration_in_minutes, None);
}

fn missing() -> Vec<MissingDisclosureAttributes> {
    vec![
        MissingDisclosureAttributes {
            doc_type: "X".to_string(),
            attributes: vec![
                ("a".to_string(), strings(&[("en", "First name")])),
                ("b".to_string(), strings(&[("en", "Last name"), ("nl", "Achternaam")])),
            ],
        },
        MissingDisclosureAttributes { doc_type: "Y".to_string(), attributes: vec![] },
        MissingDisclosureAttributes {
            doc_type: "Z".to_string(),
            attributes: vec![("c".to_string(), strings(&[("en", "City")]))],
        },
    ]
}

#[test]
fn missing_attributes_are_shown_as_one_list() {
    let shown = MissingAttribute::from_missing_disclosure_attributes(missing());
    assert_eq!(shown.len(), 3);
    assert_eq!(pairs_of(&shown[0].labels), vec![("en", "First name")]);
    assert_eq!(pairs_of(&shown[1].labels), vec![("en", "Last name"), ("nl", "Achternaam")]);
    assert_eq!(pairs_of(&shown[2].labels), vec![("en", "City")]);
    assert!(MissingAttribute::from_missing_disclosure_attributes(vec![]).is_empty());
}

fn document(doc_type: &str) -> DisclosureDocument {
    DisclosureDocument {
        doc_type: doc_type.to_string(),
        attributes: vec![
            (
                "ns1".to_string(),
                vec![
                    Entry { name: "a".to_string(), value: vec![1] },
                    Entry { name: "b".to_string(), value: vec![2] },
                ],
            ),
            ("ns2".to_string(), vec![]),
            ("ns3".to_string(), vec![Entry { name: "c".to_string(), value: vec![3] }]),
        ],
    }
}

#[test]
fn documents_are_shown_as_cards() {
    let cards = RequestedCard::from_disclosure_documents(vec![document("X"), document("Y")]);
    assert_eq!(cards.len(), 2);
    assert_eq!(cards[0].doc_type, "X");
    assert_eq!(cards[1].doc_type, "Y");
    let attributes: Vec<(&str, &[u8])> = cards[0]
        .attributes
        .iter()
        .map(|attribute| (attribute.key.as_str(), attribute.value.as_slice()))
        .collect();
    assert_eq!(attributes, vec![("a", &[1u8][..]), ("b", &[2u8][..]), ("c", &[3u8][..])]);
}

#[test]
fn proposal_is_shown_as_a_request() {
    let proposal = DisclosureProposal {
        documents: vec![document("X")],
        reader_registration: registration(),
    };
    match StartDisclosureResult::try_from_result(Ok(proposal)).ok().unwrap() {
        StartDisclosureResult::Request {
            relying_party,
            policy,
            requested_cards,
            is_first_interaction_with_relying_party,
            request_purpose,
        } => {
            assert_eq!(pairs_of(&relying_party.display_name), vec![("en", "Shop")]);
            assert_eq!(policy.data_storage_duration_in_minutes, Some(60));
            assert_eq!(requested_cards.len(), 1);
            assert_eq!(requested_cards[0].attributes.len(), 3);
            assert!(!is_first_interaction_with_relying_party);
            assert_eq!(pairs_of(&request_purpose), vec![("nl", "Leeftijd"), ("en", "Age")]);
        }
        _ => panic!("a proposal is a request"),
    }
}

#[test]
fn missing_attributes_are_shown_as_a_request_that_cannot_be_met() {
    let error = StartError::AttributesNotAvailable {
        reader_registration: registration(),
        missing_attributes: missing(),
    };
    match StartDisclosureResult::try_from_result(Err(error)).ok().unwrap() {
        StartDisclosureResult::RequestAttributesMissing {
            relying_party,
            missing_attributes,
            is_first_interaction_with_relying_party,
            request_purpose,
        } => {
            assert_eq!(pairs_of(&relying_party.legal_name), vec![("en", "Shop Ltd")]);
            assert_eq!(missing_attributes.len(), 3);
            assert!(!is_first_interaction_with_relying_party);
            assert_eq!(pairs_of(&request_purpose), vec![("nl", "Leeftijd"), ("en", "Age")]);
        }
        _ => panic!("attributes are missing"),
    }
}

#[test]
fn other_failures_to_start_stay_failures() {
    let error = StartError::Other(Error::Holder(HolderError::ReaderAuthMissing));
    assert!(matches!(
        StartDisclosureResult::try_from_result(Err(error)),
        Err(Error::Holder(HolderError::ReaderAuthMissing))
    ));
}

#[test]
fn outcome_of_a_disclosure_is_shown() {
    assert!(matches!(
        AcceptDisclosureResult::try_from_result(Ok(Some("https://example.com/return".to_string()))),
        Ok(AcceptDisclosureResult::Success { return_url: Some(url) }) if url == "https://example.com/return"
    ));
    assert!(matches!(
        AcceptDisclosureResult::try_from_result(Ok(None)),
        Ok(AcceptDisclosureResult::Success { return_url: None })
    ));
    assert!(matches!(
        AcceptDisclosureResult::try_from_result(Err(AcceptError::Instruction(
            InstructionError::IncorrectPin { leftover_attempts: 2, is_final_attempt: false }
        ))),
        Ok(AcceptDisclosureResult::InstructionError {
            error: WalletInstructionError::IncorrectPin { leftover_attempts: 2, is_final_attempt: false }
        })
    ));
    assert!(matches!(
        AcceptDisclosureResult::try_from_result(Err(AcceptError::Instruction(
            InstructionError::Timeout { timeout_millis: 5000 }
        ))),
        Ok(AcceptDisclosureResult::InstructionError {
            error: WalletInstructionError::Timeout { timeout_millis: 5000 }
        })
    ));
    assert!(matches!(
        AcceptDisclosureResult::try_from_result(Err(AcceptError::Instruction(InstructionError::Blocked))),
        Ok(AcceptDisclosureResult::InstructionError { error: WalletInstructionError::Blocked })
    ));
    assert!(matches!(
        AcceptDisclosureResult::try_from_result(Err(AcceptError::Instruction(InstructionError::Other(
            "no connection".to_string()
        )))),
        Err(AcceptError::Instruction(InstructionError::Other(message))) if message == "no connection"
    ));
}

#[test]
fn json_is_read_into_a_tree() {
    let value = parse_json("{\"b\": [1, -2, true, null, \"x\"], \"a\": {\"c\": 18446744073709551615}}")
        .expect("well-formed");
    // Members stay in the order of the text.
    let JsonValue::Object(members) = &value else { panic!("an object was written") };
    assert_eq!(members[0].0, "b");
    assert_eq!(members[1].0, "a");
    let JsonValue::Array(items) = &members[0].1 else { panic!("an array was written") };
    assert!(matches!(items[0], JsonValue::Number(1)));
    assert!(matches!(items[1], JsonValue::Number(-2)));
    assert!(matches!(items[2], JsonValue::Bool(true)));
    assert!(matches!(items[3], JsonValue::Null));
    assert!(matches!(&items[4], JsonValue::Text(text) if text == "x"));
    assert_eq!(value.field("a").unwrap().optional_u64_field("c"), Some(Some(u64::MAX)));
    assert_eq!(value.field("a").unwrap().optional_u64_field("d"), Some(None));
    assert!(value.field("z").is_none());

    assert!(parse_json("").is_none());

    // A number that is no whole number is kept as it is written.
    let value = parse_json("[1.5, -0.25, 1e3, 340282366920938463463374607431768211456]").expect("the text is JSON");
    let JsonValue::Array(items) = &value else { panic!("an array was written") };
    assert!(matches!(&items[0], JsonValue::Fraction(text) if text == "1.5"));
    assert!(matches!(&items[1], JsonValue::Fraction(text) if text == "-0.25"));
    assert!(matches!(&items[2], JsonValue::Fraction(text) if text == "1000.0"));
    assert!(matches!(&items[3], JsonValue::Fraction(_)));
    assert!(parse_json("{\"a\": }").is_none());
    // Beside a number with a fraction, the rest is read as ever.
    let value = parse_json("{\"a\": 1.5, \"b\": 2}").expect("the text is JSON");
    assert_eq!(value.optional_u64_field("b"), Some(Some(2)));
}

#[test]
fn fields_are_read_by_their_kind() {
    let value = parse_json("{\"t\": \"text\", \"f\": false, \"n\": null, \"m\": -1, \"o\": {}}").unwrap();
    assert_eq!(value.text_field("t").as_deref(), Some("text"));
    assert_eq!(value.text_field("f"), None);
    assert_eq!(value.text_field("missing"), None);
    assert_eq!(value.optional_text_field("t"), Some(Some("text".to_string())));
    assert_eq!(value.optional_text_field("n"), Some(None));
    assert_eq!(value.optional_text_field("missing"), Some(None));
    assert_eq!(value.optional_text_field("f"), None);
    assert_eq!(value.bool_field("f"), Some(false));
    assert_eq!(value.bool_field("t"), None);
    assert_eq!(value.optional_u64_field("m"), None);
    assert_eq!(value.optional_u64_field("t"), None);
    assert!(value.text_field("o").is_none());
}

#[test]
fn texts_in_several_languages_are_objects_of_texts() {
    let read = read_localized(&parse_json("{\"nl\": \"Hallo\", \"en\": \"Hello\"}").unwrap());
    assert_eq!(read, Some(strings(&[("nl", "Hallo"), ("en", "Hello")])));
    assert_eq!(read_localized(&parse_json("{}").unwrap()), Some(vec![]));
    assert_eq!(read_localized(&parse_json("{\"nl\": 1}").unwrap()), None);
    assert_eq!(read_localized(&parse_json("[\"Hallo\"]").unwrap()), None);
}

#[test]
fn rights_are_objects_of_objects_of_objects() {
    let read = read_authorized(
        &parse_json("{\"X\": {\"ns1\": {\"b\": {}, \"a\": {}}, \"ns2\": {}}, \"Y\": {}}").unwrap(),
    )
    .unwrap();
    assert_eq!(
        read,
        vec![
            (
                "X".to_string(),
                vec![
                    ("ns1".to_string(), vec!["b".to_string(), "a".to_string()]),
                    ("ns2".to_string(), vec![]),
                ]
            ),
            ("Y".to_string(), vec![]),
        ]
    );
    assert!(read_authorized(&parse_json("{\"X\": {\"ns1\": {\"a\": true}}}").unwrap()).is_none());
    assert!(read_authorized(&parse_json("{\"X\": {\"ns1\": []}}").unwrap()).is_none());
    assert!(read_authorized(&parse_json("{\"X\": 1}").unwrap()).is_none());
    assert!(read_authorized(&parse_json("[]").unwrap()).is_none());
}

#[test]
fn registration_needs_all_that_is_not_optional() {
    let full = "{\"purposeStatement\": {\"en\": \"Age\"}, \
        \"retentionPolicy\": {\"intentToRetain\": false}, \
        \"sharingPolicy\": {\"intentToShare\": false}, \
        \"deletionPolicy\": {\"deleteable\": true}, \
        \"organization\": {\"displayName\": {}, \"legalName\": {}, \"description\": {}, \"category\": {}}, \
        \"requestOriginBaseUrl\": \"https://shop.example.com\", \
        \"attributes\": {}}";
    let registration = ReaderRegistration::from_json(&parse_json(full).unwrap()).expect("complete");
    assert_eq!(registration.retention_policy.max_duration_in_minutes, None);
    assert!(registration.organization.logo.is_none());
    assert!(registration.organization.web_url.is_none());
    assert!(registration.attributes.is_empty());

    for required in [
        "purposeStatement",
        "retentionPolicy",
        "sharingPolicy",
        "deletionPolicy",
        "organization",
        "requestOriginBaseUrl",
        "attributes",
        "intentToRetain",
        "displayName",
    ] {
        let without = full.replacen(&format!("\"{}\"", required), "\"other\"", 1);
        assert!(
            ReaderRegistration::from_json(&parse_json(&without).unwrap()).is_none(),
            "a registration without {} should not be read",
            required
        );
    }

    let unknown_image = full.replacen(
        "\"displayName\"",
        "\"logo\": {\"mimeType\": \"image/gif\", \"imageData\": \"R0lG\"}, \"displayName\"",
        1,
    );
    assert!(ReaderRegistration::from_json(&parse_json(&unknown_image).unwrap()).is_none());
}
