use mdoc_holder::error::CborError;
use mdoc_holder::iso::device_retrieval::{
    DeviceRequest, DeviceRequestVersion, DocRequest, ItemsRequest, ReaderAuthenticationKeyed,
};
use mdoc_holder::iso::disclosure::DeviceAuthentication;
use mdoc_holder::iso::engagement::{
    ConnectionMethod, CoseKey, DeviceEngagement, Engagement, EngagementVersion, Handover,
    OriginInfo, OriginInfoDirection, OriginInfoType, ReaderEngagement, Security, SessionTranscript,
    SessionType,
};
use mdoc_holder::iso::engagement::CipherSuiteIdentifier;
use mdoc_holder::iso::session::SessionData;
use mdoc_holder::utils::cbor::{decode, encode, DataItem};
use mdoc_holder::utils::cose::{es256_header_bytes, CoseSign1};

fn roundtrip(item: &DataItem) -> DataItem {
    decode(&encode(item).expect("the item has an encoding")).expect("the encoding is read back")
}

#[test]
fn data_items_are_written_as_cbor() {
    assert_eq!(encode(&DataItem::Integer(0)).unwrap(), vec![0x00]);
    assert_eq!(encode(&DataItem::Integer(23)).unwrap(), vec![0x17]);
    assert_eq!(encode(&DataItem::Integer(24)).unwrap(), vec![0x18, 0x18]);
    assert_eq!(encode(&DataItem::Integer(-1)).unwrap(), vec![0x20]);
    assert_eq!(encode(&DataItem::Integer(-7)).unwrap(), vec![0x26]);
    assert_eq!(encode(&DataItem::Integer(1000)).unwrap(), vec![0x19, 0x03, 0xe8]);
    assert_eq!(encode(&DataItem::Bytes(vec![1, 2, 3])).unwrap(), vec![0x43, 1, 2, 3]);
    assert_eq!(encode(&DataItem::Text("IETF".to_string())).unwrap(), vec![0x64, b'I', b'E', b'T', b'F']);
    assert_eq!(encode(&DataItem::Bool(true)).unwrap(), vec![0xf5]);
    assert_eq!(encode(&DataItem::Bool(false)).unwrap(), vec![0xf4]);
    assert_eq!(encode(&DataItem::Null).unwrap(), vec![0xf6]);
    assert_eq!(
        encode(&DataItem::Array(vec![DataItem::Integer(1), DataItem::Integer(2)])).unwrap(),
        vec![0x82, 0x01, 0x02]
    );
    assert_eq!(
        encode(&DataItem::Table(vec![(DataItem::Integer(1), DataItem::Integer(2))])).unwrap(),
        vec![0xa1, 0x01, 0x02]
    );
    assert_eq!(
        encode(&DataItem::Tag(24, Box::new(DataItem::Bytes(vec![0xa0])))).unwrap(),
        vec![0xd8, 0x18, 0x41, 0xa0]
    );
    assert_eq!(encode(&DataItem::embedded(&vec![0xa0])).unwrap(), vec![0xd8, 0x18, 0x41, 0xa0]);
}

#[test]
fn integers_outside_the_range_of_cbor_have_no_encoding() {
    let largest: i128 = 0xffff_ffff_ffff_ffff;
    assert!(encode(&DataItem::Integer(largest)).is_some());
    assert!(encode(&DataItem::Integer(largest + 1)).is_none());
    assert!(encode(&DataItem::Integer(-largest - 1)).is_some());
    assert!(encode(&DataItem::Integer(-largest - 2)).is_none());
    assert!(encode(&DataItem::Array(vec![DataItem::Integer(largest + 1)])).is_none());
}

#[test]
fn cbor_is_read_into_data_items() {
    let item = decode(&[0x83, 0x01, 0x61, b'a', 0xa1, 0x20, 0xf6]).expect("well-formed");
    match item {
        DataItem::Array(items) => {
            assert_eq!(items.len(), 3);
            assert!(items[0].is_integer(1));
            assert!(items[1].is_text("a"));
            match &items[2] {
                DataItem::Table(entries) => {
                    assert_eq!(entries.len(), 1);
                    assert!(entries[0].0.is_integer(-1));
                    assert!(matches!(entries[0].1, DataItem::Null));
                }
                _ => panic!("a table was written"),
            }
        }
        _ => panic!("an array was written"),
    }
}

#[test]
fn what_is_no_cbor_is_not_read() {
    assert!(decode(&[]).is_none());
    assert!(decode(&[0x82, 0x01]).is_none());
    assert!(decode(&[0x61]).is_none());
}

#[test]
fn numbers_with_a_fraction_are_kept_as_the_bits_of_their_double_form() {
    // 1.0 in half precision, 100000.0 in single precision, 1.1 in double precision.
    for (bytes, number) in [
        (vec![0xf9, 0x3c, 0x00], 1.0f64),
        (vec![0xfa, 0x47, 0xc3, 0x50, 0x00], 100000.0),
        (vec![0xfb, 0x3f, 0xf1, 0x99, 0x99, 0x99, 0x99, 0x99, 0x9a], 1.1),
        (vec![0xf9, 0xfc, 0x00], f64::NEG_INFINITY),
    ] {
        match decode(&bytes) {
            Some(DataItem::Fraction(bits)) => assert_eq!(bits, number.to_bits()),
            _ => panic!("a number was written"),
        }
        // Written again, the number takes the shortest form that holds it.
        assert_eq!(encode(&DataItem::Fraction(number.to_bits())).unwrap(), bytes);
    }
    assert_eq!(0x3ff0_0000_0000_0000, 1.0f64.to_bits());
    match DataItem::Fraction(0x4009_21fb_5444_2d18).duplicate() {
        DataItem::Fraction(bits) => assert_eq!(f64::from_bits(bits), std::f64::consts::PI),
        _ => panic!("a copy is of the same kind"),
    }
    // Inside other items too.
    let item = DataItem::Array(vec![DataItem::Fraction(2.5f64.to_bits()), DataItem::Integer(2)]);
    assert_eq!(encode(&item).unwrap(), vec![0x82, 0xf9, 0x41, 0x00, 0x02]);
}

#[test]
fn data_items_are_copied_whole() {
    let item = DataItem::Table(vec![(
        DataItem::Text("k".to_string()),
        DataItem::Array(vec![DataItem::Tag(24, Box::new(DataItem::Bytes(vec![7]))), DataItem::Null]),
    )]);
    assert_eq!(encode(&item.duplicate()), encode(&item));
    assert_eq!(encode(&roundtrip(&item)), encode(&item));
}

fn reader_engagement(uri: &str) -> ReaderEngagement {
    let key = CoseKey { x: vec![1; 32], y: vec![2; 32] };
    ReaderEngagement(Engagement {
        version: EngagementVersion::V1_0,
        security: Some(Security {
            cipher_suite_identifier: CipherSuiteIdentifier::P256,
            e_sender_key_bytes: encode(&key.to_data_item()).unwrap(),
        }),
        connection_methods: Some(vec![ConnectionMethod::rest_api(uri.to_string())]),
        origin_infos: vec![],
    })
}

#[test]
fn cose_key_is_written_as_the_table_of_its_coordinates() {
    let key = CoseKey { x: vec![0xaa; 32], y: vec![0xbb; 32] };
    let mut expected = vec![0xa4, 0x01, 0x02, 0x20, 0x01, 0x21, 0x58, 0x20];
    expected.extend_from_slice(&[0xaa; 32]);
    expected.extend_from_slice(&[0x22, 0x58, 0x20]);
    expected.extend_from_slice(&[0xbb; 32]);
    assert_eq!(encode(&key.to_data_item()).unwrap(), expected);

    let read = CoseKey::from_data_item(&decode(&expected).unwrap()).expect("a key was written");
    assert_eq!(read.x, vec![0xaa; 32]);
    assert_eq!(read.y, vec![0xbb; 32]);

    // Another kind of key is none.
    let mut other = expected.clone();
    other[2] = 0x01;
    assert!(CoseKey::from_data_item(&decode(&other).unwrap()).is_none());
}

#[test]
fn engagement_is_read_back_as_it_was_written() {
    let engagement = reader_engagement("https://example.com/disclosure");
    let bytes = engagement.to_bytes();
    // A table of four entries: the version under 0, the key material under 1, ...
    assert_eq!(&bytes[..7], &[0xa4, 0x00, 0x63, b'1', b'.', b'0', 0x01]);

    let read = ReaderEngagement::from_bytes(&bytes).expect("an engagement was written");
    assert_eq!(read.to_bytes(), bytes);
    assert_eq!(read.verifier_url().unwrap(), "https://example.com/disclosure");
    let key = read.verifier_public_key().expect("a key was written");
    assert_eq!(key.x, vec![1; 32]);
    assert_eq!(key.y, vec![2; 32]);
}

#[test]
fn engagement_with_origins_is_read_back_as_it_was_written() {
    let engagement = DeviceEngagement(Engagement {
        version: EngagementVersion::V1_0,
        security: None,
        connection_methods: None,
        origin_infos: vec![
            OriginInfo {
                cat: OriginInfoDirection::Received,
                typ: OriginInfoType::Website("https://referrer.url/".to_string()),
            },
            OriginInfo { cat: OriginInfoDirection::Delivered, typ: OriginInfoType::MessageData },
            OriginInfo { cat: OriginInfoDirection::Delivered, typ: OriginInfoType::OnDeviceQRCode },
        ],
    });
    let bytes = engagement.to_bytes();
    let read = Engagement::from_data_item(&decode(&bytes).unwrap()).expect("an engagement");
    assert!(read.security.is_none());
    assert!(read.connection_methods.is_none());
    assert_eq!(read.origin_infos.len(), 3);
    assert_eq!(read.origin_infos[0].cat, OriginInfoDirection::Received);
    assert!(matches!(&read.origin_infos[0].typ, OriginInfoType::Website(url) if url == "https://referrer.url/"));
    assert_eq!(read.origin_infos[1].cat, OriginInfoDirection::Delivered);
    assert!(matches!(read.origin_infos[1].typ, OriginInfoType::MessageData));
    assert!(matches!(read.origin_infos[2].typ, OriginInfoType::OnDeviceQRCode));
    assert_eq!(DeviceEngagement(read).to_bytes(), bytes);
}

#[test]
fn bytes_that_are_no_engagement_are_refused() {
    assert!(matches!(ReaderEngagement::from_bytes(&vec![]), Err(CborError::Decoding)));
    assert!(matches!(ReaderEngagement::from_bytes(&vec![0xff]), Err(CborError::Decoding)));
    // Well-formed CBOR, but an array.
    assert!(matches!(ReaderEngagement::from_bytes(&vec![0x80]), Err(CborError::UnexpectedItem)));
    // A table without the version.
    assert!(matches!(
        ReaderEngagement::from_bytes(&vec![0xa1, 0x05, 0x80]),
        Err(CborError::UnexpectedItem)
    ));
    // Another version.
    assert!(matches!(
        ReaderEngagement::from_bytes(&vec![0xa2, 0x00, 0x63, b'2', b'.', b'0', 0x05, 0x80]),
        Err(CborError::UnexpectedItem)
    ));
    // The smallest engagement: the version and no origins.
    assert!(ReaderEngagement::from_bytes(&vec![0xa2, 0x00, 0x63, b'1', b'.', b'0', 0x05, 0x80]).is_ok());
}

#[test]
fn engagement_with_an_address_that_is_none_is_refused() {
    let bytes = reader_engagement("not an address").to_bytes();
    assert!(matches!(ReaderEngagement::from_bytes(&bytes), Err(CborError::UnexpectedItem)));
}

#[test]
fn transcript_of_a_session_on_one_device_holds_both_engagements() {
    let reader = reader_engagement("https://example.com/disclosure");
    let device = DeviceEngagement(Engagement {
        version: EngagementVersion::V1_0,
        security: None,
        connection_methods: None,
        origin_infos: vec![],
    });
    let transcript = SessionTranscript::new(SessionType::SameDevice, &reader, &device).unwrap();
    assert_eq!(transcript.device_engagement_bytes, device.to_bytes());
    assert_eq!(
        transcript.ereader_key_bytes,
        reader.0.security.as_ref().unwrap().e_sender_key_bytes
    );
    assert!(matches!(&transcript.handover, Handover::SchemeHandoverBytes(bytes) if *bytes == reader.to_bytes()));

    let across = SessionTranscript::new(SessionType::CrossDevice, &reader, &device).unwrap();
    assert!(matches!(across.handover, Handover::QrHandover));
    assert_ne!(
        encode(&across.to_data_item()).unwrap(),
        encode(&transcript.to_data_item()).unwrap()
    );

    // Worked out again from the same, the transcript is the same.
    let again = SessionTranscript::new(SessionType::SameDevice, &reader, &device).unwrap();
    assert_eq!(
        encode(&again.to_data_item()).unwrap(),
        encode(&transcript.to_data_item()).unwrap()
    );
}

#[test]
fn transcript_needs_the_key_of_the_verifier() {
    let mut reader = reader_engagement("https://example.com/disclosure");
    reader.0.security = None;
    let device = DeviceEngagement(Engagement {
        version: EngagementVersion::V1_0,
        security: None,
        connection_methods: None,
        origin_infos: vec![],
    });
    assert!(SessionTranscript::new(SessionType::SameDevice, &reader, &device).is_err());
}

#[test]
fn test_device_authentication_bytes_from_session_transcript() {
    let session_transcript = SessionTranscript {
        device_engagement_bytes: vec![0xa0],
        ereader_key_bytes: vec![0xa0],
        handover: Handover::SchemeHandoverBytes(vec![0xa0]),
    };
    let device_authentication = DeviceAuthentication::from_session_transcript(
        session_transcript,
        "org.iso.18013.5.1.mDL".to_string(),
    );

    let mut inner = vec![0x84, 0x74];
    inner.extend_from_slice(b"DeviceAuthentication");
    inner.extend_from_slice(&[0x83, 0xd8, 0x18, 0x41, 0xa0, 0xd8, 0x18, 0x41, 0xa0]);
    inner.extend_from_slice(&[0xd8, 0x18, 0x41, 0xa0]);
    inner.extend_from_slice(&[0x75]);
    inner.extend_from_slice(b"org.iso.18013.5.1.mDL");
    inner.extend_from_slice(&[0xd8, 0x18, 0x41, 0xa0]);
    let mut expected = vec![0xd8, 0x18, 0x58, inner.len() as u8];
    expected.extend_from_slice(&inner);

    assert_eq!(device_authentication.to_bytes(), expected);
}

fn items_request() -> ItemsRequest {
    ItemsRequest {
        doc_type: "X".to_string(),
        name_spaces: vec![("ns".to_string(), vec![("a".to_string(), false), ("b".to_string(), true)])],
        request_info: None,
    }
}

#[test]
fn items_request_is_written_and_read_as_a_table() {
    let request = items_request();
    let bytes = encode(&request.to_data_item()).unwrap();
    let mut expected = vec![0xa2, 0x67];
    expected.extend_from_slice(b"docType");
    expected.extend_from_slice(&[0x61, b'X', 0x6a]);
    expected.extend_from_slice(b"nameSpaces");
    expected.extend_from_slice(&[0xa1, 0x62, b'n', b's', 0xa2, 0x61, b'a', 0xf4, 0x61, b'b', 0xf5]);
    assert_eq!(bytes, expected);

    let read = ItemsRequest::from_data_item(&decode(&bytes).unwrap()).expect("a request");
    assert_eq!(read.doc_type, "X");
    assert_eq!(read.name_spaces, request.name_spaces);
    assert!(read.request_info.is_none());
}

#[test]
fn items_request_with_further_information_keeps_it() {
    let mut request = items_request();
    request.request_info = Some(vec![("purpose".to_string(), DataItem::Integer(3))]);
    let bytes = encode(&request.to_data_item()).unwrap();
    let read = ItemsRequest::from_data_item(&decode(&bytes).unwrap()).expect("a request");
    let info = read.request_info.expect("the information was written");
    assert_eq!(info.len(), 1);
    assert_eq!(info[0].0, "purpose");
    assert!(info[0].1.is_integer(3));

    // Whatever it holds: a number with a fraction as well.
    let mut request = items_request();
    request.request_info = Some(vec![("threshold".to_string(), DataItem::Fraction(0.5f64.to_bits()))]);
    let bytes = encode(&request.to_data_item()).unwrap();
    let read = ItemsRequest::from_data_item(&decode(&bytes).unwrap()).expect("a request");
    let info = read.request_info.expect("the information was written");
    assert!(matches!(info[0].1, DataItem::Fraction(bits) if bits == 0.5f64.to_bits()));
}

#[test]
fn reader_authentication_is_the_embedded_array_of_text_transcript_and_request() {
    let transcript = SessionTranscript {
        device_engagement_bytes: vec![0xa0],
        ereader_key_bytes: vec![0xa0],
        handover: Handover::QrHandover,
    };
    let request = items_request();
    let request_bytes = encode(&request.to_data_item()).unwrap();
    let bytes = ReaderAuthenticationKeyed::new(&transcript, &request).to_bytes().unwrap();

    let mut inner = vec![0x83, 0x74];
    inner.extend_from_slice(b"ReaderAuthentication");
    inner.extend_from_slice(&[0x83, 0xd8, 0x18, 0x41, 0xa0, 0xd8, 0x18, 0x41, 0xa0, 0xf6]);
    inner.extend_from_slice(&[0xd8, 0x18, 0x58, request_bytes.len() as u8]);
    inner.extend_from_slice(&request_bytes);
    let mut expected = vec![0xd8, 0x18, 0x58, inner.len() as u8];
    expected.extend_from_slice(&inner);
    assert_eq!(bytes, expected);
}

#[test]
fn device_request_is_read_back_as_it_was_written() {
    let signature = CoseSign1 {
        protected: es256_header_bytes(),
        unprotected: vec![(DataItem::Integer(33), DataItem::Bytes(vec![9, 9, 9]))],
        payload: None,
        signature: vec![5; 64],
    };
    let request = DeviceRequest {
        version: DeviceRequestVersion::V1_0,
        doc_requests: vec![
            DocRequest { items_request: items_request(), reader_auth: Some(signature) },
            DocRequest { items_request: items_request(), reader_auth: None },
        ],
        return_url: Some("https://example.com/return".to_string()),
    };
    let bytes = encode(&request.to_data_item().unwrap()).unwrap();
    let read = DeviceRequest::from_data_item(&decode(&bytes).unwrap()).expect("a request");
    assert_eq!(read.doc_requests.len(), 2);
    assert_eq!(read.return_url.as_deref(), Some("https://example.com/return"));
    let read_signature = read.doc_requests[0].reader_auth.as_ref().expect("it was signed");
    assert_eq!(read_signature.protected, vec![0xa1, 0x01, 0x26]);
    assert_eq!(read_signature.signature, vec![5; 64]);
    assert!(read_signature.payload.is_none());
    assert_eq!(read_signature.signing_cert().unwrap().der, vec![9, 9, 9]);
    assert!(read.doc_requests[1].reader_auth.is_none());
    assert_eq!(read.doc_requests[1].items_request.name_spaces, items_request().name_spaces);
    assert_eq!(encode(&read.to_data_item().unwrap()).unwrap(), bytes);
}

#[test]
fn session_data_is_read_back_as_it_was_written() {
    let envelope = SessionData { data: Some(vec![1, 2, 3]), status: Some(20) };
    let bytes = encode(&envelope.to_data_item()).unwrap();
    let mut expected = vec![0xa2, 0x64];
    expected.extend_from_slice(b"data");
    expected.extend_from_slice(&[0x43, 1, 2, 3, 0x66]);
    expected.extend_from_slice(b"status");
    expected.push(0x14);
    assert_eq!(bytes, expected);

    let read = SessionData::from_data_item(&decode(&bytes).unwrap()).expect("an envelope");
    assert_eq!(read.data, Some(vec![1, 2, 3]));
    assert_eq!(read.status, Some(20));

    let only_status = SessionData::new_termination();
    let read = SessionData::from_data_item(&decode(&encode(&only_status.to_data_item()).unwrap()).unwrap())
        .expect("an envelope");
    assert_eq!(read.data, None);
    assert_eq!(read.status, Some(20));

    let empty = SessionData::from_data_item(&decode(&[0xa0]).unwrap()).expect("an envelope");
    assert!(empty.data.is_none() && empty.status.is_none());

    // The entries are found by their keys: the other way round, and beside another entry.
    let mut swapped = vec![0xa3, 0x66];
    swapped.extend_from_slice(b"status");
    swapped.extend_from_slice(&[0x14, 0x61, b'x', 0xf6, 0x64]);
    swapped.extend_from_slice(b"data");
    swapped.extend_from_slice(&[0x43, 1, 2, 3]);
    let read = SessionData::from_data_item(&decode(&swapped).unwrap()).expect("an envelope");
    assert_eq!(read.data, Some(vec![1, 2, 3]));
    assert_eq!(read.status, Some(20));

    // A key twice is no envelope, and neither is a status that is none.
    let twice = DataItem::Table(vec![
        (DataItem::Text("status".to_string()), DataItem::Integer(20)),
        (DataItem::Text("status".to_string()), DataItem::Integer(20)),
    ]);
    assert!(SessionData::from_data_item(&twice).is_none());
    let text = DataItem::Table(vec![(DataItem::Text("status".to_string()), DataItem::Text("20".to_string()))]);
    assert!(SessionData::from_data_item(&text).is_none());
    assert!(SessionData::from_data_item(&DataItem::Array(vec![])).is_none());
}

fn entries_of(item: DataItem) -> Vec<(DataItem, DataItem)> {
    match item {
        DataItem::Table(entries) => entries,
        _ => panic!("a table was written"),
    }
}

fn reversed_with_more(item: DataItem) -> DataItem {
    let mut entries = entries_of(item);
    entries.reverse();
    entries.insert(1, (DataItem::Text("more".to_string()), DataItem::Null));
    entries.push((DataItem::Integer(99), DataItem::Bool(true)));
    DataItem::Table(entries)
}

#[test]
fn entries_of_tables_are_found_by_their_keys() {
    // A key.
    let key = CoseKey { x: vec![0xaa; 32], y: vec![0xbb; 32] };
    let read = CoseKey::from_data_item(&reversed_with_more(key.to_data_item())).expect("a key");
    assert_eq!((read.x, read.y), (vec![0xaa; 32], vec![0xbb; 32]));
    let mut twice = entries_of(key.to_data_item());
    twice.push((DataItem::Integer(-2), DataItem::Bytes(vec![0xaa; 32])));
    assert!(CoseKey::from_data_item(&DataItem::Table(twice)).is_none());
    let mut short = entries_of(key.to_data_item());
    short.remove(3);
    assert!(CoseKey::from_data_item(&DataItem::Table(short)).is_none());

    // An engagement.
    let engagement = reader_engagement("https://example.com/session");
    let read = Engagement::from_data_item(&reversed_with_more(engagement.0.to_data_item())).expect("an engagement");
    assert_eq!(
        read.connection_methods.as_ref().unwrap()[0].connection_options.uri,
        "https://example.com/session"
    );
    assert_eq!(read.security.as_ref().unwrap().e_sender_key_bytes, engagement.0.security.as_ref().unwrap().e_sender_key_bytes);
    assert!(read.origin_infos.is_empty());
    // What is read is written in the order of the keys again.
    assert_eq!(encode(&read.to_data_item()), encode(&engagement.0.to_data_item()));
    let bytes = encode(&reversed_with_more(engagement.0.to_data_item())).unwrap();
    assert!(ReaderEngagement::from_bytes(&bytes).is_ok());
    let mut twice = entries_of(engagement.0.to_data_item());
    twice.push((DataItem::Integer(0), DataItem::Text("1.0".to_string())));
    assert!(Engagement::from_data_item(&DataItem::Table(twice)).is_none());

    // The tables inside an engagement too: origins, their details, and the options of a way to reach.
    let with_origin = Engagement {
        version: EngagementVersion::V1_0,
        security: None,
        connection_methods: Some(vec![ConnectionMethod::rest_api("https://example.com/session".to_string())]),
        origin_infos: vec![OriginInfo {
            cat: OriginInfoDirection::Received,
            typ: OriginInfoType::Website("https://referrer.url/".to_string()),
        }],
    };
    let mut parts = entries_of(with_origin.to_data_item());
    for part in parts.iter_mut() {
        if part.0.is_integer(5) {
            let DataItem::Array(infos) = &mut part.1 else {
                panic!("origins are an array");
            };
            let mut info = entries_of(infos.remove(0));
            assert!(info[2].0.is_text("details"));
            let details = entries_of(info.remove(2).1);
            info.insert(0, (DataItem::Text("details".to_string()), reversed_with_more(DataItem::Table(details))));
            infos.push(reversed_with_more(DataItem::Table(info)));
        }
        if part.0.is_integer(2) {
            let DataItem::Array(methods) = &mut part.1 else {
                panic!("ways to reach are an array");
            };
            let DataItem::Array(method) = &mut methods[0] else {
                panic!("a way to reach is an array");
            };
            let options = method.remove(2);
            method.push(reversed_with_more(options));
        }
    }
    let read = Engagement::from_data_item(&reversed_with_more(DataItem::Table(parts))).expect("an engagement");
    assert_eq!(read.origin_infos.len(), 1);
    assert_eq!(read.origin_infos[0].cat, OriginInfoDirection::Received);
    assert!(matches!(&read.origin_infos[0].typ, OriginInfoType::Website(url) if url == "https://referrer.url/"));
    assert_eq!(
        read.connection_methods.as_ref().unwrap()[0].connection_options.uri,
        "https://example.com/session"
    );
    assert_eq!(encode(&read.to_data_item()), encode(&with_origin.to_data_item()));

    // A request for one credential type.
    let request = items_request();
    let read = ItemsRequest::from_data_item(&reversed_with_more(request.to_data_item())).expect("a request");
    assert_eq!(read.doc_type, request.doc_type);
    assert_eq!(read.name_spaces, request.name_spaces);
    assert!(read.request_info.is_none());
    let mut without = entries_of(request.to_data_item());
    without.remove(0);
    assert!(ItemsRequest::from_data_item(&DataItem::Table(without)).is_none());

    // A request with its signature: the signature may stand first.
    let doc_request = DocRequest {
        items_request: items_request(),
        reader_auth: Some(CoseSign1 {
            protected: es256_header_bytes(),
            unprotected: vec![],
            payload: None,
            signature: vec![7; 64],
        }),
    };
    let written = doc_request.to_data_item().unwrap();
    let mut entries = entries_of(written);
    assert!(entries[0].0.is_text("itemsRequest"));
    entries.reverse();
    assert!(entries[0].0.is_text("readerAuth"));
    let read = DocRequest::from_data_item(&DataItem::Table(entries)).expect("a request");
    assert_eq!(read.items_request.name_spaces, items_request().name_spaces);
    assert_eq!(read.reader_auth.unwrap().signature, vec![7; 64]);

    // A request of a verifier.
    let device_request = DeviceRequest {
        version: DeviceRequestVersion::V1_0,
        doc_requests: vec![DocRequest { items_request: items_request(), reader_auth: None }],
        return_url: Some("https://example.com/return".to_string()),
    };
    let read = DeviceRequest::from_data_item(&reversed_with_more(device_request.to_data_item().unwrap()))
        .expect("a request");
    assert_eq!(read.doc_requests.len(), 1);
    assert_eq!(read.return_url.as_deref(), Some("https://example.com/return"));
    let mut twice = entries_of(device_request.to_data_item().unwrap());
    twice.push((DataItem::Text("version".to_string()), DataItem::Text("1.0".to_string())));
    assert!(DeviceRequest::from_data_item(&DataItem::Table(twice)).is_none());
}
