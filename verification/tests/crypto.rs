use mdoc_holder::iso::disclosure::{DeviceAuth, DeviceSigned};
use mdoc_holder::iso::engagement::{
    CoseKey, DeviceEngagement, Handover, OriginInfoDirection, OriginInfoType, SessionTranscript,
};
use mdoc_holder::iso::session::SessionData;
use mdoc_holder::utils::cbor::{decode, encode, DataItem};
use mdoc_holder::utils::crypto::{CryptoError, PublicKey, SecretKey, SessionKey, SessionKeyUser};
use mdoc_holder::utils::time::{now, seconds_since_epoch};

fn hex(text: &str) -> Vec<u8> {
    (0..text.len()).step_by(2).map(|i| u8::from_str_radix(&text[i..i + 2], 16).unwrap()).collect()
}

fn scalar(last: u8) -> Vec<u8> {
    let mut bytes = vec![0u8; 32];
    bytes[31] = last;
    bytes
}

fn public_key_of(key: &SecretKey) -> PublicKey {
    key.public_key().expect("the key is one of the curve")
}

fn transcript() -> SessionTranscript {
    SessionTranscript {
        device_engagement_bytes: vec![0xa0],
        ereader_key_bytes: vec![0xa0],
        handover: Handover::QrHandover,
    }
}

// SessionTranscriptBytes of the transcript above: tag 24, a byte string of
// ten bytes, and in it the array of the two embedded empty tables and null.
fn transcript_bytes() -> Vec<u8> {
    vec![0xd8, 0x18, 0x4a, 0x83, 0xd8, 0x18, 0x41, 0xa0, 0xd8, 0x18, 0x41, 0xa0, 0xf6]
}

#[test]
fn public_key_of_the_private_key_one_is_the_generator() {
    let key = SecretKey::from_bytes(scalar(1));
    assert_eq!(key.to_bytes(), scalar(1));
    let public_key = public_key_of(&key);
    assert_eq!(
        public_key.x,
        hex("6b17d1f2e12c4247f8bce6e563a440f277037d812deb33a0f4a13945d898c296")
    );
    assert_eq!(
        public_key.y,
        hex("4fe342e2fe1a7f9b8ee7eb4a7c0f9e162bce33576b315ececbb6406837bf51f5")
    );
}

#[test]
fn zero_is_no_private_key() {
    assert!(SecretKey::from_bytes(scalar(0)).public_key().is_none());
    assert!(matches!(
        DeviceEngagement::for_key("https://referrer.url/".to_string(), &SecretKey::from_bytes(scalar(0))),
        Err(CryptoError::KeyGeneration)
    ));
}

#[test]
fn fresh_keys_differ() {
    let first = SecretKey::random();
    let second = SecretKey::random();
    assert_eq!(first.to_bytes().len(), 32);
    assert_ne!(first.to_bytes(), second.to_bytes());
    assert!(first.public_key().is_some());
}

#[test]
fn device_engagement_carries_the_public_key_and_says_where_it_has_been() {
    let key = SecretKey::from_bytes(scalar(1));
    let engagement = DeviceEngagement::for_key("https://referrer.url/".to_string(), &key).unwrap();
    let security = engagement.0.security.as_ref().expect("the engagement carries a key");
    let cose_key = CoseKey::from_data_item(&decode(&security.e_sender_key_bytes).unwrap()).unwrap();
    assert_eq!(cose_key.x, public_key_of(&key).x);
    assert_eq!(cose_key.y, public_key_of(&key).y);
    assert!(engagement.0.connection_methods.is_none());
    assert_eq!(engagement.0.origin_infos.len(), 2);
    assert_eq!(engagement.0.origin_infos[0].cat, OriginInfoDirection::Received);
    assert!(matches!(&engagement.0.origin_infos[0].typ, OriginInfoType::Website(url) if url == "https://referrer.url/"));
    assert_eq!(engagement.0.origin_infos[1].cat, OriginInfoDirection::Delivered);
    assert!(matches!(engagement.0.origin_infos[1].typ, OriginInfoType::MessageData));
}

#[test]
fn new_device_engagement_carries_the_key_that_comes_with_it() {
    let (engagement, key) =
        DeviceEngagement::new_device_engagement("https://referrer.url/".to_string()).unwrap();
    let security = engagement.0.security.as_ref().unwrap();
    let cose_key = CoseKey::from_data_item(&decode(&security.e_sender_key_bytes).unwrap()).unwrap();
    assert_eq!(cose_key.x, public_key_of(&key).x);
    assert_eq!(cose_key.y, public_key_of(&key).y);
}

/// The key of one direction, worked out with `p256` and `ring` directly.
fn expected_session_key(private: &[u8], public: &PublicKey, info: &[u8]) -> Vec<u8> {
    let mut sec1 = vec![0x04];
    sec1.extend_from_slice(&public.x);
    sec1.extend_from_slice(&public.y);
    let secret = p256::ecdh::diffie_hellman(
        p256::SecretKey::from_slice(private).unwrap().to_nonzero_scalar(),
        p256::PublicKey::from_sec1_bytes(&sec1).unwrap().as_affine(),
    );
    let salt = ring::digest::digest(&ring::digest::SHA256, &transcript_bytes());
    let mut key = vec![0u8; 32];
    ring::hkdf::Salt::new(ring::hkdf::HKDF_SHA256, salt.as_ref())
        .extract(secret.raw_secret_bytes())
        .expand(&[info], ring::hkdf::HKDF_SHA256)
        .unwrap()
        .fill(&mut key)
        .unwrap();
    key
}

fn open_with(key: &[u8], nonce: [u8; 12], ciphertext: &[u8]) -> Option<Vec<u8>> {
    let key = ring::aead::LessSafeKey::new(
        ring::aead::UnboundKey::new(&ring::aead::AES_256_GCM, key).unwrap(),
    );
    let mut in_out = ciphertext.to_vec();
    let opened = key
        .open_in_place(
            ring::aead::Nonce::assume_unique_for_key(nonce),
            ring::aead::Aad::empty(),
            &mut in_out,
        )
        .ok()?;
    Some(opened.to_vec())
}

#[test]
fn transcript_bytes_are_the_embedded_transcript() {
    let bytes = encode(&DataItem::embedded(&encode(&transcript().to_data_item()).unwrap())).unwrap();
    assert_eq!(bytes, transcript_bytes());
}

#[test]
fn session_keys_are_derived_as_the_standard_says() {
    let device = SecretKey::from_bytes(scalar(5));
    let reader = SecretKey::from_bytes(scalar(9));
    let reader_public = public_key_of(&reader);

    let reader_key =
        SessionKey::new(&device, &reader_public, &transcript(), SessionKeyUser::Reader).unwrap();
    let device_key =
        SessionKey::new(&device, &reader_public, &transcript(), SessionKeyUser::Device).unwrap();

    let plaintext = b"attributes".to_vec();
    let from_reader = reader_key.encrypt(&plaintext).unwrap();
    let from_device = device_key.encrypt(&plaintext).unwrap();
    assert_eq!(from_reader.len(), plaintext.len() + 16);
    assert_ne!(from_reader, from_device);

    let expected_reader = expected_session_key(&scalar(5), &reader_public, b"SKReader");
    let expected_device = expected_session_key(&scalar(5), &reader_public, b"SKDevice");
    assert_eq!(
        open_with(&expected_reader, [0, 0, 0, 0, 0, 0, 0, 0, 0, 0, 0, 1], &from_reader),
        Some(plaintext.clone())
    );
    assert_eq!(
        open_with(&expected_device, [0, 0, 0, 0, 0, 0, 0, 1, 0, 0, 0, 1], &from_device),
        Some(plaintext.clone())
    );
    // The key of one direction does not open the other.
    assert_eq!(open_with(&expected_reader, [0, 0, 0, 0, 0, 0, 0, 1, 0, 0, 0, 1], &from_device), None);
}

#[test]
fn both_sides_derive_the_same_keys() {
    let device = SecretKey::from_bytes(scalar(5));
    let reader = SecretKey::from_bytes(scalar(9));

    let at_device =
        SessionKey::new(&device, &public_key_of(&reader), &transcript(), SessionKeyUser::Reader)
            .unwrap();
    let at_reader =
        SessionKey::new(&reader, &public_key_of(&device), &transcript(), SessionKeyUser::Reader)
            .unwrap();

    let ciphertext = at_reader.encrypt(&vec![1, 2, 3]).unwrap();
    assert_eq!(at_device.decrypt(&ciphertext).unwrap(), vec![1, 2, 3]);

    // Worked out again from the same, the key is the same.
    let again =
        SessionKey::new(&device, &public_key_of(&reader), &transcript(), SessionKeyUser::Reader)
            .unwrap();
    assert_eq!(again.encrypt(&vec![1, 2, 3]).unwrap(), ciphertext);
}

#[test]
fn keys_are_bound_to_the_transcript() {
    let device = SecretKey::from_bytes(scalar(5));
    let reader = SecretKey::from_bytes(scalar(9));
    let mut other = transcript();
    other.handover = Handover::SchemeHandoverBytes(vec![0xa0]);

    let first =
        SessionKey::new(&device, &public_key_of(&reader), &transcript(), SessionKeyUser::Device)
            .unwrap();
    let second =
        SessionKey::new(&device, &public_key_of(&reader), &other, SessionKeyUser::Device).unwrap();
    let ciphertext = first.encrypt(&vec![1, 2, 3]).unwrap();
    assert!(matches!(second.decrypt(&ciphertext), Err(CryptoError::Decryption)));
}

#[test]
fn changed_messages_are_not_decrypted() {
    let device = SecretKey::from_bytes(scalar(5));
    let reader = SecretKey::from_bytes(scalar(9));
    let key =
        SessionKey::new(&device, &public_key_of(&reader), &transcript(), SessionKeyUser::Device)
            .unwrap();
    let mut ciphertext = key.encrypt(&vec![1, 2, 3]).unwrap();
    ciphertext[0] ^= 1;
    assert!(matches!(key.decrypt(&ciphertext), Err(CryptoError::Decryption)));
    assert!(matches!(key.decrypt(&vec![]), Err(CryptoError::Decryption)));
}

#[test]
fn points_off_the_curve_agree_on_no_key() {
    let device = SecretKey::from_bytes(scalar(5));
    let off_curve = PublicKey { x: vec![1; 32], y: vec![2; 32] };
    assert!(matches!(
        SessionKey::new(&device, &off_curve, &transcript(), SessionKeyUser::Device),
        Err(CryptoError::KeyAgreement)
    ));
    let short = PublicKey { x: vec![1; 31], y: vec![2; 32] };
    assert!(matches!(
        SessionKey::new(&device, &short, &transcript(), SessionKeyUser::Device),
        Err(CryptoError::KeyAgreement)
    ));
}

#[test]
fn envelope_carries_what_was_encrypted() {
    let device = SecretKey::from_bytes(scalar(5));
    let reader = SecretKey::from_bytes(scalar(9));
    let key =
        SessionKey::new(&device, &public_key_of(&reader), &transcript(), SessionKeyUser::Reader)
            .unwrap();
    let envelope = SessionData::encrypt(&vec![7, 8, 9], &key).unwrap();
    assert!(envelope.status.is_none());
    assert_ne!(envelope.data.as_ref().unwrap()[..3], [7, 8, 9]);
    assert_eq!(envelope.decrypt(&key).unwrap(), vec![7, 8, 9]);

    let empty = SessionData { data: None, status: Some(20) };
    assert!(matches!(empty.decrypt(&key), Err(CryptoError::MissingCiphertext)));
}

#[test]
fn mac_is_taken_over_the_authentication_structure_with_the_agreed_key() {
    let device = SecretKey::from_bytes(scalar(5));
    let reader = SecretKey::from_bytes(scalar(9));
    let reader_public = public_key_of(&reader);
    let challenge = vec![0xd8, 0x18, 0x41, 0xa0];

    let signed = DeviceSigned::new_mac(&device, &reader_public, &transcript(), &challenge).unwrap();
    let DeviceAuth::DeviceMac(mac) = signed.device_auth else {
        panic!("a code was asked for");
    };
    assert_eq!(mac.protected, vec![0xa1, 0x01, 0x26]);
    assert!(mac.unprotected.is_empty());
    assert!(mac.payload.is_none());

    let key = expected_session_key(&scalar(5), &reader_public, b"EMacKey");
    let mut structure = vec![0x84, 0x64];
    structure.extend_from_slice(b"MAC0");
    structure.extend_from_slice(&[0x43, 0xa1, 0x01, 0x26, 0x40, 0x44]);
    structure.extend_from_slice(&challenge);
    let expected = ring::hmac::sign(&ring::hmac::Key::new(ring::hmac::HMAC_SHA256, &key), &structure);
    assert_eq!(mac.tag, expected.as_ref().to_vec());
}

#[test]
fn the_clock_shows_a_time_after_this_was_written() {
    // The first of January 2024.
    assert!(now() > 1_704_067_200);
}

#[test]
fn a_time_stamp_before_1970_counts_as_zero_seconds() {
    assert_eq!(seconds_since_epoch(-1), 0);
    assert_eq!(seconds_since_epoch(i64::MIN), 0);
    assert_eq!(seconds_since_epoch(0), 0);
    assert_eq!(seconds_since_epoch(1_704_067_200), 1_704_067_200);
    assert_eq!(seconds_since_epoch(i64::MAX), 9_223_372_036_854_775_807);
}

#[test]
fn a_fresh_key_has_32_bytes_and_a_public_key() {
    let key = SecretKey::random();
    assert_eq!(key.to_bytes().len(), 32);
    assert!(key.public_key().is_some());
    assert_ne!(key.to_bytes(), SecretKey::random().to_bytes());
}
