//! Key agreement, key derivation and encryption for a session.
//!
//! The primitives are those of `p256` and `ring`. Verus does not look inside
//! them: each result is named by a function without a body, and the function
//! that makes the call states that it returns what the name stands for.
//! Everything above the primitives is verified against those names.

use crate::iso::engagement::SessionTranscript;
use crate::utils::cbor::{cbor_encoding, encode_embedded, Cbor};
use p256::elliptic_curve::sec1::{FromEncodedPoint, ToEncodedPoint};
use vstd::prelude::*;
use vstd::string::StringSliceAdditionalSpecFns;

verus! {

/// The SHA-256 digest of `data`.
pub uninterp spec fn sha256_digest(data: Seq<u8>) -> Seq<u8>;

/// The 32 bytes that HKDF with SHA-256 derives from the input key material
/// `secret`, the salt `salt` and the context `info`.
pub uninterp spec fn hkdf_sha256_key(secret: Seq<u8>, salt: Seq<u8>, info: Seq<u8>) -> Seq<u8>;

/// The HMAC with SHA-256 of `data` under `key`.
pub uninterp spec fn hmac_sha256_tag(key: Seq<u8>, data: Seq<u8>) -> Seq<u8>;

/// The shared secret of the P-256 private key `scalar` and the public key
/// with the coordinates `x` and `y`, if both are keys of that curve.
pub uninterp spec fn ecdh_p256(scalar: Seq<u8>, x: Seq<u8>, y: Seq<u8>) -> Option<Seq<u8>>;

/// The coordinates of the public key that belongs to the P-256 private key
/// `scalar`, if it is one.
pub uninterp spec fn p256_public_key(scalar: Seq<u8>) -> Option<(Seq<u8>, Seq<u8>)>;

/// `plaintext` encrypted with AES-256-GCM under `key` and `nonce`, with the
/// tag behind it; nothing where `ring` refuses the key or the nonce.
pub uninterp spec fn aes256_gcm_sealed(key: Seq<u8>, nonce: Seq<u8>, plaintext: Seq<u8>) -> Option<
    Seq<u8>,
>;

/// What AES-256-GCM under `key` and `nonce` decrypts `ciphertext` to;
/// nothing where the tag does not fit or `ring` refuses the key or the nonce.
pub uninterp spec fn aes256_gcm_opened(key: Seq<u8>, nonce: Seq<u8>, ciphertext: Seq<u8>) -> Option<
    Seq<u8>,
>;

/// `ring::digest::digest` with SHA-256.
#[verifier::external_body]
pub(crate) fn sha256(data: &Vec<u8>) -> (digest: Vec<u8>)
    ensures
        digest@ == sha256_digest(data@),
{
    ring::digest::digest(&ring::digest::SHA256, data).as_ref().to_vec()
}

/// `ring::hkdf`: extract with the salt, then expand with the context to the
/// length of a SHA-256 digest, which no input makes fail.
#[verifier::external_body]
pub(crate) fn hkdf_sha256(secret: &Vec<u8>, salt: &Vec<u8>, info: &[u8]) -> (key: Vec<u8>)
    ensures
        key@ == hkdf_sha256_key(secret@, salt@, info@),
{
    let mut key = vec![0u8; 32];
    let prk = ring::hkdf::Salt::new(ring::hkdf::HKDF_SHA256, salt).extract(secret);
    if let Ok(okm) = prk.expand(&[info], ring::hkdf::HKDF_SHA256) {
        let _ = okm.fill(&mut key);
    }
    key
}

/// `ring::hmac::sign` with SHA-256.
#[verifier::external_body]
pub(crate) fn hmac_sha256(key: &Vec<u8>, data: &Vec<u8>) -> (tag: Vec<u8>)
    ensures
        tag@ == hmac_sha256_tag(key@, data@),
{
    ring::hmac::sign(&ring::hmac::Key::new(ring::hmac::HMAC_SHA256, key), data).as_ref().to_vec()
}

/// `p256::ecdh::diffie_hellman`, on keys given as bytes. The coordinates
/// must have the length of the curve's field: `p256` panics on others.
#[verifier::external_body]
pub(crate) fn ecdh(scalar: &Vec<u8>, x: &Vec<u8>, y: &Vec<u8>) -> (secret: Option<Vec<u8>>)
    requires
        x.len() == 32,
        y.len() == 32,
    ensures
        match secret {
            Some(secret) => ecdh_p256(scalar@, x@, y@) == Some(secret@),
            None => ecdh_p256(scalar@, x@, y@) is None,
        },
{
    let point = p256::EncodedPoint::from_affine_coordinates(x[..].into(), y[..].into(), false);
    let public_key: p256::PublicKey = Option::from(p256::PublicKey::from_encoded_point(&point))?;
    let secret_key = p256::SecretKey::from_slice(scalar).ok()?;
    let shared = p256::ecdh::diffie_hellman(secret_key.to_nonzero_scalar(), public_key.as_affine());
    Some(shared.raw_secret_bytes().to_vec())
}

/// `p256::SecretKey::random` with the operating system's generator, and
/// `to_bytes` of the key. What comes back differs from call to call. It is
/// always the 32 bytes of a key of the curve: the generator draws until the
/// number is not zero, and to every such key a public key belongs.
#[verifier::external_body]
pub(crate) fn random_scalar() -> (scalar: Vec<u8>)
    ensures
        scalar@.len() == 32,
        p256_public_key(scalar@) is Some,
{
    p256::SecretKey::random(&mut rand_core::OsRng).to_bytes().to_vec()
}

/// `p256::SecretKey::public_key`, on a key given as bytes.
#[verifier::external_body]
pub(crate) fn public_key_of(scalar: &Vec<u8>) -> (point: Option<(Vec<u8>, Vec<u8>)>)
    ensures
        match point {
            Some(point) => p256_public_key(scalar@) == Some((point.0@, point.1@)),
            None => p256_public_key(scalar@) is None,
        },
{
    let point = p256::SecretKey::from_slice(scalar).ok()?.public_key().to_encoded_point(false);
    Some((point.x()?.to_vec(), point.y()?.to_vec()))
}

/// `ring::aead::LessSafeKey::seal_in_place_append_tag` with AES-256-GCM and
/// no associated data.
#[verifier::external_body]
pub(crate) fn aes256_gcm_seal(key: &Vec<u8>, nonce: &Vec<u8>, plaintext: &Vec<u8>) -> (sealed:
    Option<Vec<u8>>)
    ensures
        match sealed {
            Some(sealed) => aes256_gcm_sealed(key@, nonce@, plaintext@) == Some(sealed@),
            None => aes256_gcm_sealed(key@, nonce@, plaintext@) is None,
        },
{
    let key = ring::aead::UnboundKey::new(&ring::aead::AES_256_GCM, key).ok()?;
    let nonce = ring::aead::Nonce::try_assume_unique_for_key(nonce).ok()?;
    let mut in_out = plaintext.clone();
    ring::aead::LessSafeKey::new(key).seal_in_place_append_tag(
        nonce,
        ring::aead::Aad::empty(),
        &mut in_out,
    ).ok()?;
    Some(in_out)
}

/// `ring::aead::LessSafeKey::open_in_place` with AES-256-GCM and no
/// associated data.
#[verifier::external_body]
pub(crate) fn aes256_gcm_open(key: &Vec<u8>, nonce: &Vec<u8>, ciphertext: &Vec<u8>) -> (opened:
    Option<Vec<u8>>)
    ensures
        match opened {
            Some(opened) => aes256_gcm_opened(key@, nonce@, ciphertext@) == Some(opened@),
            None => aes256_gcm_opened(key@, nonce@, ciphertext@) is None,
        },
{
    let key = ring::aead::UnboundKey::new(&ring::aead::AES_256_GCM, key).ok()?;
    let nonce = ring::aead::Nonce::try_assume_unique_for_key(nonce).ok()?;
    let mut in_out = ciphertext.clone();
    let opened = ring::aead::LessSafeKey::new(key).open_in_place(
        nonce,
        ring::aead::Aad::empty(),
        &mut in_out,
    ).ok()?;
    Some(opened.to_vec())
}

/// A private key of the curve P-256.
pub struct SecretKey {
    scalar: Vec<u8>,
}

impl SecretKey {
    /// The key as bytes.
    pub closed spec fn scalar(&self) -> Seq<u8> {
        self.scalar@
    }

    /// A fresh key from the operating system's generator: the 32 bytes of
    /// a key of the curve, which differ from call to call.
    pub fn random() -> (key: Self)
        ensures
            key.scalar().len() == 32,
            p256_public_key(key.scalar()) is Some,
    {
        SecretKey { scalar: random_scalar() }
    }

    /// The key that `scalar` stands for.
    pub fn from_bytes(scalar: Vec<u8>) -> (key: Self)
        ensures
            key.scalar() == scalar@,
    {
        SecretKey { scalar }
    }

    /// The key as bytes.
    pub fn to_bytes(&self) -> (scalar: Vec<u8>)
        ensures
            scalar@ == self.scalar(),
    {
        self.scalar.clone()
    }

    /// The public key that belongs to this key, if `p256` accepts this key.
    pub fn public_key(&self) -> (public_key: Option<PublicKey>)
        ensures
            match public_key {
                Some(public_key) => p256_public_key(self.scalar()) == Some(
                    (public_key.x@, public_key.y@),
                ),
                None => p256_public_key(self.scalar()) is None,
            },
    {
        match public_key_of(&self.scalar) {
            Some(point) => Some(PublicKey { x: point.0, y: point.1 }),
            None => None,
        }
    }
}

/// A public key of the curve P-256, by its coordinates.
#[derive(Debug)]
pub struct PublicKey {
    pub x: Vec<u8>,
    pub y: Vec<u8>,
}

/// Whose messages a session key protects.
#[derive(Debug, Clone, Copy, PartialEq, Eq)]
pub enum SessionKeyUser {
    Reader,
    Device,
}

impl SessionKeyUser {
    /// The context that separates the keys of the two directions.
    pub open spec fn info(self) -> Seq<u8> {
        match self {
            SessionKeyUser::Reader => "SKReader".spec_bytes(),
            SessionKeyUser::Device => "SKDevice".spec_bytes(),
        }
    }

    /// The first eight bytes of every nonce of this direction.
    pub open spec fn identifier(self) -> Seq<u8> {
        match self {
            SessionKeyUser::Reader => seq![0u8, 0u8, 0u8, 0u8, 0u8, 0u8, 0u8, 0u8],
            SessionKeyUser::Device => seq![0u8, 0u8, 0u8, 0u8, 0u8, 0u8, 0u8, 1u8],
        }
    }

    /// The nonce of the first message of this direction: the identifier,
    /// then the number one in four bytes.
    pub open spec fn nonce(self) -> Seq<u8> {
        self.identifier() + seq![0u8, 0u8, 0u8, 1u8]
    }
}

/// The bytes that stand for a transcript where keys are derived from it:
/// its encoding, embedded and encoded once more.
pub open spec fn transcript_bytes(transcript: Cbor) -> Seq<u8> {
    cbor_encoding(Cbor::embedded(cbor_encoding(transcript)))
}

/// The key of one direction of a session: agreed between the private key
/// `scalar` and the public key `(x, y)`, and bound to the transcript and the
/// direction. Nothing where the two are not keys of the curve.
pub open spec fn session_key_bytes(
    scalar: Seq<u8>,
    x: Seq<u8>,
    y: Seq<u8>,
    transcript: Cbor,
    user: SessionKeyUser,
) -> Option<Seq<u8>> {
    derived_key_bytes(scalar, x, y, transcript, user.info())
}

/// The key that HKDF derives from the secret that the private key `scalar`
/// shares with the public key `(x, y)`, with the digest of the transcript as
/// salt and `info` as context.
pub open spec fn derived_key_bytes(
    scalar: Seq<u8>,
    x: Seq<u8>,
    y: Seq<u8>,
    transcript: Cbor,
    info: Seq<u8>,
) -> Option<Seq<u8>> {
    match ecdh_p256(scalar, x, y) {
        Some(secret) => Some(
            hkdf_sha256_key(secret, sha256_digest(transcript_bytes(transcript)), info),
        ),
        None => None,
    }
}

/// Why a cryptographic operation failed.
#[derive(Debug, Clone, Copy, PartialEq, Eq)]
pub enum CryptoError {
    /// The keys are not keys of the curve, or do not fit together.
    KeyAgreement,
    /// A key could not be made.
    KeyGeneration,
    /// A message could not be encrypted.
    Encryption,
    /// A message could not be decrypted: it was not made with this key, or
    /// it was changed.
    Decryption,
    /// A message holds no ciphertext.
    MissingCiphertext,
}

/// Computes [`derived_key_bytes`].
pub fn derive_key(
    private_key: &SecretKey,
    public_key: &PublicKey,
    session_transcript: &SessionTranscript,
    info: &[u8],
) -> (key: Result<Vec<u8>, CryptoError>)
    ensures
        match key {
            Ok(key) => public_key.x.len() == 32 && public_key.y.len() == 32 && derived_key_bytes(
                private_key.scalar(),
                public_key.x@,
                public_key.y@,
                session_transcript.to_cbor(),
                info@,
            ) == Some(key@),
            Err(error) => error == CryptoError::KeyAgreement && (public_key.x.len() != 32
                || public_key.y.len() != 32 || derived_key_bytes(
                private_key.scalar(),
                public_key.x@,
                public_key.y@,
                session_transcript.to_cbor(),
                info@,
            ) is None),
        },
{
    if public_key.x.len() != 32 || public_key.y.len() != 32 {
        return Err(CryptoError::KeyAgreement);
    }
    let secret = match ecdh(&private_key.scalar, &public_key.x, &public_key.y) {
        Some(secret) => secret,
        None => { return Err(CryptoError::KeyAgreement); },
    };
    let transcript = session_transcript.to_data_item();
    proof {
        session_transcript.lemma_encodable();
    }
    let salt = sha256(&encode_embedded(&transcript));
    Ok(hkdf_sha256(&secret, &salt, info))
}

/// The symmetric key of one direction of a session.
pub struct SessionKey {
    key: Vec<u8>,
    user: SessionKeyUser,
}

impl SessionKey {
    /// The key as bytes.
    pub closed spec fn bytes(&self) -> Seq<u8> {
        self.key@
    }

    /// The direction that the key is for.
    pub closed spec fn user(&self) -> SessionKeyUser {
        self.user
    }

    /// Derives the key of one direction.
    pub fn new(
        private_key: &SecretKey,
        public_key: &PublicKey,
        session_transcript: &SessionTranscript,
        user: SessionKeyUser,
    ) -> (key: Result<Self, CryptoError>)
        ensures
            match key {
                Ok(key) => public_key.x.len() == 32 && public_key.y.len() == 32
                    && session_key_bytes(
                    private_key.scalar(),
                    public_key.x@,
                    public_key.y@,
                    session_transcript.to_cbor(),
                    user,
                ) == Some(key.bytes()) && key.user() == user,
                Err(error) => error == CryptoError::KeyAgreement && (public_key.x.len() != 32
                    || public_key.y.len() != 32 || session_key_bytes(
                    private_key.scalar(),
                    public_key.x@,
                    public_key.y@,
                    session_transcript.to_cbor(),
                    user,
                ) is None),
            },
    {
        let info = match user {
            SessionKeyUser::Reader => "SKReader".as_bytes(),
            SessionKeyUser::Device => "SKDevice".as_bytes(),
        };
        let key = match derive_key(private_key, public_key, session_transcript, info) {
            Ok(key) => key,
            Err(error) => { return Err(error); },
        };
        Ok(SessionKey { key, user })
    }

    /// The nonce of the first message of this key's direction.
    fn nonce(&self) -> (nonce: Vec<u8>)
        ensures
            nonce@ == self.user().nonce(),
    {
        let last: u8 = match self.user {
            SessionKeyUser::Reader => 0,
            SessionKeyUser::Device => 1,
        };
        let mut nonce: Vec<u8> = Vec::new();
        nonce.push(0);
        nonce.push(0);
        nonce.push(0);
        nonce.push(0);
        nonce.push(0);
        nonce.push(0);
        nonce.push(0);
        nonce.push(last);
        nonce.push(0);
        nonce.push(0);
        nonce.push(0);
        nonce.push(1);
        assert(nonce@ =~= self.user().nonce());
        nonce
    }

    /// Encrypts a message of this key's direction.
    pub fn encrypt(&self, plaintext: &Vec<u8>) -> (ciphertext: Result<Vec<u8>, CryptoError>)
        ensures
            match ciphertext {
                Ok(ciphertext) => aes256_gcm_sealed(self.bytes(), self.user().nonce(), plaintext@)
                    == Some(ciphertext@),
                Err(error) => error == CryptoError::Encryption && aes256_gcm_sealed(
                    self.bytes(),
                    self.user().nonce(),
                    plaintext@,
                ) is None,
            },
    {
        match aes256_gcm_seal(&self.key, &self.nonce(), plaintext) {
            Some(ciphertext) => Ok(ciphertext),
            None => Err(CryptoError::Encryption),
        }
    }

    /// Decrypts a message of this key's direction.
    pub fn decrypt(&self, ciphertext: &Vec<u8>) -> (plaintext: Result<Vec<u8>, CryptoError>)
        ensures
            match plaintext {
                Ok(plaintext) => aes256_gcm_opened(self.bytes(), self.user().nonce(), ciphertext@)
                    == Some(plaintext@),
                Err(error) => error == CryptoError::Decryption && aes256_gcm_opened(
                    self.bytes(),
                    self.user().nonce(),
                    ciphertext@,
                ) is None,
            },
    {
        match aes256_gcm_open(&self.key, &self.nonce(), ciphertext) {
            Some(plaintext) => Ok(plaintext),
            None => Err(CryptoError::Decryption),
        }
    }
}

} // verus!
