//! Certificates.

use vstd::prelude::*;
use x509_parser::asn1_rs::FromDer;

verus! {

/// Why a certificate is not accepted.
#[derive(Debug, Clone, Copy, PartialEq, Eq)]
pub enum CertificateError {
    /// The certificate does not lead to a trust anchor, is not valid at
    /// the time in question, or is not one for the use in question.
    Verification,
    /// The certificate, or what it carries, cannot be read.
    Parsing,
}

/// The extended key usage that marks a certificate as one of a verifier,
/// 1.0.18013.5.1.6, in its encoded form.
pub const EXTENDED_KEY_USAGE_READER_AUTH: [u8; 7] = [0x28, 0x81, 0x8c, 0x5d, 0x05, 0x01, 0x06];

/// Whether `webpki` accepts the certificate at the time `time`, in seconds
/// since 1970: it leads to one of the trust anchors, which are certificates
/// themselves, is valid at that time, and carries the extended key usage
/// `usage`.
pub uninterp spec fn certificate_accepted(
    certificate: Seq<u8>,
    trust_anchors: Seq<Seq<u8>>,
    time: u64,
    usage: Seq<u8>,
) -> bool;

/// Whether `signature`, an ECDSA signature over P-256 and SHA-256 in its
/// fixed-length form, fits `message` and the key of `certificate`.
pub uninterp spec fn signature_accepted(
    certificate: Seq<u8>,
    message: Seq<u8>,
    signature: Seq<u8>,
) -> bool;

/// The byte strings of a sequence of vectors.
pub open spec fn byte_views(vectors: Seq<Vec<u8>>) -> Seq<Seq<u8>> {
    vectors.map_values(|vector: Vec<u8>| vector@)
}

/// `webpki::EndEntityCert::verify_for_usage`, with certificates and trust
/// anchors given as bytes, ECDSA over P-256 with SHA-256 as the only
/// signature algorithm, no intermediate certificates and no revocation
/// lists. A certificate or an anchor that `webpki` cannot read counts as
/// not accepted.
#[verifier::external_body]
pub(crate) fn certificate_verifies(
    certificate: &Vec<u8>,
    trust_anchors: &[Vec<u8>],
    time: u64,
    usage: &'static [u8],
) -> (accepted: bool)
    ensures
        accepted == certificate_accepted(certificate@, byte_views(trust_anchors@), time, usage@),
{
    let anchors: Result<Vec<_>, _> = trust_anchors.iter().map(
        |anchor| webpki::TrustAnchor::try_from_cert_der(anchor),
    ).collect();
    let time = webpki::Time::from_seconds_since_unix_epoch(time);
    match (webpki::EndEntityCert::try_from(&certificate[..]), anchors) {
        (Ok(cert), Ok(anchors)) => cert.verify_for_usage(
            &[&webpki::ECDSA_P256_SHA256],
            &anchors,
            &[],
            time,
            webpki::KeyUsage::required(usage),
            &[],
        ).is_ok(),
        _ => false,
    }
}

/// `webpki::EndEntityCert::verify_signature` with ECDSA over P-256 and
/// SHA-256. `webpki` wants the signature in DER, so it goes through
/// `p256::ecdsa::Signature` first. A certificate or a signature that cannot
/// be read counts as not accepted.
#[verifier::external_body]
pub(crate) fn signature_verifies(certificate: &Vec<u8>, message: &Vec<u8>, signature: &Vec<u8>) -> (
    accepted: bool)
    ensures
        accepted == signature_accepted(certificate@, message@, signature@),
{
    match (
        webpki::EndEntityCert::try_from(&certificate[..]),
        p256::ecdsa::Signature::from_slice(signature),
    ) {
        (Ok(cert), Ok(signature)) => cert.verify_signature(
            &webpki::ECDSA_P256_SHA256,
            message,
            signature.to_der().as_bytes(),
        ).is_ok(),
        _ => false,
    }
}

/// The value of the extension `oid` of a certificate, where `oid` is an
/// object identifier in its encoded form. Nothing inside where the
/// certificate has no such extension; nothing at all where `x509_parser`
/// cannot read the certificate or finds the extension more than once.
pub uninterp spec fn x509_extension(certificate: Seq<u8>, oid: Seq<u8>) -> Option<Option<Seq<u8>>>;

/// The text of a UTF-8 string in DER, if `bytes` begin with one.
pub uninterp spec fn der_utf8_string(bytes: Seq<u8>) -> Option<Seq<char>>;

/// `x509_parser::parse_x509_certificate`, then
/// `X509Certificate::get_extension_unique`.
#[verifier::external_body]
pub(crate) fn certificate_extension(certificate: &Vec<u8>, oid: &'static [u8]) -> (value: Option<
    Option<Vec<u8>>,
>)
    ensures
        match value {
            Some(Some(value)) => x509_extension(certificate@, oid@) == Some(Some(value@)),
            Some(None) => x509_extension(certificate@, oid@) == Some(None::<Seq<u8>>),
            None => x509_extension(certificate@, oid@) is None,
        },
{
    let (_, parsed) = x509_parser::parse_x509_certificate(certificate).ok()?;
    let oid = x509_parser::asn1_rs::Oid::new(oid.into());
    Some(parsed.get_extension_unique(&oid).ok()?.map(|extension| extension.value.to_vec()))
}

/// `asn1_rs::Utf8String::from_der`.
#[verifier::external_body]
pub(crate) fn utf8_string_from_der(bytes: &Vec<u8>) -> (text: Option<String>)
    ensures
        match text {
            Some(text) => der_utf8_string(bytes@) == Some(text@),
            None => der_utf8_string(bytes@) is None,
        },
{
    let (_, text) = x509_parser::asn1_rs::Utf8String::from_der(bytes).ok()?;
    Some(text.string())
}

/// An X.509 certificate in its encoded form (DER).
#[derive(Debug)]
pub struct Certificate {
    pub der: Vec<u8>,
}

impl View for Certificate {
    type V = Seq<u8>;

    open spec fn view(&self) -> Seq<u8> {
        self.der@
    }
}

impl Certificate {
    pub fn from_der(der: Vec<u8>) -> (certificate: Self)
        ensures
            certificate@ == der@,
    {
        Certificate { der }
    }

    /// The encoded form.
    pub fn as_bytes(&self) -> (der: &Vec<u8>)
        ensures
            der@ == self@,
    {
        &self.der
    }

    /// A copy of this certificate.
    pub fn duplicate(&self) -> (copy: Self)
        ensures
            copy@ == self@,
    {
        Certificate { der: self.der.clone() }
    }

    /// Whether two certificates are the same, byte for byte.
    pub fn same_as(&self, other: &Certificate) -> (same: bool)
        ensures
            same == (self@ == other@),
    {
        same_bytes(&self.der, &other.der)
    }
}

/// Whether two byte strings are equal.
pub fn same_bytes(left: &Vec<u8>, right: &Vec<u8>) -> (same: bool)
    ensures
        same == (left@ == right@),
{
    if left.len() != right.len() {
        return false;
    }
    let mut i: usize = 0;
    while i < left.len()
        invariant
            i <= left.len(),
            left.len() == right.len(),
            forall|k: int| 0 <= k < i ==> left[k] == right[k],
        decreases left.len() - i,
    {
        if left[i] != right[i] {
            return false;
        }
        i += 1;
    }
    assert(left@ =~= right@);
    true
}

} // verus!
