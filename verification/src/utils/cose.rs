//! Signed and authenticated CBOR messages.

use crate::utils::cbor::{cbor_encoding, data_item_views, entry_views, Cbor, DataItem};
use crate::utils::x509::{Certificate, CertificateError};
use vstd::prelude::*;

verus! {

/// The label of the header that carries the signer's certificate.
pub const COSE_X5CHAIN_HEADER_LABEL: i128 = 33;

/// Why a signed message is not accepted.
#[derive(Debug, Clone, Copy, PartialEq, Eq)]
pub enum CoseError {
    /// The header that should name the signer is not there.
    MissingLabel,
    /// The header that should name the signer holds no certificate.
    CertificateUnexpectedHeaderType,
    /// The signature does not fit the message and the signer's key.
    EcdsaSignatureVerificationFailed,
    /// The signer's certificate is not accepted.
    Certificate(CertificateError),
}

/// A signature in the form `COSE_Sign1`: the protected header in its encoded
/// form, the unprotected header, the payload if the message carries it, and
/// the signature.
#[derive(Debug)]
pub struct CoseSign1 {
    pub protected: Vec<u8>,
    pub unprotected: Vec<(DataItem, DataItem)>,
    pub payload: Option<Vec<u8>>,
    pub signature: Vec<u8>,
}

/// An authentication code in the form `COSE_Mac0`: the protected header in
/// its encoded form, the unprotected header, the payload if the message
/// carries it, and the code.
#[derive(Debug)]
pub struct CoseMac0 {
    pub protected: Vec<u8>,
    pub unprotected: Vec<(DataItem, DataItem)>,
    pub payload: Option<Vec<u8>>,
    pub tag: Vec<u8>,
}

/// The protected header that names the algorithm ES256: the table with
/// the entry 1: -7.
pub open spec fn es256_header() -> Cbor {
    Cbor::Table(seq![(Cbor::Integer(1), Cbor::Integer(-7i128))])
}

/// The encoding of [`es256_header`].
pub fn es256_header_bytes() -> (bytes: Vec<u8>)
    ensures
        bytes@ == cbor_encoding(es256_header()),
{
    let mut entries: Vec<(DataItem, DataItem)> = Vec::new();
    entries.push((DataItem::Integer(1), DataItem::Integer(-7)));
    assert(entry_views(entries@) =~= es256_header()->Table_0);
    let header = DataItem::table(entries);
    proof {
        reveal_with_fuel(Cbor::encodable, 2);
    }
    crate::utils::cbor::encode_total(&header)
}

impl CoseMac0 {
    /// The message as a data item: the array of the protected header, the
    /// unprotected header, the payload or nothing, and the code.
    pub open spec fn to_cbor(&self) -> Cbor {
        Cbor::Array(
            seq![
                Cbor::Bytes(self.protected@),
                Cbor::Table(entry_views(self.unprotected@)),
                match self.payload {
                    Some(payload) => Cbor::Bytes(payload@),
                    None => Cbor::Null,
                },
                Cbor::Bytes(self.tag@),
            ],
        )
    }

    /// Builds [`Self::to_cbor`].
    pub fn to_data_item(&self) -> (item: DataItem)
        ensures
            item@ == self.to_cbor(),
    {
        let mut headers: Vec<(DataItem, DataItem)> = Vec::new();
        let mut i: usize = 0;
        while i < self.unprotected.len()
            invariant
                i <= self.unprotected.len(),
                headers.len() == i,
                forall|k: int|
                    0 <= k < i ==> headers[k].0@ == self.unprotected[k].0@ && headers[k].1@
                        == self.unprotected[k].1@,
            decreases self.unprotected.len() - i,
        {
            headers.push((self.unprotected[i].0.duplicate(), self.unprotected[i].1.duplicate()));
            i += 1;
        }
        assert(entry_views(headers@) =~= entry_views(self.unprotected@));
        let mut items: Vec<DataItem> = Vec::new();
        items.push(DataItem::bytes(&self.protected));
        items.push(DataItem::table(headers));
        items.push(
            match &self.payload {
                Some(payload) => DataItem::bytes(payload),
                None => DataItem::Null,
            },
        );
        items.push(DataItem::bytes(&self.tag));
        assert(data_item_views(items@) =~= self.to_cbor()->Array_0);
        DataItem::array(items)
    }
}

/// The value of the first header with the integer label `label`.
pub open spec fn header_item(headers: Seq<(Cbor, Cbor)>, label: i128) -> Option<Cbor>
    decreases headers.len(),
{
    if headers.len() == 0 {
        None
    } else if headers[0].0 == Cbor::Integer(label) {
        Some(headers[0].1)
    } else {
        header_item(headers.skip(1), label)
    }
}

/// What is signed in a `COSE_Sign1` with the protected header `protected`
/// and the payload `payload`, without further data: the encoding of the
/// array of the text `Signature1`, the header, an empty byte string and the
/// payload.
pub open spec fn signature_structure(protected: Seq<u8>, payload: Seq<u8>) -> Seq<u8> {
    cbor_encoding(
        Cbor::Array(
            seq![
                Cbor::Text("Signature1"@),
                Cbor::Bytes(protected),
                Cbor::Bytes(Seq::empty()),
                Cbor::Bytes(payload),
            ],
        ),
    )
}

/// What is authenticated in a `COSE_Mac0` with the protected header
/// `protected` and the payload `payload`, without further data: the encoding
/// of the array of the text `MAC0`, the header, an empty byte string and the
/// payload.
pub open spec fn mac_structure(protected: Seq<u8>, payload: Seq<u8>) -> Seq<u8> {
    cbor_encoding(
        Cbor::Array(
            seq![
                Cbor::Text("MAC0"@),
                Cbor::Bytes(protected),
                Cbor::Bytes(Seq::empty()),
                Cbor::Bytes(payload),
            ],
        ),
    )
}

/// `coset::sig_structure_data` for a `COSE_Sign1` without further data. The
/// header is handed over as the bytes that it was read from, which `coset`
/// then uses as they are; `coset` writes the array with `ciborium`.
#[verifier::external_body]
pub(crate) fn signature_structure_data(protected: &Vec<u8>, payload: &Vec<u8>) -> (data: Vec<u8>)
    ensures
        data@ == signature_structure(protected@, payload@),
{
    let header = coset::ProtectedHeader {
        original_data: Some(protected.clone()),
        header: coset::Header::default(),
    };
    coset::sig_structure_data(coset::SignatureContext::CoseSign1, header, None, &[], payload)
}

/// `coset::mac_structure_data` for a `COSE_Mac0` without further data, in
/// the same way.
#[verifier::external_body]
pub(crate) fn mac_structure_data(protected: &Vec<u8>, payload: &Vec<u8>) -> (data: Vec<u8>)
    ensures
        data@ == mac_structure(protected@, payload@),
{
    let header = coset::ProtectedHeader {
        original_data: Some(protected.clone()),
        header: coset::Header::default(),
    };
    coset::mac_structure_data(coset::MacContext::CoseMac0, header, &[], payload)
}

impl CoseSign1 {
    /// The certificate of the signer, as the unprotected header names it.
    pub open spec fn signer(&self) -> Result<Seq<u8>, CoseError> {
        match header_item(entry_views(self.unprotected@), COSE_X5CHAIN_HEADER_LABEL) {
            None => Err(CoseError::MissingLabel),
            Some(Cbor::Bytes(certificate)) => Ok(certificate),
            Some(_) => Err(CoseError::CertificateUnexpectedHeaderType),
        }
    }

    /// The value of the first unprotected header with the label `label`.
    pub fn unprotected_header_item(&self, label: i128) -> (item: Option<&DataItem>)
        ensures
            match item {
                Some(item) => header_item(entry_views(self.unprotected@), label) == Some(item@),
                None => header_item(entry_views(self.unprotected@), label) is None,
            },
    {
        let ghost headers = entry_views(self.unprotected@);
        let mut i: usize = 0;
        assert(headers.skip(0) =~= headers);
        while i < self.unprotected.len()
            invariant
                i <= self.unprotected.len(),
                headers == entry_views(self.unprotected@),
                header_item(headers, label) == header_item(headers.skip(i as int), label),
            decreases self.unprotected.len() - i,
        {
            proof {
                assert(headers.skip(i as int)[0] == headers[i as int]);
                assert(headers.skip(i as int).skip(1) =~= headers.skip(i + 1));
            }
            if self.unprotected[i].0.is_integer(label) {
                return Some(&self.unprotected[i].1);
            }
            i += 1;
        }
        None
    }

    /// The certificate of the signer.
    pub fn signing_cert(&self) -> (certificate: Result<Certificate, CoseError>)
        ensures
            match certificate {
                Ok(certificate) => self.signer() == Ok::<Seq<u8>, CoseError>(certificate@),
                Err(error) => self.signer() == Err::<Seq<u8>, CoseError>(error),
            },
    {
        match self.unprotected_header_item(COSE_X5CHAIN_HEADER_LABEL) {
            None => Err(CoseError::MissingLabel),
            Some(DataItem::Bytes(certificate)) => Ok(Certificate::from_der(certificate.clone())),
            Some(_) => Err(CoseError::CertificateUnexpectedHeaderType),
        }
    }

    /// The message as a data item: the array of the protected header, the
    /// unprotected header, the payload or nothing, and the signature.
    pub open spec fn to_cbor(&self) -> Cbor {
        Cbor::Array(
            seq![
                Cbor::Bytes(self.protected@),
                Cbor::Table(entry_views(self.unprotected@)),
                match self.payload {
                    Some(payload) => Cbor::Bytes(payload@),
                    None => Cbor::Null,
                },
                Cbor::Bytes(self.signature@),
            ],
        )
    }

    /// Builds [`Self::to_cbor`].
    pub fn to_data_item(&self) -> (item: DataItem)
        ensures
            item@ == self.to_cbor(),
    {
        let mut headers: Vec<(DataItem, DataItem)> = Vec::new();
        let mut i: usize = 0;
        while i < self.unprotected.len()
            invariant
                i <= self.unprotected.len(),
                headers.len() == i,
                forall|k: int|
                    0 <= k < i ==> headers[k].0@ == self.unprotected[k].0@ && headers[k].1@
                        == self.unprotected[k].1@,
            decreases self.unprotected.len() - i,
        {
            headers.push((self.unprotected[i].0.duplicate(), self.unprotected[i].1.duplicate()));
            i += 1;
        }
        assert(entry_views(headers@) =~= entry_views(self.unprotected@));
        let mut items: Vec<DataItem> = Vec::new();
        items.push(DataItem::bytes(&self.protected));
        items.push(DataItem::table(headers));
        items.push(
            match &self.payload {
                Some(payload) => DataItem::bytes(payload),
                None => DataItem::Null,
            },
        );
        items.push(DataItem::bytes(&self.signature));
        assert(data_item_views(items@) =~= self.to_cbor()->Array_0);
        DataItem::array(items)
    }

    /// Reads a message from a data item. Only an array of exactly the four
    /// parts, each of its kind, is one.
    pub fn from_data_item(item: &DataItem) -> (message: Option<Self>)
        ensures
            match message {
                Some(message) => message.to_cbor() == item@,
                None => forall|other: CoseSign1| other.to_cbor() != item@,
            },
    {
        let items = match item {
            DataItem::Array(items) => items,
            _ => { return None; },
        };
        proof {
            crate::utils::cbor::lemma_array_view(*items);
        }
        if items.len() != 4 {
            assert forall|other: CoseSign1| other.to_cbor() != item@ by {
                assert(other.to_cbor()->Array_0.len() == 4);
            }
            return None;
        }
        assert forall|other: CoseSign1| other.to_cbor() == item@ implies other.to_cbor()->Array_0[0]
            == items[0]@ && other.to_cbor()->Array_0[1] == items[1]@ && other.to_cbor()->Array_0[2]
            == items[2]@ && other.to_cbor()->Array_0[3] == items[3]@ by {
            assert(data_item_views(items@)[0] == items[0]@);
            assert(data_item_views(items@)[1] == items[1]@);
            assert(data_item_views(items@)[2] == items[2]@);
            assert(data_item_views(items@)[3] == items[3]@);
        }
        let protected = match &items[0] {
            DataItem::Bytes(protected) => protected.clone(),
            _ => { return None; },
        };
        let unprotected = match &items[1] {
            DataItem::Table(entries) => {
                proof {
                    crate::utils::cbor::lemma_table_view(*entries);
                }
                let mut copies: Vec<(DataItem, DataItem)> = Vec::new();
                let mut i: usize = 0;
                while i < entries.len()
                    invariant
                        i <= entries.len(),
                        copies.len() == i,
                        forall|k: int|
                            0 <= k < i ==> copies[k].0@ == entries[k].0@ && copies[k].1@
                                == entries[k].1@,
                    decreases entries.len() - i,
                {
                    copies.push((entries[i].0.duplicate(), entries[i].1.duplicate()));
                    i += 1;
                }
                assert(entry_views(copies@) =~= entry_views(entries@));
                copies
            },
            _ => { return None; },
        };
        let payload = match &items[2] {
            DataItem::Bytes(payload) => Some(payload.clone()),
            DataItem::Null => None,
            _ => { return None; },
        };
        let signature = match &items[3] {
            DataItem::Bytes(signature) => signature.clone(),
            _ => { return None; },
        };
        let message = CoseSign1 { protected, unprotected, payload, signature };
        assert(message.to_cbor()->Array_0 =~= data_item_views(items@));
        Some(message)
    }
}

} // verus!
