//! What the holder signs and sends when it discloses attributes.

use crate::iso::engagement::SessionTranscript;
use crate::iso::mdocs::{
    item_views, name_space_views, DataElementIdentifier, DocType, IssuerSigned, IssuerSignedItem,
    IssuerSignedView, ItemView, NameSpace, NameSpacesView,
};
use crate::utils::cbor::{
    cbor_decoding, cbor_encoding, data_item_views, decode, encode, encode_embedded,
    encode_total, entry_views, Cbor, DataItem,
};
use crate::utils::cose::{
    es256_header, es256_header_bytes, mac_structure, mac_structure_data, signature_structure,
    signature_structure_data, CoseMac0, CoseSign1,
};
use crate::utils::crypto::{
    derive_key, derived_key_bytes, hmac_sha256, hmac_sha256_tag, CryptoError, PublicKey,
    SecretKey,
};
use vstd::prelude::*;
use vstd::string::StringSliceAdditionalSpecFns;

verus! {

/// What the holder signs for credential type `doc_type` in the session with
/// transcript `transcript`, as a data item: the fixed text that separates
/// this signature from every other, the transcript, the type, and the
/// embedded empty table.
pub open spec fn device_authentication_cbor(transcript: Cbor, doc_type: Seq<char>) -> Cbor {
    Cbor::Array(
        seq![
            Cbor::Text("DeviceAuthentication"@),
            transcript,
            Cbor::Text(doc_type),
            Cbor::embedded(cbor_encoding(Cbor::Table(Seq::empty()))),
        ],
    )
}

/// The bytes that the holder signs: the encoding of the data item,
/// embedded and encoded once more.
pub open spec fn device_authentication_challenge(transcript: Cbor, doc_type: Seq<char>) -> Seq<
    u8,
> {
    cbor_encoding(Cbor::embedded(cbor_encoding(device_authentication_cbor(transcript, doc_type))))
}

/// What the holder signs for one credential type: the transcript of the
/// session and the type. The holder signs no attributes of its own, so the
/// place for them holds an empty table.
#[derive(Debug)]
pub struct DeviceAuthentication {
    pub session_transcript: SessionTranscript,
    pub doc_type: DocType,
}

impl DeviceAuthentication {
    /// The data item of this value.
    pub open spec fn to_cbor(&self) -> Cbor {
        device_authentication_cbor(self.session_transcript.to_cbor(), self.doc_type@)
    }

    /// The bytes that the holder signs.
    pub open spec fn challenge(&self) -> Seq<u8> {
        device_authentication_challenge(self.session_transcript.to_cbor(), self.doc_type@)
    }

    /// Puts the transcript of a session and a credential type together.
    pub fn from_session_transcript(session_transcript: SessionTranscript, doc_type: DocType) -> (r:
        Self)
        ensures
            r.session_transcript == session_transcript,
            r.doc_type == doc_type,
    {
        DeviceAuthentication { session_transcript, doc_type }
    }

    /// Builds [`Self::to_cbor`].
    pub fn to_data_item(&self) -> (item: DataItem)
        ensures
            item@ == self.to_cbor(),
    {
        let empty = DataItem::table(Vec::new());
        assert(empty@ == Cbor::Table(Seq::empty())) by {
            assert(crate::utils::cbor::entry_views(Seq::<(DataItem, DataItem)>::empty())
                =~= Seq::<(Cbor, Cbor)>::empty());
        }
        let empty_bytes = encode_total(&empty);
        let mut items: Vec<DataItem> = Vec::new();
        items.push(DataItem::text("DeviceAuthentication"));
        items.push(self.session_transcript.to_data_item());
        items.push(DataItem::text(self.doc_type.as_str()));
        items.push(DataItem::embedded(&empty_bytes));
        assert(data_item_views(items@) =~= seq![
            Cbor::Text("DeviceAuthentication"@),
            self.session_transcript.to_cbor(),
            Cbor::Text(self.doc_type@),
            Cbor::embedded(cbor_encoding(Cbor::Table(Seq::empty()))),
        ]);
        DataItem::array(items)
    }

    /// Computes [`Self::challenge`].
    pub fn to_bytes(&self) -> (bytes: Vec<u8>)
        ensures
            bytes@ == self.challenge(),
    {
        let item = self.to_data_item();
        proof {
            self.session_transcript.lemma_encodable();
            reveal_with_fuel(Cbor::encodable, 3);
        }
        encode_embedded(&item)
    }
}

} // verus!

verus! {

/// The data item of one attribute as the issuer signed it, embedded: the
/// table of the number of its digest, the random bytes, its name and its
/// value. Nothing where the bytes of the value are no data item, or the
/// value has no encoding.
pub open spec fn issuer_signed_item_cbor(item: ItemView) -> Option<Cbor> {
    match cbor_decoding(item.element_value) {
        Some(value) => if value.encodable() {
            Some(
                Cbor::embedded(
                    cbor_encoding(
                        Cbor::Table(
                            seq![
                                (Cbor::Text("digestID"@), Cbor::Integer(item.digest_id as i128)),
                                (Cbor::Text("random"@), Cbor::Bytes(item.random)),
                                (
                                    Cbor::Text("elementIdentifier"@),
                                    Cbor::Text(item.element_identifier),
                                ),
                                (Cbor::Text("elementValue"@), value),
                            ],
                        ),
                    ),
                ),
            )
        } else {
            None
        },
        None => None,
    }
}

/// Whether every attribute of `items` has a data item.
pub open spec fn items_encodable(items: Seq<ItemView>) -> bool {
    forall|i: int| 0 <= i < items.len() ==> issuer_signed_item_cbor(#[trigger] items[i]) is Some
}

/// The array of the data items of the attributes of one namespace.
pub open spec fn attributes_cbor(items: Seq<ItemView>) -> Cbor {
    Cbor::Array(Seq::new(items.len(), |i: int| issuer_signed_item_cbor(items[i])->0))
}

/// Whether every attribute of every namespace has a data item.
pub open spec fn name_spaces_encodable(name_spaces: NameSpacesView) -> bool {
    forall|i: int| 0 <= i < name_spaces.len() ==> items_encodable((#[trigger] name_spaces[i]).1)
}

/// The table of namespaces, each with the array of its attributes.
pub open spec fn issuer_name_spaces_cbor(name_spaces: NameSpacesView) -> Cbor {
    Cbor::Table(
        Seq::new(
            name_spaces.len(),
            |i: int| (Cbor::Text(name_spaces[i].0), attributes_cbor(name_spaces[i].1)),
        ),
    )
}

/// What the issuer signed, as a data item: a table of the namespaces, where
/// there are any, and the issuer's signature. Nothing where an attribute
/// has no data item or the bytes of the signature are none.
pub open spec fn issuer_signed_cbor(issuer_signed: IssuerSignedView) -> Option<Cbor> {
    let name_spaces_ok = match issuer_signed.name_spaces {
        Some(name_spaces) => name_spaces_encodable(name_spaces),
        None => true,
    };
    match cbor_decoding(issuer_signed.issuer_auth) {
        Some(issuer_auth) => if name_spaces_ok {
            Some(
                Cbor::Table(
                    match issuer_signed.name_spaces {
                        Some(name_spaces) => seq![
                            (Cbor::Text("nameSpaces"@), issuer_name_spaces_cbor(name_spaces)),
                        ],
                        None => Seq::empty(),
                    } + seq![(Cbor::Text("issuerAuth"@), issuer_auth)],
                ),
            )
        } else {
            None
        },
        None => None,
    }
}

/// Builds [`issuer_signed_item_cbor`].
pub fn issuer_signed_item_to_data_item(item: &IssuerSignedItem) -> (built: Option<DataItem>)
    ensures
        match built {
            Some(built) => issuer_signed_item_cbor(item@) == Some(built@),
            None => issuer_signed_item_cbor(item@) is None,
        },
{
    let value = match decode(item.element_value.as_slice()) {
        Some(value) => value,
        None => { return None; },
    };
    let mut entries: Vec<(DataItem, DataItem)> = Vec::new();
    entries.push((DataItem::text("digestID"), DataItem::Integer(item.digest_id as i128)));
    entries.push((DataItem::text("random"), DataItem::bytes(&item.random)));
    entries.push(
        (DataItem::text("elementIdentifier"), DataItem::text(item.element_identifier.as_str())),
    );
    entries.push((DataItem::text("elementValue"), value));
    assert(entry_views(entries@) =~= seq![
        (Cbor::Text("digestID"@), Cbor::Integer(item.digest_id as i128)),
        (Cbor::Text("random"@), Cbor::Bytes(item.random@)),
        (Cbor::Text("elementIdentifier"@), Cbor::Text(item.element_identifier@)),
        (Cbor::Text("elementValue"@), value@),
    ]);
    let table = DataItem::table(entries);
    proof {
        reveal_with_fuel(Cbor::encodable, 2);
        let views = table@->Table_0;
        if value@.encodable() {
            assert forall|i: int| 0 <= i < views.len() implies (#[trigger] views[i]).0.encodable()
                && views[i].1.encodable() by {}
        } else {
            assert(!views[3].1.encodable());
        }
    }
    match encode(&table) {
        Some(bytes) => Some(DataItem::embedded(&bytes)),
        None => None,
    }
}

impl IssuerSigned {
    /// Builds [`issuer_signed_cbor`].
    pub fn to_data_item(&self) -> (built: Option<DataItem>)
        ensures
            match built {
                Some(built) => issuer_signed_cbor(self@) == Some(built@),
                None => issuer_signed_cbor(self@) is None,
            },
    {
        let mut entries: Vec<(DataItem, DataItem)> = Vec::new();
        match &self.name_spaces {
            Some(name_spaces) => {
                let ghost views = name_space_views(name_spaces@);
                let mut tables: Vec<(DataItem, DataItem)> = Vec::new();
                let mut i: usize = 0;
                while i < name_spaces.len()
                    invariant
                        i <= name_spaces.len(),
                        tables.len() == i,
                        views == name_space_views(name_spaces@),
                        self@.name_spaces == Some(views),
                        forall|k: int| 0 <= k < i ==> items_encodable((#[trigger] views[k]).1),
                        forall|k: int|
                            0 <= k < i ==> (#[trigger] tables[k]).0@ == Cbor::Text(views[k].0)
                                && tables[k].1@ == attributes_cbor(views[k].1),
                    decreases name_spaces.len() - i,
                {
                    let attributes = &name_spaces[i].1;
                    let ghost items = item_views(attributes@);
                    assert(views[i as int] == (name_spaces[i as int].0@, items));
                    let mut built: Vec<DataItem> = Vec::new();
                    let mut j: usize = 0;
                    while j < attributes.len()
                        invariant
                            j <= attributes.len(),
                            built.len() == j,
                            items == item_views(attributes@),
                            views == name_space_views(name_spaces@),
                            self@.name_spaces == Some(views),
                            i < name_spaces.len(),
                            views[i as int].1 == items,
                            forall|k: int|
                                0 <= k < j ==> issuer_signed_item_cbor(#[trigger] items[k]) == Some(
                                    built[k]@,
                                ),
                        decreases attributes.len() - j,
                    {
                        assert(items[j as int] == attributes[j as int]@);
                        match issuer_signed_item_to_data_item(&attributes[j]) {
                            Some(item) => {
                                built.push(item);
                            },
                            None => {
                                assert(!items_encodable(views[i as int].1));
                                assert(!name_spaces_encodable(views));
                                return None;
                            },
                        }
                        j += 1;
                    }
                    assert(data_item_views(built@) =~= attributes_cbor(items)->Array_0);
                    tables.push((DataItem::text(name_spaces[i].0.as_str()), DataItem::array(built)));
                    i += 1;
                }
                assert(entry_views(tables@) =~= issuer_name_spaces_cbor(views)->Table_0);
                entries.push((DataItem::text("nameSpaces"), DataItem::table(tables)));
            },
            None => {},
        }
        let issuer_auth = match decode(self.issuer_auth.as_slice()) {
            Some(issuer_auth) => issuer_auth,
            None => { return None; },
        };
        entries.push((DataItem::text("issuerAuth"), issuer_auth));
        assert(entry_views(entries@) =~= issuer_signed_cbor(self@)->0->Table_0);
        Some(DataItem::table(entries))
    }
}

} // verus!

verus! {

/// Why a key did not sign.
#[derive(Debug)]
pub struct SigningError {
    pub message: String,
}

/// A private key of the holder that signs what it is given. Where the key
/// is kept, and how it signs, is up to the one who implements this.
pub trait MdocEcdsaKey {
    /// Whether `signature` is what this key may answer when it is asked to
    /// sign `message`. What that is, is up to the key: a key that says
    /// nothing of itself may answer anything.
    open spec fn signs(&self, message: Seq<u8>, signature: Seq<u8>) -> bool {
        true
    }

    /// Whether this key may refuse to sign `message`, and give `error` for
    /// its reason.
    open spec fn refuses(&self, message: Seq<u8>, error: SigningError) -> bool {
        true
    }

    /// Signs `message` with ECDSA over P-256 and SHA-256, and gives the
    /// signature in its fixed-length form.
    fn try_sign(&self, message: &Vec<u8>) -> (signed: Result<Vec<u8>, SigningError>)
        ensures
            match signed {
                Ok(signature) => self.signs(message@, signature@),
                Err(error) => self.refuses(message@, error),
            },
    ;
}

/// Finds the private keys of the holder by their names.
pub trait KeyFactory {
    type Key: MdocEcdsaKey;

    /// Whether `key` is what this may hand out as the key that is kept
    /// under the name `identifier`.
    open spec fn finds(&self, identifier: Seq<char>, key: Self::Key) -> bool {
        true
    }

    /// The key that is kept under the name `identifier`.
    fn generate_existing(&self, identifier: &String) -> (key: Self::Key)
        ensures
            self.finds(identifier@, key),
    ;
}

/// What is handed to a key that is to sign `challenge`: the signature
/// structure of the challenge under the header that names the algorithm.
pub open spec fn signing_input(challenge: Seq<u8>) -> Seq<u8> {
    signature_structure(cbor_encoding(es256_header()), challenge)
}

/// The holder's proof that it has the key of a credential.
#[derive(Debug)]
pub enum DeviceAuth {
    DeviceSignature(CoseSign1),
    DeviceMac(CoseMac0),
}

/// What the holder adds to a disclosed credential: no attributes of its
/// own, and the proof of its key.
#[derive(Debug)]
pub struct DeviceSigned {
    pub device_auth: DeviceAuth,
}

/// The key with which holder and verifier authenticate a credential to
/// each other, where they use a code in place of a signature: agreed
/// between the private key `scalar` and the public key `(x, y)`, and bound
/// to the transcript.
pub open spec fn mac_key_bytes(scalar: Seq<u8>, x: Seq<u8>, y: Seq<u8>, transcript: Cbor) -> Option<
    Seq<u8>,
> {
    derived_key_bytes(scalar, x, y, transcript, "EMacKey".spec_bytes())
}

impl DeviceAuth {
    /// The data item: a table with the signature or the code.
    pub open spec fn to_cbor(&self) -> Cbor {
        match self {
            DeviceAuth::DeviceSignature(signature) => Cbor::Table(
                seq![(Cbor::Text("deviceSignature"@), signature.to_cbor())],
            ),
            DeviceAuth::DeviceMac(mac) => Cbor::Table(
                seq![(Cbor::Text("deviceMac"@), mac.to_cbor())],
            ),
        }
    }
}

impl DeviceSigned {
    /// The data item: a table of the embedded empty table of attributes
    /// and the proof.
    pub open spec fn to_cbor(&self) -> Cbor {
        Cbor::Table(
            seq![
                (
                    Cbor::Text("nameSpaces"@),
                    Cbor::embedded(cbor_encoding(Cbor::Table(Seq::empty()))),
                ),
                (Cbor::Text("deviceAuth"@), self.device_auth.to_cbor()),
            ],
        )
    }

    /// Builds [`Self::to_cbor`].
    pub fn to_data_item(&self) -> (item: DataItem)
        ensures
            item@ == self.to_cbor(),
    {
        let empty = DataItem::table(Vec::new());
        assert(empty@ == Cbor::Table(Seq::empty())) by {
            assert(entry_views(Seq::<(DataItem, DataItem)>::empty()) =~= Seq::<
                (Cbor, Cbor),
            >::empty());
        }
        let empty_bytes = encode_total(&empty);
        let mut proof_entries: Vec<(DataItem, DataItem)> = Vec::new();
        match &self.device_auth {
            DeviceAuth::DeviceSignature(signature) => {
                proof_entries.push((DataItem::text("deviceSignature"), signature.to_data_item()));
            },
            DeviceAuth::DeviceMac(mac) => {
                proof_entries.push((DataItem::text("deviceMac"), mac.to_data_item()));
            },
        }
        assert(entry_views(proof_entries@) =~= self.device_auth.to_cbor()->Table_0);
        let mut entries: Vec<(DataItem, DataItem)> = Vec::new();
        entries.push((DataItem::text("nameSpaces"), DataItem::embedded(&empty_bytes)));
        entries.push((DataItem::text("deviceAuth"), DataItem::table(proof_entries)));
        assert(entry_views(entries@) =~= self.to_cbor()->Table_0);
        DataItem::table(entries)
    }

    /// Whether this is the signature `signature` as the holder's proof: a
    /// `COSE_Sign1` that names the algorithm, carries no payload and no
    /// further headers, and holds the signature.
    pub open spec fn wraps(&self, signature: Seq<u8>) -> bool {
        &&& self.device_auth is DeviceSignature
        &&& self.device_auth->DeviceSignature_0.protected@ == cbor_encoding(es256_header())
        &&& self.device_auth->DeviceSignature_0.unprotected@.len() == 0
        &&& self.device_auth->DeviceSignature_0.payload is None
        &&& self.device_auth->DeviceSignature_0.signature@ == signature
    }

    /// Wraps a signature over a challenge as the holder's proof.
    pub fn from_signature(signature: Vec<u8>) -> (signed: Self)
        ensures
            signed.wraps(signature@),
    {
        DeviceSigned {
            device_auth: DeviceAuth::DeviceSignature(
                CoseSign1 {
                    protected: es256_header_bytes(),
                    unprotected: Vec::new(),
                    payload: None,
                    signature,
                },
            ),
        }
    }

    /// Has `private_key` sign the challenge, and wraps the signature as the
    /// holder's proof. What is handed to the key is [`signing_input`] of
    /// the challenge. What comes back is what the key answered: its
    /// signature, wrapped, or its refusal.
    pub fn new_signature<K: MdocEcdsaKey>(private_key: &K, challenge: &Vec<u8>) -> (signed: Result<
        DeviceSigned,
        SigningError,
    >)
        ensures
            match signed {
                Ok(signed) => exists|signature: Seq<u8>|
                    #[trigger] private_key.signs(signing_input(challenge@), signature)
                        && signed.wraps(signature),
                Err(error) => private_key.refuses(signing_input(challenge@), error),
            },
    {
        let protected = es256_header_bytes();
        let message = signature_structure_data(&protected, challenge);
        match private_key.try_sign(&message) {
            Ok(signature) => {
                assert(private_key.signs(signing_input(challenge@), signature@));
                Ok(Self::from_signature(signature))
            },
            Err(error) => Err(error),
        }
    }

    /// Authenticates the challenge with a code in place of a signature. The
    /// key of the code is agreed between the holder's private key and the
    /// verifier's public key and bound to the transcript; the code is
    /// taken over the authentication structure of the challenge. The
    /// result carries the code and not the challenge.
    pub fn new_mac(
        private_key: &SecretKey,
        reader_pub_key: &PublicKey,
        session_transcript: &SessionTranscript,
        device_auth: &Vec<u8>,
    ) -> (signed: Result<DeviceSigned, CryptoError>)
        ensures
            match signed {
                Ok(signed) => {
                    let key = mac_key_bytes(
                        private_key.scalar(),
                        reader_pub_key.x@,
                        reader_pub_key.y@,
                        session_transcript.to_cbor(),
                    );
                    &&& reader_pub_key.x.len() == 32
                    &&& reader_pub_key.y.len() == 32
                    &&& key is Some
                    &&& signed.device_auth is DeviceMac
                    &&& signed.device_auth->DeviceMac_0.protected@ == cbor_encoding(es256_header())
                    &&& signed.device_auth->DeviceMac_0.unprotected@.len() == 0
                    &&& signed.device_auth->DeviceMac_0.payload is None
                    &&& signed.device_auth->DeviceMac_0.tag@ == hmac_sha256_tag(
                        key->0,
                        mac_structure(cbor_encoding(es256_header()), device_auth@),
                    )
                },
                Err(error) => error == CryptoError::KeyAgreement && (reader_pub_key.x.len() != 32
                    || reader_pub_key.y.len() != 32 || mac_key_bytes(
                    private_key.scalar(),
                    reader_pub_key.x@,
                    reader_pub_key.y@,
                    session_transcript.to_cbor(),
                ) is None),
            },
    {
        let key = match derive_key(
            private_key,
            reader_pub_key,
            session_transcript,
            "EMacKey".as_bytes(),
        ) {
            Ok(key) => key,
            Err(error) => { return Err(error); },
        };
        let protected = es256_header_bytes();
        let tag = hmac_sha256(&key, &mac_structure_data(&protected, device_auth));
        Ok(
            DeviceSigned {
                device_auth: DeviceAuth::DeviceMac(
                    CoseMac0 { protected, unprotected: Vec::new(), payload: None, tag },
                ),
            },
        )
    }
}

/// The code that says why something is not disclosed.
pub type ErrorCode = i32;

/// For attributes that are not disclosed, why: namespace by namespace, for
/// each attribute a code.
pub type Errors = Vec<(NameSpace, Vec<(DataElementIdentifier, ErrorCode)>)>;

/// A credential as it is disclosed: what the issuer signed, cut down to
/// what is disclosed, the holder's proof and, where there are any, the
/// reasons for which attributes are left out.
#[derive(Debug)]
pub struct Document {
    pub doc_type: DocType,
    pub issuer_signed: IssuerSigned,
    pub device_signed: DeviceSigned,
    pub errors: Option<Errors>,
}

/// The table of the reasons in one namespace: each attribute with its
/// code.
pub open spec fn error_items_cbor(items: Seq<(DataElementIdentifier, ErrorCode)>) -> Cbor {
    Cbor::Table(
        Seq::new(items.len(), |i: int| (Cbor::Text(items[i].0@), Cbor::Integer(items[i].1 as i128))),
    )
}

/// The table of the reasons, namespace by namespace.
pub open spec fn errors_cbor(errors: Seq<(NameSpace, Vec<(DataElementIdentifier, ErrorCode)>)>) -> Cbor {
    Cbor::Table(
        Seq::new(errors.len(), |i: int| (Cbor::Text(errors[i].0@), error_items_cbor(errors[i].1@))),
    )
}

/// Builds [`error_items_cbor`].
pub fn error_items_item(items: &Vec<(DataElementIdentifier, ErrorCode)>) -> (item: DataItem)
    ensures
        item@ == error_items_cbor(items@),
{
    let mut entries: Vec<(DataItem, DataItem)> = Vec::new();
    let mut i: usize = 0;
    while i < items.len()
        invariant
            i <= items.len(),
            entries.len() == i,
            forall|k: int|
                0 <= k < i ==> (#[trigger] entries[k]).0@ == Cbor::Text(items[k].0@)
                    && entries[k].1@ == Cbor::Integer(items[k].1 as i128),
        decreases items.len() - i,
    {
        entries.push((DataItem::text(items[i].0.as_str()), DataItem::Integer(items[i].1 as i128)));
        i += 1;
    }
    assert(entry_views(entries@) =~= error_items_cbor(items@)->Table_0);
    DataItem::table(entries)
}

/// Builds [`errors_cbor`].
pub fn errors_item(errors: &Errors) -> (item: DataItem)
    ensures
        item@ == errors_cbor(errors@),
{
    let mut entries: Vec<(DataItem, DataItem)> = Vec::new();
    let mut i: usize = 0;
    while i < errors.len()
        invariant
            i <= errors.len(),
            entries.len() == i,
            forall|k: int|
                0 <= k < i ==> (#[trigger] entries[k]).0@ == Cbor::Text(errors[k].0@)
                    && entries[k].1@ == error_items_cbor(errors[k].1@),
        decreases errors.len() - i,
    {
        entries.push((DataItem::text(errors[i].0.as_str()), error_items_item(&errors[i].1)));
        i += 1;
    }
    assert(entry_views(entries@) =~= errors_cbor(errors@)->Table_0);
    DataItem::table(entries)
}

impl Document {
    /// The data item: a table of the type, what the issuer signed, what
    /// the holder adds and, where there are any, the reasons for which
    /// attributes are left out. Nothing where what the issuer signed has no
    /// data item.
    pub open spec fn to_cbor(&self) -> Option<Cbor> {
        match issuer_signed_cbor(self.issuer_signed@) {
            Some(issuer_signed) => Some(
                Cbor::Table(
                    seq![
                        (Cbor::Text("docType"@), Cbor::Text(self.doc_type@)),
                        (Cbor::Text("issuerSigned"@), issuer_signed),
                        (Cbor::Text("deviceSigned"@), self.device_signed.to_cbor()),
                    ] + match self.errors {
                        Some(errors) => seq![(Cbor::Text("errors"@), errors_cbor(errors@))],
                        None => Seq::empty(),
                    },
                ),
            ),
            None => None,
        }
    }

    /// Builds [`Self::to_cbor`].
    pub fn to_data_item(&self) -> (item: Option<DataItem>)
        ensures
            match item {
                Some(item) => self.to_cbor() == Some(item@),
                None => self.to_cbor() is None,
            },
    {
        let issuer_signed = match self.issuer_signed.to_data_item() {
            Some(issuer_signed) => issuer_signed,
            None => { return None; },
        };
        let mut entries: Vec<(DataItem, DataItem)> = Vec::new();
        entries.push((DataItem::text("docType"), DataItem::text(self.doc_type.as_str())));
        entries.push((DataItem::text("issuerSigned"), issuer_signed));
        entries.push((DataItem::text("deviceSigned"), self.device_signed.to_data_item()));
        match &self.errors {
            Some(errors) => {
                entries.push((DataItem::text("errors"), errors_item(errors)));
            },
            None => {},
        }
        assert(entry_views(entries@) =~= self.to_cbor()->0->Table_0);
        Some(DataItem::table(entries))
    }
}

/// The version of a [`DeviceResponse`].
#[derive(Debug, Clone, Copy, PartialEq, Eq)]
pub enum DeviceResponseVersion {
    V1_0,
}

/// For credential types of which nothing is disclosed, why: pairs of a
/// type and a code.
pub type DocumentError = Vec<(DocType, ErrorCode)>;

/// What a holder answers: the disclosed credentials, the reasons for which
/// others are not disclosed, and a status.
#[derive(Debug)]
pub struct DeviceResponse {
    pub version: DeviceResponseVersion,
    pub documents: Option<Vec<Document>>,
    pub document_errors: Option<Vec<DocumentError>>,
    pub status: u64,
}

/// The table of one list of reasons: each type with its code.
pub open spec fn document_error_cbor(error: Seq<(DocType, ErrorCode)>) -> Cbor {
    Cbor::Table(
        Seq::new(error.len(), |i: int| (Cbor::Text(error[i].0@), Cbor::Integer(error[i].1 as i128))),
    )
}

/// The array of the tables of lists of reasons.
pub open spec fn document_errors_cbor(errors: Seq<DocumentError>) -> Cbor {
    Cbor::Array(Seq::new(errors.len(), |i: int| document_error_cbor(errors[i]@)))
}

/// Whether every document has a data item.
pub open spec fn documents_encodable(documents: Seq<Document>) -> bool {
    forall|i: int| 0 <= i < documents.len() ==> (#[trigger] documents[i]).to_cbor() is Some
}

/// The array of the data items of documents.
pub open spec fn documents_cbor(documents: Seq<Document>) -> Cbor {
    Cbor::Array(Seq::new(documents.len(), |i: int| documents[i].to_cbor()->0))
}

/// The data item of an answer that gives no reasons: a table of the
/// version, the documents where there are any, and the status. Nothing
/// where a document has no data item.
pub open spec fn device_response_cbor(documents: Option<Seq<Document>>, status: u64) -> Option<Cbor> {
    full_device_response_cbor(documents, None, status)
}

/// The data item of an answer: a table of the version, the documents where
/// there are any, the reasons for which others are not disclosed where
/// there are any, and the status. Nothing where a document has no data
/// item.
pub open spec fn full_device_response_cbor(
    documents: Option<Seq<Document>>,
    document_errors: Option<Seq<DocumentError>>,
    status: u64,
) -> Option<Cbor> {
    let documents_ok = match documents {
        Some(documents) => documents_encodable(documents),
        None => true,
    };
    if documents_ok {
        Some(
            Cbor::Table(
                seq![(Cbor::Text("version"@), Cbor::Text("1.0"@))] + match documents {
                    Some(documents) => seq![(Cbor::Text("documents"@), documents_cbor(documents))],
                    None => Seq::empty(),
                } + match document_errors {
                    Some(errors) => seq![
                        (Cbor::Text("documentErrors"@), document_errors_cbor(errors)),
                    ],
                    None => Seq::empty(),
                } + seq![(Cbor::Text("status"@), Cbor::Integer(status as i128))],
            ),
        )
    } else {
        None
    }
}

/// Builds [`document_error_cbor`].
pub fn document_error_item(error: &DocumentError) -> (item: DataItem)
    ensures
        item@ == document_error_cbor(error@),
{
    let mut entries: Vec<(DataItem, DataItem)> = Vec::new();
    let mut i: usize = 0;
    while i < error.len()
        invariant
            i <= error.len(),
            entries.len() == i,
            forall|k: int|
                0 <= k < i ==> (#[trigger] entries[k]).0@ == Cbor::Text(error[k].0@)
                    && entries[k].1@ == Cbor::Integer(error[k].1 as i128),
        decreases error.len() - i,
    {
        entries.push((DataItem::text(error[i].0.as_str()), DataItem::Integer(error[i].1 as i128)));
        i += 1;
    }
    assert(entry_views(entries@) =~= document_error_cbor(error@)->Table_0);
    DataItem::table(entries)
}

/// Builds [`document_errors_cbor`].
pub fn document_errors_item(errors: &Vec<DocumentError>) -> (item: DataItem)
    ensures
        item@ == document_errors_cbor(errors@),
{
    let mut items: Vec<DataItem> = Vec::new();
    let mut i: usize = 0;
    while i < errors.len()
        invariant
            i <= errors.len(),
            items.len() == i,
            forall|k: int| 0 <= k < i ==> (#[trigger] items[k])@ == document_error_cbor(errors[k]@),
        decreases errors.len() - i,
    {
        items.push(document_error_item(&errors[i]));
        i += 1;
    }
    assert(data_item_views(items@) =~= document_errors_cbor(errors@)->Array_0);
    DataItem::array(items)
}

impl DeviceResponse {
    /// The answer that discloses `documents`: version 1.0, status 0, and
    /// no reasons for anything left out.
    pub fn new(documents: Vec<Document>) -> (response: Self)
        ensures
            response.version == DeviceResponseVersion::V1_0,
            response.documents == Some(documents),
            response.document_errors is None,
            response.status == 0,
    {
        DeviceResponse {
            version: DeviceResponseVersion::V1_0,
            documents: Some(documents),
            document_errors: None,
            status: 0,
        }
    }

    /// The data item of this answer.
    pub open spec fn to_cbor(&self) -> Option<Cbor> {
        full_device_response_cbor(
            match self.documents {
                Some(documents) => Some(documents@),
                None => None,
            },
            match self.document_errors {
                Some(errors) => Some(errors@),
                None => None,
            },
            self.status,
        )
    }

    /// Builds [`Self::to_cbor`].
    pub fn to_data_item(&self) -> (item: Option<DataItem>)
        ensures
            match item {
                Some(item) => self.to_cbor() == Some(item@),
                None => self.to_cbor() is None,
            },
    {
        let mut entries: Vec<(DataItem, DataItem)> = Vec::new();
        entries.push((DataItem::text("version"), DataItem::text("1.0")));
        match &self.documents {
            Some(documents) => {
                let mut items: Vec<DataItem> = Vec::new();
                let mut i: usize = 0;
                while i < documents.len()
                    invariant
                        i <= documents.len(),
                        items.len() == i,
                        self.documents == Some(*documents),
                        forall|k: int|
                            0 <= k < i ==> (#[trigger] documents[k]).to_cbor() == Some(items[k]@),
                    decreases documents.len() - i,
                {
                    match documents[i].to_data_item() {
                        Some(item) => {
                            items.push(item);
                        },
                        None => {
                            assert(!documents_encodable(documents@));
                            return None;
                        },
                    }
                    i += 1;
                }
                assert(data_item_views(items@) =~= documents_cbor(documents@)->Array_0);
                entries.push((DataItem::text("documents"), DataItem::array(items)));
            },
            None => {},
        }
        match &self.document_errors {
            Some(errors) => {
                entries.push((DataItem::text("documentErrors"), document_errors_item(errors)));
            },
            None => {},
        }
        entries.push((DataItem::text("status"), DataItem::Integer(self.status as i128)));
        assert(entry_views(entries@) =~= self.to_cbor()->0->Table_0);
        Some(DataItem::table(entries))
    }
}

} // verus!
