//! The messages with which holder and verifier set a session up, and the
//! transcript that binds everything later to them.

use crate::utils::cbor::{
    cbor_decoding, cbor_encoding, data_item_views, encode_total, entry_views, lemma_array_view,
    lemma_table_view, order_table, ordered_table, select_entries, selected_entries, Cbor,
    DataItem,
};
use crate::utils::urls::{is_url, url_accepted};
use vstd::prelude::*;

verus! {

/// Whether the verifier's engagement arrived on the device that holds the
/// credentials, or was shown on another device and read from there.
#[derive(Debug, Clone, Copy, PartialEq, Eq)]
pub enum SessionType {
    SameDevice,
    CrossDevice,
}

/// A public key of the curve P-256 in the form `COSE_Key`.
#[derive(Debug)]
pub struct CoseKey {
    pub x: Vec<u8>,
    pub y: Vec<u8>,
}

/// The data item of a key with the coordinates `x` and `y`: a table that
/// says "elliptic curve key", "P-256", and gives the coordinates.
pub open spec fn cose_key_cbor(x: Seq<u8>, y: Seq<u8>) -> Cbor {
    Cbor::Table(
        seq![
            (Cbor::Integer(1), Cbor::Integer(2)),
            (Cbor::Integer(-1i128), Cbor::Integer(1)),
            (Cbor::Integer(-2i128), Cbor::Bytes(x)),
            (Cbor::Integer(-3i128), Cbor::Bytes(y)),
        ],
    )
}

/// The keys under which the entries of a key stand.
pub open spec fn cose_key_keys() -> Seq<Cbor> {
    seq![Cbor::Integer(1), Cbor::Integer(-1i128), Cbor::Integer(-2i128), Cbor::Integer(-3i128)]
}

/// Whether `item` reads as the key with the coordinates `x` and `y`: it is
/// a table, and what stands in it under the keys of a key, in whatever
/// order and beside whatever else, are the entries of [`cose_key_cbor`].
pub open spec fn reads_as_cose_key(item: Cbor, x: Seq<u8>, y: Seq<u8>) -> bool {
    item matches Cbor::Table(entries) && selected_entries(entries, cose_key_keys()) == Some(
        cose_key_cbor(x, y)->Table_0,
    )
}

impl CoseKey {
    /// The data item of this key.
    pub open spec fn to_cbor(&self) -> Cbor {
        cose_key_cbor(self.x@, self.y@)
    }

    /// A key always has an encoding.
    pub proof fn lemma_encodable(&self)
        ensures
            self.to_cbor().encodable(),
    {
        reveal_with_fuel(Cbor::encodable, 2);
    }

    /// Builds [`Self::to_cbor`].
    pub fn to_data_item(&self) -> (item: DataItem)
        ensures
            item@ == self.to_cbor(),
    {
        let mut entries: Vec<(DataItem, DataItem)> = Vec::new();
        entries.push((DataItem::Integer(1), DataItem::Integer(2)));
        entries.push((DataItem::Integer(-1), DataItem::Integer(1)));
        entries.push((DataItem::Integer(-2), DataItem::bytes(&self.x)));
        entries.push((DataItem::Integer(-3), DataItem::bytes(&self.y)));
        assert(entry_views(entries@) =~= self.to_cbor()->Table_0);
        DataItem::table(entries)
    }

    /// Reads a key from a data item: finds its entries by their keys, and
    /// passes over what stands under other keys. A table in which one of
    /// the four keys stands twice is none.
    pub fn from_data_item(item: &DataItem) -> (key: Option<Self>)
        ensures
            match key {
                Some(key) => reads_as_cose_key(item@, key.x@, key.y@),
                None => forall|x: Seq<u8>, y: Seq<u8>| !reads_as_cose_key(item@, x, y),
            },
    {
        let entries = match item {
            DataItem::Table(entries) => entries,
            _ => { return None; },
        };
        proof {
            lemma_table_view(*entries);
        }
        let mut keys: Vec<DataItem> = Vec::new();
        keys.push(DataItem::Integer(1));
        keys.push(DataItem::Integer(-1));
        keys.push(DataItem::Integer(-2));
        keys.push(DataItem::Integer(-3));
        assert(data_item_views(keys@) =~= cose_key_keys());
        let selected = match select_entries(entries, &keys) {
            Some(selected) => selected,
            None => { return None; },
        };
        Self::from_ordered_item(&DataItem::table(selected))
    }

    /// Reads a key from a table of exactly the four entries of
    /// [`cose_key_cbor`], in that order.
    fn from_ordered_item(item: &DataItem) -> (key: Option<Self>)
        ensures
            match key {
                Some(key) => key.to_cbor() == item@,
                None => forall|x: Seq<u8>, y: Seq<u8>| cose_key_cbor(x, y) != item@,
            },
    {
        let entries = match item {
            DataItem::Table(entries) => entries,
            _ => { return None; },
        };
        proof {
            lemma_table_view(*entries);
        }
        if entries.len() != 4 {
            assert forall|x: Seq<u8>, y: Seq<u8>| cose_key_cbor(x, y) != item@ by {
                assert(cose_key_cbor(x, y)->Table_0.len() == 4);
            }
            return None;
        }
        proof {
            assert(entry_views(entries@)[0] == (entries[0].0@, entries[0].1@));
            assert(entry_views(entries@)[1] == (entries[1].0@, entries[1].1@));
            assert(entry_views(entries@)[2] == (entries[2].0@, entries[2].1@));
            assert(entry_views(entries@)[3] == (entries[3].0@, entries[3].1@));
            assert forall|x: Seq<u8>, y: Seq<u8>| cose_key_cbor(x, y) == item@ implies entry_views(
                entries@,
            )[0] == cose_key_cbor(x, y)->Table_0[0] && entry_views(entries@)[1] == cose_key_cbor(
                x,
                y,
            )->Table_0[1] && entry_views(entries@)[2] == cose_key_cbor(x, y)->Table_0[2]
                && entry_views(entries@)[3] == cose_key_cbor(x, y)->Table_0[3] by {}
        }
        if !(entries[0].0.is_integer(1) && entries[0].1.is_integer(2) && entries[1].0.is_integer(-1)
            && entries[1].1.is_integer(1) && entries[2].0.is_integer(-2) && entries[3].0.is_integer(
            -3,
        )) {
            return None;
        }
        let x = match &entries[2].1 {
            DataItem::Bytes(x) => x.clone(),
            _ => { return None; },
        };
        let y = match &entries[3].1 {
            DataItem::Bytes(y) => y.clone(),
            _ => { return None; },
        };
        let key = CoseKey { x, y };
        assert(key.to_cbor()->Table_0 =~= entry_views(entries@));
        Some(key)
    }
}

/// The version of an engagement.
#[derive(Debug, Clone, Copy, PartialEq, Eq)]
pub enum EngagementVersion {
    V1_0,
}

/// The set of algorithms that a session uses. There is one: P-256 with
/// SHA-256 and AES-256-GCM.
#[derive(Debug, Clone, Copy, PartialEq, Eq)]
pub enum CipherSuiteIdentifier {
    P256,
}

/// The key material of an engagement: the algorithms, and the sender's
/// ephemeral key as an encoded [`CoseKey`].
#[derive(Debug)]
pub struct Security {
    pub cipher_suite_identifier: CipherSuiteIdentifier,
    pub e_sender_key_bytes: Vec<u8>,
}

impl Security {
    /// The data item: the array of the number of the algorithms and the
    /// embedded key.
    pub open spec fn to_cbor(&self) -> Cbor {
        Cbor::Array(seq![Cbor::Integer(1), Cbor::embedded(self.e_sender_key_bytes@)])
    }

    /// Key material always has an encoding.
    pub proof fn lemma_encodable(&self)
        ensures
            self.to_cbor().encodable(),
    {
        reveal_with_fuel(Cbor::encodable, 3);
    }

    /// Builds [`Self::to_cbor`].
    pub fn to_data_item(&self) -> (item: DataItem)
        ensures
            item@ == self.to_cbor(),
    {
        let mut items: Vec<DataItem> = Vec::new();
        items.push(DataItem::Integer(1));
        items.push(DataItem::embedded(&self.e_sender_key_bytes));
        assert(data_item_views(items@) =~= self.to_cbor()->Array_0);
        DataItem::array(items)
    }

    /// Reads key material from a data item.
    pub fn from_data_item(item: &DataItem) -> (security: Option<Self>)
        ensures
            match security {
                Some(security) => security.to_cbor() == item@,
                None => forall|other: Security| other.to_cbor() != item@,
            },
    {
        let items = match item {
            DataItem::Array(items) => items,
            _ => { return None; },
        };
        proof {
            lemma_array_view(*items);
        }
        if items.len() != 2 {
            assert forall|other: Security| other.to_cbor() != item@ by {
                assert(other.to_cbor()->Array_0.len() == 2);
            }
            return None;
        }
        proof {
            reveal_with_fuel(crate::utils::cbor::value_view, 3);
            assert(data_item_views(items@)[0] == items[0]@);
            assert(data_item_views(items@)[1] == items[1]@);
            assert forall|other: Security| other.to_cbor() == item@ implies items[0]@
                == other.to_cbor()->Array_0[0] && items[1]@ == other.to_cbor()->Array_0[1] by {}
        }
        if !items[0].is_integer(1) {
            return None;
        }
        let e_sender_key_bytes = match &items[1] {
            DataItem::Tag(tag, inner) => {
                if *tag != 24 {
                    return None;
                }
                match &**inner {
                    DataItem::Bytes(bytes) => bytes.clone(),
                    _ => { return None; },
                }
            },
            _ => { return None; },
        };
        let security = Security {
            cipher_suite_identifier: CipherSuiteIdentifier::P256,
            e_sender_key_bytes,
        };
        assert(security.to_cbor()->Array_0 =~= data_item_views(items@));
        Some(security)
    }
}

/// The kind of a way to reach a verifier. There is one: a web address.
#[derive(Debug, Clone, Copy, PartialEq, Eq)]
pub enum ConnectionMethodType {
    RestApi,
}

/// The version of a way to reach a verifier.
#[derive(Debug, Clone, Copy, PartialEq, Eq)]
pub enum ConnectionMethodVersion {
    RestApi,
}

/// Where to reach a verifier on the web.
#[derive(Debug)]
pub struct RestApiOptions {
    pub uri: String,
}

/// A way to reach a verifier.
#[derive(Debug)]
pub struct ConnectionMethod {
    pub typ: ConnectionMethodType,
    pub version: ConnectionMethodVersion,
    pub connection_options: RestApiOptions,
}

impl ConnectionMethod {
    /// A way to reach a verifier at the address `uri`.
    pub fn rest_api(uri: String) -> (method: Self)
        ensures
            method.connection_options.uri == uri,
    {
        ConnectionMethod {
            typ: ConnectionMethodType::RestApi,
            version: ConnectionMethodVersion::RestApi,
            connection_options: RestApiOptions { uri },
        }
    }

    /// The data item: the array of the numbers of kind and version, and
    /// the table that holds the address.
    pub open spec fn to_cbor(&self) -> Cbor {
        Cbor::Array(
            seq![
                Cbor::Integer(4),
                Cbor::Integer(1),
                Cbor::Table(seq![(Cbor::Integer(0), Cbor::Text(self.connection_options.uri@))]),
            ],
        )
    }

    /// A way to reach a verifier always has an encoding.
    pub proof fn lemma_encodable(&self)
        ensures
            self.to_cbor().encodable(),
    {
        reveal_with_fuel(Cbor::encodable, 3);
    }

    /// Builds [`Self::to_cbor`].
    pub fn to_data_item(&self) -> (item: DataItem)
        ensures
            item@ == self.to_cbor(),
    {
        let mut options: Vec<(DataItem, DataItem)> = Vec::new();
        options.push((DataItem::Integer(0), DataItem::text(self.connection_options.uri.as_str())));
        assert(entry_views(options@) =~= seq![
            (Cbor::Integer(0), Cbor::Text(self.connection_options.uri@)),
        ]);
        let mut items: Vec<DataItem> = Vec::new();
        items.push(DataItem::Integer(4));
        items.push(DataItem::Integer(1));
        items.push(DataItem::table(options));
        assert(data_item_views(items@) =~= self.to_cbor()->Array_0);
        DataItem::array(items)
    }

    /// Reads a way to reach a verifier from a data item.
    pub fn from_data_item(item: &DataItem) -> (method: Option<Self>)
        ensures
            match method {
                Some(method) => method.to_cbor() == item@,
                None => forall|other: ConnectionMethod| other.to_cbor() != item@,
            },
    {
        let items = match item {
            DataItem::Array(items) => items,
            _ => { return None; },
        };
        proof {
            lemma_array_view(*items);
        }
        if items.len() != 3 {
            assert forall|other: ConnectionMethod| other.to_cbor() != item@ by {
                assert(other.to_cbor()->Array_0.len() == 3);
            }
            return None;
        }
        proof {
            assert(data_item_views(items@)[0] == items[0]@);
            assert(data_item_views(items@)[1] == items[1]@);
            assert(data_item_views(items@)[2] == items[2]@);
            assert forall|other: ConnectionMethod| other.to_cbor() == item@ implies items[0]@
                == other.to_cbor()->Array_0[0] && items[1]@ == other.to_cbor()->Array_0[1]
                && items[2]@ == other.to_cbor()->Array_0[2] by {}
        }
        if !items[0].is_integer(4) || !items[1].is_integer(1) {
            return None;
        }
        let options = match &items[2] {
            DataItem::Table(options) => options,
            _ => { return None; },
        };
        proof {
            lemma_table_view(*options);
        }
        if options.len() != 1 {
            assert forall|other: ConnectionMethod| other.to_cbor() != item@ by {
                assert(other.to_cbor()->Array_0[2]->Table_0.len() == 1);
            }
            return None;
        }
        proof {
            assert(entry_views(options@)[0] == (options[0].0@, options[0].1@));
            assert forall|other: ConnectionMethod| other.to_cbor() == item@ implies entry_views(
                options@,
            )[0] == other.to_cbor()->Array_0[2]->Table_0[0] by {}
        }
        if !options[0].0.is_integer(0) {
            return None;
        }
        let uri = match &options[0].1 {
            DataItem::Text(uri) => uri.clone(),
            _ => { return None; },
        };
        let method = ConnectionMethod::rest_api(uri);
        assert(method.to_cbor()->Array_0[2]->Table_0 =~= entry_views(options@));
        assert(method.to_cbor()->Array_0 =~= data_item_views(items@));
        Some(method)
    }
}

/// Whether an engagement was received or is handed on.
#[derive(Debug, Clone, Copy, PartialEq, Eq)]
pub enum OriginInfoDirection {
    Delivered,
    Received,
}

/// By what means an engagement travelled.
#[derive(Debug)]
pub enum OriginInfoType {
    /// Through a website, of which this is the address.
    Website(String),
    /// Through a QR code that was shown on this device.
    OnDeviceQRCode,
    /// Inside a message.
    MessageData,
}

/// Where an engagement came from or goes to. A verifier can hold this
/// against what it knows, and so notice an engagement that was passed on.
#[derive(Debug)]
pub struct OriginInfo {
    pub cat: OriginInfoDirection,
    pub typ: OriginInfoType,
}

impl OriginInfo {
    /// The number of the direction.
    pub open spec fn cat_number(&self) -> i128 {
        match self.cat {
            OriginInfoDirection::Delivered => 0,
            OriginInfoDirection::Received => 1,
        }
    }

    /// The number of the means.
    pub open spec fn typ_number(&self) -> i128 {
        match self.typ {
            OriginInfoType::Website(_) => 1,
            OriginInfoType::OnDeviceQRCode => 2,
            OriginInfoType::MessageData => 4,
        }
    }

    /// The data item: a table of the direction, the means and, for a
    /// website, its address.
    pub open spec fn to_cbor(&self) -> Cbor {
        Cbor::Table(
            seq![
                (Cbor::Text("cat"@), Cbor::Integer(self.cat_number())),
                (Cbor::Text("type"@), Cbor::Integer(self.typ_number())),
            ] + match self.typ {
                OriginInfoType::Website(url) => seq![
                    (
                        Cbor::Text("details"@),
                        Cbor::Table(seq![(Cbor::Text("ReferrerUrl"@), Cbor::Text(url@))]),
                    ),
                ],
                _ => Seq::empty(),
            },
        )
    }

    /// An origin always has an encoding.
    pub proof fn lemma_encodable(&self)
        ensures
            self.to_cbor().encodable(),
    {
        reveal_with_fuel(Cbor::encodable, 3);
    }

    /// Builds [`Self::to_cbor`].
    pub fn to_data_item(&self) -> (item: DataItem)
        ensures
            item@ == self.to_cbor(),
    {
        let cat: i128 = match self.cat {
            OriginInfoDirection::Delivered => 0,
            OriginInfoDirection::Received => 1,
        };
        let typ: i128 = match self.typ {
            OriginInfoType::Website(_) => 1,
            OriginInfoType::OnDeviceQRCode => 2,
            OriginInfoType::MessageData => 4,
        };
        let mut entries: Vec<(DataItem, DataItem)> = Vec::new();
        entries.push((DataItem::text("cat"), DataItem::Integer(cat)));
        entries.push((DataItem::text("type"), DataItem::Integer(typ)));
        match &self.typ {
            OriginInfoType::Website(url) => {
                let mut details: Vec<(DataItem, DataItem)> = Vec::new();
                details.push((DataItem::text("ReferrerUrl"), DataItem::text(url.as_str())));
                assert(entry_views(details@) =~= seq![
                    (Cbor::Text("ReferrerUrl"@), Cbor::Text(url@)),
                ]);
                entries.push((DataItem::text("details"), DataItem::table(details)));
            },
            _ => {},
        }
        assert(entry_views(entries@) =~= self.to_cbor()->Table_0);
        DataItem::table(entries)
    }

    /// Reads where an engagement came from or goes to from a data item.
    pub fn from_data_item(item: &DataItem) -> (info: Option<Self>)
        ensures
            match info {
                Some(info) => info.to_cbor() == item@,
                None => forall|other: OriginInfo| other.to_cbor() != item@,
            },
    {
        let entries = match item {
            DataItem::Table(entries) => entries,
            _ => { return None; },
        };
        proof {
            lemma_table_view(*entries);
        }
        if entries.len() != 2 && entries.len() != 3 {
            assert forall|other: OriginInfo| other.to_cbor() != item@ by {
                assert(other.to_cbor()->Table_0.len() == 2 || other.to_cbor()->Table_0.len() == 3);
            }
            return None;
        }
        proof {
            assert(entry_views(entries@)[0] == (entries[0].0@, entries[0].1@));
            assert(entry_views(entries@)[1] == (entries[1].0@, entries[1].1@));
            assert forall|other: OriginInfo| other.to_cbor() == item@ implies entry_views(
                entries@,
            )[0] == other.to_cbor()->Table_0[0] && entry_views(entries@)[1]
                == other.to_cbor()->Table_0[1] && entries.len() == other.to_cbor()->Table_0.len() by {}
        }
        if !entries[0].0.is_text("cat") || !entries[1].0.is_text("type") {
            return None;
        }
        let cat = if entries[0].1.is_integer(0) {
            OriginInfoDirection::Delivered
        } else if entries[0].1.is_integer(1) {
            OriginInfoDirection::Received
        } else {
            return None;
        };
        let typ = if entries[1].1.is_integer(1) {
            if entries.len() != 3 {
                return None;
            }
            proof {
                assert(entry_views(entries@)[2] == (entries[2].0@, entries[2].1@));
                assert forall|other: OriginInfo| other.to_cbor() == item@ implies entry_views(
                    entries@,
                )[2] == other.to_cbor()->Table_0[2] by {}
            }
            if !entries[2].0.is_text("details") {
                return None;
            }
            let details = match &entries[2].1 {
                DataItem::Table(details) => details,
                _ => { return None; },
            };
            proof {
                lemma_table_view(*details);
            }
            if details.len() != 1 {
                assert forall|other: OriginInfo| other.to_cbor() != item@ by {
                    if other.to_cbor() == item@ {
                        assert(other.to_cbor()->Table_0[2].1->Table_0.len() == 1);
                    }
                }
                return None;
            }
            proof {
                assert(entry_views(details@)[0] == (details[0].0@, details[0].1@));
                assert forall|other: OriginInfo| other.to_cbor() == item@ implies entry_views(
                    details@,
                )[0] == other.to_cbor()->Table_0[2].1->Table_0[0] by {}
            }
            if !details[0].0.is_text("ReferrerUrl") {
                return None;
            }
            match &details[0].1 {
                DataItem::Text(url) => {
                    let typ = OriginInfoType::Website(url.clone());
                    assert(seq![(Cbor::Text("ReferrerUrl"@), Cbor::Text(url@))] =~= entry_views(
                        details@,
                    ));
                    typ
                },
                _ => { return None; },
            }
        } else if entries[1].1.is_integer(2) {
            if entries.len() != 2 {
                return None;
            }
            OriginInfoType::OnDeviceQRCode
        } else if entries[1].1.is_integer(4) {
            if entries.len() != 2 {
                return None;
            }
            OriginInfoType::MessageData
        } else {
            return None;
        };
        let info = OriginInfo { cat, typ };
        assert(info.to_cbor()->Table_0 =~= entry_views(entries@));
        Some(info)
    }
}

/// The array of the data items of ways to reach a verifier.
pub open spec fn connection_methods_cbor(methods: Seq<ConnectionMethod>) -> Cbor {
    Cbor::Array(Seq::new(methods.len(), |i: int| methods[i].to_cbor()))
}

/// The array of the data items of origins.
pub open spec fn origin_infos_cbor(infos: Seq<OriginInfo>) -> Cbor {
    Cbor::Array(Seq::new(infos.len(), |i: int| infos[i].to_cbor()))
}

/// Builds [`connection_methods_cbor`].
pub fn connection_methods_to_data_item(methods: &Vec<ConnectionMethod>) -> (item: DataItem)
    ensures
        item@ == connection_methods_cbor(methods@),
{
    let mut items: Vec<DataItem> = Vec::new();
    let mut i: usize = 0;
    while i < methods.len()
        invariant
            i <= methods.len(),
            items.len() == i,
            forall|k: int| 0 <= k < i ==> (#[trigger] items[k])@ == methods[k].to_cbor(),
        decreases methods.len() - i,
    {
        items.push(methods[i].to_data_item());
        i += 1;
    }
    assert(data_item_views(items@) =~= connection_methods_cbor(methods@)->Array_0);
    DataItem::array(items)
}

/// Builds [`origin_infos_cbor`].
pub fn origin_infos_to_data_item(infos: &Vec<OriginInfo>) -> (item: DataItem)
    ensures
        item@ == origin_infos_cbor(infos@),
{
    let mut items: Vec<DataItem> = Vec::new();
    let mut i: usize = 0;
    while i < infos.len()
        invariant
            i <= infos.len(),
            items.len() == i,
            forall|k: int| 0 <= k < i ==> (#[trigger] items[k])@ == infos[k].to_cbor(),
        decreases infos.len() - i,
    {
        items.push(infos[i].to_data_item());
        i += 1;
    }
    assert(data_item_views(items@) =~= origin_infos_cbor(infos@)->Array_0);
    DataItem::array(items)
}

/// Reads ways to reach a verifier from a data item.
pub fn connection_methods_from_data_item(item: &DataItem) -> (methods: Option<
    Vec<ConnectionMethod>,
>)
    ensures
        match methods {
            Some(methods) => connection_methods_cbor(methods@) == item@,
            None => forall|other: Seq<ConnectionMethod>| connection_methods_cbor(other) != item@,
        },
{
    let items = match item {
        DataItem::Array(items) => items,
        _ => { return None; },
    };
    proof {
        lemma_array_view(*items);
    }
    let mut methods: Vec<ConnectionMethod> = Vec::new();
    let mut i: usize = 0;
    while i < items.len()
        invariant
            i <= items.len(),
            methods.len() == i,
            item@ == Cbor::Array(data_item_views(items@)),
            forall|k: int| 0 <= k < i ==> (#[trigger] methods[k]).to_cbor() == items[k]@,
        decreases items.len() - i,
    {
        match ConnectionMethod::from_data_item(&items[i]) {
            Some(method) => {
                methods.push(method);
            },
            None => {
                assert forall|other: Seq<ConnectionMethod>| connection_methods_cbor(other)
                    != item@ by {
                    if connection_methods_cbor(other) == item@ {
                        assert(connection_methods_cbor(other)->Array_0.len() == other.len());
                        assert(data_item_views(items@).len() == items.len());
                        assert(connection_methods_cbor(other)->Array_0[i as int] == other[i as int].to_cbor());
                        assert(data_item_views(items@)[i as int] == items[i as int]@);
                    }
                }
                return None;
            },
        }
        i += 1;
    }
    assert(connection_methods_cbor(methods@)->Array_0 =~= data_item_views(items@));
    Some(methods)
}

/// Reads origins from a data item.
pub fn origin_infos_from_data_item(item: &DataItem) -> (infos: Option<Vec<OriginInfo>>)
    ensures
        match infos {
            Some(infos) => origin_infos_cbor(infos@) == item@,
            None => forall|other: Seq<OriginInfo>| origin_infos_cbor(other) != item@,
        },
{
    let items = match item {
        DataItem::Array(items) => items,
        _ => { return None; },
    };
    proof {
        lemma_array_view(*items);
    }
    let mut infos: Vec<OriginInfo> = Vec::new();
    let mut i: usize = 0;
    while i < items.len()
        invariant
            i <= items.len(),
            infos.len() == i,
            item@ == Cbor::Array(data_item_views(items@)),
            forall|k: int| 0 <= k < i ==> (#[trigger] infos[k]).to_cbor() == items[k]@,
        decreases items.len() - i,
    {
        match OriginInfo::from_data_item(&items[i]) {
            Some(info) => {
                infos.push(info);
            },
            None => {
                assert forall|other: Seq<OriginInfo>| origin_infos_cbor(other) != item@ by {
                    if origin_infos_cbor(other) == item@ {
                        assert(origin_infos_cbor(other)->Array_0.len() == other.len());
                        assert(data_item_views(items@).len() == items.len());
                        assert(origin_infos_cbor(other)->Array_0[i as int] == other[i as int].to_cbor());
                        assert(data_item_views(items@)[i as int] == items[i as int]@);
                    }
                }
                return None;
            },
        }
        i += 1;
    }
    assert(origin_infos_cbor(infos@)->Array_0 =~= data_item_views(items@));
    Some(infos)
}

/// Whether the address of an origin, where it has one, is an absolute URL.
pub open spec fn origin_accepted(info: OriginInfo) -> bool {
    match info.typ {
        OriginInfoType::Website(url) => url_accepted(url@),
        _ => true,
    }
}

/// What a party sends to set a session up: its key material, how it can be
/// reached, and where the message has been.
#[derive(Debug)]
pub struct Engagement {
    pub version: EngagementVersion,
    pub security: Option<Security>,
    pub connection_methods: Option<Vec<ConnectionMethod>>,
    pub origin_infos: Vec<OriginInfo>,
}

/// The keys under which the entries of an origin stand.
pub open spec fn origin_info_keys() -> Seq<Cbor> {
    seq![Cbor::Text("cat"@), Cbor::Text("type"@), Cbor::Text("details"@)]
}

/// The key under which the address of a website stands among the details
/// of an origin.
pub open spec fn details_keys() -> Seq<Cbor> {
    seq![Cbor::Text("ReferrerUrl"@)]
}

/// The key under which the address stands among the options of a way to
/// reach a verifier.
pub open spec fn options_keys() -> Seq<Cbor> {
    seq![Cbor::Integer(0)]
}

/// The data item of an origin with its entries, and those of its
/// details, found by their keys and put in order. Nothing where a key
/// stands twice, or where the item or the details are no table.
pub open spec fn ordered_origin_info(item: Cbor) -> Option<Cbor> {
    match ordered_table(item, origin_info_keys()) {
        Some(Cbor::Table(entries)) => if entries.len() == 3 {
            match ordered_table(entries[2].1, details_keys()) {
                Some(details) => Some(
                    Cbor::Table(seq![entries[0], entries[1], (entries[2].0, details)]),
                ),
                None => None,
            }
        } else {
            Some(Cbor::Table(entries))
        },
        _ => None,
    }
}

/// The data item of a way to reach a verifier with the entries of its
/// options found by their keys. Nothing where the item is no array, or
/// where the third of three items is no table or has a key twice.
pub open spec fn ordered_method(item: Cbor) -> Option<Cbor> {
    match item {
        Cbor::Array(parts) => if parts.len() == 3 {
            match ordered_table(parts[2], options_keys()) {
                Some(options) => Some(Cbor::Array(seq![parts[0], parts[1], options])),
                None => None,
            }
        } else {
            Some(item)
        },
        _ => None,
    }
}

/// The array of origins, each put in order.
pub open spec fn ordered_origin_infos(item: Cbor) -> Option<Cbor> {
    match item {
        Cbor::Array(items) => if forall|i: int|
            0 <= i < items.len() ==> ordered_origin_info(#[trigger] items[i]) is Some {
            Some(Cbor::Array(Seq::new(items.len(), |i: int| ordered_origin_info(items[i])->0)))
        } else {
            None
        },
        _ => None,
    }
}

/// The array of ways to reach a verifier, each put in order.
pub open spec fn ordered_methods(item: Cbor) -> Option<Cbor> {
    match item {
        Cbor::Array(items) => if forall|i: int|
            0 <= i < items.len() ==> ordered_method(#[trigger] items[i]) is Some {
            Some(Cbor::Array(Seq::new(items.len(), |i: int| ordered_method(items[i])->0)))
        } else {
            None
        },
        _ => None,
    }
}

/// An entry of an engagement with what stands under it put in order: the
/// ways to reach the sender under 2 and the origins under 5.
pub open spec fn ordered_part(entry: (Cbor, Cbor)) -> Option<(Cbor, Cbor)> {
    if entry.0 == Cbor::Integer(2) {
        match ordered_methods(entry.1) {
            Some(methods) => Some((entry.0, methods)),
            None => None,
        }
    } else if entry.0 == Cbor::Integer(5) {
        match ordered_origin_infos(entry.1) {
            Some(infos) => Some((entry.0, infos)),
            None => None,
        }
    } else {
        Some(entry)
    }
}

/// The data item of an engagement with its entries, and those of every
/// table inside, found by their keys and put in order: whatever the order
/// in which they stand, and whatever else stands beside them. Nothing
/// where a key stands twice or something is no table or no array that
/// should be one.
pub open spec fn ordered_engagement(item: Cbor) -> Option<Cbor> {
    match ordered_table(item, Engagement::keys()) {
        Some(Cbor::Table(entries)) => if forall|i: int|
            0 <= i < entries.len() ==> ordered_part(#[trigger] entries[i]) is Some {
            Some(Cbor::Table(Seq::new(entries.len(), |i: int| ordered_part(entries[i])->0)))
        } else {
            None
        },
        _ => None,
    }
}

/// Computes [`ordered_origin_info`].
pub fn order_origin_info(item: &DataItem) -> (ordered: Option<DataItem>)
    ensures
        match ordered {
            Some(ordered) => ordered_origin_info(item@) == Some(ordered@),
            None => ordered_origin_info(item@) is None,
        },
{
    let mut keys: Vec<DataItem> = Vec::new();
    keys.push(DataItem::text("cat"));
    keys.push(DataItem::text("type"));
    keys.push(DataItem::text("details"));
    assert(data_item_views(keys@) =~= origin_info_keys());
    let table = match order_table(item, &keys) {
        Some(table) => table,
        None => { return None; },
    };
    let entries = match &table {
        DataItem::Table(entries) => entries,
        _ => { return None; },
    };
    proof {
        lemma_table_view(*entries);
    }
    if entries.len() != 3 {
        return Some(table);
    }
    let ghost views = entry_views(entries@);
    assert(views[0] == (entries[0].0@, entries[0].1@));
    assert(views[1] == (entries[1].0@, entries[1].1@));
    assert(views[2] == (entries[2].0@, entries[2].1@));
    let mut details_keys: Vec<DataItem> = Vec::new();
    details_keys.push(DataItem::text("ReferrerUrl"));
    assert(data_item_views(details_keys@) =~= self::details_keys());
    let details = match order_table(&entries[2].1, &details_keys) {
        Some(details) => details,
        None => { return None; },
    };
    let mut ordered: Vec<(DataItem, DataItem)> = Vec::new();
    ordered.push((entries[0].0.duplicate(), entries[0].1.duplicate()));
    ordered.push((entries[1].0.duplicate(), entries[1].1.duplicate()));
    ordered.push((entries[2].0.duplicate(), details));
    assert(entry_views(ordered@) =~= seq![views[0], views[1], (views[2].0, details@)]);
    Some(DataItem::table(ordered))
}

/// Computes [`ordered_method`].
pub fn order_method(item: &DataItem) -> (ordered: Option<DataItem>)
    ensures
        match ordered {
            Some(ordered) => ordered_method(item@) == Some(ordered@),
            None => ordered_method(item@) is None,
        },
{
    let parts = match item {
        DataItem::Array(parts) => parts,
        _ => { return None; },
    };
    proof {
        lemma_array_view(*parts);
    }
    if parts.len() != 3 {
        return Some(item.duplicate());
    }
    let ghost views = data_item_views(parts@);
    assert(views[0] == parts[0]@ && views[1] == parts[1]@ && views[2] == parts[2]@);
    let mut keys: Vec<DataItem> = Vec::new();
    keys.push(DataItem::Integer(0));
    assert(data_item_views(keys@) =~= options_keys());
    let options = match order_table(&parts[2], &keys) {
        Some(options) => options,
        None => { return None; },
    };
    let mut ordered: Vec<DataItem> = Vec::new();
    ordered.push(parts[0].duplicate());
    ordered.push(parts[1].duplicate());
    ordered.push(options);
    assert(data_item_views(ordered@) =~= seq![views[0], views[1], options@]);
    Some(DataItem::array(ordered))
}

/// Computes [`ordered_origin_infos`].
pub fn order_origin_infos(item: &DataItem) -> (ordered: Option<DataItem>)
    ensures
        match ordered {
            Some(ordered) => ordered_origin_infos(item@) == Some(ordered@),
            None => ordered_origin_infos(item@) is None,
        },
{
    let items = match item {
        DataItem::Array(items) => items,
        _ => { return None; },
    };
    proof {
        lemma_array_view(*items);
    }
    let ghost views = data_item_views(items@);
    let mut ordered: Vec<DataItem> = Vec::new();
    let mut i: usize = 0;
    while i < items.len()
        invariant
            i <= items.len(),
            ordered.len() == i,
            views == data_item_views(items@),
            item@ == Cbor::Array(views),
            forall|k: int|
                0 <= k < i ==> ordered_origin_info(#[trigger] views[k]) == Some(ordered[k]@),
        decreases items.len() - i,
    {
        assert(views[i as int] == items[i as int]@);
        match order_origin_info(&items[i]) {
            Some(info) => {
                ordered.push(info);
            },
            None => {
                assert(ordered_origin_info(views[i as int]) is None);
                return None;
            },
        }
        i += 1;
    }
    assert(data_item_views(ordered@) =~= Seq::new(
        views.len(),
        |i: int| ordered_origin_info(views[i])->0,
    ));
    Some(DataItem::array(ordered))
}

/// Computes [`ordered_methods`].
pub fn order_methods(item: &DataItem) -> (ordered: Option<DataItem>)
    ensures
        match ordered {
            Some(ordered) => ordered_methods(item@) == Some(ordered@),
            None => ordered_methods(item@) is None,
        },
{
    let items = match item {
        DataItem::Array(items) => items,
        _ => { return None; },
    };
    proof {
        lemma_array_view(*items);
    }
    let ghost views = data_item_views(items@);
    let mut ordered: Vec<DataItem> = Vec::new();
    let mut i: usize = 0;
    while i < items.len()
        invariant
            i <= items.len(),
            ordered.len() == i,
            views == data_item_views(items@),
            item@ == Cbor::Array(views),
            forall|k: int| 0 <= k < i ==> ordered_method(#[trigger] views[k]) == Some(ordered[k]@),
        decreases items.len() - i,
    {
        assert(views[i as int] == items[i as int]@);
        match order_method(&items[i]) {
            Some(method) => {
                ordered.push(method);
            },
            None => {
                assert(ordered_method(views[i as int]) is None);
                return None;
            },
        }
        i += 1;
    }
    assert(data_item_views(ordered@) =~= Seq::new(
        views.len(),
        |i: int| ordered_method(views[i])->0,
    ));
    Some(DataItem::array(ordered))
}

/// Computes [`ordered_engagement`].
pub fn order_engagement(item: &DataItem) -> (ordered: Option<DataItem>)
    ensures
        match ordered {
            Some(ordered) => ordered_engagement(item@) == Some(ordered@),
            None => ordered_engagement(item@) is None,
        },
{
    let mut keys: Vec<DataItem> = Vec::new();
    keys.push(DataItem::Integer(0));
    keys.push(DataItem::Integer(1));
    keys.push(DataItem::Integer(2));
    keys.push(DataItem::Integer(5));
    assert(data_item_views(keys@) =~= Engagement::keys());
    let table = match order_table(item, &keys) {
        Some(table) => table,
        None => { return None; },
    };
    let entries = match &table {
        DataItem::Table(entries) => entries,
        _ => { return None; },
    };
    proof {
        lemma_table_view(*entries);
    }
    let ghost views = entry_views(entries@);
    let mut ordered: Vec<(DataItem, DataItem)> = Vec::new();
    let mut i: usize = 0;
    while i < entries.len()
        invariant
            i <= entries.len(),
            ordered.len() == i,
            views == entry_views(entries@),
            ordered_table(item@, Engagement::keys()) == Some(Cbor::Table(views)),
            forall|k: int|
                0 <= k < i ==> ordered_part(#[trigger] views[k]) == Some(
                    (ordered[k].0@, ordered[k].1@),
                ),
        decreases entries.len() - i,
    {
        assert(views[i as int] == (entries[i as int].0@, entries[i as int].1@));
        let key = entries[i].0.duplicate();
        let value = if entries[i].0.is_integer(2) {
            match order_methods(&entries[i].1) {
                Some(methods) => methods,
                None => {
                    assert(ordered_part(views[i as int]) is None);
                    return None;
                },
            }
        } else if entries[i].0.is_integer(5) {
            match order_origin_infos(&entries[i].1) {
                Some(infos) => infos,
                None => {
                    assert(ordered_part(views[i as int]) is None);
                    return None;
                },
            }
        } else {
            entries[i].1.duplicate()
        };
        ordered.push((key, value));
        i += 1;
    }
    assert(entry_views(ordered@) =~= Seq::new(views.len(), |i: int| ordered_part(views[i])->0));
    Some(DataItem::table(ordered))
}

/// The entries of an engagement's table: the version under 0, the key
/// material under 1 and the ways to reach the sender under 2 where there
/// are any, and the origins under 5.
pub open spec fn engagement_entries(
    security: Option<Cbor>,
    connection_methods: Option<Cbor>,
    origin_infos: Cbor,
) -> Seq<(Cbor, Cbor)> {
    seq![(Cbor::Integer(0), Cbor::Text("1.0"@))] + match security {
        Some(security) => seq![(Cbor::Integer(1), security)],
        None => Seq::empty(),
    } + match connection_methods {
        Some(connection_methods) => seq![(Cbor::Integer(2), connection_methods)],
        None => Seq::empty(),
    } + seq![(Cbor::Integer(5), origin_infos)]
}

impl Engagement {
    /// The data item of this engagement.
    pub open spec fn to_cbor(&self) -> Cbor {
        Cbor::Table(
            engagement_entries(
                match self.security {
                    Some(security) => Some(security.to_cbor()),
                    None => None,
                },
                match self.connection_methods {
                    Some(methods) => Some(connection_methods_cbor(methods@)),
                    None => None,
                },
                origin_infos_cbor(self.origin_infos@),
            ),
        )
    }

    /// Whether every address in the engagement is an absolute URL.
    pub open spec fn well_formed(&self) -> bool {
        &&& match self.connection_methods {
            Some(methods) => forall|i: int|
                0 <= i < methods.len() ==> url_accepted(
                    (#[trigger] methods[i]).connection_options.uri@,
                ),
            None => true,
        }
        &&& forall|i: int|
            0 <= i < self.origin_infos.len() ==> origin_accepted(#[trigger] self.origin_infos[i])
    }

    /// Decides [`Self::well_formed`].
    pub fn is_well_formed(&self) -> (well_formed: bool)
        ensures
            well_formed == self.well_formed(),
    {
        match &self.connection_methods {
            Some(methods) => {
                let mut i: usize = 0;
                while i < methods.len()
                    invariant
                        i <= methods.len(),
                        self.connection_methods == Some(*methods),
                        forall|k: int|
                            0 <= k < i ==> url_accepted(
                                (#[trigger] methods[k]).connection_options.uri@,
                            ),
                    decreases methods.len() - i,
                {
                    if !is_url(methods[i].connection_options.uri.as_str()) {
                        return false;
                    }
                    i += 1;
                }
            },
            None => {},
        }
        let mut i: usize = 0;
        while i < self.origin_infos.len()
            invariant
                i <= self.origin_infos.len(),
                match self.connection_methods {
                    Some(methods) => forall|k: int|
                        0 <= k < methods.len() ==> url_accepted(
                            (#[trigger] methods[k]).connection_options.uri@,
                        ),
                    None => true,
                },
                forall|k: int| 0 <= k < i ==> origin_accepted(#[trigger] self.origin_infos[k]),
            decreases self.origin_infos.len() - i,
        {
            match &self.origin_infos[i].typ {
                OriginInfoType::Website(url) => {
                    if !is_url(url.as_str()) {
                        return false;
                    }
                },
                _ => {},
            }
            i += 1;
        }
        true
    }

    /// Builds [`Self::to_cbor`].
    pub fn to_data_item(&self) -> (item: DataItem)
        ensures
            item@ == self.to_cbor(),
    {
        let mut entries: Vec<(DataItem, DataItem)> = Vec::new();
        entries.push((DataItem::Integer(0), DataItem::text("1.0")));
        match &self.security {
            Some(security) => {
                entries.push((DataItem::Integer(1), security.to_data_item()));
            },
            None => {},
        }
        match &self.connection_methods {
            Some(methods) => {
                entries.push((DataItem::Integer(2), connection_methods_to_data_item(methods)));
            },
            None => {},
        }
        entries.push((DataItem::Integer(5), origin_infos_to_data_item(&self.origin_infos)));
        assert(entry_views(entries@) =~= self.to_cbor()->Table_0);
        DataItem::table(entries)
    }

    /// An engagement always has an encoding.
    pub proof fn lemma_encodable(&self)
        ensures
            self.to_cbor().encodable(),
    {
        let entries = self.to_cbor()->Table_0;
        assert forall|i: int| 0 <= i < entries.len() implies (#[trigger] entries[i]).0.encodable()
            && entries[i].1.encodable() by {
            reveal_with_fuel(Cbor::encodable, 2);
            match self.security {
                Some(security) => {
                    security.lemma_encodable();
                },
                None => {},
            }
            match self.connection_methods {
                Some(methods) => {
                    let items = connection_methods_cbor(methods@)->Array_0;
                    assert forall|k: int| 0 <= k < items.len() implies (
                    #[trigger] items[k]).encodable() by {
                        methods[k].lemma_encodable();
                    }
                },
                None => {},
            }
            let items = origin_infos_cbor(self.origin_infos@)->Array_0;
            assert forall|k: int| 0 <= k < items.len() implies (#[trigger] items[k]).encodable() by {
                self.origin_infos[k].lemma_encodable();
            }
        }
    }

    /// The data items of the three parts of this engagement that vary.
    pub open spec fn parts(&self) -> (Option<Cbor>, Option<Cbor>, Cbor) {
        (
            match self.security {
                Some(security) => Some(security.to_cbor()),
                None => None,
            },
            match self.connection_methods {
                Some(methods) => Some(connection_methods_cbor(methods@)),
                None => None,
            },
            origin_infos_cbor(self.origin_infos@),
        )
    }

    /// Reads an engagement from the data items of its parts.
    fn from_parts(
        security: Option<&DataItem>,
        connection_methods: Option<&DataItem>,
        origin_infos: &DataItem,
    ) -> (engagement: Option<Self>)
        ensures
            match engagement {
                Some(engagement) => engagement.parts() == (
                    match security {
                        Some(item) => Some(item@),
                        None => None,
                    },
                    match connection_methods {
                        Some(item) => Some(item@),
                        None => None,
                    },
                    origin_infos@,
                ),
                None => forall|other: Engagement|
                    #[trigger] other.parts() != (
                        match security {
                            Some(item) => Some(item@),
                            None => None,
                        },
                        match connection_methods {
                            Some(item) => Some(item@),
                            None => None,
                        },
                        origin_infos@,
                    ),
            },
    {
        let security = match security {
            Some(item) => match Security::from_data_item(item) {
                Some(security) => Some(security),
                None => { return None; },
            },
            None => None,
        };
        let connection_methods = match connection_methods {
            Some(item) => match connection_methods_from_data_item(item) {
                Some(methods) => Some(methods),
                None => { return None; },
            },
            None => None,
        };
        let origin_infos = match origin_infos_from_data_item(origin_infos) {
            Some(origin_infos) => origin_infos,
            None => { return None; },
        };
        Some(
            Engagement { version: EngagementVersion::V1_0, security, connection_methods, origin_infos },
        )
    }

    /// The keys under which the entries of an engagement stand.
    pub open spec fn keys() -> Seq<Cbor> {
        seq![Cbor::Integer(0), Cbor::Integer(1), Cbor::Integer(2), Cbor::Integer(5)]
    }

    /// Whether `item` reads as this engagement: with its entries, and
    /// those of every table inside, found by their keys and put in order,
    /// it is [`Self::to_cbor`].
    pub open spec fn read_from(&self, item: Cbor) -> bool {
        ordered_engagement(item) == Some(self.to_cbor())
    }

    /// Whether `bytes` decode to a data item that reads as this
    /// engagement.
    pub open spec fn read_from_bytes(&self, bytes: Seq<u8>) -> bool {
        cbor_decoding(bytes) matches Some(item) && self.read_from(item)
    }

    /// Reads an engagement from a data item: finds the entries of every
    /// table by their keys, and passes over what stands under other keys.
    /// A table in which a key stands twice is none.
    pub fn from_data_item(item: &DataItem) -> (engagement: Option<Self>)
        ensures
            match engagement {
                Some(engagement) => engagement.read_from(item@),
                None => forall|other: Engagement| !other.read_from(item@),
            },
    {
        match order_engagement(item) {
            Some(ordered) => Self::from_ordered_item(&ordered),
            None => None,
        }
    }

    /// Reads an engagement from a table of exactly the entries of
    /// [`engagement_entries`], in that order.
    fn from_ordered_item(item: &DataItem) -> (engagement: Option<Self>)
        ensures
            match engagement {
                Some(engagement) => engagement.to_cbor() == item@,
                None => forall|other: Engagement| other.to_cbor() != item@,
            },
    {
        let entries = match item {
            DataItem::Table(entries) => entries,
            _ => { return None; },
        };
        proof {
            lemma_table_view(*entries);
        }
        let ghost views = entry_views(entries@);
        let n = entries.len();
        if n < 2 || n > 4 {
            assert forall|other: Engagement| other.to_cbor() != item@ by {
                let length = engagement_entries(other.parts().0, other.parts().1, other.parts().2).len();
                assert(2 <= length <= 4);
            }
            return None;
        }
        proof {
            assert forall|k: int| 0 <= k < n implies views[k] == (entries[k].0@, entries[k].1@) by {}
            assert forall|other: Engagement| other.to_cbor() == item@ implies engagement_entries(
                other.parts().0,
                other.parts().1,
                other.parts().2,
            ) == views by {}
        }
        if !entries[0].0.is_integer(0) || !entries[0].1.is_text("1.0") {
            assert forall|other: Engagement| other.to_cbor() != item@ by {
                assert(engagement_entries(other.parts().0, other.parts().1, other.parts().2)[0] == (
                    Cbor::Integer(0),
                    Cbor::Text("1.0"@),
                ));
            }
            return None;
        }
        if !entries[n - 1].0.is_integer(5) {
            assert forall|other: Engagement| other.to_cbor() != item@ by {
                let all = engagement_entries(other.parts().0, other.parts().1, other.parts().2);
                assert(all[all.len() - 1].0 == Cbor::Integer(5));
            }
            return None;
        }
        let has_security = n >= 3 && entries[1].0.is_integer(1);
        let has_methods = n >= 3 && entries[n - 2].0.is_integer(2);
        let expected: usize = 2 + (if has_security { 1usize } else { 0usize }) + (if has_methods {
            1usize
        } else {
            0usize
        });
        if expected != n {
            assert forall|other: Engagement| other.to_cbor() != item@ by {
                let all = engagement_entries(other.parts().0, other.parts().1, other.parts().2);
                if other.parts().0 is Some {
                    assert(all[1].0 == Cbor::Integer(1));
                }
                if other.parts().1 is Some {
                    assert(all[all.len() - 2].0 == Cbor::Integer(2));
                }
            }
            return None;
        }
        let engagement = Self::from_parts(
            if has_security {
                Some(&entries[1].1)
            } else {
                None
            },
            if has_methods {
                Some(&entries[n - 2].1)
            } else {
                None
            },
            &entries[n - 1].1,
        );
        proof {
            match &engagement {
                Some(engagement) => {
                    assert(engagement.to_cbor()->Table_0 =~= views);
                },
                None => {
                    assert forall|other: Engagement| other.to_cbor() != item@ by {
                        let all = engagement_entries(
                            other.parts().0,
                            other.parts().1,
                            other.parts().2,
                        );
                        if other.to_cbor() == item@ {
                            assert(all == views);
                            assert(all[all.len() - 1].1 == other.parts().2);
                            if other.parts().0 is Some {
                                assert(all[1] == (Cbor::Integer(1), other.parts().0->0));
                            } else {
                                assert(all[1].0 != Cbor::Integer(1));
                            }
                            if other.parts().1 is Some {
                                assert(all[all.len() - 2] == (Cbor::Integer(2), other.parts().1->0));
                            } else {
                                assert(all[all.len() - 2].0 != Cbor::Integer(2));
                            }
                        }
                    }
                },
            }
        }
        engagement
    }
}

/// The engagement of a holder.
#[derive(Debug)]
pub struct DeviceEngagement(pub Engagement);

/// The engagement of a verifier.
#[derive(Debug)]
pub struct ReaderEngagement(pub Engagement);

/// How the verifier's engagement reached the holder. It is part of the
/// transcript, so that a session cannot be carried from one kind to the
/// other.
#[derive(Debug)]
pub enum Handover {
    /// The engagement was shown as a QR code and read on another device.
    QrHandover,
    /// The engagement came in through a link on this device; the bytes are
    /// the verifier's engagement in its encoded form.
    SchemeHandoverBytes(Vec<u8>),
}

impl Handover {
    /// The data item for this handover: nothing for a QR code, the embedded
    /// engagement otherwise.
    pub open spec fn to_cbor(&self) -> Cbor {
        match self {
            Handover::QrHandover => Cbor::Null,
            Handover::SchemeHandoverBytes(bytes) => Cbor::embedded(bytes@),
        }
    }

    /// A copy with the same content.
    pub fn duplicate(&self) -> (copy: Self)
        ensures
            copy.to_cbor() == self.to_cbor(),
            copy is QrHandover <==> self is QrHandover,
    {
        match self {
            Handover::QrHandover => Handover::QrHandover,
            Handover::SchemeHandoverBytes(bytes) => Handover::SchemeHandoverBytes(bytes.clone()),
        }
    }

    /// Builds [`Self::to_cbor`].
    pub fn to_data_item(&self) -> (item: DataItem)
        ensures
            item@ == self.to_cbor(),
    {
        match self {
            Handover::QrHandover => DataItem::Null,
            Handover::SchemeHandoverBytes(bytes) => DataItem::embedded(bytes),
        }
    }
}

/// The transcript of a session as a data item: the array of the holder's
/// embedded engagement, the verifier's embedded key and the handover, which
/// is the verifier's embedded engagement where the session runs on one
/// device, and nothing where it runs across two.
pub open spec fn session_transcript_cbor(
    session_type: SessionType,
    reader_engagement: Cbor,
    ereader_key_bytes: Seq<u8>,
    device_engagement: Cbor,
) -> Cbor {
    Cbor::Array(
        seq![
            Cbor::embedded(cbor_encoding(device_engagement)),
            Cbor::embedded(ereader_key_bytes),
            match session_type {
                SessionType::SameDevice => Cbor::embedded(cbor_encoding(reader_engagement)),
                SessionType::CrossDevice => Cbor::Null,
            },
        ],
    )
}

/// Why there is no transcript.
#[derive(Debug, Clone, Copy, PartialEq, Eq)]
pub enum SessionTranscriptError {
    /// The verifier's engagement holds no key material.
    MissingReaderEngagementSecurity,
}

/// The transcript of a session: the holder's engagement, the verifier's
/// ephemeral key and the handover, each in its encoded form. Every signature
/// and every derived key of the session is bound to it.
#[derive(Debug)]
pub struct SessionTranscript {
    pub device_engagement_bytes: Vec<u8>,
    pub ereader_key_bytes: Vec<u8>,
    pub handover: Handover,
}

impl SessionTranscript {
    /// The transcript of the session that the two engagements set up.
    pub fn new(
        session_type: SessionType,
        reader_engagement: &ReaderEngagement,
        device_engagement: &DeviceEngagement,
    ) -> (transcript: Result<Self, SessionTranscriptError>)
        ensures
            match transcript {
                Ok(transcript) => reader_engagement.0.security matches Some(security)
                    && transcript.to_cbor() == session_transcript_cbor(
                    session_type,
                    reader_engagement.0.to_cbor(),
                    security.e_sender_key_bytes@,
                    device_engagement.0.to_cbor(),
                ),
                Err(_) => reader_engagement.0.security is None,
            },
    {
        let reader_security = match &reader_engagement.0.security {
            Some(security) => security,
            None => { return Err(SessionTranscriptError::MissingReaderEngagementSecurity); },
        };
        proof {
            reader_engagement.0.lemma_encodable();
            device_engagement.0.lemma_encodable();
        }
        let device_engagement_bytes = encode_total(&device_engagement.0.to_data_item());
        let handover = match session_type {
            SessionType::SameDevice => Handover::SchemeHandoverBytes(
                encode_total(&reader_engagement.0.to_data_item()),
            ),
            SessionType::CrossDevice => Handover::QrHandover,
        };
        Ok(
            SessionTranscript {
                device_engagement_bytes,
                ereader_key_bytes: reader_security.e_sender_key_bytes.clone(),
                handover,
            },
        )
    }

    /// The transcript as a data item: an array of the embedded engagement,
    /// the embedded key and the handover.
    pub open spec fn to_cbor(&self) -> Cbor {
        Cbor::Array(
            seq![
                Cbor::embedded(self.device_engagement_bytes@),
                Cbor::embedded(self.ereader_key_bytes@),
                self.handover.to_cbor(),
            ],
        )
    }

    /// A copy with the same content.
    pub fn duplicate(&self) -> (copy: Self)
        ensures
            copy.to_cbor() == self.to_cbor(),
    {
        SessionTranscript {
            device_engagement_bytes: self.device_engagement_bytes.clone(),
            ereader_key_bytes: self.ereader_key_bytes.clone(),
            handover: self.handover.duplicate(),
        }
    }

    /// A transcript holds no integer, so it always has an encoding.
    pub proof fn lemma_encodable(&self)
        ensures
            self.to_cbor().encodable(),
    {
        reveal_with_fuel(Cbor::encodable, 3);
    }

    /// Builds [`Self::to_cbor`].
    pub fn to_data_item(&self) -> (item: DataItem)
        ensures
            item@ == self.to_cbor(),
    {
        let mut items: Vec<DataItem> = Vec::new();
        items.push(DataItem::embedded(&self.device_engagement_bytes));
        items.push(DataItem::embedded(&self.ereader_key_bytes));
        items.push(self.handover.to_data_item());
        assert(data_item_views(items@) =~= seq![
            Cbor::embedded(self.device_engagement_bytes@),
            Cbor::embedded(self.ereader_key_bytes@),
            self.handover.to_cbor(),
        ]);
        DataItem::array(items)
    }
}

} // verus!
