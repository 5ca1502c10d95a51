//! The messages with which a verifier asks a holder for attributes.

use crate::error::{CborError, Error};
use crate::identifier_set::{identifier_set_contents, identifier_set_insert, identifier_set_new};
use crate::identifiers::{identifier_views, AttributeIdentifier, IdentifierView};
use crate::iso::engagement::SessionTranscript;
use crate::iso::mdocs::{DataElementIdentifier, DocType, NameSpace};
use crate::utils::cbor::{
    cbor_decoding, cbor_encoding, data_item_views, decode, encode, encode_embedded, entry_views,
    lemma_array_view, lemma_table_view, select_entries, selected_entries, Cbor, DataItem,
};
use crate::utils::cose::{signature_structure, signature_structure_data, CoseError, CoseSign1};
use crate::utils::x509::{
    byte_views, certificate_accepted, certificate_verifies, signature_accepted,
    signature_verifies, Certificate, CertificateError, EXTENDED_KEY_USAGE_READER_AUTH,
};
use indexmap::IndexSet;
use vstd::prelude::*;

verus! {

/// The first occurrences of the items of a sequence, in their order.
pub open spec fn distinct<A>(s: Seq<A>) -> Seq<A>
    decreases s.len(),
{
    if s.len() == 0 {
        Seq::empty()
    } else {
        let before = distinct(s.drop_last());
        if before.contains(s.last()) {
            before
        } else {
            before.push(s.last())
        }
    }
}

/// Taking one more item of a sequence adds that item to the distinct ones,
/// unless it is among them already.
pub proof fn lemma_distinct_take_succ<A>(s: Seq<A>, k: int)
    requires
        0 <= k < s.len(),
    ensures
        distinct(s.take(k + 1)) == if distinct(s.take(k)).contains(s[k]) {
            distinct(s.take(k))
        } else {
            distinct(s.take(k)).push(s[k])
        },
{
    assert(s.take(k + 1).drop_last() =~= s.take(k));
    assert(s.take(k + 1).last() == s[k]);
}

/// The distinct items of a sequence are exactly its items.
pub proof fn lemma_distinct_contains<A>(s: Seq<A>, x: A)
    ensures
        distinct(s).contains(x) <==> s.contains(x),
    decreases s.len(),
{
    if s.len() > 0 {
        lemma_distinct_contains(s.drop_last(), x);
        let before = distinct(s.drop_last());
        if s.contains(x) {
            let i = choose|i: int| 0 <= i < s.len() && s[i] == x;
            if i < s.len() - 1 {
                assert(s.drop_last()[i] == x);
            }
        }
        if s.drop_last().contains(x) {
            let i = choose|i: int| 0 <= i < s.drop_last().len() && s.drop_last()[i] == x;
            assert(s[i] == x);
        }
        if !before.contains(s.last()) {
            vstd::seq_lib::lemma_seq_contains_after_push(before, s.last(), x);
        }
        assert(s[s.len() - 1] == s.last());
    }
}

/// No item stands twice among the distinct items of a sequence.
pub proof fn lemma_distinct_no_duplicates<A>(s: Seq<A>)
    ensures
        distinct(s).no_duplicates(),
    decreases s.len(),
{
    if s.len() > 0 {
        lemma_distinct_no_duplicates(s.drop_last());
    }
}

/// The values of a sequence of strings.
pub open spec fn string_views(strings: Seq<String>) -> Seq<Seq<char>> {
    strings.map_values(|string: String| string@)
}

/// Whether `string` is among `strings`.
pub fn contains_string(strings: &Vec<String>, string: &String) -> (found: bool)
    ensures
        found == string_views(strings@).contains(string@),
{
    let mut i: usize = 0;
    while i < strings.len()
        invariant
            i <= strings.len(),
            forall|k: int| 0 <= k < i ==> string_views(strings@)[k] != string@,
        decreases strings.len() - i,
    {
        if strings[i] == *string {
            assert(string_views(strings@)[i as int] == string@);
            return true;
        }
        i += 1;
    }
    false
}

/// Whether the verifier says that it will keep an attribute's value.
pub type IndentToRetain = bool;

/// The attributes asked of one namespace.
pub type DataElements = Vec<(DataElementIdentifier, IndentToRetain)>;

/// The attributes asked of a credential, namespace by namespace.
pub type NameSpaces = Vec<(NameSpace, DataElements)>;

/// The verifier's signature under a request.
pub type ReaderAuth = CoseSign1;

/// What is asked of one credential type.
#[derive(Debug)]
pub struct ItemsRequest {
    pub doc_type: DocType,
    pub name_spaces: NameSpaces,
    /// Further information in any form; this library passes it on unread.
    pub request_info: Option<Vec<(String, DataItem)>>,
}

impl ItemsRequest {
    /// The identifiers asked for in namespace `name_space`, in order.
    pub open spec fn identifiers_of(
        doc_type: Seq<char>,
        name_space: Seq<char>,
        elements: Seq<(DataElementIdentifier, IndentToRetain)>,
    ) -> Seq<IdentifierView> {
        elements.map_values(
            |element: (DataElementIdentifier, IndentToRetain)| (doc_type, name_space, element.0@),
        )
    }

    /// The identifiers that this request asks for, in order; one that is
    /// asked twice stands twice.
    pub open spec fn identifiers(&self) -> Seq<IdentifierView> {
        self.name_spaces@.map_values(
            |entry: (NameSpace, DataElements)|
                Self::identifiers_of(self.doc_type@, entry.0@, entry.1@),
        ).flatten()
    }
}

/// The table of the attributes asked of one namespace: each name with
/// whether the verifier means to keep the value.
pub open spec fn data_elements_cbor(elements: Seq<(DataElementIdentifier, IndentToRetain)>) -> Cbor {
    Cbor::Table(
        elements.map_values(
            |element: (DataElementIdentifier, IndentToRetain)|
                (Cbor::Text(element.0@), Cbor::Bool(element.1)),
        ),
    )
}

/// The table of namespaces, each with the table of its attributes.
pub open spec fn name_spaces_cbor(name_spaces: Seq<(NameSpace, DataElements)>) -> Cbor {
    Cbor::Table(
        name_spaces.map_values(
            |entry: (NameSpace, DataElements)| (Cbor::Text(entry.0@), data_elements_cbor(entry.1@)),
        ),
    )
}

/// The table of further information, as it is.
pub open spec fn request_info_cbor(info: Seq<(String, DataItem)>) -> Cbor {
    Cbor::Table(info.map_values(|entry: (String, DataItem)| (Cbor::Text(entry.0@), entry.1@)))
}

/// What a verifier signs under a request in a session, as a data item: the
/// fixed text that separates this signature from every other, the
/// transcript, and the embedded request.
pub open spec fn reader_authentication_cbor(transcript: Cbor, items_request: Cbor) -> Cbor {
    Cbor::Array(
        seq![
            Cbor::Text("ReaderAuthentication"@),
            transcript,
            Cbor::embedded(cbor_encoding(items_request)),
        ],
    )
}

/// The bytes that a verifier signs under a request: the encoding of the
/// data item, embedded and encoded once more.
pub open spec fn reader_authentication_bytes(transcript: Cbor, items_request: Cbor) -> Seq<u8> {
    cbor_encoding(
        Cbor::embedded(cbor_encoding(reader_authentication_cbor(transcript, items_request))),
    )
}

impl ItemsRequest {
    /// The request as a data item: a table of the type, the namespaces and,
    /// if there is any, the further information.
    pub open spec fn to_cbor(&self) -> Cbor {
        Cbor::Table(
            seq![
                (Cbor::Text("docType"@), Cbor::Text(self.doc_type@)),
                (Cbor::Text("nameSpaces"@), name_spaces_cbor(self.name_spaces@)),
            ] + match self.request_info {
                Some(info) => seq![(Cbor::Text("requestInfo"@), request_info_cbor(info@))],
                None => Seq::empty(),
            },
        )
    }

    /// Builds [`Self::to_cbor`].
    pub fn to_data_item(&self) -> (item: DataItem)
        ensures
            item@ == self.to_cbor(),
    {
        let mut name_spaces: Vec<(DataItem, DataItem)> = Vec::new();
        let mut i: usize = 0;
        while i < self.name_spaces.len()
            invariant
                i <= self.name_spaces.len(),
                name_spaces.len() == i,
                forall|k: int|
                    0 <= k < i ==> (#[trigger] name_spaces[k]).0@ == Cbor::Text(
                        self.name_spaces[k].0@,
                    ) && name_spaces[k].1@ == data_elements_cbor(self.name_spaces[k].1@),
            decreases self.name_spaces.len() - i,
        {
            let elements = &self.name_spaces[i].1;
            let mut entries: Vec<(DataItem, DataItem)> = Vec::new();
            let mut j: usize = 0;
            while j < elements.len()
                invariant
                    j <= elements.len(),
                    entries.len() == j,
                    forall|k: int|
                        0 <= k < j ==> (#[trigger] entries[k]).0@ == Cbor::Text(elements[k].0@)
                            && entries[k].1@ == Cbor::Bool(elements[k].1),
                decreases elements.len() - j,
            {
                entries.push((DataItem::text(elements[j].0.as_str()), DataItem::Bool(elements[j].1)));
                j += 1;
            }
            assert(entry_views(entries@) =~= data_elements_cbor(elements@)->Table_0);
            name_spaces.push(
                (DataItem::text(self.name_spaces[i].0.as_str()), DataItem::table(entries)),
            );
            i += 1;
        }
        assert(entry_views(name_spaces@) =~= name_spaces_cbor(self.name_spaces@)->Table_0);
        let mut fields: Vec<(DataItem, DataItem)> = Vec::new();
        fields.push((DataItem::text("docType"), DataItem::text(self.doc_type.as_str())));
        fields.push((DataItem::text("nameSpaces"), DataItem::table(name_spaces)));
        match &self.request_info {
            None => {},
            Some(info) => {
                let mut entries: Vec<(DataItem, DataItem)> = Vec::new();
                let mut j: usize = 0;
                while j < info.len()
                    invariant
                        j <= info.len(),
                        entries.len() == j,
                        forall|k: int|
                            0 <= k < j ==> (#[trigger] entries[k]).0@ == Cbor::Text(info[k].0@)
                                && entries[k].1@ == info[k].1@,
                    decreases info.len() - j,
                {
                    entries.push((DataItem::text(info[j].0.as_str()), info[j].1.duplicate()));
                    j += 1;
                }
                assert(entry_views(entries@) =~= request_info_cbor(info@)->Table_0);
                fields.push((DataItem::text("requestInfo"), DataItem::table(entries)));
            },
        }
        assert(entry_views(fields@) =~= self.to_cbor()->Table_0);
        DataItem::table(fields)
    }
}

/// Reads the attributes asked of one namespace from a data item.
pub fn data_elements_from_data_item(item: &DataItem) -> (elements: Option<DataElements>)
    ensures
        match elements {
            Some(elements) => data_elements_cbor(elements@) == item@,
            None => forall|other: Seq<(DataElementIdentifier, IndentToRetain)>|
                data_elements_cbor(other) != item@,
        },
{
    let entries = match item {
        DataItem::Table(entries) => entries,
        _ => { return None; },
    };
    proof {
        lemma_table_view(*entries);
    }
    let ghost views = entry_views(entries@);
    let mut elements: DataElements = Vec::new();
    let mut i: usize = 0;
    while i < entries.len()
        invariant
            i <= entries.len(),
            elements.len() == i,
            views == entry_views(entries@),
            item@ == Cbor::Table(views),
            forall|k: int|
                0 <= k < i ==> views[k] == (
                    Cbor::Text((#[trigger] elements[k]).0@),
                    Cbor::Bool(elements[k].1),
                ),
        decreases entries.len() - i,
    {
        proof {
            assert(views[i as int] == (entries[i as int].0@, entries[i as int].1@));
            assert forall|other: Seq<(DataElementIdentifier, IndentToRetain)>|
                data_elements_cbor(other) == item@ implies views[i as int] == (
                Cbor::Text(other[i as int].0@),
                Cbor::Bool(other[i as int].1),
            ) by {
                assert(data_elements_cbor(other)->Table_0.len() == other.len());
                assert(data_elements_cbor(other)->Table_0[i as int] == (
                    Cbor::Text(other[i as int].0@),
                    Cbor::Bool(other[i as int].1),
                ));
            }
        }
        match (&entries[i].0, &entries[i].1) {
            (DataItem::Text(name), DataItem::Bool(retain)) => {
                elements.push((name.clone(), *retain));
            },
            _ => { return None; },
        }
        i += 1;
    }
    assert(data_elements_cbor(elements@)->Table_0 =~= views);
    Some(elements)
}

/// Reads the attributes asked of a credential from a data item.
pub fn name_spaces_from_data_item(item: &DataItem) -> (name_spaces: Option<NameSpaces>)
    ensures
        match name_spaces {
            Some(name_spaces) => name_spaces_cbor(name_spaces@) == item@,
            None => forall|other: Seq<(NameSpace, DataElements)>| name_spaces_cbor(other) != item@,
        },
{
    let entries = match item {
        DataItem::Table(entries) => entries,
        _ => { return None; },
    };
    proof {
        lemma_table_view(*entries);
    }
    let ghost views = entry_views(entries@);
    let mut name_spaces: NameSpaces = Vec::new();
    let mut i: usize = 0;
    while i < entries.len()
        invariant
            i <= entries.len(),
            name_spaces.len() == i,
            views == entry_views(entries@),
            item@ == Cbor::Table(views),
            forall|k: int|
                0 <= k < i ==> views[k] == (
                    Cbor::Text((#[trigger] name_spaces[k]).0@),
                    data_elements_cbor(name_spaces[k].1@),
                ),
        decreases entries.len() - i,
    {
        proof {
            assert(views[i as int] == (entries[i as int].0@, entries[i as int].1@));
            assert forall|other: Seq<(NameSpace, DataElements)>|
                name_spaces_cbor(other) == item@ implies views[i as int] == (
                Cbor::Text(other[i as int].0@),
                data_elements_cbor(other[i as int].1@),
            ) by {
                assert(name_spaces_cbor(other)->Table_0.len() == other.len());
                assert(name_spaces_cbor(other)->Table_0[i as int] == (
                    Cbor::Text(other[i as int].0@),
                    data_elements_cbor(other[i as int].1@),
                ));
            }
        }
        let name = match &entries[i].0 {
            DataItem::Text(name) => name.clone(),
            _ => { return None; },
        };
        let elements = match data_elements_from_data_item(&entries[i].1) {
            Some(elements) => elements,
            None => { return None; },
        };
        name_spaces.push((name, elements));
        i += 1;
    }
    assert(name_spaces_cbor(name_spaces@)->Table_0 =~= views);
    Some(name_spaces)
}

/// Reads further information from a data item.
pub fn request_info_from_data_item(item: &DataItem) -> (info: Option<Vec<(String, DataItem)>>)
    ensures
        match info {
            Some(info) => request_info_cbor(info@) == item@,
            None => forall|other: Seq<(String, DataItem)>| request_info_cbor(other) != item@,
        },
{
    let entries = match item {
        DataItem::Table(entries) => entries,
        _ => { return None; },
    };
    proof {
        lemma_table_view(*entries);
    }
    let ghost views = entry_views(entries@);
    let mut info: Vec<(String, DataItem)> = Vec::new();
    let mut i: usize = 0;
    while i < entries.len()
        invariant
            i <= entries.len(),
            info.len() == i,
            views == entry_views(entries@),
            item@ == Cbor::Table(views),
            forall|k: int|
                0 <= k < i ==> views[k] == (Cbor::Text((#[trigger] info[k]).0@), info[k].1@),
        decreases entries.len() - i,
    {
        proof {
            assert(views[i as int] == (entries[i as int].0@, entries[i as int].1@));
            assert forall|other: Seq<(String, DataItem)>|
                request_info_cbor(other) == item@ implies views[i as int] == (
                Cbor::Text(other[i as int].0@),
                other[i as int].1@,
            ) by {
                assert(request_info_cbor(other)->Table_0.len() == other.len());
                assert(request_info_cbor(other)->Table_0[i as int] == (
                    Cbor::Text(other[i as int].0@),
                    other[i as int].1@,
                ));
            }
        }
        let name = match &entries[i].0 {
            DataItem::Text(name) => name.clone(),
            _ => { return None; },
        };
        info.push((name, entries[i].1.duplicate()));
        i += 1;
    }
    assert(request_info_cbor(info@)->Table_0 =~= views);
    Some(info)
}

impl ItemsRequest {
    /// The keys under which the entries of a request for one credential type stand.
    pub open spec fn keys() -> Seq<Cbor> {
        seq![Cbor::Text("docType"@), Cbor::Text("nameSpaces"@), Cbor::Text("requestInfo"@)]
    }

    /// Whether `item` reads as this request: it is a table, and what
    /// stands in it under the keys of a request for one credential type, in whatever order and beside
    /// whatever else, are the entries of [`Self::to_cbor`].
    pub open spec fn read_from(&self, item: Cbor) -> bool {
        item matches Cbor::Table(entries) && selected_entries(entries, Self::keys()) == Some(
            self.to_cbor()->Table_0,
        )
    }

    /// Reads a request from a data item: finds its entries by their keys,
    /// and passes over what stands under other keys. A table in which a
    /// key of a request for one credential type stands twice is none.
    pub fn from_data_item(item: &DataItem) -> (request: Option<Self>)
        ensures
            match request {
                Some(request) => request.read_from(item@),
                None => forall|other: ItemsRequest| !other.read_from(item@),
            },
    {
        let entries = match item {
            DataItem::Table(entries) => entries,
            _ => { return None; },
        };
        proof {
            lemma_table_view(*entries);
        }
        let mut keys: Vec<DataItem> = Vec::new();
        keys.push(DataItem::text("docType"));
        keys.push(DataItem::text("nameSpaces"));
        keys.push(DataItem::text("requestInfo"));
        assert(data_item_views(keys@) =~= Self::keys());
        let selected = match select_entries(entries, &keys) {
            Some(selected) => selected,
            None => { return None; },
        };
        Self::from_ordered_item(&DataItem::table(selected))
    }

    /// Reads a request from a table of exactly its entries, in their
    /// order.
    fn from_ordered_item(item: &DataItem) -> (request: Option<Self>)
        ensures
            match request {
                Some(request) => request.to_cbor() == item@,
                None => forall|other: ItemsRequest| other.to_cbor() != item@,
            },
    {
        let entries = match item {
            DataItem::Table(entries) => entries,
            _ => { return None; },
        };
        proof {
            lemma_table_view(*entries);
        }
        let ghost views = entry_views(entries@);
        if entries.len() != 2 && entries.len() != 3 {
            assert forall|other: ItemsRequest| other.to_cbor() != item@ by {
                assert(other.to_cbor()->Table_0.len() == 2 || other.to_cbor()->Table_0.len() == 3);
            }
            return None;
        }
        proof {
            assert(views[0] == (entries[0].0@, entries[0].1@));
            assert(views[1] == (entries[1].0@, entries[1].1@));
            assert forall|other: ItemsRequest| other.to_cbor() == item@ implies views[0]
                == other.to_cbor()->Table_0[0] && views[1] == other.to_cbor()->Table_0[1]
                && views.len() == other.to_cbor()->Table_0.len() by {}
        }
        if !entries[0].0.is_text("docType") || !entries[1].0.is_text("nameSpaces") {
            return None;
        }
        let doc_type = match &entries[0].1 {
            DataItem::Text(doc_type) => doc_type.clone(),
            _ => { return None; },
        };
        let name_spaces = match name_spaces_from_data_item(&entries[1].1) {
            Some(name_spaces) => name_spaces,
            None => {
                assert forall|other: ItemsRequest| other.to_cbor() != item@ by {
                    if other.to_cbor() == item@ {
                        assert(name_spaces_cbor(other.name_spaces@) == views[1].1);
                    }
                }
                return None;
            },
        };
        let request_info = if entries.len() == 3 {
            proof {
                assert(views[2] == (entries[2].0@, entries[2].1@));
                assert forall|other: ItemsRequest| other.to_cbor() == item@ implies views[2]
                    == other.to_cbor()->Table_0[2] by {}
            }
            if !entries[2].0.is_text("requestInfo") {
                return None;
            }
            match request_info_from_data_item(&entries[2].1) {
                Some(info) => Some(info),
                None => {
                    assert forall|other: ItemsRequest| other.to_cbor() != item@ by {
                        if other.to_cbor() == item@ {
                            assert(request_info_cbor(other.request_info->0@) == views[2].1);
                        }
                    }
                    return None;
                },
            }
        } else {
            None
        };
        let request = ItemsRequest { doc_type, name_spaces, request_info };
        assert(request.to_cbor()->Table_0 =~= views);
        Some(request)
    }
}

/// Whether no name stands twice among the names of `entries`.
pub open spec fn distinct_keys<T>(entries: Seq<(String, T)>) -> bool {
    forall|i: int, j: int|
        0 <= i < j < entries.len() ==> (#[trigger] entries[i]).0@ != (#[trigger] entries[j]).0@
}

/// Decides [`distinct_keys`].
pub fn has_distinct_keys<T>(entries: &Vec<(String, T)>) -> (distinct: bool)
    ensures
        distinct == distinct_keys(entries@),
{
    let mut j: usize = 0;
    while j < entries.len()
        invariant
            j <= entries.len(),
            forall|a: int, b: int|
                0 <= a < b < j ==> (#[trigger] entries[a]).0@ != (#[trigger] entries[b]).0@,
        decreases entries.len() - j,
    {
        let mut i: usize = 0;
        while i < j
            invariant
                i <= j,
                j < entries.len(),
                forall|a: int| 0 <= a < i ==> (#[trigger] entries[a]).0@ != entries[j as int].0@,
            decreases j - i,
        {
            if entries[i].0 == entries[j].0 {
                return false;
            }
            i += 1;
        }
        j += 1;
    }
    true
}

/// The place of the first entry under the name `key`, if there is one.
pub open spec fn key_place<T>(entries: Seq<(String, T)>, key: Seq<char>) -> Option<int>
    decreases entries.len(),
{
    if entries.len() == 0 {
        None
    } else {
        match key_place(entries.drop_last(), key) {
            Some(place) => Some(place),
            None => if entries.last().0@ == key {
                Some(entries.len() - 1)
            } else {
                None
            },
        }
    }
}

/// A table with one more entry written into it: under a name that the
/// table has already, the name stays where it is and takes the new value;
/// another entry goes behind all others.
pub open spec fn with_entry<T>(entries: Seq<(String, T)>, entry: (String, T)) -> Seq<(String, T)> {
    match key_place(entries, entry.0@) {
        Some(place) => entries.update(place, (entries[place].0, entry.1)),
        None => entries.push(entry),
    }
}

/// The table that comes of writing `entries` into an empty one, one after
/// the other: of entries under one name the last stays, at the place of
/// the first.
pub open spec fn merged_entries<T>(entries: Seq<(String, T)>) -> Seq<(String, T)>
    decreases entries.len(),
{
    if entries.len() == 0 {
        entries
    } else {
        with_entry(merged_entries(entries.drop_last()), entries.last())
    }
}

/// Where [`key_place`] finds a place, the entry there is under the name;
/// where it finds none, no entry is.
pub proof fn lemma_key_place<T>(entries: Seq<(String, T)>, key: Seq<char>)
    ensures
        match key_place(entries, key) {
            Some(place) => 0 <= place < entries.len() && entries[place].0@ == key,
            None => forall|j: int| 0 <= j < entries.len() ==> (#[trigger] entries[j]).0@ != key,
        },
    decreases entries.len(),
{
    if entries.len() > 0 {
        let before = entries.drop_last();
        lemma_key_place(before, key);
        if key_place(before, key) is None {
            assert forall|j: int| 0 <= j < entries.len() && key_place(entries, key) is None implies (
            #[trigger] entries[j]).0@ != key by {
                if j < before.len() {
                    assert(before[j] == entries[j]);
                }
            }
        } else {
            assert(entries[key_place(before, key)->0] == before[key_place(before, key)->0]);
        }
    }
}

/// A table in which no name stands twice is read as it is.
pub proof fn lemma_merged_distinct<T>(entries: Seq<(String, T)>)
    requires
        distinct_keys(entries),
    ensures
        merged_entries(entries) == entries,
    decreases entries.len(),
{
    if entries.len() > 0 {
        let before = entries.drop_last();
        let last = entries.last();
        assert forall|i: int, j: int| 0 <= i < j < before.len() implies (#[trigger] before[i]).0@
            != (#[trigger] before[j]).0@ by {
            assert(before[i] == entries[i] && before[j] == entries[j]);
        }
        lemma_merged_distinct(before);
        lemma_key_place(before, last.0@);
        if key_place(before, last.0@) is Some {
            let place = key_place(before, last.0@)->0;
            assert(before[place] == entries[place]);
            assert(entries[entries.len() - 1] == last);
        }
        assert(before.push(last) =~= entries);
    }
}

/// In a table that entries were written into, no name stands twice, and
/// every value is one of those that were written.
pub proof fn lemma_merged_entries<T>(entries: Seq<(String, T)>)
    ensures
        distinct_keys(merged_entries(entries)),
        forall|i: int|
            0 <= i < merged_entries(entries).len() ==> exists|j: int|
                0 <= j < entries.len() && (#[trigger] merged_entries(entries)[i]).1
                    == (#[trigger] entries[j]).1,
    decreases entries.len(),
{
    if entries.len() > 0 {
        let before = entries.drop_last();
        let last = entries.last();
        let table = merged_entries(before);
        let merged = merged_entries(entries);
        lemma_merged_entries(before);
        lemma_key_place(table, last.0@);
        assert(entries[entries.len() - 1] == last);
        assert forall|i: int| 0 <= i < merged.len() implies exists|j: int|
            0 <= j < entries.len() && (#[trigger] merged[i]).1 == (#[trigger] entries[j]).1 by {
            if key_place(table, last.0@) == Some(i) || i == table.len() {
                assert(merged[i].1 == entries[entries.len() - 1].1);
            } else {
                assert(merged[i] == table[i]);
                let j = choose|j: int|
                    0 <= j < before.len() && (#[trigger] table[i]).1 == (#[trigger] before[j]).1;
                assert(before[j] == entries[j]);
            }
        }
        assert forall|i: int, j: int| 0 <= i < j < merged.len() implies (#[trigger] merged[i]).0@
            != (#[trigger] merged[j]).0@ by {
            if i < table.len() {
                assert(merged[i].0@ == table[i].0@);
            }
            if j < table.len() {
                assert(merged[j].0@ == table[j].0@);
            }
        }
    }
}

/// `IndexMap::from_iter` on the entries, and the entries of that map in
/// its order. The map takes the entries one after the other as
/// `IndexMap::insert` does: a name that it has already stays where it is
/// and takes the new value, another entry goes last.
#[verifier::external_body]
pub(crate) fn merge_entries<T>(entries: Vec<(String, T)>) -> (merged: Vec<(String, T)>)
    ensures
        merged@ == merged_entries(entries@),
{
    entries.into_iter().collect::<indexmap::IndexMap<String, T>>().into_iter().collect()
}

impl ItemsRequest {
    /// Whether the request is a table of tables: no namespace stands twice,
    /// and in no namespace an attribute stands twice.
    pub open spec fn well_formed(&self) -> bool {
        &&& distinct_keys(self.name_spaces@)
        &&& forall|i: int|
            0 <= i < self.name_spaces.len() ==> distinct_keys((#[trigger] self.name_spaces[i]).1@)
    }

    /// Whether this request is `raw` read as a table of tables: in every
    /// namespace of `raw`, then among its namespaces, and in the further
    /// information, of entries under one name the last stays, at the place
    /// of the first.
    pub open spec fn is_merged_from(&self, raw: &ItemsRequest) -> bool {
        &&& self.doc_type == raw.doc_type
        &&& match raw.request_info {
            Some(info) => self.request_info matches Some(merged) && merged@ == merged_entries(
                info@,
            ),
            None => self.request_info is None,
        }
        &&& exists|inner: Seq<(NameSpace, DataElements)>|
            {
                &&& #[trigger] merged_entries(inner) == self.name_spaces@
                &&& inner.len() == raw.name_spaces.len()
                &&& forall|i: int|
                    0 <= i < inner.len() ==> (#[trigger] inner[i]).0 == raw.name_spaces[i].0
                        && inner[i].1@ == merged_entries(raw.name_spaces[i].1@)
            }
    }

    /// A request in which nothing stands twice is read as it is: what is
    /// read has the same data item and asks for the same identifiers.
    pub proof fn lemma_merged_table_is_same(&self, raw: &ItemsRequest)
        requires
            self.is_merged_from(raw),
            raw.well_formed(),
            raw.request_info matches Some(info) ==> distinct_keys(info@),
        ensures
            self.to_cbor() == raw.to_cbor(),
            self.identifiers() == raw.identifiers(),
    {
        let inner = choose|inner: Seq<(NameSpace, DataElements)>|
            {
                &&& #[trigger] merged_entries(inner) == self.name_spaces@
                &&& inner.len() == raw.name_spaces.len()
                &&& forall|i: int|
                    0 <= i < inner.len() ==> (#[trigger] inner[i]).0 == raw.name_spaces[i].0
                        && inner[i].1@ == merged_entries(raw.name_spaces[i].1@)
            };
        assert forall|i: int, j: int| 0 <= i < j < inner.len() implies (#[trigger] inner[i]).0@
            != (#[trigger] inner[j]).0@ by {
            assert(raw.name_spaces[i].0@ != raw.name_spaces[j].0@);
        }
        lemma_merged_distinct(inner);
        assert forall|i: int| 0 <= i < inner.len() implies (#[trigger] inner[i]).1@
            == raw.name_spaces[i].1@ by {
            lemma_merged_distinct(raw.name_spaces[i].1@);
        }
        assert(name_spaces_cbor(self.name_spaces@)->Table_0 =~= name_spaces_cbor(
            raw.name_spaces@,
        )->Table_0);
        if raw.request_info is Some {
            lemma_merged_distinct(raw.request_info->0@);
        }
        assert(self.name_spaces@.map_values(
            |entry: (NameSpace, DataElements)|
                Self::identifiers_of(self.doc_type@, entry.0@, entry.1@),
        ) =~= raw.name_spaces@.map_values(
            |entry: (NameSpace, DataElements)|
                Self::identifiers_of(raw.doc_type@, entry.0@, entry.1@),
        ));
    }

    /// Reads this request as a table of tables, as [`Self::is_merged_from`]
    /// says.
    pub fn merged(self) -> (merged: Self)
        ensures
            merged.is_merged_from(&self),
            merged.well_formed(),
    {
        let ghost raw = self.name_spaces@;
        let mut inner: NameSpaces = Vec::new();
        for entry in it: self.name_spaces
            invariant
                it.seq() == raw,
                inner.len() == it.index(),
                forall|i: int|
                    0 <= i < inner.len() ==> (#[trigger] inner[i]).0 == raw[i].0 && inner[i].1@
                        == merged_entries(raw[i].1@) && distinct_keys(inner[i].1@),
        {
            assert(entry == raw[it.index() as int]);
            proof {
                lemma_merged_entries(entry.1@);
            }
            inner.push((entry.0, merge_entries(entry.1)));
        }
        let ghost between = inner@;
        let name_spaces = merge_entries(inner);
        let request_info = match self.request_info {
            Some(info) => Some(merge_entries(info)),
            None => None,
        };
        proof {
            lemma_merged_entries(between);
            assert forall|i: int| 0 <= i < name_spaces.len() implies distinct_keys(
                (#[trigger] name_spaces[i]).1@,
            ) by {
                let j = choose|j: int|
                    0 <= j < between.len() && (#[trigger] name_spaces[i]).1 == (
                    #[trigger] between[j]).1;
                assert(distinct_keys(between[j].1@));
            }
        }
        ItemsRequest { doc_type: self.doc_type, name_spaces, request_info }
    }

    /// Decides [`Self::well_formed`].
    pub fn is_well_formed(&self) -> (well_formed: bool)
        ensures
            well_formed == self.well_formed(),
    {
        if !has_distinct_keys(&self.name_spaces) {
            return false;
        }
        let mut i: usize = 0;
        while i < self.name_spaces.len()
            invariant
                i <= self.name_spaces.len(),
                distinct_keys(self.name_spaces@),
                forall|k: int| 0 <= k < i ==> distinct_keys((#[trigger] self.name_spaces[k]).1@),
            decreases self.name_spaces.len() - i,
        {
            if !has_distinct_keys(&self.name_spaces[i].1) {
                return false;
            }
            i += 1;
        }
        true
    }
}

/// The version of a [`DeviceRequest`].
#[derive(Debug, Clone, Copy, PartialEq, Eq)]
pub enum DeviceRequestVersion {
    V1_0,
}

impl Default for DeviceRequestVersion {
    fn default() -> (version: Self)
        ensures
            version == DeviceRequestVersion::V1_0,
    {
        DeviceRequestVersion::V1_0
    }
}

/// A request for attributes of one credential type, with the verifier's
/// signature if there is one.
#[derive(Debug)]
pub struct DocRequest {
    pub items_request: ItemsRequest,
    pub reader_auth: Option<ReaderAuth>,
}

/// What a verifier sends to ask for attributes: one [`DocRequest`] for each
/// credential that it wants something of.
#[derive(Debug)]
pub struct DeviceRequest {
    pub version: DeviceRequestVersion,
    pub doc_requests: Vec<DocRequest>,
    pub return_url: Option<String>,
}

/// What the verifier signs under a request: the transcript of the session
/// and the request itself.
#[derive(Debug)]
pub struct ReaderAuthenticationKeyed<'a> {
    pub session_transcript: &'a SessionTranscript,
    pub items_request: &'a ItemsRequest,
}

impl ItemsRequest {
    /// Lists [`Self::identifiers`].
    pub fn identifier_list(&self) -> (list: Vec<AttributeIdentifier>)
        ensures
            identifier_views(list@) == self.identifiers(),
    {
        let ghost per_name_space = |entry: (NameSpace, DataElements)|
            Self::identifiers_of(self.doc_type@, entry.0@, entry.1@);
        let mut list: Vec<AttributeIdentifier> = Vec::new();
        let mut i: usize = 0;
        proof {
            assert(self.name_spaces@.take(0).map_values(per_name_space).flatten() =~= Seq::<
                IdentifierView,
            >::empty());
            assert(identifier_views(list@) =~= Seq::<IdentifierView>::empty());
        }
        while i < self.name_spaces.len()
            invariant
                i <= self.name_spaces.len(),
                per_name_space == (|entry: (NameSpace, DataElements)|
                    Self::identifiers_of(self.doc_type@, entry.0@, entry.1@)),
                identifier_views(list@) == self.name_spaces@.take(i as int).map_values(
                    per_name_space,
                ).flatten(),
            decreases self.name_spaces.len() - i,
        {
            let name_space = &self.name_spaces[i].0;
            let elements = &self.name_spaces[i].1;
            let ghost before = identifier_views(list@);
            let mut j: usize = 0;
            proof {
                assert(before + Self::identifiers_of(
                    self.doc_type@,
                    name_space@,
                    elements@.take(0),
                ) =~= before);
            }
            while j < elements.len()
                invariant
                    j <= elements.len(),
                    identifier_views(list@) == before + Self::identifiers_of(
                        self.doc_type@,
                        name_space@,
                        elements@.take(j as int),
                    ),
                decreases elements.len() - j,
            {
                let identifier = AttributeIdentifier {
                    doc_type: self.doc_type.clone(),
                    namespace: name_space.clone(),
                    attribute: elements[j].0.clone(),
                };
                proof {
                    elements@.lemma_take_succ_push(j as int);
                    elements@.take(j as int).lemma_push_map_commute(
                        |element: (DataElementIdentifier, IndentToRetain)|
                            (self.doc_type@, name_space@, element.0@),
                        elements@[j as int],
                    );
                    list@.lemma_push_map_commute(
                        |identifier: AttributeIdentifier| identifier@,
                        identifier,
                    );
                    assert(identifier_views(list@.push(identifier)) =~= before
                        + Self::identifiers_of(
                        self.doc_type@,
                        name_space@,
                        elements@.take(j + 1),
                    ));
                }
                list.push(identifier);
                j += 1;
            }
            proof {
                elements@.lemma_take_len();
                self.name_spaces@.lemma_take_succ_push(i as int);
                self.name_spaces@.take(i as int).lemma_push_map_commute(
                    per_name_space,
                    self.name_spaces@[i as int],
                );
                self.name_spaces@.take(i as int).map_values(per_name_space).lemma_flatten_push(
                    per_name_space(self.name_spaces@[i as int]),
                );
            }
            i += 1;
        }
        proof {
            self.name_spaces@.lemma_take_len();
        }
        list
    }
}

impl DeviceRequest {
    /// Lists [`Self::all_identifiers`].
    pub fn identifier_list(&self) -> (list: Vec<AttributeIdentifier>)
        ensures
            identifier_views(list@) == self.all_identifiers(),
    {
        let ghost per_request = |doc_request: DocRequest| doc_request.items_request.identifiers();
        let mut list: Vec<AttributeIdentifier> = Vec::new();
        let mut i: usize = 0;
        proof {
            assert(self.doc_requests@.take(0).map_values(per_request).flatten() =~= Seq::<
                IdentifierView,
            >::empty());
            assert(identifier_views(list@) =~= Seq::<IdentifierView>::empty());
        }
        while i < self.doc_requests.len()
            invariant
                i <= self.doc_requests.len(),
                per_request == (|doc_request: DocRequest| doc_request.items_request.identifiers()),
                identifier_views(list@) == self.doc_requests@.take(i as int).map_values(
                    per_request,
                ).flatten(),
            decreases self.doc_requests.len() - i,
        {
            let mut more = self.doc_requests[i].items_request.identifier_list();
            proof {
                self.doc_requests@.lemma_take_succ_push(i as int);
                self.doc_requests@.take(i as int).lemma_push_map_commute(
                    per_request,
                    self.doc_requests@[i as int],
                );
                self.doc_requests@.take(i as int).map_values(per_request).lemma_flatten_push(
                    per_request(self.doc_requests@[i as int]),
                );
                assert(identifier_views(list@ + more@) =~= identifier_views(list@)
                    + identifier_views(more@));
            }
            list.append(&mut more);
            i += 1;
        }
        proof {
            self.doc_requests@.lemma_take_len();
        }
        list
    }

    /// The set of the identifiers that the requests ask for.
    pub fn attribute_identifiers(&self) -> (identifiers: IndexSet<(String, String, String)>)
        ensures
            identifier_set_contents(identifiers) == self.requested(),
    {
        let list = self.identifier_list();
        let ghost all = identifier_views(list@);
        let mut identifiers = identifier_set_new();
        let mut k: usize = 0;
        proof {
            assert(all.take(0) =~= Seq::<IdentifierView>::empty());
        }
        while k < list.len()
            invariant
                k <= list.len(),
                all == identifier_views(list@),
                all == self.all_identifiers(),
                identifier_set_contents(identifiers) == distinct(all.take(k as int)),
            decreases list.len() - k,
        {
            proof {
                lemma_distinct_take_succ(all, k as int);
            }
            let _ = identifier_set_insert(&mut identifiers, &list[k]);
            k += 1;
        }
        proof {
            all.lemma_take_len();
        }
        identifiers
    }

    /// Lists [`Self::requested_doc_types`].
    pub fn doc_types(&self) -> (doc_types: Vec<DocType>)
        ensures
            string_views(doc_types@) == self.requested_doc_types(),
    {
        let ghost all = self.all_doc_types();
        let mut doc_types: Vec<DocType> = Vec::new();
        let mut i: usize = 0;
        proof {
            assert(all.take(0) =~= Seq::<Seq<char>>::empty());
            assert(string_views(doc_types@) =~= Seq::<Seq<char>>::empty());
        }
        while i < self.doc_requests.len()
            invariant
                i <= self.doc_requests.len(),
                all == self.all_doc_types(),
                string_views(doc_types@) == distinct(all.take(i as int)),
            decreases self.doc_requests.len() - i,
        {
            let doc_type = &self.doc_requests[i].items_request.doc_type;
            proof {
                lemma_distinct_take_succ(all, i as int);
            }
            if !contains_string(&doc_types, doc_type) {
                let copy = doc_type.clone();
                proof {
                    doc_types@.lemma_push_map_commute(|string: String| string@, copy);
                }
                doc_types.push(copy);
            }
            i += 1;
        }
        proof {
            all.lemma_take_len();
        }
        doc_types
    }
}

impl<'a> ReaderAuthenticationKeyed<'a> {
    /// The data item of this value.
    pub open spec fn to_cbor(&self) -> Cbor {
        reader_authentication_cbor(self.session_transcript.to_cbor(), self.items_request.to_cbor())
    }

    /// The bytes that the verifier signs, if the request has an encoding.
    pub fn to_bytes(&self) -> (bytes: Option<Vec<u8>>)
        ensures
            match bytes {
                Some(bytes) => self.items_request.to_cbor().encodable() && bytes@
                    == reader_authentication_bytes(
                    self.session_transcript.to_cbor(),
                    self.items_request.to_cbor(),
                ),
                None => !self.items_request.to_cbor().encodable(),
            },
    {
        let items_request = match encode(&self.items_request.to_data_item()) {
            Some(bytes) => bytes,
            None => { return None; },
        };
        let mut items: Vec<DataItem> = Vec::new();
        items.push(DataItem::text("ReaderAuthentication"));
        items.push(self.session_transcript.to_data_item());
        items.push(DataItem::embedded(&items_request));
        assert(data_item_views(items@) =~= self.to_cbor()->Array_0);
        let item = DataItem::array(items);
        proof {
            self.session_transcript.lemma_encodable();
            reveal_with_fuel(Cbor::encodable, 3);
        }
        Some(encode_embedded(&item))
    }

    pub fn new(session_transcript: &'a SessionTranscript, items_request: &'a ItemsRequest) -> (r:
        Self)
        ensures
            r.session_transcript == session_transcript,
            r.items_request == items_request,
    {
        ReaderAuthenticationKeyed { session_transcript, items_request }
    }
}

impl DeviceRequest {
    /// Whether this request is `raw` with every request in it read as a
    /// table of tables; the signatures stay as they are.
    pub open spec fn is_merged_from(&self, raw: &DeviceRequest) -> bool {
        &&& self.version == raw.version
        &&& self.return_url == raw.return_url
        &&& self.doc_requests.len() == raw.doc_requests.len()
        &&& forall|i: int|
            0 <= i < self.doc_requests.len() ==> (#[trigger] self.doc_requests[i]).reader_auth
                == raw.doc_requests[i].reader_auth
                && self.doc_requests[i].items_request.is_merged_from(
                &raw.doc_requests[i].items_request,
            )
    }

    /// Reads every request in this one as a table of tables.
    pub fn merged(self) -> (merged: Self)
        ensures
            merged.is_merged_from(&self),
            merged.well_formed(),
    {
        let ghost raw = self.doc_requests@;
        let mut doc_requests: Vec<DocRequest> = Vec::new();
        for doc_request in it: self.doc_requests
            invariant
                it.seq() == raw,
                doc_requests.len() == it.index(),
                forall|i: int|
                    0 <= i < doc_requests.len() ==> (#[trigger] doc_requests[i]).reader_auth
                        == raw[i].reader_auth && doc_requests[i].items_request.is_merged_from(
                        &raw[i].items_request,
                    ) && doc_requests[i].items_request.well_formed(),
        {
            assert(doc_request == raw[it.index() as int]);
            doc_requests.push(
                DocRequest {
                    items_request: doc_request.items_request.merged(),
                    reader_auth: doc_request.reader_auth,
                },
            );
        }
        DeviceRequest { version: self.version, doc_requests, return_url: self.return_url }
    }

    /// Whether every request is a table of tables.
    pub open spec fn well_formed(&self) -> bool {
        forall|i: int|
            0 <= i < self.doc_requests.len() ==> (
            #[trigger] self.doc_requests[i]).items_request.well_formed()
    }

    /// Decides [`Self::well_formed`].
    pub fn is_well_formed(&self) -> (well_formed: bool)
        ensures
            well_formed == self.well_formed(),
    {
        let mut i: usize = 0;
        while i < self.doc_requests.len()
            invariant
                i <= self.doc_requests.len(),
                forall|k: int|
                    0 <= k < i ==> (#[trigger] self.doc_requests[k]).items_request.well_formed(),
            decreases self.doc_requests.len() - i,
        {
            if !self.doc_requests[i].items_request.is_well_formed() {
                return false;
            }
            i += 1;
        }
        true
    }

    /// All identifiers that the requests ask for, in order, with repeats.
    pub open spec fn all_identifiers(&self) -> Seq<IdentifierView> {
        self.doc_requests@.map_values(
            |doc_request: DocRequest| doc_request.items_request.identifiers(),
        ).flatten()
    }

    /// The identifiers that the requests ask for, each once, in the order in
    /// which they are first asked.
    pub open spec fn requested(&self) -> Seq<IdentifierView> {
        distinct(self.all_identifiers())
    }

    /// The credential types of the requests, in order, with repeats.
    pub open spec fn all_doc_types(&self) -> Seq<Seq<char>> {
        self.doc_requests@.map_values(|doc_request: DocRequest| doc_request.items_request.doc_type@)
    }

    /// The credential types that the requests ask of, each once, in the
    /// order in which they are first asked.
    pub open spec fn requested_doc_types(&self) -> Seq<Seq<char>> {
        distinct(self.all_doc_types())
    }
}

impl DocRequest {
    /// Whether `item` is a data item of this request with its entries in
    /// order: a table of the embedded request, whose bytes decode to a data
    /// item that reads as the request, and, where the request is signed,
    /// the signature.
    pub open spec fn laid_out_as(&self, item: Cbor) -> bool {
        &&& item matches Cbor::Table(entries)
        &&& entries.len() == if self.reader_auth is Some {
            2int
        } else {
            1int
        }
        &&& entries[0].0 == Cbor::Text("itemsRequest"@)
        &&& entries[0].1 matches Cbor::Tag(24, inner)
        &&& *inner matches Cbor::Bytes(bytes)
        &&& cbor_decoding(bytes) matches Some(decoded)
        &&& self.items_request.read_from(decoded)
        &&& self.reader_auth matches Some(reader_auth) ==> entries[1] == (
            Cbor::Text("readerAuth"@),
            reader_auth.to_cbor(),
        )
    }

    /// The request as a data item, if the request itself has an encoding.
    pub open spec fn to_cbor(&self) -> Cbor {
        Cbor::Table(
            seq![
                (
                    Cbor::Text("itemsRequest"@),
                    Cbor::embedded(cbor_encoding(self.items_request.to_cbor())),
                ),
            ] + match self.reader_auth {
                Some(reader_auth) => seq![(Cbor::Text("readerAuth"@), reader_auth.to_cbor())],
                None => Seq::empty(),
            },
        )
    }

    /// Builds [`Self::to_cbor`]; nothing for a request without an encoding.
    pub fn to_data_item(&self) -> (item: Option<DataItem>)
        ensures
            match item {
                Some(item) => item@ == self.to_cbor() && self.items_request.to_cbor().encodable(),
                None => !self.items_request.to_cbor().encodable(),
            },
    {
        let items_request = match encode(&self.items_request.to_data_item()) {
            Some(bytes) => bytes,
            None => { return None; },
        };
        let mut entries: Vec<(DataItem, DataItem)> = Vec::new();
        entries.push((DataItem::text("itemsRequest"), DataItem::embedded(&items_request)));
        match &self.reader_auth {
            Some(reader_auth) => {
                entries.push((DataItem::text("readerAuth"), reader_auth.to_data_item()));
            },
            None => {},
        }
        assert(entry_views(entries@) =~= self.to_cbor()->Table_0);
        Some(DataItem::table(entries))
    }

    /// The keys under which the entries of a request with its signature stand.
    pub open spec fn keys() -> Seq<Cbor> {
        seq![Cbor::Text("itemsRequest"@), Cbor::Text("readerAuth"@)]
    }

    /// Whether `item` reads as this request: it is a table, and what
    /// stands in it under the keys of a request with its signature, in whatever order and beside
    /// whatever else, is laid out as [`Self::laid_out_as`] says.
    pub open spec fn decoded_from(&self, item: Cbor) -> bool {
        item matches Cbor::Table(entries) && selected_entries(entries, Self::keys()) matches Some(
            selected,
        ) && self.laid_out_as(Cbor::Table(selected))
    }

    /// Reads a request from a data item: finds its entries by their keys,
    /// and passes over what stands under other keys. A table in which a
    /// key of a request with its signature stands twice is none.
    pub fn from_data_item(item: &DataItem) -> (request: Option<Self>)
        ensures
            match request {
                Some(request) => request.decoded_from(item@),
                None => forall|other: DocRequest| !other.decoded_from(item@),
            },
    {
        let entries = match item {
            DataItem::Table(entries) => entries,
            _ => { return None; },
        };
        proof {
            lemma_table_view(*entries);
        }
        let mut keys: Vec<DataItem> = Vec::new();
        keys.push(DataItem::text("itemsRequest"));
        keys.push(DataItem::text("readerAuth"));
        assert(data_item_views(keys@) =~= Self::keys());
        let selected = match select_entries(entries, &keys) {
            Some(selected) => selected,
            None => { return None; },
        };
        Self::from_ordered_item(&DataItem::table(selected))
    }

    /// Reads a request from a table of exactly its entries, in their
    /// order.
    fn from_ordered_item(item: &DataItem) -> (request: Option<Self>)
        ensures
            match request {
                Some(request) => request.laid_out_as(item@),
                None => forall|other: DocRequest| !other.laid_out_as(item@),
            },
    {
        let entries = match item {
            DataItem::Table(entries) => entries,
            _ => { return None; },
        };
        proof {
            lemma_table_view(*entries);
            reveal_with_fuel(crate::utils::cbor::value_view, 3);
        }
        let ghost views = entry_views(entries@);
        if entries.len() != 1 && entries.len() != 2 {
            return None;
        }
        proof {
            assert(views[0] == (entries[0].0@, entries[0].1@));
        }
        if !entries[0].0.is_text("itemsRequest") {
            return None;
        }
        let bytes = match &entries[0].1 {
            DataItem::Tag(tag, inner) => {
                if *tag != 24 {
                    return None;
                }
                match &**inner {
                    DataItem::Bytes(bytes) => bytes,
                    _ => { return None; },
                }
            },
            _ => { return None; },
        };
        let decoded = match decode(bytes.as_slice()) {
            Some(decoded) => decoded,
            None => { return None; },
        };
        let items_request = match ItemsRequest::from_data_item(&decoded) {
            Some(items_request) => items_request,
            None => { return None; },
        };
        let reader_auth = if entries.len() == 2 {
            proof {
                assert(views[1] == (entries[1].0@, entries[1].1@));
            }
            if !entries[1].0.is_text("readerAuth") {
                return None;
            }
            match CoseSign1::from_data_item(&entries[1].1) {
                Some(reader_auth) => Some(reader_auth),
                None => { return None; },
            }
        } else {
            None
        };
        Some(DocRequest { items_request, reader_auth })
    }
}

/// Whether `requests` are read off the data items `items`, one by one.
pub open spec fn doc_requests_decoded_from(requests: Seq<DocRequest>, items: Seq<Cbor>) -> bool {
    requests.len() == items.len() && forall|i: int|
        0 <= i < requests.len() ==> (#[trigger] requests[i]).decoded_from(items[i])
}

impl DeviceRequest {
    /// Whether `item` is a data item of this request with its entries in
    /// order: a table of the version, the array of the requests, each read
    /// as a request, and, where there is one, the address to send the user
    /// to afterwards.
    pub open spec fn laid_out_as(&self, item: Cbor) -> bool {
        &&& item matches Cbor::Table(entries)
        &&& entries.len() == if self.return_url is Some {
            3int
        } else {
            2int
        }
        &&& entries[0] == (Cbor::Text("version"@), Cbor::Text("1.0"@))
        &&& entries[1].0 == Cbor::Text("docRequests"@)
        &&& entries[1].1 matches Cbor::Array(items)
        &&& doc_requests_decoded_from(self.doc_requests@, items)
        &&& self.return_url matches Some(return_url) ==> entries[2] == (
            Cbor::Text("returnUrl"@),
            Cbor::Text(return_url@),
        )
    }

    /// The request as a data item, as a verifier writes it.
    pub open spec fn to_cbor(&self) -> Cbor {
        Cbor::Table(
            seq![
                (Cbor::Text("version"@), Cbor::Text("1.0"@)),
                (
                    Cbor::Text("docRequests"@),
                    Cbor::Array(
                        Seq::new(
                            self.doc_requests.len() as nat,
                            |i: int| self.doc_requests[i].to_cbor(),
                        ),
                    ),
                ),
            ] + match self.return_url {
                Some(return_url) => seq![(Cbor::Text("returnUrl"@), Cbor::Text(return_url@))],
                None => Seq::empty(),
            },
        )
    }

    /// Builds [`Self::to_cbor`]; nothing where one of the requests has no
    /// encoding.
    pub fn to_data_item(&self) -> (item: Option<DataItem>)
        ensures
            match item {
                Some(item) => item@ == self.to_cbor(),
                None => exists|i: int|
                    0 <= i < self.doc_requests.len() && !(
                    #[trigger] self.doc_requests[i]).items_request.to_cbor().encodable(),
            },
    {
        let mut items: Vec<DataItem> = Vec::new();
        let mut i: usize = 0;
        while i < self.doc_requests.len()
            invariant
                i <= self.doc_requests.len(),
                items.len() == i,
                forall|k: int| 0 <= k < i ==> (#[trigger] items[k])@ == self.doc_requests[k].to_cbor(),
            decreases self.doc_requests.len() - i,
        {
            match self.doc_requests[i].to_data_item() {
                Some(item) => {
                    items.push(item);
                },
                None => { return None; },
            }
            i += 1;
        }
        let mut entries: Vec<(DataItem, DataItem)> = Vec::new();
        entries.push((DataItem::text("version"), DataItem::text("1.0")));
        assert(data_item_views(items@) =~= self.to_cbor()->Table_0[1].1->Array_0);
        entries.push((DataItem::text("docRequests"), DataItem::array(items)));
        match &self.return_url {
            Some(return_url) => {
                entries.push((DataItem::text("returnUrl"), DataItem::text(return_url.as_str())));
            },
            None => {},
        }
        assert(entry_views(entries@) =~= self.to_cbor()->Table_0);
        Some(DataItem::table(entries))
    }

    /// The keys under which the entries of a request of a verifier stand.
    pub open spec fn keys() -> Seq<Cbor> {
        seq![Cbor::Text("version"@), Cbor::Text("docRequests"@), Cbor::Text("returnUrl"@)]
    }

    /// Whether `item` reads as this request: it is a table, and what
    /// stands in it under the keys of a request of a verifier, in whatever order and beside
    /// whatever else, is laid out as [`Self::laid_out_as`] says.
    pub open spec fn decoded_from(&self, item: Cbor) -> bool {
        item matches Cbor::Table(entries) && selected_entries(entries, Self::keys()) matches Some(
            selected,
        ) && self.laid_out_as(Cbor::Table(selected))
    }

    /// Reads a request from a data item: finds its entries by their keys,
    /// and passes over what stands under other keys. A table in which a
    /// key of a request of a verifier stands twice is none.
    pub fn from_data_item(item: &DataItem) -> (request: Option<Self>)
        ensures
            match request {
                Some(request) => request.decoded_from(item@),
                None => forall|other: DeviceRequest| !other.decoded_from(item@),
            },
    {
        let entries = match item {
            DataItem::Table(entries) => entries,
            _ => { return None; },
        };
        proof {
            lemma_table_view(*entries);
        }
        let mut keys: Vec<DataItem> = Vec::new();
        keys.push(DataItem::text("version"));
        keys.push(DataItem::text("docRequests"));
        keys.push(DataItem::text("returnUrl"));
        assert(data_item_views(keys@) =~= Self::keys());
        let selected = match select_entries(entries, &keys) {
            Some(selected) => selected,
            None => { return None; },
        };
        Self::from_ordered_item(&DataItem::table(selected))
    }

    /// Reads a request from a table of exactly its entries, in their
    /// order.
    fn from_ordered_item(item: &DataItem) -> (request: Option<Self>)
        ensures
            match request {
                Some(request) => request.laid_out_as(item@),
                None => forall|other: DeviceRequest| !other.laid_out_as(item@),
            },
    {
        let entries = match item {
            DataItem::Table(entries) => entries,
            _ => { return None; },
        };
        proof {
            lemma_table_view(*entries);
        }
        let ghost views = entry_views(entries@);
        if entries.len() != 2 && entries.len() != 3 {
            return None;
        }
        proof {
            assert(views[0] == (entries[0].0@, entries[0].1@));
            assert(views[1] == (entries[1].0@, entries[1].1@));
        }
        if !entries[0].0.is_text("version") || !entries[0].1.is_text("1.0")
            || !entries[1].0.is_text("docRequests") {
            return None;
        }
        let items = match &entries[1].1 {
            DataItem::Array(items) => items,
            _ => { return None; },
        };
        proof {
            lemma_array_view(*items);
        }
        let mut doc_requests: Vec<DocRequest> = Vec::new();
        let mut i: usize = 0;
        while i < items.len()
            invariant
                i <= items.len(),
                doc_requests.len() == i,
                views == entry_views(entries@),
                item@ == Cbor::Table(views),
                views[1].1 == Cbor::Array(data_item_views(items@)),
                forall|k: int|
                    0 <= k < i ==> (#[trigger] doc_requests[k]).decoded_from(items[k]@),
            decreases items.len() - i,
        {
            match DocRequest::from_data_item(&items[i]) {
                Some(doc_request) => {
                    doc_requests.push(doc_request);
                },
                None => {
                    assert forall|other: DeviceRequest| !other.laid_out_as(item@) by {
                        if other.laid_out_as(item@) {
                            assert(other.doc_requests[i as int].decoded_from(
                                data_item_views(items@)[i as int],
                            ));
                        }
                    }
                    return None;
                },
            }
            i += 1;
        }
        let return_url = if entries.len() == 3 {
            proof {
                assert(views[2] == (entries[2].0@, entries[2].1@));
            }
            if !entries[2].0.is_text("returnUrl") {
                return None;
            }
            match &entries[2].1 {
                DataItem::Text(return_url) => Some(return_url.clone()),
                _ => { return None; },
            }
        } else {
            None
        };
        let request = DeviceRequest { version: DeviceRequestVersion::V1_0, doc_requests, return_url };
        proof {
            assert forall|k: int| 0 <= k < request.doc_requests.len() implies (
            #[trigger] request.doc_requests[k]).decoded_from(data_item_views(items@)[k]) by {}
        }
        Some(request)
    }
}

/// What checking the signature under one request comes to: the signer's
/// certificate, or the reason why the signature is not accepted.
///
/// The bytes that should be signed must have an encoding; the signature
/// must name its signer; the signer's certificate must lead to a trust
/// anchor at the time in question and be one of a verifier; and the
/// signature must fit those bytes and the certificate's key. The first of
/// these that fails gives the error.
pub open spec fn reader_auth_outcome(
    reader_auth: &CoseSign1,
    items_request: Cbor,
    transcript: Cbor,
    time: u64,
    trust_anchors: Seq<Seq<u8>>,
) -> Result<Seq<u8>, Error> {
    if !items_request.encodable() {
        Err(Error::Cbor(CborError::Encoding))
    } else {
        match reader_auth.signer() {
            Err(error) => Err(Error::Cose(error)),
            Ok(certificate) => if !certificate_accepted(
                certificate,
                trust_anchors,
                time,
                EXTENDED_KEY_USAGE_READER_AUTH@,
            ) {
                Err(Error::Cose(CoseError::Certificate(CertificateError::Verification)))
            } else if !signature_accepted(
                certificate,
                signature_structure(
                    reader_auth.protected@,
                    reader_authentication_bytes(transcript, items_request),
                ),
                reader_auth.signature@,
            ) {
                Err(Error::Cose(CoseError::EcdsaSignatureVerificationFailed))
            } else {
                Ok(certificate)
            },
        }
    }
}

impl DocRequest {
    /// What checking this request's signature comes to, if it is signed.
    pub open spec fn outcome(
        &self,
        transcript: Cbor,
        time: u64,
        trust_anchors: Seq<Seq<u8>>,
    ) -> Option<Result<Seq<u8>, Error>> {
        match self.reader_auth {
            Some(reader_auth) => Some(
                reader_auth_outcome(
                    &reader_auth,
                    self.items_request.to_cbor(),
                    transcript,
                    time,
                    trust_anchors,
                ),
            ),
            None => None,
        }
    }

    /// Checks the verifier's signature under this request, if there is one,
    /// and gives the certificate that it was made with. `time` is in seconds
    /// since 1970; the trust anchors are certificates in their encoded form.
    pub fn verify(
        &self,
        session_transcript: &SessionTranscript,
        time: u64,
        trust_anchors: &[Vec<u8>],
    ) -> (verified: Result<Option<Certificate>, Error>)
        ensures
            match verified {
                Ok(None) => self.reader_auth is None,
                Ok(Some(certificate)) => self.outcome(
                    session_transcript.to_cbor(),
                    time,
                    byte_views(trust_anchors@),
                ) == Some(Ok::<Seq<u8>, Error>(certificate@)),
                Err(error) => self.outcome(
                    session_transcript.to_cbor(),
                    time,
                    byte_views(trust_anchors@),
                ) == Some(Err::<Seq<u8>, Error>(error)),
            },
    {
        let reader_auth = match &self.reader_auth {
            None => { return Ok(None); },
            Some(reader_auth) => reader_auth,
        };
        let reader_auth_payload = ReaderAuthenticationKeyed::new(
            session_transcript,
            &self.items_request,
        );
        let payload = match reader_auth_payload.to_bytes() {
            Some(payload) => payload,
            None => { return Err(Error::Cbor(CborError::Encoding)); },
        };
        let certificate = match reader_auth.signing_cert() {
            Ok(certificate) => certificate,
            Err(error) => { return Err(Error::Cose(error)); },
        };
        if !certificate_verifies(
            certificate.as_bytes(),
            trust_anchors,
            time,
            &EXTENDED_KEY_USAGE_READER_AUTH,
        ) {
            return Err(Error::Cose(CoseError::Certificate(CertificateError::Verification)));
        }
        let signed = signature_structure_data(&reader_auth.protected, &payload);
        if !signature_verifies(certificate.as_bytes(), &signed, &reader_auth.signature) {
            return Err(Error::Cose(CoseError::EcdsaSignatureVerificationFailed));
        }
        Ok(Some(certificate))
    }
}

} // verus!
