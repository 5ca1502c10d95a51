//! CBOR values, and their encoding by `ciborium`.

use crate::utils::cbor::DataItem::Fraction;
use ciborium::value::Value::{Array, Bool, Bytes, Float, Null, Tag, Text};
use ciborium::value::{Integer, Value};
use vstd::prelude::*;

verus! {

/// A CBOR data item, as a tree.
#[derive(Debug)]
pub enum DataItem {
    /// An integer. Only integers from -2^64 to 2^64 - 1 have an encoding.
    Integer(i128),
    /// A number with a fraction, kept as the 64 bits of its double
    /// precision form. This library passes such numbers on unread.
    Fraction(u64),
    Bytes(Vec<u8>),
    Text(String),
    Bool(bool),
    Null,
    Tag(u64, Box<DataItem>),
    Array(Vec<DataItem>),
    Table(Vec<(DataItem, DataItem)>),
}

/// The mathematical value of a [`DataItem`].
pub enum Cbor {
    Integer(i128),
    Fraction(u64),
    Bytes(Seq<u8>),
    Text(Seq<char>),
    Bool(bool),
    Null,
    Tag(u64, Box<Cbor>),
    Array(Seq<Cbor>),
    Table(Seq<(Cbor, Cbor)>),
}

/// The mathematical value of `value`.
pub open spec fn value_view(value: &DataItem) -> Cbor
    decreases value,
{
    match value {
            DataItem::Integer(number) => Cbor::Integer(*number),
            DataItem::Fraction(bits) => Cbor::Fraction(*bits),
            DataItem::Bytes(bytes) => Cbor::Bytes(bytes@),
                DataItem::Text(text) => Cbor::Text(text@),
            DataItem::Bool(flag) => Cbor::Bool(*flag),
            DataItem::Null => Cbor::Null,
            DataItem::Tag(tag, inner) => Cbor::Tag(*tag, Box::new(value_view(inner))),
            DataItem::Array(items) => Cbor::Array(
                Seq::new(
                    items.len() as nat,
                    |i: int|
                        if 0 <= i < items.len() {
                            value_view(&items[i])
                        } else {
                            Cbor::Null
                        },
                ),
            ),
            DataItem::Table(entries) => Cbor::Table(
                Seq::new(
                    entries.len() as nat,
                    |i: int|
                        if 0 <= i < entries.len() {
                            (value_view(&entries[i].0), value_view(&entries[i].1))
                        } else {
                            (Cbor::Null, Cbor::Null)
                        },
                ),
            ),
    }
}

impl View for DataItem {
    type V = Cbor;

    open spec fn view(&self) -> Cbor {
        value_view(self)
    }
}

impl Cbor {
    /// Whether every integer inside lies between -2^64 and 2^64 - 1, the
    /// integers that CBOR can encode.
    pub open spec fn encodable(self) -> bool
        decreases self,
    {
        match self {
            Cbor::Integer(number) => -0x1_0000_0000_0000_0000 <= number < 0x1_0000_0000_0000_0000,
            Cbor::Tag(_, inner) => inner.encodable(),
            Cbor::Array(items) => forall|i: int|
                0 <= i < items.len() ==> (#[trigger] items[i]).encodable(),
            Cbor::Table(entries) => forall|i: int|
                0 <= i < entries.len() ==> (#[trigger] entries[i]).0.encodable()
                    && entries[i].1.encodable(),
            _ => true,
        }
    }
}

/// `ciborium::value::Value`, as a type of which nothing is known but what
/// the functions below say.
#[verifier::external_type_specification]
#[verifier::external_body]
pub struct ExOutsideValue(ciborium::value::Value);

/// The data item that a value of `ciborium` holds, if it is one of the
/// kinds that [`DataItem`] has.
pub uninterp spec fn outside_value(value: ciborium::value::Value) -> Option<Cbor>;

/// The bytes that `ciborium` writes for a data item.
pub uninterp spec fn cbor_encoding(value: Cbor) -> Seq<u8>;

/// The data item that `ciborium` reads from the front of `bytes`, if it
/// accepts them and [`DataItem`] can hold what it read.
pub uninterp spec fn cbor_decoding(bytes: Seq<u8>) -> Option<Cbor>;

/// `ciborium::de::from_reader` on the nine bytes of the double precision
/// form of a number with a fraction: the marker of that form and the 64
/// bits. It reads them into the number with those bits.
#[verifier::external_body]
fn fraction_to_outside(bits: &u64) -> (outside: Option<ciborium::value::Value>)
    ensures
        outside is Some,
        outside matches Some(held) ==> outside_value(held) == Some(Cbor::Fraction(*bits)),
{
    ciborium::de::from_reader(&[&[0xfb][..], &bits.to_be_bytes()].concat()[..]).ok()
}

/// Builds the value of `ciborium` that holds the same data item, variant by
/// variant. `Integer::try_from` refuses the integers that have no encoding,
/// and only those.
#[verifier::external_body]
fn to_outside(value: &DataItem) -> (outside: Option<ciborium::value::Value>)
    ensures
        outside is Some <==> value@.encodable(),
        outside matches Some(held) ==> outside_value(held) == Some(value@),
{
    Some(match value {
        DataItem::Integer(number) => Value::Integer(Integer::try_from(*number).ok()?),
        Fraction(bits) => fraction_to_outside(bits)?,
        DataItem::Bytes(bytes) => Bytes(bytes.clone()),
        DataItem::Text(text) => Text(text.clone()),
        DataItem::Bool(flag) => Bool(*flag),
        DataItem::Null => Null,
        DataItem::Tag(tag, inner) => Tag(*tag, to_outside(inner)?.into()),
        DataItem::Array(items) => Array(Option::from_iter(items.iter().map(to_outside))?),
        DataItem::Table(entries) => Value::Map(
            Option::from_iter(entries.iter().map(|e| to_outside(&e.0).zip(to_outside(&e.1))))?,
        ),
    })
}

/// Reads off the data item that a value of `ciborium` holds, variant by
/// variant; of a number with a fraction its 64 bits, by `to_bits`. There
/// is none for a kind of value that `ciborium` may come to have later.
#[verifier::external_body]
fn from_outside(outside: &ciborium::value::Value) -> (value: Option<DataItem>)
    ensures
        match value {
            Some(read) => outside_value(*outside) == Some(read@),
            None => outside_value(*outside) is None,
        },
{
    Some(match outside {
        Value::Integer(number) => DataItem::Integer(i128::from(*number)),
        Float(number) => Fraction(number.to_bits()),
        Bytes(bytes) => DataItem::Bytes(bytes.clone()),
        Text(text) => DataItem::Text(text.clone()),
        Bool(flag) => DataItem::Bool(*flag),
        Null => DataItem::Null,
        Tag(tag, inner) => DataItem::Tag(*tag, from_outside(inner)?.into()),
        Array(items) => DataItem::Array(Option::from_iter(items.iter().map(from_outside))?),
        Value::Map(entries) => DataItem::Table(
            Option::from_iter(entries.iter().map(|e| from_outside(&e.0).zip(from_outside(&e.1))))?,
        ),
        _ => None?,
    })
}

/// `ciborium::into_writer` into a vector: the encoding of the data item.
/// Writing a `ciborium` value into a vector has no way to fail.
#[verifier::external_body]
fn write_outside(outside: &ciborium::value::Value) -> (bytes: Vec<u8>)
    ensures
        outside_value(*outside) matches Some(item) ==> bytes@ == cbor_encoding(item),
{
    let mut bytes = Vec::new();
    let _ = ciborium::ser::into_writer(outside, &mut bytes);
    bytes
}

/// `ciborium::from_reader` on a slice: the data item at the front of the
/// bytes, or nothing where `ciborium` reports an error.
#[verifier::external_body]
fn read_outside(bytes: &[u8]) -> (outside: Option<ciborium::value::Value>)
    ensures
        match outside {
            Some(held) => cbor_decoding(bytes@) == outside_value(held),
            None => cbor_decoding(bytes@) is None,
        },
{
    ciborium::de::from_reader(bytes).ok()
}

/// The values of a sequence of data items.
pub open spec fn data_item_views(items: Seq<DataItem>) -> Seq<Cbor> {
    Seq::new(items.len(), |i: int| items[i]@)
}

/// The values of a sequence of pairs of data items.
pub open spec fn entry_views(entries: Seq<(DataItem, DataItem)>) -> Seq<(Cbor, Cbor)> {
    Seq::new(entries.len(), |i: int| (entries[i].0@, entries[i].1@))
}

/// The value of an array is the array of the values of its items.
pub proof fn lemma_array_view(items: Vec<DataItem>)
    ensures
        DataItem::Array(items)@ == Cbor::Array(data_item_views(items@)),
{
    assert(value_view(&DataItem::Array(items))->Array_0 =~= data_item_views(items@));
}

/// The value of a table is the table of the values of its entries.
pub proof fn lemma_table_view(entries: Vec<(DataItem, DataItem)>)
    ensures
        DataItem::Table(entries)@ == Cbor::Table(entry_views(entries@)),
{
    assert(value_view(&DataItem::Table(entries))->Table_0 =~= entry_views(entries@));
}

impl Cbor {
    /// A data item wrapped the way CBOR embeds one encoding in another: a
    /// byte string under tag 24.
    pub open spec fn embedded(encoding: Seq<u8>) -> Cbor {
        Cbor::Tag(24, Box::new(Cbor::Bytes(encoding)))
    }
}

impl DataItem {
    /// The text item that holds `text`.
    pub fn text(text: &str) -> (item: DataItem)
        ensures
            item@ == Cbor::Text(text@),
    {
        DataItem::Text(text.to_owned())
    }

    /// The byte string that holds `bytes`.
    pub fn bytes(bytes: &Vec<u8>) -> (item: DataItem)
        ensures
            item@ == Cbor::Bytes(bytes@),
    {
        DataItem::Bytes(bytes.clone())
    }

    /// The array of `items`.
    pub fn array(items: Vec<DataItem>) -> (item: DataItem)
        ensures
            item@ == Cbor::Array(data_item_views(items@)),
    {
        proof {
            lemma_array_view(items);
        }
        DataItem::Array(items)
    }

    /// The table of `entries`.
    pub fn table(entries: Vec<(DataItem, DataItem)>) -> (item: DataItem)
        ensures
            item@ == Cbor::Table(entry_views(entries@)),
    {
        proof {
            lemma_table_view(entries);
        }
        DataItem::Table(entries)
    }

    /// A copy with the same value.
    pub fn duplicate(&self) -> (copy: DataItem)
        ensures
            copy@ == self@,
        decreases self,
    {
        match self {
            DataItem::Integer(number) => DataItem::Integer(*number),
            DataItem::Fraction(bits) => DataItem::Fraction(*bits),
            DataItem::Bytes(bytes) => DataItem::Bytes(bytes.clone()),
            DataItem::Text(text) => DataItem::Text(text.clone()),
            DataItem::Bool(flag) => DataItem::Bool(*flag),
            DataItem::Null => DataItem::Null,
            DataItem::Tag(tag, inner) => {
                let copy = inner.duplicate();
                DataItem::Tag(*tag, Box::new(copy))
            },
            DataItem::Array(items) => {
                let mut copies: Vec<DataItem> = Vec::new();
                let mut i: usize = 0;
                while i < items.len()
                    invariant
                        i <= items.len(),
                        copies.len() == i,
                        decreases_to!(self => items),
                        forall|k: int| 0 <= k < i ==> copies[k]@ == items[k]@,
                    decreases items.len() - i,
                {
                    proof {
                        assert(decreases_to!(self => items));
                        assert(decreases_to!(items => items[i as int]));
                        assert(decreases_to!(self => items[i as int]));
                    }
                    let copy = items[i].duplicate();
                    copies.push(copy);
                    i += 1;
                }
                proof {
                    lemma_array_view(*items);
                    assert(data_item_views(copies@) =~= data_item_views(items@));
                    assert(*self == DataItem::Array(*items));
                }
                DataItem::array(copies)
            },
            DataItem::Table(entries) => {
                let mut copies: Vec<(DataItem, DataItem)> = Vec::new();
                let mut i: usize = 0;
                while i < entries.len()
                    invariant
                        i <= entries.len(),
                        copies.len() == i,
                        decreases_to!(self => entries),
                        forall|k: int|
                            0 <= k < i ==> copies[k].0@ == entries[k].0@ && copies[k].1@
                                == entries[k].1@,
                    decreases entries.len() - i,
                {
                    proof {
                        assert(decreases_to!(self => entries));
                        assert(decreases_to!(entries => entries[i as int]));
                        assert(decreases_to!(entries[i as int] => entries[i as int].0));
                        assert(decreases_to!(entries[i as int] => entries[i as int].1));
                    }
                    let key = entries[i].0.duplicate();
                    let value = entries[i].1.duplicate();
                    copies.push((key, value));
                    i += 1;
                }
                proof {
                    lemma_table_view(*entries);
                    assert(entry_views(copies@) =~= entry_views(entries@));
                    assert(*self == DataItem::Table(*entries));
                }
                DataItem::table(copies)
            },
        }
    }

    /// Whether this item is the integer `number`.
    pub fn is_integer(&self, number: i128) -> (same: bool)
        ensures
            same == (self@ == Cbor::Integer(number)),
    {
        match self {
            DataItem::Integer(held) => *held == number,
            _ => false,
        }
    }

    /// Whether this item is the text `text`.
    pub fn is_text(&self, text: &str) -> (same: bool)
        ensures
            same == (self@ == Cbor::Text(text@)),
    {
        match self {
            DataItem::Text(held) => *held == text.to_owned(),
            _ => false,
        }
    }

    /// `encoding` as a byte string under tag 24.
    pub fn embedded(encoding: &Vec<u8>) -> (item: DataItem)
        ensures
            item@ == Cbor::embedded(encoding@),
    {
        proof {
            reveal_with_fuel(value_view, 2);
        }
        DataItem::Tag(24, Box::new(DataItem::Bytes(encoding.clone())))
    }
}

/// The test whether an entry of a table stands under `key`.
pub open spec fn is_under(key: Cbor) -> spec_fn((Cbor, Cbor)) -> bool {
    |entry: (Cbor, Cbor)| entry.0 == key
}

/// The entries of a table that stand under `key`, in their order.
pub open spec fn entries_under(entries: Seq<(Cbor, Cbor)>, key: Cbor) -> Seq<(Cbor, Cbor)> {
    entries.filter(is_under(key))
}

/// The entries of a table that stand under one of `keys`, in the order of
/// `keys`, wherever they stand in the table; what stands under another key
/// is passed over. Nothing where one of `keys` stands twice in the table.
pub open spec fn selected_entries(entries: Seq<(Cbor, Cbor)>, keys: Seq<Cbor>) -> Option<
    Seq<(Cbor, Cbor)>,
>
    decreases keys.len(),
{
    if keys.len() == 0 {
        Some(Seq::empty())
    } else {
        match selected_entries(entries, keys.drop_last()) {
            None => None,
            Some(before) => {
                let found = entries_under(entries, keys.last());
                if found.len() > 1 {
                    None
                } else {
                    Some(before + found)
                }
            },
        }
    }
}

/// Whether a data item is a key that this library looks entries up by: a
/// text or an integer.
pub open spec fn is_key(item: Cbor) -> bool {
    item is Text || item is Integer
}

/// Whether `item` is the key `key`.
pub fn same_key(item: &DataItem, key: &DataItem) -> (same: bool)
    requires
        is_key(key@),
    ensures
        same == (item@ == key@),
{
    match key {
        DataItem::Text(text) => item.is_text(text.as_str()),
        DataItem::Integer(number) => item.is_integer(*number),
        _ => false,
    }
}

/// Computes [`entries_under`].
pub fn find_entries(entries: &Vec<(DataItem, DataItem)>, key: &DataItem) -> (found: Vec<
    (DataItem, DataItem),
>)
    requires
        is_key(key@),
    ensures
        entry_views(found@) == entries_under(entry_views(entries@), key@),
{
    let ghost views = entry_views(entries@);
    let mut found: Vec<(DataItem, DataItem)> = Vec::new();
    let mut i: usize = 0;
    proof {
        reveal(Seq::filter);
        assert(views.take(0).filter(is_under(key@)) =~= Seq::<(Cbor, Cbor)>::empty());
        assert(entry_views(found@) =~= Seq::<(Cbor, Cbor)>::empty());
    }
    while i < entries.len()
        invariant
            i <= entries.len(),
            views == entry_views(entries@),
            is_key(key@),
            entry_views(found@) == views.take(i as int).filter(is_under(key@)),
        decreases entries.len() - i,
    {
        proof {
            views.lemma_take_succ_push(i as int);
            views.take(i as int).lemma_filter_push(views[i as int], is_under(key@));
        }
        if same_key(&entries[i].0, key) {
            let ghost before = entry_views(found@);
            found.push((entries[i].0.duplicate(), entries[i].1.duplicate()));
            assert(entry_views(found@) =~= before.push(views[i as int]));
        }
        i += 1;
    }
    proof {
        views.lemma_take_len();
        assert(views.take(views.len() as int) =~= views);
    }
    found
}

/// Computes [`selected_entries`].
pub fn select_entries(entries: &Vec<(DataItem, DataItem)>, keys: &Vec<DataItem>) -> (selected:
    Option<Vec<(DataItem, DataItem)>>)
    requires
        forall|k: int| 0 <= k < keys.len() ==> is_key(#[trigger] keys[k]@),
    ensures
        match selected {
            Some(selected) => selected_entries(entry_views(entries@), data_item_views(keys@))
                == Some(entry_views(selected@)),
            None => selected_entries(entry_views(entries@), data_item_views(keys@)) is None,
        },
{
    let ghost views = entry_views(entries@);
    let ghost names = data_item_views(keys@);
    let mut selected: Vec<(DataItem, DataItem)> = Vec::new();
    let mut k: usize = 0;
    proof {
        assert(entry_views(selected@) =~= Seq::<(Cbor, Cbor)>::empty());
    }
    while k < keys.len()
        invariant
            k <= keys.len(),
            views == entry_views(entries@),
            names == data_item_views(keys@),
            forall|n: int| 0 <= n < keys.len() ==> is_key(#[trigger] keys[n]@),
            selected_entries(views, names.take(k as int)) == Some(entry_views(selected@)),
        decreases keys.len() - k,
    {
        proof {
            assert(names.take(k + 1).drop_last() =~= names.take(k as int));
            assert(names.take(k + 1).last() == keys[k as int]@);
        }
        let mut found = find_entries(entries, &keys[k]);
        if found.len() > 1 {
            proof {
                lemma_selected_none(views, names, k + 1);
            }
            return None;
        }
        let ghost before = entry_views(selected@);
        let ghost under = entry_views(found@);
        selected.append(&mut found);
        assert(entry_views(selected@) =~= before + under);
        k += 1;
    }
    proof {
        assert(names.take(names.len() as int) =~= names);
    }
    Some(selected)
}

/// The table of the entries of `item` that stand under one of `keys`, in
/// the order of `keys`. Nothing where `item` is no table or one of `keys`
/// stands twice in it.
pub open spec fn ordered_table(item: Cbor, keys: Seq<Cbor>) -> Option<Cbor> {
    match item {
        Cbor::Table(entries) => match selected_entries(entries, keys) {
            Some(selected) => Some(Cbor::Table(selected)),
            None => None,
        },
        _ => None,
    }
}

/// Computes [`ordered_table`].
pub fn order_table(item: &DataItem, keys: &Vec<DataItem>) -> (ordered: Option<DataItem>)
    requires
        forall|k: int| 0 <= k < keys.len() ==> is_key(#[trigger] keys[k]@),
    ensures
        match ordered {
            Some(ordered) => ordered_table(item@, data_item_views(keys@)) == Some(ordered@),
            None => ordered_table(item@, data_item_views(keys@)) is None,
        },
{
    let entries = match item {
        DataItem::Table(entries) => entries,
        _ => { return None; },
    };
    proof {
        lemma_table_view(*entries);
    }
    match select_entries(entries, keys) {
        Some(selected) => Some(DataItem::table(selected)),
        None => None,
    }
}

/// Where there is nothing to select under the first keys, there is
/// nothing to select under all of them.
pub proof fn lemma_selected_none(entries: Seq<(Cbor, Cbor)>, keys: Seq<Cbor>, n: int)
    requires
        0 <= n <= keys.len(),
        selected_entries(entries, keys.take(n)) is None,
    ensures
        selected_entries(entries, keys) is None,
    decreases keys.len() - n,
{
    if n < keys.len() {
        assert(keys.take(n + 1).drop_last() =~= keys.take(n));
        lemma_selected_none(entries, keys, n + 1);
    } else {
        assert(keys.take(n) =~= keys);
    }
}

/// Encodes a data item. Items that hold an integer outside the range of CBOR
/// have no encoding.
pub fn encode(value: &DataItem) -> (bytes: Option<Vec<u8>>)
    ensures
        match bytes {
            Some(bytes) => value@.encodable() && bytes@ == cbor_encoding(value@),
            None => !value@.encodable(),
        },
{
    match to_outside(value) {
        Some(outside) => Some(write_outside(&outside)),
        None => None,
    }
}

/// Encodes a data item that is known to have an encoding.
pub fn encode_total(item: &DataItem) -> (bytes: Vec<u8>)
    requires
        item@.encodable(),
    ensures
        bytes@ == cbor_encoding(item@),
{
    match encode(item) {
        Some(bytes) => bytes,
        None => Vec::new(),
    }
}

/// Encodes a data item, embeds the encoding and encodes that once more.
pub fn encode_embedded(item: &DataItem) -> (bytes: Vec<u8>)
    requires
        item@.encodable(),
    ensures
        bytes@ == cbor_encoding(Cbor::embedded(cbor_encoding(item@))),
{
    let inner = encode_total(item);
    let outer = DataItem::embedded(&inner);
    proof {
        reveal_with_fuel(Cbor::encodable, 2);
    }
    encode_total(&outer)
}

/// Decodes the data item at the front of `bytes`.
pub fn decode(bytes: &[u8]) -> (value: Option<DataItem>)
    ensures
        match value {
            Some(value) => cbor_decoding(bytes@) == Some(value@),
            None => cbor_decoding(bytes@) is None,
        },
{
    match read_outside(bytes) {
        Some(outside) => from_outside(&outside),
        None => None,
    }
}

} // verus!
