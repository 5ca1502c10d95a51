//! Credentials as their issuer signed them.

use crate::identifiers::IdentifierView;
use vstd::prelude::*;

verus! {

/// The type of a credential.
pub type DocType = String;

/// A group of attributes inside a credential.
pub type NameSpace = String;

/// The name of an attribute inside a namespace.
pub type DataElementIdentifier = String;

/// One attribute as the issuer signed it. The value is kept in its encoded
/// form, since nothing in this library looks inside it.
#[derive(Debug)]
pub struct IssuerSignedItem {
    pub digest_id: u64,
    pub random: Vec<u8>,
    pub element_identifier: DataElementIdentifier,
    pub element_value: Vec<u8>,
}

/// The mathematical value of an [`IssuerSignedItem`].
pub struct ItemView {
    pub digest_id: u64,
    pub random: Seq<u8>,
    pub element_identifier: Seq<char>,
    pub element_value: Seq<u8>,
}

impl View for IssuerSignedItem {
    type V = ItemView;

    open spec fn view(&self) -> ItemView {
        ItemView {
            digest_id: self.digest_id,
            random: self.random@,
            element_identifier: self.element_identifier@,
            element_value: self.element_value@,
        }
    }
}

impl Clone for IssuerSignedItem {
    fn clone(&self) -> (copy: Self)
        ensures
            copy@ == self@,
    {
        IssuerSignedItem {
            digest_id: self.digest_id,
            random: self.random.clone(),
            element_identifier: self.element_identifier.clone(),
            element_value: self.element_value.clone(),
        }
    }
}

/// The attributes of one namespace, in the order in which the issuer listed
/// them.
pub type Attributes = Vec<IssuerSignedItem>;

/// The namespaces of a credential with their attributes, in the issuer's
/// order.
pub type IssuerNameSpaces = Vec<(NameSpace, Attributes)>;

/// The values of a sequence of attributes.
pub open spec fn item_views(items: Seq<IssuerSignedItem>) -> Seq<ItemView> {
    items.map_values(|item: IssuerSignedItem| item@)
}

/// The mathematical value of namespaces with their attributes.
pub type NameSpacesView = Seq<(Seq<char>, Seq<ItemView>)>;

/// The values of namespaces with their attributes.
pub open spec fn name_space_views(name_spaces: Seq<(NameSpace, Attributes)>) -> NameSpacesView {
    name_spaces.map_values(|entry: (NameSpace, Attributes)| (entry.0@, item_views(entry.1@)))
}

/// Whether no namespace stands twice.
pub open spec fn distinct_name_spaces(name_spaces: NameSpacesView) -> bool {
    forall|i: int, j: int|
        0 <= i < j < name_spaces.len() ==> (#[trigger] name_spaces[i]).0 != (
        #[trigger] name_spaces[j]).0
}

/// What the issuer signed: the attributes, and the signature over their
/// digests in its encoded form.
#[derive(Debug)]
pub struct IssuerSigned {
    pub name_spaces: Option<IssuerNameSpaces>,
    pub issuer_auth: Vec<u8>,
}

/// The mathematical value of an [`IssuerSigned`].
pub struct IssuerSignedView {
    pub name_spaces: Option<NameSpacesView>,
    pub issuer_auth: Seq<u8>,
}

impl View for IssuerSigned {
    type V = IssuerSignedView;

    open spec fn view(&self) -> IssuerSignedView {
        IssuerSignedView {
            name_spaces: match self.name_spaces {
                Some(name_spaces) => Some(name_space_views(name_spaces@)),
                None => None,
            },
            issuer_auth: self.issuer_auth@,
        }
    }
}

impl IssuerSignedView {
    /// Whether the namespaces are a table: none stands twice.
    pub open spec fn well_formed(self) -> bool {
        match self.name_spaces {
            Some(name_spaces) => distinct_name_spaces(name_spaces),
            None => true,
        }
    }

    /// Whether the attribute `attribute` of `name_space` is among the signed
    /// attributes.
    pub open spec fn holds(self, name_space: Seq<char>, attribute: Seq<char>) -> bool {
        match self.name_spaces {
            Some(name_spaces) => exists|i: int, j: int|
                0 <= i < name_spaces.len() && 0 <= j < name_spaces[i].1.len() && name_spaces[i].0
                    == name_space && #[trigger] name_spaces[i].1[j].element_identifier == attribute,
            None => false,
        }
    }

    /// Whether `identifier` names a signed attribute of a credential of type
    /// `doc_type`.
    pub open spec fn offers(self, doc_type: Seq<char>, identifier: IdentifierView) -> bool {
        identifier.0 == doc_type && self.holds(identifier.1, identifier.2)
    }
}

/// A name and a value, for display.
#[derive(Debug)]
pub struct Entry {
    pub name: DataElementIdentifier,
    pub value: Vec<u8>,
}

impl View for Entry {
    type V = (Seq<char>, Seq<u8>);

    open spec fn view(&self) -> (Seq<char>, Seq<u8>) {
        (self.name@, self.value@)
    }
}

impl IssuerSigned {
    /// Decides [`IssuerSignedView::well_formed`].
    pub fn is_well_formed(&self) -> (well_formed: bool)
        ensures
            well_formed == self@.well_formed(),
    {
        match &self.name_spaces {
            None => true,
            Some(name_spaces) => {
                let ghost views = name_space_views(name_spaces@);
                let mut j: usize = 0;
                while j < name_spaces.len()
                    invariant
                        j <= name_spaces.len(),
                        views == name_space_views(name_spaces@),
                        self@.name_spaces == Some(views),
                        forall|a: int, b: int|
                            0 <= a < b < j ==> (#[trigger] views[a]).0 != (#[trigger] views[b]).0,
                    decreases name_spaces.len() - j,
                {
                    let mut i: usize = 0;
                    while i < j
                        invariant
                            i <= j,
                            j < name_spaces.len(),
                            views == name_space_views(name_spaces@),
                            self@.name_spaces == Some(views),
                            forall|a: int| 0 <= a < i ==> (#[trigger] views[a]).0 != views[j as int].0,
                        decreases j - i,
                    {
                        assert(views[i as int].0 == name_spaces[i as int].0@);
                        assert(views[j as int].0 == name_spaces[j as int].0@);
                        if name_spaces[i].0 == name_spaces[j].0 {
                            return false;
                        }
                        i += 1;
                    }
                    j += 1;
                }
                true
            },
        }
    }
}

impl IssuerSignedItem {
    /// The name and the value of this attribute.
    pub fn to_entry(&self) -> (entry: Entry)
        ensures
            entry@ == (self@.element_identifier, self@.element_value),
    {
        Entry { name: self.element_identifier.clone(), value: self.element_value.clone() }
    }
}

} // verus!
