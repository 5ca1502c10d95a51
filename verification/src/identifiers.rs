//! Identifiers of single attributes inside a credential.

use vstd::prelude::*;

verus! {

/// The mathematical value of an [`AttributeIdentifier`]: credential type,
/// namespace and attribute name, in that order.
pub type IdentifierView = (Seq<char>, Seq<char>, Seq<char>);

/// The atomic unit of matching: one attribute of one namespace of one
/// credential type.
#[derive(Debug, PartialEq, Eq, Hash)]
pub struct AttributeIdentifier {
    pub doc_type: String,
    pub namespace: String,
    pub attribute: String,
}

impl View for AttributeIdentifier {
    type V = IdentifierView;

    open spec fn view(&self) -> IdentifierView {
        (self.doc_type@, self.namespace@, self.attribute@)
    }
}

impl Clone for AttributeIdentifier {
    fn clone(&self) -> (copy: Self)
        ensures
            copy == *self,
    {
        AttributeIdentifier {
            doc_type: self.doc_type.clone(),
            namespace: self.namespace.clone(),
            attribute: self.attribute.clone(),
        }
    }
}

/// The values of a sequence of identifiers.
pub open spec fn identifier_views(identifiers: Seq<AttributeIdentifier>) -> Seq<IdentifierView> {
    identifiers.map_values(|identifier: AttributeIdentifier| identifier@)
}

} // verus!
