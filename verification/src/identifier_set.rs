//! Insertion-ordered sets of attribute identifiers.
//!
//! The sets are `indexmap::IndexSet`s. Verus does not look inside them: what
//! a set holds is named by [`identifier_set_contents`], and every function in
//! this file states over that name what the corresponding `IndexSet` method
//! is documented to do. None of these statements is proved.

use crate::identifiers::{AttributeIdentifier, IdentifierView};
use indexmap::IndexSet;
use vstd::prelude::*;

verus! {

/// `indexmap::IndexSet`, as a type of which nothing is known but what the
/// functions below say.
#[verifier::external_type_specification]
#[verifier::external_body]
#[verifier::reject_recursive_types(T)]
#[verifier::reject_recursive_types(S)]
pub struct ExIndexSet<T, S>(IndexSet<T, S>);

/// The identifiers that a set holds, in the order in which they were first
/// inserted.
pub uninterp spec fn identifier_set_contents(set: IndexSet<(String, String, String)>) -> Seq<
    IdentifierView,
>;

/// `IndexSet::new`: a set that holds nothing.
#[verifier::external_body]
pub(crate) fn identifier_set_new() -> (set: IndexSet<(String, String, String)>)
    ensures
        identifier_set_contents(set) == Seq::<IdentifierView>::empty(),
{
    IndexSet::new()
}

/// `IndexSet::insert`: an identifier that the set does not hold yet is added
/// behind all others and `true` is returned; otherwise the set stays as it is
/// and `false` is returned.
#[verifier::external_body]
pub(crate) fn identifier_set_insert(
    set: &mut IndexSet<(String, String, String)>,
    identifier: &AttributeIdentifier,
) -> (inserted: bool)
    ensures
        inserted == !identifier_set_contents(*old(set)).contains(identifier@),
        inserted ==> identifier_set_contents(*final(set)) == identifier_set_contents(
            *old(set),
        ).push(identifier@),
        !inserted ==> identifier_set_contents(*final(set)) == identifier_set_contents(*old(set)),
{
    set.insert(
        (identifier.doc_type.clone(), identifier.namespace.clone(), identifier.attribute.clone()),
    )
}

/// `IndexSet::contains`: whether the set holds the identifier.
#[verifier::external_body]
pub(crate) fn identifier_set_contains(
    set: &IndexSet<(String, String, String)>,
    identifier: &AttributeIdentifier,
) -> (found: bool)
    ensures
        found == identifier_set_contents(*set).contains(identifier@),
{
    set.contains(
        &(identifier.doc_type.clone(), identifier.namespace.clone(), identifier.attribute.clone()),
    )
}

/// The values of a sequence of identifiers written as triples of strings.
pub open spec fn triple_views(triples: Seq<(String, String, String)>) -> Seq<IdentifierView> {
    triples.map_values(|triple: (String, String, String)| (triple.0@, triple.1@, triple.2@))
}

/// `IndexSet::difference`: the identifiers of `set` that `other` does not
/// hold, in the order in which `set` holds them. A set holds nothing
/// twice, and so neither does the difference.
#[verifier::external_body]
pub(crate) fn identifier_set_difference(
    set: &IndexSet<(String, String, String)>,
    other: &IndexSet<(String, String, String)>,
) -> (missing: Vec<(String, String, String)>)
    ensures
        triple_views(missing@) == identifier_set_contents(*set).filter(
            |identifier: IdentifierView| !identifier_set_contents(*other).contains(identifier),
        ),
        triple_views(missing@).no_duplicates(),
{
    set.difference(other).cloned().collect()
}

/// `IndexSet::iter`: the identifiers that the set holds, in order, each
/// once.
#[verifier::external_body]
pub(crate) fn identifier_set_to_vec(set: &IndexSet<(String, String, String)>) -> (identifiers: Vec<
    (String, String, String),
>)
    ensures
        triple_views(identifiers@) == identifier_set_contents(*set),
        triple_views(identifiers@).no_duplicates(),
{
    set.iter().cloned().collect()
}

/// The identifiers that a sequence of triples of strings stands for.
pub fn identifiers_from_triples(triples: Vec<(String, String, String)>) -> (identifiers: Vec<
    AttributeIdentifier,
>)
    ensures
        crate::identifiers::identifier_views(identifiers@) == triple_views(triples@),
{
    let mut identifiers: Vec<AttributeIdentifier> = Vec::new();
    let mut i: usize = 0;
    while i < triples.len()
        invariant
            i <= triples.len(),
            identifiers.len() == i,
            forall|k: int| 0 <= k < i ==> (#[trigger] identifiers[k])@ == (triples[k].0@, triples[k].1@, triples[k].2@),
        decreases triples.len() - i,
    {
        let triple = &triples[i];
        identifiers.push(
            AttributeIdentifier {
                doc_type: triple.0.clone(),
                namespace: triple.1.clone(),
                attribute: triple.2.clone(),
            },
        );
        i += 1;
    }
    assert(crate::identifiers::identifier_views(identifiers@) =~= triple_views(triples@));
    identifiers
}

} // verus!
