//! Matching a verifier's request against the credentials that the holder
//! keeps, and proposing what to disclose.

use crate::error::Error;
use crate::holder::{group_views, mdoc_views, HolderError, Mdoc, MdocView};
use crate::identifier_set::{
    identifier_set_contains, identifier_set_contents, identifier_set_difference,
    identifier_set_insert, identifier_set_new, identifier_set_to_vec, identifiers_from_triples,
    triple_views,
};
use crate::identifiers::{identifier_views, AttributeIdentifier, IdentifierView};
use crate::iso::device_retrieval::{contains_string, distinct, string_views, DeviceRequest};
use crate::iso::disclosure::{device_authentication_challenge, DeviceAuthentication};
use crate::iso::engagement::SessionTranscript;
use crate::iso::mdocs::{
    item_views, name_space_views, Attributes, DocType, IssuerNameSpaces, IssuerSigned,
    IssuerSignedItem, IssuerSignedView, ItemView, NameSpace, NameSpacesView,
};
use crate::utils::cbor::Cbor;
use crate::utils::reader_auth::{authorized_by, registration_in, AuthorizedView, ReaderRegistration};
use crate::utils::x509::{byte_views, Certificate};
use indexmap::IndexSet;
use vstd::prelude::*;

verus! {

/// The attributes of namespace `name_space` that are requested, in their
/// original order.
pub open spec fn requested_items(
    items: Seq<ItemView>,
    doc_type: Seq<char>,
    name_space: Seq<char>,
    requested: Seq<IdentifierView>,
) -> Seq<ItemView> {
    items.filter(
        |item: ItemView| requested.contains((doc_type, name_space, item.element_identifier)),
    )
}

/// Every namespace cut down to its requested attributes; namespaces of which
/// nothing is requested are left out. The order stays.
pub open spec fn requested_name_spaces(
    name_spaces: NameSpacesView,
    doc_type: Seq<char>,
    requested: Seq<IdentifierView>,
) -> NameSpacesView {
    name_spaces.map_values(
        |entry: (Seq<char>, Seq<ItemView>)|
            (entry.0, requested_items(entry.1, doc_type, entry.0, requested)),
    ).filter(|entry: (Seq<char>, Seq<ItemView>)| entry.1.len() > 0)
}

impl MdocView {
    /// The requested identifiers that this credential cannot serve, in the
    /// order of the request.
    pub open spec fn missing(self, requested: Seq<IdentifierView>) -> Seq<IdentifierView> {
        requested.filter(
            |identifier: IdentifierView| !self.issuer_signed.offers(self.doc_type, identifier),
        )
    }

    /// Whether this credential holds every requested identifier.
    pub open spec fn satisfies(self, requested: Seq<IdentifierView>) -> bool {
        forall|i: int|
            0 <= i < requested.len() ==> self.issuer_signed.offers(
                self.doc_type,
                #[trigger] requested[i],
            )
    }
}

/// A filter by two predicates that agree everywhere gives the same result.
pub proof fn lemma_filter_agree<A>(s: Seq<A>, p: spec_fn(A) -> bool, q: spec_fn(A) -> bool)
    requires
        forall|x: A| #[trigger] p(x) == q(x),
    ensures
        s.filter(p) == s.filter(q),
    decreases s.len(),
{
    reveal(Seq::filter);
    if s.len() > 0 {
        lemma_filter_agree(s.drop_last(), p, q);
    }
}

/// A filter keeps nothing exactly if no item meets the predicate.
pub proof fn lemma_filter_empty<A>(s: Seq<A>, p: spec_fn(A) -> bool)
    ensures
        s.filter(p).len() == 0 <==> forall|i: int| 0 <= i < s.len() ==> !p(#[trigger] s[i]),
    decreases s.len(),
{
    reveal(Seq::filter);
    if s.len() > 0 {
        lemma_filter_empty(s.drop_last(), p);
        let rest = s.drop_last();
        if s.filter(p).len() == 0 {
            assert forall|i: int| 0 <= i < s.len() implies !p(#[trigger] s[i]) by {
                if i < s.len() - 1 {
                    assert(rest[i] == s[i]);
                }
            }
        } else if !p(s.last()) {
            let i = choose|i: int| 0 <= i < rest.len() && p(#[trigger] rest[i]);
            assert(p(s[i]));
        }
    }
}

/// A credential satisfies a request exactly if nothing is missing.
pub proof fn lemma_satisfies_iff_nothing_missing(mdoc: MdocView, requested: Seq<IdentifierView>)
    ensures
        mdoc.satisfies(requested) <==> mdoc.missing(requested).len() == 0,
{
    lemma_filter_empty(
        requested,
        |identifier: IdentifierView| !mdoc.issuer_signed.offers(mdoc.doc_type, identifier),
    );
}

impl IssuerSignedView {
    /// Whether `identifier` names one of the attributes that come before
    /// attribute `attributes` of namespace `name_spaces`, in the order of
    /// the credential.
    pub open spec fn offers_before(
        self,
        doc_type: Seq<char>,
        identifier: IdentifierView,
        name_spaces: int,
        attributes: int,
    ) -> bool {
        match self.name_spaces {
            Some(entries) => identifier.0 == doc_type && exists|i: int, j: int|
                0 <= i < entries.len() && 0 <= j < entries[i].1.len() && (i < name_spaces || (i
                    == name_spaces && j < attributes)) && entries[i].0 == identifier.1
                    && #[trigger] entries[i].1[j].element_identifier == identifier.2,
            None => false,
        }
    }
}

impl IssuerSigned {
    /// The identifiers of all attributes that the issuer signed, for a
    /// credential of type `doc_type`.
    pub fn attribute_identifiers(&self, doc_type: &str) -> (identifiers: IndexSet<
        (String, String, String),
    >)
        ensures
            forall|identifier: IdentifierView|
                identifier_set_contents(identifiers).contains(identifier) <==> self@.offers(
                    doc_type@,
                    identifier,
                ),
    {
        let mut identifiers = identifier_set_new();
        match &self.name_spaces {
            None => {},
            Some(name_spaces) => {
                let ghost view = self@;
                let ghost entries = name_space_views(name_spaces@);
                let mut i: usize = 0;
                while i < name_spaces.len()
                    invariant
                        i <= name_spaces.len(),
                        view == self@,
                        self.name_spaces == Some(*name_spaces),
                        entries == name_space_views(name_spaces@),
                        forall|identifier: IdentifierView|
                            identifier_set_contents(identifiers).contains(identifier)
                                <==> view.offers_before(doc_type@, identifier, i as int, 0),
                    decreases name_spaces.len() - i,
                {
                    let name_space = &name_spaces[i].0;
                    let attributes = &name_spaces[i].1;
                    let mut j: usize = 0;
                    while j < attributes.len()
                        invariant
                            i < name_spaces.len(),
                            j <= attributes.len(),
                            view == self@,
                            self.name_spaces == Some(*name_spaces),
                            entries == name_space_views(name_spaces@),
                            name_space == name_spaces[i as int].0,
                            attributes == name_spaces[i as int].1,
                            forall|identifier: IdentifierView|
                                identifier_set_contents(identifiers).contains(identifier)
                                    <==> view.offers_before(
                                    doc_type@,
                                    identifier,
                                    i as int,
                                    j as int,
                                ),
                        decreases attributes.len() - j,
                    {
                        let identifier = AttributeIdentifier {
                            doc_type: doc_type.to_owned(),
                            namespace: name_space.clone(),
                            attribute: attributes[j].element_identifier.clone(),
                        };
                        let ghost before = identifier_set_contents(identifiers);
                        let _ = identifier_set_insert(&mut identifiers, &identifier);
                        proof {
                            let after = identifier_set_contents(identifiers);
                            assert(entries[i as int].0 == name_space@);
                            assert(entries[i as int].1[j as int].element_identifier
                                == attributes[j as int].element_identifier@);
                            assert forall|other: IdentifierView|
                                after.contains(other) <==> view.offers_before(
                                    doc_type@,
                                    other,
                                    i as int,
                                    j + 1,
                                ) by {
                                if after.contains(other) {
                                    if before.contains(other) {
                                        assert(view.offers_before(doc_type@, other, i as int, j as int));
                                    } else {
                                        assert(after == before.push(identifier@));
                                        assert(other == identifier@);
                                    }
                                }
                                if view.offers_before(doc_type@, other, i as int, j + 1) {
                                    if view.offers_before(doc_type@, other, i as int, j as int) {
                                        assert(before.contains(other));
                                    } else {
                                        assert(other == identifier@);
                                    }
                                    if after == before.push(identifier@) {
                                        vstd::seq_lib::lemma_seq_contains_after_push(
                                            before,
                                            identifier@,
                                            other,
                                        );
                                    }
                                }
                            }
                        }
                        j += 1;
                    }
                    proof {
                        assert forall|identifier: IdentifierView|
                            view.offers_before(doc_type@, identifier, i as int, j as int)
                                <==> view.offers_before(doc_type@, identifier, i + 1, 0) by {}
                    }
                    i += 1;
                }
                proof {
                    assert forall|identifier: IdentifierView|
                        view.offers_before(doc_type@, identifier, i as int, 0) <==> view.offers(
                            doc_type@,
                            identifier,
                        ) by {}
                }
            },
        }
        identifiers
    }
}

/// A credential cut down to what is requested of it, with the bytes that
/// the holder will sign for it when the user approves.
#[derive(Debug)]
pub struct ProposedDocument {
    pub private_key_id: String,
    pub doc_type: DocType,
    pub issuer_signed: IssuerSigned,
    pub device_signed_challenge: Vec<u8>,
}

/// The mathematical value of a [`ProposedDocument`].
pub struct ProposedDocumentView {
    pub private_key_id: Seq<char>,
    pub doc_type: Seq<char>,
    pub issuer_signed: IssuerSignedView,
    pub device_signed_challenge: Seq<u8>,
}

impl View for ProposedDocument {
    type V = ProposedDocumentView;

    open spec fn view(&self) -> ProposedDocumentView {
        ProposedDocumentView {
            private_key_id: self.private_key_id@,
            doc_type: self.doc_type@,
            issuer_signed: self.issuer_signed@,
            device_signed_challenge: self.device_signed_challenge@,
        }
    }
}

/// The values of a sequence of proposals.
pub open spec fn proposal_views(proposals: Seq<ProposedDocument>) -> Seq<ProposedDocumentView> {
    proposals.map_values(|proposal: ProposedDocument| proposal@)
}

impl MdocView {
    /// What is proposed of this credential for a request: its requested
    /// attributes and nothing else, in their original order; the issuer's
    /// signature and the key's name as they are; and the challenge.
    pub open spec fn proposal(
        self,
        requested: Seq<IdentifierView>,
        challenge: Seq<u8>,
    ) -> ProposedDocumentView {
        ProposedDocumentView {
            private_key_id: self.private_key_id,
            doc_type: self.doc_type,
            issuer_signed: IssuerSignedView {
                name_spaces: match self.issuer_signed.name_spaces {
                    Some(name_spaces) => Some(
                        requested_name_spaces(name_spaces, self.doc_type, requested),
                    ),
                    None => None,
                },
                issuer_auth: self.issuer_signed.issuer_auth,
            },
            device_signed_challenge: challenge,
        }
    }
}

/// The attributes of one namespace that the request asks for.
fn filter_attributes(
    attributes: &Attributes,
    doc_type: &str,
    name_space: &str,
    requested_attributes: &IndexSet<(String, String, String)>,
) -> (kept: Attributes)
    ensures
        item_views(kept@) == requested_items(
            item_views(attributes@),
            doc_type@,
            name_space@,
            identifier_set_contents(*requested_attributes),
        ),
{
    let ghost requested = identifier_set_contents(*requested_attributes);
    let ghost items = item_views(attributes@);
    let ghost wanted = |item: ItemView|
        requested.contains((doc_type@, name_space@, item.element_identifier));
    let mut kept: Vec<IssuerSignedItem> = Vec::new();
    let mut j: usize = 0;
    proof {
        reveal(Seq::filter);
        assert(items.take(0).filter(wanted) =~= Seq::<ItemView>::empty());
        assert(item_views(kept@) =~= Seq::<ItemView>::empty());
    }
    while j < attributes.len()
        invariant
            j <= attributes.len(),
            items == item_views(attributes@),
            requested == identifier_set_contents(*requested_attributes),
            wanted == (|item: ItemView|
                requested.contains((doc_type@, name_space@, item.element_identifier))),
            item_views(kept@) == items.take(j as int).filter(wanted),
        decreases attributes.len() - j,
    {
        let identifier = AttributeIdentifier {
            doc_type: doc_type.to_owned(),
            namespace: name_space.to_owned(),
            attribute: attributes[j].element_identifier.clone(),
        };
        proof {
            items.lemma_take_succ_push(j as int);
            items.take(j as int).lemma_filter_push(items[j as int], wanted);
        }
        if identifier_set_contains(requested_attributes, &identifier) {
            let copy = attributes[j].clone();
            proof {
                kept@.lemma_push_map_commute(|item: IssuerSignedItem| item@, copy);
            }
            kept.push(copy);
        }
        j += 1;
    }
    proof {
        items.lemma_take_len();
    }
    kept
}

impl ProposedDocument {
    /// Proposes a credential for disclosure: only the attributes that are
    /// requested stay, and the challenge is added.
    pub fn from_mdoc(
        mdoc: Mdoc,
        requested_attributes: &IndexSet<(String, String, String)>,
        device_signed_challenge: Vec<u8>,
    ) -> (proposal: Self)
        ensures
            proposal@ == mdoc@.proposal(
                identifier_set_contents(*requested_attributes),
                device_signed_challenge@,
            ),
    {
        let ghost requested = identifier_set_contents(*requested_attributes);
        let name_spaces = match &mdoc.issuer_signed.name_spaces {
            None => None,
            Some(name_spaces) => {
                let ghost entries = name_space_views(name_spaces@);
                let ghost cut = |entry: (Seq<char>, Seq<ItemView>)|
                    (entry.0, requested_items(entry.1, mdoc.doc_type@, entry.0, requested));
                let ghost filled = |entry: (Seq<char>, Seq<ItemView>)| entry.1.len() > 0;
                let mut kept: IssuerNameSpaces = Vec::new();
                let mut i: usize = 0;
                proof {
                    reveal(Seq::filter);
                    assert(entries.take(0).map_values(cut).filter(filled) =~= Seq::<
                        (Seq<char>, Seq<ItemView>),
                    >::empty());
                    assert(name_space_views(kept@) =~= Seq::<(Seq<char>, Seq<ItemView>)>::empty());
                }
                while i < name_spaces.len()
                    invariant
                        i <= name_spaces.len(),
                        entries == name_space_views(name_spaces@),
                        requested == identifier_set_contents(*requested_attributes),
                        cut == (|entry: (Seq<char>, Seq<ItemView>)|
                            (
                                entry.0,
                                requested_items(entry.1, mdoc.doc_type@, entry.0, requested),
                            )),
                        filled == (|entry: (Seq<char>, Seq<ItemView>)| entry.1.len() > 0),
                        name_space_views(kept@) == entries.take(i as int).map_values(cut).filter(
                            filled,
                        ),
                    decreases name_spaces.len() - i,
                {
                    let name_space = &name_spaces[i].0;
                    let attributes = filter_attributes(
                        &name_spaces[i].1,
                        mdoc.doc_type.as_str(),
                        name_space.as_str(),
                        requested_attributes,
                    );
                    proof {
                        entries.lemma_take_succ_push(i as int);
                        entries.take(i as int).lemma_push_map_commute(cut, entries[i as int]);
                        entries.take(i as int).map_values(cut).lemma_filter_push(
                            cut(entries[i as int]),
                            filled,
                        );
                        assert(cut(entries[i as int]) == (name_space@, item_views(attributes@)));
                    }
                    if attributes.len() > 0 {
                        let entry = (name_space.clone(), attributes);
                        proof {
                            kept@.lemma_push_map_commute(
                                |entry: (NameSpace, Attributes)| (entry.0@, item_views(entry.1@)),
                                entry,
                            );
                        }
                        kept.push(entry);
                    }
                    i += 1;
                }
                proof {
                    entries.lemma_take_len();
                }
                Some(kept)
            },
        };
        ProposedDocument {
            private_key_id: mdoc.private_key_id,
            doc_type: mdoc.doc_type,
            issuer_signed: IssuerSigned { name_spaces, issuer_auth: mdoc.issuer_signed.issuer_auth },
            device_signed_challenge,
        }
    }
}

/// The proposals for the credentials of `group` that hold everything that
/// is requested, in the order of the group.
pub open spec fn candidates_of(
    group: Seq<MdocView>,
    requested: Seq<IdentifierView>,
    challenge: Seq<u8>,
) -> Seq<ProposedDocumentView> {
    group.filter(|mdoc: MdocView| mdoc.satisfies(requested)).map_values(
        |mdoc: MdocView| mdoc.proposal(requested, challenge),
    )
}

/// For each credential of `group` that lacks something, what it lacks, in
/// the order of the group.
pub open spec fn missing_records_of(group: Seq<MdocView>, requested: Seq<IdentifierView>) -> Seq<
    Seq<IdentifierView>,
> {
    group.filter(|mdoc: MdocView| !mdoc.satisfies(requested)).map_values(
        |mdoc: MdocView| mdoc.missing(requested),
    )
}

/// The values of a sequence of lists of identifiers.
pub open spec fn record_views(records: Seq<Vec<AttributeIdentifier>>) -> Seq<Seq<IdentifierView>> {
    records.map_values(|record: Vec<AttributeIdentifier>| identifier_views(record@))
}

impl ProposedDocument {
    /// Sorts the credentials of one type into those that hold everything
    /// that is requested, as proposals, and those that do not, as lists of
    /// what each lacks. Both keep the order of `mdocs`.
    pub fn candidates_and_missing_attributes_from_mdocs(
        mdocs: Vec<Mdoc>,
        requested_attributes: &IndexSet<(String, String, String)>,
        device_signed_challenge: Vec<u8>,
    ) -> (sorted: (Vec<Self>, Vec<Vec<AttributeIdentifier>>))
        ensures
            proposal_views(sorted.0@) == candidates_of(
                mdoc_views(mdocs@),
                identifier_set_contents(*requested_attributes),
                device_signed_challenge@,
            ),
            record_views(sorted.1@) == missing_records_of(
                mdoc_views(mdocs@),
                identifier_set_contents(*requested_attributes),
            ),
            forall|i: int|
                0 <= i < sorted.1.len() ==> (#[trigger] sorted.1[i]).len() > 0 && identifier_views(
                    sorted.1[i]@,
                ).no_duplicates(),
    {
        let ghost requested = identifier_set_contents(*requested_attributes);
        let ghost group = mdoc_views(mdocs@);
        let ghost satisfying = |mdoc: MdocView| mdoc.satisfies(requested);
        let ghost lacking = |mdoc: MdocView| !mdoc.satisfies(requested);
        let ghost propose = |mdoc: MdocView| mdoc.proposal(requested, device_signed_challenge@);
        let ghost miss = |mdoc: MdocView| mdoc.missing(requested);
        let ghost original = mdocs@;
        let mut proposed_documents: Vec<ProposedDocument> = Vec::new();
        let mut all_missing_attributes: Vec<Vec<AttributeIdentifier>> = Vec::new();
        proof {
            reveal(Seq::filter);
            assert(group.take(0).filter(satisfying).map_values(propose) =~= Seq::<
                ProposedDocumentView,
            >::empty());
            assert(group.take(0).filter(lacking).map_values(miss) =~= Seq::<
                Seq<IdentifierView>,
            >::empty());
            assert(proposal_views(proposed_documents@) =~= Seq::<ProposedDocumentView>::empty());
            assert(record_views(all_missing_attributes@) =~= Seq::<Seq<IdentifierView>>::empty());
        }
        for mdoc in it: mdocs
            invariant
                it.seq() == original,
                group == mdoc_views(original),
                requested == identifier_set_contents(*requested_attributes),
                satisfying == (|mdoc: MdocView| mdoc.satisfies(requested)),
                lacking == (|mdoc: MdocView| !mdoc.satisfies(requested)),
                propose == (|mdoc: MdocView| mdoc.proposal(requested, device_signed_challenge@)),
                miss == (|mdoc: MdocView| mdoc.missing(requested)),
                proposal_views(proposed_documents@) == group.take(it.index() as int).filter(
                    satisfying,
                ).map_values(propose),
                record_views(all_missing_attributes@) == group.take(it.index() as int).filter(
                    lacking,
                ).map_values(miss),
                forall|i: int|
                    0 <= i < all_missing_attributes.len() ==> (
                    #[trigger] all_missing_attributes[i]).len() > 0 && identifier_views(
                        all_missing_attributes[i]@,
                    ).no_duplicates(),
        {
            let ghost n = it.index() as int;
            let available_attributes = mdoc.issuer_signed.attribute_identifiers(
                mdoc.doc_type.as_str(),
            );
            let missing_attributes = identifier_set_difference(
                requested_attributes,
                &available_attributes,
            );
            proof {
                assert(group[n] == mdoc@);
                lemma_filter_agree(
                    requested,
                    |identifier: IdentifierView|
                        !identifier_set_contents(available_attributes).contains(identifier),
                    |identifier: IdentifierView|
                        !mdoc@.issuer_signed.offers(mdoc@.doc_type, identifier),
                );
                assert(triple_views(missing_attributes@) == mdoc@.missing(requested));
                lemma_satisfies_iff_nothing_missing(mdoc@, requested);
                group.lemma_take_succ_push(n);
                group.take(n).lemma_filter_push(group[n], satisfying);
                group.take(n).lemma_filter_push(group[n], lacking);
                group.take(n).filter(satisfying).lemma_push_map_commute(propose, group[n]);
                group.take(n).filter(lacking).lemma_push_map_commute(miss, group[n]);
            }
            if missing_attributes.len() == 0 {
                let proposal = ProposedDocument::from_mdoc(
                    mdoc,
                    requested_attributes,
                    device_signed_challenge.clone(),
                );
                proof {
                    proposed_documents@.lemma_push_map_commute(
                        |proposal: ProposedDocument| proposal@,
                        proposal,
                    );
                }
                proposed_documents.push(proposal);
            } else {
                let record = identifiers_from_triples(missing_attributes);
                proof {
                    assert(identifier_views(record@).len() == record.len());
                    all_missing_attributes@.lemma_push_map_commute(
                        |record: Vec<AttributeIdentifier>| identifier_views(record@),
                        record,
                    );
                }
                all_missing_attributes.push(record);
            }
        }
        proof {
            group.lemma_take_len();
        }
        (proposed_documents, all_missing_attributes)
    }
}

/// How a request fares against the credentials of the holder.
#[derive(Debug)]
pub enum DeviceRequestMatch {
    /// Every credential type that is asked of has at least one credential
    /// that holds everything; these are the proposals, type by type.
    Candidates(Vec<(DocType, Vec<ProposedDocument>)>),
    /// Some type has none; these are the identifiers that cannot be served.
    MissingAttributes(Vec<AttributeIdentifier>),
}

/// The mathematical value of a [`DeviceRequestMatch`].
pub enum DeviceRequestMatchView {
    Candidates(Seq<(Seq<char>, Seq<ProposedDocumentView>)>),
    MissingAttributes(Seq<IdentifierView>),
}

/// The values of proposals listed by credential type.
pub open spec fn candidate_views(candidates: Seq<(DocType, Vec<ProposedDocument>)>) -> Seq<
    (Seq<char>, Seq<ProposedDocumentView>),
> {
    candidates.map_values(
        |entry: (DocType, Vec<ProposedDocument>)| (entry.0@, proposal_views(entry.1@)),
    )
}

impl View for DeviceRequestMatch {
    type V = DeviceRequestMatchView;

    open spec fn view(&self) -> DeviceRequestMatchView {
        match self {
            DeviceRequestMatch::Candidates(candidates) => DeviceRequestMatchView::Candidates(
                candidate_views(candidates@),
            ),
            DeviceRequestMatch::MissingAttributes(missing) => {
                DeviceRequestMatchView::MissingAttributes(identifier_views(missing@))
            },
        }
    }
}

/// The identifiers of type `doc_type` among `all`, each once, in the order
/// in which they first stand there.
pub open spec fn requested_of_type(all: Seq<IdentifierView>, doc_type: Seq<char>) -> Seq<
    IdentifierView,
> {
    distinct(all.filter(is_of_type(doc_type)))
}

/// The test whether an identifier is of type `doc_type`.
pub open spec fn is_of_type(doc_type: Seq<char>) -> spec_fn(IdentifierView) -> bool {
    |identifier: IdentifierView| identifier.0 == doc_type
}

/// Whether the credentials come as the source of credentials owes them: in
/// every group all are of one type, that type is one that was asked for,
/// no two groups that hold anything are of the same type, and in no
/// credential a namespace stands twice.
pub open spec fn groups_well_formed(doc_types: Seq<Seq<char>>, groups: Seq<Seq<MdocView>>) -> bool {
    &&& forall|i: int, k: int|
        0 <= i < groups.len() && 0 <= k < groups[i].len() ==> (
        #[trigger] groups[i][k]).issuer_signed.well_formed()
    &&& forall|i: int, k: int|
        0 <= i < groups.len() && 0 <= k < groups[i].len() ==> (#[trigger] groups[i][k]).doc_type
            == groups[i][0].doc_type
    &&& forall|i: int|
        0 <= i < groups.len() && (#[trigger] groups[i]).len() > 0 ==> doc_types.contains(
            groups[i][0].doc_type,
        )
    &&& forall|i: int, j: int|
        0 <= i < j < groups.len() && (#[trigger] groups[i]).len() > 0 && (#[trigger] groups[j]).len()
            > 0 ==> groups[i][0].doc_type != groups[j][0].doc_type
}

/// Whether all credentials of a group are in order and of the type of the
/// first.
pub open spec fn group_uniform(group: Seq<MdocView>) -> bool {
    forall|k: int|
        0 <= k < group.len() ==> (#[trigger] group[k]).issuer_signed.well_formed() && group[k].doc_type
            == group[0].doc_type
}

/// Decides [`group_uniform`].
pub fn is_group_uniform(group: &Vec<Mdoc>) -> (uniform: bool)
    ensures
        uniform == group_uniform(mdoc_views(group@)),
{
    let ghost views = mdoc_views(group@);
    let mut k: usize = 0;
    while k < group.len()
        invariant
            k <= group.len(),
            views == mdoc_views(group@),
            forall|c: int|
                0 <= c < k ==> (#[trigger] views[c]).issuer_signed.well_formed() && views[c].doc_type
                    == views[0].doc_type,
        decreases group.len() - k,
    {
        assert(views[k as int] == group[k as int]@);
        assert(views[0] == group[0]@);
        if !group[k].issuer_signed.is_well_formed() || group[k].doc_type != group[0].doc_type {
            return false;
        }
        k += 1;
    }
    true
}

/// Decides [`groups_well_formed`]: whether what a store handed over for the
/// types `doc_types` is what it owes.
pub fn are_groups_well_formed(doc_types: &Vec<DocType>, groups: &Vec<Vec<Mdoc>>) -> (well_formed:
    bool)
    ensures
        well_formed == groups_well_formed(string_views(doc_types@), group_views(groups@)),
{
    let ghost asked = string_views(doc_types@);
    let ghost views = group_views(groups@);
    let mut j: usize = 0;
    while j < groups.len()
        invariant
            j <= groups.len(),
            asked == string_views(doc_types@),
            views == group_views(groups@),
            forall|i: int| 0 <= i < j ==> group_uniform(#[trigger] views[i]),
            forall|i: int|
                0 <= i < j && (#[trigger] views[i]).len() > 0 ==> asked.contains(
                    views[i][0].doc_type,
                ),
            forall|a: int, b: int|
                0 <= a < b < j && (#[trigger] views[a]).len() > 0 && (#[trigger] views[b]).len() > 0
                    ==> views[a][0].doc_type != views[b][0].doc_type,
        decreases groups.len() - j,
    {
        assert(views[j as int] == mdoc_views(groups[j as int]@));
        if !is_group_uniform(&groups[j]) {
            proof {
                let bad = choose|k: int|
                    0 <= k < views[j as int].len() && !((#[trigger] views[j as int][k]).issuer_signed.well_formed()
                        && views[j as int][k].doc_type == views[j as int][0].doc_type);
                assert(!groups_well_formed(asked, views));
            }
            return false;
        }
        if groups[j].len() > 0 {
            assert(views[j as int][0] == groups[j as int][0]@);
            if !contains_string(doc_types, &groups[j][0].doc_type) {
                return false;
            }
            let mut i: usize = 0;
            while i < j
                invariant
                    i <= j,
                    j < groups.len(),
                    views == group_views(groups@),
                    views[j as int].len() > 0,
                    forall|a: int|
                        0 <= a < i && (#[trigger] views[a]).len() > 0 ==> views[a][0].doc_type
                            != views[j as int][0].doc_type,
                decreases j - i,
            {
                assert(views[i as int] == mdoc_views(groups[i as int]@));
                assert(views[j as int] == mdoc_views(groups[j as int]@));
                if groups[i].len() > 0 {
                    assert(views[i as int][0] == groups[i as int][0]@);
                    assert(views[j as int][0] == groups[j as int][0]@);
                    if groups[i][0].doc_type == groups[j][0].doc_type {
                        return false;
                    }
                }
                i += 1;
            }
        }
        j += 1;
    }
    proof {
        assert forall|i: int, k: int|
            0 <= i < views.len() && 0 <= k < views[i].len() implies (
        #[trigger] views[i][k]).issuer_signed.well_formed() && views[i][k].doc_type
            == views[i][0].doc_type by {
            assert(group_uniform(views[i]));
        }
    }
    true
}

/// Whether a group that holds something is of type `doc_type`.
pub open spec fn type_returned(groups: Seq<Seq<MdocView>>, doc_type: Seq<char>) -> bool {
    exists|i: int|
        0 <= i < groups.len() && (#[trigger] groups[i]).len() > 0 && groups[i][0].doc_type
            == doc_type
}

/// Whether some credential of `group` holds everything that `all` asks of
/// the group's type.
pub open spec fn group_has_candidate(group: Seq<MdocView>, all: Seq<IdentifierView>) -> bool {
    group.filter(
        |mdoc: MdocView| mdoc.satisfies(requested_of_type(all, group[0].doc_type)),
    ).len() > 0
}

/// The proposals of a group that holds something, with the group's type.
pub open spec fn group_candidates(
    group: Seq<MdocView>,
    all: Seq<IdentifierView>,
    transcript: Cbor,
) -> (Seq<char>, Seq<ProposedDocumentView>) {
    (
        group[0].doc_type,
        candidates_of(
            group,
            requested_of_type(all, group[0].doc_type),
            device_authentication_challenge(transcript, group[0].doc_type),
        ),
    )
}

/// What a group that holds something adds to the missing identifiers: if
/// none of its credentials holds everything, what the first of them lacks;
/// otherwise nothing.
pub open spec fn group_missing(group: Seq<MdocView>, all: Seq<IdentifierView>) -> Seq<
    IdentifierView,
> {
    if group_has_candidate(group, all) {
        Seq::empty()
    } else {
        missing_records_of(group, requested_of_type(all, group[0].doc_type))[0]
    }
}

/// Whether every type that is asked of came back with a credential that
/// holds everything.
pub open spec fn request_satisfiable(
    doc_types: Seq<Seq<char>>,
    all: Seq<IdentifierView>,
    groups: Seq<Seq<MdocView>>,
) -> bool {
    &&& forall|k: int| 0 <= k < doc_types.len() ==> type_returned(groups, #[trigger] doc_types[k])
    &&& forall|i: int|
        0 <= i < groups.len() && (#[trigger] groups[i]).len() > 0 ==> group_has_candidate(
            groups[i],
            all,
        )
}

/// The result of matching: for the types `doc_types` and the identifiers
/// `all` of a request, against credentials in `groups`.
///
/// If the request can be satisfied, the proposals of every group that holds
/// something, in the order of the groups. Otherwise the missing identifiers:
/// first what the groups without a proposal add, in the order of the groups,
/// then every requested identifier whose type did not come back at all, in
/// the order of the request.
pub open spec fn match_result(
    doc_types: Seq<Seq<char>>,
    all: Seq<IdentifierView>,
    groups: Seq<Seq<MdocView>>,
    transcript: Cbor,
) -> DeviceRequestMatchView {
    let filled = groups.filter(|group: Seq<MdocView>| group.len() > 0);
    if request_satisfiable(doc_types, all, groups) {
        DeviceRequestMatchView::Candidates(
            filled.map_values(|group: Seq<MdocView>| group_candidates(group, all, transcript)),
        )
    } else {
        DeviceRequestMatchView::MissingAttributes(
            filled.map_values(|group: Seq<MdocView>| group_missing(group, all)).flatten()
                + distinct(all).filter(
                |identifier: IdentifierView| !type_returned(groups, identifier.0),
            ),
        )
    }
}

/// The set of the identifiers of type `doc_type` in `list`.
fn identifiers_of_type(list: &Vec<AttributeIdentifier>, doc_type: &String) -> (identifiers:
    IndexSet<(String, String, String)>)
    ensures
        identifier_set_contents(identifiers) == requested_of_type(
            identifier_views(list@),
            doc_type@,
        ),
{
    let ghost all = identifier_views(list@);
    let ghost typed = is_of_type(doc_type@);
    let mut identifiers = identifier_set_new();
    let mut k: usize = 0;
    proof {
        reveal(Seq::filter);
        assert(all.take(0).filter(typed) =~= Seq::<IdentifierView>::empty());
    }
    while k < list.len()
        invariant
            k <= list.len(),
            all == identifier_views(list@),
            typed == is_of_type(doc_type@),
            identifier_set_contents(identifiers) == distinct(all.take(k as int).filter(typed)),
        decreases list.len() - k,
    {
        proof {
            all.lemma_take_succ_push(k as int);
            all.take(k as int).lemma_filter_push(all[k as int], typed);
            let kept = all.take(k as int).filter(typed);
            assert(kept.push(all[k as int]).drop_last() =~= kept);
        }
        if list[k].doc_type == *doc_type {
            let _ = identifier_set_insert(&mut identifiers, &list[k]);
        }
        k += 1;
    }
    proof {
        all.lemma_take_len();
    }
    identifiers
}

/// What a predicate keeps and what it drops make up the whole sequence.
pub proof fn lemma_filter_partition<A>(s: Seq<A>, p: spec_fn(A) -> bool, q: spec_fn(A) -> bool)
    requires
        forall|x: A| #[trigger] q(x) == !p(x),
    ensures
        s.filter(p).len() + s.filter(q).len() == s.len(),
    decreases s.len(),
{
    reveal(Seq::filter);
    if s.len() > 0 {
        lemma_filter_partition(s.drop_last(), p, q);
    }
}

impl DeviceRequest {
    /// Matches the request against credentials that came from the holder's
    /// store, and says what can be proposed or what is missing.
    pub fn match_documents(
        &self,
        mdocs: Vec<Vec<Mdoc>>,
        session_transcript: &SessionTranscript,
    ) -> (matched: DeviceRequestMatch)
        requires
            groups_well_formed(self.requested_doc_types(), group_views(mdocs@)),
        ensures
            matched@ == match_result(
                self.requested_doc_types(),
                self.all_identifiers(),
                group_views(mdocs@),
                session_transcript.to_cbor(),
            ),
    {
        let list = self.identifier_list();
        let doc_types = self.doc_types();
        let ghost all = self.all_identifiers();
        let ghost original = mdocs@;
        let ghost groups = group_views(mdocs@);
        let ghost transcript = session_transcript.to_cbor();
        let ghost filled = |group: Seq<MdocView>| group.len() > 0;
        let ghost propose = |group: Seq<MdocView>| group_candidates(group, all, transcript);
        let ghost lack = |group: Seq<MdocView>| group_missing(group, all);
        let mut candidates: Vec<(DocType, Vec<ProposedDocument>)> = Vec::new();
        let mut missing: Vec<AttributeIdentifier> = Vec::new();
        let mut returned: Vec<DocType> = Vec::new();
        let mut every_group_has_candidate = true;
        proof {
            reveal(Seq::filter);
            assert(groups.take(0).filter(filled).map_values(propose) =~= Seq::<
                (Seq<char>, Seq<ProposedDocumentView>),
            >::empty());
            assert(groups.take(0).filter(filled).map_values(lack).flatten() =~= Seq::<
                IdentifierView,
            >::empty());
            assert(candidate_views(candidates@) =~= Seq::<
                (Seq<char>, Seq<ProposedDocumentView>),
            >::empty());
            assert(identifier_views(missing@) =~= Seq::<IdentifierView>::empty());
            assert(string_views(returned@) =~= Seq::<Seq<char>>::empty());
        }
        for doc_type_mdocs in it: mdocs
            invariant
                it.seq() == original,
                groups == group_views(original),
                all == identifier_views(list@),
                transcript == session_transcript.to_cbor(),
                filled == (|group: Seq<MdocView>| group.len() > 0),
                propose == (|group: Seq<MdocView>| group_candidates(group, all, transcript)),
                lack == (|group: Seq<MdocView>| group_missing(group, all)),
                candidate_views(candidates@) == groups.take(it.index() as int).filter(
                    filled,
                ).map_values(propose),
                identifier_views(missing@) == groups.take(it.index() as int).filter(
                    filled,
                ).map_values(lack).flatten(),
                forall|doc_type: Seq<char>|
                    string_views(returned@).contains(doc_type) <==> type_returned(
                        groups.take(it.index() as int),
                        doc_type,
                    ),
                every_group_has_candidate <==> forall|i: int|
                    0 <= i < it.index() && (#[trigger] groups[i]).len() > 0
                        ==> group_has_candidate(groups[i], all),
        {
            let ghost n = it.index() as int;
            let ghost group = groups[n];
            let ghost before = groups.take(n);
            let ghost returned_before = string_views(returned@);
            proof {
                assert(group == mdoc_views(doc_type_mdocs@));
                groups.lemma_take_succ_push(n);
                before.lemma_filter_push(group, filled);
            }
            if doc_type_mdocs.len() > 0 {
                let doc_type = doc_type_mdocs[0].doc_type.clone();
                let requested_attributes = identifiers_of_type(&list, &doc_type);
                let device_authentication = DeviceAuthentication::from_session_transcript(
                    session_transcript.duplicate(),
                    doc_type.clone(),
                );
                let device_signed_challenge = device_authentication.to_bytes();
                let ghost requested = requested_of_type(all, group[0].doc_type);
                let sorted = ProposedDocument::candidates_and_missing_attributes_from_mdocs(
                    doc_type_mdocs,
                    &requested_attributes,
                    device_signed_challenge,
                );
                let group_proposals = sorted.0;
                let mut records = sorted.1;
                proof {
                    assert(group[0].doc_type == doc_type@);
                    assert(proposal_views(group_proposals@) == propose(group).1);
                    lemma_filter_partition(
                        group,
                        |mdoc: MdocView| mdoc.satisfies(requested),
                        |mdoc: MdocView| !mdoc.satisfies(requested),
                    );
                    before.filter(filled).lemma_push_map_commute(propose, group);
                    before.filter(filled).lemma_push_map_commute(lack, group);
                    before.filter(filled).map_values(lack).lemma_flatten_push(lack(group));
                }
                if group_proposals.len() == 0 {
                    every_group_has_candidate = false;
                    proof {
                        let satisfying = |mdoc: MdocView| mdoc.satisfies(requested);
                        let lacking = |mdoc: MdocView| !mdoc.satisfies(requested);
                        assert(proposal_views(group_proposals@).len() == group_proposals.len());
                        assert(proposal_views(group_proposals@).len() == group.filter(
                            satisfying,
                        ).len());
                        assert(record_views(records@).len() == group.filter(lacking).len());
                        assert(record_views(records@).len() == records.len());
                    }
                    assert(records.len() > 0);
                    let mut first = records.remove(0);
                    proof {
                        assert(identifier_views(first@) == record_views(sorted.1@)[0]);
                        assert(identifier_views(first@) == lack(group));
                        assert(identifier_views(missing@ + first@) =~= identifier_views(missing@)
                            + identifier_views(first@));
                    }
                    missing.append(&mut first);
                } else {
                    proof {
                        assert(lack(group) =~= Seq::<IdentifierView>::empty());
                        assert(identifier_views(missing@) + lack(group) =~= identifier_views(
                            missing@,
                        ));
                    }
                }
                let returned_type = doc_type.clone();
                proof {
                    returned@.lemma_push_map_commute(|string: String| string@, returned_type);
                    let entry = (doc_type, group_proposals);
                    candidates@.lemma_push_map_commute(
                        |entry: (DocType, Vec<ProposedDocument>)|
                            (entry.0@, proposal_views(entry.1@)),
                        entry,
                    );
                    assert forall|other: Seq<char>|
                        returned_before.push(doc_type@).contains(other) <==> type_returned(
                            groups.take(n + 1),
                            other,
                        ) by {
                        vstd::seq_lib::lemma_seq_contains_after_push(
                            returned_before,
                            doc_type@,
                            other,
                        );
                        if type_returned(before, other) {
                            let i = choose|i: int|
                                0 <= i < before.len() && (#[trigger] before[i]).len() > 0
                                    && before[i][0].doc_type == other;
                            assert(groups.take(n + 1)[i] == before[i]);
                        }
                        if other == doc_type@ {
                            assert(groups.take(n + 1)[n] == group);
                        }
                        if type_returned(groups.take(n + 1), other) {
                            let i = choose|i: int|
                                0 <= i < groups.take(n + 1).len() && (#[trigger] groups.take(
                                    n + 1,
                                )[i]).len() > 0 && groups.take(n + 1)[i][0].doc_type == other;
                            if i < n {
                                assert(before[i] == groups.take(n + 1)[i]);
                            }
                        }
                    }
                }
                returned.push(returned_type);
                candidates.push((doc_type, group_proposals));
            } else {
                proof {
                    assert forall|other: Seq<char>|
                        type_returned(before, other) <==> type_returned(
                            groups.take(n + 1),
                            other,
                        ) by {
                        if type_returned(before, other) {
                            let i = choose|i: int|
                                0 <= i < before.len() && (#[trigger] before[i]).len() > 0
                                    && before[i][0].doc_type == other;
                            assert(groups.take(n + 1)[i] == before[i]);
                        }
                        if type_returned(groups.take(n + 1), other) {
                            let i = choose|i: int|
                                0 <= i < groups.take(n + 1).len() && (#[trigger] groups.take(
                                    n + 1,
                                )[i]).len() > 0 && groups.take(n + 1)[i][0].doc_type == other;
                            assert(before[i] == groups.take(n + 1)[i]);
                        }
                    }
                }
            }
        }
        proof {
            groups.lemma_take_len();
        }
        let ghost asked = self.requested_doc_types();
        let mut every_type_returned = true;
        let mut k: usize = 0;
        while k < doc_types.len()
            invariant
                k <= doc_types.len(),
                asked == string_views(doc_types@),
                forall|doc_type: Seq<char>|
                    string_views(returned@).contains(doc_type) <==> type_returned(groups, doc_type),
                every_type_returned <==> forall|i: int|
                    0 <= i < k ==> type_returned(groups, #[trigger] asked[i]),
            decreases doc_types.len() - k,
        {
            assert(asked[k as int] == doc_types[k as int]@);
            if !contains_string(&returned, &doc_types[k]) {
                every_type_returned = false;
            }
            k += 1;
        }
        if every_type_returned && every_group_has_candidate {
            DeviceRequestMatch::Candidates(candidates)
        } else {
            let requested = identifiers_from_triples(
                identifier_set_to_vec(&self.attribute_identifiers()),
            );
            let ghost wanted = identifier_views(requested@);
            let ghost unreturned = |identifier: IdentifierView|
                !type_returned(groups, identifier.0);
            let mut rest: Vec<AttributeIdentifier> = Vec::new();
            let mut j: usize = 0;
            proof {
                reveal(Seq::filter);
                assert(wanted.take(0).filter(unreturned) =~= Seq::<IdentifierView>::empty());
                assert(identifier_views(rest@) =~= Seq::<IdentifierView>::empty());
            }
            while j < requested.len()
                invariant
                    j <= requested.len(),
                    wanted == identifier_views(requested@),
                    unreturned == (|identifier: IdentifierView|
                        !type_returned(groups, identifier.0)),
                    forall|doc_type: Seq<char>|
                        string_views(returned@).contains(doc_type) <==> type_returned(
                            groups,
                            doc_type,
                        ),
                    identifier_views(rest@) == wanted.take(j as int).filter(unreturned),
                decreases requested.len() - j,
            {
                proof {
                    wanted.lemma_take_succ_push(j as int);
                    wanted.take(j as int).lemma_filter_push(wanted[j as int], unreturned);
                }
                if !contains_string(&returned, &requested[j].doc_type) {
                    let copy = requested[j].clone();
                    proof {
                        rest@.lemma_push_map_commute(
                            |identifier: AttributeIdentifier| identifier@,
                            copy,
                        );
                    }
                    rest.push(copy);
                }
                j += 1;
            }
            proof {
                wanted.lemma_take_len();
                assert(identifier_views(missing@ + rest@) =~= identifier_views(missing@)
                    + identifier_views(rest@));
            }
            missing.append(&mut rest);
            DeviceRequestMatch::MissingAttributes(missing)
        }
    }
}

/// The types for which more than one credential is proposed, in order.
pub open spec fn ambiguous_types(
    candidates: Seq<(Seq<char>, Seq<ProposedDocumentView>)>,
) -> Seq<Seq<char>> {
    candidates.filter(|entry: (Seq<char>, Seq<ProposedDocumentView>)| entry.1.len() > 1).map_values(
        |entry: (Seq<char>, Seq<ProposedDocumentView>)| entry.0,
    )
}

/// All proposals in one list, type after type.
pub open spec fn all_proposals(candidates: Seq<(Seq<char>, Seq<ProposedDocumentView>)>) -> Seq<
    ProposedDocumentView,
> {
    candidates.map_values(|entry: (Seq<char>, Seq<ProposedDocumentView>)| entry.1).flatten()
}

/// Settles on the proposals of a session. Where some type has more than one
/// candidate, nothing is chosen: the types in question are reported.
/// Otherwise the proposals are all candidates, in order.
pub fn select_proposals(candidates: Vec<(DocType, Vec<ProposedDocument>)>) -> (selected: Result<
    Vec<ProposedDocument>,
    HolderError,
>)
    ensures
        match selected {
            Ok(proposals) => ambiguous_types(candidate_views(candidates@)).len() == 0
                && proposal_views(proposals@) == all_proposals(candidate_views(candidates@)),
            Err(HolderError::MultipleCandidates(doc_types)) => doc_types.len() > 0 && string_views(
                doc_types@,
            ) == ambiguous_types(candidate_views(candidates@)),
            Err(_) => false,
        },
{
    let ghost entries = candidate_views(candidates@);
    let ghost several = |entry: (Seq<char>, Seq<ProposedDocumentView>)| entry.1.len() > 1;
    let ghost type_of = |entry: (Seq<char>, Seq<ProposedDocumentView>)| entry.0;
    let ghost proposals_of = |entry: (Seq<char>, Seq<ProposedDocumentView>)| entry.1;
    let mut duplicate_doc_types: Vec<DocType> = Vec::new();
    let mut i: usize = 0;
    proof {
        reveal(Seq::filter);
        assert(entries.take(0).filter(several).map_values(type_of) =~= Seq::<Seq<char>>::empty());
        assert(string_views(duplicate_doc_types@) =~= Seq::<Seq<char>>::empty());
    }
    while i < candidates.len()
        invariant
            i <= candidates.len(),
            entries == candidate_views(candidates@),
            several == (|entry: (Seq<char>, Seq<ProposedDocumentView>)| entry.1.len() > 1),
            type_of == (|entry: (Seq<char>, Seq<ProposedDocumentView>)| entry.0),
            string_views(duplicate_doc_types@) == entries.take(i as int).filter(several).map_values(
                type_of,
            ),
        decreases candidates.len() - i,
    {
        proof {
            entries.lemma_take_succ_push(i as int);
            entries.take(i as int).lemma_filter_push(entries[i as int], several);
            entries.take(i as int).filter(several).lemma_push_map_commute(
                type_of,
                entries[i as int],
            );
            assert(entries[i as int].1.len() == candidates[i as int].1.len());
        }
        if candidates[i].1.len() > 1 {
            let doc_type = candidates[i].0.clone();
            proof {
                duplicate_doc_types@.lemma_push_map_commute(|string: String| string@, doc_type);
            }
            duplicate_doc_types.push(doc_type);
        }
        i += 1;
    }
    proof {
        entries.lemma_take_len();
    }
    if duplicate_doc_types.len() > 0 {
        return Err(HolderError::MultipleCandidates(duplicate_doc_types));
    }
    let ghost original = candidates@;
    let mut proposed_documents: Vec<ProposedDocument> = Vec::new();
    proof {
        assert(entries.take(0).map_values(proposals_of).flatten() =~= Seq::<
            ProposedDocumentView,
        >::empty());
        assert(proposal_views(proposed_documents@) =~= Seq::<ProposedDocumentView>::empty());
    }
    for entry in it: candidates
        invariant
            it.seq() == original,
            entries == candidate_views(original),
            proposals_of == (|entry: (Seq<char>, Seq<ProposedDocumentView>)| entry.1),
            proposal_views(proposed_documents@) == entries.take(it.index() as int).map_values(
                proposals_of,
            ).flatten(),
    {
        let ghost n = it.index() as int;
        let mut proposals = entry.1;
        proof {
            entries.lemma_take_succ_push(n);
            entries.take(n).lemma_push_map_commute(proposals_of, entries[n]);
            entries.take(n).map_values(proposals_of).lemma_flatten_push(proposals_of(entries[n]));
            assert(proposal_views(proposed_documents@ + proposals@) =~= proposal_views(
                proposed_documents@,
            ) + proposal_views(proposals@));
        }
        proposed_documents.append(&mut proposals);
    }
    proof {
        entries.lemma_take_len();
    }
    Ok(proposed_documents)
}

impl DeviceRequest {
    /// Matches the request against credentials of which it is not known
    /// whether they come as a store owes them. Where they do not, nothing is
    /// matched.
    pub fn match_documents_checked(
        &self,
        mdocs: Vec<Vec<Mdoc>>,
        session_transcript: &SessionTranscript,
    ) -> (matched: Option<DeviceRequestMatch>)
        ensures
            match matched {
                Some(matched) => groups_well_formed(
                    self.requested_doc_types(),
                    group_views(mdocs@),
                ) && matched@ == match_result(
                    self.requested_doc_types(),
                    self.all_identifiers(),
                    group_views(mdocs@),
                    session_transcript.to_cbor(),
                ),
                None => !groups_well_formed(self.requested_doc_types(), group_views(mdocs@)),
            },
    {
        let doc_types = self.doc_types();
        if are_groups_well_formed(&doc_types, &mdocs) {
            Some(self.match_documents(mdocs, session_transcript))
        } else {
            None
        }
    }
}

/// The certificate behind all signatures, given what checking each of them
/// came to, in order: the first signature that is not accepted gives its
/// error; a certificate that differs from the one before it gives
/// [`HolderError::ReaderAuthsInconsistent`].
pub open spec fn common_certificate(
    outcomes: Seq<Result<Seq<u8>, Error>>,
    previous: Option<Seq<u8>>,
) -> Result<Option<Seq<u8>>, Error>
    decreases outcomes.len(),
{
    if outcomes.len() == 0 {
        Ok(previous)
    } else {
        match outcomes[0] {
            Err(error) => Err(error),
            Ok(certificate) => if previous is Some && previous != Some(certificate) {
                Err(Error::Holder(HolderError::ReaderAuthsInconsistent))
            } else {
                common_certificate(outcomes.skip(1), Some(certificate))
            },
        }
    }
}

/// The test whether a verifier with these rights may not ask for an
/// identifier.
pub open spec fn is_refused(attributes: AuthorizedView) -> spec_fn(IdentifierView) -> bool {
    |identifier: IdentifierView| !authorized_by(attributes, identifier)
}

impl DeviceRequest {
    /// What checking the signatures of all requests comes to, request by
    /// request. Every request must be signed.
    pub open spec fn outcomes(
        &self,
        transcript: Cbor,
        time: u64,
        trust_anchors: Seq<Seq<u8>>,
    ) -> Seq<Result<Seq<u8>, Error>> {
        Seq::new(
            self.doc_requests.len() as nat,
            |i: int| self.doc_requests[i].outcome(transcript, time, trust_anchors)->0,
        )
    }

    /// Whether no request is signed.
    pub open spec fn none_signed(&self) -> bool {
        forall|i: int|
            0 <= i < self.doc_requests.len() ==> (#[trigger] self.doc_requests[i]).reader_auth
                is None
    }

    /// Whether every request is signed.
    pub open spec fn all_signed(&self) -> bool {
        forall|i: int|
            0 <= i < self.doc_requests.len() ==> (#[trigger] self.doc_requests[i]).reader_auth
                is Some
    }

    /// The requested identifiers that a verifier with these rights may not
    /// ask for, in the order of the request.
    pub open spec fn refused(&self, attributes: AuthorizedView) -> Seq<IdentifierView> {
        self.requested().filter(is_refused(attributes))
    }

    /// Checks that the verifier is registered for everything that it asks.
    pub fn verify_requested_attributes(&self, reader_registration: &ReaderRegistration) -> (checked:
        Result<(), HolderError>)
        ensures
            match checked {
                Ok(()) => self.refused(reader_registration@.attributes).len() == 0,
                Err(HolderError::UnregisteredAttributes(refused)) => refused.len() > 0
                    && identifier_views(refused@) == self.refused(
                    reader_registration@.attributes,
                ),
                Err(_) => false,
            },
    {
        let requested = identifiers_from_triples(
            identifier_set_to_vec(&self.attribute_identifiers()),
        );
        let refused = reader_registration.unauthorized(&requested);
        proof {
            assert forall|identifier: IdentifierView|
                (!reader_registration.authorizes(identifier)) == #[trigger] is_refused(
                    reader_registration@.attributes,
                )(identifier) by {
                reader_registration.lemma_authorizes_view(identifier);
            }
            lemma_filter_agree(
                identifier_views(requested@),
                |identifier: IdentifierView| !reader_registration.authorizes(identifier),
                is_refused(reader_registration@.attributes),
            );
        }
        if refused.len() > 0 {
            Err(HolderError::UnregisteredAttributes(refused))
        } else {
            Ok(())
        }
    }

    /// Whether `verified` is what checking the verifier's signatures comes
    /// to.
    ///
    /// Where no request is signed, the verifier is unknown and nothing is
    /// found. Where some but not all are signed, the request is refused.
    /// Where all are signed, every signature must be good, all must come
    /// from one certificate, that certificate must carry a registration, and
    /// the registration must cover everything that is asked; then the
    /// registration is found.
    pub open spec fn verification_outcome(
        &self,
        transcript: Cbor,
        time: u64,
        trust_anchors: Seq<Seq<u8>>,
        verified: Result<Option<ReaderRegistration>, Error>,
    ) -> bool {
        &&& (self.none_signed() ==> verified matches Ok(None))
        &&& (!self.none_signed() && !self.all_signed() ==> verified matches Err(
            Error::Holder(HolderError::ReaderAuthMissing),
        ))
        &&& (!self.none_signed() && self.all_signed() ==> match common_certificate(
            self.outcomes(transcript, time, trust_anchors),
            None,
        ) {
            Err(error) => verified matches Err(returned) && returned == error,
            Ok(None) => false,
            Ok(Some(certificate)) => match registration_in(certificate) {
                Err(error) => verified matches Err(Error::Certificate(returned)) && returned
                    == error,
                Ok(None) => verified matches Err(
                    Error::Holder(HolderError::NoReaderRegistration(returned)),
                ) && returned@ == certificate,
                Ok(Some(registration)) => if self.refused(registration.attributes).len() > 0 {
                    verified matches Err(
                        Error::Holder(HolderError::UnregisteredAttributes(returned)),
                    ) && identifier_views(returned@) == self.refused(registration.attributes)
                } else {
                    verified matches Ok(Some(returned)) && returned@ == registration
                },
            },
        })
    }

    /// Checks the verifier's signatures and finds out what the verifier is
    /// registered for, as [`Self::verification_outcome`] says. Of the
    /// holder's own reasons to refuse, only those that concern the
    /// signatures and the registration come back.
    pub fn verify(
        &self,
        session_transcript: &SessionTranscript,
        time: u64,
        trust_anchors: &[Vec<u8>],
    ) -> (verified: Result<Option<ReaderRegistration>, Error>)
        ensures
            self.verification_outcome(
                session_transcript.to_cbor(),
                time,
                byte_views(trust_anchors@),
                verified,
            ),
            verified matches Err(Error::Holder(error)) ==> error is ReaderAuthMissing || error
                is ReaderAuthsInconsistent || error is NoReaderRegistration || error
                is UnregisteredAttributes,
    {
        let ghost transcript = session_transcript.to_cbor();
        let ghost anchors = byte_views(trust_anchors@);
        let ghost outcomes = self.outcomes(transcript, time, anchors);
        let mut any_signed = false;
        let mut any_unsigned = false;
        let mut i: usize = 0;
        while i < self.doc_requests.len()
            invariant
                i <= self.doc_requests.len(),
                any_signed <==> exists|k: int|
                    0 <= k < i && (#[trigger] self.doc_requests[k]).reader_auth is Some,
                any_unsigned <==> exists|k: int|
                    0 <= k < i && (#[trigger] self.doc_requests[k]).reader_auth is None,
            decreases self.doc_requests.len() - i,
        {
            if self.doc_requests[i].reader_auth.is_some() {
                any_signed = true;
            } else {
                any_unsigned = true;
            }
            i += 1;
        }
        if !any_signed {
            return Ok(None);
        }
        if any_unsigned {
            return Err(Error::Holder(HolderError::ReaderAuthMissing));
        }
        assert(self.all_signed() && !self.none_signed());
        let mut certificate: Option<Certificate> = None;
        let mut n: usize = 0;
        assert(outcomes.skip(0) =~= outcomes);
        while n < self.doc_requests.len()
            invariant
                n <= self.doc_requests.len(),
                self.all_signed(),
                !self.none_signed(),
                transcript == session_transcript.to_cbor(),
                anchors == byte_views(trust_anchors@),
                outcomes == self.outcomes(transcript, time, anchors),
                n > 0 ==> certificate is Some,
                common_certificate(outcomes, None) == common_certificate(
                    outcomes.skip(n as int),
                    match certificate {
                        Some(certificate) => Some(certificate@),
                        None => None,
                    },
                ),
            decreases self.doc_requests.len() - n,
        {
            proof {
                assert(outcomes.skip(n as int)[0] == outcomes[n as int]);
                assert(outcomes.skip(n as int).skip(1) =~= outcomes.skip(n + 1));
                assert(self.doc_requests[n as int].reader_auth is Some);
            }
            let doc_request_cert = match self.doc_requests[n].verify(
                session_transcript,
                time,
                trust_anchors,
            ) {
                Err(error) => { return Err(error); },
                Ok(None) => { return Err(Error::Holder(HolderError::ReaderAuthMissing)); },
                Ok(Some(doc_request_cert)) => doc_request_cert,
            };
            match &certificate {
                Some(result_cert) => {
                    if !doc_request_cert.same_as(result_cert) {
                        return Err(Error::Holder(HolderError::ReaderAuthsInconsistent));
                    }
                },
                None => {},
            }
            certificate = Some(doc_request_cert);
            n += 1;
        }
        let certificate = match certificate {
            Some(certificate) => certificate,
            None => { return Err(Error::Holder(HolderError::ReaderAuthMissing)); },
        };
        let reader_registration = match ReaderRegistration::from_certificate(&certificate) {
            Err(error) => { return Err(Error::Certificate(error)); },
            Ok(None) => {
                return Err(Error::Holder(HolderError::NoReaderRegistration(certificate)));
            },
            Ok(Some(reader_registration)) => reader_registration,
        };
        match self.verify_requested_attributes(&reader_registration) {
            Err(error) => Err(Error::Holder(error)),
            Ok(()) => Ok(Some(reader_registration)),
        }
    }
}

} // verus!
