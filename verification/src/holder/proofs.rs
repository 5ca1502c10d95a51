//! What matching guarantees, proved from the definitions in
//! [`crate::holder::disclosure`].

use crate::holder::MdocView;
use crate::holder::disclosure::{
    all_proposals, ambiguous_types, group_candidates, group_has_candidate, group_missing,
    groups_well_formed, lemma_filter_empty, lemma_satisfies_iff_nothing_missing, match_result,
    missing_records_of, request_satisfiable, requested_items, requested_name_spaces,
    requested_of_type, type_returned, DeviceRequestMatchView, ProposedDocumentView,
};
use crate::identifiers::IdentifierView;
use crate::iso::device_retrieval::{distinct, lemma_distinct_contains};
use crate::iso::mdocs::{distinct_name_spaces, ItemView, NameSpacesView};
use crate::utils::cbor::Cbor;
use vstd::prelude::*;

verus! {

/// A filter keeps exactly the items that meet the predicate.
pub proof fn lemma_filter_member<A>(s: Seq<A>, p: spec_fn(A) -> bool, x: A)
    ensures
        s.filter(p).contains(x) <==> s.contains(x) && p(x),
    decreases s.len(),
{
    reveal(Seq::filter);
    if s.len() > 0 {
        let rest = s.drop_last();
        lemma_filter_member(rest, p, x);
        if s.contains(x) {
            let i = choose|i: int| 0 <= i < s.len() && s[i] == x;
            if i < s.len() - 1 {
                assert(rest[i] == x);
            }
        }
        if rest.contains(x) {
            let i = choose|i: int| 0 <= i < rest.len() && rest[i] == x;
            assert(s[i] == x);
        }
        assert(s[s.len() - 1] == s.last());
        if p(s.last()) {
            vstd::seq_lib::lemma_seq_contains_after_push(rest.filter(p), s.last(), x);
        }
    }
}

/// A flattened sequence holds exactly what its parts hold.
pub proof fn lemma_flatten_member<A>(s: Seq<Seq<A>>, x: A)
    ensures
        s.flatten().contains(x) <==> exists|i: int| 0 <= i < s.len() && (#[trigger] s[i]).contains(x),
    decreases s.len(),
{
    if s.len() > 0 {
        let rest = s.drop_last();
        lemma_flatten_member(rest, x);
        assert(s =~= rest.push(s.last()));
        rest.lemma_flatten_push(s.last());
        let whole = rest.flatten() + s.last();
        assert(s.flatten() == whole);
        if whole.contains(x) {
            let j = choose|j: int| 0 <= j < whole.len() && whole[j] == x;
            if j < rest.flatten().len() {
                assert(rest.flatten()[j] == x);
                let i = choose|i: int| 0 <= i < rest.len() && (#[trigger] rest[i]).contains(x);
                assert(s[i] == rest[i]);
            } else {
                assert(s.last()[j - rest.flatten().len()] == x);
                assert(s[s.len() - 1].contains(x));
            }
        }
        if exists|i: int| 0 <= i < s.len() && (#[trigger] s[i]).contains(x) {
            let i = choose|i: int| 0 <= i < s.len() && (#[trigger] s[i]).contains(x);
            if i < s.len() - 1 {
                assert(rest[i] == s[i]);
                let j = choose|j: int| 0 <= j < rest.flatten().len() && rest.flatten()[j] == x;
                assert(whole[j] == x);
            } else {
                let j = choose|j: int| 0 <= j < s.last().len() && s.last()[j] == x;
                assert(whole[rest.flatten().len() + j] == x);
            }
        }
    }
}

/// What is proposed of a credential is the intersection of what the issuer
/// signed and what is requested: an attribute is in the proposal exactly if
/// the credential holds it and the request names it.
pub proof fn lemma_proposal_is_intersection(
    mdoc: MdocView,
    requested: Seq<IdentifierView>,
    challenge: Seq<u8>,
    name_space: Seq<char>,
    attribute: Seq<char>,
)
    ensures
        mdoc.proposal(requested, challenge).issuer_signed.holds(name_space, attribute) <==> (
        mdoc.issuer_signed.holds(name_space, attribute) && requested.contains(
            (mdoc.doc_type, name_space, attribute),
        )),
{
    let proposal = mdoc.proposal(requested, challenge);
    match mdoc.issuer_signed.name_spaces {
        None => {},
        Some(entries) => {
            let cut = |entry: (Seq<char>, Seq<ItemView>)|
                (entry.0, requested_items(entry.1, mdoc.doc_type, entry.0, requested));
            let filled = |entry: (Seq<char>, Seq<ItemView>)| entry.1.len() > 0;
            let kept = requested_name_spaces(entries, mdoc.doc_type, requested);
            assert(kept == entries.map_values(cut).filter(filled));
            assert(proposal.issuer_signed.name_spaces == Some(kept));
            if proposal.issuer_signed.holds(name_space, attribute) {
                let (a, b) = choose|a: int, b: int|
                    0 <= a < kept.len() && 0 <= b < kept[a].1.len() && kept[a].0 == name_space
                        && #[trigger] kept[a].1[b].element_identifier == attribute;
                assert(kept.contains(kept[a]));
                lemma_filter_member(entries.map_values(cut), filled, kept[a]);
                let i = choose|i: int|
                    0 <= i < entries.map_values(cut).len() && entries.map_values(cut)[i] == kept[a];
                let wanted = |item: ItemView|
                    requested.contains((mdoc.doc_type, entries[i].0, item.element_identifier));
                assert(kept[a].1 == entries[i].1.filter(wanted));
                assert(kept[a].1.contains(kept[a].1[b]));
                lemma_filter_member(entries[i].1, wanted, kept[a].1[b]);
                let j = choose|j: int| 0 <= j < entries[i].1.len() && entries[i].1[j] == kept[a].1[b];
                assert(entries[i].1[j].element_identifier == attribute);
            }
            if mdoc.issuer_signed.holds(name_space, attribute) && requested.contains(
                (mdoc.doc_type, name_space, attribute),
            ) {
                let (i, j) = choose|i: int, j: int|
                    0 <= i < entries.len() && 0 <= j < entries[i].1.len() && entries[i].0
                        == name_space && #[trigger] entries[i].1[j].element_identifier == attribute;
                let wanted = |item: ItemView|
                    requested.contains((mdoc.doc_type, entries[i].0, item.element_identifier));
                let item = entries[i].1[j];
                assert(entries[i].1.contains(item));
                lemma_filter_member(entries[i].1, wanted, item);
                let cut_entry = cut(entries[i]);
                assert(cut_entry.1.contains(item));
                assert(entries.map_values(cut)[i] == cut_entry);
                assert(entries.map_values(cut).contains(cut_entry));
                lemma_filter_member(entries.map_values(cut), filled, cut_entry);
                let a = choose|a: int| 0 <= a < kept.len() && kept[a] == cut_entry;
                let b = choose|b: int| 0 <= b < cut_entry.1.len() && cut_entry.1[b] == item;
                assert(kept[a].1[b].element_identifier == attribute);
            }
        },
    }
}

/// The types for which more than one credential is proposed are reported,
/// and no other: a type is among the reported ones exactly if it stands
/// with two proposals or more.
pub proof fn lemma_ambiguous_types_exact(
    candidates: Seq<(Seq<char>, Seq<ProposedDocumentView>)>,
    doc_type: Seq<char>,
)
    ensures
        ambiguous_types(candidates).contains(doc_type) <==> exists|i: int|
            0 <= i < candidates.len() && (#[trigger] candidates[i]).0 == doc_type
                && candidates[i].1.len() > 1,
{
    let several = |entry: (Seq<char>, Seq<ProposedDocumentView>)| entry.1.len() > 1;
    let type_of = |entry: (Seq<char>, Seq<ProposedDocumentView>)| entry.0;
    let chosen = candidates.filter(several);
    if ambiguous_types(candidates).contains(doc_type) {
        let a = choose|a: int|
            0 <= a < chosen.map_values(type_of).len() && chosen.map_values(type_of)[a] == doc_type;
        assert(chosen.contains(chosen[a]));
        lemma_filter_member(candidates, several, chosen[a]);
        let i = choose|i: int| 0 <= i < candidates.len() && candidates[i] == chosen[a];
        assert(candidates[i].0 == doc_type && candidates[i].1.len() > 1);
    }
    if exists|i: int|
        0 <= i < candidates.len() && (#[trigger] candidates[i]).0 == doc_type
            && candidates[i].1.len() > 1 {
        let i = choose|i: int|
            0 <= i < candidates.len() && (#[trigger] candidates[i]).0 == doc_type
                && candidates[i].1.len() > 1;
        assert(candidates.contains(candidates[i]));
        lemma_filter_member(candidates, several, candidates[i]);
        let a = choose|a: int| 0 <= a < chosen.len() && chosen[a] == candidates[i];
        assert(chosen.map_values(type_of)[a] == doc_type);
    }
}

/// Whether the holder has a credential of type `doc_type` that holds
/// everything that `all` asks of that type.
pub open spec fn holds_satisfying(
    groups: Seq<Seq<MdocView>>,
    all: Seq<IdentifierView>,
    doc_type: Seq<char>,
) -> bool {
    exists|i: int, k: int|
        0 <= i < groups.len() && 0 <= k < groups[i].len() && (#[trigger] groups[i][k]).doc_type
            == doc_type && groups[i][k].satisfies(requested_of_type(all, doc_type))
}

/// A group has a proposal exactly if one of its credentials holds
/// everything that is asked of the group's type.
pub proof fn lemma_group_has_candidate(group: Seq<MdocView>, all: Seq<IdentifierView>)
    requires
        group.len() > 0,
    ensures
        group_has_candidate(group, all) <==> exists|k: int|
            0 <= k < group.len() && (#[trigger] group[k]).satisfies(
                requested_of_type(all, group[0].doc_type),
            ),
{
    let requested = requested_of_type(all, group[0].doc_type);
    lemma_filter_empty(group, |mdoc: MdocView| mdoc.satisfies(requested));
}

/// A credential type yields a proposal exactly if the holder has a
/// credential of that type that holds everything that is asked of it.
pub proof fn lemma_candidate_iff_satisfying(
    doc_types: Seq<Seq<char>>,
    all: Seq<IdentifierView>,
    groups: Seq<Seq<MdocView>>,
    transcript: Cbor,
    doc_type: Seq<char>,
)
    requires
        groups_well_formed(doc_types, groups),
    ensures
        (exists|i: int|
            0 <= i < groups.len() && (#[trigger] groups[i]).len() > 0 && groups[i][0].doc_type
                == doc_type && group_candidates(groups[i], all, transcript).1.len() > 0)
            <==> holds_satisfying(groups, all, doc_type),
{
    let requested = requested_of_type(all, doc_type);
    if exists|i: int|
        0 <= i < groups.len() && (#[trigger] groups[i]).len() > 0 && groups[i][0].doc_type
            == doc_type && group_candidates(groups[i], all, transcript).1.len() > 0 {
        let i = choose|i: int|
            0 <= i < groups.len() && (#[trigger] groups[i]).len() > 0 && groups[i][0].doc_type
                == doc_type && group_candidates(groups[i], all, transcript).1.len() > 0;
        assert(group_has_candidate(groups[i], all));
        lemma_group_has_candidate(groups[i], all);
        let k = choose|k: int|
            0 <= k < groups[i].len() && (#[trigger] groups[i][k]).satisfies(requested);
        assert(groups[i][k].doc_type == doc_type);
    }
    if holds_satisfying(groups, all, doc_type) {
        let (i, k) = choose|i: int, k: int|
            0 <= i < groups.len() && 0 <= k < groups[i].len() && (#[trigger] groups[i][k]).doc_type
                == doc_type && groups[i][k].satisfies(requested);
        assert(groups[i][0].doc_type == doc_type);
        lemma_group_has_candidate(groups[i], all);
        assert(group_has_candidate(groups[i], all));
    }
}

/// A request can be satisfied exactly if, for every type that it asks of,
/// the holder has a credential that holds everything asked of that type.
pub proof fn lemma_satisfiable_iff_all_types_held(
    doc_types: Seq<Seq<char>>,
    all: Seq<IdentifierView>,
    groups: Seq<Seq<MdocView>>,
)
    requires
        groups_well_formed(doc_types, groups),
    ensures
        request_satisfiable(doc_types, all, groups) <==> forall|k: int|
            0 <= k < doc_types.len() ==> holds_satisfying(groups, all, #[trigger] doc_types[k]),
{
    if request_satisfiable(doc_types, all, groups) {
        assert forall|k: int| 0 <= k < doc_types.len() implies holds_satisfying(
            groups,
            all,
            #[trigger] doc_types[k],
        ) by {
            assert(type_returned(groups, doc_types[k]));
            let i = choose|i: int|
                0 <= i < groups.len() && (#[trigger] groups[i]).len() > 0 && groups[i][0].doc_type
                    == doc_types[k];
            lemma_group_has_candidate(groups[i], all);
            let m = choose|m: int|
                0 <= m < groups[i].len() && (#[trigger] groups[i][m]).satisfies(
                    requested_of_type(all, groups[i][0].doc_type),
                );
            assert(groups[i][m].doc_type == doc_types[k]);
        }
    }
    if forall|k: int|
        0 <= k < doc_types.len() ==> holds_satisfying(groups, all, #[trigger] doc_types[k]) {
        assert forall|k: int| 0 <= k < doc_types.len() implies type_returned(
            groups,
            #[trigger] doc_types[k],
        ) by {
            assert(holds_satisfying(groups, all, doc_types[k]));
            let (i, m) = choose|i: int, m: int|
                0 <= i < groups.len() && 0 <= m < groups[i].len() && (
                #[trigger] groups[i][m]).doc_type == doc_types[k] && groups[i][m].satisfies(
                    requested_of_type(all, doc_types[k]),
                );
            assert(groups[i][0].doc_type == doc_types[k]);
            assert(groups[i].len() > 0);
        }
        assert forall|i: int|
            0 <= i < groups.len() && (#[trigger] groups[i]).len() > 0 implies group_has_candidate(
            groups[i],
            all,
        ) by {
            let doc_type = groups[i][0].doc_type;
            assert(doc_types.contains(doc_type));
            let k = choose|k: int| 0 <= k < doc_types.len() && doc_types[k] == doc_type;
            assert(holds_satisfying(groups, all, doc_types[k]));
            let (a, m) = choose|a: int, m: int|
                0 <= a < groups.len() && 0 <= m < groups[a].len() && (
                #[trigger] groups[a][m]).doc_type == doc_type && groups[a][m].satisfies(
                    requested_of_type(all, doc_type),
                );
            assert(groups[a][0].doc_type == doc_type);
            assert(groups[a].len() > 0);
            if a < i {
                assert(groups[a][0].doc_type != groups[i][0].doc_type);
            }
            if i < a {
                assert(groups[i][0].doc_type != groups[a][0].doc_type);
            }
            assert(a == i);
            lemma_group_has_candidate(groups[i], all);
        }
    }
}

/// What is asked of a type is of that type.
pub proof fn lemma_requested_of_type_typed(
    all: Seq<IdentifierView>,
    doc_type: Seq<char>,
    wanted: IdentifierView,
)
    ensures
        requested_of_type(all, doc_type).contains(wanted) <==> all.contains(wanted) && wanted.0
            == doc_type,
{
    let typed = crate::holder::disclosure::is_of_type(doc_type);
    lemma_distinct_contains(all.filter(typed), wanted);
    lemma_filter_member(all, typed, wanted);
    assert(typed(wanted) == (wanted.0 == doc_type));
    assert(all.filter(typed).contains(wanted) <==> all.contains(wanted) && wanted.0 == doc_type);
    assert(distinct(all.filter(typed)).contains(wanted) <==> all.filter(typed).contains(wanted));
    assert(requested_of_type(all, doc_type) == distinct(all.filter(typed)));
}

/// What a group adds to the missing identifiers is of the group's type.
pub proof fn lemma_group_missing_typed(
    group: Seq<MdocView>,
    all: Seq<IdentifierView>,
    identifier: IdentifierView,
)
    requires
        group.len() > 0,
        group_missing(group, all).contains(identifier),
    ensures
        identifier.0 == group[0].doc_type,
        !group_has_candidate(group, all),
{
    let requested = requested_of_type(all, group[0].doc_type);
    let satisfying = |mdoc: MdocView| mdoc.satisfies(requested);
    let lacking = |mdoc: MdocView| !mdoc.satisfies(requested);
    if group_has_candidate(group, all) {
        assert(group_missing(group, all) =~= Seq::<IdentifierView>::empty());
    } else {
        crate::holder::disclosure::lemma_filter_partition(group, satisfying, lacking);
        let first = group.filter(lacking)[0];
        assert(missing_records_of(group, requested)[0] == first.missing(requested));
        lemma_filter_member(
            requested,
            |identifier: IdentifierView| !first.issuer_signed.offers(first.doc_type, identifier),
            identifier,
        );
        lemma_requested_of_type_typed(all, group[0].doc_type, identifier);
    }
}

/// A group without a proposal adds something to the missing identifiers.
pub proof fn lemma_group_missing_filled(group: Seq<MdocView>, all: Seq<IdentifierView>)
    requires
        group.len() > 0,
        !group_has_candidate(group, all),
    ensures
        group_missing(group, all).len() > 0,
{
    let requested = requested_of_type(all, group[0].doc_type);
    let satisfying = |mdoc: MdocView| mdoc.satisfies(requested);
    let lacking = |mdoc: MdocView| !mdoc.satisfies(requested);
    crate::holder::disclosure::lemma_filter_partition(group, satisfying, lacking);
    let first = group.filter(lacking)[0];
    assert(group.filter(lacking).contains(first));
    lemma_filter_member(group, lacking, first);
    lemma_satisfies_iff_nothing_missing(first, requested);
    assert(missing_records_of(group, requested)[0] == first.missing(requested));
}

/// Whether one of the missing identifiers is of type `doc_type`.
pub open spec fn missing_names_type(missing: Seq<IdentifierView>, doc_type: Seq<char>) -> bool {
    exists|j: int| 0 <= j < missing.len() && (#[trigger] missing[j]).0 == doc_type
}

/// When a request cannot be satisfied, a type of which something is asked
/// adds to the missing identifiers exactly if the holder has no credential
/// of that type that holds everything asked of it: either none holds
/// everything, or the holder has none of that type.
pub proof fn lemma_missing_iff_unsatisfied(
    doc_types: Seq<Seq<char>>,
    all: Seq<IdentifierView>,
    groups: Seq<Seq<MdocView>>,
    transcript: Cbor,
    doc_type: Seq<char>,
)
    requires
        groups_well_formed(doc_types, groups),
        !request_satisfiable(doc_types, all, groups),
        requested_of_type(all, doc_type).len() > 0,
    ensures
        match_result(doc_types, all, groups, transcript) is MissingAttributes,
        missing_names_type(
            match_result(doc_types, all, groups, transcript)->MissingAttributes_0,
            doc_type,
        ) <==> !holds_satisfying(groups, all, doc_type),
{
    let nonempty = |group: Seq<MdocView>| group.len() > 0;
    let lack = |group: Seq<MdocView>| group_missing(group, all);
    let unreturned = |identifier: IdentifierView| !type_returned(groups, identifier.0);
    let filled = groups.filter(nonempty);
    let from_groups = filled.map_values(lack).flatten();
    let from_absent = distinct(all).filter(unreturned);
    let missing = from_groups + from_absent;
    let requested = requested_of_type(all, doc_type);
    assert(match_result(doc_types, all, groups, transcript)
        == DeviceRequestMatchView::MissingAttributes(missing));
    // Something is asked of the type.
    let sample = requested[0];
    assert(requested.contains(sample));
    lemma_requested_of_type_typed(all, doc_type, sample);
    lemma_distinct_contains(all, sample);
    if exists|j: int| 0 <= j < missing.len() && (#[trigger] missing[j]).0 == doc_type {
        let j = choose|j: int| 0 <= j < missing.len() && (#[trigger] missing[j]).0 == doc_type;
        let identifier = missing[j];
        if j < from_groups.len() {
            assert(from_groups[j] == identifier);
            assert(from_groups.contains(identifier));
            lemma_flatten_member(filled.map_values(lack), identifier);
            let a = choose|a: int|
                0 <= a < filled.map_values(lack).len() && (#[trigger] filled.map_values(
                    lack,
                )[a]).contains(identifier);
            assert(filled.contains(filled[a]));
            lemma_filter_member(groups, nonempty, filled[a]);
            let i = choose|i: int| 0 <= i < groups.len() && groups[i] == filled[a];
            lemma_group_missing_typed(groups[i], all, identifier);
            lemma_group_has_candidate(groups[i], all);
            if holds_satisfying(groups, all, doc_type) {
                let (b, m) = choose|b: int, m: int|
                    0 <= b < groups.len() && 0 <= m < groups[b].len() && (
                    #[trigger] groups[b][m]).doc_type == doc_type && groups[b][m].satisfies(
                        requested,
                    );
                assert(groups[b][0].doc_type == doc_type);
                assert(groups[b].len() > 0);
                if b < i {
                    assert(groups[b][0].doc_type != groups[i][0].doc_type);
                }
                if i < b {
                    assert(groups[i][0].doc_type != groups[b][0].doc_type);
                }
                assert(b == i);
                assert(false);
            }
        } else {
            assert(from_absent[j - from_groups.len()] == identifier);
            assert(from_absent.contains(identifier));
            lemma_filter_member(distinct(all), unreturned, identifier);
            assert(!type_returned(groups, doc_type));
            if holds_satisfying(groups, all, doc_type) {
                let (b, m) = choose|b: int, m: int|
                    0 <= b < groups.len() && 0 <= m < groups[b].len() && (
                    #[trigger] groups[b][m]).doc_type == doc_type && groups[b][m].satisfies(
                        requested,
                    );
                assert(groups[b][0].doc_type == doc_type);
                assert(groups[b].len() > 0);
                assert(false);
            }
        }
    }
    if !holds_satisfying(groups, all, doc_type) {
        if type_returned(groups, doc_type) {
            let i = choose|i: int|
                0 <= i < groups.len() && (#[trigger] groups[i]).len() > 0 && groups[i][0].doc_type
                    == doc_type;
            lemma_group_has_candidate(groups[i], all);
            if group_has_candidate(groups[i], all) {
                let m = choose|m: int|
                    0 <= m < groups[i].len() && (#[trigger] groups[i][m]).satisfies(requested);
                assert(groups[i][m].doc_type == doc_type);
                assert(false);
            }
            lemma_group_missing_filled(groups[i], all);
            let identifier = lack(groups[i])[0];
            assert(lack(groups[i]).contains(identifier));
            lemma_group_missing_typed(groups[i], all, identifier);
            assert(groups.contains(groups[i]));
            lemma_filter_member(groups, nonempty, groups[i]);
            let a = choose|a: int| 0 <= a < filled.len() && filled[a] == groups[i];
            assert(filled.map_values(lack)[a] == lack(groups[i]));
            lemma_flatten_member(filled.map_values(lack), identifier);
            let j = choose|j: int| 0 <= j < from_groups.len() && from_groups[j] == identifier;
            assert(missing[j] == identifier);
            assert(0 <= j < missing.len() && missing[j].0 == doc_type);
        } else {
            lemma_filter_member(distinct(all), unreturned, sample);
            let j = choose|j: int| 0 <= j < from_absent.len() && from_absent[j] == sample;
            let at = from_groups.len() + j;
            assert(missing[at] == sample);
            assert(0 <= at < missing.len() && missing[at].0 == doc_type);
        }
        assert(exists|j: int| 0 <= j < missing.len() && (#[trigger] missing[j]).0 == doc_type);
    }
    assert((exists|j: int| 0 <= j < missing.len() && (#[trigger] missing[j]).0 == doc_type)
        <==> !holds_satisfying(groups, all, doc_type));
    assert(match_result(doc_types, all, groups, transcript)
        == DeviceRequestMatchView::MissingAttributes(missing));
}

/// Whether no two proposals are of the same credential type.
pub open spec fn one_proposal_per_type(proposals: Seq<ProposedDocumentView>) -> bool {
    forall|i: int, j: int|
        0 <= i < j < proposals.len() ==> (#[trigger] proposals[i]).doc_type != (
        #[trigger] proposals[j]).doc_type
}

/// Whether candidates are listed in an orderly way: every candidate stands
/// under its own type, no type stands twice, and no type has more than one
/// candidate.
pub open spec fn settled(candidates: Seq<(Seq<char>, Seq<ProposedDocumentView>)>) -> bool {
    &&& forall|k: int, m: int|
        0 <= k < candidates.len() && 0 <= m < candidates[k].1.len() ==> (
        #[trigger] candidates[k].1[m]).doc_type == candidates[k].0
    &&& forall|k: int, l: int|
        0 <= k < l < candidates.len() ==> (#[trigger] candidates[k]).0 != (
        #[trigger] candidates[l]).0
    &&& forall|k: int| 0 <= k < candidates.len() ==> (#[trigger] candidates[k]).1.len() <= 1
}

/// Where candidates are listed in an orderly way, the list of all of them
/// holds no two of the same type, and each is of a type that is listed.
pub proof fn lemma_settled_proposals(candidates: Seq<(Seq<char>, Seq<ProposedDocumentView>)>)
    requires
        settled(candidates),
    ensures
        one_proposal_per_type(all_proposals(candidates)),
        forall|i: int|
            0 <= i < all_proposals(candidates).len() ==> exists|k: int|
                0 <= k < candidates.len() && (#[trigger] candidates[k]).0 == (
                #[trigger] all_proposals(candidates)[i]).doc_type,
    decreases candidates.len(),
{
    let proposals_of = |entry: (Seq<char>, Seq<ProposedDocumentView>)| entry.1;
    if candidates.len() == 0 {
        assert(candidates.map_values(proposals_of).flatten() =~= Seq::<
            ProposedDocumentView,
        >::empty());
    } else {
        let rest = candidates.drop_last();
        let last = candidates.last();
        assert(settled(rest)) by {
            assert forall|k: int| 0 <= k < rest.len() implies rest[k] == candidates[k] by {}
        }
        lemma_settled_proposals(rest);
        assert(candidates =~= rest.push(last));
        rest.lemma_push_map_commute(proposals_of, last);
        rest.map_values(proposals_of).lemma_flatten_push(last.1);
        let before = all_proposals(rest);
        let all = all_proposals(candidates);
        assert(all == before + last.1);
        assert forall|i: int| 0 <= i < all.len() implies exists|k: int|
            0 <= k < candidates.len() && (#[trigger] candidates[k]).0 == (
            #[trigger] all[i]).doc_type by {
            if i < before.len() {
                assert(all[i] == before[i]);
                let k = choose|k: int|
                    0 <= k < rest.len() && (#[trigger] rest[k]).0 == before[i].doc_type;
                assert(candidates[k] == rest[k]);
            } else {
                assert(all[i] == last.1[i - before.len()]);
                assert(candidates[candidates.len() - 1] == last);
                assert(candidates[candidates.len() - 1].1[i - before.len()].doc_type == last.0);
            }
        }
        assert forall|i: int, j: int| 0 <= i < j < all.len() implies (#[trigger] all[i]).doc_type
            != (#[trigger] all[j]).doc_type by {
            if j < before.len() {
                assert(all[i] == before[i] && all[j] == before[j]);
            } else {
                assert(candidates[candidates.len() - 1] == last);
                assert(last.1.len() <= 1);
                assert(i < before.len());
                assert(all[i] == before[i]);
                assert(all[j] == last.1[j - before.len()]);
                assert(candidates[candidates.len() - 1].1[j - before.len()].doc_type == last.0);
                let k = choose|k: int|
                    0 <= k < rest.len() && (#[trigger] rest[k]).0 == before[i].doc_type;
                assert(candidates[k] == rest[k]);
                assert(candidates[k].0 != candidates[candidates.len() - 1].0);
            }
        }
    }
}

/// Groups of different types stay of different types when the empty ones
/// are left out.
pub proof fn lemma_filled_groups_distinct(doc_types: Seq<Seq<char>>, groups: Seq<Seq<MdocView>>)
    requires
        groups_well_formed(doc_types, groups),
    ensures
        ({
            let filled = groups.filter(|group: Seq<MdocView>| group.len() > 0);
            &&& forall|k: int| 0 <= k < filled.len() ==> groups.contains(#[trigger] filled[k])
            &&& forall|k: int| 0 <= k < filled.len() ==> (#[trigger] filled[k]).len() > 0
            &&& forall|k: int, l: int|
                0 <= k < l < filled.len() ==> (#[trigger] filled[k])[0].doc_type != (
                #[trigger] filled[l])[0].doc_type
        }),
    decreases groups.len(),
{
    let nonempty = |group: Seq<MdocView>| group.len() > 0;
    let filled = groups.filter(nonempty);
    reveal(Seq::filter);
    if groups.len() > 0 {
        let rest = groups.drop_last();
        let last = groups.last();
        assert(groups_well_formed(doc_types, rest)) by {
            assert forall|i: int| 0 <= i < rest.len() implies rest[i] == groups[i] by {}
        }
        lemma_filled_groups_distinct(doc_types, rest);
        let before = rest.filter(nonempty);
        assert forall|k: int| 0 <= k < before.len() implies groups.contains(
            #[trigger] before[k],
        ) by {
            assert(rest.contains(before[k]));
            let i = choose|i: int| 0 <= i < rest.len() && rest[i] == before[k];
            assert(groups[i] == before[k]);
        }
        if nonempty(last) {
            assert(filled == before.push(last));
            assert(groups[groups.len() - 1] == last);
            assert forall|k: int, l: int| 0 <= k < l < filled.len() implies (
            #[trigger] filled[k])[0].doc_type != (#[trigger] filled[l])[0].doc_type by {
                if l == filled.len() - 1 {
                    assert(filled[k] == before[k]);
                    assert(rest.contains(before[k]));
                    let i = choose|i: int| 0 <= i < rest.len() && rest[i] == before[k];
                    assert(groups[i] == before[k]);
                    assert(groups[i][0].doc_type != groups[groups.len() - 1][0].doc_type);
                } else {
                    assert(filled[k] == before[k] && filled[l] == before[l]);
                }
            }
            assert forall|k: int| 0 <= k < filled.len() implies groups.contains(
                #[trigger] filled[k],
            ) && filled[k].len() > 0 by {
                if k < before.len() {
                    assert(filled[k] == before[k]);
                }
            }
        } else {
            assert(filled == before);
        }
    }
}

/// Where a request can be satisfied and no type has several candidates,
/// what is proposed holds exactly one credential for each type that came
/// back, and so no two of the same type.
pub proof fn lemma_one_proposal_per_type(
    doc_types: Seq<Seq<char>>,
    all: Seq<IdentifierView>,
    groups: Seq<Seq<MdocView>>,
    transcript: Cbor,
)
    requires
        groups_well_formed(doc_types, groups),
        match_result(doc_types, all, groups, transcript) is Candidates,
        ambiguous_types(match_result(doc_types, all, groups, transcript)->Candidates_0).len() == 0,
    ensures
        one_proposal_per_type(
            all_proposals(match_result(doc_types, all, groups, transcript)->Candidates_0),
        ),
{
    let nonempty = |group: Seq<MdocView>| group.len() > 0;
    let propose = |group: Seq<MdocView>| group_candidates(group, all, transcript);
    let filled = groups.filter(nonempty);
    let candidates = filled.map_values(propose);
    assert(match_result(doc_types, all, groups, transcript)->Candidates_0 == candidates);
    lemma_filled_groups_distinct(doc_types, groups);
    let several = |entry: (Seq<char>, Seq<ProposedDocumentView>)| entry.1.len() > 1;
    let type_of = |entry: (Seq<char>, Seq<ProposedDocumentView>)| entry.0;
    assert(ambiguous_types(candidates) == candidates.filter(several).map_values(type_of));
    assert(candidates.filter(several).len() == 0);
    lemma_filter_empty(candidates, several);
    assert(settled(candidates)) by {
        assert forall|k: int, m: int|
            0 <= k < candidates.len() && 0 <= m < candidates[k].1.len() implies (
        #[trigger] candidates[k].1[m]).doc_type == candidates[k].0 by {
            let group = filled[k];
            let requested = requested_of_type(all, group[0].doc_type);
            let satisfying = |mdoc: MdocView| mdoc.satisfies(requested);
            let kept = group.filter(satisfying);
            assert(candidates[k] == group_candidates(group, all, transcript));
            assert(candidates[k].1.len() == kept.len());
            assert(candidates[k].1[m].doc_type == kept[m].doc_type);
            assert(kept.contains(kept[m]));
            lemma_filter_member(group, satisfying, kept[m]);
            let i = choose|i: int| 0 <= i < group.len() && group[i] == kept[m];
            assert(groups.contains(group));
            let g = choose|g: int| 0 <= g < groups.len() && groups[g] == group;
            assert(groups[g][i].doc_type == groups[g][0].doc_type);
        }
        assert forall|k: int, l: int| 0 <= k < l < candidates.len() implies (
        #[trigger] candidates[k]).0 != (#[trigger] candidates[l]).0 by {
            assert(candidates[k].0 == filled[k][0].doc_type);
            assert(candidates[l].0 == filled[l][0].doc_type);
        }
        assert forall|k: int| 0 <= k < candidates.len() implies (#[trigger] candidates[k]).1.len()
            <= 1 by {
            assert(!several(candidates[k]));
        }
    }
    lemma_settled_proposals(candidates);
}

/// A part of a sequence in which no name stands twice has no name twice.
pub proof fn lemma_filter_keeps_distinct(
    name_spaces: NameSpacesView,
    kept: spec_fn((Seq<char>, Seq<ItemView>)) -> bool,
)
    requires
        distinct_name_spaces(name_spaces),
    ensures
        distinct_name_spaces(name_spaces.filter(kept)),
    decreases name_spaces.len(),
{
    reveal(Seq::filter);
    if name_spaces.len() > 0 {
        let rest = name_spaces.drop_last();
        let last = name_spaces.last();
        assert(distinct_name_spaces(rest)) by {
            assert forall|i: int| 0 <= i < rest.len() implies rest[i] == name_spaces[i] by {}
        }
        lemma_filter_keeps_distinct(rest, kept);
        let before = rest.filter(kept);
        if kept(last) {
            assert(name_spaces.filter(kept) == before.push(last));
            assert forall|i: int, j: int|
                0 <= i < j < before.push(last).len() implies (#[trigger] before.push(last)[i]).0
                != (#[trigger] before.push(last)[j]).0 by {
                if j == before.len() {
                    assert(before.push(last)[i] == before[i]);
                    assert(before.contains(before[i]));
                    lemma_filter_member(rest, kept, before[i]);
                    let k = choose|k: int| 0 <= k < rest.len() && rest[k] == before[i];
                    assert(name_spaces[k] == before[i]);
                    assert(name_spaces[name_spaces.len() - 1] == last);
                } else {
                    assert(before.push(last)[i] == before[i]);
                    assert(before.push(last)[j] == before[j]);
                }
            }
        }
    }
}

/// What is proposed of a credential is a table of namespaces if the
/// credential is: no namespace stands twice in it.
pub proof fn lemma_proposal_well_formed(
    mdoc: MdocView,
    requested: Seq<IdentifierView>,
    challenge: Seq<u8>,
)
    requires
        mdoc.issuer_signed.well_formed(),
    ensures
        mdoc.proposal(requested, challenge).issuer_signed.well_formed(),
{
    match mdoc.issuer_signed.name_spaces {
        None => {},
        Some(entries) => {
            let cut = |entry: (Seq<char>, Seq<ItemView>)|
                (entry.0, requested_items(entry.1, mdoc.doc_type, entry.0, requested));
            let filled = |entry: (Seq<char>, Seq<ItemView>)| entry.1.len() > 0;
            let mapped = entries.map_values(cut);
            assert(requested_name_spaces(entries, mdoc.doc_type, requested) == mapped.filter(
                filled,
            ));
            assert(distinct_name_spaces(mapped)) by {
                assert forall|i: int, j: int| 0 <= i < j < mapped.len() implies (
                #[trigger] mapped[i]).0 != (#[trigger] mapped[j]).0 by {
                    assert(mapped[i].0 == entries[i].0);
                    assert(mapped[j].0 == entries[j].0);
                }
            }
            lemma_filter_keeps_distinct(mapped, filled);
        },
    }
}

/// Whether in every proposal the namespaces are a table.
pub open spec fn proposals_well_formed(proposals: Seq<ProposedDocumentView>) -> bool {
    forall|i: int|
        0 <= i < proposals.len() ==> (#[trigger] proposals[i]).issuer_signed.well_formed()
}

/// Where the holder's credentials are in order, so is what is proposed of
/// them: in no proposal a namespace stands twice.
pub proof fn lemma_proposals_well_formed(
    doc_types: Seq<Seq<char>>,
    all: Seq<IdentifierView>,
    groups: Seq<Seq<MdocView>>,
    transcript: Cbor,
)
    requires
        groups_well_formed(doc_types, groups),
        match_result(doc_types, all, groups, transcript) is Candidates,
    ensures
        proposals_well_formed(
            all_proposals(match_result(doc_types, all, groups, transcript)->Candidates_0),
        ),
{
    let nonempty = |group: Seq<MdocView>| group.len() > 0;
    let propose = |group: Seq<MdocView>| group_candidates(group, all, transcript);
    let proposals_of = |entry: (Seq<char>, Seq<ProposedDocumentView>)| entry.1;
    let filled = groups.filter(nonempty);
    let candidates = filled.map_values(propose);
    assert(match_result(doc_types, all, groups, transcript)->Candidates_0 == candidates);
    let proposals = all_proposals(candidates);
    lemma_filled_groups_distinct(doc_types, groups);
    assert forall|i: int| 0 <= i < proposals.len() implies (
    #[trigger] proposals[i]).issuer_signed.well_formed() by {
        let proposal = proposals[i];
        assert(proposals.contains(proposal));
        lemma_flatten_member(candidates.map_values(proposals_of), proposal);
        let k = choose|k: int|
            0 <= k < candidates.map_values(proposals_of).len() && (
            #[trigger] candidates.map_values(proposals_of)[k]).contains(proposal);
        let group = filled[k];
        let requested = requested_of_type(all, group[0].doc_type);
        let satisfying = |mdoc: MdocView| mdoc.satisfies(requested);
        let kept = group.filter(satisfying);
        assert(candidates[k] == group_candidates(group, all, transcript));
        let from_group = candidates[k].1;
        let m = choose|m: int| 0 <= m < from_group.len() && from_group[m] == proposal;
        assert(from_group.len() == kept.len());
        assert(kept.contains(kept[m]));
        lemma_filter_member(group, satisfying, kept[m]);
        let at = choose|at: int| 0 <= at < group.len() && group[at] == kept[m];
        assert(groups.contains(group));
        let g = choose|g: int| 0 <= g < groups.len() && groups[g] == group;
        assert(groups[g][at].issuer_signed.well_formed());
        lemma_proposal_well_formed(
            kept[m],
            requested,
            crate::iso::disclosure::device_authentication_challenge(transcript, group[0].doc_type),
        );
    }
}

} // verus!
