//! What a user interface is told about a disclosure: who asks, under which
//! policy, for what, and what is missing.

use crate::error::Error;
use crate::holder::session::DisclosureError;
use crate::iso::mdocs::{Entry, NameSpace};
use crate::utils::reader_auth::{
    localized_view, ImageType, LocalizedStrings, LocalizedView, OrganizationView,
    ReaderRegistration, ReaderRegistrationView,
};
use vstd::prelude::*;

verus! {

/// A text in one language.
#[derive(Debug)]
pub struct LocalizedString {
    pub language: String,
    pub value: String,
}

/// The values of texts in single languages.
pub open spec fn localized_string_views(strings: Seq<LocalizedString>) -> LocalizedView {
    Seq::new(strings.len(), |i: int| (strings[i].language@, strings[i].value@))
}

/// A text of a verifier in several languages.
pub struct RPLocalizedStrings(pub LocalizedStrings);

impl RPLocalizedStrings {
    /// The text language by language, in order.
    pub fn into_localized_strings(self) -> (strings: Vec<LocalizedString>)
        ensures
            localized_string_views(strings@) == localized_view(self.0@),
    {
        localized_strings(&self.0)
    }
}

/// The text language by language, in order.
pub fn localized_strings(source: &LocalizedStrings) -> (strings: Vec<LocalizedString>)
    ensures
        localized_string_views(strings@) == localized_view(source@),
{
    let mut strings: Vec<LocalizedString> = Vec::new();
    let mut i: usize = 0;
    while i < source.len()
        invariant
            i <= source.len(),
            strings.len() == i,
            forall|k: int|
                0 <= k < i ==> (#[trigger] strings[k]).language@ == source[k].0@
                    && strings[k].value@ == source[k].1@,
        decreases source.len() - i,
    {
        strings.push(LocalizedString { language: source[i].0.clone(), value: source[i].1.clone() });
        i += 1;
    }
    assert(localized_string_views(strings@) =~= localized_view(source@));
    strings
}

/// An image, by its kind.
#[derive(Debug)]
pub enum Image {
    Svg { xml: String },
    Png { base64: String },
    Jpg { base64: String },
    Asset { path: String },
}

impl Image {
    /// Whether this image shows the image of kind `kind` with the data
    /// `data`.
    pub open spec fn shows(&self, kind: ImageType, data: Seq<char>) -> bool {
        match kind {
            ImageType::Svg => self matches Image::Svg { xml } && xml@ == data,
            ImageType::Png => self matches Image::Png { base64 } && base64@ == data,
            ImageType::Jpeg => self matches Image::Jpg { base64 } && base64@ == data,
        }
    }

    /// The image of a verifier, by its kind.
    pub fn from_logo(logo: &crate::utils::reader_auth::Image) -> (image: Self)
        ensures
            image.shows(logo.mime_type, logo.image_data@),
    {
        match logo.mime_type {
            ImageType::Svg => Image::Svg { xml: logo.image_data.clone() },
            ImageType::Png => Image::Png { base64: logo.image_data.clone() },
            ImageType::Jpeg => Image::Jpg { base64: logo.image_data.clone() },
        }
    }
}

/// The organisation behind a verifier, as it is shown.
#[derive(Debug)]
pub struct Organization {
    pub legal_name: Vec<LocalizedString>,
    pub display_name: Vec<LocalizedString>,
    pub description: Vec<LocalizedString>,
    pub image: Option<Image>,
    pub web_url: Option<String>,
    pub kvk: Option<String>,
    pub city: Option<Vec<LocalizedString>>,
    pub category: Vec<LocalizedString>,
    pub department: Option<Vec<LocalizedString>>,
    pub country_code: Option<String>,
}

/// A text that may be missing, language by language.
pub fn optional_localized_strings(source: &Option<LocalizedStrings>) -> (strings: Option<
    Vec<LocalizedString>,
>)
    ensures
        match source {
            Some(source) => strings matches Some(strings) && localized_string_views(strings@)
                == localized_view(source@),
            None => strings is None,
        },
{
    match source {
        Some(source) => Some(localized_strings(source)),
        None => None,
    }
}

/// Whether `shown` is the text `value`, which may be missing.
pub open spec fn shows_optional_text(shown: Option<String>, value: Option<Seq<char>>) -> bool {
    match value {
        Some(value) => shown matches Some(shown) && shown@ == value,
        None => shown is None,
    }
}

/// Whether `shown` is the text in several languages `value`, which may be
/// missing.
pub open spec fn shows_optional_localized(
    shown: Option<Vec<LocalizedString>>,
    value: Option<LocalizedView>,
) -> bool {
    match value {
        Some(value) => shown matches Some(shown) && localized_string_views(shown@) == value,
        None => shown is None,
    }
}

impl Organization {
    /// Whether this shows the organisation `value`: every text and every
    /// address as it is registered, and the image by its kind.
    pub open spec fn shows(&self, value: OrganizationView) -> bool {
        &&& localized_string_views(self.legal_name@) == value.legal_name
        &&& localized_string_views(self.display_name@) == value.display_name
        &&& localized_string_views(self.description@) == value.description
        &&& localized_string_views(self.category@) == value.category
        &&& match value.logo {
            Some(logo) => self.image matches Some(image) && image.shows(logo.0, logo.1),
            None => self.image is None,
        }
        &&& shows_optional_text(self.web_url, value.web_url)
        &&& shows_optional_text(self.kvk, value.kvk)
        &&& shows_optional_text(self.country_code, value.country_code)
        &&& shows_optional_localized(self.city, value.city)
        &&& shows_optional_localized(self.department, value.department)
    }

    /// The organisation of a registration, as it is shown.
    pub fn from_registration(value: &crate::utils::reader_auth::Organization) -> (shown: Self)
        ensures
            shown.shows(value@),
    {
        Organization {
            legal_name: localized_strings(&value.legal_name),
            display_name: localized_strings(&value.display_name),
            description: localized_strings(&value.description),
            image: match &value.logo {
                Some(logo) => Some(Image::from_logo(logo)),
                None => None,
            },
            web_url: value.web_url.clone(),
            kvk: value.kvk.clone(),
            city: optional_localized_strings(&value.city),
            category: localized_strings(&value.category),
            department: optional_localized_strings(&value.department),
            country_code: value.country_code.clone(),
        }
    }
}

/// What a verifier says it does with what it learns.
#[derive(Debug)]
pub struct RequestPolicy {
    pub data_storage_duration_in_minutes: Option<u64>,
    pub data_shared_with_third_parties: bool,
    pub data_deletion_possible: bool,
    pub policy_url: String,
}

impl RequestPolicy {
    /// Whether this is the policy of the registration `value`. Where the
    /// registration names no page for the policy, the address is empty.
    pub open spec fn shows(&self, value: ReaderRegistrationView) -> bool {
        &&& self.data_storage_duration_in_minutes == value.retention_policy.max_duration_in_minutes
        &&& self.data_shared_with_third_parties == value.sharing_policy.intent_to_share
        &&& self.data_deletion_possible == value.deletion_policy.deleteable
        &&& self.policy_url@ == match value.organization.privacy_policy_url {
            Some(url) => url,
            None => Seq::<char>::empty(),
        }
    }

    /// The policy of a registration.
    pub fn from_registration(value: &ReaderRegistration) -> (policy: Self)
        ensures
            policy.shows(value@),
    {
        RequestPolicy {
            data_storage_duration_in_minutes: value.retention_policy.max_duration_in_minutes,
            data_shared_with_third_parties: value.sharing_policy.intent_to_share,
            data_deletion_possible: value.deletion_policy.deleteable,
            policy_url: match &value.organization.privacy_policy_url {
                Some(url) => url.clone(),
                None => String::new(),
            },
        }
    }
}

/// An attribute that is asked and that the holder lacks, by its names.
#[derive(Debug)]
pub struct MissingAttribute {
    pub labels: Vec<LocalizedString>,
}

/// The attributes of one credential type that the holder lacks, each with
/// its names in several languages.
#[derive(Debug)]
pub struct MissingDisclosureAttributes {
    pub doc_type: String,
    pub attributes: Vec<(String, LocalizedStrings)>,
}

/// The names of the attributes that one credential type lacks.
pub open spec fn missing_labels_of(attributes: Seq<(String, LocalizedStrings)>) -> Seq<
    LocalizedView,
> {
    Seq::new(attributes.len(), |i: int| localized_view(attributes[i].1@))
}

/// The names of all attributes that are lacking, type after type.
pub open spec fn all_missing_labels(attributes: Seq<MissingDisclosureAttributes>) -> Seq<
    LocalizedView,
> {
    attributes.map_values(
        |doc_attributes: MissingDisclosureAttributes|
            missing_labels_of(doc_attributes.attributes@),
    ).flatten()
}

/// The names of missing attributes.
pub open spec fn missing_attribute_views(missing: Seq<MissingAttribute>) -> Seq<LocalizedView> {
    Seq::new(missing.len(), |i: int| localized_string_views(missing[i].labels@))
}

impl MissingAttribute {
    /// All attributes that are lacking, as a single list: type after type,
    /// and within a type in its order.
    pub fn from_missing_disclosure_attributes(attributes: Vec<MissingDisclosureAttributes>) -> (missing:
        Vec<Self>)
        ensures
            missing_attribute_views(missing@) == all_missing_labels(attributes@),
    {
        let ghost per_type = |doc_attributes: MissingDisclosureAttributes|
            missing_labels_of(doc_attributes.attributes@);
        let mut missing: Vec<MissingAttribute> = Vec::new();
        let mut i: usize = 0;
        proof {
            assert(attributes@.take(0).map_values(per_type).flatten() =~= Seq::<
                LocalizedView,
            >::empty());
            assert(missing_attribute_views(missing@) =~= Seq::<LocalizedView>::empty());
        }
        while i < attributes.len()
            invariant
                i <= attributes.len(),
                per_type == (|doc_attributes: MissingDisclosureAttributes|
                    missing_labels_of(doc_attributes.attributes@)),
                missing_attribute_views(missing@) == attributes@.take(i as int).map_values(
                    per_type,
                ).flatten(),
            decreases attributes.len() - i,
        {
            let doc_attributes = &attributes[i].attributes;
            let ghost before = missing_attribute_views(missing@);
            let mut j: usize = 0;
            proof {
                assert(before + missing_labels_of(doc_attributes@).take(0) =~= before);
            }
            while j < doc_attributes.len()
                invariant
                    j <= doc_attributes.len(),
                    missing_attribute_views(missing@) == before + missing_labels_of(
                        doc_attributes@,
                    ).take(j as int),
                decreases doc_attributes.len() - j,
            {
                let labels = localized_strings(&doc_attributes[j].1);
                proof {
                    let all = missing_labels_of(doc_attributes@);
                    all.lemma_take_succ_push(j as int);
                    assert(all[j as int] == localized_string_views(labels@));
                    assert(missing_attribute_views(missing@.push(MissingAttribute { labels }))
                        =~= missing_attribute_views(missing@).push(
                        localized_string_views(labels@),
                    ));
                    assert(missing_attribute_views(missing@.push(MissingAttribute { labels }))
                        =~= before + all.take(j + 1));
                }
                missing.push(MissingAttribute { labels });
                j += 1;
            }
            proof {
                missing_labels_of(doc_attributes@).lemma_take_len();
                attributes@.lemma_take_succ_push(i as int);
                attributes@.take(i as int).lemma_push_map_commute(per_type, attributes@[i as int]);
                attributes@.take(i as int).map_values(per_type).lemma_flatten_push(
                    per_type(attributes@[i as int]),
                );
            }
            i += 1;
        }
        proof {
            attributes@.lemma_take_len();
        }
        missing
    }
}

/// An attribute as it is shown on a card: its name and its value.
#[derive(Debug)]
pub struct CardAttribute {
    pub key: String,
    pub value: Vec<u8>,
}

/// What is asked of one credential, as it is shown.
#[derive(Debug)]
pub struct RequestedCard {
    pub doc_type: String,
    pub attributes: Vec<CardAttribute>,
}

/// What would be disclosed of one credential.
#[derive(Debug)]
pub struct DisclosureDocument {
    pub doc_type: String,
    pub attributes: Vec<(NameSpace, Vec<Entry>)>,
}

/// The names and values of the attributes of a document, namespace after
/// namespace.
pub open spec fn document_attributes(attributes: Seq<(NameSpace, Vec<Entry>)>) -> Seq<
    (Seq<char>, Seq<u8>),
> {
    attributes.map_values(
        |entry: (NameSpace, Vec<Entry>)| Seq::new(entry.1.len() as nat, |j: int| entry.1[j]@),
    ).flatten()
}

/// The names and values of the attributes of a card.
pub open spec fn card_attribute_views(attributes: Seq<CardAttribute>) -> Seq<(Seq<char>, Seq<u8>)> {
    Seq::new(attributes.len(), |i: int| (attributes[i].key@, attributes[i].value@))
}

/// Whether `cards` are the cards of `documents`, one for each, in order.
pub open spec fn cards_show(cards: Seq<RequestedCard>, documents: Seq<DisclosureDocument>) -> bool {
    cards.len() == documents.len() && forall|i: int|
        0 <= i < cards.len() ==> (#[trigger] cards[i]).doc_type@ == documents[i].doc_type@
            && card_attribute_views(cards[i].attributes@) == document_attributes(
            documents[i].attributes@,
        )
}

impl RequestedCard {
    /// The card for a document: its type, and its attributes as a single
    /// list, namespace after namespace.
    pub fn from_document(value: DisclosureDocument) -> (card: Self)
        ensures
            card.doc_type@ == value.doc_type@,
            card_attribute_views(card.attributes@) == document_attributes(value.attributes@),
    {
        let ghost per_name_space = |entry: (NameSpace, Vec<Entry>)|
            Seq::new(entry.1.len() as nat, |j: int| entry.1[j]@);
        let source = &value.attributes;
        let mut attributes: Vec<CardAttribute> = Vec::new();
        let mut i: usize = 0;
        proof {
            assert(source@.take(0).map_values(per_name_space).flatten() =~= Seq::<
                (Seq<char>, Seq<u8>),
            >::empty());
            assert(card_attribute_views(attributes@) =~= Seq::<(Seq<char>, Seq<u8>)>::empty());
        }
        while i < source.len()
            invariant
                i <= source.len(),
                per_name_space == (|entry: (NameSpace, Vec<Entry>)|
                    Seq::new(entry.1.len() as nat, |j: int| entry.1[j]@)),
                card_attribute_views(attributes@) == source@.take(i as int).map_values(
                    per_name_space,
                ).flatten(),
            decreases source.len() - i,
        {
            let entries = &source[i].1;
            let ghost before = card_attribute_views(attributes@);
            let ghost all = per_name_space(source@[i as int]);
            let mut j: usize = 0;
            proof {
                assert(before + all.take(0) =~= before);
            }
            while j < entries.len()
                invariant
                    j <= entries.len(),
                    all.len() == entries.len(),
                    forall|k: int| 0 <= k < entries.len() ==> all[k] == entries[k]@,
                    card_attribute_views(attributes@) == before + all.take(j as int),
                decreases entries.len() - j,
            {
                let attribute = CardAttribute {
                    key: entries[j].name.clone(),
                    value: entries[j].value.clone(),
                };
                proof {
                    all.lemma_take_succ_push(j as int);
                    assert(all[j as int] == (attribute.key@, attribute.value@));
                    assert(card_attribute_views(attributes@.push(attribute))
                        =~= card_attribute_views(attributes@).push(
                        (attribute.key@, attribute.value@),
                    ));
                    assert(card_attribute_views(attributes@.push(attribute)) =~= before + all.take(
                        j + 1,
                    ));
                }
                attributes.push(attribute);
                j += 1;
            }
            proof {
                all.lemma_take_len();
                source@.lemma_take_succ_push(i as int);
                source@.take(i as int).lemma_push_map_commute(per_name_space, source@[i as int]);
                source@.take(i as int).map_values(per_name_space).lemma_flatten_push(all);
            }
            i += 1;
        }
        proof {
            source@.lemma_take_len();
        }
        RequestedCard { doc_type: value.doc_type, attributes }
    }

    /// The cards for documents, one for each, in order.
    pub fn from_disclosure_documents(documents: Vec<DisclosureDocument>) -> (cards: Vec<Self>)
        ensures
            cards_show(cards@, documents@),
    {
        let ghost original = documents@;
        let mut cards: Vec<RequestedCard> = Vec::new();
        for document in it: documents
            invariant
                it.seq() == original,
                cards.len() == it.index(),
                forall|i: int|
                    0 <= i < cards.len() ==> (#[trigger] cards[i]).doc_type@ == original[i].doc_type@
                        && card_attribute_views(cards[i].attributes@) == document_attributes(
                        original[i].attributes@,
                    ),
        {
            cards.push(RequestedCard::from_document(document));
        }
        cards
    }
}

/// What is proposed to the user: the documents, and who asks.
#[derive(Debug)]
pub struct DisclosureProposal {
    pub documents: Vec<DisclosureDocument>,
    pub reader_registration: ReaderRegistration,
}

/// What starting a disclosure comes to, as it is shown: a request that the
/// user can agree to, or a request that cannot be met.
#[derive(Debug)]
pub enum StartDisclosureResult {
    Request {
        relying_party: Organization,
        policy: RequestPolicy,
        requested_cards: Vec<RequestedCard>,
        is_first_interaction_with_relying_party: bool,
        request_purpose: Vec<LocalizedString>,
    },
    RequestAttributesMissing {
        relying_party: Organization,
        missing_attributes: Vec<MissingAttribute>,
        is_first_interaction_with_relying_party: bool,
        request_purpose: Vec<LocalizedString>,
    },
}

/// Why a disclosure did not start, where the user can be told more than
/// that it failed.
#[derive(Debug)]
pub enum StartError {
    /// The holder lacks something that is asked.
    AttributesNotAvailable {
        reader_registration: ReaderRegistration,
        missing_attributes: Vec<MissingDisclosureAttributes>,
    },
    /// Anything else.
    Other(Error),
}

impl StartDisclosureResult {
    /// What is shown for the outcome of starting a disclosure. A proposal
    /// is shown as a request, missing attributes as a request that cannot
    /// be met; any other failure stays a failure. Whether this is the
    /// first interaction with the verifier is not settled here, and
    /// nothing is said of that flag.
    pub fn try_from_result(value: Result<DisclosureProposal, StartError>) -> (shown: Result<
        Self,
        Error,
    >)
        ensures
            match value {
                Ok(proposal) => {
                    &&& shown is Ok
                    &&& shown->Ok_0 is Request
                    &&& shown->Ok_0->Request_relying_party.shows(
                        proposal.reader_registration@.organization,
                    )
                    &&& shown->Ok_0->Request_policy.shows(proposal.reader_registration@)
                    &&& cards_show(shown->Ok_0->Request_requested_cards@, proposal.documents@)
                    &&& localized_string_views(shown->Ok_0->Request_request_purpose@)
                        == proposal.reader_registration@.purpose_statement
                },
                Err(StartError::AttributesNotAvailable { reader_registration, missing_attributes }) => {
                    &&& shown is Ok
                    &&& shown->Ok_0 is RequestAttributesMissing
                    &&& shown->Ok_0->RequestAttributesMissing_relying_party.shows(
                        reader_registration@.organization,
                    )
                    &&& missing_attribute_views(
                        shown->Ok_0->RequestAttributesMissing_missing_attributes@,
                    ) == all_missing_labels(missing_attributes@)
                    &&& localized_string_views(
                        shown->Ok_0->RequestAttributesMissing_request_purpose@,
                    ) == reader_registration@.purpose_statement
                },
                Err(StartError::Other(error)) => shown matches Err(returned) && returned == error,
            },
    {
        match value {
            Ok(proposal) => {
                let policy = RequestPolicy::from_registration(&proposal.reader_registration);
                let request_purpose = localized_strings(
                    &proposal.reader_registration.purpose_statement,
                );
                Ok(
                    StartDisclosureResult::Request {
                        relying_party: Organization::from_registration(
                            &proposal.reader_registration.organization,
                        ),
                        policy,
                        requested_cards: RequestedCard::from_disclosure_documents(
                            proposal.documents,
                        ),
                        is_first_interaction_with_relying_party: false,
                        request_purpose,
                    },
                )
            },
            Err(StartError::AttributesNotAvailable { reader_registration, missing_attributes }) => {
                let request_purpose = localized_strings(&reader_registration.purpose_statement);
                Ok(
                    StartDisclosureResult::RequestAttributesMissing {
                        relying_party: Organization::from_registration(
                            &reader_registration.organization,
                        ),
                        missing_attributes: MissingAttribute::from_missing_disclosure_attributes(
                            missing_attributes,
                        ),
                        is_first_interaction_with_relying_party: false,
                        request_purpose,
                    },
                )
            },
            Err(StartError::Other(error)) => Err(error),
        }
    }
}

/// Why the keeper of the user's keys refused an instruction.
#[derive(Debug, Clone, Copy, PartialEq, Eq)]
pub enum WalletInstructionError {
    IncorrectPin { leftover_attempts: u8, is_final_attempt: bool },
    Timeout { timeout_millis: u64 },
    Blocked,
}

/// Why an instruction to the keeper of the user's keys failed.
#[derive(Debug)]
pub enum InstructionError {
    IncorrectPin { leftover_attempts: u8, is_final_attempt: bool },
    Timeout { timeout_millis: u64 },
    Blocked,
    /// Anything that the user cannot do something about.
    Other(String),
}

/// Why a disclosure that the user agreed to failed.
#[derive(Debug)]
pub enum AcceptError {
    /// The keeper of the user's keys refused.
    Instruction(InstructionError),
    /// The disclosure itself failed.
    Disclosure(DisclosureError),
}

/// What agreeing to a disclosure comes to, as it is shown.
#[derive(Debug)]
pub enum AcceptDisclosureResult {
    Success { return_url: Option<String> },
    InstructionError { error: WalletInstructionError },
}

impl AcceptDisclosureResult {
    /// What is shown for the outcome of a disclosure. Success is shown with
    /// the address to go to next; a wrong PIN, a timeout and a blocked
    /// account are shown as such; any other failure stays a failure.
    pub fn try_from_result(value: Result<Option<String>, AcceptError>) -> (shown: Result<
        Self,
        AcceptError,
    >)
        ensures
            match value {
                Ok(return_url) => shown matches Ok(AcceptDisclosureResult::Success { return_url: url })
                    && url == return_url,
                Err(
                    AcceptError::Instruction(
                        InstructionError::IncorrectPin { leftover_attempts, is_final_attempt },
                    ),
                ) => shown matches Ok(AcceptDisclosureResult::InstructionError { error }) && error
                    == (WalletInstructionError::IncorrectPin {
                    leftover_attempts,
                    is_final_attempt,
                }),
                Err(AcceptError::Instruction(InstructionError::Timeout { timeout_millis })) => shown
                    matches Ok(AcceptDisclosureResult::InstructionError { error }) && error
                    == (WalletInstructionError::Timeout { timeout_millis }),
                Err(AcceptError::Instruction(InstructionError::Blocked)) => shown matches Ok(
                    AcceptDisclosureResult::InstructionError { error },
                ) && error == WalletInstructionError::Blocked,
                Err(error) => shown matches Err(returned) && returned == error,
            },
    {
        match value {
            Ok(return_url) => Ok(AcceptDisclosureResult::Success { return_url }),
            Err(AcceptError::Instruction(InstructionError::IncorrectPin { leftover_attempts, is_final_attempt })) => {
                Ok(
                    AcceptDisclosureResult::InstructionError {
                        error: WalletInstructionError::IncorrectPin {
                            leftover_attempts,
                            is_final_attempt,
                        },
                    },
                )
            },
            Err(AcceptError::Instruction(InstructionError::Timeout { timeout_millis })) => Ok(
                AcceptDisclosureResult::InstructionError {
                    error: WalletInstructionError::Timeout { timeout_millis },
                },
            ),
            Err(AcceptError::Instruction(InstructionError::Blocked)) => Ok(
                AcceptDisclosureResult::InstructionError { error: WalletInstructionError::Blocked },
            ),
            Err(error) => Err(error),
        }
    }
}

} // verus!
