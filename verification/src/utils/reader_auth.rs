//! What a verifier is registered for: who it is, what it may ask, and what
//! it says it does with the answers.

use crate::identifiers::{identifier_views, AttributeIdentifier, IdentifierView};
use crate::utils::json::{json_parsed, lemma_object_view, member_views, parse_json, Json, JsonValue};
use crate::utils::x509::{
    certificate_extension, der_utf8_string, utf8_string_from_der, x509_extension, Certificate,
    CertificateError,
};
use vstd::prelude::*;

verus! {

/// A text in several languages: pairs of a language and the text in it.
pub type LocalizedStrings = Vec<(String, String)>;

/// The kind of an image.
#[derive(Debug, Clone, Copy, PartialEq, Eq)]
pub enum ImageType {
    Svg,
    Png,
    Jpeg,
}

/// An image: its kind and its data as text.
#[derive(Debug, PartialEq, Eq)]
pub struct Image {
    pub mime_type: ImageType,
    pub image_data: String,
}

/// The organisation behind a verifier.
#[derive(Debug, PartialEq, Eq)]
pub struct Organization {
    pub display_name: LocalizedStrings,
    pub legal_name: LocalizedStrings,
    pub description: LocalizedStrings,
    pub category: LocalizedStrings,
    pub logo: Option<Image>,
    pub web_url: Option<String>,
    pub kvk: Option<String>,
    pub city: Option<LocalizedStrings>,
    pub department: Option<LocalizedStrings>,
    pub country_code: Option<String>,
    pub privacy_policy_url: Option<String>,
}

#[derive(Debug, Clone, Copy, PartialEq, Eq)]
pub struct RetentionPolicy {
    pub intent_to_retain: bool,
    pub max_duration_in_minutes: Option<u64>,
}

#[derive(Debug, Clone, Copy, PartialEq, Eq)]
pub struct SharingPolicy {
    pub intent_to_share: bool,
}

#[derive(Debug, Clone, Copy, PartialEq, Eq)]
pub struct DeletionPolicy {
    pub deleteable: bool,
}

/// The attributes that a verifier may ask of one namespace.
pub type AuthorizedNamespace = Vec<String>;

/// The attributes that a verifier may ask of one credential type, namespace
/// by namespace.
pub type AuthorizedMdoc = Vec<(String, AuthorizedNamespace)>;

/// The registration of a verifier, as its certificate carries it.
#[derive(Debug, PartialEq, Eq)]
pub struct ReaderRegistration {
    pub purpose_statement: LocalizedStrings,
    pub retention_policy: RetentionPolicy,
    pub sharing_policy: SharingPolicy,
    pub deletion_policy: DeletionPolicy,
    pub organization: Organization,
    pub request_origin_base_url: String,
    /// What the verifier may ask, credential type by credential type.
    pub attributes: Vec<(String, AuthorizedMdoc)>,
}

/// The mathematical value of a text in several languages.
pub type LocalizedView = Seq<(Seq<char>, Seq<char>)>;

/// The value of a text in several languages.
pub open spec fn localized_view(strings: Seq<(String, String)>) -> LocalizedView {
    Seq::new(strings.len(), |i: int| (strings[i].0@, strings[i].1@))
}

/// The value of a text in several languages that may be missing.
pub open spec fn optional_localized_view(strings: Option<LocalizedStrings>) -> Option<
    LocalizedView,
> {
    match strings {
        Some(strings) => Some(localized_view(strings@)),
        None => None,
    }
}

/// The value of a text that may be missing.
pub open spec fn optional_text_view(text: Option<String>) -> Option<Seq<char>> {
    match text {
        Some(text) => Some(text@),
        None => None,
    }
}

/// The mathematical value of an [`Organization`].
pub struct OrganizationView {
    pub display_name: LocalizedView,
    pub legal_name: LocalizedView,
    pub description: LocalizedView,
    pub category: LocalizedView,
    pub logo: Option<(ImageType, Seq<char>)>,
    pub web_url: Option<Seq<char>>,
    pub kvk: Option<Seq<char>>,
    pub city: Option<LocalizedView>,
    pub department: Option<LocalizedView>,
    pub country_code: Option<Seq<char>>,
    pub privacy_policy_url: Option<Seq<char>>,
}

impl View for Organization {
    type V = OrganizationView;

    open spec fn view(&self) -> OrganizationView {
        OrganizationView {
            display_name: localized_view(self.display_name@),
            legal_name: localized_view(self.legal_name@),
            description: localized_view(self.description@),
            category: localized_view(self.category@),
            logo: match self.logo {
                Some(logo) => Some((logo.mime_type, logo.image_data@)),
                None => None,
            },
            web_url: optional_text_view(self.web_url),
            kvk: optional_text_view(self.kvk),
            city: optional_localized_view(self.city),
            department: optional_localized_view(self.department),
            country_code: optional_text_view(self.country_code),
            privacy_policy_url: optional_text_view(self.privacy_policy_url),
        }
    }
}

/// The mathematical value of what a verifier may ask.
pub type AuthorizedView = Seq<(Seq<char>, Seq<(Seq<char>, Seq<Seq<char>>)>)>;

/// The value of the attributes that a verifier may ask of one type.
pub open spec fn authorized_mdoc_view(name_spaces: Seq<(String, AuthorizedNamespace)>) -> Seq<
    (Seq<char>, Seq<Seq<char>>),
> {
    Seq::new(
        name_spaces.len(),
        |j: int|
            (
                name_spaces[j].0@,
                Seq::new(name_spaces[j].1.len() as nat, |k: int| name_spaces[j].1[k]@),
            ),
    )
}

/// The value of what a verifier may ask.
pub open spec fn authorized_view(attributes: Seq<(String, AuthorizedMdoc)>) -> AuthorizedView {
    Seq::new(attributes.len(), |i: int| (attributes[i].0@, authorized_mdoc_view(attributes[i].1@)))
}

/// The mathematical value of a [`ReaderRegistration`].
pub struct ReaderRegistrationView {
    pub purpose_statement: LocalizedView,
    pub retention_policy: RetentionPolicy,
    pub sharing_policy: SharingPolicy,
    pub deletion_policy: DeletionPolicy,
    pub organization: OrganizationView,
    pub request_origin_base_url: Seq<char>,
    pub attributes: AuthorizedView,
}

impl View for ReaderRegistration {
    type V = ReaderRegistrationView;

    open spec fn view(&self) -> ReaderRegistrationView {
        ReaderRegistrationView {
            purpose_statement: localized_view(self.purpose_statement@),
            retention_policy: self.retention_policy,
            sharing_policy: self.sharing_policy,
            deletion_policy: self.deletion_policy,
            organization: self.organization@,
            request_origin_base_url: self.request_origin_base_url@,
            attributes: authorized_view(self.attributes@),
        }
    }
}

/// The text in several languages that a JSON value holds: an object of
/// which each member gives a language and the text in it.
pub open spec fn localized_of_json(json: Json) -> Option<LocalizedView> {
    match json {
        Json::Object(members) => if forall|i: int|
            0 <= i < members.len() ==> (#[trigger] members[i]).1 is Text {
            Some(Seq::new(members.len(), |i: int| (members[i].0, members[i].1->Text_0)))
        } else {
            None
        },
        _ => None,
    }
}

/// The text in several languages in the member `name`.
pub open spec fn localized_field(json: Json, name: Seq<char>) -> Option<LocalizedView> {
    match json.field(name) {
        Some(value) => localized_of_json(value),
        None => None,
    }
}

/// The text in several languages in the member `name`, which may be
/// missing.
pub open spec fn optional_localized_field(json: Json, name: Seq<char>) -> Option<
    Option<LocalizedView>,
> {
    match json.field(name) {
        Some(value) => match localized_of_json(value) {
            Some(strings) => Some(Some(strings)),
            None => None,
        },
        None => Some(None),
    }
}

/// The kind of image that a media type names.
pub open spec fn image_type_of(mime_type: Seq<char>) -> Option<ImageType> {
    if mime_type == "image/svg+xml"@ {
        Some(ImageType::Svg)
    } else if mime_type == "image/png"@ {
        Some(ImageType::Png)
    } else if mime_type == "image/jpeg"@ {
        Some(ImageType::Jpeg)
    } else {
        None
    }
}

/// The image in the member `logo`, which may be missing.
pub open spec fn logo_of_json(json: Json) -> Option<Option<(ImageType, Seq<char>)>> {
    match json.field("logo"@) {
        None => Some(None),
        Some(logo) => match (logo.text_field("mimeType"@), logo.text_field("imageData"@)) {
            (Some(mime_type), Some(image_data)) => match image_type_of(mime_type) {
                Some(kind) => Some(Some((kind, image_data))),
                None => None,
            },
            _ => None,
        },
    }
}

/// The organisation that a JSON value describes.
pub open spec fn organization_of_json(json: Json) -> Option<OrganizationView> {
    match (
        localized_field(json, "displayName"@),
        localized_field(json, "legalName"@),
        localized_field(json, "description"@),
        localized_field(json, "category"@),
        logo_of_json(json),
        json.optional_text_field("webUrl"@),
    ) {
        (
            Some(display_name),
            Some(legal_name),
            Some(description),
            Some(category),
            Some(logo),
            Some(web_url),
        ) => match (
            json.optional_text_field("kvk"@),
            optional_localized_field(json, "city"@),
            optional_localized_field(json, "department"@),
            json.optional_text_field("countryCode"@),
            json.optional_text_field("privacyPolicyUrl"@),
        ) {
            (Some(kvk), Some(city), Some(department), Some(country_code), Some(privacy_policy_url)) => {
                Some(
                    OrganizationView {
                        display_name,
                        legal_name,
                        description,
                        category,
                        logo,
                        web_url,
                        kvk,
                        city,
                        department,
                        country_code,
                        privacy_policy_url,
                    },
                )
            },
            _ => None,
        },
        _ => None,
    }
}

/// Whether a JSON value lists attribute names: an object of which each
/// member has an object for its value.
pub open spec fn lists_names(json: Json) -> bool {
    json is Object && forall|k: int|
        0 <= k < json->Object_0.len() ==> (#[trigger] json->Object_0[k]).1 is Object
}

/// Whether a JSON value lists namespaces with their attribute names.
pub open spec fn lists_name_spaces(json: Json) -> bool {
    json is Object && forall|j: int|
        0 <= j < json->Object_0.len() ==> lists_names((#[trigger] json->Object_0[j]).1)
}

/// What a verifier may ask, as a JSON value gives it: an object of
/// credential types, each an object of namespaces, each an object of
/// attribute names. The names are the members' names; their order stays.
pub open spec fn authorized_of_json(json: Json) -> Option<AuthorizedView> {
    match json {
        Json::Object(doc_types) => if forall|i: int|
            0 <= i < doc_types.len() ==> lists_name_spaces((#[trigger] doc_types[i]).1) {
            Some(
                Seq::new(
                    doc_types.len(),
                    |i: int|
                        (
                            doc_types[i].0,
                            Seq::new(
                                doc_types[i].1->Object_0.len(),
                                |j: int|
                                    (
                                        doc_types[i].1->Object_0[j].0,
                                        Seq::new(
                                            doc_types[i].1->Object_0[j].1->Object_0.len(),
                                            |k: int| doc_types[i].1->Object_0[j].1->Object_0[k].0,
                                        ),
                                    ),
                            ),
                        ),
                ),
            )
        } else {
            None
        },
        _ => None,
    }
}

/// What a verifier may ask, in the member `attributes`.
pub open spec fn authorized_field(json: Json) -> Option<AuthorizedView> {
    match json.field("attributes"@) {
        Some(value) => authorized_of_json(value),
        None => None,
    }
}

/// The three policies that a JSON value states.
pub open spec fn policies_of_json(json: Json) -> Option<
    (RetentionPolicy, SharingPolicy, DeletionPolicy),
> {
    match (
        json.field("retentionPolicy"@),
        json.field("sharingPolicy"@),
        json.field("deletionPolicy"@),
    ) {
        (Some(retention), Some(sharing), Some(deletion)) => match (
            retention.bool_field("intentToRetain"@),
            retention.optional_u64_field("maxDurationInMinutes"@),
            sharing.bool_field("intentToShare"@),
            deletion.bool_field("deleteable"@),
        ) {
            (
                Some(intent_to_retain),
                Some(max_duration_in_minutes),
                Some(intent_to_share),
                Some(deleteable),
            ) => Some(
                (
                    RetentionPolicy { intent_to_retain, max_duration_in_minutes },
                    SharingPolicy { intent_to_share },
                    DeletionPolicy { deleteable },
                ),
            ),
            _ => None,
        },
        _ => None,
    }
}

/// The registration that a JSON value describes.
pub open spec fn registration_of_json(json: Json) -> Option<ReaderRegistrationView> {
    match (
        localized_field(json, "purposeStatement"@),
        policies_of_json(json),
        json.field("organization"@),
        json.text_field("requestOriginBaseUrl"@),
        authorized_field(json),
    ) {
        (
            Some(purpose_statement),
            Some(policies),
            Some(organization),
            Some(request_origin_base_url),
            Some(attributes),
        ) => match organization_of_json(organization) {
            Some(organization) => Some(
                ReaderRegistrationView {
                    purpose_statement,
                    retention_policy: policies.0,
                    sharing_policy: policies.1,
                    deletion_policy: policies.2,
                    organization,
                    request_origin_base_url,
                    attributes,
                },
            ),
            None => None,
        },
        _ => None,
    }
}

/// Reads [`localized_of_json`].
pub fn read_localized(json: &JsonValue) -> (strings: Option<LocalizedStrings>)
    ensures
        match strings {
            Some(strings) => localized_of_json(json@) == Some(localized_view(strings@)),
            None => localized_of_json(json@) is None,
        },
{
    let members = match json {
        JsonValue::Object(members) => members,
        _ => { return None; },
    };
    proof {
        lemma_object_view(*members);
    }
    let ghost views = member_views(members@);
    let mut strings: LocalizedStrings = Vec::new();
    let mut i: usize = 0;
    while i < members.len()
        invariant
            i <= members.len(),
            strings.len() == i,
            views == member_views(members@),
            json@ == Json::Object(views),
            forall|k: int|
                0 <= k < i ==> (#[trigger] views[k]).1 is Text && strings[k].0@ == views[k].0
                    && strings[k].1@ == views[k].1->Text_0,
        decreases members.len() - i,
    {
        match &members[i].1 {
            JsonValue::Text(text) => {
                assert(views[i as int].1 == Json::Text(text@));
                strings.push((members[i].0.clone(), text.clone()));
            },
            _ => {
                assert(!(views[i as int].1 is Text));
                return None;
            },
        }
        i += 1;
    }
    assert(localized_view(strings@) =~= localized_of_json(json@)->0);
    Some(strings)
}

/// Reads [`localized_field`].
pub fn read_localized_field(json: &JsonValue, name: &str) -> (strings: Option<LocalizedStrings>)
    ensures
        match strings {
            Some(strings) => localized_field(json@, name@) == Some(localized_view(strings@)),
            None => localized_field(json@, name@) is None,
        },
{
    match json.field(name) {
        Some(value) => read_localized(value),
        None => None,
    }
}

/// Reads [`optional_localized_field`].
pub fn read_optional_localized_field(json: &JsonValue, name: &str) -> (strings: Option<
    Option<LocalizedStrings>,
>)
    ensures
        match strings {
            Some(strings) => optional_localized_field(json@, name@) == Some(
                optional_localized_view(strings),
            ),
            None => optional_localized_field(json@, name@) is None,
        },
{
    match json.field(name) {
        Some(value) => match read_localized(value) {
            Some(strings) => Some(Some(strings)),
            None => None,
        },
        None => Some(None),
    }
}

/// Finds [`image_type_of`].
pub fn read_image_type(mime_type: &String) -> (kind: Option<ImageType>)
    ensures
        kind == image_type_of(mime_type@),
{
    if *mime_type == "image/svg+xml".to_owned() {
        Some(ImageType::Svg)
    } else if *mime_type == "image/png".to_owned() {
        Some(ImageType::Png)
    } else if *mime_type == "image/jpeg".to_owned() {
        Some(ImageType::Jpeg)
    } else {
        None
    }
}

/// Reads [`logo_of_json`].
pub fn read_logo(json: &JsonValue) -> (logo: Option<Option<Image>>)
    ensures
        match logo {
            Some(Some(logo)) => logo_of_json(json@) == Some(
                Some((logo.mime_type, logo.image_data@)),
            ),
            Some(None) => logo_of_json(json@) == Some(None::<(ImageType, Seq<char>)>),
            None => logo_of_json(json@) is None,
        },
{
    let logo = match json.field("logo") {
        None => { return Some(None); },
        Some(logo) => logo,
    };
    let mime_type = match logo.text_field("mimeType") {
        Some(mime_type) => mime_type,
        None => { return None; },
    };
    let image_data = match logo.text_field("imageData") {
        Some(image_data) => image_data,
        None => { return None; },
    };
    match read_image_type(&mime_type) {
        Some(mime_type) => Some(Some(Image { mime_type, image_data })),
        None => None,
    }
}

impl Organization {
    /// Reads [`organization_of_json`].
    pub fn from_json(json: &JsonValue) -> (organization: Option<Self>)
        ensures
            match organization {
                Some(organization) => organization_of_json(json@) == Some(organization@),
                None => organization_of_json(json@) is None,
            },
    {
        let display_name = match read_localized_field(json, "displayName") {
            Some(value) => value,
            None => { return None; },
        };
        let legal_name = match read_localized_field(json, "legalName") {
            Some(value) => value,
            None => { return None; },
        };
        let description = match read_localized_field(json, "description") {
            Some(value) => value,
            None => { return None; },
        };
        let category = match read_localized_field(json, "category") {
            Some(value) => value,
            None => { return None; },
        };
        let logo = match read_logo(json) {
            Some(value) => value,
            None => { return None; },
        };
        let web_url = match json.optional_text_field("webUrl") {
            Some(value) => value,
            None => { return None; },
        };
        let kvk = match json.optional_text_field("kvk") {
            Some(value) => value,
            None => { return None; },
        };
        let city = match read_optional_localized_field(json, "city") {
            Some(value) => value,
            None => { return None; },
        };
        let department = match read_optional_localized_field(json, "department") {
            Some(value) => value,
            None => { return None; },
        };
        let country_code = match json.optional_text_field("countryCode") {
            Some(value) => value,
            None => { return None; },
        };
        let privacy_policy_url = match json.optional_text_field("privacyPolicyUrl") {
            Some(value) => value,
            None => { return None; },
        };
        Some(
            Organization {
                display_name,
                legal_name,
                description,
                category,
                logo,
                web_url,
                kvk,
                city,
                department,
                country_code,
                privacy_policy_url,
            },
        )
    }
}

/// Whether `names` are the names that `json` lists.
pub open spec fn names_match(names: Seq<String>, json: Json) -> bool {
    &&& lists_names(json)
    &&& names.len() == json->Object_0.len()
    &&& forall|k: int| 0 <= k < names.len() ==> (#[trigger] names[k])@ == json->Object_0[k].0
}

/// Whether `entry` is the namespace that `member` gives.
pub open spec fn name_space_matches(
    entry: (String, AuthorizedNamespace),
    member: (Seq<char>, Json),
) -> bool {
    entry.0@ == member.0 && names_match(entry.1@, member.1)
}

/// Whether `name_spaces` are the namespaces that `json` lists.
pub open spec fn name_spaces_match(name_spaces: Seq<(String, AuthorizedNamespace)>, json: Json) -> bool {
    &&& lists_name_spaces(json)
    &&& name_spaces.len() == json->Object_0.len()
    &&& forall|j: int|
        0 <= j < name_spaces.len() ==> name_space_matches(
            #[trigger] name_spaces[j],
            json->Object_0[j],
        )
}

/// Whether `entry` is the credential type that `member` gives.
pub open spec fn doc_type_matches(entry: (String, AuthorizedMdoc), member: (Seq<char>, Json)) -> bool {
    entry.0@ == member.0 && name_spaces_match(entry.1@, member.1)
}

/// Names that match a JSON value are what is read off it.
pub proof fn lemma_authorized_view(attributes: Seq<(String, AuthorizedMdoc)>, json: Json)
    requires
        json is Object,
        attributes.len() == json->Object_0.len(),
        forall|i: int|
            0 <= i < attributes.len() ==> doc_type_matches(
                #[trigger] attributes[i],
                json->Object_0[i],
            ),
    ensures
        authorized_of_json(json) == Some(authorized_view(attributes)),
{
    let doc_types = json->Object_0;
    assert forall|i: int| 0 <= i < doc_types.len() implies lists_name_spaces(
        (#[trigger] doc_types[i]).1,
    ) by {
        assert(doc_type_matches(attributes[i], doc_types[i]));
    }
    let read = authorized_of_json(json)->0;
    let held = authorized_view(attributes);
    assert(read.len() == held.len());
    assert forall|i: int| 0 <= i < held.len() implies read[i] == held[i] by {
        assert(doc_type_matches(attributes[i], doc_types[i]));
        let name_spaces = attributes[i].1@;
        let members = doc_types[i].1->Object_0;
        assert(read[i].1.len() == held[i].1.len());
        assert forall|j: int| 0 <= j < held[i].1.len() implies read[i].1[j] == held[i].1[j] by {
            assert(name_space_matches(name_spaces[j], members[j]));
            let names = name_spaces[j].1@;
            let listed = members[j].1->Object_0;
            assert(read[i].1[j].1.len() == held[i].1[j].1.len());
            assert forall|k: int| 0 <= k < names.len() implies read[i].1[j].1[k]
                == held[i].1[j].1[k] by {
                assert(names[k]@ == listed[k].0);
            }
            assert(read[i].1[j].1 =~= held[i].1[j].1);
        }
        assert(read[i].1 =~= held[i].1);
    }
    assert(read =~= held);
}

/// Reads the names of the members of an object whose members all have
/// objects for their values.
fn read_names(json: &JsonValue) -> (names: Option<AuthorizedNamespace>)
    ensures
        match names {
            Some(names) => names_match(names@, json@),
            None => !lists_names(json@),
        },
{
    let members = match json {
        JsonValue::Object(members) => members,
        _ => { return None; },
    };
    proof {
        lemma_object_view(*members);
    }
    let ghost views = member_views(members@);
    let mut names: AuthorizedNamespace = Vec::new();
    let mut k: usize = 0;
    while k < members.len()
        invariant
            k <= members.len(),
            names.len() == k,
            views == member_views(members@),
            json@ == Json::Object(views),
            forall|c: int| 0 <= c < k ==> (#[trigger] views[c]).1 is Object,
            forall|c: int| 0 <= c < k ==> (#[trigger] names[c])@ == views[c].0,
        decreases members.len() - k,
    {
        match &members[k].1 {
            JsonValue::Object(_) => {
                assert(views[k as int].1 is Object);
                names.push(members[k].0.clone());
            },
            _ => {
                assert(!(views[k as int].1 is Object));
                return None;
            },
        }
        k += 1;
    }
    Some(names)
}

/// Reads the namespaces of one credential type with their attribute names.
fn read_name_spaces(json: &JsonValue) -> (name_spaces: Option<AuthorizedMdoc>)
    ensures
        match name_spaces {
            Some(name_spaces) => name_spaces_match(name_spaces@, json@),
            None => !lists_name_spaces(json@),
        },
{
    let members = match json {
        JsonValue::Object(members) => members,
        _ => { return None; },
    };
    proof {
        lemma_object_view(*members);
    }
    let ghost views = member_views(members@);
    let mut name_spaces: AuthorizedMdoc = Vec::new();
    let mut j: usize = 0;
    while j < members.len()
        invariant
            j <= members.len(),
            name_spaces.len() == j,
            views == member_views(members@),
            json@ == Json::Object(views),
            forall|b: int| 0 <= b < j ==> lists_names((#[trigger] views[b]).1),
            forall|b: int|
                0 <= b < j ==> name_space_matches(#[trigger] name_spaces[b], views[b]),
        decreases members.len() - j,
    {
        assert(views[j as int] == (members[j as int].0@, members[j as int].1@));
        match read_names(&members[j].1) {
            Some(names) => {
                name_spaces.push((members[j].0.clone(), names));
            },
            None => {
                assert(!lists_names(views[j as int].1));
                assert(json@->Object_0[j as int] == views[j as int]);
                assert(!lists_name_spaces(json@));
                return None;
            },
        }
        j += 1;
    }
    Some(name_spaces)
}

/// Reads [`authorized_of_json`].
pub fn read_authorized(json: &JsonValue) -> (attributes: Option<Vec<(String, AuthorizedMdoc)>>)
    ensures
        match attributes {
            Some(attributes) => authorized_of_json(json@) == Some(authorized_view(attributes@)),
            None => authorized_of_json(json@) is None,
        },
{
    let members = match json {
        JsonValue::Object(members) => members,
        _ => { return None; },
    };
    proof {
        lemma_object_view(*members);
    }
    let ghost views = member_views(members@);
    let mut attributes: Vec<(String, AuthorizedMdoc)> = Vec::new();
    let mut i: usize = 0;
    while i < members.len()
        invariant
            i <= members.len(),
            attributes.len() == i,
            views == member_views(members@),
            json@ == Json::Object(views),
            forall|a: int| 0 <= a < i ==> doc_type_matches(#[trigger] attributes[a], views[a]),
        decreases members.len() - i,
    {
        assert(views[i as int] == (members[i as int].0@, members[i as int].1@));
        match read_name_spaces(&members[i].1) {
            Some(name_spaces) => {
                attributes.push((members[i].0.clone(), name_spaces));
            },
            None => {
                assert(!lists_name_spaces(views[i as int].1));
                return None;
            },
        }
        i += 1;
    }
    proof {
        lemma_authorized_view(attributes@, json@);
    }
    Some(attributes)
}

/// The object identifier of the certificate extension that carries a
/// verifier's registration, 2.1.123.1, in its encoded form.
pub const OID_EXT_READER_AUTH: [u8; 3] = [0x51, 0x7b, 0x01];

/// The registration that a certificate carries: in the extension for it, as
/// a UTF-8 string in DER that holds JSON. A certificate without the
/// extension carries none. A certificate that cannot be read, or in which
/// the extension does not hold a registration, is an error.
pub open spec fn registration_in(certificate: Seq<u8>) -> Result<
    Option<ReaderRegistrationView>,
    CertificateError,
> {
    match x509_extension(certificate, OID_EXT_READER_AUTH@) {
        None => Err(CertificateError::Parsing),
        Some(None) => Ok(None),
        Some(Some(value)) => match der_utf8_string(value) {
            None => Err(CertificateError::Parsing),
            Some(text) => match json_parsed(text) {
                None => Err(CertificateError::Parsing),
                Some(json) => match registration_of_json(json) {
                    None => Err(CertificateError::Parsing),
                    Some(registration) => Ok(Some(registration)),
                },
            },
        },
    }
}

impl ReaderRegistration {
    /// Reads the registration that a certificate carries.
    pub fn from_certificate(certificate: &Certificate) -> (registration: Result<
        Option<Self>,
        CertificateError,
    >)
        ensures
            match registration {
                Ok(Some(registration)) => registration_in(certificate@) == Ok::<
                    Option<ReaderRegistrationView>,
                    CertificateError,
                >(Some(registration@)),
                Ok(None) => registration_in(certificate@) == Ok::<
                    Option<ReaderRegistrationView>,
                    CertificateError,
                >(None),
                Err(error) => registration_in(certificate@) == Err::<
                    Option<ReaderRegistrationView>,
                    CertificateError,
                >(error),
            },
    {
        let value = match certificate_extension(certificate.as_bytes(), &OID_EXT_READER_AUTH) {
            None => { return Err(CertificateError::Parsing); },
            Some(None) => { return Ok(None); },
            Some(Some(value)) => value,
        };
        let text = match utf8_string_from_der(&value) {
            None => { return Err(CertificateError::Parsing); },
            Some(text) => text,
        };
        let json = match parse_json(text.as_str()) {
            None => { return Err(CertificateError::Parsing); },
            Some(json) => json,
        };
        match Self::from_json(&json) {
            None => Err(CertificateError::Parsing),
            Some(registration) => Ok(Some(registration)),
        }
    }

    /// Reads [`registration_of_json`].
    pub fn from_json(json: &JsonValue) -> (registration: Option<Self>)
        ensures
            match registration {
                Some(registration) => registration_of_json(json@) == Some(registration@),
                None => registration_of_json(json@) is None,
            },
    {
        let purpose_statement = match read_localized_field(json, "purposeStatement") {
            Some(value) => value,
            None => { return None; },
        };
        let retention = match json.field("retentionPolicy") {
            Some(value) => value,
            None => { return None; },
        };
        let sharing = match json.field("sharingPolicy") {
            Some(value) => value,
            None => { return None; },
        };
        let deletion = match json.field("deletionPolicy") {
            Some(value) => value,
            None => { return None; },
        };
        let intent_to_retain = match retention.bool_field("intentToRetain") {
            Some(value) => value,
            None => { return None; },
        };
        let max_duration_in_minutes = match retention.optional_u64_field("maxDurationInMinutes") {
            Some(value) => value,
            None => { return None; },
        };
        let intent_to_share = match sharing.bool_field("intentToShare") {
            Some(value) => value,
            None => { return None; },
        };
        let deleteable = match deletion.bool_field("deleteable") {
            Some(value) => value,
            None => { return None; },
        };
        let organization_json = match json.field("organization") {
            Some(value) => value,
            None => { return None; },
        };
        let request_origin_base_url = match json.text_field("requestOriginBaseUrl") {
            Some(value) => value,
            None => { return None; },
        };
        let attributes = match json.field("attributes") {
            Some(value) => match read_authorized(value) {
                Some(attributes) => attributes,
                None => { return None; },
            },
            None => { return None; },
        };
        let organization = match Organization::from_json(organization_json) {
            Some(value) => value,
            None => { return None; },
        };
        Some(
            ReaderRegistration {
                purpose_statement,
                retention_policy: RetentionPolicy { intent_to_retain, max_duration_in_minutes },
                sharing_policy: SharingPolicy { intent_to_share },
                deletion_policy: DeletionPolicy { deleteable },
                organization,
                request_origin_base_url,
                attributes,
            },
        )
    }
}

/// Whether `identifier` is among what a verifier may ask.
pub open spec fn authorized_by(attributes: AuthorizedView, identifier: IdentifierView) -> bool {
    exists|i: int, j: int, k: int|
        0 <= i < attributes.len() && 0 <= j < attributes[i].1.len() && 0 <= k
            < attributes[i].1[j].1.len() && attributes[i].0 == identifier.0 && attributes[i].1[j].0
            == identifier.1 && #[trigger] attributes[i].1[j].1[k] == identifier.2
}

impl ReaderRegistration {
    /// What the registration allows is what its value allows.
    pub proof fn lemma_authorizes_view(&self, identifier: IdentifierView)
        ensures
            self.authorizes(identifier) <==> authorized_by(self@.attributes, identifier),
    {
        let attributes = self@.attributes;
        if self.authorizes(identifier) {
            let (i, j, k) = choose|i: int, j: int, k: int|
                0 <= i < self.attributes.len() && 0 <= j < self.attributes[i].1.len() && 0 <= k
                    < self.attributes[i].1[j].1.len() && self.attributes[i].0@ == identifier.0
                    && self.attributes[i].1[j].0@ == identifier.1
                    && #[trigger] self.attributes[i].1[j].1[k]@ == identifier.2;
            assert(attributes[i].1[j].1[k] == identifier.2);
        }
        if authorized_by(attributes, identifier) {
            let (i, j, k) = choose|i: int, j: int, k: int|
                0 <= i < attributes.len() && 0 <= j < attributes[i].1.len() && 0 <= k
                    < attributes[i].1[j].1.len() && attributes[i].0 == identifier.0
                    && attributes[i].1[j].0 == identifier.1 && #[trigger] attributes[i].1[j].1[k]
                    == identifier.2;
            assert(self.attributes[i].1[j].1[k]@ == identifier.2);
        }
    }
}

impl ReaderRegistration {
    /// Whether the verifier may ask for `identifier`.
    pub open spec fn authorizes(&self, identifier: IdentifierView) -> bool {
        exists|i: int, j: int, k: int|
            0 <= i < self.attributes.len() && 0 <= j < self.attributes[i].1.len() && 0 <= k
                < self.attributes[i].1[j].1.len() && self.attributes[i].0@ == identifier.0
                && self.attributes[i].1[j].0@ == identifier.1
                && #[trigger] self.attributes[i].1[j].1[k]@ == identifier.2
    }

    /// Decides [`Self::authorizes`].
    pub fn is_authorized(&self, identifier: &AttributeIdentifier) -> (authorized: bool)
        ensures
            authorized == self.authorizes(identifier@),
    {
        let mut i: usize = 0;
        while i < self.attributes.len()
            invariant
                i <= self.attributes.len(),
                forall|a: int, b: int, c: int|
                    0 <= a < i && 0 <= b < self.attributes[a].1.len() && 0 <= c
                        < self.attributes[a].1[b].1.len() ==> !(self.attributes[a].0@
                        == identifier@.0 && self.attributes[a].1[b].0@ == identifier@.1
                        && #[trigger] self.attributes[a].1[b].1[c]@ == identifier@.2),
            decreases self.attributes.len() - i,
        {
            let name_spaces = &self.attributes[i].1;
            if self.attributes[i].0 == identifier.doc_type {
                let mut j: usize = 0;
                while j < name_spaces.len()
                    invariant
                        i < self.attributes.len(),
                        j <= name_spaces.len(),
                        name_spaces == self.attributes[i as int].1,
                        self.attributes[i as int].0@ == identifier@.0,
                        forall|b: int, c: int|
                            0 <= b < j && 0 <= c < name_spaces[b].1.len() ==> !(name_spaces[b].0@
                                == identifier@.1 && #[trigger] name_spaces[b].1[c]@
                                == identifier@.2),
                    decreases name_spaces.len() - j,
                {
                    let names = &name_spaces[j].1;
                    if name_spaces[j].0 == identifier.namespace {
                        let mut k: usize = 0;
                        while k < names.len()
                            invariant
                                i < self.attributes.len(),
                                j < name_spaces.len(),
                                k <= names.len(),
                                name_spaces == self.attributes[i as int].1,
                                names == name_spaces[j as int].1,
                                self.attributes[i as int].0@ == identifier@.0,
                                name_spaces[j as int].0@ == identifier@.1,
                                forall|c: int| 0 <= c < k ==> names[c]@ != identifier@.2,
                            decreases names.len() - k,
                        {
                            if names[k] == identifier.attribute {
                                assert(self.attributes[i as int].1[j as int].1[k as int]@
                                    == identifier@.2);
                                return true;
                            }
                            k += 1;
                        }
                    }
                    j += 1;
                }
            }
            i += 1;
        }
        false
    }

    /// The identifiers of `requested` that the verifier may not ask for, in
    /// order.
    pub fn unauthorized(&self, requested: &Vec<AttributeIdentifier>) -> (refused: Vec<
        AttributeIdentifier,
    >)
        ensures
            identifier_views(refused@) == identifier_views(requested@).filter(
                |identifier: IdentifierView| !self.authorizes(identifier),
            ),
    {
        let ghost all = identifier_views(requested@);
        let ghost unauthorized = |identifier: IdentifierView| !self.authorizes(identifier);
        let mut refused: Vec<AttributeIdentifier> = Vec::new();
        let mut i: usize = 0;
        proof {
            reveal(Seq::filter);
            assert(all.take(0).filter(unauthorized) =~= Seq::<IdentifierView>::empty());
            assert(identifier_views(refused@) =~= Seq::<IdentifierView>::empty());
        }
        while i < requested.len()
            invariant
                i <= requested.len(),
                all == identifier_views(requested@),
                unauthorized == (|identifier: IdentifierView| !self.authorizes(identifier)),
                identifier_views(refused@) == all.take(i as int).filter(unauthorized),
            decreases requested.len() - i,
        {
            proof {
                all.lemma_take_succ_push(i as int);
                all.take(i as int).lemma_filter_push(all[i as int], unauthorized);
            }
            if !self.is_authorized(&requested[i]) {
                let copy = requested[i].clone();
                proof {
                    refused@.lemma_push_map_commute(
                        |identifier: AttributeIdentifier| identifier@,
                        copy,
                    );
                }
                refused.push(copy);
            }
            i += 1;
        }
        proof {
            all.lemma_take_len();
        }
        refused
    }
}

} // verus!
