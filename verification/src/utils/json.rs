//! JSON values, as `serde_json` reads them.

use serde_json::Value;
use vstd::prelude::*;

verus! {

/// A JSON value, as a tree.
#[derive(Debug)]
pub enum JsonValue {
    Null,
    Bool(bool),
    /// A whole number.
    Number(i128),
    /// A number that is no whole number, as `serde_json` writes it. This
    /// library passes such numbers over unread.
    Fraction(String),
    Text(String),
    Array(Vec<JsonValue>),
    Object(Vec<(String, JsonValue)>),
}

/// The mathematical value of a [`JsonValue`].
pub enum Json {
    Null,
    Bool(bool),
    Number(i128),
    Fraction(Seq<char>),
    Text(Seq<char>),
    Array(Seq<Json>),
    Object(Seq<(Seq<char>, Json)>),
}

/// The mathematical value of `value`.
pub open spec fn json_view(value: &JsonValue) -> Json
    decreases value,
{
    match value {
        JsonValue::Null => Json::Null,
        JsonValue::Bool(flag) => Json::Bool(*flag),
        JsonValue::Number(number) => Json::Number(*number),
        JsonValue::Fraction(text) => Json::Fraction(text@),
        JsonValue::Text(text) => Json::Text(text@),
        JsonValue::Array(items) => Json::Array(
            Seq::new(
                items.len() as nat,
                |i: int|
                    if 0 <= i < items.len() {
                        json_view(&items[i])
                    } else {
                        Json::Null
                    },
            ),
        ),
        JsonValue::Object(members) => Json::Object(
            Seq::new(
                members.len() as nat,
                |i: int|
                    if 0 <= i < members.len() {
                        (members[i].0@, json_view(&members[i].1))
                    } else {
                        (Seq::empty(), Json::Null)
                    },
            ),
        ),
    }
}

impl View for JsonValue {
    type V = Json;

    open spec fn view(&self) -> Json {
        json_view(self)
    }
}

/// The values of the members of an object.
pub open spec fn member_views(members: Seq<(String, JsonValue)>) -> Seq<(Seq<char>, Json)> {
    Seq::new(members.len(), |i: int| (members[i].0@, members[i].1@))
}

/// The value of an object is the object of the values of its members.
pub proof fn lemma_object_view(members: Vec<(String, JsonValue)>)
    ensures
        JsonValue::Object(members)@ == Json::Object(member_views(members@)),
{
    assert(json_view(&JsonValue::Object(members))->Object_0 =~= member_views(members@));
}

/// `serde_json::Value`, as a type of which nothing is known but what the
/// functions below say.
#[verifier::external_type_specification]
#[verifier::external_body]
pub struct ExJsonValue(serde_json::Value);

/// The JSON value that a value of `serde_json` holds: members in the order
/// in which `serde_json` keeps them, and a number that is no whole number
/// as `serde_json` writes it.
pub uninterp spec fn outside_json(value: serde_json::Value) -> Option<Json>;

/// The JSON value that `serde_json` reads from `text`, if it accepts the
/// text and [`JsonValue`] can hold what it read.
pub uninterp spec fn json_parsed(text: Seq<char>) -> Option<Json>;

/// `serde_json::from_str` into a `serde_json::Value`; nothing where
/// `serde_json` reports an error.
#[verifier::external_body]
fn read_json(text: &str) -> (outside: Option<serde_json::Value>)
    ensures
        match outside {
            Some(held) => json_parsed(text@) == outside_json(held),
            None => json_parsed(text@) is None,
        },
{
    serde_json::from_str(text).ok()
}

/// Reads off the JSON value that a value of `serde_json` holds, variant by
/// variant: of a number what `Number::as_i128` gives, and where that gives
/// nothing, the number as `Number::to_string` writes it.
#[verifier::external_body]
fn json_from_outside(outside: &serde_json::Value) -> (value: Option<JsonValue>)
    ensures
        match value {
            Some(read) => outside_json(*outside) == Some(read@),
            None => outside_json(*outside) is None,
        },
{
    Some(match outside {
        Value::Null => JsonValue::Null,
        Value::Bool(flag) => JsonValue::Bool(*flag),
        Value::Number(number) => number.as_i128().map_or_else(
            || JsonValue::Fraction(number.to_string()),
            JsonValue::Number,
        ),
        Value::String(text) => JsonValue::Text(text.clone()),
        Value::Array(items) => JsonValue::Array(
            Option::from_iter(items.iter().map(json_from_outside))?,
        ),
        Value::Object(members) => JsonValue::Object(
            Option::from_iter(members.iter().map(|m| Some((m.0.clone(), json_from_outside(m.1)?))))?,
        ),
    })
}

/// Reads a JSON value from a text.
pub fn parse_json(text: &str) -> (value: Option<JsonValue>)
    ensures
        match value {
            Some(value) => json_parsed(text@) == Some(value@),
            None => json_parsed(text@) is None,
        },
{
    match read_json(text) {
        Some(outside) => json_from_outside(&outside),
        None => None,
    }
}

/// The value of the first member with the name `name`.
pub open spec fn member(members: Seq<(Seq<char>, Json)>, name: Seq<char>) -> Option<Json>
    decreases members.len(),
{
    if members.len() == 0 {
        None
    } else if members[0].0 == name {
        Some(members[0].1)
    } else {
        member(members.skip(1), name)
    }
}

impl Json {
    /// The value of the member `name` of an object; nothing for a missing
    /// member, for the value `null`, and for what is no object.
    pub open spec fn field(self, name: Seq<char>) -> Option<Json> {
        match self {
            Json::Object(members) => match member(members, name) {
                Some(Json::Null) => None,
                found => found,
            },
            _ => None,
        }
    }
}

impl JsonValue {
    /// Finds [`Json::field`].
    pub fn field(&self, name: &str) -> (found: Option<&JsonValue>)
        ensures
            match found {
                Some(found) => self@.field(name@) == Some(found@),
                None => self@.field(name@) is None,
            },
    {
        let members = match self {
            JsonValue::Object(members) => members,
            _ => { return None; },
        };
        proof {
            lemma_object_view(*members);
        }
        let ghost views = member_views(members@);
        let wanted = name.to_owned();
        let mut i: usize = 0;
        assert(views.skip(0) =~= views);
        while i < members.len()
            invariant
                i <= members.len(),
                views == member_views(members@),
                self@ == Json::Object(views),
                wanted@ == name@,
                member(views, name@) == member(views.skip(i as int), name@),
            decreases members.len() - i,
        {
            proof {
                assert(views.skip(i as int)[0] == views[i as int]);
                assert(views.skip(i as int).skip(1) =~= views.skip(i + 1));
            }
            if members[i].0 == wanted {
                let found = &members[i].1;
                assert(views[i as int] == (members[i as int].0@, found@));
                assert(member(views, name@) == Some(found@));
                assert(found@ is Null <==> found is Null);
                assert(!(found is Null) ==> self@.field(name@) == Some(found@));
                assert(found is Null ==> self@.field(name@) is None);
                return match found {
                    JsonValue::Null => None,
                    _ => Some(found),
                };
            }
            i += 1;
        }
        None
    }
}

impl Json {
    /// The text in the member `name`. Nothing where the member is missing
    /// or holds no text.
    pub open spec fn text_field(self, name: Seq<char>) -> Option<Seq<char>> {
        match self.field(name) {
            Some(Json::Text(text)) => Some(text),
            _ => None,
        }
    }

    /// The text in the member `name`, which may be missing. Nothing where
    /// the member is there and holds no text.
    pub open spec fn optional_text_field(self, name: Seq<char>) -> Option<Option<Seq<char>>> {
        match self.field(name) {
            None => Some(None),
            Some(Json::Text(text)) => Some(Some(text)),
            Some(_) => None,
        }
    }

    /// The truth value in the member `name`.
    pub open spec fn bool_field(self, name: Seq<char>) -> Option<bool> {
        match self.field(name) {
            Some(Json::Bool(flag)) => Some(flag),
            _ => None,
        }
    }

    /// The number in the member `name`, which may be missing, if it is
    /// one of 64 bits without sign.
    pub open spec fn optional_u64_field(self, name: Seq<char>) -> Option<Option<u64>> {
        match self.field(name) {
            None => Some(None),
            Some(Json::Number(number)) => if 0 <= number <= u64::MAX {
                Some(Some(number as u64))
            } else {
                None
            },
            Some(_) => None,
        }
    }
}

impl JsonValue {
    /// Reads [`Json::text_field`].
    pub fn text_field(&self, name: &str) -> (text: Option<String>)
        ensures
            match text {
                Some(text) => self@.text_field(name@) == Some(text@),
                None => self@.text_field(name@) is None,
            },
    {
        match self.field(name) {
            Some(JsonValue::Text(text)) => Some(text.clone()),
            _ => None,
        }
    }

    /// Reads [`Json::optional_text_field`].
    pub fn optional_text_field(&self, name: &str) -> (text: Option<Option<String>>)
        ensures
            match text {
                Some(Some(text)) => self@.optional_text_field(name@) == Some(Some(text@)),
                Some(None) => self@.optional_text_field(name@) == Some(None::<Seq<char>>),
                None => self@.optional_text_field(name@) is None,
            },
    {
        match self.field(name) {
            None => Some(None),
            Some(JsonValue::Text(text)) => Some(Some(text.clone())),
            Some(_) => None,
        }
    }

    /// Reads [`Json::bool_field`].
    pub fn bool_field(&self, name: &str) -> (flag: Option<bool>)
        ensures
            flag == self@.bool_field(name@),
    {
        match self.field(name) {
            Some(JsonValue::Bool(flag)) => Some(*flag),
            _ => None,
        }
    }

    /// Reads [`Json::optional_u64_field`].
    pub fn optional_u64_field(&self, name: &str) -> (number: Option<Option<u64>>)
        ensures
            number == self@.optional_u64_field(name@),
    {
        match self.field(name) {
            None => Some(None),
            Some(JsonValue::Number(number)) => {
                if 0 <= *number && *number <= 0xffff_ffff_ffff_ffff {
                    Some(Some(*number as u64))
                } else {
                    None
                }
            },
            Some(_) => None,
        }
    }
}

} // verus!
