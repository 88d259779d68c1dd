//! The extra headers of a record: a JSON object, kept as the text that a
//! record holds or as the members of the object.
//!
//! An empty object and an empty text are the same: neither takes any room in
//! a record.  The member `FDSN` is reserved and must itself be an object.

use crate::mseed_error::MSeedError;
use vstd::prelude::*;
use vstd::string::StringExecFns;
use vstd::utf8::encode_utf8;

verus! {

/// The name of the reserved member.
pub open spec fn fdsn_key() -> Seq<char> {
    seq!['F', 'D', 'S', 'N']
}

/// What kind of JSON value a value is.
#[derive(Debug, Clone, Copy, PartialEq, Eq, Structural)]
pub enum JsonKind {
    Null,
    Bool,
    Number,
    String,
    Array,
    Object,
}

/// What went wrong while text was read as a JSON object.
pub enum JsonFailure {
    /// The text is not JSON; the field holds the parser's message.
    NotJson(String),
    /// The text is JSON, but not an object; the field holds the value.
    NotObject(String),
}

// ---------------------------------------------------------------------------
// JSON objects of serde_json
// ---------------------------------------------------------------------------
/// `serde_json::Value`, a JSON value.  Values are carried along and never
/// looked into.
#[verifier::external_type_specification]
#[verifier::external_body]
pub struct ExJsonValue(serde_json::Value);

/// `serde_json::Map`, the members of a JSON object.  What is known of an
/// object is what `member_kinds` and `object_text` say of it.
#[verifier::external_type_specification]
#[verifier::external_body]
#[verifier::reject_recursive_types(K)]
#[verifier::reject_recursive_types(V)]
pub struct ExJsonMap<K, V>(serde_json::Map<K, V>);

/// The names of the members of a JSON object, each with the kind of its
/// value.
pub uninterp spec fn member_kinds(root: serde_json::Map<String, serde_json::Value>) -> Map<
    Seq<char>,
    JsonKind,
>;

/// The compact JSON text of an object.
pub uninterp spec fn object_text(root: serde_json::Map<String, serde_json::Value>) -> Seq<char>;

/// What a text is as JSON: nothing, if it is not JSON; no object, if it is
/// another value than an object; else the members of the object, each with
/// the kind of its value.
pub uninterp spec fn json_reading(text: Seq<char>) -> Option<Option<Map<Seq<char>, JsonKind>>>;

/// No members.
pub open spec fn no_members() -> Map<Seq<char>, JsonKind> {
    Map::empty()
}

/// The reading of a text that is JSON, but not an object.
pub open spec fn no_object() -> Option<Option<Map<Seq<char>, JsonKind>>> {
    Some(None)
}

/// `Clone::clone` of `serde_json::Map`: the copy has the members, and
/// therefore the text, of the object that it was made from.
pub assume_specification[ <serde_json::Map<String, serde_json::Value> as Clone>::clone ](
    root: &serde_json::Map<String, serde_json::Value>,
) -> (copy: serde_json::Map<String, serde_json::Value>)
    ensures
        member_kinds(copy) == member_kinds(*root),
        object_text(copy) == object_text(*root),
;

/// The text of an object without members.
pub open spec fn empty_object_text() -> Seq<char> {
    seq!['{', '}']
}

/// `serde_json::Map::new`: an object without members, whose text is `{}`.
#[verifier::external_body]
fn empty_object() -> (root: serde_json::Map<String, serde_json::Value>)
    ensures
        member_kinds(root) == no_members(),
        object_text(root) == empty_object_text(),
{
    serde_json::Map::new()
}

/// `serde_json::Map::get`, reduced to the kind of the value found: the kind
/// of the member `key`, if there is such a member.
#[verifier::external_body]
fn member_kind(root: &serde_json::Map<String, serde_json::Value>, key: &str) -> (kind: Option<
    JsonKind,
>)
    ensures
        kind == (if member_kinds(*root).contains_key(key@) {
            Some(member_kinds(*root)[key@])
        } else {
            None
        }),
{
    match root.get(key) {
        None => None,
        Some(serde_json::Value::Null) => Some(JsonKind::Null),
        Some(serde_json::Value::Bool(_)) => Some(JsonKind::Bool),
        Some(serde_json::Value::Number(_)) => Some(JsonKind::Number),
        Some(serde_json::Value::String(_)) => Some(JsonKind::String),
        Some(serde_json::Value::Array(_)) => Some(JsonKind::Array),
        Some(serde_json::Value::Object(_)) => Some(JsonKind::Object),
    }
}

/// `serde_json::Map::insert` of an empty object: the member `key` is then an
/// object, and the other members are as before.
#[verifier::external_body]
fn insert_empty_object(root: &mut serde_json::Map<String, serde_json::Value>, key: &str)
    ensures
        member_kinds(*final(root)) == member_kinds(*old(root)).insert(key@, JsonKind::Object),
{
    root.insert(key.to_string(), serde_json::Value::Object(serde_json::Map::new()));
}

/// `serde_json::Map::get_mut` and `serde_json::Value::as_object_mut`: the
/// member `key`, for filling, if there is such a member and it is an object.
/// Whatever is put into it, the members of `root` keep their kinds.
#[verifier::external_body]
fn member_object<'a>(root: &'a mut serde_json::Map<String, serde_json::Value>, key: &str) -> (object:
    Option<&'a mut serde_json::Map<String, serde_json::Value>>)
    ensures
        object is Some <==> member_kinds(*old(root)).contains_key(key@) && member_kinds(
            *old(root),
        )[key@] == JsonKind::Object,
        member_kinds(*final(root)) == member_kinds(*old(root)),
{
    match root.get_mut(key) {
        Some(value) => value.as_object_mut(),
        None => None,
    }
}

/// `serde_json::Value::to_string` of an object: its compact JSON text.
#[verifier::external_body]
fn text_of_object(root: &serde_json::Map<String, serde_json::Value>) -> (text: String)
    ensures
        text@ == object_text(*root),
{
    serde_json::Value::Object(root.clone()).to_string()
}

/// `serde_json::from_str` for a `serde_json::Value`, split by what came out:
/// the object, if the text is a JSON object; the value as text, if it is
/// another JSON value; the parser's message, if it is not JSON.
#[verifier::external_body]
fn read_object(s: &str) -> (root: Result<serde_json::Map<String, serde_json::Value>, JsonFailure>)
    ensures
        match root {
            Ok(m) => json_reading(s@) == Some(Some(member_kinds(m))),
            Err(JsonFailure::NotObject(_)) => json_reading(s@) == no_object(),
            Err(JsonFailure::NotJson(_)) => json_reading(s@) is None,
        },
{
    match serde_json::from_str::<serde_json::Value>(s) {
        Ok(serde_json::Value::Object(m)) => Ok(m),
        Ok(other) => Err(JsonFailure::NotObject(other.to_string())),
        Err(e) => Err(JsonFailure::NotJson(e.to_string())),
    }
}

// ---------------------------------------------------------------------------
// Extra headers
// ---------------------------------------------------------------------------
/// The extra headers of a record.
#[derive(Debug, Clone)]
pub enum ExtraHeaders {
    /// JSON text as a record holds it.
    Raw(String),
    /// The members of a JSON object.
    Parsed(serde_json::Map<String, serde_json::Value>),
}

/// Whether the members allow the reserved member: there is no member `FDSN`,
/// or it is an object.
pub open spec fn members_valid(members: Map<Seq<char>, JsonKind>) -> bool {
    members.contains_key(fdsn_key()) ==> members[fdsn_key()] == JsonKind::Object
}

/// Reads `s` as a JSON object.
///
/// Fails with `JsonError` if `s` is not JSON, and with `ExtraHeaderNotObject`
/// if it is another JSON value than an object.
pub fn parse_to_map(s: &str) -> (root: Result<
    serde_json::Map<String, serde_json::Value>,
    MSeedError,
>)
    ensures
        match root {
            Ok(m) => json_reading(s@) == Some(Some(member_kinds(m))),
            Err(MSeedError::ExtraHeaderNotObject(_)) => json_reading(s@) == no_object(),
            Err(MSeedError::JsonError(_)) => json_reading(s@) is None,
            Err(_) => false,
        },
{
    match read_object(s) {
        Ok(m) => Ok(m),
        Err(JsonFailure::NotObject(value)) => Err(MSeedError::ExtraHeaderNotObject(value)),
        Err(JsonFailure::NotJson(message)) => Err(MSeedError::JsonError(message)),
    }
}

/// Decides from the kind of the reserved member, if there is one, whether
/// extra headers are valid: they are unless the member is no object.
pub fn check_reserved(kind: Option<JsonKind>) -> (valid: Result<(), MSeedError>)
    ensures
        match valid {
            Ok(_) => kind is None || kind == Some(JsonKind::Object),
            Err(MSeedError::ExtraHeaderParse(m)) => kind is Some && kind != Some(JsonKind::Object)
                && m@ == "value for key=FDSN is not object in json"@,
            Err(_) => false,
        },
{
    match kind {
        None => Ok(()),
        Some(JsonKind::Object) => Ok(()),
        Some(_) => Err(
            MSeedError::ExtraHeaderParse(
                String::from_str("value for key=FDSN is not object in json"),
            ),
        ),
    }
}

impl ExtraHeaders {
    /// The extra headers as JSON text.
    pub open spec fn text(&self) -> Seq<char> {
        match self {
            ExtraHeaders::Raw(s) => s@,
            ExtraHeaders::Parsed(root) => object_text(*root),
        }
    }

    /// The bytes that the extra headers take in a record: the bytes of their
    /// text, or none if these are no more than the two of an empty object.
    pub open spec fn bytes(&self) -> Seq<u8> {
        if encode_utf8(self.text()).len() > 2 {
            encode_utf8(self.text())
        } else {
            Seq::empty()
        }
    }

    /// The members of the extra headers, if they are a JSON object.
    pub open spec fn members(&self) -> Option<Map<Seq<char>, JsonKind>> {
        match self {
            ExtraHeaders::Raw(s) => match json_reading(s@) {
                Some(Some(members)) => Some(members),
                _ => None,
            },
            ExtraHeaders::Parsed(root) => Some(member_kinds(*root)),
        }
    }

    /// Extra headers without members.  They take no bytes in a record.
    pub fn new() -> (headers: ExtraHeaders)
        ensures
            headers.members() == Some(no_members()),
            headers is Parsed,
            headers.text() == empty_object_text(),
            headers.bytes().len() == 0,
    {
        proof {
            vstd::utf8::is_ascii_chars_encode_utf8(empty_object_text());
        }
        ExtraHeaders::Parsed(empty_object())
    }

    /// Extra headers with the text `s`, which is not looked at.
    pub fn from(s: String) -> (headers: ExtraHeaders)
        ensures
            headers == ExtraHeaders::Raw(s),
    {
        ExtraHeaders::Raw(s)
    }

    /// The extra headers as JSON text.
    pub fn to_string(&self) -> (text: String)
        ensures
            text@ == self.text(),
    {
        match self {
            ExtraHeaders::Raw(s) => s.clone(),
            ExtraHeaders::Parsed(root) => text_of_object(root),
        }
    }

    /// Turns text into members.  Extra headers that are members already stay
    /// as they are.
    ///
    /// Fails, and changes nothing, if the text is not a JSON object.
    pub fn parse(&mut self) -> (done: Result<(), MSeedError>)
        ensures
            match done {
                Ok(_) => old(self).members() is Some && (*final(self)) is Parsed && final(self).members() == old(self).members(),
                Err(MSeedError::ExtraHeaderNotObject(_)) => (*old(self)) matches ExtraHeaders::Raw(s)
                    && json_reading(s@) == no_object() && *final(self)
                    == *old(self),
                Err(MSeedError::JsonError(_)) => (*old(self)) matches ExtraHeaders::Raw(s)
                    && json_reading(s@) is None && *final(self) == *old(self),
                Err(_) => false,
            },
    {
        match self {
            ExtraHeaders::Parsed(_) => Ok(()),
            ExtraHeaders::Raw(s) => {
                let root = parse_to_map(s.as_str())?;
                *self = ExtraHeaders::Parsed(root);
                Ok(())
            },
        }
    }

    /// Makes sure that the reserved member `FDSN`, if there is one, is an
    /// object.
    ///
    /// Fails with `ExtraHeaderParse` if it is not, and as `parse` does if the
    /// extra headers are text that is not a JSON object.
    pub fn validate(&self) -> (valid: Result<(), MSeedError>)
        ensures
            match valid {
                Ok(_) => self.members() matches Some(members) && members_valid(members),
                Err(MSeedError::ExtraHeaderParse(_)) => self.members() matches Some(members)
                    && !members_valid(members),
                Err(MSeedError::ExtraHeaderNotObject(_)) => self matches ExtraHeaders::Raw(s)
                    && json_reading(s@) == no_object(),
                Err(MSeedError::JsonError(_)) => self matches ExtraHeaders::Raw(s) && json_reading(
                    s@,
                ) is None,
                Err(_) => false,
            },
    {
        proof {
            reveal_strlit("FDSN");
            assert("FDSN"@ =~= fdsn_key());
        }
        match self {
            ExtraHeaders::Parsed(root) => check_reserved(member_kind(root, "FDSN")),
            ExtraHeaders::Raw(s) => {
                let root = parse_to_map(s.as_str())?;
                check_reserved(member_kind(&root, "FDSN"))
            },
        }
    }

    /// Makes sure that there is the reserved member `FDSN`, as an object:
    /// turns text into members and adds the member if it is missing.
    ///
    /// Fails, and changes nothing, if the member is there and is no object,
    /// or if the extra headers are text that is not a JSON object.
    fn ensure_fdsn_headers(&mut self) -> (done: Result<(), MSeedError>)
        ensures
            match done {
                Ok(_) => old(self).members() matches Some(before) && members_valid(before)
                    && (*final(self)) is Parsed && final(self).members() == Some(
                    before.insert(fdsn_key(), JsonKind::Object),
                ),
                Err(MSeedError::ExtraHeaderParse(_)) => old(self).members() matches Some(before)
                    && !members_valid(before) && *final(self) == *old(self),
                Err(MSeedError::ExtraHeaderNotObject(_)) => (*old(self)) matches ExtraHeaders::Raw(s)
                    && json_reading(s@) == no_object() && *final(self)
                    == *old(self),
                Err(MSeedError::JsonError(_)) => (*old(self)) matches ExtraHeaders::Raw(s)
                    && json_reading(s@) is None && *final(self) == *old(self),
                Err(_) => false,
            },
    {
        proof {
            reveal_strlit("FDSN");
            assert("FDSN"@ =~= fdsn_key());
        }
        let mut root = match self {
            ExtraHeaders::Parsed(root) => root.clone(),
            ExtraHeaders::Raw(s) => parse_to_map(s.as_str())?,
        };
        let kind = member_kind(&root, "FDSN");
        check_reserved(kind)?;
        if kind.is_none() {
            insert_empty_object(&mut root, "FDSN");
        } else {
            assert(member_kinds(root) =~= member_kinds(root).insert(fdsn_key(), JsonKind::Object));
        }
        *self = ExtraHeaders::Parsed(root);
        Ok(())
    }

    /// Makes sure that there is the reserved member `FDSN`, as an object, and
    /// hands it out for filling: turns text into members and adds the member
    /// if it is missing.
    ///
    /// Fails, and changes nothing, if the member is there and is no object,
    /// or if the extra headers are text that is not a JSON object.
    pub fn create_fdsn_headers(&mut self) -> (fdsn: Result<
        &mut serde_json::Map<String, serde_json::Value>,
        MSeedError,
    >)
        ensures
            match fdsn {
                Ok(_) => old(self).members() matches Some(before) && members_valid(before)
                    && (*final(self)) is Parsed && final(self).members() == Some(
                    before.insert(fdsn_key(), JsonKind::Object),
                ),
                Err(MSeedError::ExtraHeaderParse(_)) => old(self).members() matches Some(before)
                    && !members_valid(before) && *final(self) == *old(self),
                Err(MSeedError::ExtraHeaderNotObject(_)) => (*old(self)) matches ExtraHeaders::Raw(s)
                    && json_reading(s@) == no_object() && *final(self)
                    == *old(self),
                Err(MSeedError::JsonError(_)) => (*old(self)) matches ExtraHeaders::Raw(s)
                    && json_reading(s@) is None && *final(self) == *old(self),
                Err(_) => false,
            },
    {
        proof {
            reveal_strlit("FDSN");
            assert("FDSN"@ =~= fdsn_key());
        }
        self.ensure_fdsn_headers()?;
        // the extra headers are members now, and `FDSN` is an object among
        // them: the two other arms are never taken
        match self {
            ExtraHeaders::Parsed(root) => match member_object(root, "FDSN") {
                Some(object) => Ok(object),
                None => Err(MSeedError::Unknown(String::new())),
            },
            ExtraHeaders::Raw(_) => Err(MSeedError::Unknown(String::new())),
        }
    }
}

} // verus!
