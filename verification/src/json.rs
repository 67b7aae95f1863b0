//! Replies in JSON: the members of an object, read through `serde_json`.
use vstd::prelude::*;

verus! {

/// What a member of a JSON object holds, as far as the player reads it.
///
/// A number comes with its value as an unsigned and as a signed integer, where
/// it has one, and with the bit pattern of its floating-point value.
pub enum JsonValue {
    Null,
    Bool(bool),
    Number(Option<u64>, Option<i64>, Option<u64>),
    Text(String),
    Compound,
}

/// A JSON value with its text as characters.
pub ghost enum JsonView {
    Null,
    Bool(bool),
    Number(Option<u64>, Option<i64>, Option<u64>),
    Text(Seq<char>),
    Compound,
}

impl View for JsonValue {
    type V = JsonView;

    open spec fn view(&self) -> JsonView {
        match self {
            JsonValue::Null => JsonView::Null,
            JsonValue::Bool(b) => JsonView::Bool(*b),
            JsonValue::Number(u, i, r) => JsonView::Number(*u, *i, *r),
            JsonValue::Text(s) => JsonView::Text(s@),
            JsonValue::Compound => JsonView::Compound,
        }
    }
}

/// The view of a value that may be missing.
pub open spec fn value_view(v: Option<JsonValue>) -> Option<JsonView> {
    match v {
        Some(v) => Some(v@),
        None => None,
    }
}

#[verifier::external_type_specification]
#[verifier::external_body]
pub struct ExJson(serde_json::Value);

/// What is read of a text: the members of the object that it describes (none for a text
/// that describes something else), or, where it is not JSON, what is said of that.
pub uninterp spec fn json_read(text: Seq<char>) -> Result<Map<Seq<char>, JsonView>, Seq<char>>;

/// The members of the object that a JSON text describes (none for a text that
/// describes something else), or nothing where the text is not JSON.
pub open spec fn json_members(text: Seq<char>) -> Option<Map<Seq<char>, JsonView>> {
    match json_read(text) {
        Ok(m) => Some(m),
        Err(_) => None,
    }
}

/// The members of a parsed value; a value that is no object has none.
pub uninterp spec fn members_of(v: serde_json::Value) -> Map<Seq<char>, JsonView>;

/// `serde_json::from_str` is a function of the text: it succeeds on the texts
/// that are JSON, and its value has the members that the text describes; else its error
/// says what is wrong with the text.
#[verifier::external_body]
pub(crate) fn parse(text: &str) -> (r: Result<serde_json::Value, String>)
    ensures
        match r {
            Ok(v) => json_read(text@) == Ok::<Map<Seq<char>, JsonView>, Seq<char>>(members_of(v)),
            Err(words) => json_read(text@) == Err::<Map<Seq<char>, JsonView>, Seq<char>>(words@),
        },
{
    serde_json::from_str(text).map_err(|e| e.to_string())
}

/// `serde_json::Value::get` finds the member of that name, and finds none in a
/// value that is no object.
#[verifier::external_body]
pub(crate) fn member(v: &serde_json::Value, name: &str) -> (r: Option<JsonValue>)
    ensures
        r is Some <==> members_of(*v).dom().contains(name@),
        r matches Some(x) ==> x@ == members_of(*v)[name@],
{
    v.get(name).map(|x| match x {
        serde_json::Value::Null => JsonValue::Null,
        serde_json::Value::Bool(b) => JsonValue::Bool(*b),
        serde_json::Value::Number(n) => JsonValue::Number(
            n.as_u64(), n.as_i64(), n.as_f64().map(|d| d.to_bits()),
        ),
        serde_json::Value::String(s) => JsonValue::Text(s.clone()),
        serde_json::Value::Array(_) => JsonValue::Compound,
        serde_json::Value::Object(_) => JsonValue::Compound,
    })
}

/// The member of that name, where there is one.
pub open spec fn lookup(m: Map<Seq<char>, JsonView>, name: Seq<char>) -> Option<JsonView> {
    if m.dom().contains(name) {
        Some(m[name])
    } else {
        None
    }
}

} // verus!
