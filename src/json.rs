use vstd::prelude::*;

verus! {

#[verifier::external_type_specification]
#[verifier::external_body]
pub struct ExValue(serde_json::Value);

/// Whether a text is one JSON document, as `serde_json::from_str` decides it.
pub uninterp spec fn is_json(text: Seq<char>) -> bool;

/// The value that `serde_json::from_str` reads from a JSON text.
pub uninterp spec fn json_value_of(text: Seq<char>) -> serde_json::Value;

/// The diagnostic, as text, that `serde_json::from_str` gives for a text that is no JSON.
pub uninterp spec fn json_error_of(text: Seq<char>) -> Seq<char>;

/// A member of a JSON object, as `serde_json::Value::get` finds it: none, or
/// whether it is a string together with its text (a string's characters, any
/// other value's JSON rendering).
pub uninterp spec fn member_of(v: serde_json::Value, key: Seq<char>) -> Option<(bool, Seq<char>)>;

/// Relies on `serde_json::from_str`: parses `text` as one JSON value; the
/// parser's diagnostic is handed out as text.
#[verifier::external_body]
pub(crate) fn parse_json(text: &str) -> (r: Result<serde_json::Value, String>)
    ensures
        r is Ok <==> is_json(text@),
        r matches Ok(v) ==> v == json_value_of(text@),
        r matches Err(e) ==> e@ == json_error_of(text@),
{
    match serde_json::from_str::<serde_json::Value>(text) {
        Ok(v) => Ok(v),
        Err(e) => Err(e.to_string()),
    }
}

/// A member at the top of a JSON document.
pub enum EmbeddedId {
    /// There is none (or the document is no object).
    Absent,
    /// It is a string, with this text.
    Str(String),
    /// It is another value, rendered as JSON.
    Other(String),
}

/// Relies on `serde_json::Value::get`: the member `key` of an object, if there
/// is one; a string is handed out as its text, anything else as JSON text.
#[verifier::external_body]
pub(crate) fn embedded_id(v: &serde_json::Value, key: &str) -> (r: EmbeddedId)
    ensures
        match member_of(*v, key@) {
            None => r is Absent,
            Some((is_str, t)) => if is_str {
                r is Str && r->Str_0@ == t
            } else {
                r is Other && r->Other_0@ == t
            },
        },
{
    match v.get(key) {
        None => EmbeddedId::Absent,
        Some(serde_json::Value::String(s)) => EmbeddedId::Str(s.clone()),
        Some(other) => EmbeddedId::Other(other.to_string()),
    }
}

/// The `$id` and `title` of a schema document.
pub struct SchemaMeta {
    pub id: Option<String>,
    pub title: Option<String>,
}

/// Whether `serde_json::from_value` reads a value as schemars' `RootSchema`.
pub uninterp spec fn is_schema_doc(v: serde_json::Value) -> bool;

/// The diagnostic, as text, of reading a value that is no `RootSchema`.
pub uninterp spec fn schema_error_of(v: serde_json::Value) -> Seq<char>;

/// The `$id` of a schema document, as schemars reads it.
pub uninterp spec fn schema_id_of(v: serde_json::Value) -> Option<Seq<char>>;

/// The `title` of a schema document, as schemars reads it.
pub uninterp spec fn schema_title_of(v: serde_json::Value) -> Option<Seq<char>>;

/// Relies on `serde_json::from_value` into schemars' `RootSchema`: reads a
/// schema document and hands out its `$id` and `title`, or the reason it is
/// no schema.
#[verifier::external_body]
pub(crate) fn schema_meta(v: &serde_json::Value) -> (r: Result<SchemaMeta, String>)
    ensures
        r is Ok <==> is_schema_doc(*v),
        r matches Err(e) ==> e@ == schema_error_of(*v),
        r matches Ok(m) ==> (m.id is Some <==> schema_id_of(*v) is Some) && (m.id is Some ==> m.id->0@
            == schema_id_of(*v)->0),
        r matches Ok(m) ==> (m.title is Some <==> schema_title_of(*v) is Some) && (m.title is Some
            ==> m.title->0@ == schema_title_of(*v)->0),
{
    match serde_json::from_value::<schemars::schema::RootSchema>(v.clone()) {
        Ok(s) => match s.schema.metadata {
            Some(m) => Ok(SchemaMeta { id: m.id, title: m.title }),
            None => Ok(SchemaMeta { id: None, title: None }),
        },
        Err(e) => Err(e.to_string()),
    }
}

} // verus!
