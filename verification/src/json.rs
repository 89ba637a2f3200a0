//! The boundary to `serde_json`, which reads the JSON text of a metadata file.
//!
//! The library looks at a document of JSON through two questions only: is the
//! text a document at all, and what stands under a given key of it. Both are
//! answered by `serde_json`; what this module says of the answers is taken on
//! trust from that crate and is not proved here.

use vstd::prelude::*;

verus! {

/// A document of JSON as `serde_json` holds it. Its inside is not visible to
/// the proofs.
#[verifier::external_type_specification]
#[verifier::external_body]
pub struct ExJsonValue(serde_json::Value);

/// The reason for which `serde_json` rejected a text. Its inside is not
/// visible to the proofs.
#[verifier::external_type_specification]
#[verifier::external_body]
pub struct ExJsonError(serde_json::Error);

/// What stands under one key of a document, as far as the library tells
/// values apart: a text with its content, or one of the other kinds of JSON
/// value.
#[derive(Debug, Clone, PartialEq, Eq)]
pub enum Member {
    Null,
    Boolean(bool),
    Number,
    Text(String),
    Array,
    Object,
}

/// The mathematical content of a [`Member`].
pub ghost enum MemberView {
    Null,
    Boolean(bool),
    Number,
    Text(Seq<char>),
    Array,
    Object,
}

impl View for Member {
    type V = MemberView;

    open spec fn view(&self) -> MemberView {
        match self {
            Member::Null => MemberView::Null,
            Member::Boolean(b) => MemberView::Boolean(*b),
            Member::Number => MemberView::Number,
            Member::Text(t) => MemberView::Text(t@),
            Member::Array => MemberView::Array,
            Member::Object => MemberView::Object,
        }
    }
}

/// The members of a document by their keys. A document that is not a JSON
/// object has none.
pub uninterp spec fn json_members(doc: serde_json::Value) -> Map<Seq<char>, MemberView>;

/// What reading a text as JSON gives: the members of the document that the
/// text denotes, or `None` where the text is not one document of JSON.
pub uninterp spec fn json_parse(text: Seq<char>) -> Option<Map<Seq<char>, MemberView>>;

/// Reads a text as one document of JSON, with `serde_json::from_str`.
///
/// Trusted: whether the text is accepted, and what members the document has
/// if it is, depends on the text alone; `json_parse` is the name of that
/// dependence. Nothing is claimed about which texts are accepted.
#[verifier::external_body]
pub(crate) fn parse_document(text: &str) -> (parsed: Result<serde_json::Value, serde_json::Error>)
    ensures
        match parsed {
            Ok(doc) => json_parse(text@) == Some(json_members(doc)),
            Err(_) => json_parse(text@) is None,
        },
{
    serde_json::from_str::<serde_json::Value>(text)
}

/// Looks a key up in a document, with `serde_json::Value::get`, and tells the
/// kind of what was found.
///
/// Trusted: the answer is `None` exactly where the document has no member
/// under the key (so always where the document is not a JSON object), and
/// else the member under that key; `json_members` is the name of what the
/// document holds.
#[verifier::external_body]
pub(crate) fn document_member(doc: &serde_json::Value, key: &str) -> (found: Option<Member>)
    ensures
        found is Some <==> json_members(*doc).contains_key(key@),
        found matches Some(member) ==> member@ == json_members(*doc)[key@],
{
    match doc.get(key) {
        None => None,
        Some(serde_json::Value::Null) => Some(Member::Null),
        Some(serde_json::Value::Bool(b)) => Some(Member::Boolean(*b)),
        Some(serde_json::Value::Number(_)) => Some(Member::Number),
        Some(serde_json::Value::String(s)) => Some(Member::Text(s.clone())),
        Some(serde_json::Value::Array(_)) => Some(Member::Array),
        Some(serde_json::Value::Object(_)) => Some(Member::Object),
    }
}

} // verus!
