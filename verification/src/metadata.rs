//! The metadata file of a presentation: a JSON object with the two text
//! fields `name` and `path`.

use crate::json::{document_member, json_members, json_parse, parse_document, Member, MemberView};
use crate::record::{PresentationInfo, PresentationView};
use vstd::prelude::*;
use vstd::string::StringExecFns;

verus! {

/// One of the two fields that a metadata file must have.
#[derive(Debug, Clone, Copy, PartialEq, Eq, Structural)]
pub enum Field {
    Name,
    Path,
}

/// Why a text is not the metadata of a presentation.
#[derive(Debug, Clone, Copy, PartialEq, Eq, Structural)]
pub enum MetadataError {
    /// The text is not one document of JSON.
    Syntax,
    /// The document has no member under the key of this field.
    MissingField(Field),
    /// The member under the key of this field is not a text.
    WrongType(Field),
}

impl Field {
    /// The key under which the field stands in a metadata file.
    pub open spec fn key_text(self) -> Seq<char> {
        match self {
            Field::Name => "name"@,
            Field::Path => "path"@,
        }
    }

    /// The key under which the field stands in a metadata file.
    pub fn key(&self) -> (key: &'static str)
        ensures
            key@ == self.key_text(),
    {
        match self {
            Field::Name => "name",
            Field::Path => "path",
        }
    }
}

impl MetadataError {
    /// The text of [`MetadataError::message`].
    pub open spec fn message_text(self) -> Seq<char> {
        match self {
            MetadataError::Syntax => "the text is not valid JSON"@,
            MetadataError::MissingField(field) => "missing field `"@ + field.key_text() + "`"@,
            MetadataError::WrongType(field) => "field `"@ + field.key_text() + "` is not a string"@,
        }
    }

    /// A sentence that describes the error, for a log.
    pub fn message(&self) -> (message: String)
        ensures
            message@ == self.message_text(),
    {
        match self {
            MetadataError::Syntax => String::from_str("the text is not valid JSON"),
            MetadataError::MissingField(field) => {
                let mut message = String::from_str("missing field `");
                message.append(field.key());
                message.append("`");
                message
            },
            MetadataError::WrongType(field) => {
                let mut message = String::from_str("field `");
                message.append(field.key());
                message.append("` is not a string");
                message
            },
        }
    }
}

/// The content of the outcome of reading a metadata file.
pub open spec fn outcome_view(outcome: Result<PresentationInfo, MetadataError>) -> Result<
    PresentationView,
    MetadataError,
> {
    match outcome {
        Ok(record) => Ok(record@),
        Err(error) => Err(error),
    }
}

/// The record that two members make, where `None` stands for a field that
/// the document does not have.
///
/// A member that is there and is not a text is reported before a member that
/// is missing, and of two faults of the same kind that of `name` is reported.
pub open spec fn record_of_members(name: Option<MemberView>, path: Option<MemberView>) -> Result<
    PresentationView,
    MetadataError,
> {
    if name is Some && !(name->0 is Text) {
        Err(MetadataError::WrongType(Field::Name))
    } else if path is Some && !(path->0 is Text) {
        Err(MetadataError::WrongType(Field::Path))
    } else if name is None {
        Err(MetadataError::MissingField(Field::Name))
    } else if path is None {
        Err(MetadataError::MissingField(Field::Path))
    } else {
        Ok(PresentationView { name: name->0->Text_0, path: path->0->Text_0 })
    }
}

/// Two members make a record exactly when both are there and both are
/// texts. So a document that lacks `path`, or `name`, makes none, whatever
/// else it holds.
pub proof fn lemma_record_needs_both_texts(name: Option<MemberView>, path: Option<MemberView>)
    ensures
        record_of_members(name, path) is Ok <==> (name matches Some(MemberView::Text(_)) && path
            matches Some(MemberView::Text(_))),
        record_of_members(name, path) matches Ok(record) ==> name == Some(
            MemberView::Text(record.name),
        ) && path == Some(MemberView::Text(record.path)),
        name is None ==> record_of_members(name, path) is Err,
        path is None ==> record_of_members(name, path) is Err,
{
}

/// The member that a document has under a key, if it has one.
pub open spec fn member_at(members: Map<Seq<char>, MemberView>, key: Seq<char>) -> Option<
    MemberView,
> {
    if members.contains_key(key) {
        Some(members[key])
    } else {
        None
    }
}

/// The record that a document with these members describes.
pub open spec fn record_of_document(members: Map<Seq<char>, MemberView>) -> Result<
    PresentationView,
    MetadataError,
> {
    record_of_members(
        member_at(members, Field::Name.key_text()),
        member_at(members, Field::Path.key_text()),
    )
}

/// The record that a text describes: that of the document which the text
/// denotes, if it denotes one.
pub open spec fn record_of_text(text: Seq<char>) -> Result<PresentationView, MetadataError> {
    match json_parse(text) {
        None => Err(MetadataError::Syntax),
        Some(members) => record_of_document(members),
    }
}

/// Makes a record from what a document holds under `name` and under `path`.
///
/// Succeeds exactly when both members are there and both are texts; the
/// record then holds the two texts unchanged.
pub fn record_from_members(name: Option<Member>, path: Option<Member>) -> (outcome: Result<
    PresentationInfo,
    MetadataError,
>)
    ensures
        outcome_view(outcome) == record_of_members(
            match name {
                Some(member) => Some(member@),
                None => None,
            },
            match path {
                Some(member) => Some(member@),
                None => None,
            },
        ),
{
    match (name, path) {
        (Some(Member::Text(name)), Some(Member::Text(path))) => Ok(PresentationInfo { name, path }),
        (Some(Member::Text(_)), Some(_)) => Err(MetadataError::WrongType(Field::Path)),
        (Some(Member::Text(_)), None) => Err(MetadataError::MissingField(Field::Path)),
        (Some(_), _) => Err(MetadataError::WrongType(Field::Name)),
        (None, Some(Member::Text(_))) => Err(MetadataError::MissingField(Field::Name)),
        (None, Some(_)) => Err(MetadataError::WrongType(Field::Path)),
        (None, None) => Err(MetadataError::MissingField(Field::Name)),
    }
}

/// Reads the record out of a document.
fn record_from_document(doc: &serde_json::Value) -> (outcome: Result<
    PresentationInfo,
    MetadataError,
>)
    ensures
        outcome_view(outcome) == record_of_document(json_members(*doc)),
{
    let name = document_member(doc, Field::Name.key());
    let path = document_member(doc, Field::Path.key());
    record_from_members(name, path)
}

/// Reads the content of a metadata file.
///
/// Fails where the content is not a document of JSON, where the document
/// lacks one of the two fields, and where one of them is not a text; else
/// gives the record with the two texts.
pub fn parse_presentation(content: &str) -> (outcome: Result<PresentationInfo, MetadataError>)
    ensures
        outcome_view(outcome) == record_of_text(content@),
{
    match parse_document(content) {
        Ok(doc) => record_from_document(&doc),
        Err(_) => Err(MetadataError::Syntax),
    }
}

} // verus!
