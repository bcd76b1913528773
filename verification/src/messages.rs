//! The messages of the input stream, and how a line of input is read as one.

use crate::error::{shape_error, SingerIcebergError};
use crate::json::{
    entries_model, find_entry, names_model, parsed_json, strings_in, strings_of, text_member, Json,
    JsonModel,
};
use crate::text::{starts_with_char, str_eq};
use vstd::prelude::*;

verus! {

/// Announces the shape of the records of a stream.
#[derive(Debug, PartialEq, Eq)]
pub struct Schema {
    pub stream: String,
    /// The JSON Schema, as announced.
    pub schema: Json,
    pub key_properties: Option<Vec<String>>,
}

/// One record of a stream.
#[derive(Debug, PartialEq, Eq)]
pub struct Record {
    pub stream: String,
    pub record: Json,
}

/// The bookmarks of all streams at one point of the input.
#[derive(Debug, PartialEq, Eq)]
pub struct State {
    pub value: Json,
}

/// Begins a new version of a stream.
#[derive(Debug, PartialEq, Eq)]
pub struct ActivateVersion {
    pub stream: String,
    pub version: i64,
}

/// One message of the input.
#[derive(Debug, PartialEq, Eq)]
pub enum Message {
    Schema(Schema),
    Record(Record),
    State(State),
    ActivateVersion(ActivateVersion),
}

/// The mathematical value of a [`Message`].
pub enum MessageModel {
    Schema { stream: Seq<char>, schema: JsonModel, key_properties: Option<Seq<Seq<char>>> },
    Record { stream: Seq<char>, record: JsonModel },
    State { value: JsonModel },
    ActivateVersion { stream: Seq<char>, version: i64 },
}

impl View for Message {
    type V = MessageModel;

    open spec fn view(&self) -> MessageModel {
        match self {
            Message::Schema(s) => MessageModel::Schema {
                stream: s.stream@,
                schema: s.schema@,
                key_properties: match s.key_properties {
                    Some(names) => Some(names_model(names@)),
                    None => None,
                },
            },
            Message::Record(r) => MessageModel::Record { stream: r.stream@, record: r.record@ },
            Message::State(s) => MessageModel::State { value: s.value@ },
            Message::ActivateVersion(a) => MessageModel::ActivateVersion {
                stream: a.stream@,
                version: a.version,
            },
        }
    }
}

impl MessageModel {
    /// The stream that the message belongs to; a state belongs to none.
    pub open spec fn stream(self) -> Option<Seq<char>> {
        match self {
            MessageModel::Schema { stream, .. } => Some(stream),
            MessageModel::Record { stream, .. } => Some(stream),
            MessageModel::ActivateVersion { stream, .. } => Some(stream),
            MessageModel::State { .. } => None,
        }
    }
}

/// What `doc` holds under a key that may be left out: nothing (`Some(None)`)
/// where the key is absent or holds null, the texts where it holds an array of
/// strings, and no reading (`None`) for anything else.
pub open spec fn optional_strings(doc: JsonModel, key: Seq<char>) -> Option<
    Option<Seq<Seq<char>>>,
> {
    if !doc.has(key) || doc.member(key) is Null {
        Some(None)
    } else {
        match strings_of(doc.member(key)) {
            Some(names) => Some(Some(names)),
            None => None,
        }
    }
}

/// The message that a JSON document is, or `None` where it is none: an
/// object whose `type` is one of `SCHEMA`, `RECORD`, `STATE` and
/// `ACTIVATE_VERSION` and which holds what that type asks for. Other keys
/// are ignored.
pub open spec fn message_of(doc: JsonModel) -> Option<MessageModel> {
    match text_member(doc, "type"@) {
        None => None,
        Some(tag) => if tag == "SCHEMA"@ {
            match (text_member(doc, "stream"@), optional_strings(doc, "key_properties"@)) {
                (Some(stream), Some(key_properties)) => if doc.has("schema"@) {
                    Some(
                        MessageModel::Schema {
                            stream,
                            schema: doc.member("schema"@),
                            key_properties,
                        },
                    )
                } else {
                    None
                },
                _ => None,
            }
        } else if tag == "RECORD"@ {
            match text_member(doc, "stream"@) {
                Some(stream) => if doc.has("record"@) {
                    Some(MessageModel::Record { stream, record: doc.member("record"@) })
                } else {
                    None
                },
                None => None,
            }
        } else if tag == "STATE"@ {
            if doc.has("value"@) {
                Some(MessageModel::State { value: doc.member("value"@) })
            } else {
                None
            }
        } else if tag == "ACTIVATE_VERSION"@ {
            match text_member(doc, "stream"@) {
                Some(stream) => if doc.has("version"@) {
                    match doc.member("version"@) {
                        JsonModel::Number(n) => match crate::json::number_i64(n) {
                            Some(version) => Some(
                                MessageModel::ActivateVersion { stream, version },
                            ),
                            None => None,
                        },
                        _ => None,
                    }
                } else {
                    None
                },
                None => None,
            }
        } else {
            None
        },
    }
}

/// What a line of input holds: no message (`Ok(None)`) where the line does
/// not begin with `{`, the message where it is the JSON text of one, and no
/// reading (`Err`) for anything else.
pub open spec fn line_reading(line: Seq<char>) -> Result<Option<MessageModel>, ()> {
    if !(line.len() > 0 && line[0] == '{') {
        Ok(None)
    } else {
        match parsed_json(line) {
            None => Err(()),
            Some(doc) => match message_of(doc) {
                Some(message) => Ok(Some(message)),
                None => Err(()),
            },
        }
    }
}

/// A copy of the text under `key`.
fn text_at(entries: &Vec<(String, Json)>, key: &str) -> (r: Option<String>)
    ensures
        match r {
            Some(text) => text_member(JsonModel::Object(entries_model(entries@)), key@) == Some(
                text@,
            ),
            None => text_member(JsonModel::Object(entries_model(entries@)), key@) is None,
        },
{
    match find_entry(entries, key) {
        Some(i) => match &entries[i].1 {
            Json::Str(text) => Some(text.clone()),
            _ => None,
        },
        None => None,
    }
}

/// What `entries` hold under a key that may be left out.
fn optional_strings_at(entries: &Vec<(String, Json)>, key: &str) -> (r: Result<
    Option<Vec<String>>,
    (),
>)
    ensures
        match r {
            Ok(Some(names)) => optional_strings(JsonModel::Object(entries_model(entries@)), key@)
                == Some(Some(names_model(names@))),
            Ok(None) => optional_strings(JsonModel::Object(entries_model(entries@)), key@) == Some(
                None::<Seq<Seq<char>>>,
            ),
            Err(_) => optional_strings(JsonModel::Object(entries_model(entries@)), key@) is None,
        },
{
    match find_entry(entries, key) {
        None => Ok(None),
        Some(i) => match &entries[i].1 {
            Json::Null => Ok(None),
            other => match strings_in(other) {
                Some(names) => Ok(Some(names)),
                None => Err(()),
            },
        },
    }
}

/// Takes the value under `key` out of `entries`.
fn take_at(entries: &mut Vec<(String, Json)>, key: &str) -> (r: Option<Json>)
    ensures
        match r {
            Some(value) => {
                let doc = JsonModel::Object(entries_model(old(entries)@));
                doc.has(key@) && doc.member(key@) == value@
            },
            None => !JsonModel::Object(entries_model(old(entries)@)).has(key@),
        },
{
    match find_entry(entries, key) {
        Some(i) => {
            let entry = entries.remove(i);
            Some(entry.1)
        },
        None => None,
    }
}

impl Message {
    /// Reads a JSON document as a message.
    pub fn from_json(json: Json) -> (r: Result<Message, SingerIcebergError>)
        ensures
            match r {
                Ok(message) => message_of(json@) == Some(message@),
                Err(e) => message_of(json@) is None && e is Serde,
            },
    {
        let ghost doc = json@;
        let mut entries = match json {
            Json::Object(entries) => entries,
            _ => {
                return Err(SingerIcebergError::Serde(shape_error("the document is no message")));
            },
        };
        assert(doc == JsonModel::Object(entries_model(entries@)));
        let tag = match text_at(&entries, "type") {
            Some(tag) => tag,
            None => {
                return Err(SingerIcebergError::Serde(shape_error("the document is no message")));
            },
        };
        if str_eq(tag.as_str(), "SCHEMA") {
            let stream = text_at(&entries, "stream");
            let key_properties = optional_strings_at(&entries, "key_properties");
            let schema = take_at(&mut entries, "schema");
            match (stream, key_properties, schema) {
                (Some(stream), Ok(key_properties), Some(schema)) => Ok(
                    Message::Schema(Schema { stream, schema, key_properties }),
                ),
                _ => Err(SingerIcebergError::Serde(shape_error("the document is no message"))),
            }
        } else if str_eq(tag.as_str(), "RECORD") {
            let stream = text_at(&entries, "stream");
            let record = take_at(&mut entries, "record");
            match (stream, record) {
                (Some(stream), Some(record)) => Ok(Message::Record(Record { stream, record })),
                _ => Err(SingerIcebergError::Serde(shape_error("the document is no message"))),
            }
        } else if str_eq(tag.as_str(), "STATE") {
            match take_at(&mut entries, "value") {
                Some(value) => Ok(Message::State(State { value })),
                None => Err(SingerIcebergError::Serde(shape_error("the document is no message"))),
            }
        } else if str_eq(tag.as_str(), "ACTIVATE_VERSION") {
            let stream = text_at(&entries, "stream");
            let version = match find_entry(&entries, "version") {
                Some(i) => entries[i].1.as_i64(),
                None => None,
            };
            match (stream, version) {
                (Some(stream), Some(version)) => Ok(
                    Message::ActivateVersion(ActivateVersion { stream, version }),
                ),
                _ => Err(SingerIcebergError::Serde(shape_error("the document is no message"))),
            }
        } else {
            Err(SingerIcebergError::Serde(shape_error("the document is no message")))
        }
    }

    /// Reads one line of input. A line that does not begin with `{` holds no
    /// message and is passed over.
    pub fn parse_line(line: &str) -> (r: Result<Option<Message>, SingerIcebergError>)
        ensures
            match r {
                Ok(Some(message)) => line_reading(line@) == Ok::<Option<MessageModel>, ()>(
                    Some(message@),
                ),
                Ok(None) => line_reading(line@) == Ok::<Option<MessageModel>, ()>(None),
                Err(e) => line_reading(line@) is Err && e is Serde,
            },
    {
        if !starts_with_char(line, '{') {
            return Ok(None);
        }
        let json = Json::parse(line)?;
        let message = Message::from_json(json)?;
        Ok(Some(message))
    }
}

} // verus!
