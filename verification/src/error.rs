//! The one error type of the library.

use vstd::prelude::*;

verus! {

/// `serde_json`'s error, which is only passed on.
#[verifier::external_type_specification]
#[verifier::external_body]
pub struct ExJsonError(serde_json::Error);

/// `chrono`'s error for a text that is no time, which is only passed on.
#[verifier::external_type_specification]
#[verifier::external_body]
pub struct ExParseError(chrono::ParseError);

/// `iceberg_rust_spec`'s error, which is only passed on.
#[verifier::external_type_specification]
#[verifier::external_body]
pub struct ExIcebergSpecError(iceberg_rust_spec::error::Error);

/// Why an operation of the library failed. Every error ends the load.
#[derive(Debug)]
pub enum SingerIcebergError {
    /// A text that had to be JSON is not, or a JSON document does not hold
    /// what it had to: a message, a configuration, a catalog of streams.
    Serde(serde_json::Error),
    /// A text that had to be an RFC 3339 date and time is not.
    Chrono(chrono::ParseError),
    /// The names of a table are refused by the catalog's rules.
    IcebergSpec(iceberg_rust_spec::error::Error),
    /// A message names a stream that the configuration does not bind.
    StreamNotFound(String),
    /// A schema announced for a stream is no JSON Schema.
    InvalidSchema,
    /// A record does not satisfy the schema announced for its stream, and
    /// the text is the validator's first diagnostic; or a field of a record
    /// cannot be converted to the type of its column, and there is no text.
    SchemaValidation(Option<String>),
    /// A writer's first message is no schema, or a schema's root is no object.
    NoSchema,
    /// The state does not hold an object of bookmarks.
    StateNotObject,
    /// A table is to be partitioned by a column that its schema lacks.
    FieldNotFound(String),
    /// Decoding a batch of records gave no rows.
    EmptyBatch,
    /// A writer was closed before it saw any message.
    Unknown,
}

/// `serde_json`'s own error for a document that does not hold what it had
/// to, made by `serde::de::Error::custom` with the given words. Nothing is
/// said of the error.
#[verifier::external_body]
pub(crate) fn shape_error(words: &str) -> serde_json::Error {
    <serde_json::Error as serde::de::Error>::custom(words)
}

} // verus!
