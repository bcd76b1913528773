//! Checking records against the JSON Schema of their stream.
//!
//! The checking itself is the work of the `jsonschema` crate; the library
//! names what it decides and builds on that.
//!
//! `jsonschema` follows a `$ref` anew at every check, and where a reference
//! leads back to itself without a step into the record, the check does not
//! return. References are therefore left open before a schema reaches
//! `jsonschema`: every object of the schema that holds a `$ref` becomes the
//! empty object, which every value satisfies.

use crate::error::SingerIcebergError;
use crate::json::{mentions, to_value, without, Json, JsonModel};
use vstd::prelude::*;

verus! {

/// `jsonschema`'s compiled validator, of which nothing is seen from here.
#[verifier::external_type_specification]
#[verifier::external_body]
pub struct ExCompiled(jsonschema::JSONSchema);

/// Whether some object of a schema, at any depth, holds a `$ref`.
pub open spec fn has_reference(schema: JsonModel) -> bool {
    mentions(schema, "$ref"@)
}

/// A schema with its references left open: every object that holds a
/// `$ref`, at any depth, is the empty object.
pub open spec fn opened(schema: JsonModel) -> JsonModel {
    without(schema, "$ref"@)
}

/// Leaves the references of a schema open.
pub fn open_references(schema: &Json) -> (r: Json)
    ensures
        !has_reference(r@),
        r@ == opened(schema@),
{
    schema.without("$ref")
}

/// Whether `jsonschema` compiles the document `schema` into a validator.
pub uninterp spec fn schema_compiles(schema: JsonModel) -> bool;

/// Whether `jsonschema` finds that `record` satisfies the schema `schema`.
pub uninterp spec fn record_conforms(schema: JsonModel, record: JsonModel) -> bool;

/// The document that a validator was compiled from.
pub uninterp spec fn compiled_from(compiled: jsonschema::JSONSchema) -> JsonModel;

/// `jsonschema::JSONSchema::compile`, on a schema without references. The
/// contract says when a validator comes back and which schema it is of.
#[verifier::external_body]
fn compile(schema: &Json) -> (r: Option<jsonschema::JSONSchema>)
    requires
        !has_reference(schema@),
    ensures
        r is Some == schema_compiles(schema@),
        r is Some ==> compiled_from(r.unwrap()) == schema@,
{
    jsonschema::JSONSchema::compile(&to_value(schema)).ok()
}

/// `jsonschema::JSONSchema::validate`, of a validator whose schema holds no
/// reference: the first of its diagnostics, as text, or `None` where the
/// record satisfies the schema. The contract says nothing of the text.
#[verifier::external_body]
fn first_diagnostic(compiled: &jsonschema::JSONSchema, record: &Json) -> (r: Option<String>)
    requires
        !has_reference(compiled_from(*compiled)),
    ensures
        r is None == record_conforms(compiled_from(*compiled), record@),
{
    let value = to_value(record);
    let first = compiled.validate(&value).err().and_then(|mut errors| errors.next());
    first.map(|e| e.to_string())
}

/// The schema of a stream, ready to check records against.
#[derive(Debug)]
pub struct Validator {
    compiled: jsonschema::JSONSchema,
}

impl Validator {
    /// The schema that records are checked against: the one the validator
    /// was made for, with its references left open.
    pub closed spec fn schema(&self) -> JsonModel {
        compiled_from(self.compiled)
    }

    #[verifier::type_invariant]
    spec fn without_reference(&self) -> bool {
        !has_reference(compiled_from(self.compiled))
    }

    /// Prepares a schema for checking records: its references are left
    /// open, and what is left must compile.
    pub fn new(schema: &Json) -> (r: Result<Validator, SingerIcebergError>)
        ensures
            match r {
                Ok(validator) => schema_compiles(opened(schema@)) && validator.schema() == opened(
                    schema@,
                ),
                Err(e) => !schema_compiles(opened(schema@)) && e is InvalidSchema,
            },
    {
        let open = open_references(schema);
        match compile(&open) {
            Some(compiled) => Ok(Validator { compiled }),
            None => Err(SingerIcebergError::InvalidSchema),
        }
    }

    /// Checks one record: `Ok` where it satisfies the schema, else the error
    /// that carries the first diagnostic.
    pub fn check(&self, record: &Json) -> (r: Result<(), SingerIcebergError>)
        ensures
            match r {
                Ok(_) => record_conforms(self.schema(), record@),
                Err(e) => !record_conforms(self.schema(), record@) && (
                e matches SingerIcebergError::SchemaValidation(diagnostic) && diagnostic is Some),
            },
    {
        proof {
            use_type_invariant(self);
        }
        match first_diagnostic(&self.compiled, record) {
            None => Ok(()),
            Some(diagnostic) => Err(SingerIcebergError::SchemaValidation(Some(diagnostic))),
        }
    }
}

} // verus!
