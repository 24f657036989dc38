//! Schemas from JSON text: inferring one from a sample, reading a declared
//! one, merging the two, and writing one out.

use vstd::prelude::*;
use crate::codec::{decode_schema, encode_schema, schema_doc, schema_of_doc};
use crate::error::{outcome_view, SchemaError};
use crate::infer::{infer_object_fields, inferred, sample_fields};
use crate::infer_laws::{lemma_inferred_names_differ, lemma_single_sample};
use crate::json::{members_value, parse_json, parsed, print_json, printed, JsonSpec, JsonValue};
use crate::merge::merged;
use crate::model::{field_names, schema_wf, Fields, Metadata, Schema, SchemaSpec};

pub use crate::merge::merge_schema_unordered;

verus! {

/// The schema inferred from a text that holds one sample.
pub open spec fn inferred_from_text(text: Seq<u8>) -> Result<SchemaSpec, SchemaError> {
    match parsed(text) {
        Ok(v) => inferred(seq![v]),
        Err(fault) => Err(SchemaError::JsonSyntax(fault)),
    }
}

/// The schema that a text declares.
pub open spec fn schema_of_text(text: Seq<u8>) -> Result<SchemaSpec, SchemaError> {
    match parsed(text) {
        Ok(v) => schema_of_doc(v),
        Err(fault) => Err(SchemaError::JsonSyntax(fault)),
    }
}

/// The merge of the schema that one text declares with the schema
/// inferred from another. The declared text is read first.
pub open spec fn merged_from_text(defined: Seq<u8>, sample: Seq<u8>) -> Result<
    SchemaSpec,
    SchemaError,
> {
    match schema_of_text(defined) {
        Err(e) => Err(e),
        Ok(d) => match inferred_from_text(sample) {
            Err(e) => Err(e),
            Ok(i) => Ok(merged(d, i)),
        },
    }
}

/// The JSON text of a schema, if the writer gives one.
pub open spec fn text_of_schema(s: SchemaSpec) -> Option<Seq<u8>> {
    printed(schema_doc(s))
}

/// Infers a schema from one sample, which must be a JSON object.
pub fn infer_schema_from_value(v: &JsonValue) -> (r: Result<Schema, SchemaError>)
    ensures
        outcome_view(r) == inferred(seq![v@]),
        r matches Ok(s) ==> field_names(s@.fields).no_duplicates(),
{
    proof {
        lemma_inferred_names_differ(seq![v@]);
        reveal_with_fuel(sample_fields, 2);
        assert(seq![v@].drop_last() =~= Seq::<JsonSpec>::empty());
        assert(seq![v@].last() == v@);
    }
    match v {
        JsonValue::Object(members) => {
            proof {
                lemma_single_sample(members_value(members@));
            }
            let list = infer_object_fields(members);
            Ok(Schema { fields: Fields { list }, metadata: Metadata::new() })
        },
        _ => Err(SchemaError::NotAnObject),
    }
}

/// Infers a schema from the JSON text of one sample object. A text that
/// is not JSON gives `JsonSyntax`; a sample that is no object gives
/// `NotAnObject`.
pub fn infer_schema_from_json_obj_bytes(json: &[u8]) -> (r: Result<Schema, SchemaError>)
    ensures
        outcome_view(r) == inferred_from_text(json@),
        r matches Ok(s) ==> field_names(s@.fields).no_duplicates(),
{
    match parse_json(json) {
        Ok(v) => infer_schema_from_value(&v),
        Err(fault) => Err(SchemaError::JsonSyntax(fault)),
    }
}

/// Reads a declared schema from its JSON text. A text that is not JSON
/// gives `JsonSyntax`; a document of the wrong shape gives `SchemaShape`;
/// a type name that names no type gives `UnknownTypeTag`.
pub fn parse_json_schema(json: &[u8]) -> (r: Result<Schema, SchemaError>)
    ensures
        outcome_view(r) == schema_of_text(json@),
        r matches Ok(s) ==> schema_wf(s@),
{
    match parse_json(json) {
        Ok(v) => {
            let r = decode_schema(&v);
            proof {
                crate::codec_laws::lemma_decoded_schema_wf(v@);
            }
            r
        },
        Err(fault) => Err(SchemaError::JsonSyntax(fault)),
    }
}

/// Reads a declared schema and a sample from their JSON texts and merges
/// the declared schema with the one inferred from the sample.
pub fn merge_unordered(defined_schema_json: &[u8], sample_json: &[u8]) -> (r: Result<
    Schema,
    SchemaError,
>)
    ensures
        outcome_view(r) == merged_from_text(defined_schema_json@, sample_json@),
{
    match parse_json_schema(defined_schema_json) {
        Err(e) => Err(e),
        Ok(defined) => match infer_schema_from_json_obj_bytes(sample_json) {
            Err(e) => Err(e),
            Ok(guess) => Ok(merge_schema_unordered(defined, guess)),
        },
    }
}

/// Appends the JSON text of a schema to `wtr`. Where the writer gives no
/// text, `wtr` is left as it was and the error is `Encode`.
pub fn schema2json2writer(s: &Schema, wtr: &mut Vec<u8>) -> (r: Result<(), SchemaError>)
    ensures
        match text_of_schema(s@) {
            Some(text) => r is Ok && final(wtr)@ == old(wtr)@ + text,
            None => r == Err::<(), SchemaError>(SchemaError::Encode) && final(wtr)@ == old(wtr)@,
        },
{
    let doc = encode_schema(s);
    match print_json(&doc) {
        Some(mut text) => {
            wtr.append(&mut text);
            Ok(())
        },
        None => Err(SchemaError::Encode),
    }
}

/// Reading back what was written gives the schema that was written,
/// wherever the JSON parser reads the written document back.
pub proof fn lemma_text_round_trip(s: SchemaSpec, text: Seq<u8>)
    requires
        schema_wf(s),
    ensures
        text_of_schema(s) == Some(text) && parsed(text) == Ok::<JsonSpec, crate::error::ParseFault>(
            schema_doc(s),
        ) ==> schema_of_text(text) == Ok::<SchemaSpec, SchemaError>(s),
{
    crate::codec_laws::lemma_schema_round_trip(s);
}

} // verus!
