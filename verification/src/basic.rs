//! Plain mirrors of the schema types, with every part in a public field,
//! and their conversion into the schema types.

use vstd::prelude::*;
use vstd::std_specs::convert::FromSpecImpl;
use crate::codec::{
    decode_metadata, decode_type, find_member, member_index, metadata_of_doc, type_of_doc,
};
use crate::error::{outcome_view, SchemaError, ShapeFault};
use crate::json::{items_value, parse_json, parsed, JsonSpec, JsonValue};
use crate::model::{
    field_names, fields_value, DataType, Field, FieldSpec, Fields, Metadata, Schema, SchemaSpec,
};

verus! {

/// A field in plain form.
#[derive(Debug, PartialEq, Eq)]
pub struct BasicField {
    pub name: String,
    pub dtyp: DataType,
    pub null: bool,
}

/// A list of fields in plain form.
#[derive(Debug, PartialEq, Eq)]
pub struct BasicFields {
    pub fields: Vec<BasicField>,
}

/// A schema in plain form.
#[derive(Debug, PartialEq, Eq)]
pub struct BasicSchema {
    pub fields: BasicFields,
    pub metadata: Metadata,
}

impl View for BasicField {
    type V = FieldSpec;

    open spec fn view(&self) -> FieldSpec {
        FieldSpec { name: self.name@, data_type: self.dtyp@, nullable: self.null }
    }
}

impl View for BasicFields {
    type V = Seq<FieldSpec>;

    open spec fn view(&self) -> Seq<FieldSpec> {
        Seq::new(self.fields@.len(), |i: int| self.fields@[i]@)
    }
}

impl View for BasicSchema {
    type V = SchemaSpec;

    open spec fn view(&self) -> SchemaSpec {
        SchemaSpec { fields: self.fields@, metadata: self.metadata@ }
    }
}

impl Clone for BasicField {
    fn clone(&self) -> (r: Self)
        ensures
            r@ == self@,
    {
        BasicField { name: self.name.clone(), dtyp: self.dtyp.duplicate(), null: self.null }
    }
}

impl Clone for BasicFields {
    fn clone(&self) -> (r: Self)
        ensures
            r@ == self@,
    {
        let mut fields: Vec<BasicField> = Vec::new();
        let mut i: usize = 0;
        while i < self.fields.len()
            invariant
                i <= self.fields.len(),
                fields.len() == i,
                forall|k: int| 0 <= k < i ==> (#[trigger] fields[k])@ == self.fields[k]@,
            decreases self.fields.len() - i,
        {
            fields.push(self.fields[i].clone());
            i = i + 1;
        }
        let r = BasicFields { fields };
        assert(r@ =~= self@);
        r
    }
}

impl Clone for BasicSchema {
    fn clone(&self) -> (r: Self)
        ensures
            r@ == self@,
    {
        BasicSchema { fields: self.fields.clone(), metadata: self.metadata.duplicate() }
    }
}

impl FromSpecImpl<BasicField> for Field {
    open spec fn obeys_from_spec() -> bool {
        true
    }

    open spec fn from_spec(b: BasicField) -> Field {
        Field { name: b.name, data_type: b.dtyp, nullable: b.null }
    }
}

impl From<BasicField> for Field {
    fn from(b: BasicField) -> (r: Field)
        ensures
            r@ == b@,
    {
        Field { name: b.name, data_type: b.dtyp, nullable: b.null }
    }
}

/// Wraps a vector of fields as a field list.
pub fn vec2fields(v: Vec<Field>) -> (r: Fields)
    ensures
        r@ == fields_value(v@),
{
    Fields { list: v }
}

impl FromSpecImpl<BasicFields> for Fields {
    open spec fn obeys_from_spec() -> bool {
        false
    }

    open spec fn from_spec(b: BasicFields) -> Fields {
        arbitrary()
    }
}

impl From<BasicFields> for Fields {
    fn from(b: BasicFields) -> (r: Fields)
        ensures
            r@ == b@,
    {
        let ghost wanted = b@;
        let mut list: Vec<Field> = Vec::new();
        for f in iter: b.fields
            invariant
                wanted == b@,
                list.len() == iter.index(),
                forall|k: int| 0 <= k < list.len() ==> (#[trigger] list[k])@ == wanted[k],
        {
            list.push(Field::from(f));
        }
        assert(fields_value(list@) =~= wanted);
        vec2fields(list)
    }
}

/// Puts a field list and metadata together as a schema.
pub fn fields2schema(fields: Fields, meta: Metadata) -> (r: Schema)
    ensures
        r@ == (SchemaSpec { fields: fields@, metadata: meta@ }),
{
    Schema::new_with_metadata(fields, meta)
}

impl FromSpecImpl<BasicSchema> for Schema {
    open spec fn obeys_from_spec() -> bool {
        false
    }

    open spec fn from_spec(b: BasicSchema) -> Schema {
        arbitrary()
    }
}

impl From<BasicSchema> for Schema {
    fn from(b: BasicSchema) -> (r: Schema)
        ensures
            r@ == b@,
    {
        let fields = Fields::from(b.fields);
        Schema::new_with_metadata(fields, b.metadata)
    }
}

/// The field that a plain field document stands for: an object with the
/// members `name`, a non-empty string, `dtyp`, a type document, and
/// `null`, a boolean. They are checked in this order, after the presence
/// of all three.
pub open spec fn basic_field_of_doc(v: JsonSpec) -> Result<FieldSpec, SchemaError> {
    match v {
        JsonSpec::Object(ms) => match (
            member_index(ms, "name"@),
            member_index(ms, "dtyp"@),
            member_index(ms, "null"@),
        ) {
            (Some(n), Some(t), Some(b)) => match ms[n].value {
                JsonSpec::Text(name) => if name.len() == 0 {
                    Err(SchemaError::SchemaShape(ShapeFault::BadName))
                } else {
                    match type_of_doc(ms[t].value) {
                        Err(e) => Err(e),
                        Ok(data_type) => match ms[b].value {
                            JsonSpec::Bool(nullable) => Ok(FieldSpec { name, data_type, nullable }),
                            _ => Err(SchemaError::SchemaShape(ShapeFault::BadNullable)),
                        },
                    }
                },
                _ => Err(SchemaError::SchemaShape(ShapeFault::BadName)),
            },
            _ => Err(SchemaError::SchemaShape(ShapeFault::MissingKey)),
        },
        _ => Err(SchemaError::SchemaShape(ShapeFault::NotAnObject)),
    }
}

/// The fields that a list of plain field documents stands for. The first
/// document that is no field, or that repeats an earlier name, decides
/// the error.
pub open spec fn basic_fields_of_docs(items: Seq<JsonSpec>) -> Result<Seq<FieldSpec>, SchemaError>
    decreases items.len(),
{
    if items.len() == 0 {
        Ok(Seq::empty())
    } else {
        match basic_fields_of_docs(items.drop_last()) {
            Err(e) => Err(e),
            Ok(fields) => match basic_field_of_doc(items.last()) {
                Err(e) => Err(e),
                Ok(f) => if field_names(fields).contains(f.name) {
                    Err(SchemaError::SchemaShape(ShapeFault::DuplicateField))
                } else {
                    Ok(fields.push(f))
                },
            },
        }
    }
}

/// The schema that a plain schema document stands for: an object with
/// the members `fields`, itself an object whose member `fields` is an
/// array of plain field documents, and `metadata`, an object whose values
/// are strings.
pub open spec fn basic_schema_of_doc(v: JsonSpec) -> Result<SchemaSpec, SchemaError> {
    match v {
        JsonSpec::Object(ms) => match (member_index(ms, "fields"@), member_index(ms, "metadata"@)) {
            (Some(f), Some(m)) => match ms[f].value {
                JsonSpec::Object(inner) => match member_index(inner, "fields"@) {
                    Some(l) => match inner[l].value {
                        JsonSpec::Array(items) => match basic_fields_of_docs(items) {
                            Err(e) => Err(e),
                            Ok(fields) => match ms[m].value {
                                JsonSpec::Object(entries) => match metadata_of_doc(entries) {
                                    Err(e) => Err(e),
                                    Ok(metadata) => Ok(SchemaSpec { fields, metadata }),
                                },
                                _ => Err(SchemaError::SchemaShape(ShapeFault::BadMetadata)),
                            },
                        },
                        _ => Err(SchemaError::SchemaShape(ShapeFault::FieldsNotAList)),
                    },
                    None => Err(SchemaError::SchemaShape(ShapeFault::MissingKey)),
                },
                _ => Err(SchemaError::SchemaShape(ShapeFault::NotAnObject)),
            },
            _ => Err(SchemaError::SchemaShape(ShapeFault::MissingKey)),
        },
        _ => Err(SchemaError::SchemaShape(ShapeFault::NotAnObject)),
    }
}

/// The schema that the text of a plain schema document stands for.
pub open spec fn basic_schema_of_text(text: Seq<u8>) -> Result<SchemaSpec, SchemaError> {
    match parsed(text) {
        Ok(v) => basic_schema_of_doc(v),
        Err(fault) => Err(SchemaError::JsonSyntax(fault)),
    }
}

/// An error among the first documents of a list is the error of the list.
proof fn lemma_basic_error_sticks(items: Seq<JsonSpec>, k: int)
    requires
        0 <= k <= items.len(),
        basic_fields_of_docs(items.take(k)) is Err,
    ensures
        basic_fields_of_docs(items) == basic_fields_of_docs(items.take(k)),
    decreases items.len(),
{
    if k == items.len() {
        assert(items.take(k) =~= items);
    } else {
        assert(items.drop_last().take(k) =~= items.take(k));
        lemma_basic_error_sticks(items.drop_last(), k);
    }
}

/// Reads a plain field from a document.
pub fn decode_basic_field(v: &JsonValue) -> (r: Result<BasicField, SchemaError>)
    ensures
        outcome_view(r) == basic_field_of_doc(v@),
{
    match v {
        JsonValue::Object(members) => {
            let name_at = find_member(members, "name");
            let type_at = find_member(members, "dtyp");
            let nullable_at = find_member(members, "null");
            match (name_at, type_at, nullable_at) {
                (Some(n), Some(t), Some(b)) => match &members[n].value {
                    JsonValue::Text(name) => {
                        if name.as_str().is_empty() {
                            Err(SchemaError::SchemaShape(ShapeFault::BadName))
                        } else {
                            match decode_type(&members[t].value) {
                                Err(e) => Err(e),
                                Ok(dtyp) => match &members[b].value {
                                    JsonValue::Bool(null) => Ok(
                                        BasicField { name: name.clone(), dtyp, null: *null },
                                    ),
                                    _ => Err(SchemaError::SchemaShape(ShapeFault::BadNullable)),
                                },
                            }
                        }
                    },
                    _ => Err(SchemaError::SchemaShape(ShapeFault::BadName)),
                },
                _ => Err(SchemaError::SchemaShape(ShapeFault::MissingKey)),
            }
        },
        _ => Err(SchemaError::SchemaShape(ShapeFault::NotAnObject)),
    }
}

/// Whether some plain field is called `name`.
fn has_basic_field(fields: &BasicFields, name: &String) -> (r: bool)
    ensures
        r == field_names(fields@).contains(name@),
{
    let mut i: usize = 0;
    while i < fields.fields.len()
        invariant
            i <= fields.fields.len(),
            forall|k: int| 0 <= k < i ==> fields.fields[k].name@ != name@,
        decreases fields.fields.len() - i,
    {
        if fields.fields[i].name == *name {
            assert(field_names(fields@)[i as int] == name@);
            return true;
        }
        i = i + 1;
    }
    false
}

/// Reads a list of plain fields from documents.
pub fn decode_basic_fields(items: &Vec<JsonValue>) -> (r: Result<BasicFields, SchemaError>)
    ensures
        outcome_view(r) == basic_fields_of_docs(items_value(items@)),
{
    let ghost docs = items_value(items@);
    let mut out = BasicFields { fields: Vec::new() };
    let mut i: usize = 0;
    assert(docs.take(0) =~= Seq::empty());
    assert(out@ =~= Seq::empty());
    while i < items.len()
        invariant
            i <= items.len(),
            docs == items_value(items@),
            basic_fields_of_docs(docs.take(i as int)) == Ok::<Seq<FieldSpec>, SchemaError>(out@),
        decreases items.len() - i,
    {
        let ghost before = out@;
        proof {
            assert(docs.take(i + 1).drop_last() =~= docs.take(i as int));
            assert(docs.take(i + 1).last() == items[i as int]@);
        }
        match decode_basic_field(&items[i]) {
            Err(e) => {
                proof {
                    lemma_basic_error_sticks(docs, i + 1);
                }
                return Err(e);
            },
            Ok(f) => {
                if has_basic_field(&out, &f.name) {
                    proof {
                        lemma_basic_error_sticks(docs, i + 1);
                    }
                    return Err(SchemaError::SchemaShape(ShapeFault::DuplicateField));
                }
                out.fields.push(f);
                assert(out@ =~= before.push(f@));
            },
        }
        i = i + 1;
    }
    assert(docs.take(i as int) =~= docs);
    Ok(out)
}

/// Reads a plain schema from a document.
pub fn decode_basic_schema(v: &JsonValue) -> (r: Result<BasicSchema, SchemaError>)
    ensures
        outcome_view(r) == basic_schema_of_doc(v@),
{
    match v {
        JsonValue::Object(members) => {
            let fields_at = find_member(members, "fields");
            let metadata_at = find_member(members, "metadata");
            match (fields_at, metadata_at) {
                (Some(f), Some(m)) => match &members[f].value {
                    JsonValue::Object(inner) => match find_member(inner, "fields") {
                        Some(l) => match &inner[l].value {
                            JsonValue::Array(items) => match decode_basic_fields(items) {
                                Err(e) => Err(e),
                                Ok(fields) => match &members[m].value {
                                    JsonValue::Object(entries) => match decode_metadata(entries) {
                                        Err(e) => Err(e),
                                        Ok(metadata) => Ok(BasicSchema { fields, metadata }),
                                    },
                                    _ => Err(SchemaError::SchemaShape(ShapeFault::BadMetadata)),
                                },
                            },
                            _ => Err(SchemaError::SchemaShape(ShapeFault::FieldsNotAList)),
                        },
                        None => Err(SchemaError::SchemaShape(ShapeFault::MissingKey)),
                    },
                    _ => Err(SchemaError::SchemaShape(ShapeFault::NotAnObject)),
                },
                _ => Err(SchemaError::SchemaShape(ShapeFault::MissingKey)),
            }
        },
        _ => Err(SchemaError::SchemaShape(ShapeFault::NotAnObject)),
    }
}

/// Reads a plain schema from the JSON text of a plain schema document.
pub fn basic_schema_from_json(json: &[u8]) -> (r: Result<BasicSchema, SchemaError>)
    ensures
        outcome_view(r) == basic_schema_of_text(json@),
{
    match parse_json(json) {
        Ok(v) => decode_basic_schema(&v),
        Err(fault) => Err(SchemaError::JsonSyntax(fault)),
    }
}

} // verus!
