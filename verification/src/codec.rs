//! The JSON document form of a schema.
//!
//! A schema document is an object with a member `fields`, an array of
//! field objects, and a member `metadata`, an object whose values are
//! strings. A field object has the members `name`, `type` and `nullable`.
//! A scalar type is written as its name; a list type as an object with the
//! one member `List`, its element type; a struct type as an object with
//! the one member `Struct`, an array of field objects. Members beyond
//! these are ignored.

use vstd::prelude::*;
use crate::error::{outcome_view, SchemaError, ShapeFault};
use crate::json::{items_value, members_value, JsonSpec, JsonValue, Member, MemberSpec};
use crate::model::{
    field_names, fields_value, has_field, index_value, metadata_keys, outcome_fields, DataType,
    Field, FieldSpec, Fields, Metadata, Schema, SchemaSpec, TypeSpec,
};

verus! {

/// The keys of a sequence of members, in order.
pub open spec fn member_keys(ms: Seq<MemberSpec>) -> Seq<Seq<char>> {
    Seq::new(ms.len(), |i: int| ms[i].key)
}

/// The index of the first member with the given key, if there is one.
pub open spec fn member_index(ms: Seq<MemberSpec>, key: Seq<char>) -> Option<int> {
    member_keys(ms).index_of_first(key)
}

/// An object with a single member.
pub open spec fn tagged(key: Seq<char>, value: JsonSpec) -> JsonSpec {
    JsonSpec::Object(seq![MemberSpec { key, value }])
}

/// The document form of a type.
pub open spec fn type_doc(t: TypeSpec) -> JsonSpec
    decreases t,
{
    match t {
        TypeSpec::Null => JsonSpec::Text("Null"@),
        TypeSpec::Boolean => JsonSpec::Text("Boolean"@),
        TypeSpec::Int64 => JsonSpec::Text("Int64"@),
        TypeSpec::Float64 => JsonSpec::Text("Float64"@),
        TypeSpec::Utf8 => JsonSpec::Text("Utf8"@),
        TypeSpec::List(inner) => tagged("List"@, type_doc(*inner)),
        TypeSpec::Struct(fields) => tagged("Struct"@, JsonSpec::Array(fields_doc(fields))),
    }
}

/// The document form of a field.
pub open spec fn field_doc(f: FieldSpec) -> JsonSpec
    decreases f,
{
    JsonSpec::Object(
        seq![
            MemberSpec { key: "name"@, value: JsonSpec::Text(f.name) },
            MemberSpec { key: "type"@, value: type_doc(f.data_type) },
            MemberSpec { key: "nullable"@, value: JsonSpec::Bool(f.nullable) },
        ],
    )
}

/// The document forms of a list of fields, in order.
pub open spec fn fields_doc(fs: Seq<FieldSpec>) -> Seq<JsonSpec>
    decreases fs,
{
    Seq::new(
        fs.len(),
        |i: int|
            if 0 <= i < fs.len() {
                field_doc(fs[i])
            } else {
                arbitrary()
            },
    )
}

/// The members that stand for metadata entries, in order.
pub open spec fn metadata_doc(m: Seq<(Seq<char>, Seq<char>)>) -> Seq<MemberSpec> {
    Seq::new(m.len(), |i: int| MemberSpec { key: m[i].0, value: JsonSpec::Text(m[i].1) })
}

/// The document form of a schema.
pub open spec fn schema_doc(s: SchemaSpec) -> JsonSpec {
    JsonSpec::Object(
        seq![
            MemberSpec { key: "fields"@, value: JsonSpec::Array(fields_doc(s.fields)) },
            MemberSpec { key: "metadata"@, value: JsonSpec::Object(metadata_doc(s.metadata)) },
        ],
    )
}

/// The scalar type that a tag names, if it names one.
pub open spec fn scalar_of(tag: Seq<char>) -> Option<TypeSpec> {
    if tag == "Null"@ {
        Some(TypeSpec::Null)
    } else if tag == "Boolean"@ {
        Some(TypeSpec::Boolean)
    } else if tag == "Int64"@ {
        Some(TypeSpec::Int64)
    } else if tag == "Float64"@ {
        Some(TypeSpec::Float64)
    } else if tag == "Utf8"@ {
        Some(TypeSpec::Utf8)
    } else {
        None
    }
}

/// The type that a document stands for. A string must name a scalar type.
/// An object must have exactly one member, `List` or `Struct`. Any other
/// tag is unknown; any other value has the wrong shape.
pub open spec fn type_of_doc(v: JsonSpec) -> Result<TypeSpec, SchemaError>
    decreases v,
{
    match v {
        JsonSpec::Text(tag) => match scalar_of(tag) {
            Some(t) => Ok(t),
            None => Err(SchemaError::UnknownTypeTag),
        },
        JsonSpec::Object(ms) => if ms.len() != 1 {
            Err(SchemaError::SchemaShape(ShapeFault::BadType))
        } else if ms[0].key == "List"@ {
            match type_of_doc(ms[0].value) {
                Ok(t) => Ok(TypeSpec::List(Box::new(t))),
                Err(e) => Err(e),
            }
        } else if ms[0].key == "Struct"@ {
            match ms[0].value {
                JsonSpec::Array(items) => match fields_of_docs(items) {
                    Ok(fields) => Ok(TypeSpec::Struct(fields)),
                    Err(e) => Err(e),
                },
                _ => Err(SchemaError::SchemaShape(ShapeFault::FieldsNotAList)),
            }
        } else {
            Err(SchemaError::UnknownTypeTag)
        },
        _ => Err(SchemaError::SchemaShape(ShapeFault::BadType)),
    }
}

/// The field that a document stands for. The document must be an object
/// with members `name`, `type` and `nullable`; the name a non-empty
/// string, the type a type document, the nullability a boolean. They are
/// checked in this order, after the presence of all three.
pub open spec fn field_of_doc(v: JsonSpec) -> Result<FieldSpec, SchemaError>
    decreases v,
{
    match v {
        JsonSpec::Object(ms) => match (
            member_index(ms, "name"@),
            member_index(ms, "type"@),
            member_index(ms, "nullable"@),
        ) {
            (Some(n), Some(t), Some(b)) => {
                proof {
                    member_keys(ms).index_of_first_ensures("type"@);
                }
                match ms[n].value {
                    JsonSpec::Text(name) => if name.len() == 0 {
                        Err(SchemaError::SchemaShape(ShapeFault::BadName))
                    } else {
                        match type_of_doc(ms[t].value) {
                            Err(e) => Err(e),
                            Ok(data_type) => match ms[b].value {
                                JsonSpec::Bool(nullable) => Ok(
                                    FieldSpec { name, data_type, nullable },
                                ),
                                _ => Err(SchemaError::SchemaShape(ShapeFault::BadNullable)),
                            },
                        }
                    },
                    _ => Err(SchemaError::SchemaShape(ShapeFault::BadName)),
                }
            },
            _ => Err(SchemaError::SchemaShape(ShapeFault::MissingKey)),
        },
        _ => Err(SchemaError::SchemaShape(ShapeFault::NotAnObject)),
    }
}

/// The fields that a list of documents stands for. The first document
/// that is no field, or that repeats an earlier name, decides the error.
pub open spec fn fields_of_docs(items: Seq<JsonSpec>) -> Result<Seq<FieldSpec>, SchemaError>
    decreases items,
{
    if items.len() == 0 {
        Ok(Seq::empty())
    } else {
        match fields_of_docs(items.drop_last()) {
            Err(e) => Err(e),
            Ok(fields) => match field_of_doc(items.last()) {
                Err(e) => Err(e),
                Ok(f) => if field_names(fields).contains(f.name) {
                    Err(SchemaError::SchemaShape(ShapeFault::DuplicateField))
                } else {
                    Ok(fields.push(f))
                },
            },
        }
    }
}

/// The metadata that a list of members stands for. The first member whose
/// value is no string, or whose key repeats an earlier one, decides the
/// error.
pub open spec fn metadata_of_doc(ms: Seq<MemberSpec>) -> Result<
    Seq<(Seq<char>, Seq<char>)>,
    SchemaError,
>
    decreases ms.len(),
{
    if ms.len() == 0 {
        Ok(Seq::empty())
    } else {
        match metadata_of_doc(ms.drop_last()) {
            Err(e) => Err(e),
            Ok(entries) => match ms.last().value {
                JsonSpec::Text(value) => if metadata_keys(entries).contains(ms.last().key) {
                    Err(SchemaError::SchemaShape(ShapeFault::BadMetadata))
                } else {
                    Ok(entries.push((ms.last().key, value)))
                },
                _ => Err(SchemaError::SchemaShape(ShapeFault::MetadataValueNotAString)),
            },
        }
    }
}

/// The schema that a document stands for. The document must be an object
/// with members `fields`, an array, and `metadata`, an object. Their
/// presence is checked first, then the fields, then the metadata.
pub open spec fn schema_of_doc(v: JsonSpec) -> Result<SchemaSpec, SchemaError> {
    match v {
        JsonSpec::Object(ms) => match (member_index(ms, "fields"@), member_index(ms, "metadata"@)) {
            (Some(f), Some(m)) => match ms[f].value {
                JsonSpec::Array(items) => match fields_of_docs(items) {
                    Err(e) => Err(e),
                    Ok(fields) => match ms[m].value {
                        JsonSpec::Object(entries) => match metadata_of_doc(entries) {
                            Err(e) => Err(e),
                            Ok(metadata) => Ok(SchemaSpec { fields, metadata }),
                        },
                        _ => Err(SchemaError::SchemaShape(ShapeFault::BadMetadata)),
                    },
                },
                _ => Err(SchemaError::SchemaShape(ShapeFault::FieldsNotAList)),
            },
            _ => Err(SchemaError::SchemaShape(ShapeFault::MissingKey)),
        },
        _ => Err(SchemaError::SchemaShape(ShapeFault::NotAnObject)),
    }
}

/// An error among the first documents of a list is the error of the list.
proof fn lemma_fields_error_sticks(items: Seq<JsonSpec>, k: int)
    requires
        0 <= k <= items.len(),
        fields_of_docs(items.take(k)) is Err,
    ensures
        fields_of_docs(items) == fields_of_docs(items.take(k)),
    decreases items.len(),
{
    if k == items.len() {
        assert(items.take(k) =~= items);
    } else {
        assert(items.drop_last().take(k) =~= items.take(k));
        lemma_fields_error_sticks(items.drop_last(), k);
    }
}

/// An error among the first members of a metadata object is the error of
/// the object.
proof fn lemma_metadata_error_sticks(ms: Seq<MemberSpec>, k: int)
    requires
        0 <= k <= ms.len(),
        metadata_of_doc(ms.take(k)) is Err,
    ensures
        metadata_of_doc(ms) == metadata_of_doc(ms.take(k)),
    decreases ms.len(),
{
    if k == ms.len() {
        assert(ms.take(k) =~= ms);
    } else {
        assert(ms.drop_last().take(k) =~= ms.take(k));
        lemma_metadata_error_sticks(ms.drop_last(), k);
    }
}

/// A JSON string with the given content.
fn text(s: &str) -> (r: JsonValue)
    ensures
        r@ == JsonSpec::Text(s@),
{
    JsonValue::Text(s.to_owned())
}

/// A JSON object with a single member.
fn tag(key: &str, value: JsonValue) -> (r: JsonValue)
    ensures
        r@ == tagged(key@, value@),
{
    let members = vec![Member { key: key.to_owned(), value }];
    assert(members_value(members@) =~= seq![MemberSpec { key: key@, value: value@ }]);
    JsonValue::Object(members)
}

/// Writes a type as a document.
pub fn encode_type(t: &DataType) -> (r: JsonValue)
    ensures
        r@ == type_doc(t@),
    decreases t,
{
    match t {
        DataType::Null => text("Null"),
        DataType::Boolean => text("Boolean"),
        DataType::Int64 => text("Int64"),
        DataType::Float64 => text("Float64"),
        DataType::Utf8 => text("Utf8"),
        DataType::List(inner) => tag("List", encode_type(inner)),
        DataType::Struct(fields) => tag("Struct", JsonValue::Array(encode_fields(fields))),
    }
}

/// Writes a field as a document.
pub fn encode_field(f: &Field) -> (r: JsonValue)
    ensures
        r@ == field_doc(f@),
    decreases f,
{
    let members = vec![
        Member { key: "name".to_owned(), value: JsonValue::Text(f.name.clone()) },
        Member { key: "type".to_owned(), value: encode_type(&f.data_type) },
        Member { key: "nullable".to_owned(), value: JsonValue::Bool(f.nullable) },
    ];
    assert(members_value(members@) =~= field_doc(f@)->Object_0);
    JsonValue::Object(members)
}

/// Writes a list of fields as documents, in order.
pub fn encode_fields(fields: &Vec<Field>) -> (r: Vec<JsonValue>)
    ensures
        items_value(r@) == fields_doc(fields_value(fields@)),
    decreases fields,
{
    let mut out: Vec<JsonValue> = Vec::new();
    let mut i: usize = 0;
    while i < fields.len()
        invariant
            i <= fields.len(),
            out.len() == i,
            forall|k: int| 0 <= k < i ==> (#[trigger] out[k])@ == field_doc(fields[k]@),
        decreases fields.len() - i,
    {
        let doc = encode_field(&fields[i]);
        out.push(doc);
        i = i + 1;
    }
    assert(items_value(out@) =~= fields_doc(fields_value(fields@)));
    out
}

/// Writes metadata as the members of an object, in order.
pub fn encode_metadata(metadata: &Metadata) -> (r: Vec<Member>)
    ensures
        members_value(r@) == metadata_doc(metadata@),
{
    let mut out: Vec<Member> = Vec::new();
    let mut i: usize = 0;
    while i < metadata.entries.len()
        invariant
            i <= metadata.entries.len(),
            out.len() == i,
            forall|k: int| 0 <= k < i ==> (#[trigger] out[k])@ == metadata_doc(metadata@)[k],
        decreases metadata.entries.len() - i,
    {
        let entry = &metadata.entries[i];
        out.push(Member { key: entry.0.clone(), value: JsonValue::Text(entry.1.clone()) });
        i = i + 1;
    }
    assert(members_value(out@) =~= metadata_doc(metadata@));
    out
}

/// Writes a schema as a document.
pub fn encode_schema(schema: &Schema) -> (r: JsonValue)
    ensures
        r@ == schema_doc(schema@),
{
    let members = vec![
        Member {
            key: "fields".to_owned(),
            value: JsonValue::Array(encode_fields(&schema.fields.list)),
        },
        Member {
            key: "metadata".to_owned(),
            value: JsonValue::Object(encode_metadata(&schema.metadata)),
        },
    ];
    assert(members_value(members@) =~= schema_doc(schema@)->Object_0);
    JsonValue::Object(members)
}

/// Finds the first member with the given key.
pub fn find_member(members: &Vec<Member>, key: &str) -> (r: Option<usize>)
    ensures
        index_value(r) == member_index(members_value(members@), key@),
        r matches Some(i) ==> i < members.len(),
{
    let wanted = key.to_owned();
    let ghost keys = member_keys(members_value(members@));
    let mut i: usize = 0;
    while i < members.len()
        invariant
            i <= members.len(),
            wanted@ == key@,
            keys == member_keys(members_value(members@)),
            forall|k: int| 0 <= k < i ==> keys[k] != key@,
        decreases members.len() - i,
    {
        if members[i].key == wanted {
            proof {
                assert(keys[i as int] == key@);
                keys.index_of_first_ensures(key@);
            }
            return Some(i);
        }
        i = i + 1;
    }
    proof {
        assert(!keys.contains(key@));
        keys.index_of_first_ensures(key@);
    }
    None
}

/// Whether a string is the given word.
fn is_word(s: &String, word: &str) -> (r: bool)
    ensures
        r == (s@ == word@),
{
    let w = word.to_owned();
    *s == w
}

/// Reads a scalar type's name.
fn decode_scalar(name: &String) -> (r: Option<DataType>)
    ensures
        outcome_some(r) == scalar_of(name@),
{
    if is_word(name, "Null") {
        Some(DataType::Null)
    } else if is_word(name, "Boolean") {
        Some(DataType::Boolean)
    } else if is_word(name, "Int64") {
        Some(DataType::Int64)
    } else if is_word(name, "Float64") {
        Some(DataType::Float64)
    } else if is_word(name, "Utf8") {
        Some(DataType::Utf8)
    } else {
        None
    }
}

/// The type that an optional type stands for.
pub open spec fn outcome_some(r: Option<DataType>) -> Option<TypeSpec> {
    match r {
        Some(t) => Some(t@),
        None => None,
    }
}

/// Reads a type from a document.
pub fn decode_type(v: &JsonValue) -> (r: Result<DataType, SchemaError>)
    ensures
        outcome_view(r) == type_of_doc(v@),
    decreases v,
{
    match v {
        JsonValue::Text(name) => match decode_scalar(name) {
            Some(t) => Ok(t),
            None => Err(SchemaError::UnknownTypeTag),
        },
        JsonValue::Object(members) => {
            assert(members_value(members@).len() == members.len());
            if members.len() != 1 {
                Err(SchemaError::SchemaShape(ShapeFault::BadType))
            } else if is_word(&members[0].key, "List") {
                assert(members_value(members@)[0] == members[0]@);
                match decode_type(&members[0].value) {
                    Ok(t) => Ok(DataType::List(Box::new(t))),
                    Err(e) => Err(e),
                }
            } else if is_word(&members[0].key, "Struct") {
                match &members[0].value {
                    JsonValue::Array(items) => match decode_fields(items) {
                        Ok(fields) => Ok(DataType::Struct(fields)),
                        Err(e) => Err(e),
                    },
                    _ => Err(SchemaError::SchemaShape(ShapeFault::FieldsNotAList)),
                }
            } else {
                Err(SchemaError::UnknownTypeTag)
            }
        },
        _ => Err(SchemaError::SchemaShape(ShapeFault::BadType)),
    }
}

/// Reads a field from a document.
pub fn decode_field(v: &JsonValue) -> (r: Result<Field, SchemaError>)
    ensures
        outcome_view(r) == field_of_doc(v@),
    decreases v,
{
    match v {
        JsonValue::Object(members) => {
            let name_at = find_member(members, "name");
            let type_at = find_member(members, "type");
            let nullable_at = find_member(members, "nullable");
            match (name_at, type_at, nullable_at) {
                (Some(n), Some(t), Some(b)) => match &members[n].value {
                    JsonValue::Text(name) => {
                        if name.as_str().is_empty() {
                            Err(SchemaError::SchemaShape(ShapeFault::BadName))
                        } else {
                            match decode_type(&members[t].value) {
                                Err(e) => Err(e),
                                Ok(data_type) => match &members[b].value {
                                    JsonValue::Bool(nullable) => Ok(
                                        Field {
                                            name: name.clone(),
                                            data_type,
                                            nullable: *nullable,
                                        },
                                    ),
                                    _ => Err(SchemaError::SchemaShape(ShapeFault::BadNullable)),
                                },
                            }
                        }
                    },
                    _ => Err(SchemaError::SchemaShape(ShapeFault::BadName)),
                },
                _ => Err(SchemaError::SchemaShape(ShapeFault::MissingKey)),
            }
        },
        _ => Err(SchemaError::SchemaShape(ShapeFault::NotAnObject)),
    }
}

/// Reads a list of fields from documents.
pub fn decode_fields(items: &Vec<JsonValue>) -> (r: Result<Vec<Field>, SchemaError>)
    ensures
        outcome_fields(r) == fields_of_docs(items_value(items@)),
    decreases items,
{
    let ghost docs = items_value(items@);
    let mut out: Vec<Field> = Vec::new();
    let mut i: usize = 0;
    assert(docs.take(0) =~= Seq::empty());
    assert(fields_value(out@) =~= Seq::empty());
    while i < items.len()
        invariant
            i <= items.len(),
            docs == items_value(items@),
            fields_of_docs(docs.take(i as int)) == Ok::<Seq<FieldSpec>, SchemaError>(
                fields_value(out@),
            ),
        decreases items.len() - i,
    {
        let ghost before = fields_value(out@);
        proof {
            assert(docs.take(i + 1).drop_last() =~= docs.take(i as int));
            assert(docs.take(i + 1).last() == items[i as int]@);
        }
        match decode_field(&items[i]) {
            Err(e) => {
                proof {
                    lemma_fields_error_sticks(docs, i + 1);
                }
                return Err(e);
            },
            Ok(f) => {
                if has_field(&out, &f.name) {
                    proof {
                        lemma_fields_error_sticks(docs, i + 1);
                    }
                    return Err(SchemaError::SchemaShape(ShapeFault::DuplicateField));
                }
                out.push(f);
                assert(fields_value(out@) =~= before.push(f@));
            },
        }
        i = i + 1;
    }
    assert(docs.take(i as int) =~= docs);
    Ok(out)
}

/// Whether some entry has the given key.
fn has_key(entries: &Vec<(String, String)>, key: &String) -> (r: bool)
    ensures
        r == metadata_keys((Metadata { entries: *entries })@).contains(key@),
{
    let ghost keys = metadata_keys((Metadata { entries: *entries })@);
    let mut i: usize = 0;
    while i < entries.len()
        invariant
            i <= entries.len(),
            keys == metadata_keys((Metadata { entries: *entries })@),
            forall|k: int| 0 <= k < i ==> keys[k] != key@,
        decreases entries.len() - i,
    {
        if entries[i].0 == *key {
            assert(keys[i as int] == key@);
            return true;
        }
        i = i + 1;
    }
    false
}

/// Reads metadata from the members of an object.
pub fn decode_metadata(members: &Vec<Member>) -> (r: Result<Metadata, SchemaError>)
    ensures
        outcome_view(r) == metadata_of_doc(members_value(members@)),
{
    let ghost docs = members_value(members@);
    let mut entries: Vec<(String, String)> = Vec::new();
    let mut i: usize = 0;
    assert(docs.take(0) =~= Seq::empty());
    assert((Metadata { entries })@ =~= Seq::empty());
    while i < members.len()
        invariant
            i <= members.len(),
            docs == members_value(members@),
            metadata_of_doc(docs.take(i as int)) == Ok::<Seq<(Seq<char>, Seq<char>)>, SchemaError>(
                (Metadata { entries })@,
            ),
        decreases members.len() - i,
    {
        let ghost before = (Metadata { entries })@;
        proof {
            assert(docs.take(i + 1).drop_last() =~= docs.take(i as int));
            assert(docs.take(i + 1).last() == members[i as int]@);
        }
        match &members[i].value {
            JsonValue::Text(value) => {
                if has_key(&entries, &members[i].key) {
                    proof {
                        lemma_metadata_error_sticks(docs, i + 1);
                    }
                    return Err(SchemaError::SchemaShape(ShapeFault::BadMetadata));
                }
                entries.push((members[i].key.clone(), value.clone()));
                assert((Metadata { entries })@ =~= before.push((members[i as int].key@, value@)));
            },
            _ => {
                proof {
                    lemma_metadata_error_sticks(docs, i + 1);
                }
                return Err(SchemaError::SchemaShape(ShapeFault::MetadataValueNotAString));
            },
        }
        i = i + 1;
    }
    assert(docs.take(i as int) =~= docs);
    Ok(Metadata { entries })
}

/// Reads a schema from a document.
pub fn decode_schema(v: &JsonValue) -> (r: Result<Schema, SchemaError>)
    ensures
        outcome_view(r) == schema_of_doc(v@),
{
    match v {
        JsonValue::Object(members) => {
            let fields_at = find_member(members, "fields");
            let metadata_at = find_member(members, "metadata");
            match (fields_at, metadata_at) {
                (Some(f), Some(m)) => match &members[f].value {
                    JsonValue::Array(items) => match decode_fields(items) {
                        Err(e) => Err(e),
                        Ok(list) => match &members[m].value {
                            JsonValue::Object(entries) => match decode_metadata(entries) {
                                Err(e) => Err(e),
                                Ok(metadata) => Ok(Schema { fields: Fields { list }, metadata }),
                            },
                            _ => Err(SchemaError::SchemaShape(ShapeFault::BadMetadata)),
                        },
                    },
                    _ => Err(SchemaError::SchemaShape(ShapeFault::FieldsNotAList)),
                },
                _ => Err(SchemaError::SchemaShape(ShapeFault::MissingKey)),
            }
        },
        _ => Err(SchemaError::SchemaShape(ShapeFault::NotAnObject)),
    }
}

} // verus!
