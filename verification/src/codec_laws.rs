//! What holds of the document form: reading the document of a well-formed
//! schema gives the schema back, and whatever is read is well formed.

use vstd::prelude::*;
use crate::codec::{
    field_doc, field_of_doc, fields_doc, fields_of_docs, member_index, member_keys, metadata_doc,
    metadata_of_doc, scalar_of, schema_doc, schema_of_doc, type_doc, type_of_doc,
};
use crate::error::SchemaError;
use crate::json::{JsonSpec, MemberSpec};
use crate::model::{
    field_names, fields_wf, metadata_keys, schema_wf, type_wf, FieldSpec, SchemaSpec, TypeSpec,
};

verus! {

/// The tags and keys of the document form, letter by letter.
proof fn lemma_words()
    ensures
        "Null"@ == seq!['N', 'u', 'l', 'l'],
        "Boolean"@ == seq!['B', 'o', 'o', 'l', 'e', 'a', 'n'],
        "Int64"@ == seq!['I', 'n', 't', '6', '4'],
        "Float64"@ == seq!['F', 'l', 'o', 'a', 't', '6', '4'],
        "Utf8"@ == seq!['U', 't', 'f', '8'],
        "List"@ == seq!['L', 'i', 's', 't'],
        "Struct"@ == seq!['S', 't', 'r', 'u', 'c', 't'],
        "name"@ == seq!['n', 'a', 'm', 'e'],
        "type"@ == seq!['t', 'y', 'p', 'e'],
        "nullable"@ == seq!['n', 'u', 'l', 'l', 'a', 'b', 'l', 'e'],
        "fields"@ == seq!['f', 'i', 'e', 'l', 'd', 's'],
        "metadata"@ == seq!['m', 'e', 't', 'a', 'd', 'a', 't', 'a'],
{
    reveal_strlit("Null");
    reveal_strlit("Boolean");
    reveal_strlit("Int64");
    reveal_strlit("Float64");
    reveal_strlit("Utf8");
    reveal_strlit("List");
    reveal_strlit("Struct");
    reveal_strlit("name");
    reveal_strlit("type");
    reveal_strlit("nullable");
    reveal_strlit("fields");
    reveal_strlit("metadata");
    assert("Null"@ =~= seq!['N', 'u', 'l', 'l']);
    assert("Boolean"@ =~= seq!['B', 'o', 'o', 'l', 'e', 'a', 'n']);
    assert("Int64"@ =~= seq!['I', 'n', 't', '6', '4']);
    assert("Float64"@ =~= seq!['F', 'l', 'o', 'a', 't', '6', '4']);
    assert("Utf8"@ =~= seq!['U', 't', 'f', '8']);
    assert("List"@ =~= seq!['L', 'i', 's', 't']);
    assert("Struct"@ =~= seq!['S', 't', 'r', 'u', 'c', 't']);
    assert("name"@ =~= seq!['n', 'a', 'm', 'e']);
    assert("type"@ =~= seq!['t', 'y', 'p', 'e']);
    assert("nullable"@ =~= seq!['n', 'u', 'l', 'l', 'a', 'b', 'l', 'e']);
    assert("fields"@ =~= seq!['f', 'i', 'e', 'l', 'd', 's']);
    assert("metadata"@ =~= seq!['m', 'e', 't', 'a', 'd', 'a', 't', 'a']);
}

/// The tags and keys that are told apart are pairwise different.
proof fn lemma_words_differ()
    ensures
        scalar_of("Null"@) == Some(TypeSpec::Null),
        scalar_of("Boolean"@) == Some(TypeSpec::Boolean),
        scalar_of("Int64"@) == Some(TypeSpec::Int64),
        scalar_of("Float64"@) == Some(TypeSpec::Float64),
        scalar_of("Utf8"@) == Some(TypeSpec::Utf8),
        "List"@ != "Struct"@,
        "name"@ != "type"@,
        "name"@ != "nullable"@,
        "type"@ != "nullable"@,
        "fields"@ != "metadata"@,
{
    lemma_words();
    assert("Null"@[0] == 'N' && "Boolean"@[0] == 'B' && "Int64"@[0] == 'I' && "Float64"@[0] == 'F'
        && "Utf8"@[0] == 'U');
    assert("List"@[0] == 'L' && "Struct"@[0] == 'S');
    assert("name"@[0] == 'n' && "type"@[0] == 't' && "nullable"@.len() == 8 && "name"@.len() == 4
        && "type"@.len() == 4);
    assert("fields"@[0] == 'f' && "metadata"@[0] == 'm');
}

/// In a field document the three members are found where they were put.
proof fn lemma_field_doc_members(f: FieldSpec)
    ensures
        field_doc(f) matches JsonSpec::Object(ms) && member_index(ms, "name"@) == Some(0int)
            && member_index(ms, "type"@) == Some(1int) && member_index(ms, "nullable"@) == Some(
            2int,
        ) && ms[0].value == JsonSpec::Text(f.name) && ms[1].value == type_doc(f.data_type)
            && ms[2].value == JsonSpec::Bool(f.nullable),
{
    lemma_words_differ();
    let ms = field_doc(f)->Object_0;
    let keys = member_keys(ms);
    assert(keys[0] == "name"@ && keys[1] == "type"@ && keys[2] == "nullable"@);
    keys.index_of_first_ensures("name"@);
    keys.index_of_first_ensures("type"@);
    keys.index_of_first_ensures("nullable"@);
}

/// Decoding the document form of a well-formed type gives the type back.
pub proof fn lemma_type_round_trip(t: TypeSpec)
    requires
        type_wf(t),
    ensures
        type_of_doc(type_doc(t)) == Ok::<TypeSpec, SchemaError>(t),
    decreases t,
{
    lemma_words_differ();
    match t {
        TypeSpec::List(inner) => {
            lemma_type_round_trip(*inner);
        },
        TypeSpec::Struct(fields) => {
            lemma_fields_round_trip(fields);
        },
        _ => {},
    }
}

/// Decoding the document form of a field with a name and a well-formed
/// type gives the field back.
pub proof fn lemma_field_round_trip(f: FieldSpec)
    requires
        f.name.len() > 0,
        type_wf(f.data_type),
    ensures
        field_of_doc(field_doc(f)) == Ok::<FieldSpec, SchemaError>(f),
    decreases f,
{
    lemma_field_doc_members(f);
    lemma_type_round_trip(f.data_type);
}

/// Decoding the document forms of a well-formed field list gives the list
/// back.
pub proof fn lemma_fields_round_trip(fs: Seq<FieldSpec>)
    requires
        fields_wf(fs),
    ensures
        fields_of_docs(fields_doc(fs)) == Ok::<Seq<FieldSpec>, SchemaError>(fs),
    decreases fs,
{
    if fs.len() > 0 {
        let front = fs.drop_last();
        assert(forall|i: int| 0 <= i < front.len() ==> front[i] == fs[i]);
        assert forall|a: int, b: int|
            0 <= a < front.len() && 0 <= b < front.len() && a != b implies field_names(front)[a]
            != field_names(front)[b] by {
            assert(field_names(fs)[a] != field_names(fs)[b]);
        }
        assert(fields_wf(front));
        lemma_fields_round_trip(front);
        lemma_field_round_trip(fs.last());
        assert(fields_doc(fs).drop_last() =~= fields_doc(front));
        assert(fields_doc(fs).last() == field_doc(fs.last()));
        if field_names(front).contains(fs.last().name) {
            let k = choose|k: int| 0 <= k < front.len() && field_names(front)[k] == fs.last().name;
            assert(field_names(fs)[k] == field_names(fs)[fs.len() - 1]);
        }
        assert(front.push(fs.last()) =~= fs);
    } else {
        assert(fs =~= Seq::empty());
    }
}

/// Decoding the members that stand for metadata with pairwise different
/// keys gives the metadata back.
pub proof fn lemma_metadata_round_trip(m: Seq<(Seq<char>, Seq<char>)>)
    requires
        metadata_keys(m).no_duplicates(),
    ensures
        metadata_of_doc(metadata_doc(m)) == Ok::<Seq<(Seq<char>, Seq<char>)>, SchemaError>(m),
    decreases m.len(),
{
    if m.len() > 0 {
        let front = m.drop_last();
        assert forall|a: int, b: int|
            0 <= a < front.len() && 0 <= b < front.len() && a != b implies metadata_keys(front)[a]
            != metadata_keys(front)[b] by {
            assert(metadata_keys(m)[a] != metadata_keys(m)[b]);
        }
        lemma_metadata_round_trip(front);
        assert(metadata_doc(m).drop_last() =~= metadata_doc(front));
        if metadata_keys(front).contains(m.last().0) {
            let k = choose|k: int| 0 <= k < front.len() && metadata_keys(front)[k] == m.last().0;
            assert(metadata_keys(m)[k] == metadata_keys(m)[m.len() - 1]);
        }
        assert(front.push(m.last()) =~= m);
    } else {
        assert(m =~= Seq::empty());
    }
}

/// Decoding the document form of a well-formed schema gives the schema
/// back.
pub proof fn lemma_schema_round_trip(s: SchemaSpec)
    requires
        schema_wf(s),
    ensures
        schema_of_doc(schema_doc(s)) == Ok::<SchemaSpec, SchemaError>(s),
{
    lemma_words_differ();
    let ms = schema_doc(s)->Object_0;
    let keys = member_keys(ms);
    assert(keys[0] == "fields"@ && keys[1] == "metadata"@);
    keys.index_of_first_ensures("fields"@);
    keys.index_of_first_ensures("metadata"@);
    lemma_fields_round_trip(s.fields);
    lemma_metadata_round_trip(s.metadata);
}

/// What decodes is well formed.
pub proof fn lemma_decoded_type_wf(v: JsonSpec)
    ensures
        type_of_doc(v) matches Ok(t) ==> type_wf(t),
    decreases v,
{
    match v {
        JsonSpec::Object(ms) => {
            if ms.len() == 1 {
                lemma_decoded_type_wf(ms[0].value);
                match ms[0].value {
                    JsonSpec::Array(items) => {
                        lemma_decoded_fields_wf(items);
                    },
                    _ => {},
                }
            }
        },
        _ => {},
    }
}

/// What decodes is well formed.
pub proof fn lemma_decoded_field_wf(v: JsonSpec)
    ensures
        field_of_doc(v) matches Ok(f) ==> f.name.len() > 0 && type_wf(f.data_type),
    decreases v,
{
    match v {
        JsonSpec::Object(ms) => {
            member_keys(ms).index_of_first_ensures("type"@);
            match member_index(ms, "type"@) {
                Some(t) => {
                    lemma_decoded_type_wf(ms[t].value);
                },
                None => {},
            }
        },
        _ => {},
    }
}

/// What decodes is well formed: no name is empty and no name occurs twice.
pub proof fn lemma_decoded_fields_wf(items: Seq<JsonSpec>)
    ensures
        fields_of_docs(items) matches Ok(fs) ==> fields_wf(fs),
    decreases items,
{
    if items.len() > 0 {
        lemma_decoded_fields_wf(items.drop_last());
        lemma_decoded_field_wf(items.last());
        match fields_of_docs(items) {
            Ok(fs) => {
                let front = fields_of_docs(items.drop_last())->Ok_0;
                let f = field_of_doc(items.last())->Ok_0;
                assert(fs == front.push(f));
                assert forall|a: int, b: int|
                    0 <= a < fs.len() && 0 <= b < fs.len() && a != b implies field_names(fs)[a]
                    != field_names(fs)[b] by {
                    if a < front.len() && b < front.len() {
                        assert(field_names(front)[a] != field_names(front)[b]);
                    } else if a < front.len() {
                        assert(field_names(front)[a] == fs[a].name);
                    } else {
                        assert(field_names(front)[b] == fs[b].name);
                    }
                }
            },
            Err(_) => {},
        }
    }
}

/// What decodes is well formed: no metadata key occurs twice.
pub proof fn lemma_decoded_metadata_wf(ms: Seq<MemberSpec>)
    ensures
        metadata_of_doc(ms) matches Ok(m) ==> metadata_keys(m).no_duplicates(),
    decreases ms.len(),
{
    if ms.len() > 0 {
        lemma_decoded_metadata_wf(ms.drop_last());
        match metadata_of_doc(ms) {
            Ok(m) => {
                let front = metadata_of_doc(ms.drop_last())->Ok_0;
                assert(m.drop_last() =~= front);
                assert forall|a: int, b: int|
                    0 <= a < m.len() && 0 <= b < m.len() && a != b implies metadata_keys(m)[a]
                    != metadata_keys(m)[b] by {
                    if a < front.len() && b < front.len() {
                        assert(metadata_keys(front)[a] != metadata_keys(front)[b]);
                    } else if a < front.len() {
                        assert(metadata_keys(front)[a] == m[a].0);
                    } else {
                        assert(metadata_keys(front)[b] == m[b].0);
                    }
                }
            },
            Err(_) => {},
        }
    }
}

/// A schema that decodes is well formed.
pub proof fn lemma_decoded_schema_wf(v: JsonSpec)
    ensures
        schema_of_doc(v) matches Ok(s) ==> schema_wf(s),
{
    match v {
        JsonSpec::Object(ms) => {
            match (member_index(ms, "fields"@), member_index(ms, "metadata"@)) {
                (Some(f), Some(m)) => {
                    match ms[f].value {
                        JsonSpec::Array(items) => {
                            lemma_decoded_fields_wf(items);
                        },
                        _ => {},
                    }
                    match ms[m].value {
                        JsonSpec::Object(entries) => {
                            lemma_decoded_metadata_wf(entries);
                        },
                        _ => {},
                    }
                },
                _ => {},
            }
        },
        _ => {},
    }
}

} // verus!
