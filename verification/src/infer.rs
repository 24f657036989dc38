//! Inference of a schema from sample JSON objects.
//!
//! Scalar kinds are ordered `Null < Boolean < Int64 < Float64 < Utf8`, and
//! two scalars widen to the larger of the two, so `Utf8` takes in
//! everything. An integer that does not fit 64 signed bits counts as
//! `Float64`. A struct wins over every other type and a list over every
//! scalar: what was seen as an object stays a struct, whatever else was
//! seen under the same key. Two structs widen field by field, two lists
//! by their element types. A key that one object holds twice counts as
//! seen twice. No samples give a schema without fields.

use vstd::prelude::*;
use crate::error::{outcome_view, SchemaError};
use crate::infer_laws::lemma_inferred_names_differ;
use crate::json::{items_value, members_value, JsonSpec, JsonValue, Member, MemberSpec};
use crate::merge::absent_from;
use crate::model::{
    field_named, field_names, fields_value, find_field, has_field, outcome_fields, position_of,
    DataType, Field, FieldSpec, Fields, Metadata, Schema, SchemaSpec, TypeSpec,
};

verus! {

/// The place of a type in the widening order. Lists and structs stand
/// above the scalars.
pub open spec fn rank(t: TypeSpec) -> int {
    match t {
        TypeSpec::Null => 0,
        TypeSpec::Boolean => 1,
        TypeSpec::Int64 => 2,
        TypeSpec::Float64 => 3,
        TypeSpec::Utf8 => 4,
        TypeSpec::List(_) => 5,
        TypeSpec::Struct(_) => 6,
    }
}

/// The narrowest type that takes in both `a` and `b`.
pub open spec fn widen(a: TypeSpec, b: TypeSpec) -> TypeSpec
    decreases a, 0nat,
{
    match (a, b) {
        (TypeSpec::Struct(x), TypeSpec::Struct(y)) => TypeSpec::Struct(join_fields(x, y)),
        (TypeSpec::List(x), TypeSpec::List(y)) => TypeSpec::List(Box::new(widen(*x, *y))),
        _ => if rank(a) >= rank(b) {
            a
        } else {
            b
        },
    }
}

/// A field of one list joined with what another list holds under its
/// name. A field that the other list lacks becomes nullable, unless the
/// other list is empty.
pub open spec fn join_one(f: FieldSpec, other: Seq<FieldSpec>) -> FieldSpec
    decreases f, 0nat,
{
    match field_named(other, f.name) {
        Some(g) => FieldSpec {
            name: f.name,
            data_type: widen(f.data_type, g.data_type),
            nullable: f.nullable || g.nullable,
        },
        None => FieldSpec {
            name: f.name,
            data_type: f.data_type,
            nullable: f.nullable || other.len() > 0,
        },
    }
}

/// The fields of `a`, each joined with `b`.
pub open spec fn join_left(a: Seq<FieldSpec>, b: Seq<FieldSpec>) -> Seq<FieldSpec>
    decreases a, 0nat,
{
    Seq::new(
        a.len(),
        |i: int|
            if 0 <= i < a.len() {
                join_one(a[i], b)
            } else {
                arbitrary()
            },
    )
}

/// A field that only the later list has: nullable, unless the earlier
/// list is empty.
pub open spec fn late(f: FieldSpec, earlier: Seq<FieldSpec>) -> FieldSpec {
    FieldSpec { name: f.name, data_type: f.data_type, nullable: f.nullable || earlier.len() > 0 }
}

/// The fields of `b` whose names `a` lacks.
pub open spec fn join_right(a: Seq<FieldSpec>, b: Seq<FieldSpec>) -> Seq<FieldSpec> {
    let extra = b.filter(absent_from(a));
    Seq::new(extra.len(), |i: int| late(extra[i], a))
}

/// The fields seen in either of two field lists: those of `a` in their
/// order, then those that only `b` has, in its order. A name that both
/// have gets the widened type and is nullable if it is in either.
pub open spec fn join_fields(a: Seq<FieldSpec>, b: Seq<FieldSpec>) -> Seq<FieldSpec>
    decreases a, 1nat,
{
    join_left(a, b) + join_right(a, b)
}

/// The type of a single scalar value; `Null` for arrays and objects.
pub open spec fn scalar_type(v: JsonSpec) -> TypeSpec {
    match v {
        JsonSpec::Bool(_) => TypeSpec::Boolean,
        JsonSpec::PosInt(n) => if n <= i64::MAX as u64 {
            TypeSpec::Int64
        } else {
            TypeSpec::Float64
        },
        JsonSpec::NegInt(_) => TypeSpec::Int64,
        JsonSpec::Float(_) => TypeSpec::Float64,
        JsonSpec::Text(_) => TypeSpec::Utf8,
        _ => TypeSpec::Null,
    }
}

/// The type of a single value.
pub open spec fn type_of(v: JsonSpec) -> TypeSpec
    decreases v,
{
    match v {
        JsonSpec::Array(items) => TypeSpec::List(Box::new(element_type(items))),
        JsonSpec::Object(members) => TypeSpec::Struct(object_fields(members)),
        _ => scalar_type(v),
    }
}

/// The widened type of the elements of an array; `Null` if it is empty.
pub open spec fn element_type(items: Seq<JsonSpec>) -> TypeSpec
    decreases items,
{
    if items.len() == 0 {
        TypeSpec::Null
    } else {
        widen(element_type(items.drop_last()), type_of(items.last()))
    }
}

/// The field list after one more member was seen: a new key adds a
/// field, a key seen before widens its field.
pub open spec fn observe(acc: Seq<FieldSpec>, m: MemberSpec) -> Seq<FieldSpec>
    decreases m,
{
    match position_of(acc, m.key) {
        Some(i) => acc.update(
            i,
            FieldSpec {
                name: m.key,
                data_type: widen(acc[i].data_type, type_of(m.value)),
                nullable: acc[i].nullable || m.value is Null,
            },
        ),
        None => acc.push(
            FieldSpec { name: m.key, data_type: type_of(m.value), nullable: m.value is Null },
        ),
    }
}

/// The fields of a single object, in the order of its keys.
pub open spec fn object_fields(members: Seq<MemberSpec>) -> Seq<FieldSpec>
    decreases members,
{
    if members.len() == 0 {
        Seq::empty()
    } else {
        observe(object_fields(members.drop_last()), members.last())
    }
}

/// The fields of a sequence of samples: the join, sample after sample,
/// of the fields of each. The first sample that is no object decides the
/// error.
pub open spec fn sample_fields(samples: Seq<JsonSpec>) -> Result<Seq<FieldSpec>, SchemaError>
    decreases samples.len(),
{
    if samples.len() == 0 {
        Ok(Seq::empty())
    } else {
        match sample_fields(samples.drop_last()) {
            Err(e) => Err(e),
            Ok(fields) => match samples.last() {
                JsonSpec::Object(members) => Ok(join_fields(fields, object_fields(members))),
                _ => Err(SchemaError::NotAnObject),
            },
        }
    }
}

/// The schema of a sequence of samples: their fields, without metadata.
pub open spec fn inferred(samples: Seq<JsonSpec>) -> Result<SchemaSpec, SchemaError> {
    match sample_fields(samples) {
        Ok(fields) => Ok(SchemaSpec { fields, metadata: Seq::empty() }),
        Err(e) => Err(e),
    }
}

/// An error among the first samples is the error of all of them.
proof fn lemma_sample_error_sticks(samples: Seq<JsonSpec>, k: int)
    requires
        0 <= k <= samples.len(),
        sample_fields(samples.take(k)) is Err,
    ensures
        sample_fields(samples) == sample_fields(samples.take(k)),
    decreases samples.len(),
{
    if k == samples.len() {
        assert(samples.take(k) =~= samples);
    } else {
        assert(samples.drop_last().take(k) =~= samples.take(k));
        lemma_sample_error_sticks(samples.drop_last(), k);
    }
}

/// The place of a type in the widening order.
fn rank_of(t: &DataType) -> (r: u8)
    ensures
        r == rank(t@),
{
    match t {
        DataType::Null => 0,
        DataType::Boolean => 1,
        DataType::Int64 => 2,
        DataType::Float64 => 3,
        DataType::Utf8 => 4,
        DataType::List(_) => 5,
        DataType::Struct(_) => 6,
    }
}

/// The narrowest type that takes in both `a` and `b`.
pub fn widen_types(a: &DataType, b: &DataType) -> (r: DataType)
    ensures
        r@ == widen(a@, b@),
    decreases a, 0nat,
{
    match (a, b) {
        (DataType::Struct(x), DataType::Struct(y)) => DataType::Struct(join(x, y)),
        (DataType::List(x), DataType::List(y)) => DataType::List(Box::new(widen_types(x, y))),
        _ => if rank_of(a) >= rank_of(b) {
            a.duplicate()
        } else {
            b.duplicate()
        },
    }
}

/// Joins two field lists: the fields of `a`, each widened by what `b`
/// holds under its name, then the fields that only `b` has.
pub fn join(a: &Vec<Field>, b: &Vec<Field>) -> (r: Vec<Field>)
    ensures
        fields_value(r@) == join_fields(fields_value(a@), fields_value(b@)),
    decreases a, 1nat,
{
    let ghost left = fields_value(a@);
    let ghost right = fields_value(b@);
    let mut out: Vec<Field> = Vec::new();
    let mut i: usize = 0;
    while i < a.len()
        invariant
            i <= a.len(),
            out.len() == i,
            left == fields_value(a@),
            right == fields_value(b@),
            forall|k: int| 0 <= k < i ==> (#[trigger] out[k])@ == join_one(left[k], right),
        decreases a.len() - i,
    {
        let f = &a[i];
        let joined = match find_field(b, &f.name) {
            Some(j) => Field {
                name: f.name.clone(),
                data_type: widen_types(&f.data_type, &b[j].data_type),
                nullable: f.nullable || b[j].nullable,
            },
            None => Field {
                name: f.name.clone(),
                data_type: f.data_type.duplicate(),
                nullable: f.nullable || b.len() > 0,
            },
        };
        out.push(joined);
        i = i + 1;
    }
    let ghost keep = absent_from(left);
    let mut j: usize = 0;
    proof {
        reveal(Seq::filter);
        assert(right.take(0).filter(keep) =~= Seq::empty());
    }
    while j < b.len()
        invariant
            j <= b.len(),
            left == fields_value(a@),
            right == fields_value(b@),
            keep == absent_from(left),
            out.len() == a.len() + right.take(j as int).filter(keep).len(),
            forall|k: int| 0 <= k < a.len() ==> (#[trigger] out[k])@ == join_one(left[k], right),
            forall|k: int|
                0 <= k < right.take(j as int).filter(keep).len() ==> (#[trigger] out[a.len()
                    + k])@ == late(right.take(j as int).filter(keep)[k], left),
        decreases b.len() - j,
    {
        let g = &b[j];
        proof {
            let seen = right.take(j as int);
            assert(right.take(j + 1) =~= seen.push(g@));
            seen.lemma_filter_push(g@, keep);
        }
        if !has_field(a, &g.name) {
            out.push(
                Field {
                    name: g.name.clone(),
                    data_type: g.data_type.duplicate(),
                    nullable: g.nullable || a.len() > 0,
                },
            );
        }
        j = j + 1;
    }
    proof {
        assert(right.take(j as int) =~= right);
        let picked = right.filter(keep);
        let all = join_left(left, right) + join_right(left, right);
        assert(all.len() == out.len());
        assert forall|k: int| 0 <= k < out.len() implies fields_value(out@)[k] == all[k] by {
            if k < a.len() {
                assert(out[k]@ == join_one(left[k], right));
            } else {
                let m = k - a.len();
                assert(out[a.len() + m]@ == late(picked[m], left));
            }
        }
        assert(fields_value(out@) =~= all);
    }
    out
}

/// The type of a single value.
pub fn infer_type(v: &JsonValue) -> (r: DataType)
    ensures
        r@ == type_of(v@),
    decreases v,
{
    match v {
        JsonValue::Null => DataType::Null,
        JsonValue::Bool(_) => DataType::Boolean,
        JsonValue::PosInt(n) => if *n <= 0x7fff_ffff_ffff_ffff {
            DataType::Int64
        } else {
            DataType::Float64
        },
        JsonValue::NegInt(_) => DataType::Int64,
        JsonValue::Float(_) => DataType::Float64,
        JsonValue::Text(_) => DataType::Utf8,
        JsonValue::Array(items) => DataType::List(Box::new(infer_element_type(items))),
        JsonValue::Object(members) => DataType::Struct(infer_object_fields(members)),
    }
}

/// The widened type of the elements of an array.
pub fn infer_element_type(items: &Vec<JsonValue>) -> (r: DataType)
    ensures
        r@ == element_type(items_value(items@)),
    decreases items,
{
    let ghost docs = items_value(items@);
    let mut acc = DataType::Null;
    let mut i: usize = 0;
    while i < items.len()
        invariant
            i <= items.len(),
            docs == items_value(items@),
            acc@ == element_type(docs.take(i as int)),
        decreases items.len() - i,
    {
        proof {
            assert(docs.take(i + 1).drop_last() =~= docs.take(i as int));
            assert(docs.take(i + 1).last() == items[i as int]@);
        }
        let t = infer_type(&items[i]);
        acc = widen_types(&acc, &t);
        i = i + 1;
    }
    assert(docs.take(i as int) =~= docs);
    acc
}

/// Takes one more member into a field list.
pub fn observe_member(acc: &mut Vec<Field>, m: &Member)
    ensures
        fields_value(final(acc)@) == observe(fields_value(old(acc)@), m@),
    decreases m,
{
    let ghost before = fields_value(acc@);
    let t = infer_type(&m.value);
    let is_null = match &m.value {
        JsonValue::Null => true,
        _ => false,
    };
    match find_field(acc, &m.key) {
        Some(i) => {
            let seen = Field {
                name: m.key.clone(),
                data_type: widen_types(&acc[i].data_type, &t),
                nullable: acc[i].nullable || is_null,
            };
            acc.set(i, seen);
            assert(fields_value(acc@) =~= before.update(i as int, seen@));
        },
        None => {
            let fresh = Field { name: m.key.clone(), data_type: t, nullable: is_null };
            acc.push(fresh);
            assert(fields_value(acc@) =~= before.push(fresh@));
        },
    }
}

/// The fields of a single object, in the order of its keys.
pub fn infer_object_fields(members: &Vec<Member>) -> (r: Vec<Field>)
    ensures
        fields_value(r@) == object_fields(members_value(members@)),
    decreases members,
{
    let ghost docs = members_value(members@);
    let mut acc: Vec<Field> = Vec::new();
    let mut i: usize = 0;
    assert(fields_value(acc@) =~= Seq::empty());
    while i < members.len()
        invariant
            i <= members.len(),
            docs == members_value(members@),
            fields_value(acc@) == object_fields(docs.take(i as int)),
        decreases members.len() - i,
    {
        proof {
            assert(docs.take(i + 1).drop_last() =~= docs.take(i as int));
            assert(docs.take(i + 1).last() == members[i as int]@);
        }
        observe_member(&mut acc, &members[i]);
        i = i + 1;
    }
    assert(docs.take(i as int) =~= docs);
    acc
}

/// The fields of a sequence of samples.
pub fn infer_sample_fields(samples: &Vec<JsonValue>) -> (r: Result<Vec<Field>, SchemaError>)
    ensures
        outcome_fields(r) == sample_fields(items_value(samples@)),
{
    let ghost docs = items_value(samples@);
    let mut acc: Vec<Field> = Vec::new();
    let mut i: usize = 0;
    assert(fields_value(acc@) =~= Seq::empty());
    assert(docs.take(0) =~= Seq::empty());
    while i < samples.len()
        invariant
            i <= samples.len(),
            docs == items_value(samples@),
            sample_fields(docs.take(i as int)) == Ok::<Seq<FieldSpec>, SchemaError>(
                fields_value(acc@),
            ),
        decreases samples.len() - i,
    {
        proof {
            assert(docs.take(i + 1).drop_last() =~= docs.take(i as int));
            assert(docs.take(i + 1).last() == samples[i as int]@);
        }
        match &samples[i] {
            JsonValue::Object(members) => {
                let fields = infer_object_fields(members);
                acc = join(&acc, &fields);
            },
            _ => {
                proof {
                    lemma_sample_error_sticks(docs, i + 1);
                }
                return Err(SchemaError::NotAnObject);
            },
        }
        i = i + 1;
    }
    assert(docs.take(i as int) =~= docs);
    Ok(acc)
}

/// Infers a schema from samples. Every sample must be a JSON object.
/// Fields come in the order in which their keys were first seen. A field
/// is nullable if a null was seen under its key, or if a sample with
/// other keys lacks it. The schema has no metadata.
pub fn infer_schema(samples: &Vec<JsonValue>) -> (r: Result<Schema, SchemaError>)
    ensures
        outcome_view(r) == inferred(items_value(samples@)),
        r matches Ok(s) ==> field_names(s@.fields).no_duplicates(),
{
    proof {
        lemma_inferred_names_differ(items_value(samples@));
    }
    match infer_sample_fields(samples) {
        Ok(list) => {
            let metadata = Metadata { entries: Vec::new() };
            assert(metadata@ =~= Seq::empty());
            Ok(Schema { fields: Fields { list }, metadata })
        },
        Err(e) => Err(e),
    }
}

} // verus!
