//! Equality of types, fields and schemas: two values are equal when they
//! have the same parts, at any depth.

use vstd::prelude::*;
use vstd::std_specs::cmp::PartialEqSpecImpl;
use crate::model::{field_value, fields_value, DataType, Field, Fields, Metadata, Schema};

verus! {

/// Whether two types are the same, at any depth.
pub fn same_type(a: &DataType, b: &DataType) -> (r: bool)
    ensures
        r == (a@ == b@),
    decreases a,
{
    match (a, b) {
        (DataType::Null, DataType::Null) => true,
        (DataType::Boolean, DataType::Boolean) => true,
        (DataType::Int64, DataType::Int64) => true,
        (DataType::Float64, DataType::Float64) => true,
        (DataType::Utf8, DataType::Utf8) => true,
        (DataType::List(x), DataType::List(y)) => same_type(x, y),
        (DataType::Struct(x), DataType::Struct(y)) => same_fields(x, y),
        _ => false,
    }
}

/// Whether two fields have the same name, type and nullability.
pub fn same_field(a: &Field, b: &Field) -> (r: bool)
    ensures
        r == (a@ == b@),
    decreases a,
{
    a.name == b.name && a.nullable == b.nullable && same_type(&a.data_type, &b.data_type)
}

/// Whether two field lists hold the same fields in the same order.
pub fn same_fields(a: &Vec<Field>, b: &Vec<Field>) -> (r: bool)
    ensures
        r == (fields_value(a@) == fields_value(b@)),
    decreases a,
{
    if a.len() != b.len() {
        assert(fields_value(a@).len() != fields_value(b@).len());
        return false;
    }
    let mut i: usize = 0;
    while i < a.len()
        invariant
            i <= a.len(),
            a.len() == b.len(),
            forall|k: int| 0 <= k < i ==> field_value(a[k]) == field_value(b[k]),
        decreases a.len() - i,
    {
        if !same_field(&a[i], &b[i]) {
            assert(fields_value(a@)[i as int] != fields_value(b@)[i as int]);
            return false;
        }
        i = i + 1;
    }
    assert(fields_value(a@) =~= fields_value(b@));
    true
}

/// Whether two metadata lists hold the same entries in the same order.
pub fn same_metadata(a: &Metadata, b: &Metadata) -> (r: bool)
    ensures
        r == (a@ == b@),
{
    if a.entries.len() != b.entries.len() {
        assert(a@.len() != b@.len());
        return false;
    }
    let mut i: usize = 0;
    while i < a.entries.len()
        invariant
            i <= a.entries.len(),
            a.entries.len() == b.entries.len(),
            forall|k: int| 0 <= k < i ==> a@[k] == b@[k],
        decreases a.entries.len() - i,
    {
        if !(a.entries[i].0 == b.entries[i].0 && a.entries[i].1 == b.entries[i].1) {
            assert(a@[i as int] != b@[i as int]);
            return false;
        }
        i = i + 1;
    }
    assert(a@ =~= b@);
    true
}

impl PartialEqSpecImpl for DataType {
    open spec fn obeys_eq_spec() -> bool {
        true
    }

    open spec fn eq_spec(&self, other: &DataType) -> bool {
        self@ == other@
    }
}

impl PartialEq for DataType {
    fn eq(&self, other: &DataType) -> (r: bool) {
        same_type(self, other)
    }
}

impl Eq for DataType {

}

impl PartialEqSpecImpl for Field {
    open spec fn obeys_eq_spec() -> bool {
        true
    }

    open spec fn eq_spec(&self, other: &Field) -> bool {
        self@ == other@
    }
}

impl PartialEq for Field {
    fn eq(&self, other: &Field) -> (r: bool) {
        same_field(self, other)
    }
}

impl Eq for Field {

}

impl PartialEqSpecImpl for Fields {
    open spec fn obeys_eq_spec() -> bool {
        true
    }

    open spec fn eq_spec(&self, other: &Fields) -> bool {
        self@ == other@
    }
}

impl PartialEq for Fields {
    fn eq(&self, other: &Fields) -> (r: bool) {
        same_fields(&self.list, &other.list)
    }
}

impl Eq for Fields {

}

impl PartialEqSpecImpl for Metadata {
    open spec fn obeys_eq_spec() -> bool {
        true
    }

    open spec fn eq_spec(&self, other: &Metadata) -> bool {
        self@ == other@
    }
}

impl PartialEq for Metadata {
    fn eq(&self, other: &Metadata) -> (r: bool) {
        same_metadata(self, other)
    }
}

impl Eq for Metadata {

}

impl PartialEqSpecImpl for Schema {
    open spec fn obeys_eq_spec() -> bool {
        true
    }

    open spec fn eq_spec(&self, other: &Schema) -> bool {
        self@ == other@
    }
}

impl PartialEq for Schema {
    fn eq(&self, other: &Schema) -> (r: bool) {
        same_fields(&self.fields.list, &other.fields.list) && same_metadata(
            &self.metadata,
            &other.metadata,
        )
    }
}

impl Eq for Schema {

}

} // verus!
