//! The schema model: logical types, fields and schemas, with the
//! mathematical values that contracts speak of.

use vstd::prelude::*;
use crate::error::SchemaError;

verus! {

/// The mathematical value of a logical type.
pub enum TypeSpec {
    Null,
    Boolean,
    Int64,
    Float64,
    Utf8,
    List(Box<TypeSpec>),
    Struct(Seq<FieldSpec>),
}

/// The mathematical value of a field.
pub struct FieldSpec {
    pub name: Seq<char>,
    pub data_type: TypeSpec,
    pub nullable: bool,
}

/// The mathematical value of a schema: its fields in column order and its
/// metadata entries in insertion order.
pub struct SchemaSpec {
    pub fields: Seq<FieldSpec>,
    pub metadata: Seq<(Seq<char>, Seq<char>)>,
}

/// The names of a sequence of fields, in order.
pub open spec fn field_names(fs: Seq<FieldSpec>) -> Seq<Seq<char>> {
    Seq::new(fs.len(), |i: int| fs[i].name)
}

/// The keys of a sequence of metadata entries, in order.
pub open spec fn metadata_keys(m: Seq<(Seq<char>, Seq<char>)>) -> Seq<Seq<char>> {
    Seq::new(m.len(), |i: int| m[i].0)
}

/// The index of the first field called `name`, if there is one.
pub open spec fn position_of(fs: Seq<FieldSpec>, name: Seq<char>) -> Option<int>
    decreases fs.len(),
{
    if fs.len() == 0 {
        None
    } else {
        match position_of(fs.drop_last(), name) {
            Some(i) => Some(i),
            None => if fs.last().name == name {
                Some(fs.len() - 1)
            } else {
                None
            },
        }
    }
}

/// The first field called `name`, if there is one.
pub open spec fn field_named(fs: Seq<FieldSpec>, name: Seq<char>) -> Option<FieldSpec> {
    match position_of(fs, name) {
        Some(i) => Some(fs[i]),
        None => None,
    }
}

/// `position_of` finds the least index that carries the name, and finds
/// one whenever the name occurs.
pub proof fn lemma_position_of(fs: Seq<FieldSpec>, name: Seq<char>)
    ensures
        match position_of(fs, name) {
            Some(i) => 0 <= i < fs.len() && fs[i].name == name && forall|j: int|
                0 <= j < i ==> (#[trigger] fs[j]).name != name,
            None => forall|j: int| 0 <= j < fs.len() ==> (#[trigger] fs[j]).name != name,
        },
        position_of(fs, name) is Some <==> field_names(fs).contains(name),
    decreases fs.len(),
{
    if fs.len() > 0 {
        lemma_position_of(fs.drop_last(), name);
        let front = fs.drop_last();
        assert(forall|j: int| 0 <= j < front.len() ==> front[j] == fs[j]);
        if field_names(fs).contains(name) {
            let k = choose|k: int| 0 <= k < fs.len() && field_names(fs)[k] == name;
            if k < fs.len() - 1 {
                assert(field_names(front)[k] == name);
            }
        }
        if position_of(fs, name) is Some {
            let i = position_of(fs, name).unwrap();
            assert(field_names(fs)[i] == name);
        }
    }
}

/// Where a name is first found depends on the names alone.
pub proof fn lemma_position_by_names(x: Seq<FieldSpec>, y: Seq<FieldSpec>, name: Seq<char>)
    requires
        field_names(x) == field_names(y),
    ensures
        position_of(x, name) == position_of(y, name),
{
    lemma_position_of(x, name);
    lemma_position_of(y, name);
    assert(x.len() == field_names(x).len());
    assert(y.len() == field_names(y).len());
    assert forall|i: int| 0 <= i < x.len() implies (#[trigger] x[i]).name == y[i].name by {
        assert(field_names(x)[i] == field_names(y)[i]);
    }
    match (position_of(x, name), position_of(y, name)) {
        (Some(i), Some(j)) => {
            if i < j {
                assert(y[i].name == x[i].name);
            } else if j < i {
                assert(x[j].name == y[j].name);
            }
        },
        (Some(i), None) => {
            assert(y[i].name == x[i].name);
        },
        (None, Some(j)) => {
            assert(x[j].name == y[j].name);
        },
        (None, None) => {},
    }
}

/// A type is well formed when every field list inside it is.
pub open spec fn type_wf(t: TypeSpec) -> bool
    decreases t,
{
    match t {
        TypeSpec::List(inner) => type_wf(*inner),
        TypeSpec::Struct(fields) => fields_wf(fields),
        _ => true,
    }
}

/// A field list is well formed when no name is empty, no two fields share
/// a name, and every field's type is well formed.
pub open spec fn fields_wf(fs: Seq<FieldSpec>) -> bool
    decreases fs,
{
    &&& field_names(fs).no_duplicates()
    &&& forall|i: int| 0 <= i < fs.len() ==> (#[trigger] fs[i]).name.len() > 0
    &&& forall|i: int| 0 <= i < fs.len() ==> type_wf((#[trigger] fs[i]).data_type)
}

/// A schema is well formed when its field list is and no metadata key
/// occurs twice.
pub open spec fn schema_wf(s: SchemaSpec) -> bool {
    &&& fields_wf(s.fields)
    &&& metadata_keys(s.metadata).no_duplicates()
}

/// The kind of values that a column holds.
#[derive(Debug)]
pub enum DataType {
    Null,
    Boolean,
    Int64,
    Float64,
    Utf8,
    List(Box<DataType>),
    Struct(Vec<Field>),
}

/// A named column: its name, its logical type and whether it admits nulls.
#[derive(Debug)]
pub struct Field {
    pub name: String,
    pub data_type: DataType,
    pub nullable: bool,
}

/// The value of a logical type.
pub open spec fn type_value(t: DataType) -> TypeSpec
    decreases t,
{
    match t {
        DataType::Null => TypeSpec::Null,
        DataType::Boolean => TypeSpec::Boolean,
        DataType::Int64 => TypeSpec::Int64,
        DataType::Float64 => TypeSpec::Float64,
        DataType::Utf8 => TypeSpec::Utf8,
        DataType::List(inner) => TypeSpec::List(Box::new(type_value(*inner))),
        DataType::Struct(fields) => TypeSpec::Struct(fields_value(fields@)),
    }
}

/// The value of a field.
pub open spec fn field_value(f: Field) -> FieldSpec
    decreases f,
{
    FieldSpec { name: f.name@, data_type: type_value(f.data_type), nullable: f.nullable }
}

/// The values of a sequence of fields, in order.
pub open spec fn fields_value(s: Seq<Field>) -> Seq<FieldSpec>
    decreases s,
{
    Seq::new(
        s.len(),
        |i: int|
            if 0 <= i < s.len() {
                field_value(s[i])
            } else {
                arbitrary()
            },
    )
}

/// An ordered list of fields.
#[derive(Debug)]
pub struct Fields {
    pub list: Vec<Field>,
}

/// String-keyed annotations of a schema, in insertion order.
#[derive(Debug)]
pub struct Metadata {
    pub entries: Vec<(String, String)>,
}

/// An ordered list of fields with metadata.
#[derive(Debug)]
pub struct Schema {
    pub fields: Fields,
    pub metadata: Metadata,
}

impl View for Fields {
    type V = Seq<FieldSpec>;

    open spec fn view(&self) -> Seq<FieldSpec> {
        fields_value(self.list@)
    }
}

impl View for Metadata {
    type V = Seq<(Seq<char>, Seq<char>)>;

    open spec fn view(&self) -> Seq<(Seq<char>, Seq<char>)> {
        Seq::new(self.entries@.len(), |i: int| (self.entries@[i].0@, self.entries@[i].1@))
    }
}

impl View for Schema {
    type V = SchemaSpec;

    open spec fn view(&self) -> SchemaSpec {
        SchemaSpec { fields: self.fields@, metadata: self.metadata@ }
    }
}

impl View for DataType {
    type V = TypeSpec;

    open spec fn view(&self) -> TypeSpec {
        type_value(*self)
    }
}

impl View for Field {
    type V = FieldSpec;

    open spec fn view(&self) -> FieldSpec {
        field_value(*self)
    }
}

impl DataType {
    /// A deep copy of this type.
    pub fn duplicate(&self) -> (r: DataType)
        ensures
            r@ == self@,
        decreases self,
    {
        match self {
            DataType::Null => DataType::Null,
            DataType::Boolean => DataType::Boolean,
            DataType::Int64 => DataType::Int64,
            DataType::Float64 => DataType::Float64,
            DataType::Utf8 => DataType::Utf8,
            DataType::List(inner) => DataType::List(Box::new(inner.duplicate())),
            DataType::Struct(fields) => DataType::Struct(duplicate_fields(fields)),
        }
    }
}

impl Field {
    /// A deep copy of this field.
    pub fn duplicate(&self) -> (r: Field)
        ensures
            r@ == self@,
        decreases self,
    {
        Field {
            name: self.name.clone(),
            data_type: self.data_type.duplicate(),
            nullable: self.nullable,
        }
    }
}

/// A deep copy of a list of fields.
pub fn duplicate_fields(fields: &Vec<Field>) -> (r: Vec<Field>)
    ensures
        fields_value(r@) == fields_value(fields@),
    decreases fields,
{
    let mut out: Vec<Field> = Vec::new();
    let mut i: usize = 0;
    while i < fields.len()
        invariant
            i <= fields.len(),
            out.len() == i,
            forall|k: int| 0 <= k < i ==> field_value(#[trigger] out[k]) == field_value(fields[k]),
        decreases fields.len() - i,
    {
        let f = fields[i].duplicate();
        out.push(f);
        i = i + 1;
    }
    assert(fields_value(out@) =~= fields_value(fields@));
    out
}

/// Whether some field of `fields` is called `name`.
pub fn has_field(fields: &Vec<Field>, name: &String) -> (r: bool)
    ensures
        r == field_names(fields_value(fields@)).contains(name@),
{
    let mut i: usize = 0;
    while i < fields.len()
        invariant
            i <= fields.len(),
            forall|k: int| 0 <= k < i ==> fields[k].name@ != name@,
        decreases fields.len() - i,
    {
        if fields[i].name == *name {
            assert(field_names(fields_value(fields@))[i as int] == name@);
            return true;
        }
        i = i + 1;
    }
    false
}

/// An index as a mathematical integer.
pub open spec fn index_value(i: Option<usize>) -> Option<int> {
    match i {
        Some(i) => Some(i as int),
        None => None,
    }
}

/// Finds the first field called `name`.
pub fn find_field(fields: &Vec<Field>, name: &String) -> (r: Option<usize>)
    ensures
        index_value(r) == position_of(fields_value(fields@), name@),
        r matches Some(i) ==> i < fields.len(),
{
    let mut i: usize = 0;
    while i < fields.len()
        invariant
            i <= fields.len(),
            forall|k: int| 0 <= k < i ==> fields[k].name@ != name@,
        decreases fields.len() - i,
    {
        if fields[i].name == *name {
            proof {
                lemma_position_of(fields_value(fields@), name@);
                assert(fields_value(fields@)[i as int].name == name@);
            }
            return Some(i);
        }
        i = i + 1;
    }
    proof {
        lemma_position_of(fields_value(fields@), name@);
    }
    None
}

/// An outcome with its fields taken by their values.
pub open spec fn outcome_fields(r: Result<Vec<Field>, SchemaError>) -> Result<
    Seq<FieldSpec>,
    SchemaError,
> {
    match r {
        Ok(fields) => Ok(fields_value(fields@)),
        Err(e) => Err(e),
    }
}

/// The value of an optional string.
pub open spec fn text_value(r: Option<&String>) -> Option<Seq<char>> {
    match r {
        Some(s) => Some(s@),
        None => None,
    }
}

/// The value that a metadata list holds under a key: that of the first
/// entry with the key.
pub open spec fn metadata_value(m: Seq<(Seq<char>, Seq<char>)>, key: Seq<char>) -> Option<
    Seq<char>,
> {
    match metadata_keys(m).index_of_first(key) {
        Some(i) => Some(m[i].1),
        None => None,
    }
}

/// The metadata after `key` was set to `value`: the entry with the key is
/// replaced where there is one, and a new entry is added at the end
/// where there is none.
pub open spec fn metadata_with(
    m: Seq<(Seq<char>, Seq<char>)>,
    key: Seq<char>,
    value: Seq<char>,
) -> Seq<(Seq<char>, Seq<char>)> {
    match metadata_keys(m).index_of_first(key) {
        Some(i) => m.update(i, (key, value)),
        None => m.push((key, value)),
    }
}

/// Setting a key puts the value under it and keeps the keys pairwise
/// different.
pub proof fn lemma_metadata_with(m: Seq<(Seq<char>, Seq<char>)>, key: Seq<char>, value: Seq<char>)
    ensures
        metadata_value(metadata_with(m, key, value), key) == Some(value),
        metadata_keys(m).no_duplicates() ==> metadata_keys(
            metadata_with(m, key, value),
        ).no_duplicates(),
{
    let keys = metadata_keys(m);
    let next = metadata_with(m, key, value);
    let next_keys = metadata_keys(next);
    keys.index_of_first_ensures(key);
    next_keys.index_of_first_ensures(key);
    match keys.index_of_first(key) {
        Some(i) => {
            assert(next_keys =~= keys);
        },
        None => {
            assert(next_keys =~= keys.push(key));
            assert(next_keys[m.len() as int] == key);
            assert forall|j: int| 0 <= j < m.len() implies next_keys[j] != key by {
                assert(keys[j] == next_keys[j]);
                assert(keys.contains(keys[j]));
            }
        },
    }
}

impl Field {
    /// A field with the given name, type and nullability.
    pub fn new(name: &str, data_type: DataType, nullable: bool) -> (r: Field)
        ensures
            r@ == (FieldSpec { name: name@, data_type: data_type@, nullable }),
    {
        Field { name: name.to_owned(), data_type, nullable }
    }

    /// The field's name.
    pub fn name(&self) -> (r: &String)
        ensures
            r@ == self@.name,
    {
        &self.name
    }

    /// The field's type.
    pub fn data_type(&self) -> (r: &DataType)
        ensures
            r@ == self@.data_type,
    {
        &self.data_type
    }

    /// Whether the field admits nulls.
    pub fn is_nullable(&self) -> (r: bool)
        ensures
            r == self@.nullable,
    {
        self.nullable
    }
}

impl Fields {
    /// The number of fields.
    pub fn len(&self) -> (r: usize)
        ensures
            r == self@.len(),
    {
        self.list.len()
    }

    /// A deep copy of this list.
    pub fn duplicate(&self) -> (r: Fields)
        ensures
            r@ == self@,
    {
        Fields { list: duplicate_fields(&self.list) }
    }
}

impl Metadata {
    /// Metadata without entries.
    pub fn new() -> (r: Metadata)
        ensures
            r@ == Seq::<(Seq<char>, Seq<char>)>::empty(),
    {
        let r = Metadata { entries: Vec::new() };
        assert(r@ =~= Seq::empty());
        r
    }

    /// The number of entries.
    pub fn len(&self) -> (r: usize)
        ensures
            r == self@.len(),
    {
        self.entries.len()
    }

    /// The index of the first entry with the given key.
    fn find(&self, key: &String) -> (r: Option<usize>)
        ensures
            index_value(r) == metadata_keys(self@).index_of_first(key@),
            r matches Some(i) ==> i < self.entries.len(),
    {
        let ghost keys = metadata_keys(self@);
        let mut i: usize = 0;
        while i < self.entries.len()
            invariant
                i <= self.entries.len(),
                keys == metadata_keys(self@),
                forall|k: int| 0 <= k < i ==> keys[k] != key@,
            decreases self.entries.len() - i,
        {
            if self.entries[i].0 == *key {
                proof {
                    assert(keys[i as int] == key@);
                    keys.index_of_first_ensures(key@);
                }
                return Some(i);
            }
            i = i + 1;
        }
        proof {
            assert(!keys.contains(key@));
            keys.index_of_first_ensures(key@);
        }
        None
    }

    /// The value under a key, if the key is there.
    pub fn get(&self, key: &str) -> (r: Option<&String>)
        ensures
            text_value(r) == metadata_value(self@, key@),
    {
        let wanted = key.to_owned();
        match self.find(&wanted) {
            Some(i) => Some(&self.entries[i].1),
            None => None,
        }
    }

    /// Sets the value under a key.
    pub fn insert(&mut self, key: String, value: String)
        ensures
            final(self)@ == metadata_with(old(self)@, key@, value@),
            metadata_value(final(self)@, key@) == Some(value@),
            metadata_keys(old(self)@).no_duplicates() ==> metadata_keys(
                final(self)@,
            ).no_duplicates(),
    {
        let ghost before = self@;
        proof {
            lemma_metadata_with(before, key@, value@);
        }
        match self.find(&key) {
            Some(i) => {
                self.entries.set(i, (key, value));
                assert(self@ =~= before.update(i as int, (key@, value@)));
            },
            None => {
                self.entries.push((key, value));
                assert(self@ =~= before.push((key@, value@)));
            },
        }
    }

    /// A deep copy of this metadata.
    pub fn duplicate(&self) -> (r: Metadata)
        ensures
            r@ == self@,
    {
        let mut entries: Vec<(String, String)> = Vec::new();
        let mut i: usize = 0;
        while i < self.entries.len()
            invariant
                i <= self.entries.len(),
                entries.len() == i,
                forall|k: int|
                    0 <= k < i ==> (#[trigger] entries[k]).0@ == self.entries[k].0@ && entries[k].1@
                        == self.entries[k].1@,
            decreases self.entries.len() - i,
        {
            entries.push((self.entries[i].0.clone(), self.entries[i].1.clone()));
            i = i + 1;
        }
        let r = Metadata { entries };
        assert(r@ =~= self@);
        r
    }
}

impl Schema {
    /// A schema of the given fields, without metadata.
    pub fn new(fields: Vec<Field>) -> (r: Schema)
        ensures
            r@ == (SchemaSpec { fields: fields_value(fields@), metadata: Seq::empty() }),
            fields_wf(fields_value(fields@)) ==> schema_wf(r@),
    {
        Schema { fields: Fields { list: fields }, metadata: Metadata::new() }
    }

    /// A schema of the given fields and metadata.
    pub fn new_with_metadata(fields: Fields, metadata: Metadata) -> (r: Schema)
        ensures
            r@ == (SchemaSpec { fields: fields@, metadata: metadata@ }),
            fields_wf(fields@) && metadata_keys(metadata@).no_duplicates() ==> schema_wf(r@),
    {
        Schema { fields, metadata }
    }

    /// The fields, in column order.
    pub fn fields(&self) -> (r: &Fields)
        ensures
            r@ == self@.fields,
    {
        &self.fields
    }

    /// The metadata.
    pub fn metadata(&self) -> (r: &Metadata)
        ensures
            r@ == self@.metadata,
    {
        &self.metadata
    }

    /// The first field of the given name; `NoSuchField` if there is none.
    pub fn field_with_name(&self, name: &str) -> (r: Result<&Field, SchemaError>)
        ensures
            match field_named(self@.fields, name@) {
                Some(f) => r matches Ok(g) && g@ == f,
                None => r matches Err(e) && e == SchemaError::NoSuchField,
            },
    {
        let wanted = name.to_owned();
        match find_field(&self.fields.list, &wanted) {
            Some(i) => Ok(&self.fields.list[i]),
            None => Err(SchemaError::NoSuchField),
        }
    }

    /// A deep copy of this schema.
    pub fn duplicate(&self) -> (r: Schema)
        ensures
            r@ == self@,
    {
        Schema { fields: self.fields.duplicate(), metadata: self.metadata.duplicate() }
    }
}

impl Clone for Fields {
    fn clone(&self) -> (r: Self)
        ensures
            r@ == self@,
    {
        self.duplicate()
    }
}

impl Clone for Metadata {
    fn clone(&self) -> (r: Self)
        ensures
            r@ == self@,
    {
        self.duplicate()
    }
}

impl Clone for Schema {
    fn clone(&self) -> (r: Self)
        ensures
            r@ == self@,
    {
        self.duplicate()
    }
}

impl Clone for DataType {
    fn clone(&self) -> (r: Self)
        ensures
            r@ == self@,
    {
        self.duplicate()
    }
}

impl Clone for Field {
    fn clone(&self) -> (r: Self)
        ensures
            r@ == self@,
    {
        self.duplicate()
    }
}

} // verus!
