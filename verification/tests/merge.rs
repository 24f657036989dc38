use schema_infer::basic::vec2fields;
use schema_infer::error::{SchemaError, ShapeFault};
use schema_infer::merge::merge_schema_unordered;
use schema_infer::model::{DataType, Field, Metadata, Schema};

fn schema(fields: Vec<Field>, entries: &[(&str, &str)]) -> Schema {
    let mut metadata = Metadata::new();
    for (k, v) in entries {
        metadata.insert(k.to_string(), v.to_string());
    }
    Schema::new_with_metadata(vec2fields(fields), metadata)
}

#[test]
fn the_declared_field_wins() {
    let defined = schema(vec![Field::new("id", DataType::Int64, false)], &[]);
    let inferred = schema(
        vec![Field::new("id", DataType::Utf8, true), Field::new("name", DataType::Utf8, false)],
        &[],
    );
    let merged = merge_schema_unordered(defined, inferred);
    assert_eq!(
        merged.fields().list,
        vec![Field::new("id", DataType::Int64, false), Field::new("name", DataType::Utf8, false)]
    );
    assert_eq!(merged.fields().len(), 2);
}

#[test]
fn the_declared_metadata_wins() {
    let defined = schema(vec![], &[("owner", "test"), ("k", "declared")]);
    let inferred = schema(vec![], &[("k", "guessed"), ("extra", "x")]);
    let expected = defined.metadata().clone();
    let merged = merge_schema_unordered(defined, inferred);
    assert_eq!(merged.metadata(), &expected);
    assert_eq!(merged.metadata().get("k").unwrap(), "declared");
    assert!(merged.metadata().get("extra").is_none());

    let bare = schema(vec![Field::new("a", DataType::Null, true)], &[]);
    let noisy = schema(vec![], &[("k", "guessed")]);
    assert_eq!(merge_schema_unordered(bare, noisy).metadata().len(), 0);
}

#[test]
fn the_merge_counts_each_name_once() {
    let defined = schema(
        vec![
            Field::new("a", DataType::Int64, false),
            Field::new("b", DataType::Utf8, false),
            Field::new("c", DataType::Boolean, true),
        ],
        &[],
    );
    let inferred = schema(
        vec![
            Field::new("x", DataType::Int64, false),
            Field::new("c", DataType::Utf8, false),
            Field::new("y", DataType::Float64, true),
            Field::new("a", DataType::Float64, true),
        ],
        &[],
    );
    let merged = merge_schema_unordered(defined, inferred);
    assert_eq!(merged.fields().len(), 3 + 2);
    assert_eq!(
        merged.fields().list,
        vec![
            Field::new("a", DataType::Int64, false),
            Field::new("b", DataType::Utf8, false),
            Field::new("c", DataType::Boolean, true),
            Field::new("x", DataType::Int64, false),
            Field::new("y", DataType::Float64, true),
        ]
    );
}

#[test]
fn the_merge_of_anything_with_nothing() {
    let fields = vec![Field::new("a", DataType::Int64, false)];
    let merged = merge_schema_unordered(schema(fields.clone(), &[]), schema(vec![], &[]));
    assert_eq!(merged.fields().list, fields);
    let merged = merge_schema_unordered(schema(vec![], &[]), schema(fields.clone(), &[]));
    assert_eq!(merged.fields().list, fields);
}

#[test]
fn metadata_keeps_one_value_per_key() {
    let mut metadata = Metadata::new();
    metadata.insert("a".to_string(), "1".to_string());
    metadata.insert("b".to_string(), "2".to_string());
    metadata.insert("a".to_string(), "3".to_string());
    assert_eq!(metadata.len(), 2);
    assert_eq!(
        metadata.entries,
        vec![("a".to_string(), "3".to_string()), ("b".to_string(), "2".to_string())]
    );
    assert_eq!(metadata.get("a").unwrap(), "3");
}

#[test]
fn a_field_is_found_by_its_name() {
    let s = schema(
        vec![Field::new("a", DataType::Int64, false), Field::new("b", DataType::Utf8, true)],
        &[],
    );
    let b = s.field_with_name("b").unwrap();
    assert_eq!(b.name(), "b");
    assert_eq!(b.data_type(), &DataType::Utf8);
    assert!(b.is_nullable());
    assert_eq!(
        s.field_with_name("c").unwrap_err(),
        SchemaError::NoSuchField
    );
    assert_eq!(s.clone(), s);
}

#[test]
fn equal_means_the_same_parts_at_any_depth() {
    let inner = |nullable| {
        DataType::List(Box::new(DataType::Struct(vec![Field::new("x", DataType::Int64, nullable)])))
    };
    assert_eq!(inner(true), inner(true));
    assert_ne!(inner(true), inner(false));
    assert_ne!(DataType::Int64, DataType::Float64);
    assert_ne!(DataType::Struct(vec![]), DataType::List(Box::new(DataType::Null)));
    assert_eq!(Field::new("a", inner(true), false), Field::new("a", inner(true), false));
    assert_ne!(Field::new("a", inner(true), false), Field::new("b", inner(true), false));
    assert_ne!(Field::new("a", inner(true), false), Field::new("a", inner(true), true));
    assert_ne!(Field::new("a", inner(true), false), Field::new("a", inner(false), false));

    let a = schema(vec![Field::new("a", DataType::Int64, false)], &[("k", "v")]);
    assert_eq!(a, schema(vec![Field::new("a", DataType::Int64, false)], &[("k", "v")]));
    assert_ne!(a, schema(vec![Field::new("a", DataType::Int64, false)], &[("k", "w")]));
    assert_ne!(a, schema(vec![Field::new("a", DataType::Int64, false)], &[]));
    assert_ne!(a, schema(vec![], &[("k", "v")]));
    assert_ne!(
        schema(vec![Field::new("a", DataType::Int64, false), Field::new("b", DataType::Int64, false)], &[]),
        schema(vec![Field::new("b", DataType::Int64, false), Field::new("a", DataType::Int64, false)], &[])
    );
}

#[test]
fn errors_say_what_went_wrong() {
    assert_eq!(SchemaError::NotAnObject.message(), "a sample is not a JSON object");
    assert_eq!(
        SchemaError::SchemaShape(ShapeFault::DuplicateField).message(),
        "two fields share a name"
    );
    assert_eq!(SchemaError::UnknownTypeTag.message(), "a type tag names no logical type");
}
