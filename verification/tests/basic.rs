use schema_infer::asch::{infer_schema_from_json_obj_bytes, merge_schema_unordered};
use schema_infer::basic::{
    fields2schema, vec2fields, BasicField, BasicFields, BasicSchema,
};
use schema_infer::error::{ErrorKind, SchemaError, ShapeFault};
use schema_infer::model::{DataType, Field, Fields, Metadata, Schema};

fn basic_schema_from_json(json: &str) -> Result<BasicSchema, SchemaError> {
    schema_infer::basic::basic_schema_from_json(json.as_bytes())
}

#[test]
fn test_basic_schema_parsing() {
    let json = r#"
        {
            "fields": {
                "fields": [
                    {"name":"id","dtyp":"Int64","null":false},
                    {"name":"name","dtyp":"Utf8","null":true}
                ]
            },
            "metadata": {
                "owner":"test"
            }
        }
        "#;

    let parsed = basic_schema_from_json(json).expect("parse BasicSchema");
    assert_eq!(parsed.fields.fields.len(), 2);
    assert_eq!(parsed.metadata.len(), 1);
    assert_eq!(parsed.metadata.get("owner").unwrap(), "test");

    let id_field = &parsed.fields.fields[0];
    assert_eq!(id_field.name, "id");
    assert_eq!(id_field.dtyp, DataType::Int64);
    assert!(!id_field.null);

    let name_field = &parsed.fields.fields[1];
    assert_eq!(name_field.name, "name");
    assert_eq!(name_field.dtyp, DataType::Utf8);
    assert!(name_field.null);
}

#[test]
fn test_basic_schema_to_schema() {
    let json = r#"
        {
            "fields": {
                "fields": [
                    {"name":"id","dtyp":"Int64","null":false},
                    {"name":"name","dtyp":"Utf8","null":true}
                ]
            },
            "metadata": {
                "owner":"test",
                "team":"dev"
            }
        }
        "#;

    let basic: BasicSchema = basic_schema_from_json(json).expect("parse BasicSchema");
    let schema: Schema = basic.into();

    assert_eq!(schema.fields().len(), 2);
    assert_eq!(schema.metadata().len(), 2);
    assert_eq!(schema.metadata().get("owner").unwrap(), "test");
    assert_eq!(schema.metadata().get("team").unwrap(), "dev");

    let id = schema.field_with_name("id").unwrap();
    assert_eq!(id.data_type(), &DataType::Int64);
    assert!(!id.is_nullable());

    let name = schema.field_with_name("name").unwrap();
    assert_eq!(name.data_type(), &DataType::Utf8);
    assert!(name.is_nullable());
}

#[test]
fn test_merge_basic_and_guessed_schema() {
    let defined_json = r#"
        {
            "fields": {
                "fields": [
                    {"name":"id","dtyp":"Int64","null":false},
                    {"name":"name","dtyp":"Utf8","null":true}
                ]
            },
            "metadata": {
                "owner":"test"
            }
        }
        "#;
    let defined_basic: BasicSchema = basic_schema_from_json(defined_json).unwrap();
    let defined_schema: Schema = defined_basic.into();

    let sample_json = br#"{"id":42,"name":"Alice","age":30}"#;
    let guessed_schema = infer_schema_from_json_obj_bytes(sample_json).unwrap();

    let merged = merge_schema_unordered(defined_schema, guessed_schema);

    assert_eq!(merged.fields().len(), 3);
    assert!(merged.field_with_name("id").is_ok());
    assert!(merged.field_with_name("name").is_ok());
    assert!(merged.field_with_name("age").is_ok());

    assert_eq!(merged.metadata().get("owner").unwrap(), "test");
}

#[test]
fn test_basic_schema_missing_fields() {
    let bad_json = r#"
        {
            "fields": {
                "name":"id","dtyp":"Int64","null":false
            },
            "metadata": {}
        }
        "#;

    let result: Result<BasicSchema, _> = basic_schema_from_json(bad_json);
    assert!(result.is_err());
}

#[test]
fn test_basic_schema_invalid_dtyp() {
    let bad_json = r#"
        {
            "fields": {
                "fields": [
                    {"name":"id","dtyp":"NotADatatype","null":false}
                ]
            },
            "metadata": {}
        }
        "#;

    let result: Result<BasicSchema, _> = basic_schema_from_json(bad_json);
    assert!(result.is_err());
}

#[test]
fn plain_schema_errors_are_told_apart() {
    let missing = r#"{"fields": {"name":"id","dtyp":"Int64","null":false}, "metadata": {}}"#;
    assert_eq!(
        basic_schema_from_json(missing).unwrap_err(),
        SchemaError::SchemaShape(ShapeFault::MissingKey)
    );
    let unknown = r#"{"fields": {"fields": [{"name":"id","dtyp":"NotADatatype","null":false}]}, "metadata": {}}"#;
    assert_eq!(basic_schema_from_json(unknown).unwrap_err(), SchemaError::UnknownTypeTag);
    let list = r#"{"fields": [], "metadata": {}}"#;
    assert_eq!(
        basic_schema_from_json(list).unwrap_err(),
        SchemaError::SchemaShape(ShapeFault::NotAnObject)
    );
    let twice = r#"{"fields": {"fields": [{"name":"a","dtyp":"Utf8","null":false},{"name":"a","dtyp":"Utf8","null":false}]}, "metadata": {}}"#;
    assert_eq!(
        basic_schema_from_json(twice).unwrap_err(),
        SchemaError::SchemaShape(ShapeFault::DuplicateField)
    );
    let cut = r#"{"fields": {"fields": ["#;
    assert_eq!(basic_schema_from_json(cut).unwrap_err().kind(), ErrorKind::UnexpectedEof);
}

#[test]
fn plain_types_convert_part_by_part() {
    let field: Field = BasicField { name: "id".to_string(), dtyp: DataType::Int64, null: true }.into();
    assert_eq!(field, Field::new("id", DataType::Int64, true));

    let fields: Fields = BasicFields {
        fields: vec![
            BasicField { name: "a".to_string(), dtyp: DataType::Utf8, null: false },
            BasicField { name: "b".to_string(), dtyp: DataType::Boolean, null: true },
            BasicField { name: "c".to_string(), dtyp: DataType::Null, null: true },
        ],
    }
    .into();
    assert_eq!(
        fields,
        vec2fields(vec![
            Field::new("a", DataType::Utf8, false),
            Field::new("b", DataType::Boolean, true),
            Field::new("c", DataType::Null, true),
        ])
    );

    let mut meta = Metadata::new();
    meta.insert("k".to_string(), "v".to_string());
    let schema = fields2schema(fields.clone(), meta.clone());
    assert_eq!(schema.fields(), &fields);
    assert_eq!(schema.metadata(), &meta);
}
