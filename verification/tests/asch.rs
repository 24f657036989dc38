use schema_infer::asch::{
    infer_schema_from_json_obj_bytes, infer_schema_from_value, merge_schema_unordered,
    merge_unordered, parse_json_schema, schema2json2writer,
};
use schema_infer::error::{ErrorKind, FaultKind, SchemaError, ShapeFault};
use schema_infer::json::{JsonValue, Member};
use schema_infer::model::{DataType, Field, Metadata, Schema};

fn member(key: &str, value: JsonValue) -> Member {
    Member { key: key.to_string(), value }
}

#[test]
fn test_infer_schema_from_value() {
    let v = JsonValue::Object(vec![
        member("name", JsonValue::Text("Alice".to_string())),
        member("age", JsonValue::PosInt(30)),
    ]);
    let schema = infer_schema_from_value(&v).expect("schema inference");
    assert_eq!(schema.fields().len(), 2);

    let name_field = schema.field_with_name("name").unwrap();
    assert_eq!(name_field.data_type(), &DataType::Utf8);

    let age_field = schema.field_with_name("age").unwrap();
    assert_eq!(age_field.data_type(), &DataType::Int64);
}

#[test]
fn test_infer_schema_from_json_obj_bytes() {
    let json_bytes = br#"{"foo":"bar","count":42}"#;
    let schema = infer_schema_from_json_obj_bytes(json_bytes).expect("infer");
    assert_eq!(schema.fields().len(), 2);

    let foo_field = schema.field_with_name("foo").unwrap();
    assert_eq!(foo_field.data_type(), &DataType::Utf8);

    let count_field = schema.field_with_name("count").unwrap();
    assert_eq!(count_field.data_type(), &DataType::Int64);
}

#[test]
fn test_merge_schema_unordered() {
    let schema1 = Schema::new(vec![Field::new("id", DataType::Int64, false)]);
    let schema2 = Schema::new(vec![Field::new("name", DataType::Utf8, false)]);
    let merged = merge_schema_unordered(schema1, schema2);
    assert_eq!(merged.fields().len(), 2);
    assert!(merged.field_with_name("id").is_ok());
    assert!(merged.field_with_name("name").is_ok());
}

#[test]
fn test_invalid_json() {
    let bad_json = br#"{"name":"Alice","age":30"#;
    let err = infer_schema_from_json_obj_bytes(bad_json).unwrap_err();
    assert_eq!(err.kind(), ErrorKind::UnexpectedEof);
}

#[test]
fn truncated_sample_is_a_syntax_error_not_a_shape_error() {
    let err = infer_schema_from_json_obj_bytes(br#"{"name":"Alice","age":30"#).unwrap_err();
    match err {
        SchemaError::JsonSyntax(fault) => {
            assert_eq!(fault.kind, FaultKind::Eof);
            assert_eq!(fault.line, 1);
            assert_eq!(fault.column, 24);
        }
        other => panic!("expected a syntax error, got {:?}", other),
    }
}

#[test]
fn garbled_sample_is_invalid_data() {
    let err = infer_schema_from_json_obj_bytes(b"{\"a\" 1}").unwrap_err();
    assert_eq!(err.kind(), ErrorKind::InvalidData);
    assert!(matches!(err, SchemaError::JsonSyntax(f) if f.kind == FaultKind::Syntax));
}

#[test]
fn sample_that_is_no_object_is_rejected() {
    assert_eq!(infer_schema_from_json_obj_bytes(b"[1,2]").unwrap_err(), SchemaError::NotAnObject);
    assert_eq!(infer_schema_from_json_obj_bytes(b"42").unwrap_err(), SchemaError::NotAnObject);
    assert_eq!(
        infer_schema_from_value(&JsonValue::Text("x".to_string())).unwrap_err(),
        SchemaError::NotAnObject
    );
    assert_eq!(SchemaError::NotAnObject.kind(), ErrorKind::Other);
}

#[test]
fn inference_keeps_key_order_and_marks_nothing_nullable() {
    let schema = infer_schema_from_json_obj_bytes(br#"{"name":"Alice","age":30}"#).unwrap();
    assert_eq!(
        schema.fields().list,
        vec![Field::new("name", DataType::Utf8, false), Field::new("age", DataType::Int64, false)]
    );
    assert_eq!(schema.metadata().len(), 0);
}

#[test]
fn parse_declared_schema() {
    let text = br#"{
        "fields": [
            {"name": "id", "type": "Int64", "nullable": false},
            {"name": "tags", "type": {"List": "Utf8"}, "nullable": true},
            {"name": "pos", "type": {"Struct": [
                {"name": "x", "type": "Float64", "nullable": false},
                {"name": "ok", "type": "Boolean", "nullable": true},
                {"name": "none", "type": "Null", "nullable": true}
            ]}, "nullable": false}
        ],
        "metadata": {"owner": "test", "team": "dev"}
    }"#;
    let schema = parse_json_schema(text).unwrap();
    assert_eq!(
        schema.fields().list,
        vec![
            Field::new("id", DataType::Int64, false),
            Field::new("tags", DataType::List(Box::new(DataType::Utf8)), true),
            Field::new(
                "pos",
                DataType::Struct(vec![
                    Field::new("x", DataType::Float64, false),
                    Field::new("ok", DataType::Boolean, true),
                    Field::new("none", DataType::Null, true),
                ]),
                false
            ),
        ]
    );
    assert_eq!(schema.metadata().len(), 2);
    assert_eq!(schema.metadata().get("owner").unwrap(), "test");
    assert_eq!(schema.metadata().get("team").unwrap(), "dev");
    assert!(schema.metadata().get("nobody").is_none());
}

#[test]
fn declared_schema_with_unknown_type_tag_fails() {
    let text = br#"{"fields":[{"name":"id","type":"NotADatatype","nullable":false}],"metadata":{}}"#;
    assert_eq!(parse_json_schema(text).unwrap_err(), SchemaError::UnknownTypeTag);
    let text = br#"{"fields":[{"name":"id","type":{"Map":"Utf8"},"nullable":false}],"metadata":{}}"#;
    assert_eq!(parse_json_schema(text).unwrap_err(), SchemaError::UnknownTypeTag);
    assert_eq!(SchemaError::UnknownTypeTag.kind(), ErrorKind::InvalidData);
}

#[test]
fn declared_schema_whose_fields_are_an_object_fails() {
    let text = br#"{"fields":{"name":"id","type":"Int64","nullable":false},"metadata":{}}"#;
    assert_eq!(
        parse_json_schema(text).unwrap_err(),
        SchemaError::SchemaShape(ShapeFault::FieldsNotAList)
    );
}

#[test]
fn declared_schema_shape_errors() {
    let shape = |text: &[u8]| match parse_json_schema(text).unwrap_err() {
        SchemaError::SchemaShape(fault) => fault,
        other => panic!("expected a shape error, got {:?}", other),
    };
    assert_eq!(shape(b"[]"), ShapeFault::NotAnObject);
    assert_eq!(shape(br#"{"fields":[]}"#), ShapeFault::MissingKey);
    assert_eq!(shape(br#"{"metadata":{}}"#), ShapeFault::MissingKey);
    assert_eq!(shape(br#"{"fields":[7],"metadata":{}}"#), ShapeFault::NotAnObject);
    assert_eq!(
        shape(br#"{"fields":[{"name":"a","type":"Utf8"}],"metadata":{}}"#),
        ShapeFault::MissingKey
    );
    assert_eq!(
        shape(br#"{"fields":[{"name":7,"type":"Utf8","nullable":true}],"metadata":{}}"#),
        ShapeFault::BadName
    );
    assert_eq!(
        shape(br#"{"fields":[{"name":"","type":"Utf8","nullable":true}],"metadata":{}}"#),
        ShapeFault::BadName
    );
    assert_eq!(
        shape(br#"{"fields":[{"name":"a","type":7,"nullable":true}],"metadata":{}}"#),
        ShapeFault::BadType
    );
    assert_eq!(
        shape(br#"{"fields":[{"name":"a","type":{"List":"Utf8","x":1},"nullable":true}],"metadata":{}}"#),
        ShapeFault::BadType
    );
    assert_eq!(
        shape(br#"{"fields":[{"name":"a","type":{"Struct":"Utf8"},"nullable":true}],"metadata":{}}"#),
        ShapeFault::FieldsNotAList
    );
    assert_eq!(
        shape(br#"{"fields":[{"name":"a","type":"Utf8","nullable":"no"}],"metadata":{}}"#),
        ShapeFault::BadNullable
    );
    assert_eq!(
        shape(
            br#"{"fields":[{"name":"a","type":"Utf8","nullable":true},{"name":"a","type":"Int64","nullable":true}],"metadata":{}}"#
        ),
        ShapeFault::DuplicateField
    );
    assert_eq!(shape(br#"{"fields":[],"metadata":[]}"#), ShapeFault::BadMetadata);
    assert_eq!(
        shape(br#"{"fields":[],"metadata":{"k":1}}"#),
        ShapeFault::MetadataValueNotAString
    );
    assert_eq!(SchemaError::SchemaShape(ShapeFault::BadType).kind(), ErrorKind::InvalidData);
}

#[test]
fn truncated_declared_schema_is_a_syntax_error() {
    let err = parse_json_schema(br#"{"fields":[],"metadata":{"#).unwrap_err();
    assert_eq!(err.kind(), ErrorKind::UnexpectedEof);
}

#[test]
fn written_schema_reads_back() {
    let mut metadata = Metadata::new();
    metadata.insert("owner".to_string(), "test \"quoted\"\n".to_string());
    metadata.insert("team".to_string(), "dev".to_string());
    let schema = Schema {
        fields: schema_infer::basic::vec2fields(vec![
            Field::new("id", DataType::Int64, false),
            Field::new(
                "rows",
                DataType::List(Box::new(DataType::Struct(vec![
                    Field::new("a", DataType::Utf8, true),
                    Field::new("b", DataType::Float64, false),
                ]))),
                true,
            ),
        ]),
        metadata,
    };
    let mut text: Vec<u8> = b"# ".to_vec();
    schema2json2writer(&schema, &mut text).unwrap();
    assert_eq!(&text[..2], b"# ");
    let back = parse_json_schema(&text[2..]).unwrap();
    assert_eq!(back, schema);
}

#[test]
fn written_schema_text_is_exact() {
    let mut metadata = Metadata::new();
    metadata.insert("owner".to_string(), "test".to_string());
    let schema = Schema::new_with_metadata(
        schema_infer::basic::vec2fields(vec![
            Field::new("id", DataType::Int64, false),
            Field::new("tags", DataType::List(Box::new(DataType::Utf8)), true),
        ]),
        metadata,
    );
    let mut text: Vec<u8> = Vec::new();
    schema2json2writer(&schema, &mut text).unwrap();
    assert_eq!(
        String::from_utf8(text).unwrap(),
        r#"{"fields":[{"name":"id","type":"Int64","nullable":false},{"name":"tags","type":{"List":"Utf8"},"nullable":true}],"metadata":{"owner":"test"}}"#
    );
}

#[test]
fn merge_from_texts() {
    let defined = br#"{"fields":[{"name":"id","type":"Int64","nullable":false},{"name":"name","type":"Utf8","nullable":true}],"metadata":{"owner":"test"}}"#;
    let sample = br#"{"id":"42","name":"Alice","age":30}"#;
    let merged = merge_unordered(defined, sample).unwrap();
    assert_eq!(
        merged.fields().list,
        vec![
            Field::new("id", DataType::Int64, false),
            Field::new("name", DataType::Utf8, true),
            Field::new("age", DataType::Int64, false),
        ]
    );
    assert_eq!(merged.metadata().get("owner").unwrap(), "test");
    assert_eq!(merged.metadata().len(), 1);
}

#[test]
fn merge_from_texts_reports_the_declared_text_first() {
    let err = merge_unordered(b"{", b"[").unwrap_err();
    assert!(matches!(err, SchemaError::JsonSyntax(f) if f.kind == FaultKind::Eof));
    let err = merge_unordered(br#"{"fields":[],"metadata":{}}"#, b"[]").unwrap_err();
    assert_eq!(err, SchemaError::NotAnObject);
    let err = merge_unordered(br#"{"fields":3,"metadata":{}}"#, b"[]").unwrap_err();
    assert_eq!(err, SchemaError::SchemaShape(ShapeFault::FieldsNotAList));
}
