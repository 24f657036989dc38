use schema_infer::asch::{parse_json_schema, schema2json2writer};
use schema_infer::codec::{decode_schema, decode_type, encode_schema, encode_type, find_member};
use schema_infer::error::{ErrorKind, FaultKind, SchemaError, ShapeFault};
use schema_infer::json::{read_json, JsonValue, Member};
use schema_infer::model::{DataType, Field, Metadata, Schema};

fn nested(depth: usize) -> DataType {
    let mut t = DataType::Utf8;
    for _ in 0..depth {
        t = DataType::List(Box::new(t));
    }
    t
}

#[test]
fn every_type_has_its_document() {
    let doc = |t: &DataType| String::from_utf8(
        schema_infer::json::write_json(&encode_type(t)).unwrap(),
    )
    .unwrap();
    assert_eq!(doc(&DataType::Null), r#""Null""#);
    assert_eq!(doc(&DataType::Boolean), r#""Boolean""#);
    assert_eq!(doc(&DataType::Int64), r#""Int64""#);
    assert_eq!(doc(&DataType::Float64), r#""Float64""#);
    assert_eq!(doc(&DataType::Utf8), r#""Utf8""#);
    assert_eq!(doc(&nested(2)), r#"{"List":{"List":"Utf8"}}"#);
    assert_eq!(
        doc(&DataType::Struct(vec![Field::new("x", DataType::Int64, true)])),
        r#"{"Struct":[{"name":"x","type":"Int64","nullable":true}]}"#
    );
}

#[test]
fn every_type_document_is_read_back() {
    let types = vec![
        DataType::Null,
        DataType::Boolean,
        DataType::Int64,
        DataType::Float64,
        DataType::Utf8,
        nested(3),
        DataType::Struct(vec![]),
        DataType::Struct(vec![
            Field::new("x", nested(1), true),
            Field::new("y", DataType::Struct(vec![Field::new("z", DataType::Null, true)]), false),
        ]),
    ];
    for t in types {
        assert_eq!(decode_type(&encode_type(&t)).unwrap(), t);
    }
}

#[test]
fn the_document_of_a_schema_is_read_back() {
    let mut metadata = Metadata::new();
    metadata.insert("b".to_string(), "1".to_string());
    metadata.insert("a".to_string(), "".to_string());
    let schema = Schema {
        fields: schema_infer::basic::vec2fields(vec![
            Field::new("id", DataType::Int64, false),
            Field::new("tags", nested(2), true),
        ]),
        metadata,
    };
    assert_eq!(decode_schema(&encode_schema(&schema)).unwrap(), schema);
}

#[test]
fn members_beyond_the_known_ones_are_ignored() {
    let text = br#"{"version":2,"metadata":{},"fields":[{"comment":"x","nullable":true,"type":"Utf8","name":"a","dict_id":0}]}"#;
    let schema = parse_json_schema(text).unwrap();
    assert_eq!(schema.fields().list, vec![Field::new("a", DataType::Utf8, true)]);
}

#[test]
fn the_first_member_of_a_key_counts() {
    let members = vec![
        Member { key: "a".to_string(), value: JsonValue::PosInt(1) },
        Member { key: "b".to_string(), value: JsonValue::PosInt(2) },
        Member { key: "a".to_string(), value: JsonValue::PosInt(3) },
    ];
    assert_eq!(find_member(&members, "a"), Some(0));
    assert_eq!(find_member(&members, "b"), Some(1));
    assert_eq!(find_member(&members, "c"), None);
}

#[test]
fn the_first_fault_in_a_document_is_reported() {
    let doc = read_json(
        br#"{"fields":[{"name":"a","type":"Utf8","nullable":true},{"name":"b","type":"Nope","nullable":1},{"name":"a","type":"Utf8","nullable":true}],"metadata":[]}"#,
    )
    .unwrap();
    assert_eq!(decode_schema(&doc).unwrap_err(), SchemaError::UnknownTypeTag);
    let doc = read_json(
        br#"{"fields":[{"name":"a","type":"Utf8","nullable":true},{"name":"a","type":"Nope","nullable":1}],"metadata":[]}"#,
    )
    .unwrap();
    assert_eq!(decode_schema(&doc).unwrap_err(), SchemaError::UnknownTypeTag);
    let doc = read_json(br#"{"fields":[],"metadata":{"k":"v","j":null}}"#).unwrap();
    assert_eq!(
        decode_schema(&doc).unwrap_err(),
        SchemaError::SchemaShape(ShapeFault::MetadataValueNotAString)
    );
}

#[test]
fn a_very_deep_type_is_written_but_not_read_back() {
    let schema = Schema::new(vec![Field::new("deep", nested(200), false)]);
    let mut text: Vec<u8> = Vec::new();
    schema2json2writer(&schema, &mut text).unwrap();
    let err = parse_json_schema(&text).unwrap_err();
    assert!(matches!(err, SchemaError::JsonSyntax(f) if f.kind == FaultKind::Syntax));
    assert_eq!(err.kind(), ErrorKind::InvalidData);
    assert_eq!(decode_schema(&encode_schema(&schema)).unwrap(), schema);

    let schema = Schema::new(vec![Field::new("deep", nested(40), false)]);
    let mut text: Vec<u8> = Vec::new();
    schema2json2writer(&schema, &mut text).unwrap();
    assert_eq!(parse_json_schema(&text).unwrap(), schema);
}

#[test]
fn a_metadata_key_written_twice_is_refused() {
    let text = |s: &str| JsonValue::Text(s.to_string());
    let doc = JsonValue::Object(vec![
        Member { key: "fields".to_string(), value: JsonValue::Array(vec![]) },
        Member {
            key: "metadata".to_string(),
            value: JsonValue::Object(vec![
                Member { key: "k".to_string(), value: text("1") },
                Member { key: "j".to_string(), value: text("2") },
                Member { key: "k".to_string(), value: text("3") },
            ]),
        },
    ]);
    assert_eq!(
        decode_schema(&doc).unwrap_err(),
        SchemaError::SchemaShape(ShapeFault::BadMetadata)
    );
}

#[test]
fn every_error_has_its_class() {
    let fault = |kind| SchemaError::JsonSyntax(schema_infer::error::ParseFault {
        kind,
        line: 1,
        column: 1,
    });
    assert_eq!(fault(FaultKind::Eof).kind(), ErrorKind::UnexpectedEof);
    assert_eq!(fault(FaultKind::Syntax).kind(), ErrorKind::InvalidData);
    assert_eq!(fault(FaultKind::Data).kind(), ErrorKind::InvalidData);
    assert_eq!(fault(FaultKind::Io).kind(), ErrorKind::Other);
    assert_eq!(SchemaError::SchemaShape(ShapeFault::MissingKey).kind(), ErrorKind::InvalidData);
    assert_eq!(SchemaError::UnknownTypeTag.kind(), ErrorKind::InvalidData);
    assert_eq!(SchemaError::NotAnObject.kind(), ErrorKind::Other);
    assert_eq!(SchemaError::NoSuchField.kind(), ErrorKind::Other);
    assert_eq!(SchemaError::Encode.kind(), ErrorKind::Other);
}
