use schema_infer::infer::{infer_schema, infer_type, widen_types};
use schema_infer::error::SchemaError;
use schema_infer::json::{read_json, write_json, JsonValue, Member};
use schema_infer::model::{DataType, Field};

fn samples(texts: &[&str]) -> Vec<JsonValue> {
    texts.iter().map(|t| read_json(t.as_bytes()).unwrap()).collect()
}

fn fields_of(texts: &[&str]) -> Vec<Field> {
    infer_schema(&samples(texts)).unwrap().fields.list
}

fn list(t: DataType) -> DataType {
    DataType::List(Box::new(t))
}

#[test]
fn scalars_widen_along_the_order() {
    let order = [
        DataType::Null,
        DataType::Boolean,
        DataType::Int64,
        DataType::Float64,
        DataType::Utf8,
    ];
    for (i, a) in order.iter().enumerate() {
        for (j, b) in order.iter().enumerate() {
            let wider = if i >= j { a } else { b };
            assert_eq!(&widen_types(a, b), wider);
        }
    }
}

#[test]
fn structs_and_lists_win_over_scalars() {
    let s = DataType::Struct(vec![Field::new("x", DataType::Int64, false)]);
    let l = list(DataType::Int64);
    assert_eq!(widen_types(&s, &DataType::Utf8), s);
    assert_eq!(widen_types(&DataType::Utf8, &s), s);
    assert_eq!(widen_types(&l, &DataType::Utf8), l);
    assert_eq!(widen_types(&DataType::Null, &l), l);
    assert_eq!(widen_types(&l, &s), s);
    assert_eq!(widen_types(&s, &l), s);
    assert_eq!(widen_types(&l, &list(DataType::Float64)), list(DataType::Float64));
}

#[test]
fn structs_widen_field_by_field() {
    let a = DataType::Struct(vec![
        Field::new("x", DataType::Int64, false),
        Field::new("y", DataType::Boolean, false),
    ]);
    let b = DataType::Struct(vec![
        Field::new("z", DataType::Utf8, false),
        Field::new("x", DataType::Float64, true),
    ]);
    assert_eq!(
        widen_types(&a, &b),
        DataType::Struct(vec![
            Field::new("x", DataType::Float64, true),
            Field::new("y", DataType::Boolean, true),
            Field::new("z", DataType::Utf8, true),
        ])
    );
}

#[test]
fn one_flat_object() {
    assert_eq!(
        fields_of(&[r#"{"name":"Alice","age":30}"#]),
        vec![Field::new("name", DataType::Utf8, false), Field::new("age", DataType::Int64, false)]
    );
}

#[test]
fn numbers_by_kind() {
    assert_eq!(
        fields_of(&[r#"{"a":0,"b":-5,"c":1.5,"d":9223372036854775807,"e":9223372036854775808,"f":18446744073709551615,"g":1e300}"#]),
        vec![
            Field::new("a", DataType::Int64, false),
            Field::new("b", DataType::Int64, false),
            Field::new("c", DataType::Float64, false),
            Field::new("d", DataType::Int64, false),
            Field::new("e", DataType::Float64, false),
            Field::new("f", DataType::Float64, false),
            Field::new("g", DataType::Float64, false),
        ]
    );
}

#[test]
fn values_of_one_key_widen_across_samples() {
    assert_eq!(
        fields_of(&[r#"{"a":1,"b":true,"c":1,"d":null}"#, r#"{"a":2.5,"b":1,"c":"x","d":7}"#]),
        vec![
            Field::new("a", DataType::Float64, false),
            Field::new("b", DataType::Int64, false),
            Field::new("c", DataType::Utf8, false),
            Field::new("d", DataType::Int64, true),
        ]
    );
}

#[test]
fn a_null_makes_a_field_nullable() {
    assert_eq!(
        fields_of(&[r#"{"a":null}"#]),
        vec![Field::new("a", DataType::Null, true)]
    );
    assert_eq!(
        fields_of(&[r#"{"a":"x"}"#, r#"{"a":null}"#]),
        vec![Field::new("a", DataType::Utf8, true)]
    );
}

#[test]
fn a_missing_key_makes_a_field_nullable() {
    assert_eq!(
        fields_of(&[r#"{"a":1,"b":2}"#, r#"{"a":3}"#]),
        vec![Field::new("a", DataType::Int64, false), Field::new("b", DataType::Int64, true)]
    );
    assert_eq!(
        fields_of(&[r#"{"a":1}"#, r#"{"b":2}"#, r#"{"a":1,"b":2}"#]),
        vec![Field::new("a", DataType::Int64, true), Field::new("b", DataType::Int64, true)]
    );
}

#[test]
fn a_sample_without_keys_makes_nothing_nullable() {
    assert_eq!(fields_of(&[r#"{"a":1}"#, "{}"]), vec![Field::new("a", DataType::Int64, false)]);
    assert_eq!(fields_of(&["{}", r#"{"a":1}"#]), vec![Field::new("a", DataType::Int64, false)]);
    assert_eq!(fields_of(&["{}"]), vec![]);
}

#[test]
fn fields_come_in_first_seen_order() {
    assert_eq!(
        fields_of(&[r#"{"z":1,"a":2}"#, r#"{"m":3,"a":4,"z":5}"#]),
        vec![
            Field::new("z", DataType::Int64, false),
            Field::new("a", DataType::Int64, false),
            Field::new("m", DataType::Int64, true),
        ]
    );
}

#[test]
fn arrays_become_lists() {
    assert_eq!(
        fields_of(&[r#"{"e":[],"i":[1,2],"m":[1,2.5,null],"s":[1,"x"],"n":[[1],[]]}"#]),
        vec![
            Field::new("e", list(DataType::Null), false),
            Field::new("i", list(DataType::Int64), false),
            Field::new("m", list(DataType::Float64), false),
            Field::new("s", list(DataType::Utf8), false),
            Field::new("n", list(list(DataType::Int64)), false),
        ]
    );
    assert_eq!(
        fields_of(&[r#"{"xs":[]}"#, r#"{"xs":["a"]}"#, r#"{"xs":[]}"#]),
        vec![Field::new("xs", list(DataType::Utf8), false)]
    );
}

#[test]
fn objects_become_structs() {
    assert_eq!(
        fields_of(&[r#"{"p":{"x":1,"y":"s"}}"#, r#"{"p":{"y":null,"z":true}}"#]),
        vec![Field::new(
            "p",
            DataType::Struct(vec![
                Field::new("x", DataType::Int64, true),
                Field::new("y", DataType::Utf8, true),
                Field::new("z", DataType::Boolean, true),
            ]),
            false
        )]
    );
    assert_eq!(
        fields_of(&[r#"{"rows":[{"a":1},{"b":null}]}"#]),
        vec![Field::new(
            "rows",
            list(DataType::Struct(vec![
                Field::new("a", DataType::Int64, true),
                Field::new("b", DataType::Null, true),
            ])),
            false
        )]
    );
    assert_eq!(
        fields_of(&[r#"{"a":{"x":1}}"#, r#"{"a":5}"#, r#"{"a":[1]}"#]),
        vec![Field::new("a", DataType::Struct(vec![Field::new("x", DataType::Int64, false)]), false)]
    );
}

#[test]
fn a_key_written_twice_counts_twice() {
    let v = JsonValue::Object(vec![
        Member { key: "a".to_string(), value: JsonValue::PosInt(1) },
        Member { key: "b".to_string(), value: JsonValue::Null },
        Member { key: "a".to_string(), value: JsonValue::Text("x".to_string()) },
    ]);
    assert_eq!(
        infer_type(&v),
        DataType::Struct(vec![
            Field::new("a", DataType::Utf8, false),
            Field::new("b", DataType::Null, true),
        ])
    );
}

#[test]
fn no_samples_give_an_empty_schema() {
    let schema = infer_schema(&Vec::new()).unwrap();
    assert_eq!(schema.fields().len(), 0);
    assert_eq!(schema.metadata().len(), 0);
}

#[test]
fn every_sample_must_be_an_object() {
    assert_eq!(
        infer_schema(&samples(&[r#"{"a":1}"#, "[]", r#"{"b":1}"#])).unwrap_err(),
        SchemaError::NotAnObject
    );
    assert_eq!(infer_schema(&samples(&["null"])).unwrap_err(), SchemaError::NotAnObject);
}

#[test]
fn json_text_is_read_into_values() {
    let v = read_json(br#" {"b":[true,null,-3,4,1.5,"s\n"],"a":{}} "#).unwrap();
    assert_eq!(
        v,
        JsonValue::Object(vec![
            Member {
                key: "b".to_string(),
                value: JsonValue::Array(vec![
                    JsonValue::Bool(true),
                    JsonValue::Null,
                    JsonValue::NegInt(-3),
                    JsonValue::PosInt(4),
                    JsonValue::Float("1.5".to_string()),
                    JsonValue::Text("s\n".to_string()),
                ]),
            },
            Member { key: "a".to_string(), value: JsonValue::Object(vec![]) },
        ])
    );
}

#[test]
fn json_values_are_written_as_text() {
    let v = JsonValue::Object(vec![
        Member {
            key: "b".to_string(),
            value: JsonValue::Array(vec![
                JsonValue::Bool(true),
                JsonValue::Null,
                JsonValue::NegInt(-3),
                JsonValue::PosInt(4),
                JsonValue::Float("1.5".to_string()),
                JsonValue::Float("not a number".to_string()),
                JsonValue::Text("s\n".to_string()),
            ]),
        },
        Member { key: "a".to_string(), value: JsonValue::Object(vec![]) },
    ]);
    assert_eq!(
        String::from_utf8(write_json(&v).unwrap()).unwrap(),
        r#"{"b":[true,null,-3,4,1.5,null,"s\n"],"a":{}}"#
    );
}

#[test]
fn written_values_read_back() {
    let text = r#"{"k":[1,-2,3.25,"x",null,false,{"n":{}}],"z":"\u00e9\"\\"}"#;
    let v = read_json(text.as_bytes()).unwrap();
    assert_eq!(read_json(&write_json(&v).unwrap()).unwrap(), v);
}
