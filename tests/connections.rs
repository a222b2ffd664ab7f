use arroyo_planner::connections::{
    primitive_to_sql, ConnectionProfile, ConnectionSchema, ConnectionTable, ConnectionType, FieldType, Format, PrimitiveType, SourceField,
    SourceFieldType, StructType, TestSourceMessage,
};
use arroyo_planner::schema::{DataType, Field, TimeUnit};
use arroyo_planner::udfs::UdfResp;

fn prim(name: &str, p: PrimitiveType) -> SourceField {
    SourceField {
        field_name: name.to_string(),
        field_type: SourceFieldType { type_: FieldType::Primitive(p), sql_name: None },
        nullable: false,
    }
}

const RAW_MESSAGE: &str = "raw_string format requires a schema with a single field called `value` of type TEXT";

fn schema(format: Option<Format>, fields: Vec<SourceField>) -> Result<ConnectionSchema, String> {
    ConnectionSchema::try_new(format, None, None, None, fields, None, None)
}

#[test]
fn raw_string_needs_single_text_value() {
    assert!(schema(Some(Format::RawString), vec![prim("value", PrimitiveType::String)]).is_ok());
    assert_eq!(schema(Some(Format::RawString), vec![prim("other", PrimitiveType::String)]).unwrap_err(), RAW_MESSAGE);
    assert_eq!(schema(Some(Format::RawString), vec![prim("value", PrimitiveType::Int64)]).unwrap_err(), RAW_MESSAGE);
    assert_eq!(
        schema(Some(Format::RawString), vec![prim("value", PrimitiveType::String), prim("x", PrimitiveType::Bool)])
            .unwrap_err(),
        RAW_MESSAGE
    );
    assert!(schema(Some(Format::Json), vec![prim("a", PrimitiveType::Int64)]).is_ok());
    assert!(schema(None, vec![]).is_ok());
}

#[test]
fn source_field_to_arrow_field() {
    let nested = SourceField {
        field_name: "r".to_string(),
        field_type: SourceFieldType {
            type_: FieldType::Struct(StructType { name: None, fields: vec![prim("ms", PrimitiveType::UnixMillis), prim("j", PrimitiveType::Json)] }),
            sql_name: None,
        },
        nullable: true,
    };
    let f = nested.to_field();
    assert_eq!(
        f,
        Field::new(
            "r".to_string(),
            DataType::Struct(vec![
                Field::new("ms".to_string(), DataType::Timestamp(TimeUnit::Millisecond, None), false),
                Field::new("j".to_string(), DataType::Utf8, false),
            ]),
            true
        )
    );
    assert_eq!(prim("d", PrimitiveType::DateTime).to_field().data_type, DataType::Timestamp(TimeUnit::Microsecond, None));
}

#[test]
fn arrow_field_to_source_field() {
    let f = Field::new("n".to_string(), DataType::LargeBinary, true);
    let s = SourceField::try_from_field(&f).unwrap();
    assert_eq!(s.field_type.type_, FieldType::Primitive(PrimitiveType::Bytes));
    assert_eq!(s.field_type.sql_name, Some("BINARY".to_string()));
    assert!(s.nullable);
    let st = Field::new("r".to_string(), DataType::Struct(vec![Field::new("u".to_string(), DataType::UInt64, false)]), false);
    let s = SourceField::try_from_field(&st).unwrap();
    assert_eq!(s.field_type.sql_name, None);
    match s.field_type.type_ {
        FieldType::Struct(t) => {
            assert_eq!(t.name, None);
            assert_eq!(t.fields[0].field_type.sql_name, Some("BIGINT UNSIGNED".to_string()));
        }
        other => panic!("unexpected {:?}", other),
    }
}

#[test]
fn unsupported_types_are_reported() {
    let f = Field::new("x".to_string(), DataType::Date32, false);
    assert_eq!(SourceField::try_from_field(&f).unwrap_err(), "Unsupported data type Date32");
    let nested = Field::new(
        "r".to_string(),
        DataType::Struct(vec![
            Field::new("ok".to_string(), DataType::Int32, false),
            Field::new("s".to_string(), DataType::Timestamp(TimeUnit::Second, Some("UTC".to_string())), false),
        ]),
        false,
    );
    assert_eq!(
        SourceField::try_from_field(&nested).unwrap_err(),
        "Unsupported data type Timestamp(Second, Some(\"UTC\"))"
    );
}

#[test]
fn connection_schema_to_arroyo_schema() {
    let s = schema(None, vec![prim("a", PrimitiveType::Int64)]).unwrap();
    let a = s.arroyo_schema();
    assert_eq!(a.fields.len(), 2);
    assert_eq!(a.fields[1].name, "_timestamp");
    assert_eq!(a.timestamp_index, 1);
}

#[test]
fn connection_type_parsing() {
    assert_eq!(ConnectionType::try_from("SOURCE".to_string()), Ok(ConnectionType::Source));
    assert_eq!(ConnectionType::try_from("Sink".to_string()), Ok(ConnectionType::Sink));
    assert_eq!(
        ConnectionType::try_from("Pipe".to_string()),
        Err("Invalid connection type: Pipe".to_string())
    );
    assert_eq!(ConnectionType::Source.to_string(), "SOURCE");
    assert_eq!(ConnectionType::Sink.to_string(), "SINK");
}

#[test]
fn sql_names() {
    assert_eq!(primitive_to_sql(PrimitiveType::Int32), "INTEGER");
    assert_eq!(primitive_to_sql(PrimitiveType::F64), "DOUBLE");
    assert_eq!(primitive_to_sql(PrimitiveType::UnixNanos), "TIMESTAMP");
}

#[test]
fn test_source_messages() {
    let m = TestSourceMessage::info("a".to_string());
    assert!(!m.error && !m.done && m.message == "a");
    let m = TestSourceMessage::error("b".to_string());
    assert!(m.error && !m.done);
    let m = TestSourceMessage::done("c".to_string());
    assert!(!m.error && m.done);
    let m = TestSourceMessage::fail("d".to_string());
    assert!(m.error && m.done && m.message == "d");
}

#[test]
fn udf_error_response() {
    let r = UdfResp::from_error("boom".to_string());
    assert_eq!(r.errors, vec!["boom".to_string()]);
    assert_eq!(r.name, None);
    assert_eq!(r.url, None);
}

#[test]
fn connection_table_carries_config() {

    let profile = ConnectionProfile {
        id: "p1".to_string(),
        name: "local".to_string(),
        connector: "kafka".to_string(),
        config: serde_json::Value::String("broker:9092".to_string()),
        description: "local kafka".to_string(),
    };
    let table = ConnectionTable {
        id: 1,
        pub_id: "ct_1".to_string(),
        name: "events".to_string(),
        created_at: 0,
        connector: "kafka".to_string(),
        connection_profile: Some(profile),
        table_type: ConnectionType::Source,
        config: serde_json::Value::Null,
        schema: schema(None, vec![prim("a", PrimitiveType::Int64)]).unwrap(),
        consumers: 0,
    };
    assert_eq!(table.table_type.to_string(), "SOURCE");
    assert_eq!(table.connection_profile.unwrap().config, serde_json::Value::String("broker:9092".to_string()));
}

#[test]
fn unsupported_type_messages_follow_debug() {
    let f = Field::new("t".to_string(), DataType::Timestamp(TimeUnit::Second, None), false);
    assert_eq!(SourceField::try_from_field(&f).unwrap_err(), "Unsupported data type Timestamp(Second, None)");
    let f = Field::new("t".to_string(), DataType::Timestamp(TimeUnit::Second, Some("a\"b".to_string())), false);
    assert_eq!(
        SourceField::try_from_field(&f).unwrap_err(),
        "Unsupported data type Timestamp(Second, Some(\"a\\\"b\"))"
    );
    let f = Field::new(
        "d".to_string(),
        DataType::Other { json: "{\"Decimal128\":[10,2]}".to_string(), debug: "Decimal128(10, 2)".to_string() },
        true,
    );
    assert_eq!(SourceField::try_from_field(&f).unwrap_err(), "Unsupported data type Decimal128(10, 2)");
}
