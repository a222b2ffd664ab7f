use arroyo_planner::text::decimal_text;
use arroyo_planner::schema::{server_for_hash, ArroyoSchema, ArroyoSchemaWire, DataType, Field, SchemaError, TimeUnit};

fn f(name: &str, t: DataType) -> Field {
    Field::new(name.to_string(), t, false)
}

fn ts() -> Field {
    f("_timestamp", DataType::Timestamp(TimeUnit::Nanosecond, None))
}

#[test]
fn from_fields_appends_timestamp() {
    let s = ArroyoSchema::from_fields(vec![f("a", DataType::Int64), f("b", DataType::Utf8)]);
    assert_eq!(s.fields.len(), 3);
    assert_eq!(s.fields[2], ts());
    assert_eq!(s.timestamp_index, 2);
    assert!(s.key_indices.is_empty());
}

#[test]
fn from_fields_keeps_existing_timestamp() {
    let s = ArroyoSchema::from_fields(vec![ts(), f("a", DataType::Int64)]);
    assert_eq!(s.fields.len(), 2);
    assert_eq!(s.timestamp_index, 0);
}

#[test]
fn from_schema_keys_requires_timestamp() {
    let r = ArroyoSchema::from_schema_keys(vec![f("a", DataType::Int64)], vec![0]);
    assert_eq!(r, Err(SchemaError::MissingTimestamp));
    let s = ArroyoSchema::from_schema_keys(vec![f("a", DataType::Int64), ts()], vec![0]).unwrap();
    assert_eq!(s.timestamp_index, 1);
    assert_eq!(s.key_indices, vec![0]);
}

#[test]
fn schema_without_timestamp_removes_it() {
    let s = ArroyoSchema::from_schema_keys(vec![f("a", DataType::Int64), ts(), f("c", DataType::Boolean)], vec![]).unwrap();
    let rest = s.schema_without_timestamp();
    assert_eq!(rest, vec![f("a", DataType::Int64), f("c", DataType::Boolean)]);
}

#[test]
fn schema_without_keys_drops_key_columns() {
    let s = ArroyoSchema::from_schema_keys(
        vec![f("k", DataType::Int64), f("v", DataType::Utf8), ts()],
        vec![0],
    )
    .unwrap();
    let u = s.schema_without_keys().unwrap();
    assert_eq!(u.fields, vec![f("v", DataType::Utf8), ts()]);
    assert_eq!(u.timestamp_index, 1);
    assert!(u.key_indices.is_empty());
    assert_eq!(s.unkeyed_columns(3), vec![1, 2]);
}

#[test]
fn schema_without_keys_can_lose_timestamp() {
    let s = ArroyoSchema::new(vec![ts(), f("v", DataType::Utf8)], 0, vec![0]);
    assert_eq!(s.schema_without_keys(), Err(SchemaError::MissingTimestamp));
}

#[test]
fn sort_columns_and_fields() {
    let s = ArroyoSchema::from_schema_keys(
        vec![f("k", DataType::Int32), f("j", DataType::Utf8), ts()],
        vec![1, 0],
    )
    .unwrap();
    assert_eq!(s.sort_columns(false), vec![1, 0]);
    assert_eq!(s.sort_columns(true), vec![1, 0, 2]);
    assert_eq!(s.sort_fields(false), vec![DataType::Utf8, DataType::Int32]);
    assert_eq!(
        s.sort_fields(true),
        vec![DataType::Utf8, DataType::Int32, DataType::Timestamp(TimeUnit::Nanosecond, None)]
    );
}

#[test]
fn wire_round_trip_keeps_key_order() {
    let s = ArroyoSchema::from_schema_keys(
        vec![f("k", DataType::Int32), f("j", DataType::Utf8), ts()],
        vec![1, 0],
    )
    .unwrap();
    let w = s.to_wire("{}".to_string()).unwrap();
    assert_eq!(w, ArroyoSchemaWire { arrow_schema: "{}".to_string(), timestamp_index: 2, key_indices: vec![1, 0] });
    let back = ArroyoSchema::from_wire(&w, s.fields.iter().map(|x| x.duplicate()).collect());
    assert_eq!(back, s);
}

#[test]
fn wire_rejects_wide_index() {
    let s = ArroyoSchema::new(vec![ts()], 0, vec![usize::MAX]);
    if usize::MAX as u64 > u32::MAX as u64 {
        assert_eq!(s.to_wire(String::new()), Err(SchemaError::IndexTooLarge));
    }
}

#[test]
fn duplicate_copies_nested_fields() {
    let nested = f("r", DataType::Struct(vec![f("x", DataType::Int64), f("y", DataType::Timestamp(TimeUnit::Millisecond, Some("UTC".to_string())))]));
    assert_eq!(nested.duplicate(), nested);
}

#[test]
fn hash_servers() {
    assert_eq!(server_for_hash(0, 4), 0);
    assert_eq!(server_for_hash(u64::MAX, 4), 3);
    assert_eq!(server_for_hash(4611686018427387904, 4), 1);
    assert_eq!(server_for_hash(4611686018427387903, 4), 0);
    assert_eq!(server_for_hash(u64::MAX, 1), 0);
}

#[test]
fn other_types_are_carried() {
    let other = DataType::Other { json: "\"Time32\"".to_string(), debug: "Time32(Second)".to_string() };
    let s = ArroyoSchema::from_fields(vec![f("t", other.duplicate())]);
    assert_eq!(s.fields[0].data_type, other);
    assert_eq!(s.timestamp_index, 1);
}

#[test]
fn sort_fields_may_name_the_timestamp() {
    let s = ArroyoSchema::new(vec![f("k", DataType::Int32), ts()], 1, vec![1]);
    assert_eq!(s.sort_fields(false), vec![DataType::Timestamp(TimeUnit::Nanosecond, None)]);
}

#[test]
fn decimal_text_of_numbers() {

    assert_eq!(decimal_text(0), "0");
    assert_eq!(decimal_text(1234), "1234");
    assert_eq!(decimal_text(usize::MAX), usize::MAX.to_string());
}
