//! Connector and connection-schema descriptions exchanged with the API.
use crate::schema::{
    fields_model, has_timestamp, timestamp_field_model, first_timestamp, ArroyoSchema, lemma_fields_model_push, vec_fields_model, DataType, Field, FieldModel, TimeUnit, TypeModel,
};
use vstd::prelude::*;
use vstd::string::StringExecFns;

verus! {

/// A JSON document, carried through unread.
#[verifier::external_type_specification]
#[verifier::external_body]
pub struct ExJsonValue(serde_json::Value);

/// A connector offered by the system.
#[derive(Clone, Debug, PartialEq, Eq)]
pub struct Connector {
    pub id: String,
    pub name: String,
    pub icon: String,
    pub description: String,
    pub table_config: String,
    pub enabled: bool,
    pub source: bool,
    pub sink: bool,
    pub custom_schemas: bool,
    pub testing: bool,
    pub hidden: bool,
    pub connection_config: Option<String>,
}

/// Whether a connection table reads or writes.
#[derive(Clone, Copy, Debug, PartialEq, Eq, Hash, Structural)]
pub enum ConnectionType {
    Source,
    Sink,
}

/// Column types a connection schema can declare.
#[derive(Clone, Copy, Debug, PartialEq, Eq, Structural)]
pub enum PrimitiveType {
    Int32,
    Int64,
    UInt32,
    UInt64,
    F32,
    F64,
    Bool,
    String,
    Bytes,
    UnixMillis,
    UnixMicros,
    UnixNanos,
    DateTime,
    Json,
}

/// A nested record type.
#[derive(Debug, PartialEq, Eq)]
pub struct StructType {
    pub name: Option<String>,
    pub fields: Vec<SourceField>,
}

/// The type of a connection-schema field.
#[derive(Debug, PartialEq, Eq)]
pub enum FieldType {
    Primitive(PrimitiveType),
    Struct(StructType),
}

/// A field's type together with its SQL spelling, when it has one.
#[derive(Debug, PartialEq, Eq)]
pub struct SourceFieldType {
    pub type_: FieldType,
    pub sql_name: Option<String>,
}

/// A field of a connection schema.
#[derive(Debug, PartialEq, Eq)]
pub struct SourceField {
    pub field_name: String,
    pub field_type: SourceFieldType,
    pub nullable: bool,
}

/// The column type a primitive maps to.
pub open spec fn primitive_type_model(p: PrimitiveType) -> TypeModel {
    match p {
        PrimitiveType::Int32 => TypeModel::Int32,
        PrimitiveType::Int64 => TypeModel::Int64,
        PrimitiveType::UInt32 => TypeModel::UInt32,
        PrimitiveType::UInt64 => TypeModel::UInt64,
        PrimitiveType::F32 => TypeModel::Float32,
        PrimitiveType::F64 => TypeModel::Float64,
        PrimitiveType::Bool => TypeModel::Boolean,
        PrimitiveType::String => TypeModel::Utf8,
        PrimitiveType::Bytes => TypeModel::Binary,
        PrimitiveType::UnixMillis => TypeModel::Timestamp(TimeUnit::Millisecond, None),
        PrimitiveType::UnixMicros => TypeModel::Timestamp(TimeUnit::Microsecond, None),
        PrimitiveType::UnixNanos => TypeModel::Timestamp(TimeUnit::Nanosecond, None),
        PrimitiveType::DateTime => TypeModel::Timestamp(TimeUnit::Microsecond, None),
        PrimitiveType::Json => TypeModel::Utf8,
    }
}

/// The column a connection-schema field describes.
pub open spec fn source_field_model(f: SourceField) -> FieldModel
    decreases f,
{
    FieldModel {
        name: f.field_name@,
        data_type: match f.field_type.type_ {
            FieldType::Primitive(p) => primitive_type_model(p),
            FieldType::Struct(s) => TypeModel::Struct(source_fields_model(s.fields)),
        },
        nullable: f.nullable,
    }
}

pub open spec fn source_fields_model(v: Vec<SourceField>) -> Seq<FieldModel>
    decreases v,
{
    Seq::new(
        v.len() as nat,
        |i: int|
            if 0 <= i < v.len() {
                source_field_model(v[i])
            } else {
                arbitrary()
            },
    )
}

pub fn primitive_data_type(p: PrimitiveType) -> (r: DataType)
    ensures
        r@ == primitive_type_model(p),
{
    match p {
        PrimitiveType::Int32 => DataType::Int32,
        PrimitiveType::Int64 => DataType::Int64,
        PrimitiveType::UInt32 => DataType::UInt32,
        PrimitiveType::UInt64 => DataType::UInt64,
        PrimitiveType::F32 => DataType::Float32,
        PrimitiveType::F64 => DataType::Float64,
        PrimitiveType::Bool => DataType::Boolean,
        PrimitiveType::String => DataType::Utf8,
        PrimitiveType::Bytes => DataType::Binary,
        PrimitiveType::UnixMillis => DataType::Timestamp(TimeUnit::Millisecond, None),
        PrimitiveType::UnixMicros => DataType::Timestamp(TimeUnit::Microsecond, None),
        PrimitiveType::UnixNanos => DataType::Timestamp(TimeUnit::Nanosecond, None),
        PrimitiveType::DateTime => DataType::Timestamp(TimeUnit::Microsecond, None),
        PrimitiveType::Json => DataType::Utf8,
    }
}

impl SourceField {
    /// The column this field describes; nested records become struct
    /// columns.
    pub fn to_field(&self) -> (r: Field)
        ensures
            r@ == source_field_model(*self),
        decreases self,
    {
        let t = match &self.field_type.type_ {
            FieldType::Primitive(p) => primitive_data_type(*p),
            FieldType::Struct(s) => {
                let fs = source_fields_to(&s.fields);
                proof {
                    assert(crate::schema::vec_fields_model(fs) =~= source_fields_model(s.fields));
                }
                DataType::Struct(fs)
            },
        };
        Field { name: self.field_name.clone(), data_type: t, nullable: self.nullable }
    }
}

/// The columns a list of connection-schema fields describes, in order.
pub fn source_fields_to(v: &Vec<SourceField>) -> (r: Vec<Field>)
    ensures
        r@.len() == v@.len(),
        forall|i: int| 0 <= i < v@.len() ==> (#[trigger] r@[i])@ == source_field_model(v@[i]),
    decreases v,
{
    let mut r: Vec<Field> = Vec::new();
    let mut i: usize = 0;
    while i < v.len()
        invariant
            i <= v.len(),
            r@.len() == i,
            forall|j: int| 0 <= j < i ==> (#[trigger] r@[j])@ == source_field_model(v@[j]),
        decreases v.len() - i,
    {
        assert(decreases_to!(*v => v[i as int]));
        r.push(v[i].to_field());
        i = i + 1;
    }
    r
}

/// The SQL spelling of a primitive type.
pub open spec fn primitive_sql(p: PrimitiveType) -> Seq<char> {
    match p {
        PrimitiveType::Int32 => "INTEGER"@,
        PrimitiveType::Int64 => "BIGINT"@,
        PrimitiveType::UInt32 => "INTEGER UNSIGNED"@,
        PrimitiveType::UInt64 => "BIGINT UNSIGNED"@,
        PrimitiveType::F32 => "FLOAT"@,
        PrimitiveType::F64 => "DOUBLE"@,
        PrimitiveType::Bool => "BOOLEAN"@,
        PrimitiveType::String => "TEXT"@,
        PrimitiveType::Bytes => "BINARY"@,
        PrimitiveType::UnixMillis => "TIMESTAMP"@,
        PrimitiveType::UnixMicros => "TIMESTAMP"@,
        PrimitiveType::UnixNanos => "TIMESTAMP"@,
        PrimitiveType::DateTime => "TIMESTAMP"@,
        PrimitiveType::Json => "JSONB"@,
    }
}

/// The SQL spelling of a primitive type.
pub fn primitive_to_sql(p: PrimitiveType) -> (r: &'static str)
    ensures
        r@ == primitive_sql(p),
{
    match p {
        PrimitiveType::Int32 => "INTEGER",
        PrimitiveType::Int64 => "BIGINT",
        PrimitiveType::UInt32 => "INTEGER UNSIGNED",
        PrimitiveType::UInt64 => "BIGINT UNSIGNED",
        PrimitiveType::F32 => "FLOAT",
        PrimitiveType::F64 => "DOUBLE",
        PrimitiveType::Bool => "BOOLEAN",
        PrimitiveType::String => "TEXT",
        PrimitiveType::Bytes => "BINARY",
        PrimitiveType::UnixMillis => "TIMESTAMP",
        PrimitiveType::UnixMicros => "TIMESTAMP",
        PrimitiveType::UnixNanos => "TIMESTAMP",
        PrimitiveType::DateTime => "TIMESTAMP",
        PrimitiveType::Json => "JSONB",
    }
}

/// The primitive a column type reads as, for the types that have one.
pub open spec fn primitive_of(t: TypeModel) -> Option<PrimitiveType> {
    match t {
        TypeModel::Boolean => Some(PrimitiveType::Bool),
        TypeModel::Int32 => Some(PrimitiveType::Int32),
        TypeModel::Int64 => Some(PrimitiveType::Int64),
        TypeModel::UInt32 => Some(PrimitiveType::UInt32),
        TypeModel::UInt64 => Some(PrimitiveType::UInt64),
        TypeModel::Float32 => Some(PrimitiveType::F32),
        TypeModel::Float64 => Some(PrimitiveType::F64),
        TypeModel::Binary => Some(PrimitiveType::Bytes),
        TypeModel::LargeBinary => Some(PrimitiveType::Bytes),
        TypeModel::Timestamp(TimeUnit::Millisecond, _) => Some(PrimitiveType::UnixMillis),
        TypeModel::Timestamp(TimeUnit::Microsecond, _) => Some(PrimitiveType::UnixMicros),
        TypeModel::Timestamp(TimeUnit::Nanosecond, _) => Some(PrimitiveType::UnixNanos),
        TypeModel::Utf8 => Some(PrimitiveType::String),
        _ => None,
    }
}

/// The first column type, depth first, that a connection schema cannot
/// describe.
pub open spec fn first_unsupported(f: FieldModel) -> Option<TypeModel>
    decreases f,
{
    match f.data_type {
        TypeModel::Struct(fs) => first_unsupported_in(fs, 0),
        t => if primitive_of(t) is Some {
            None
        } else {
            Some(t)
        },
    }
}

pub open spec fn first_unsupported_in(fs: Seq<FieldModel>, i: int) -> Option<TypeModel>
    decreases fs, fs.len() - i,
{
    if 0 <= i < fs.len() {
        match first_unsupported(fs[i]) {
            Some(t) => Some(t),
            None => first_unsupported_in(fs, i + 1),
        }
    } else {
        None
    }
}

/// The name `Debug` gives a time unit.
pub open spec fn unit_debug(u: TimeUnit) -> Seq<char> {
    match u {
        TimeUnit::Second => "Second"@,
        TimeUnit::Millisecond => "Millisecond"@,
        TimeUnit::Microsecond => "Microsecond"@,
        TimeUnit::Nanosecond => "Nanosecond"@,
    }
}

/// How a column type is named in error messages, as arrow's `Debug` prints it.
pub open spec fn type_debug(t: TypeModel) -> Seq<char> {
    match t {
        TypeModel::Null => "Null"@,
        TypeModel::Boolean => "Boolean"@,
        TypeModel::Int8 => "Int8"@,
        TypeModel::Int16 => "Int16"@,
        TypeModel::Int32 => "Int32"@,
        TypeModel::Int64 => "Int64"@,
        TypeModel::UInt8 => "UInt8"@,
        TypeModel::UInt16 => "UInt16"@,
        TypeModel::UInt32 => "UInt32"@,
        TypeModel::UInt64 => "UInt64"@,
        TypeModel::Float16 => "Float16"@,
        TypeModel::Float32 => "Float32"@,
        TypeModel::Float64 => "Float64"@,
        TypeModel::Timestamp(u, None) => "Timestamp("@ + unit_debug(u) + ", None)"@,
        TypeModel::Timestamp(u, Some(z)) => "Timestamp("@ + unit_debug(u) + ", Some("@ + str_debug(z) + "))"@,
        TypeModel::Date32 => "Date32"@,
        TypeModel::Date64 => "Date64"@,
        TypeModel::Binary => "Binary"@,
        TypeModel::LargeBinary => "LargeBinary"@,
        TypeModel::Utf8 => "Utf8"@,
        TypeModel::LargeUtf8 => "LargeUtf8"@,
        TypeModel::Struct(_) => "Struct"@,
        TypeModel::Other { debug, .. } => debug,
    }
}

/// What `Debug` prints for a string: the text quoted, with escapes.
pub uninterp spec fn str_debug(s: Seq<char>) -> Seq<char>;

/// Relies on `str`'s `Debug`: the quoted, escaped text depends on the
/// characters alone.
#[verifier::external_body]
fn quoted(s: &String) -> (r: String)
    ensures
        r@ == str_debug(s@),
{
    format!("{:?}", s)
}

fn unit_debug_text(u: TimeUnit) -> (r: &'static str)
    ensures
        r@ == unit_debug(u),
{
    match u {
        TimeUnit::Second => "Second",
        TimeUnit::Millisecond => "Millisecond",
        TimeUnit::Microsecond => "Microsecond",
        TimeUnit::Nanosecond => "Nanosecond",
    }
}

/// `s` is the connection-schema field that describes column `f`.
pub open spec fn describes(s: SourceField, f: FieldModel) -> bool
    decreases f,
{
    &&& s.field_name@ == f.name
    &&& s.nullable == f.nullable
    &&& match f.data_type {
        TypeModel::Struct(fs) => match s.field_type.type_ {
            FieldType::Struct(st) => {
                &&& st.name is None
                &&& st.fields@.len() == fs.len()
                &&& forall|i: int| 0 <= i < fs.len() ==> describes(#[trigger] st.fields@[i], fs[i])
                &&& s.field_type.sql_name is None
            },
            _ => false,
        },
        t => {
            &&& s.field_type.type_ == FieldType::Primitive(primitive_of(t)->Some_0)
            &&& s.field_type.sql_name is Some
            &&& s.field_type.sql_name->Some_0@ == primitive_sql(primitive_of(t)->Some_0)
        },
    }
}

fn type_debug_text(t: &DataType) -> (r: String)
    ensures
        r@ == type_debug(t@),
{
    match t {
        DataType::Null => String::from_str("Null"),
        DataType::Boolean => String::from_str("Boolean"),
        DataType::Int8 => String::from_str("Int8"),
        DataType::Int16 => String::from_str("Int16"),
        DataType::Int32 => String::from_str("Int32"),
        DataType::Int64 => String::from_str("Int64"),
        DataType::UInt8 => String::from_str("UInt8"),
        DataType::UInt16 => String::from_str("UInt16"),
        DataType::UInt32 => String::from_str("UInt32"),
        DataType::UInt64 => String::from_str("UInt64"),
        DataType::Float16 => String::from_str("Float16"),
        DataType::Float32 => String::from_str("Float32"),
        DataType::Float64 => String::from_str("Float64"),
        DataType::Timestamp(u, tz) => {
            let mut r = String::from_str("Timestamp(");
            r.append(unit_debug_text(*u));
            match tz {
                None => r.append(", None)"),
                Some(z) => {
                    r.append(", Some(");
                    let q = quoted(z);
                    r.append(q.as_str());
                    r.append("))");
                },
            }
            r
        },
        DataType::Date32 => String::from_str("Date32"),
        DataType::Date64 => String::from_str("Date64"),
        DataType::Binary => String::from_str("Binary"),
        DataType::LargeBinary => String::from_str("LargeBinary"),
        DataType::Utf8 => String::from_str("Utf8"),
        DataType::LargeUtf8 => String::from_str("LargeUtf8"),
        DataType::Struct(_) => String::from_str("Struct"),
        DataType::Other { debug, .. } => debug.clone(),
    }
}

/// The message for a column type a connection schema cannot describe.
pub open spec fn unsupported_message(t: TypeModel) -> Seq<char> {
    "Unsupported data type "@ + type_debug(t)
}

proof fn lemma_unsupported_skip(fs: Seq<FieldModel>, i: int)
    requires
        0 <= i <= fs.len(),
        forall|j: int| 0 <= j < i ==> first_unsupported(#[trigger] fs[j]) is None,
    ensures
        first_unsupported_in(fs, 0) == first_unsupported_in(fs, i),
    decreases i,
{
    if i > 0 {
        lemma_unsupported_skip(fs, i - 1);
    }
}

impl SourceField {
    /// The connection-schema field describing a column; fails on the first
    /// column type, depth first, that has no primitive or record form.
    pub fn try_from_field(f: &Field) -> (r: Result<SourceField, String>)
        ensures
            match r {
                Ok(s) => first_unsupported(f@) is None && describes(s, f@),
                Err(m) => first_unsupported(f@) is Some && m@ == unsupported_message(
                    first_unsupported(f@)->Some_0,
                ),
            },
        decreases f,
    {
        let type_ = match &f.data_type {
            DataType::Boolean => FieldType::Primitive(PrimitiveType::Bool),
            DataType::Int32 => FieldType::Primitive(PrimitiveType::Int32),
            DataType::Int64 => FieldType::Primitive(PrimitiveType::Int64),
            DataType::UInt32 => FieldType::Primitive(PrimitiveType::UInt32),
            DataType::UInt64 => FieldType::Primitive(PrimitiveType::UInt64),
            DataType::Float32 => FieldType::Primitive(PrimitiveType::F32),
            DataType::Float64 => FieldType::Primitive(PrimitiveType::F64),
            DataType::Binary => FieldType::Primitive(PrimitiveType::Bytes),
            DataType::LargeBinary => FieldType::Primitive(PrimitiveType::Bytes),
            DataType::Timestamp(TimeUnit::Millisecond, _) => FieldType::Primitive(PrimitiveType::UnixMillis),
            DataType::Timestamp(TimeUnit::Microsecond, _) => FieldType::Primitive(PrimitiveType::UnixMicros),
            DataType::Timestamp(TimeUnit::Nanosecond, _) => FieldType::Primitive(PrimitiveType::UnixNanos),
            DataType::Utf8 => FieldType::Primitive(PrimitiveType::String),
            DataType::Struct(fields) => {
                match source_fields_from(fields) {
                    Ok(v) => FieldType::Struct(StructType { name: None, fields: v }),
                    Err(m) => {
                        return Err(m);
                    },
                }
            },
            dt => {
                let mut m = String::from_str("Unsupported data type ");
                let d = type_debug_text(dt);
                m.append(d.as_str());
                return Err(m);
            },
        };
        let sql_name = match &type_ {
            FieldType::Primitive(pt) => Some(String::from_str(primitive_to_sql(*pt))),
            _ => None,
        };
        Ok(
            SourceField {
                field_name: f.name.clone(),
                field_type: SourceFieldType { type_, sql_name },
                nullable: f.nullable,
            },
        )
    }
}

/// The connection-schema fields describing a list of columns, or the
/// message for the first column type, depth first, that cannot be described.
pub fn source_fields_from(v: &Vec<Field>) -> (r: Result<Vec<SourceField>, String>)
    ensures
        match r {
            Ok(s) => {
                &&& first_unsupported_in(vec_fields_model(*v), 0) is None
                &&& s@.len() == v@.len()
                &&& forall|i: int| 0 <= i < v@.len() ==> describes(#[trigger] s@[i], v@[i]@)
            },
            Err(m) => first_unsupported_in(vec_fields_model(*v), 0) is Some && m@ == unsupported_message(
                first_unsupported_in(vec_fields_model(*v), 0)->Some_0,
            ),
        },
    decreases v,
{
    let ghost fs = vec_fields_model(*v);
    let mut r: Vec<SourceField> = Vec::new();
    let mut i: usize = 0;
    while i < v.len()
        invariant
            i <= v.len(),
            fs == vec_fields_model(*v),
            r@.len() == i,
            forall|j: int| 0 <= j < i ==> describes(#[trigger] r@[j], v@[j]@),
            forall|j: int| 0 <= j < i ==> first_unsupported(#[trigger] fs[j]) is None,
        decreases v.len() - i,
    {
        assert(decreases_to!(*v => v[i as int]));
        assert(fs[i as int] == v@[i as int]@);
        match SourceField::try_from_field(&v[i]) {
            Ok(s) => {
                r.push(s);
            },
            Err(m) => {
                proof {
                    lemma_unsupported_skip(fs, i as int);
                }
                return Err(m);
            },
        }
        i = i + 1;
    }
    proof {
        lemma_unsupported_skip(fs, i as int);
    }
    Ok(r)
}

/// How a connection encodes records.
#[derive(Clone, Copy, Debug, PartialEq, Eq, Structural)]
pub enum Format {
    Json,
    Avro,
    Parquet,
    RawString,
}

/// What to do with records that do not decode.
#[derive(Clone, Copy, Debug, PartialEq, Eq, Structural)]
pub enum BadData {
    Fail,
    Drop,
}

/// How records are delimited in a byte stream.
#[derive(Clone, Copy, Debug, PartialEq, Eq, Structural)]
pub enum Framing {
    Newline { max_line_length: Option<u64> },
}

/// A schema given in an external schema language.
#[derive(Clone, Debug, PartialEq, Eq)]
pub enum SchemaDefinition {
    JsonSchema(String),
    ProtobufSchema(String),
    AvroSchema(String),
    RawSchema(String),
}

/// The schema of a connection table.
#[derive(Debug, PartialEq, Eq)]
pub struct ConnectionSchema {
    pub format: Option<Format>,
    pub bad_data: Option<BadData>,
    pub framing: Option<Framing>,
    pub struct_name: Option<String>,
    pub fields: Vec<SourceField>,
    pub definition: Option<SchemaDefinition>,
    pub inferred: Option<bool>,
}

/// The one field a raw-string schema may have: a text column `value`.
pub open spec fn single_text_value(fields: Seq<SourceField>) -> bool {
    &&& fields.len() == 1
    &&& fields[0].field_type.type_ == FieldType::Primitive(PrimitiveType::String)
    &&& fields[0].field_name@ == "value"@
}

/// A raw-string schema has exactly the one text field `value`.
pub open spec fn schema_valid(s: ConnectionSchema) -> bool {
    s.format == Some(Format::RawString) ==> single_text_value(s.fields@)
}

pub open spec fn raw_string_message() -> Seq<char> {
    "raw_string format requires a schema with a single field called `value` of type TEXT"@
}

impl ConnectionSchema {
    /// Builds and validates a schema.
    pub fn try_new(
        format: Option<Format>,
        bad_data: Option<BadData>,
        framing: Option<Framing>,
        struct_name: Option<String>,
        fields: Vec<SourceField>,
        definition: Option<SchemaDefinition>,
        inferred: Option<bool>,
    ) -> (r: Result<Self, String>)
        ensures
            ({
                let s = ConnectionSchema {
                    format,
                    bad_data,
                    framing,
                    struct_name,
                    fields,
                    definition,
                    inferred,
                };
                match r {
                    Ok(v) => schema_valid(s) && v == s,
                    Err(m) => !schema_valid(s) && m@ == raw_string_message(),
                }
            }),
    {
        let s = ConnectionSchema { format, bad_data, framing, struct_name, fields, definition, inferred };
        s.validate()
    }

    /// Accepts the schema unless it is raw-string with other than the one
    /// text field `value`.
    pub fn validate(self) -> (r: Result<Self, String>)
        ensures
            match r {
                Ok(v) => schema_valid(self) && v == self,
                Err(m) => !schema_valid(self) && m@ == raw_string_message(),
            },
    {
        proof {
            reveal_strlit("value");
        }
        let raw = match self.format {
            Some(Format::RawString) => true,
            _ => false,
        };
        if raw {
            let ok = self.fields.len() == 1 && match self.fields[0].field_type.type_ {
                FieldType::Primitive(PrimitiveType::String) => true,
                _ => false,
            } && self.fields[0].field_name == String::from_str("value");
            if !ok {
                return Err(
                    String::from_str(
                        "raw_string format requires a schema with a single field called `value` of type TEXT",
                    ),
                );
            }
        }
        Ok(self)
    }

    /// The streaming schema of this connection's columns, with a
    /// `_timestamp` column appended when none is declared.
    pub fn arroyo_schema(&self) -> (r: ArroyoSchema)
        ensures
            ({
                let cols = source_fields_model(self.fields);
                &&& r@.fields == if has_timestamp(cols) {
                    cols
                } else {
                    cols.push(timestamp_field_model())
                }
                &&& first_timestamp(r@.fields, r.timestamp_index as int)
                &&& r.key_indices@.len() == 0
                &&& r@.wf()
            }),
    {
        let fields = source_fields_to(&self.fields);
        proof {
            assert(fields_model(fields@) =~= source_fields_model(self.fields));
        }
        ArroyoSchema::from_fields(fields)
    }
}

impl ConnectionType {
    /// The connection type a lower-cased name denotes; `given` is the
    /// name as given, for the error message.
    pub fn from_lowercase(lowered: &String, given: &String) -> (r: Result<ConnectionType, String>)
        ensures
            r == connection_type_of(lowered@) || (r is Err && connection_type_of(lowered@) is Err),
            r is Err ==> r->Err_0@ == "Invalid connection type: "@ + given@,
    {
        if *lowered == String::from_str("source") {
            Ok(ConnectionType::Source)
        } else if *lowered == String::from_str("sink") {
            Ok(ConnectionType::Sink)
        } else {
            let mut m = String::from_str("Invalid connection type: ");
            m.append(given.as_str());
            Err(m)
        }
    }

    /// Parses a connection type, ignoring case.
    pub fn try_from(value: String) -> (r: Result<ConnectionType, String>)
        ensures
            r is Ok ==> r == connection_type_of(lower_of(value@)),
            r is Err ==> connection_type_of(lower_of(value@)) is Err && r->Err_0@
                == "Invalid connection type: "@ + value@,
    {
        let lowered = lowercase(&value);
        ConnectionType::from_lowercase(&lowered, &value)
    }

    /// The upper-case SQL keyword for this type.
    pub fn to_string(&self) -> (r: String)
        ensures
            r@ == match self {
                ConnectionType::Source => "SOURCE"@,
                ConnectionType::Sink => "SINK"@,
            },
    {
        match self {
            ConnectionType::Source => String::from_str("SOURCE"),
            ConnectionType::Sink => String::from_str("SINK"),
        }
    }
}

/// The connection type a lower-case name denotes.
pub open spec fn connection_type_of(lowered: Seq<char>) -> Result<ConnectionType, String> {
    if lowered == "source"@ {
        Ok(ConnectionType::Source)
    } else if lowered == "sink"@ {
        Ok(ConnectionType::Sink)
    } else {
        Err(arbitrary())
    }
}

/// What `str::to_lowercase` returns.
pub uninterp spec fn lower_of(s: Seq<char>) -> Seq<char>;

/// Relies on `str::to_lowercase`: the result depends on the characters alone.
#[verifier::external_body]
fn lowercase(s: &String) -> (r: String)
    ensures
        r@ == lower_of(s@),
{
    s.to_lowercase()
}

/// Saved connection settings shared by tables of one connector.
#[derive(Debug)]
pub struct ConnectionProfile {
    pub id: String,
    pub name: String,
    pub connector: String,
    pub config: serde_json::Value,
    pub description: String,
}

/// A request to save connection settings.
#[derive(Debug)]
pub struct ConnectionProfilePost {
    pub name: String,
    pub connector: String,
    pub config: serde_json::Value,
}

/// A table bound to a connector.
#[derive(Debug)]
pub struct ConnectionTable {
    pub id: i64,
    pub pub_id: String,
    pub name: String,
    pub created_at: u64,
    pub connector: String,
    pub connection_profile: Option<ConnectionProfile>,
    pub table_type: ConnectionType,
    pub config: serde_json::Value,
    pub schema: ConnectionSchema,
    pub consumers: u32,
}

/// A request to create a connection table.
#[derive(Debug)]
pub struct ConnectionTablePost {
    pub name: String,
    pub connector: String,
    pub connection_profile_id: Option<String>,
    pub config: serde_json::Value,
    pub schema: Option<ConnectionSchema>,
}

/// Values offered for completing a connection's configuration, by key.
#[derive(Clone, Debug, PartialEq, Eq)]
pub struct ConnectionAutocompleteResp {
    pub values: std::collections::BTreeMap<String, Vec<String>>,
}

/// A progress message from testing a source.
#[derive(Clone, Debug, PartialEq, Eq)]
pub struct TestSourceMessage {
    pub error: bool,
    pub done: bool,
    pub message: String,
}

impl TestSourceMessage {
    /// An intermediate, successful message.
    pub fn info(message: String) -> (r: Self)
        ensures
            r == (TestSourceMessage { error: false, done: false, message }),
    {
        TestSourceMessage { error: false, done: false, message }
    }

    /// An intermediate error.
    pub fn error(message: String) -> (r: Self)
        ensures
            r == (TestSourceMessage { error: true, done: false, message }),
    {
        TestSourceMessage { error: true, done: false, message }
    }

    /// The final, successful message.
    pub fn done(message: String) -> (r: Self)
        ensures
            r == (TestSourceMessage { error: false, done: true, message }),
    {
        TestSourceMessage { error: false, done: true, message }
    }

    /// The final message of a failed test.
    pub fn fail(message: String) -> (r: Self)
        ensures
            r == (TestSourceMessage { error: true, done: true, message }),
    {
        TestSourceMessage { error: true, done: true, message }
    }
}

/// A schema fetched from a schema registry.
#[derive(Clone, Debug, PartialEq, Eq)]
pub struct ConfluentSchema {
    pub schema: String,
}

/// Where to fetch a registry schema from.
#[derive(Clone, Debug, PartialEq, Eq)]
pub struct ConfluentSchemaQueryParams {
    pub endpoint: String,
    pub topic: String,
}

} // verus!
