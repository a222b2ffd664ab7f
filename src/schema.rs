//! Column types, fields and the streaming schema that every edge carries.
use vstd::prelude::*;
use vstd::string::StringExecFns;

verus! {

/// Resolution of a timestamp column.
#[derive(Clone, Copy, Debug, PartialEq, Eq, Structural)]
pub enum TimeUnit {
    Second,
    Millisecond,
    Microsecond,
    Nanosecond,
}

/// The column types a schema can carry.
#[derive(Debug, PartialEq, Eq)]
pub enum DataType {
    Null,
    Boolean,
    Int8,
    Int16,
    Int32,
    Int64,
    UInt8,
    UInt16,
    UInt32,
    UInt64,
    Float16,
    Float32,
    Float64,
    Timestamp(TimeUnit, Option<String>),
    Date32,
    Date64,
    Binary,
    LargeBinary,
    Utf8,
    LargeUtf8,
    Struct(Vec<Field>),
    /// Any other arrow type, carried unread: its JSON form and the text its
    /// `Debug` prints.
    Other { json: String, debug: String },
}

/// A named, typed column.
#[derive(Debug, PartialEq, Eq)]
pub struct Field {
    pub name: String,
    pub data_type: DataType,
    pub nullable: bool,
}

/// Mathematical model of a [`DataType`].
pub enum TypeModel {
    Null,
    Boolean,
    Int8,
    Int16,
    Int32,
    Int64,
    UInt8,
    UInt16,
    UInt32,
    UInt64,
    Float16,
    Float32,
    Float64,
    Timestamp(TimeUnit, Option<Seq<char>>),
    Date32,
    Date64,
    Binary,
    LargeBinary,
    Utf8,
    LargeUtf8,
    Struct(Seq<FieldModel>),
    Other { json: Seq<char>, debug: Seq<char> },
}

/// Mathematical model of a [`Field`].
pub struct FieldModel {
    pub name: Seq<char>,
    pub data_type: TypeModel,
    pub nullable: bool,
}

pub open spec fn type_model(t: DataType) -> TypeModel
    decreases t,
{
    match t {
        DataType::Null => TypeModel::Null,
        DataType::Boolean => TypeModel::Boolean,
        DataType::Int8 => TypeModel::Int8,
        DataType::Int16 => TypeModel::Int16,
        DataType::Int32 => TypeModel::Int32,
        DataType::Int64 => TypeModel::Int64,
        DataType::UInt8 => TypeModel::UInt8,
        DataType::UInt16 => TypeModel::UInt16,
        DataType::UInt32 => TypeModel::UInt32,
        DataType::UInt64 => TypeModel::UInt64,
        DataType::Float16 => TypeModel::Float16,
        DataType::Float32 => TypeModel::Float32,
        DataType::Float64 => TypeModel::Float64,
        DataType::Timestamp(u, tz) => TypeModel::Timestamp(
            u,
            match tz {
                Some(z) => Some(z@),
                None => None,
            },
        ),
        DataType::Date32 => TypeModel::Date32,
        DataType::Date64 => TypeModel::Date64,
        DataType::Binary => TypeModel::Binary,
        DataType::LargeBinary => TypeModel::LargeBinary,
        DataType::Utf8 => TypeModel::Utf8,
        DataType::LargeUtf8 => TypeModel::LargeUtf8,
        DataType::Struct(fs) => TypeModel::Struct(vec_fields_model(fs)),
        DataType::Other { json, debug } => TypeModel::Other { json: json@, debug: debug@ },
    }
}

pub open spec fn vec_fields_model(fs: Vec<Field>) -> Seq<FieldModel>
    decreases fs,
{
    Seq::new(
        fs.len() as nat,
        |i: int|
            if 0 <= i < fs.len() {
                field_model(fs[i])
            } else {
                arbitrary()
            },
    )
}

pub open spec fn field_model(f: Field) -> FieldModel
    decreases f,
{
    FieldModel { name: f.name@, data_type: type_model(f.data_type), nullable: f.nullable }
}

impl View for DataType {
    type V = TypeModel;

    open spec fn view(&self) -> TypeModel {
        type_model(*self)
    }
}

impl View for Field {
    type V = FieldModel;

    open spec fn view(&self) -> FieldModel {
        field_model(*self)
    }
}

/// Name of the event-time column that every streaming schema carries.
pub open spec fn timestamp_name() -> Seq<char> {
    "_timestamp"@
}

pub fn copy_option_string(s: &Option<String>) -> (r: Option<String>)
    ensures
        match (r, *s) {
            (Some(a), Some(b)) => a@ == b@,
            (None, None) => true,
            _ => false,
        },
{
    match s {
        Some(z) => Some(z.clone()),
        None => None,
    }
}

/// Models of a sequence of fields.
pub open spec fn fields_model(fs: Seq<Field>) -> Seq<FieldModel> {
    fs.map_values(|f: Field| f@)
}

/// Models of a sequence of types.
pub open spec fn types_model(ts: Seq<DataType>) -> Seq<TypeModel> {
    ts.map_values(|t: DataType| t@)
}

pub proof fn lemma_types_model_push(ts: Seq<DataType>, t: DataType)
    ensures
        types_model(ts.push(t)) == types_model(ts).push(t@),
{
    assert(types_model(ts.push(t)) =~= types_model(ts).push(t@));
}

pub proof fn lemma_fields_model_push(fs: Seq<Field>, f: Field)
    ensures
        fields_model(fs.push(f)) == fields_model(fs).push(f@),
{
    assert(fields_model(fs.push(f)) =~= fields_model(fs).push(f@));
}

impl DataType {
    /// A structurally equal copy of this type.
    pub fn duplicate(&self) -> (r: DataType)
        ensures
            r@ == self@,
        decreases self,
    {
        match self {
            DataType::Null => DataType::Null,
            DataType::Boolean => DataType::Boolean,
            DataType::Int8 => DataType::Int8,
            DataType::Int16 => DataType::Int16,
            DataType::Int32 => DataType::Int32,
            DataType::Int64 => DataType::Int64,
            DataType::UInt8 => DataType::UInt8,
            DataType::UInt16 => DataType::UInt16,
            DataType::UInt32 => DataType::UInt32,
            DataType::UInt64 => DataType::UInt64,
            DataType::Float16 => DataType::Float16,
            DataType::Float32 => DataType::Float32,
            DataType::Float64 => DataType::Float64,
            DataType::Timestamp(u, tz) => DataType::Timestamp(*u, copy_option_string(tz)),
            DataType::Date32 => DataType::Date32,
            DataType::Date64 => DataType::Date64,
            DataType::Binary => DataType::Binary,
            DataType::LargeBinary => DataType::LargeBinary,
            DataType::Utf8 => DataType::Utf8,
            DataType::LargeUtf8 => DataType::LargeUtf8,
            DataType::Other { json, debug } => DataType::Other { json: json.clone(), debug: debug.clone() },
            DataType::Struct(fs) => {
                let r = copy_fields(fs);
                assert(vec_fields_model(r) =~= vec_fields_model(*fs));
                DataType::Struct(r)
            },
        }
    }
}

impl Field {
    pub fn new(name: String, data_type: DataType, nullable: bool) -> (r: Field)
        ensures
            r == (Field { name, data_type, nullable }),
    {
        Field { name, data_type, nullable }
    }

    /// A structurally equal copy of this field.
    pub fn duplicate(&self) -> (r: Field)
        ensures
            r@ == self@,
        decreases self,
    {
        Field { name: self.name.clone(), data_type: self.data_type.duplicate(), nullable: self.nullable }
    }
}

/// A copy of a field list whose models equal those of `fs`.
pub fn copy_fields(fs: &Vec<Field>) -> (r: Vec<Field>)
    ensures
        fields_model(r@) == fields_model(fs@),
        r@.len() == fs@.len(),
        forall|j: int| 0 <= j < fs@.len() ==> (#[trigger] r@[j])@ == fs@[j]@,
    decreases fs,
{
    let mut r: Vec<Field> = Vec::new();
    let mut i: usize = 0;
    while i < fs.len()
        invariant
            i <= fs.len(),
            r@.len() == i,
            forall|j: int| 0 <= j < i ==> (#[trigger] r@[j])@ == fs@[j]@,
        decreases fs.len() - i,
    {
        assert(decreases_to!(*fs => fs[i as int]));
        r.push(fs[i].duplicate());
        i = i + 1;
    }
    assert(fields_model(r@) =~= fields_model(fs@));
    r
}

/// Whether a column name is the event-time column's.
pub fn is_timestamp_name(name: &String) -> (r: bool)
    ensures
        r == (name@ == timestamp_name()),
{
    let t = String::from_str("_timestamp");
    *name == t
}

/// The event-time column appended to schemas that lack one.
pub fn timestamp_field() -> (r: Field)
    ensures
        r@ == timestamp_field_model(),
{
    Field::new(String::from_str("_timestamp"), DataType::Timestamp(TimeUnit::Nanosecond, None), false)
}

pub open spec fn timestamp_field_model() -> FieldModel {
    FieldModel {
        name: timestamp_name(),
        data_type: TypeModel::Timestamp(TimeUnit::Nanosecond, None),
        nullable: false,
    }
}

/// Some column of `fs` is named `_timestamp`.
pub open spec fn has_timestamp(fs: Seq<FieldModel>) -> bool {
    exists|i: int| 0 <= i < fs.len() && (#[trigger] fs[i]).name == timestamp_name()
}

/// `i` is the first column of `fs` named `_timestamp`.
pub open spec fn first_timestamp(fs: Seq<FieldModel>, i: int) -> bool {
    &&& 0 <= i < fs.len()
    &&& fs[i].name == timestamp_name()
    &&& forall|j: int| 0 <= j < i ==> (#[trigger] fs[j]).name != timestamp_name()
}

/// Position of the first column named `_timestamp`, if there is one.
pub fn find_timestamp(fs: &Vec<Field>) -> (r: Option<usize>)
    ensures
        match r {
            Some(i) => first_timestamp(fields_model(fs@), i as int),
            None => !has_timestamp(fields_model(fs@)),
        },
{
    let mut i: usize = 0;
    while i < fs.len()
        invariant
            i <= fs.len(),
            forall|j: int| 0 <= j < i ==> (#[trigger] fields_model(fs@)[j]).name != timestamp_name(),
        decreases fs.len() - i,
    {
        if is_timestamp_name(&fs[i].name) {
            return Some(i);
        }
        i = i + 1;
    }
    None
}

/// Why a schema could not be built.
#[derive(Clone, Copy, Debug, PartialEq, Eq, Structural)]
pub enum SchemaError {
    /// No column is named `_timestamp`.
    MissingTimestamp,
    /// An index does not fit the 32-bit wire form.
    IndexTooLarge,
}

/// An arrow-style field list together with the position of its event-time
/// column and the ordered positions of its key columns.
#[derive(Debug, PartialEq, Eq)]
pub struct ArroyoSchema {
    pub fields: Vec<Field>,
    pub timestamp_index: usize,
    pub key_indices: Vec<usize>,
}

/// Mathematical model of an [`ArroyoSchema`].
pub struct SchemaModel {
    pub fields: Seq<FieldModel>,
    pub timestamp_index: nat,
    pub key_indices: Seq<usize>,
}

impl View for ArroyoSchema {
    type V = SchemaModel;

    open spec fn view(&self) -> SchemaModel {
        SchemaModel {
            fields: fields_model(self.fields@),
            timestamp_index: self.timestamp_index as nat,
            key_indices: self.key_indices@,
        }
    }
}

impl SchemaModel {
    /// The timestamp index names a column called `_timestamp`.
    pub open spec fn wf(self) -> bool {
        &&& self.timestamp_index < self.fields.len()
        &&& self.fields[self.timestamp_index as int].name == timestamp_name()
    }

    /// Every key index names a column.
    pub open spec fn keys_in_range(self) -> bool {
        forall|k: int| 0 <= k < self.key_indices.len() ==> (#[trigger] self.key_indices[k]) < self.fields.len()
    }

    /// Every key index names a column other than the timestamp.
    pub open spec fn keys_valid(self) -> bool {
        forall|k: int|
            0 <= k < self.key_indices.len() ==> {
                &&& (#[trigger] self.key_indices[k]) < self.fields.len()
                &&& self.key_indices[k] != self.timestamp_index
            }
    }
}

/// `fs` with the column at `i` taken out.
pub open spec fn without_column(fs: Seq<FieldModel>, i: int) -> Seq<FieldModel> {
    fs.remove(i)
}

/// The columns of `fs` whose positions are not in `keys`, in order.
pub open spec fn unkeyed_fields(fs: Seq<FieldModel>, keys: Seq<usize>) -> Seq<FieldModel>
    decreases fs.len(),
{
    if fs.len() == 0 {
        Seq::empty()
    } else {
        let last = (fs.len() - 1) as int;
        let rest = unkeyed_fields(fs.drop_last(), keys);
        if keys.contains(last as usize) {
            rest
        } else {
            rest.push(fs[last])
        }
    }
}

/// The positions in `0..n` that are not in `keys`, in order.
pub open spec fn unkeyed_positions(n: nat, keys: Seq<usize>) -> Seq<usize>
    decreases n,
{
    if n == 0 {
        Seq::empty()
    } else {
        let rest = unkeyed_positions((n - 1) as nat, keys);
        if keys.contains((n - 1) as usize) {
            rest
        } else {
            rest.push((n - 1) as usize)
        }
    }
}

/// The types that order rows of this schema: those of the key columns, then
/// the timestamp's when asked for.
pub open spec fn sort_types(s: SchemaModel, with_timestamp: bool) -> Seq<TypeModel> {
    let keys = Seq::new(s.key_indices.len(), |k: int| s.fields[s.key_indices[k] as int].data_type);
    if with_timestamp {
        keys.push(TypeModel::Timestamp(TimeUnit::Nanosecond, None))
    } else {
        keys
    }
}

/// The columns that order rows of this schema: the key columns, then the
/// timestamp when asked for.
pub open spec fn sort_positions(s: SchemaModel, with_timestamp: bool) -> Seq<usize> {
    if with_timestamp {
        s.key_indices.push(s.timestamp_index as usize)
    } else {
        s.key_indices
    }
}

pub fn vec_contains(v: &Vec<usize>, x: usize) -> (r: bool)
    ensures
        r == v@.contains(x),
{
    let mut i: usize = 0;
    while i < v.len()
        invariant
            i <= v.len(),
            forall|j: int| 0 <= j < i ==> v@[j] != x,
        decreases v.len() - i,
    {
        if v[i] == x {
            return true;
        }
        i = i + 1;
    }
    false
}

impl ArroyoSchema {
    pub fn new(fields: Vec<Field>, timestamp_index: usize, key_indices: Vec<usize>) -> (r: Self)
        ensures
            r == (ArroyoSchema { fields, timestamp_index, key_indices }),
    {
        ArroyoSchema { fields, timestamp_index, key_indices }
    }

    /// Builds a schema whose timestamp is the first column named
    /// `_timestamp`; fails when there is none.
    pub fn from_schema_keys(fields: Vec<Field>, key_indices: Vec<usize>) -> (r: Result<
        Self,
        SchemaError,
    >)
        ensures
            match r {
                Ok(s) => {
                    &&& has_timestamp(fields_model(fields@))
                    &&& s.fields == fields
                    &&& s.key_indices == key_indices
                    &&& first_timestamp(fields_model(fields@), s.timestamp_index as int)
                    &&& s@.wf()
                },
                Err(e) => !has_timestamp(fields_model(fields@)) && e == SchemaError::MissingTimestamp,
            },
    {
        match find_timestamp(&fields) {
            Some(timestamp_index) => Ok(ArroyoSchema { fields, timestamp_index, key_indices }),
            None => Err(SchemaError::MissingTimestamp),
        }
    }

    /// Builds an unkeyed schema from a field list, appending a nanosecond
    /// `_timestamp` column when none is present.
    pub fn from_fields(fields: Vec<Field>) -> (r: Self)
        ensures
            r@.fields == (if has_timestamp(fields_model(fields@)) {
                fields_model(fields@)
            } else {
                fields_model(fields@).push(timestamp_field_model())
            }),
            first_timestamp(r@.fields, r.timestamp_index as int),
            r.key_indices@.len() == 0,
            r@.wf(),
            r@.keys_valid(),
    {
        let mut fields = fields;
        let ghost before = fields@;
        if find_timestamp(&fields).is_none() {
            fields.push(timestamp_field());
            assert(fields_model(fields@) =~= fields_model(before).push(timestamp_field_model()));
            assert(fields_model(fields@)[before.len() as int].name == timestamp_name());
        }
        let key_indices: Vec<usize> = Vec::new();
        match ArroyoSchema::from_schema_keys(fields, key_indices) {
            Ok(s) => s,
            Err(_) => {
                // a timestamp column is present at this point
                proof {
                    assert(false);
                }
                ArroyoSchema { fields: Vec::new(), timestamp_index: 0, key_indices: Vec::new() }
            },
        }
    }

    /// The field list without the timestamp column.
    pub fn schema_without_timestamp(&self) -> (r: Vec<Field>)
        requires
            self@.wf(),
        ensures
            fields_model(r@) == without_column(self@.fields, self.timestamp_index as int),
    {
        let ts = self.timestamp_index;
        let mut r: Vec<Field> = Vec::new();
        let mut i: usize = 0;
        while i < ts
            invariant
                i <= ts < self.fields.len(),
                ts == self.timestamp_index,
                fields_model(r@) =~= self@.fields.subrange(0, i as int),
            decreases ts - i,
        {
            let f = self.fields[i].duplicate();
            proof {
                lemma_fields_model_push(r@, f);
            }
            r.push(f);
            i = i + 1;
            assert(fields_model(r@) =~= self@.fields.subrange(0, i as int));
        }
        i = ts + 1;
        while i < self.fields.len()
            invariant
                ts < i <= self.fields.len(),
                ts == self.timestamp_index,
                fields_model(r@) =~= self@.fields.subrange(0, ts as int) + self@.fields.subrange(
                    ts + 1,
                    i as int,
                ),
            decreases self.fields.len() - i,
        {
            let f = self.fields[i].duplicate();
            proof {
                lemma_fields_model_push(r@, f);
            }
            r.push(f);
            i = i + 1;
            assert(fields_model(r@) =~= self@.fields.subrange(0, ts as int) + self@.fields.subrange(
                ts + 1,
                i as int,
            ));
        }
        assert(fields_model(r@) =~= without_column(self@.fields, ts as int));
        r
    }

    /// The schema without its key columns, unkeyed, with the timestamp found
    /// anew by name.
    pub fn schema_without_keys(&self) -> (r: Result<Self, SchemaError>)
        ensures
            match r {
                Ok(s) => {
                    &&& s@.fields == unkeyed_fields(self@.fields, self.key_indices@)
                    &&& first_timestamp(s@.fields, s.timestamp_index as int)
                    &&& s.key_indices@.len() == 0
                },
                Err(e) => {
                    &&& !has_timestamp(unkeyed_fields(self@.fields, self.key_indices@))
                    &&& e == SchemaError::MissingTimestamp
                },
            },
    {
        let mut r: Vec<Field> = Vec::new();
        let mut i: usize = 0;
        while i < self.fields.len()
            invariant
                i <= self.fields.len(),
                fields_model(r@) == unkeyed_fields(self@.fields.take(i as int), self.key_indices@),
            decreases self.fields.len() - i,
        {
            assert(self@.fields.take(i + 1).drop_last() =~= self@.fields.take(i as int));
            if !vec_contains(&self.key_indices, i) {
                let f = self.fields[i].duplicate();
                proof {
                    lemma_fields_model_push(r@, f);
                }
                r.push(f);
            }
            i = i + 1;
        }
        assert(self@.fields.take(i as int) =~= self@.fields);
        match find_timestamp(&r) {
            Some(timestamp_index) => Ok(ArroyoSchema { fields: r, timestamp_index, key_indices: Vec::new() }),
            None => Err(SchemaError::MissingTimestamp),
        }
    }

    /// The column positions of `0..num_columns` that are not keys, in order.
    pub fn unkeyed_columns(&self, num_columns: usize) -> (r: Vec<usize>)
        ensures
            r@ == unkeyed_positions(num_columns as nat, self.key_indices@),
    {
        let mut r: Vec<usize> = Vec::new();
        let mut i: usize = 0;
        while i < num_columns
            invariant
                i <= num_columns,
                r@ == unkeyed_positions(i as nat, self.key_indices@),
            decreases num_columns - i,
        {
            if !vec_contains(&self.key_indices, i) {
                r.push(i);
            }
            i = i + 1;
        }
        r
    }

    /// The columns by which rows are ordered and partitioned: the keys, then
    /// the timestamp when asked for.
    pub fn sort_columns(&self, with_timestamp: bool) -> (r: Vec<usize>)
        ensures
            r@ == sort_positions(self@, with_timestamp),
    {
        let mut r: Vec<usize> = Vec::new();
        let mut i: usize = 0;
        while i < self.key_indices.len()
            invariant
                i <= self.key_indices.len(),
                r@ == self.key_indices@.take(i as int),
            decreases self.key_indices.len() - i,
        {
            r.push(self.key_indices[i]);
            i = i + 1;
            assert(r@ =~= self.key_indices@.take(i as int));
        }
        assert(self.key_indices@.take(i as int) =~= self.key_indices@);
        if with_timestamp {
            r.push(self.timestamp_index);
        }
        r
    }

    /// The column types by which rows are ordered: those of the keys, then a
    /// nanosecond timestamp when asked for.
    pub fn sort_fields(&self, with_timestamp: bool) -> (r: Vec<DataType>)
        requires
            self@.keys_in_range(),
        ensures
            types_model(r@) == sort_types(self@, with_timestamp),
    {
        let mut r: Vec<DataType> = Vec::new();
        let mut i: usize = 0;
        let ghost keys = Seq::new(
            self@.key_indices.len(),
            |k: int| self@.fields[self@.key_indices[k] as int].data_type,
        );
        while i < self.key_indices.len()
            invariant
                i <= self.key_indices.len(),
                self@.keys_in_range(),
                keys == Seq::new(
                    self@.key_indices.len(),
                    |k: int| self@.fields[self@.key_indices[k] as int].data_type,
                ),
                types_model(r@) =~= keys.take(i as int),
            decreases self.key_indices.len() - i,
        {
            let t = self.fields[self.key_indices[i]].data_type.duplicate();
            proof {
                lemma_types_model_push(r@, t);
            }
            r.push(t);
            i = i + 1;
            assert(types_model(r@) =~= keys.take(i as int));
        }
        assert(keys.take(i as int) =~= keys);
        if with_timestamp {
            let t = DataType::Timestamp(TimeUnit::Nanosecond, None);
            proof {
                lemma_types_model_push(r@, t);
            }
            r.push(t);
            assert(types_model(r@) =~= sort_types(self@, with_timestamp));
        }
        r
    }
}

/// The wire form of a schema: the arrow schema as JSON text, and the
/// indices as 32-bit numbers.
#[derive(Clone, Debug, PartialEq, Eq)]
pub struct ArroyoSchemaWire {
    pub arrow_schema: String,
    pub timestamp_index: u32,
    pub key_indices: Vec<u32>,
}

/// Every index fits in 32 bits.
pub open spec fn indices_fit(s: SchemaModel) -> bool {
    &&& s.timestamp_index <= u32::MAX
    &&& forall|k: int| 0 <= k < s.key_indices.len() ==> (#[trigger] s.key_indices[k]) <= u32::MAX
}

pub open spec fn narrow(keys: Seq<usize>) -> Seq<u32> {
    keys.map_values(|k: usize| k as u32)
}

pub open spec fn widen(keys: Seq<u32>) -> Seq<usize> {
    keys.map_values(|k: u32| k as usize)
}

impl ArroyoSchema {
    /// The wire form, given the JSON text of the field list; fails when an
    /// index does not fit in 32 bits.
    pub fn to_wire(&self, arrow_schema: String) -> (r: Result<ArroyoSchemaWire, SchemaError>)
        ensures
            match r {
                Ok(w) => {
                    &&& indices_fit(self@)
                    &&& w.arrow_schema == arrow_schema
                    &&& w.timestamp_index == self.timestamp_index
                    &&& w.key_indices@ == narrow(self.key_indices@)
                },
                Err(e) => !indices_fit(self@) && e == SchemaError::IndexTooLarge,
            },
    {
        if self.timestamp_index > 4_294_967_295 {
            return Err(SchemaError::IndexTooLarge);
        }
        let mut keys: Vec<u32> = Vec::new();
        let mut i: usize = 0;
        while i < self.key_indices.len()
            invariant
                i <= self.key_indices.len(),
                keys@ == narrow(self.key_indices@.take(i as int)),
                forall|k: int| 0 <= k < i ==> (#[trigger] self.key_indices@[k]) <= u32::MAX,
            decreases self.key_indices.len() - i,
        {
            let k = self.key_indices[i];
            if k > 4_294_967_295 {
                assert(self@.key_indices[i as int] > u32::MAX);
                assert(!indices_fit(self@));
                return Err(SchemaError::IndexTooLarge);
            }
            keys.push(k as u32);
            i = i + 1;
            assert(keys@ =~= narrow(self.key_indices@.take(i as int)));
        }
        assert(self.key_indices@.take(i as int) =~= self.key_indices@);
        Ok(
            ArroyoSchemaWire {
                arrow_schema,
                timestamp_index: self.timestamp_index as u32,
                key_indices: keys,
            },
        )
    }

    /// The schema a wire form describes, given the fields its JSON text
    /// decodes to.
    pub fn from_wire(wire: &ArroyoSchemaWire, fields: Vec<Field>) -> (r: ArroyoSchema)
        ensures
            r.fields == fields,
            r.timestamp_index == wire.timestamp_index,
            r.key_indices@ == widen(wire.key_indices@),
    {
        let mut keys: Vec<usize> = Vec::new();
        let mut i: usize = 0;
        while i < wire.key_indices.len()
            invariant
                i <= wire.key_indices.len(),
                keys@ == widen(wire.key_indices@.take(i as int)),
            decreases wire.key_indices.len() - i,
        {
            keys.push(wire.key_indices[i] as usize);
            i = i + 1;
            assert(keys@ =~= widen(wire.key_indices@.take(i as int)));
        }
        assert(wire.key_indices@.take(i as int) =~= wire.key_indices@);
        ArroyoSchema { fields, timestamp_index: wire.timestamp_index as usize, key_indices: keys }
    }
}

/// Sending a schema over the wire and reading it back gives the same
/// timestamp index and the same key indices, in the same order, whenever
/// they fit in 32 bits.
pub proof fn lemma_wire_round_trip(s: SchemaModel)
    requires
        indices_fit(s),
    ensures
        widen(narrow(s.key_indices)) == s.key_indices,
        (s.timestamp_index as u32) as nat == s.timestamp_index,
{
    assert(widen(narrow(s.key_indices)) =~= s.key_indices);
}

/// The server, of `n`, that owns a key hash: the hash range split into `n`
/// equal slices of `u64::MAX / n + 1` hashes, the last one shorter.
pub open spec fn server_of(hash: u64, n: u64) -> u64 {
    if n == 1 {
        0
    } else {
        (hash / ((u64::MAX / n) + 1) as u64) as u64
    }
}

/// The server, of `n`, that owns a key hash.
pub fn server_for_hash(hash: u64, n: u64) -> (r: u64)
    requires
        n >= 1,
    ensures
        r == server_of(hash, n),
        r < n,
{
    if n == 1 {
        return 0;
    }
    assert(u64::MAX / n <= u64::MAX / 2) by (nonlinear_arith)
        requires
            n >= 2,
    ;
    let range_size = u64::MAX / n + 1;
    let r = hash / range_size;
    assert(r < n) by (nonlinear_arith)
        requires
            n >= 2,
            range_size == u64::MAX / n + 1,
            r == hash / range_size,
            hash <= u64::MAX,
    {
        assert(n * range_size > u64::MAX);
        assert(r * range_size <= hash);
    }
    r
}

} // verus!
