use vstd::prelude::*;
use std::collections::HashMap;
use crate::path::{split_dot, split_path, str_eq, strings_view};

verus! {

broadcast use vstd::std_specs::hash::group_hash_axioms;

/// Identifies a named type (record or enum) in a schema set.
#[derive(Debug, Clone, Copy, PartialEq, Eq, Structural, Hash)]
pub struct SchemaFingerprint(pub u128);

impl SchemaFingerprint {
    pub fn from_u128(v: u128) -> (r: SchemaFingerprint)
        ensures
            r.0 == v,
    {
        SchemaFingerprint(v)
    }

    pub fn as_u128(&self) -> (r: u128)
        ensures
            r == self.0,
    {
        self.0
    }
}

/// The type of a property.
#[derive(Debug)]
pub enum Schema {
    Nullable(Box<Schema>),
    Boolean,
    I32,
    I64,
    U32,
    U64,
    F32,
    F64,
    Bytes,
    String,
    /// Item type and fixed length.
    StaticArray(Box<Schema>, usize),
    DynamicArray(Box<Schema>),
    /// Key type and value type.
    Mapping(Box<Schema>, Box<Schema>),
    AssetRef(SchemaFingerprint),
    Record(SchemaFingerprint),
    Enum(SchemaFingerprint),
}

impl Schema {
    pub fn copy_schema(&self) -> (r: Schema)
        ensures
            r == *self,
        decreases self,
    {
        match self {
            Schema::Nullable(i) => Schema::Nullable(Box::new((**i).copy_schema())),
            Schema::Boolean => Schema::Boolean,
            Schema::I32 => Schema::I32,
            Schema::I64 => Schema::I64,
            Schema::U32 => Schema::U32,
            Schema::U64 => Schema::U64,
            Schema::F32 => Schema::F32,
            Schema::F64 => Schema::F64,
            Schema::Bytes => Schema::Bytes,
            Schema::String => Schema::String,
            Schema::StaticArray(i, n) => Schema::StaticArray(Box::new((**i).copy_schema()), *n),
            Schema::DynamicArray(i) => Schema::DynamicArray(Box::new((**i).copy_schema())),
            Schema::Mapping(k, v) => Schema::Mapping(
                Box::new((**k).copy_schema()),
                Box::new((**v).copy_schema()),
            ),
            Schema::AssetRef(f) => Schema::AssetRef(*f),
            Schema::Record(f) => Schema::Record(*f),
            Schema::Enum(f) => Schema::Enum(*f),
        }
    }

    pub fn is_nullable(&self) -> (r: bool)
        ensures
            r == (*self is Nullable),
    {
        match self {
            Schema::Nullable(_) => true,
            _ => false,
        }
    }

    pub fn is_boolean(&self) -> (r: bool)
        ensures
            r == (*self is Boolean),
    {
        match self {
            Schema::Boolean => true,
            _ => false,
        }
    }

    pub fn is_i32(&self) -> (r: bool)
        ensures
            r == (*self is I32),
    {
        match self {
            Schema::I32 => true,
            _ => false,
        }
    }

    pub fn is_i64(&self) -> (r: bool)
        ensures
            r == (*self is I64),
    {
        match self {
            Schema::I64 => true,
            _ => false,
        }
    }

    pub fn is_u32(&self) -> (r: bool)
        ensures
            r == (*self is U32),
    {
        match self {
            Schema::U32 => true,
            _ => false,
        }
    }

    pub fn is_u64(&self) -> (r: bool)
        ensures
            r == (*self is U64),
    {
        match self {
            Schema::U64 => true,
            _ => false,
        }
    }

    pub fn is_f32(&self) -> (r: bool)
        ensures
            r == (*self is F32),
    {
        match self {
            Schema::F32 => true,
            _ => false,
        }
    }

    pub fn is_f64(&self) -> (r: bool)
        ensures
            r == (*self is F64),
    {
        match self {
            Schema::F64 => true,
            _ => false,
        }
    }

    pub fn is_bytes(&self) -> (r: bool)
        ensures
            r == (*self is Bytes),
    {
        match self {
            Schema::Bytes => true,
            _ => false,
        }
    }

    pub fn is_string(&self) -> (r: bool)
        ensures
            r == (*self is String),
    {
        match self {
            Schema::String => true,
            _ => false,
        }
    }

    pub fn is_static_array(&self) -> (r: bool)
        ensures
            r == (*self is StaticArray),
    {
        match self {
            Schema::StaticArray(_, _) => true,
            _ => false,
        }
    }

    pub fn is_dynamic_array(&self) -> (r: bool)
        ensures
            r == (*self is DynamicArray),
    {
        match self {
            Schema::DynamicArray(_) => true,
            _ => false,
        }
    }

    pub fn is_map(&self) -> (r: bool)
        ensures
            r == (*self is Mapping),
    {
        match self {
            Schema::Mapping(_, _) => true,
            _ => false,
        }
    }

    pub fn is_asset_ref(&self) -> (r: bool)
        ensures
            r == (*self is AssetRef),
    {
        match self {
            Schema::AssetRef(_) => true,
            _ => false,
        }
    }

    pub fn is_record(&self) -> (r: bool)
        ensures
            r == (*self is Record),
    {
        match self {
            Schema::Record(_) => true,
            _ => false,
        }
    }

    pub fn is_enum(&self) -> (r: bool)
        ensures
            r == (*self is Enum),
    {
        match self {
            Schema::Enum(_) => true,
            _ => false,
        }
    }
}

impl Clone for Schema {
    fn clone(&self) -> (r: Self)
        ensures
            r == *self,
    {
        self.copy_schema()
    }
}

/// One field of a record type.
#[derive(Debug, Clone)]
pub struct SchemaRecordField {
    pub name: String,
    pub field_schema: Schema,
}

impl SchemaRecordField {
    pub fn new(name: String, field_schema: Schema) -> (r: SchemaRecordField)
        ensures
            r.name@ == name@,
            r.field_schema == field_schema,
    {
        SchemaRecordField { name, field_schema }
    }

    pub fn name(&self) -> (r: &str)
        ensures
            r@ == self.name@,
    {
        self.name.as_str()
    }

    pub fn field_schema(&self) -> (r: &Schema)
        ensures
            *r == self.field_schema,
    {
        &self.field_schema
    }

    pub fn copy_field(&self) -> (r: SchemaRecordField)
        ensures
            r.name@ == self.name@,
            r.field_schema == self.field_schema,
    {
        SchemaRecordField { name: self.name.clone(), field_schema: self.field_schema.copy_schema() }
    }
}

/// A record type: a fingerprint, a name and an ordered list of fields.
#[derive(Debug, Clone)]
pub struct SchemaRecord {
    pub fingerprint: SchemaFingerprint,
    pub name: String,
    pub fields: Vec<SchemaRecordField>,
}

/// The schema of the first field named `name`, if any.
pub open spec fn first_field_schema(fields: Seq<SchemaRecordField>, name: Seq<char>) -> Option<
    Schema,
>
    decreases fields.len(),
{
    if fields.len() == 0 {
        None
    } else {
        match first_field_schema(fields.drop_last(), name) {
            Some(s) => Some(s),
            None => if fields.last().name@ == name {
                Some(fields.last().field_schema)
            } else {
                None
            },
        }
    }
}

/// Two records agree when fingerprint, name and fields agree.
pub open spec fn same_record(a: SchemaRecord, b: SchemaRecord) -> bool {
    &&& a.fingerprint == b.fingerprint
    &&& a.name@ == b.name@
    &&& a.fields@.len() == b.fields@.len()
    &&& forall|i: int|
        0 <= i < a.fields@.len() ==> (#[trigger] a.fields@[i]).name@ == b.fields@[i].name@
            && a.fields@[i].field_schema == b.fields@[i].field_schema
}

impl SchemaRecord {
    pub fn new(fingerprint: SchemaFingerprint, name: String, fields: Vec<SchemaRecordField>) -> (r:
        SchemaRecord)
        ensures
            r.fingerprint == fingerprint,
            r.name@ == name@,
            r.fields@ == fields@,
    {
        SchemaRecord { fingerprint, name, fields }
    }

    pub fn fingerprint(&self) -> (r: SchemaFingerprint)
        ensures
            r == self.fingerprint,
    {
        self.fingerprint
    }

    pub fn name(&self) -> (r: &str)
        ensures
            r@ == self.name@,
    {
        self.name.as_str()
    }

    pub fn fields(&self) -> (r: &Vec<SchemaRecordField>)
        ensures
            r@ == self.fields@,
    {
        &self.fields
    }

    pub fn copy_record(&self) -> (r: SchemaRecord)
        ensures
            same_record(r, *self),
    {
        let mut fields: Vec<SchemaRecordField> = Vec::new();
        let mut i: usize = 0;
        while i < self.fields.len()
            invariant
                i <= self.fields@.len(),
                fields@.len() == i,
                forall|j: int|
                    0 <= j < i ==> (#[trigger] fields@[j]).name@ == self.fields@[j].name@
                        && fields@[j].field_schema == self.fields@[j].field_schema,
            decreases self.fields@.len() - i,
        {
            fields.push(self.fields[i].copy_field());
            i = i + 1;
        }
        SchemaRecord { fingerprint: self.fingerprint, name: self.name.clone(), fields }
    }

    /// The schema of the field called `name`.
    pub fn field_schema(&self, name: &str) -> (r: Option<&Schema>)
        ensures
            match first_field_schema(self.fields@, name@) {
                Some(s) => r matches Some(x) && *x == s,
                None => r is None,
            },
    {
        let mut i: usize = 0;
        while i < self.fields.len()
            invariant
                i <= self.fields@.len(),
                first_field_schema(self.fields@.take(i as int), name@) is None,
            decreases self.fields@.len() - i,
        {
            assert(self.fields@.take(i + 1).drop_last() =~= self.fields@.take(i as int));
            if str_eq(self.fields[i].name.as_str(), name) {
                proof {
                    lemma_first_field_prefix(self.fields@, name@, i as int + 1);
                }
                return Some(&self.fields[i].field_schema);
            }
            i = i + 1;
        }
        assert(self.fields@.take(i as int) =~= self.fields@);
        None
    }
}

/// Once the first match lies within a prefix, the whole sequence gives the same answer.
pub proof fn lemma_first_field_prefix(fields: Seq<SchemaRecordField>, name: Seq<char>, k: int)
    requires
        0 <= k <= fields.len(),
        first_field_schema(fields.take(k), name) is Some,
    ensures
        first_field_schema(fields, name) == first_field_schema(fields.take(k), name),
    decreases fields.len() - k,
{
    if k < fields.len() {
        assert(fields.take(k + 1).drop_last() =~= fields.take(k));
        lemma_first_field_prefix(fields, name, k + 1);
    } else {
        assert(fields.take(k) =~= fields);
    }
}

/// One symbol of an enum type, with older names it is still known by.
#[derive(Debug, Clone)]
pub struct SchemaEnumSymbol {
    pub name: String,
    pub aliases: Vec<String>,
}

impl SchemaEnumSymbol {
    pub fn new(name: String, aliases: Vec<String>) -> (r: SchemaEnumSymbol)
        ensures
            r.name@ == name@,
            r.aliases@ == aliases@,
    {
        SchemaEnumSymbol { name, aliases }
    }

    pub fn name(&self) -> (r: &str)
        ensures
            r@ == self.name@,
    {
        self.name.as_str()
    }

    pub fn aliases(&self) -> (r: &Vec<String>)
        ensures
            r@ == self.aliases@,
    {
        &self.aliases
    }
}

/// An enum type: a fingerprint, a name and its symbols. The first symbol is the default.
#[derive(Debug, Clone)]
pub struct SchemaEnum {
    pub fingerprint: SchemaFingerprint,
    pub name: String,
    pub symbols: Vec<SchemaEnumSymbol>,
}

impl SchemaEnum {
    pub fn new(fingerprint: SchemaFingerprint, name: String, symbols: Vec<SchemaEnumSymbol>) -> (r:
        SchemaEnum)
        ensures
            r.fingerprint == fingerprint,
            r.name@ == name@,
            r.symbols@ == symbols@,
    {
        SchemaEnum { fingerprint, name, symbols }
    }

    pub fn fingerprint(&self) -> (r: SchemaFingerprint)
        ensures
            r == self.fingerprint,
    {
        self.fingerprint
    }

    pub fn symbols(&self) -> (r: &Vec<SchemaEnumSymbol>)
        ensures
            r@ == self.symbols@,
    {
        &self.symbols
    }

    /// The default symbol: the first one.
    pub fn default_value(&self) -> (r: &SchemaEnumSymbol)
        requires
            self.symbols@.len() > 0,
        ensures
            *r == self.symbols@[0],
    {
        &self.symbols[0]
    }
}

/// A type with a name: a record or an enum.
#[derive(Debug, Clone)]
pub enum SchemaNamedType {
    Record(SchemaRecord),
    Enum(SchemaEnum),
}

impl SchemaNamedType {
    pub open spec fn spec_fingerprint(&self) -> SchemaFingerprint {
        match self {
            SchemaNamedType::Record(r) => r.fingerprint,
            SchemaNamedType::Enum(e) => e.fingerprint,
        }
    }

    pub fn fingerprint(&self) -> (r: SchemaFingerprint)
        ensures
            r == self.spec_fingerprint(),
    {
        match self {
            SchemaNamedType::Record(r) => r.fingerprint,
            SchemaNamedType::Enum(e) => e.fingerprint,
        }
    }

    pub fn as_record(&self) -> (r: Result<&SchemaRecord, crate::ids::DataSetError>)
        ensures
            match self {
                SchemaNamedType::Record(x) => r == Ok::<&SchemaRecord, crate::ids::DataSetError>(x),
                SchemaNamedType::Enum(_) => r == Err::<&SchemaRecord, crate::ids::DataSetError>(
                    crate::ids::DataSetError::InvalidSchema,
                ),
            },
    {
        match self {
            SchemaNamedType::Record(x) => Ok(x),
            SchemaNamedType::Enum(_) => Err(crate::ids::DataSetError::InvalidSchema),
        }
    }

    pub fn try_as_enum(&self) -> (r: Option<&SchemaEnum>)
        ensures
            match self {
                SchemaNamedType::Enum(x) => r == Some(x),
                SchemaNamedType::Record(_) => r is None,
            },
    {
        match self {
            SchemaNamedType::Enum(x) => Some(x),
            SchemaNamedType::Record(_) => None,
        }
    }
}

/// Named types by fingerprint.
pub type NamedTypes = HashMap<u128, SchemaNamedType>;

/// Every record or enum reference inside `s` names a type of that kind in `types`.
pub open spec fn schema_closed(s: Schema, types: Map<u128, SchemaNamedType>) -> bool
    decreases s,
{
    match s {
        Schema::Nullable(i) => schema_closed(*i, types),
        Schema::StaticArray(i, _) => schema_closed(*i, types),
        Schema::DynamicArray(i) => schema_closed(*i, types),
        Schema::Mapping(k, v) => schema_closed(*k, types) && schema_closed(*v, types),
        Schema::Record(f) => types.contains_key(f.0) && types[f.0] is Record,
        Schema::Enum(f) => types.contains_key(f.0) && types[f.0] is Enum,
        _ => true,
    }
}

/// The named types refer only to each other, and every enum has a default symbol.
pub open spec fn types_closed(types: Map<u128, SchemaNamedType>) -> bool {
    forall|f: u128|
        #![trigger types[f]]
        types.contains_key(f) ==> match types[f] {
            SchemaNamedType::Record(r) => forall|i: int|
                0 <= i < r.fields@.len() ==> schema_closed(
                    (#[trigger] r.fields@[i]).field_schema,
                    types,
                ),
            SchemaNamedType::Enum(e) => e.symbols@.len() > 0,
        }
}

/// The decimal value of a non-empty run of ASCII digits.
pub open spec fn decimal_value(s: Seq<char>) -> int
    decreases s.len(),
{
    if s.len() == 0 {
        0
    } else {
        decimal_value(s.drop_last()) * 10 + (s.last() as int - '0' as int)
    }
}

pub open spec fn is_decimal(s: Seq<char>) -> bool {
    s.len() > 0 && forall|i: int| 0 <= i < s.len() ==> '0' <= #[trigger] s[i] <= '9'
}

/// The schema reached from `s` through one path segment.
///
/// A nullable is entered through `value`, a record through a field name, a static
/// array through a decimal index below its length, and dynamic arrays and maps
/// through any entry key (entry keys are checked against the resolved entries by
/// the callers).
pub open spec fn field_schema_of(s: Schema, name: Seq<char>, types: Map<u128, SchemaNamedType>) -> Option<
    Schema,
> {
    match s {
        Schema::Nullable(i) => if name == seq!['v', 'a', 'l', 'u', 'e'] {
            Some(*i)
        } else {
            None
        },
        Schema::Record(f) => match types[f.0] {
            SchemaNamedType::Record(r) => first_field_schema(r.fields@, name),
            SchemaNamedType::Enum(_) => None,
        },
        Schema::StaticArray(i, n) => if is_decimal(name) && decimal_value(name) < n {
            Some(*i)
        } else {
            None
        },
        Schema::DynamicArray(i) => Some(*i),
        Schema::Mapping(_, v) => Some(*v),
        _ => None,
    }
}

/// The schema reached from `s` by following all of `segs`.
pub open spec fn walk_schema(s: Schema, segs: Seq<Seq<char>>, types: Map<u128, SchemaNamedType>) -> Option<
    Schema,
>
    decreases segs.len(),
{
    if segs.len() == 0 {
        Some(s)
    } else {
        match walk_schema(s, segs.drop_last(), types) {
            Some(p) => field_schema_of(p, segs.last(), types),
            None => None,
        }
    }
}

/// The schema of the property at dotted path `path` of a record with fingerprint `f`.
pub open spec fn property_schema_of(f: SchemaFingerprint, path: Seq<char>, types: Map<
    u128,
    SchemaNamedType,
>) -> Option<Schema> {
    walk_schema(Schema::Record(f), split_dot(path), types)
}

/// Closedness is kept when walking into a field.
pub proof fn lemma_field_schema_closed(s: Schema, name: Seq<char>, types: Map<u128, SchemaNamedType>)
    requires
        types_closed(types),
        schema_closed(s, types),
    ensures
        field_schema_of(s, name, types) matches Some(c) ==> schema_closed(c, types),
{
    if let Schema::Record(f) = s {
        if let SchemaNamedType::Record(r) = types[f.0] {
            lemma_first_field_closed(r.fields@, name, types);
        }
    }
}

pub proof fn lemma_first_field_closed(fields: Seq<SchemaRecordField>, name: Seq<char>, types: Map<
    u128,
    SchemaNamedType,
>)
    requires
        forall|i: int|
            0 <= i < fields.len() ==> schema_closed((#[trigger] fields[i]).field_schema, types),
    ensures
        first_field_schema(fields, name) matches Some(c) ==> schema_closed(c, types),
    decreases fields.len(),
{
    if fields.len() > 0 {
        lemma_first_field_closed(fields.drop_last(), name, types);
        assert(schema_closed(fields[fields.len() - 1].field_schema, types));
    }
}

/// The field schemas of a record in a closed type map are closed.
pub proof fn lemma_record_fields_closed(types: Map<u128, SchemaNamedType>, f: u128)
    requires
        types_closed(types),
        types.contains_key(f),
    ensures
        types[f] matches SchemaNamedType::Record(r) ==> forall|k: int|
            0 <= k < r.fields@.len() ==> schema_closed(
                (#[trigger] r.fields@[k]).field_schema,
                types,
            ),
{
    let t = types[f];
}

/// Parses a decimal index, giving up (None) when it is not below `limit`.
fn parse_index_below(s: &str, limit: usize) -> (r: Option<usize>)
    ensures
        match r {
            Some(v) => is_decimal(s@) && decimal_value(s@) == v && v < limit,
            None => !(is_decimal(s@) && decimal_value(s@) < limit),
        },
{
    let n = s.unicode_len();
    if n == 0 || limit == 0 {
        proof {
            if is_decimal(s@) {
                lemma_decimal_nonneg(s@);
            }
        }
        return None;
    }
    let mut value: usize = 0;
    let mut i: usize = 0;
    while i < n
        invariant
            n == s@.len(),
            i <= n,
            value < limit,
            forall|j: int| 0 <= j < i ==> '0' <= #[trigger] s@[j] <= '9',
            decimal_value(s@.take(i as int)) == value,
        decreases n - i,
    {
        let c = s.get_char(i);
        assert(s@.take(i + 1).drop_last() =~= s@.take(i as int));
        if c < '0' || c > '9' {
            return None;
        }
        let d: usize = if c == '0' { 0 } else if c == '1' { 1 } else if c == '2' { 2 } else if c
            == '3' { 3 } else if c == '4' { 4 } else if c == '5' { 5 } else if c == '6' {
            6
        } else if c == '7' { 7 } else if c == '8' { 8 } else if c == '9' { 9 } else {
            proof {
                assert(false) by {
                    assert('0' <= c <= '9');
                    assert(c == '0' || c == '1' || c == '2' || c == '3' || c == '4' || c == '5'
                        || c == '6' || c == '7' || c == '8' || c == '9') by {
                        let x = c as u32;
                        assert(48 <= x <= 57);
                    }
                }
            }
            0
        };
        assert(d == c as int - '0' as int);
        let next: u128 = value as u128 * 10 + d as u128;
        if next >= limit as u128 {
            proof {
                lemma_decimal_prefix_monotone(s@, i as int + 1);
            }
            return None;
        }
        value = next as usize;
        i = i + 1;
    }
    assert(s@.take(n as int) =~= s@);
    Some(value)
}

/// The value of a digit string is at least the value of any of its prefixes.
proof fn lemma_decimal_prefix_monotone(s: Seq<char>, k: int)
    requires
        0 <= k <= s.len(),
        forall|j: int| 0 <= j < k ==> '0' <= #[trigger] s[j] <= '9',
    ensures
        is_decimal(s) ==> decimal_value(s) >= decimal_value(s.take(k)),
    decreases s.len() - k,
{
    if is_decimal(s) {
        if k < s.len() {
            lemma_decimal_prefix_monotone(s, k + 1);
            assert(s.take(k + 1).drop_last() =~= s.take(k));
            lemma_decimal_nonneg(s.take(k));
        } else {
            assert(s.take(k) =~= s);
        }
    }
}

proof fn lemma_decimal_nonneg(s: Seq<char>)
    requires
        forall|j: int| 0 <= j < s.len() ==> '0' <= #[trigger] s[j] <= '9',
    ensures
        decimal_value(s) >= 0,
    decreases s.len(),
{
    if s.len() > 0 {
        lemma_decimal_nonneg(s.drop_last());
        assert('0' <= s[s.len() - 1]);
    }
}

/// The schema reached from `s` through one path segment (see `field_schema_of`).
pub fn find_field_schema(s: &Schema, name: &str, named_types: &NamedTypes) -> (r: Option<Schema>)
    requires
        schema_closed(*s, named_types@),
    ensures
        r == field_schema_of(*s, name@, named_types@),
{
    match s {
        Schema::Nullable(i) => {
            let value_name = "value";
            proof {
                reveal_strlit("value");
            }
            assert(value_name@ =~= seq!['v', 'a', 'l', 'u', 'e']);
            if str_eq(name, value_name) {
                assert(name@ =~= seq!['v', 'a', 'l', 'u', 'e']);
                Some((**i).copy_schema())
            } else {
                assert(name@ != seq!['v', 'a', 'l', 'u', 'e']);
                None
            }
        },
        Schema::Record(f) => {
            let nt = named_types.get(&f.0).unwrap();
            match nt {
                SchemaNamedType::Record(r) => match r.field_schema(name) {
                    Some(x) => Some(x.copy_schema()),
                    None => None,
                },
                SchemaNamedType::Enum(_) => None,
            }
        },
        Schema::StaticArray(i, n) => {
            match parse_index_below(name, *n) {
                Some(_) => Some((**i).copy_schema()),
                None => None,
            }
        },
        Schema::DynamicArray(i) => Some((**i).copy_schema()),
        Schema::Mapping(_, v) => Some((**v).copy_schema()),
        _ => None,
    }
}

impl SchemaRecord {
    /// The schema of the property at the dotted path `path`, or None when the path
    /// leaves the schema.
    pub fn find_property_schema(&self, path: &str, named_types: &NamedTypes) -> (r: Option<Schema>)
        requires
            types_closed(named_types@),
            schema_closed(Schema::Record(self.fingerprint), named_types@),
        ensures
            r == property_schema_of(self.fingerprint, path@, named_types@),
    {
        let segs = split_path(path);
        let mut schema = Schema::Record(self.fingerprint);
        let mut i: usize = 0;
        while i < segs.len()
            invariant
                types_closed(named_types@),
                i <= segs@.len(),
                strings_view(segs@) == split_dot(path@),
                walk_schema(Schema::Record(self.fingerprint), split_dot(path@).take(i as int), named_types@)
                    == Some(schema),
                schema_closed(schema, named_types@),
            decreases segs@.len() - i,
        {
            let ghost segs_v = split_dot(path@);
            assert(segs_v.take(i + 1).drop_last() =~= segs_v.take(i as int));
            assert(segs_v.take(i + 1).last() == segs@[i as int]@);
            match find_field_schema(&schema, segs[i].as_str(), named_types) {
                Some(c) => {
                    proof {
                        lemma_field_schema_closed(schema, segs@[i as int]@, named_types@);
                    }
                    schema = c;
                },
                None => {
                    proof {
                        lemma_walk_none_extends(
                            Schema::Record(self.fingerprint),
                            segs_v,
                            i as int + 1,
                            named_types@,
                        );
                    }
                    return None;
                },
            }
            i = i + 1;
        }
        assert(split_dot(path@).take(i as int) =~= split_dot(path@));
        Some(schema)
    }
}

/// Once a walk leaves the schema, longer walks do too.
pub proof fn lemma_walk_none_extends(s: Schema, segs: Seq<Seq<char>>, k: int, types: Map<
    u128,
    SchemaNamedType,
>)
    requires
        0 <= k <= segs.len(),
        walk_schema(s, segs.take(k), types) is None,
    ensures
        walk_schema(s, segs, types) is None,
    decreases segs.len() - k,
{
    if k < segs.len() {
        assert(segs.take(k + 1).drop_last() =~= segs.take(k));
        lemma_walk_none_extends(s, segs, k + 1, types);
    } else {
        assert(segs.take(k) =~= segs);
    }
}

/// Walking a closed schema only reaches closed schemas.
pub proof fn lemma_walk_closed(s: Schema, segs: Seq<Seq<char>>, types: Map<u128, SchemaNamedType>)
    requires
        types_closed(types),
        schema_closed(s, types),
    ensures
        walk_schema(s, segs, types) matches Some(c) ==> schema_closed(c, types),
    decreases segs.len(),
{
    if segs.len() > 0 {
        lemma_walk_closed(s, segs.drop_last(), types);
        if let Some(p) = walk_schema(s, segs.drop_last(), types) {
            lemma_field_schema_closed(p, segs.last(), types);
        }
    }
}

} // verus!
