use vstd::prelude::*;
use crate::ids::{AssetId, DataSetError, DataSetResult};
use crate::path::str_eq;
use crate::schema::{
    first_field_schema, schema_closed, NamedTypes, Schema, SchemaEnum, SchemaNamedType, SchemaRecord,
    SchemaRecordField,
};

verus! {

broadcast use vstd::std_specs::hash::group_hash_axioms;

/// The value of an enum property: the symbol's name (names are kept rather than
/// numbers so that data with unknown symbols can still be loaded).
#[derive(Debug, Clone, Hash)]
pub struct ValueEnum {
    pub symbol_name: String,
}

impl PartialEq for ValueEnum {
    fn eq(&self, other: &Self) -> (r: bool) {
        self.symbol_name == other.symbol_name
    }
}

impl Default for ValueEnum {
    fn default() -> (r: ValueEnum)
        ensures
            r.symbol_name@ == Seq::<char>::empty(),
    {
        ValueEnum { symbol_name: String::new() }
    }
}

impl vstd::std_specs::cmp::PartialEqSpecImpl for ValueEnum {
    open spec fn obeys_eq_spec() -> bool {
        true
    }

    open spec fn eq_spec(&self, other: &ValueEnum) -> bool {
        self.symbol_name@ == other.symbol_name@
    }
}

impl ValueEnum {
    pub fn new(symbol_name: String) -> (r: ValueEnum)
        ensures
            r.symbol_name@ == symbol_name@,
    {
        ValueEnum { symbol_name }
    }

    pub fn symbol_name(&self) -> (r: &str)
        ensures
            r@ == self.symbol_name@,
    {
        self.symbol_name.as_str()
    }

    pub fn copy_enum(&self) -> (r: ValueEnum)
        ensures
            r == *self,
    {
        ValueEnum { symbol_name: self.symbol_name.clone() }
    }
}

/// Key-value container value (pairs in insertion order).
#[derive(Debug, Default)]
pub struct ValueMap {
    pub properties: Vec<(Value, Value)>,
}

/// Struct-like container value: field name and value pairs.
#[derive(Debug, Default)]
pub struct ValueRecord {
    pub properties: Vec<(String, Value)>,
}

/// Every kind of value that a property can hold. Floating-point payloads are kept
/// as their IEEE-754 bit patterns.
#[derive(Debug)]
pub enum Value {
    Nullable(Option<Box<Value>>),
    Boolean(bool),
    I32(i32),
    I64(i64),
    U32(u32),
    U64(u64),
    F32(u32),
    F64(u64),
    Bytes(Vec<u8>),
    String(String),
    StaticArray(Vec<Value>),
    DynamicArray(Vec<Value>),
    Mapping(ValueMap),
    AssetRef(AssetId),
    Record(ValueRecord),
    Enum(ValueEnum),
}

/// Leaf values: everything a value can hold except containers, nullables and records.
#[derive(Debug)]
pub enum PropertyValue {
    Boolean(bool),
    I32(i32),
    I64(i64),
    U32(u32),
    U64(u64),
    F32(u32),
    F64(u64),
    Bytes(Vec<u8>),
    String(String),
    AssetRef(AssetId),
    Enum(ValueEnum),
}

/// The mathematical content of a value: containers become sequences.
pub enum ValueModel {
    Nullable(Option<Box<ValueModel>>),
    Boolean(bool),
    I32(i32),
    I64(i64),
    U32(u32),
    U64(u64),
    F32(u32),
    F64(u64),
    Bytes(Seq<u8>),
    String(Seq<char>),
    StaticArray(Seq<ValueModel>),
    DynamicArray(Seq<ValueModel>),
    Mapping(Seq<(ValueModel, ValueModel)>),
    AssetRef(AssetId),
    Record(Seq<(Seq<char>, ValueModel)>),
    Enum(Seq<char>),
}

pub open spec fn value_model(v: Value) -> ValueModel
    decreases v, 1int,
{
    match v {
        Value::Nullable(x) => match x {
            Some(b) => ValueModel::Nullable(Some(Box::new(value_model(*b)))),
            None => ValueModel::Nullable(None),
        },
        Value::Boolean(x) => ValueModel::Boolean(x),
        Value::I32(x) => ValueModel::I32(x),
        Value::I64(x) => ValueModel::I64(x),
        Value::U32(x) => ValueModel::U32(x),
        Value::U64(x) => ValueModel::U64(x),
        Value::F32(x) => ValueModel::F32(x),
        Value::F64(x) => ValueModel::F64(x),
        Value::Bytes(x) => ValueModel::Bytes(x@),
        Value::String(x) => ValueModel::String(x@),
        Value::StaticArray(x) => ValueModel::StaticArray(models_of(x@)),
        Value::DynamicArray(x) => ValueModel::DynamicArray(models_of(x@)),
        Value::Mapping(m) => ValueModel::Mapping(pair_models_of(m.properties@)),
        Value::AssetRef(x) => ValueModel::AssetRef(x),
        Value::Record(r) => ValueModel::Record(field_models_of(r.properties@)),
        Value::Enum(e) => ValueModel::Enum(e.symbol_name@),
    }
}

pub open spec fn models_of(s: Seq<Value>) -> Seq<ValueModel>
    decreases s, 0int,
{
    if s.len() == 0 {
        Seq::empty()
    } else {
        models_of(s.drop_last()).push(value_model(s.last()))
    }
}

pub open spec fn pair_models_of(s: Seq<(Value, Value)>) -> Seq<(ValueModel, ValueModel)>
    decreases s, 0int,
{
    if s.len() == 0 {
        Seq::empty()
    } else {
        pair_models_of(s.drop_last()).push((value_model(s.last().0), value_model(s.last().1)))
    }
}

pub open spec fn field_models_of(s: Seq<(String, Value)>) -> Seq<(Seq<char>, ValueModel)>
    decreases s, 0int,
{
    if s.len() == 0 {
        Seq::empty()
    } else {
        field_models_of(s.drop_last()).push((s.last().0@, value_model(s.last().1)))
    }
}

impl View for Value {
    type V = ValueModel;

    open spec fn view(&self) -> ValueModel {
        value_model(*self)
    }
}

/// Leaf values: everything a value can be except containers, nullables and records.
pub open spec fn is_leaf(v: ValueModel) -> bool {
    match v {
        ValueModel::Nullable(_) | ValueModel::StaticArray(_) | ValueModel::DynamicArray(_)
        | ValueModel::Mapping(_) | ValueModel::Record(_) => false,
        _ => true,
    }
}

/// The value that a property value stands for.
pub open spec fn property_value_model(p: PropertyValue) -> ValueModel {
    match p {
        PropertyValue::Boolean(x) => ValueModel::Boolean(x),
        PropertyValue::I32(x) => ValueModel::I32(x),
        PropertyValue::I64(x) => ValueModel::I64(x),
        PropertyValue::U32(x) => ValueModel::U32(x),
        PropertyValue::U64(x) => ValueModel::U64(x),
        PropertyValue::F32(x) => ValueModel::F32(x),
        PropertyValue::F64(x) => ValueModel::F64(x),
        PropertyValue::Bytes(x) => ValueModel::Bytes(x@),
        PropertyValue::String(x) => ValueModel::String(x@),
        PropertyValue::AssetRef(x) => ValueModel::AssetRef(x),
        PropertyValue::Enum(x) => ValueModel::Enum(x.symbol_name@),
    }
}

impl View for PropertyValue {
    type V = ValueModel;

    open spec fn view(&self) -> ValueModel {
        property_value_model(*self)
    }
}

/// Whether a value model fits schema `s`, descending through containers.
pub open spec fn value_matches(v: ValueModel, s: Schema, types: Map<u128, SchemaNamedType>) -> bool
    decreases v, 1int,
{
    match v {
        ValueModel::Nullable(inner) => match s {
            Schema::Nullable(is) => match inner {
                Some(b) => value_matches(*b, *is, types),
                None => true,
            },
            _ => false,
        },
        ValueModel::Boolean(_) => s is Boolean,
        ValueModel::I32(_) => s is I32,
        ValueModel::I64(_) => s is I64,
        ValueModel::U32(_) => s is U32,
        ValueModel::U64(_) => s is U64,
        ValueModel::F32(_) => s is F32,
        ValueModel::F64(_) => s is F64,
        ValueModel::Bytes(_) => s is Bytes,
        ValueModel::String(_) => s is String,
        ValueModel::StaticArray(vals) => match s {
            Schema::StaticArray(item, _) => all_match(vals, *item, types),
            _ => false,
        },
        ValueModel::DynamicArray(vals) => match s {
            Schema::DynamicArray(item) => all_match(vals, *item, types),
            _ => false,
        },
        ValueModel::Mapping(m) => match s {
            Schema::Mapping(ks, vs) => pairs_match(m, *ks, *vs, types),
            _ => false,
        },
        ValueModel::AssetRef(_) => s is AssetRef,
        ValueModel::Record(r) => match s {
            Schema::Record(f) => match types[f.0] {
                SchemaNamedType::Record(rec) => fields_match(r, rec.fields@, types),
                SchemaNamedType::Enum(_) => false,
            },
            _ => false,
        },
        ValueModel::Enum(name) => match s {
            Schema::Enum(f) => match types[f.0] {
                SchemaNamedType::Enum(en) => exists|i: int|
                    0 <= i < en.symbols@.len() && (#[trigger] en.symbols@[i]).name@ == name,
                SchemaNamedType::Record(_) => false,
            },
            _ => false,
        },
    }
}

/// Every element fits `item`.
pub open spec fn all_match(vals: Seq<ValueModel>, item: Schema, types: Map<u128, SchemaNamedType>) -> bool
    decreases vals, 0int,
{
    if vals.len() == 0 {
        true
    } else {
        all_match(vals.drop_last(), item, types) && value_matches(vals.last(), item, types)
    }
}

/// Every key fits `ks` and every value fits `vs`.
pub open spec fn pairs_match(
    m: Seq<(ValueModel, ValueModel)>,
    ks: Schema,
    vs: Schema,
    types: Map<u128, SchemaNamedType>,
) -> bool
    decreases m, 0int,
{
    if m.len() == 0 {
        true
    } else {
        pairs_match(m.drop_last(), ks, vs, types) && value_matches(m.last().0, ks, types)
            && value_matches(m.last().1, vs, types)
    }
}

/// Every entry names a field and fits that field's schema.
pub open spec fn fields_match(
    r: Seq<(Seq<char>, ValueModel)>,
    fields: Seq<SchemaRecordField>,
    types: Map<u128, SchemaNamedType>,
) -> bool
    decreases r, 0int,
{
    if r.len() == 0 {
        true
    } else {
        fields_match(r.drop_last(), fields, types) && match first_field_schema(fields, r.last().0) {
            Some(fs) => value_matches(r.last().1, fs, types),
            None => false,
        }
    }
}

fn copy_values(v: &Vec<Value>) -> (r: Vec<Value>)
    ensures
        models_of(r@) == models_of(v@),
    decreases v, 0int,
{
    let mut out: Vec<Value> = Vec::new();
    let mut i: usize = 0;
    while i < v.len()
        invariant
            i <= v@.len(),
            models_of(out@) == models_of(v@.take(i as int)),
            out@.len() == i,
        decreases v@.len() - i,
    {
        let ghost old_out = out@;
        assert(decreases_to!(v => v@[i as int]));
        let c = v[i].copy_value();
        out.push(c);
        assert(out@.drop_last() =~= old_out);
        assert(v@.take(i + 1).drop_last() =~= v@.take(i as int));
        i = i + 1;
    }
    assert(v@.take(v@.len() as int) =~= v@);
    out
}

fn copy_pairs(v: &Vec<(Value, Value)>) -> (r: Vec<(Value, Value)>)
    ensures
        pair_models_of(r@) == pair_models_of(v@),
    decreases v, 0int,
{
    let mut out: Vec<(Value, Value)> = Vec::new();
    let mut i: usize = 0;
    while i < v.len()
        invariant
            i <= v@.len(),
            pair_models_of(out@) == pair_models_of(v@.take(i as int)),
            out@.len() == i,
        decreases v@.len() - i,
    {
        let ghost old_out = out@;
        assert(decreases_to!(v => v@[i as int].0));
        assert(decreases_to!(v => v@[i as int].1));
        let a = v[i].0.copy_value();
        let b = v[i].1.copy_value();
        out.push((a, b));
        assert(out@.drop_last() =~= old_out);
        assert(v@.take(i + 1).drop_last() =~= v@.take(i as int));
        i = i + 1;
    }
    assert(v@.take(v@.len() as int) =~= v@);
    out
}

fn copy_fields(v: &Vec<(String, Value)>) -> (r: Vec<(String, Value)>)
    ensures
        field_models_of(r@) == field_models_of(v@),
    decreases v, 0int,
{
    let mut out: Vec<(String, Value)> = Vec::new();
    let mut i: usize = 0;
    while i < v.len()
        invariant
            i <= v@.len(),
            field_models_of(out@) == field_models_of(v@.take(i as int)),
            out@.len() == i,
        decreases v@.len() - i,
    {
        let ghost old_out = out@;
        assert(decreases_to!(v => v@[i as int].1));
        let a = v[i].0.clone();
        let b = v[i].1.copy_value();
        out.push((a, b));
        assert(out@.drop_last() =~= old_out);
        assert(v@.take(i + 1).drop_last() =~= v@.take(i as int));
        i = i + 1;
    }
    assert(v@.take(v@.len() as int) =~= v@);
    out
}

impl Clone for Value {
    fn clone(&self) -> (r: Self)
        ensures
            r@ == self@,
    {
        self.copy_value()
    }
}

impl Value {
    /// A copy with the same content.
    pub fn copy_value(&self) -> (r: Value)
        ensures
            r@ == self@,
        decreases self, 1int,
    {
        match self {
            Value::Nullable(x) => {
                let inner: Option<Box<Value>> = match x {
                    None => None,
                    Some(b) => Some(Box::new((**b).copy_value())),
                };
                assert(value_model(Value::Nullable(inner)) == value_model(*self));
                Value::Nullable(inner)
            },
            Value::Boolean(x) => Value::Boolean(*x),
            Value::I32(x) => Value::I32(*x),
            Value::I64(x) => Value::I64(*x),
            Value::U32(x) => Value::U32(*x),
            Value::U64(x) => Value::U64(*x),
            Value::F32(x) => Value::F32(*x),
            Value::F64(x) => Value::F64(*x),
            Value::Bytes(x) => {
                let c = x.clone();
                assert(c@ =~= x@);
                Value::Bytes(c)
            },
            Value::String(x) => Value::String(x.clone()),
            Value::StaticArray(x) => Value::StaticArray(copy_values(x)),
            Value::DynamicArray(x) => Value::DynamicArray(copy_values(x)),
            Value::Mapping(m) => Value::Mapping(ValueMap { properties: copy_pairs(&m.properties) }),
            Value::AssetRef(x) => Value::AssetRef(*x),
            Value::Record(r) => Value::Record(ValueRecord { properties: copy_fields(&r.properties) }),
            Value::Enum(e) => Value::Enum(e.copy_enum()),
        }
    }
}


pub proof fn lemma_models_of(s: Seq<Value>)
    ensures
        models_of(s).len() == s.len(),
        forall|i: int| 0 <= i < s.len() ==> #[trigger] models_of(s)[i] == value_model(s[i]),
    decreases s.len(),
{
    if s.len() > 0 {
        lemma_models_of(s.drop_last());
    }
}

pub proof fn lemma_pair_models_of(s: Seq<(Value, Value)>)
    ensures
        pair_models_of(s).len() == s.len(),
        forall|i: int|
            0 <= i < s.len() ==> #[trigger] pair_models_of(s)[i] == (
                value_model(s[i].0),
                value_model(s[i].1),
            ),
    decreases s.len(),
{
    if s.len() > 0 {
        lemma_pair_models_of(s.drop_last());
    }
}

pub proof fn lemma_field_models_of(s: Seq<(String, Value)>)
    ensures
        field_models_of(s).len() == s.len(),
        forall|i: int|
            0 <= i < s.len() ==> #[trigger] field_models_of(s)[i] == (s[i].0@, value_model(s[i].1)),
    decreases s.len(),
{
    if s.len() > 0 {
        lemma_field_models_of(s.drop_last());
    }
}

impl Value {
    /// Whether the value fits `schema` exactly, descending through containers. (Even when it
    /// does not, it may still be possible to migrate it.)
    pub fn matches_schema(&self, schema: &Schema, named_types: &NamedTypes) -> (r: bool)
        requires
            crate::schema::types_closed(named_types@),
            schema_closed(*schema, named_types@),
        ensures
            r == value_matches(self@, *schema, named_types@),
        decreases self, 1int,
    {
        let ghost goal = value_matches(self@, *schema, named_types@);
        match self {
            Value::Nullable(inner) => match schema {
                Schema::Nullable(is) => match inner {
                    Some(b) => {
                        let r = (**b).matches_schema(&**is, named_types);
                        assert(r == goal);
                        r
                    },
                    None => {
                        assert(goal);
                        true
                    },
                },
                _ => {
                    assert(!goal);
                    false
                },
            },
            Value::Boolean(_) => schema.is_boolean(),
            Value::I32(_) => schema.is_i32(),
            Value::I64(_) => schema.is_i64(),
            Value::U32(_) => schema.is_u32(),
            Value::U64(_) => schema.is_u64(),
            Value::F32(_) => schema.is_f32(),
            Value::F64(_) => schema.is_f64(),
            Value::Bytes(_) => schema.is_bytes(),
            Value::String(_) => schema.is_string(),
            Value::StaticArray(vals) => match schema {
                Schema::StaticArray(item, _) => {
                    let r = Self::all_match(vals, &**item, named_types);
                    assert(r == goal);
                    r
                },
                _ => {
                    assert(!goal);
                    false
                },
            },
            Value::DynamicArray(vals) => match schema {
                Schema::DynamicArray(item) => {
                    let r = Self::all_match(vals, &**item, named_types);
                    assert(r == goal);
                    r
                },
                _ => {
                    assert(!goal);
                    false
                },
            },
            Value::Mapping(m) => match schema {
                Schema::Mapping(ks, vs) => {
                    let r = Self::pairs_match(&m.properties, &**ks, &**vs, named_types);
                    assert(r == goal);
                    r
                },
                _ => {
                    assert(!goal);
                    false
                },
            },
            Value::AssetRef(_) => schema.is_asset_ref(),
            Value::Record(rv) => match schema {
                Schema::Record(f) => {
                    let nt = named_types.get(&f.0).unwrap();
                    match nt {
                        SchemaNamedType::Record(rec) => {
                            proof {
                                crate::schema::lemma_record_fields_closed(named_types@, f.0);
                            }
                            let r = Self::fields_match(&rv.properties, rec, named_types);
                            assert(r == goal);
                            r
                        },
                        SchemaNamedType::Enum(_) => {
                            assert(!goal);
                            false
                        },
                    }
                },
                _ => {
                    assert(!goal);
                    false
                },
            },
            Value::Enum(e) => match schema {
                Schema::Enum(f) => {
                    let nt = named_types.get(&f.0).unwrap();
                    match nt {
                        SchemaNamedType::Enum(en) => {
                            let r = Self::symbol_known(en, e);
                            assert(r == goal);
                            r
                        },
                        SchemaNamedType::Record(_) => {
                            assert(!goal);
                            false
                        },
                    }
                },
                _ => {
                    assert(!goal);
                    false
                },
            },
        }
    }

    fn symbol_known(en: &SchemaEnum, e: &ValueEnum) -> (r: bool)
        ensures
            r == exists|i: int|
                0 <= i < en.symbols@.len() && (#[trigger] en.symbols@[i]).name@ == e.symbol_name@,
    {
        let mut i: usize = 0;
        while i < en.symbols.len()
            invariant
                i <= en.symbols@.len(),
                forall|j: int| 0 <= j < i ==> (#[trigger] en.symbols@[j]).name@ != e.symbol_name@,
            decreases en.symbols@.len() - i,
        {
            if str_eq(en.symbols[i].name.as_str(), e.symbol_name.as_str()) {
                assert(en.symbols@[i as int].name@ == e.symbol_name@);
                return true;
            }
            i = i + 1;
        }
        false
    }

    fn pairs_match(pairs: &Vec<(Value, Value)>, ks: &Schema, vs: &Schema, named_types: &NamedTypes) -> (r:
        bool)
        requires
            crate::schema::types_closed(named_types@),
            schema_closed(*ks, named_types@),
            schema_closed(*vs, named_types@),
        ensures
            r == pairs_match(pair_models_of(pairs@), *ks, *vs, named_types@),
        decreases pairs, 0int,
    {
        let mut i: usize = 0;
        while i < pairs.len()
            invariant
                crate::schema::types_closed(named_types@),
                schema_closed(*ks, named_types@),
                schema_closed(*vs, named_types@),
                i <= pairs@.len(),
                pairs_match(pair_models_of(pairs@.take(i as int)), *ks, *vs, named_types@),
            decreases pairs@.len() - i,
        {
            proof {
                vstd::std_specs::vec::axiom_vec_index_decreases(*pairs, i as int);
                assert(decreases_to!(pairs[i as int] => pairs[i as int].0));
                assert(decreases_to!(pairs[i as int] => pairs[i as int].1));
                lemma_pair_models_step(pairs@, i as int);
            }
            let a = pairs[i].0.matches_schema(ks, named_types);
            let b = pairs[i].1.matches_schema(vs, named_types);
            if !a || !b {
                proof {
                    lemma_pairs_prefix_fails(pairs@, *ks, *vs, named_types@, i as int + 1);
                }
                return false;
            }
            i = i + 1;
        }
        assert(pairs@.take(i as int) =~= pairs@);
        true
    }

    fn fields_match(props: &Vec<(String, Value)>, rec: &SchemaRecord, named_types: &NamedTypes) -> (r:
        bool)
        requires
            crate::schema::types_closed(named_types@),
            forall|k: int|
                0 <= k < rec.fields@.len() ==> schema_closed(
                    (#[trigger] rec.fields@[k]).field_schema,
                    named_types@,
                ),
        ensures
            r == fields_match(field_models_of(props@), rec.fields@, named_types@),
        decreases props, 0int,
    {
        let mut i: usize = 0;
        while i < props.len()
            invariant
                crate::schema::types_closed(named_types@),
                forall|k: int|
                    0 <= k < rec.fields@.len() ==> schema_closed(
                        (#[trigger] rec.fields@[k]).field_schema,
                        named_types@,
                    ),
                i <= props@.len(),
                fields_match(field_models_of(props@.take(i as int)), rec.fields@, named_types@),
            decreases props@.len() - i,
        {
            proof {
                vstd::std_specs::vec::axiom_vec_index_decreases(*props, i as int);
                assert(decreases_to!(props[i as int] => props[i as int].1));
                lemma_field_models_step(props@, i as int);
            }
            let ok = match rec.field_schema(props[i].0.as_str()) {
                Some(fs) => {
                    proof {
                        crate::schema::lemma_first_field_closed(
                            rec.fields@,
                            props@[i as int].0@,
                            named_types@,
                        );
                    }
                    props[i].1.matches_schema(fs, named_types)
                },
                None => false,
            };
            if !ok {
                proof {
                    lemma_fields_prefix_fails(props@, rec.fields@, named_types@, i as int + 1);
                }
                return false;
            }
            i = i + 1;
        }
        assert(props@.take(i as int) =~= props@);
        true
    }

    fn all_match(vals: &Vec<Value>, item: &Schema, named_types: &NamedTypes) -> (r: bool)
        requires
            crate::schema::types_closed(named_types@),
            schema_closed(*item, named_types@),
        ensures
            r == all_match(models_of(vals@), *item, named_types@),
        decreases vals, 0int,
    {
        let mut i: usize = 0;
        while i < vals.len()
            invariant
                crate::schema::types_closed(named_types@),
                schema_closed(*item, named_types@),
                i <= vals@.len(),
                all_match(models_of(vals@.take(i as int)), *item, named_types@),
            decreases vals@.len() - i,
        {
            proof {
                vstd::std_specs::vec::axiom_vec_index_decreases(*vals, i as int);
                lemma_models_step(vals@, i as int);
            }
            if !vals[i].matches_schema(item, named_types) {
                proof {
                    lemma_all_prefix_fails(vals@, *item, named_types@, i as int + 1);
                }
                return false;
            }
            i = i + 1;
        }
        assert(vals@.take(i as int) =~= vals@);
        true
    }
}


proof fn lemma_models_step(s: Seq<Value>, k: int)
    requires
        0 <= k < s.len(),
    ensures
        models_of(s.take(k + 1)).len() > 0,
        models_of(s.take(k + 1)).drop_last() == models_of(s.take(k)),
        models_of(s.take(k + 1)).last() == value_model(s[k]),
{
    assert(s.take(k + 1).drop_last() =~= s.take(k));
    assert(models_of(s.take(k + 1)) == models_of(s.take(k)).push(value_model(s[k])));
    assert(models_of(s.take(k)).push(value_model(s[k])).drop_last() =~= models_of(s.take(k)));
}

proof fn lemma_pair_models_step(s: Seq<(Value, Value)>, k: int)
    requires
        0 <= k < s.len(),
    ensures
        pair_models_of(s.take(k + 1)).len() > 0,
        pair_models_of(s.take(k + 1)).drop_last() == pair_models_of(s.take(k)),
        pair_models_of(s.take(k + 1)).last() == (value_model(s[k].0), value_model(s[k].1)),
{
    assert(s.take(k + 1).drop_last() =~= s.take(k));
    let e = (value_model(s[k].0), value_model(s[k].1));
    assert(pair_models_of(s.take(k + 1)) == pair_models_of(s.take(k)).push(e));
    assert(pair_models_of(s.take(k)).push(e).drop_last() =~= pair_models_of(s.take(k)));
}

proof fn lemma_field_models_step(s: Seq<(String, Value)>, k: int)
    requires
        0 <= k < s.len(),
    ensures
        field_models_of(s.take(k + 1)).len() > 0,
        field_models_of(s.take(k + 1)).drop_last() == field_models_of(s.take(k)),
        field_models_of(s.take(k + 1)).last() == (s[k].0@, value_model(s[k].1)),
{
    assert(s.take(k + 1).drop_last() =~= s.take(k));
    let e = (s[k].0@, value_model(s[k].1));
    assert(field_models_of(s.take(k + 1)) == field_models_of(s.take(k)).push(e));
    assert(field_models_of(s.take(k)).push(e).drop_last() =~= field_models_of(s.take(k)));
}

proof fn lemma_all_prefix_fails(s: Seq<Value>, item: Schema, types: Map<u128, SchemaNamedType>, k: int)
    requires
        0 <= k <= s.len(),
        !all_match(models_of(s.take(k)), item, types),
    ensures
        !all_match(models_of(s), item, types),
    decreases s.len() - k,
{
    if k < s.len() {
        lemma_models_step(s, k);
        lemma_all_prefix_fails(s, item, types, k + 1);
    } else {
        assert(s.take(k) =~= s);
    }
}

proof fn lemma_pairs_prefix_fails(
    s: Seq<(Value, Value)>,
    ks: Schema,
    vs: Schema,
    types: Map<u128, SchemaNamedType>,
    k: int,
)
    requires
        0 <= k <= s.len(),
        !pairs_match(pair_models_of(s.take(k)), ks, vs, types),
    ensures
        !pairs_match(pair_models_of(s), ks, vs, types),
    decreases s.len() - k,
{
    if k < s.len() {
        lemma_pair_models_step(s, k);
        lemma_pairs_prefix_fails(s, ks, vs, types, k + 1);
    } else {
        assert(s.take(k) =~= s);
    }
}

proof fn lemma_fields_prefix_fails(
    s: Seq<(String, Value)>,
    fields: Seq<SchemaRecordField>,
    types: Map<u128, SchemaNamedType>,
    k: int,
)
    requires
        0 <= k <= s.len(),
        !fields_match(field_models_of(s.take(k)), fields, types),
    ensures
        !fields_match(field_models_of(s), fields, types),
    decreases s.len() - k,
{
    if k < s.len() {
        lemma_field_models_step(s, k);
        lemma_fields_prefix_fails(s, fields, types, k + 1);
    } else {
        assert(s.take(k) =~= s);
    }
}


/// The default value for a property of schema `s`; enums default to the value recorded
/// in `defaults` (their first symbol).
pub open spec fn default_model(s: Schema, defaults: Map<u128, ValueModel>) -> ValueModel {
    match s {
        Schema::Nullable(_) => ValueModel::Nullable(None),
        Schema::Boolean => ValueModel::Boolean(false),
        Schema::I32 => ValueModel::I32(0),
        Schema::I64 => ValueModel::I64(0),
        Schema::U32 => ValueModel::U32(0),
        Schema::U64 => ValueModel::U64(0),
        Schema::F32 => ValueModel::F32(0),
        Schema::F64 => ValueModel::F64(0),
        Schema::Bytes => ValueModel::Bytes(Seq::empty()),
        Schema::String => ValueModel::String(Seq::empty()),
        Schema::StaticArray(_, _) => ValueModel::StaticArray(Seq::empty()),
        Schema::DynamicArray(_) => ValueModel::DynamicArray(Seq::empty()),
        Schema::Mapping(_, _) => ValueModel::Mapping(Seq::empty()),
        Schema::AssetRef(_) => ValueModel::AssetRef(AssetId(0)),
        Schema::Record(_) => ValueModel::Record(Seq::empty()),
        Schema::Enum(f) => defaults[f.0],
    }
}

/// An enum schema has a recorded default.
pub open spec fn default_known(s: Schema, defaults: Map<u128, ValueModel>) -> bool {
    s matches Schema::Enum(f) ==> defaults.contains_key(f.0)
}

impl Value {
    /// The default value for a property of the given schema.
    pub fn default_for_schema(schema: &Schema, schema_set: &crate::schema_set::SchemaSet) -> (r:
        Value)
        requires
            default_known(*schema, schema_set.enum_defaults()),
        ensures
            r@ == default_model(*schema, schema_set.enum_defaults()),
    {
        match schema {
            Schema::Nullable(_) => Value::Nullable(None),
            Schema::Boolean => Value::Boolean(false),
            Schema::I32 => Value::I32(0),
            Schema::I64 => Value::I64(0),
            Schema::U32 => Value::U32(0),
            Schema::U64 => Value::U64(0),
            Schema::F32 => Value::F32(0),
            Schema::F64 => Value::F64(0),
            Schema::Bytes => {
                let v: Vec<u8> = Vec::new();
                Value::Bytes(v)
            },
            Schema::String => Value::String(String::new()),
            Schema::StaticArray(_, _) => {
                let v: Vec<Value> = Vec::new();
                assert(models_of(v@) =~= Seq::<ValueModel>::empty());
                Value::StaticArray(v)
            },
            Schema::DynamicArray(_) => {
                let v: Vec<Value> = Vec::new();
                assert(models_of(v@) =~= Seq::<ValueModel>::empty());
                Value::DynamicArray(v)
            },
            Schema::Mapping(_, _) => {
                let v: Vec<(Value, Value)> = Vec::new();
                assert(pair_models_of(v@) =~= Seq::<(ValueModel, ValueModel)>::empty());
                Value::Mapping(ValueMap { properties: v })
            },
            Schema::AssetRef(_) => Value::AssetRef(AssetId::null()),
            Schema::Record(_) => {
                let v: Vec<(String, Value)> = Vec::new();
                assert(field_models_of(v@) =~= Seq::<(Seq<char>, ValueModel)>::empty());
                Value::Record(ValueRecord { properties: v })
            },
            Schema::Enum(f) => schema_set.default_value_for_enum(*f).unwrap().copy_value(),
        }
    }

    /// The value as a leaf property value, or None for containers, nullables and records.
    pub fn as_property_value(&self) -> (r: Option<PropertyValue>)
        ensures
            match r {
                Some(p) => is_leaf(self@) && p@ == self@,
                None => !is_leaf(self@),
            },
    {
        match self {
            Value::Boolean(x) => Some(PropertyValue::Boolean(*x)),
            Value::I32(x) => Some(PropertyValue::I32(*x)),
            Value::I64(x) => Some(PropertyValue::I64(*x)),
            Value::U32(x) => Some(PropertyValue::U32(*x)),
            Value::U64(x) => Some(PropertyValue::U64(*x)),
            Value::F32(x) => Some(PropertyValue::F32(*x)),
            Value::F64(x) => Some(PropertyValue::F64(*x)),
            Value::Bytes(x) => {
                let c = x.clone();
                assert(c@ =~= x@);
                Some(PropertyValue::Bytes(c))
            },
            Value::String(x) => Some(PropertyValue::String(x.clone())),
            Value::AssetRef(x) => Some(PropertyValue::AssetRef(*x)),
            Value::Enum(x) => Some(PropertyValue::Enum(x.copy_enum())),
            _ => None,
        }
    }

    pub fn is_nullable(&self) -> (r: bool)
        ensures
            r == (*self is Nullable),
    {
        match self {
            Value::Nullable(_) => true,
            _ => false,
        }
    }

    pub fn is_null(&self) -> (r: bool)
        ensures
            r == (*self matches Value::Nullable(x) && x is None),
    {
        match self {
            Value::Nullable(None) => true,
            _ => false,
        }
    }

    pub fn try_as_nullable(&self) -> (r: Option<Option<&Value>>)
        ensures
            match *self {
                Value::Nullable(x) => match x {
                    Some(b) => r == Some(Some(&*b)),
                    None => r == Some(None::<&Value>),
                },
                _ => r is None,
            },
    {
        match self {
            Value::Nullable(x) => match x {
                Some(b) => Some(Some(&**b)),
                None => Some(None),
            },
            _ => None,
        }
    }

    pub fn as_nullable(&self) -> (r: DataSetResult<Option<&Value>>)
        ensures
            match *self {
                Value::Nullable(x) => match x {
                    Some(b) => r == Ok::<Option<&Value>, DataSetError>(Some(&*b)),
                    None => r == Ok::<Option<&Value>, DataSetError>(None),
                },
                _ => r == Err::<Option<&Value>, DataSetError>(DataSetError::InvalidSchema),
            },
    {
        match self.try_as_nullable() {
            Some(x) => Ok(x),
            None => Err(DataSetError::InvalidSchema),
        }
    }

    pub fn set_nullable(&mut self, value: Option<Value>)
        ensures
            match value {
                Some(v) => *final(self) == Value::Nullable(Some(Box::new(v))),
                None => *final(self) == Value::Nullable(None),
            },
    {
        *self = match value {
            Some(v) => Value::Nullable(Some(Box::new(v))),
            None => Value::Nullable(None),
        };
    }

    pub fn is_boolean(&self) -> (r: bool)
        ensures
            r == (*self is Boolean),
    {
        match self {
            Value::Boolean(_) => true,
            _ => false,
        }
    }

    pub fn try_as_boolean(&self) -> (r: Option<bool>)
        ensures
            match *self {
                Value::Boolean(x) => r == Some(x),
                _ => r is None,
            },
    {
        match self {
            Value::Boolean(x) => Some(*x),
            _ => None,
        }
    }

    pub fn as_boolean(&self) -> (r: DataSetResult<bool>)
        ensures
            match *self {
                Value::Boolean(x) => r == Ok::<bool, DataSetError>(x),
                _ => r == Err::<bool, DataSetError>(DataSetError::InvalidSchema),
            },
    {
        match self.try_as_boolean() {
            Some(x) => Ok(x),
            None => Err(DataSetError::InvalidSchema),
        }
    }

    pub fn set_boolean(&mut self, value: bool)
        ensures
            *final(self) == Value::Boolean(value),
    {
        *self = Value::Boolean(value);
    }

    pub fn is_i32(&self) -> (r: bool)
        ensures
            r == (*self is I32),
    {
        match self {
            Value::I32(_) => true,
            _ => false,
        }
    }

    /// Integer values converted to i32 with `as` (wrapping). Floating-point values are
    /// left out.
    pub fn try_as_i32(&self) -> (r: Option<i32>)
        requires
            !(*self is F32 || *self is F64),
        ensures
            match *self {
                Value::I32(x) => r == Some(x),
                Value::U32(x) => r == Some(x as i32),
                Value::I64(x) => r == Some(x as i32),
                Value::U64(x) => r == Some(x as i32),
                _ => r is None,
            },
    {
        match self {
            Value::I32(x) => Some(*x),
            Value::U32(x) => Some(*x as i32),
            Value::I64(x) => Some(*x as i32),
            Value::U64(x) => Some(*x as i32),
            _ => None,
        }
    }

    pub fn as_i32(&self) -> (r: DataSetResult<i32>)
        requires
            !(*self is F32 || *self is F64),
        ensures
            match *self {
                Value::I32(x) => r == Ok::<i32, DataSetError>(x),
                Value::U32(x) => r == Ok::<i32, DataSetError>(x as i32),
                Value::I64(x) => r == Ok::<i32, DataSetError>(x as i32),
                Value::U64(x) => r == Ok::<i32, DataSetError>(x as i32),
                _ => r == Err::<i32, DataSetError>(DataSetError::InvalidSchema),
            },
    {
        match self.try_as_i32() {
            Some(x) => Ok(x),
            None => Err(DataSetError::InvalidSchema),
        }
    }

    pub fn set_i32(&mut self, value: i32)
        ensures
            *final(self) == Value::I32(value),
    {
        *self = Value::I32(value);
    }

    pub fn is_u32(&self) -> (r: bool)
        ensures
            r == (*self is U32),
    {
        match self {
            Value::U32(_) => true,
            _ => false,
        }
    }

    /// Integer values converted to u32 with `as` (wrapping). Floating-point values are
    /// left out.
    pub fn try_as_u32(&self) -> (r: Option<u32>)
        requires
            !(*self is F32 || *self is F64),
        ensures
            match *self {
                Value::I32(x) => r == Some(x as u32),
                Value::U32(x) => r == Some(x),
                Value::I64(x) => r == Some(x as u32),
                Value::U64(x) => r == Some(x as u32),
                _ => r is None,
            },
    {
        match self {
            Value::I32(x) => Some(*x as u32),
            Value::U32(x) => Some(*x),
            Value::I64(x) => Some(*x as u32),
            Value::U64(x) => Some(*x as u32),
            _ => None,
        }
    }

    pub fn as_u32(&self) -> (r: DataSetResult<u32>)
        requires
            !(*self is F32 || *self is F64),
        ensures
            match *self {
                Value::I32(x) => r == Ok::<u32, DataSetError>(x as u32),
                Value::U32(x) => r == Ok::<u32, DataSetError>(x),
                Value::I64(x) => r == Ok::<u32, DataSetError>(x as u32),
                Value::U64(x) => r == Ok::<u32, DataSetError>(x as u32),
                _ => r == Err::<u32, DataSetError>(DataSetError::InvalidSchema),
            },
    {
        match self.try_as_u32() {
            Some(x) => Ok(x),
            None => Err(DataSetError::InvalidSchema),
        }
    }

    pub fn set_u32(&mut self, value: u32)
        ensures
            *final(self) == Value::U32(value),
    {
        *self = Value::U32(value);
    }

    pub fn is_i64(&self) -> (r: bool)
        ensures
            r == (*self is I64),
    {
        match self {
            Value::I64(_) => true,
            _ => false,
        }
    }

    /// Integer values converted to i64 with `as` (wrapping). Floating-point values are
    /// left out.
    pub fn try_as_i64(&self) -> (r: Option<i64>)
        requires
            !(*self is F32 || *self is F64),
        ensures
            match *self {
                Value::I32(x) => r == Some(x as i64),
                Value::U32(x) => r == Some(x as i64),
                Value::I64(x) => r == Some(x),
                Value::U64(x) => r == Some(x as i64),
                _ => r is None,
            },
    {
        match self {
            Value::I32(x) => Some(*x as i64),
            Value::U32(x) => Some(*x as i64),
            Value::I64(x) => Some(*x),
            Value::U64(x) => Some(*x as i64),
            _ => None,
        }
    }

    pub fn as_i64(&self) -> (r: DataSetResult<i64>)
        requires
            !(*self is F32 || *self is F64),
        ensures
            match *self {
                Value::I32(x) => r == Ok::<i64, DataSetError>(x as i64),
                Value::U32(x) => r == Ok::<i64, DataSetError>(x as i64),
                Value::I64(x) => r == Ok::<i64, DataSetError>(x),
                Value::U64(x) => r == Ok::<i64, DataSetError>(x as i64),
                _ => r == Err::<i64, DataSetError>(DataSetError::InvalidSchema),
            },
    {
        match self.try_as_i64() {
            Some(x) => Ok(x),
            None => Err(DataSetError::InvalidSchema),
        }
    }

    pub fn set_i64(&mut self, value: i64)
        ensures
            *final(self) == Value::I64(value),
    {
        *self = Value::I64(value);
    }

    pub fn is_u64(&self) -> (r: bool)
        ensures
            r == (*self is U64),
    {
        match self {
            Value::U64(_) => true,
            _ => false,
        }
    }

    /// Integer values converted to u64 with `as` (wrapping). Floating-point values are
    /// left out.
    pub fn try_as_u64(&self) -> (r: Option<u64>)
        requires
            !(*self is F32 || *self is F64),
        ensures
            match *self {
                Value::I32(x) => r == Some(x as u64),
                Value::U32(x) => r == Some(x as u64),
                Value::I64(x) => r == Some(x as u64),
                Value::U64(x) => r == Some(x),
                _ => r is None,
            },
    {
        match self {
            Value::I32(x) => Some(*x as u64),
            Value::U32(x) => Some(*x as u64),
            Value::I64(x) => Some(*x as u64),
            Value::U64(x) => Some(*x),
            _ => None,
        }
    }

    pub fn as_u64(&self) -> (r: DataSetResult<u64>)
        requires
            !(*self is F32 || *self is F64),
        ensures
            match *self {
                Value::I32(x) => r == Ok::<u64, DataSetError>(x as u64),
                Value::U32(x) => r == Ok::<u64, DataSetError>(x as u64),
                Value::I64(x) => r == Ok::<u64, DataSetError>(x as u64),
                Value::U64(x) => r == Ok::<u64, DataSetError>(x),
                _ => r == Err::<u64, DataSetError>(DataSetError::InvalidSchema),
            },
    {
        match self.try_as_u64() {
            Some(x) => Ok(x),
            None => Err(DataSetError::InvalidSchema),
        }
    }

    pub fn set_u64(&mut self, value: u64)
        ensures
            *final(self) == Value::U64(value),
    {
        *self = Value::U64(value);
    }

    pub fn is_f32(&self) -> (r: bool)
        ensures
            r == (*self is F32),
    {
        match self {
            Value::F32(_) => true,
            _ => false,
        }
    }

    pub fn is_f64(&self) -> (r: bool)
        ensures
            r == (*self is F64),
    {
        match self {
            Value::F64(_) => true,
            _ => false,
        }
    }

    pub fn is_bytes(&self) -> (r: bool)
        ensures
            r == (*self is Bytes),
    {
        match self {
            Value::Bytes(_) => true,
            _ => false,
        }
    }

    pub fn try_as_bytes(&self) -> (r: Option<&Vec<u8>>)
        ensures
            match *self {
                Value::Bytes(x) => r == Some(&x),
                _ => r is None,
            },
    {
        match self {
            Value::Bytes(x) => Some(x),
            _ => None,
        }
    }

    pub fn as_bytes(&self) -> (r: DataSetResult<&Vec<u8>>)
        ensures
            match *self {
                Value::Bytes(x) => r == Ok::<&Vec<u8>, DataSetError>(&x),
                _ => r == Err::<&Vec<u8>, DataSetError>(DataSetError::InvalidSchema),
            },
    {
        match self.try_as_bytes() {
            Some(x) => Ok(x),
            None => Err(DataSetError::InvalidSchema),
        }
    }

    pub fn set_bytes(&mut self, value: Vec<u8>)
        ensures
            *final(self) == Value::Bytes(value),
    {
        *self = Value::Bytes(value);
    }

    pub fn is_string(&self) -> (r: bool)
        ensures
            r == (*self is String),
    {
        match self {
            Value::String(_) => true,
            _ => false,
        }
    }

    pub fn try_as_string(&self) -> (r: Option<&String>)
        ensures
            match *self {
                Value::String(x) => r == Some(&x),
                _ => r is None,
            },
    {
        match self {
            Value::String(x) => Some(x),
            _ => None,
        }
    }

    pub fn as_string(&self) -> (r: DataSetResult<&String>)
        ensures
            match *self {
                Value::String(x) => r == Ok::<&String, DataSetError>(&x),
                _ => r == Err::<&String, DataSetError>(DataSetError::InvalidSchema),
            },
    {
        match self.try_as_string() {
            Some(x) => Ok(x),
            None => Err(DataSetError::InvalidSchema),
        }
    }

    pub fn set_string(&mut self, value: String)
        ensures
            *final(self) == Value::String(value),
    {
        *self = Value::String(value);
    }

    pub fn is_asset_ref(&self) -> (r: bool)
        ensures
            r == (*self is AssetRef),
    {
        match self {
            Value::AssetRef(_) => true,
            _ => false,
        }
    }

    pub fn try_as_asset_ref(&self) -> (r: Option<AssetId>)
        ensures
            match *self {
                Value::AssetRef(x) => r == Some(x),
                _ => r is None,
            },
    {
        match self {
            Value::AssetRef(x) => Some(*x),
            _ => None,
        }
    }

    pub fn as_asset_ref(&self) -> (r: DataSetResult<AssetId>)
        ensures
            match *self {
                Value::AssetRef(x) => r == Ok::<AssetId, DataSetError>(x),
                _ => r == Err::<AssetId, DataSetError>(DataSetError::InvalidSchema),
            },
    {
        match self.try_as_asset_ref() {
            Some(x) => Ok(x),
            None => Err(DataSetError::InvalidSchema),
        }
    }

    pub fn set_asset_ref(&mut self, value: AssetId)
        ensures
            *final(self) == Value::AssetRef(value),
    {
        *self = Value::AssetRef(value);
    }

    pub fn is_record(&self) -> (r: bool)
        ensures
            r == (*self is Record),
    {
        match self {
            Value::Record(_) => true,
            _ => false,
        }
    }

    pub fn try_as_record(&self) -> (r: Option<&ValueRecord>)
        ensures
            match *self {
                Value::Record(x) => r == Some(&x),
                _ => r is None,
            },
    {
        match self {
            Value::Record(x) => Some(x),
            _ => None,
        }
    }

    pub fn as_record(&self) -> (r: DataSetResult<&ValueRecord>)
        ensures
            match *self {
                Value::Record(x) => r == Ok::<&ValueRecord, DataSetError>(&x),
                _ => r == Err::<&ValueRecord, DataSetError>(DataSetError::InvalidSchema),
            },
    {
        match self.try_as_record() {
            Some(x) => Ok(x),
            None => Err(DataSetError::InvalidSchema),
        }
    }

    pub fn set_record(&mut self, value: ValueRecord)
        ensures
            *final(self) == Value::Record(value),
    {
        *self = Value::Record(value);
    }

    pub fn is_enum(&self) -> (r: bool)
        ensures
            r == (*self is Enum),
    {
        match self {
            Value::Enum(_) => true,
            _ => false,
        }
    }

    pub fn try_as_enum(&self) -> (r: Option<&ValueEnum>)
        ensures
            match *self {
                Value::Enum(x) => r == Some(&x),
                _ => r is None,
            },
    {
        match self {
            Value::Enum(x) => Some(x),
            _ => None,
        }
    }

    pub fn as_enum(&self) -> (r: DataSetResult<&ValueEnum>)
        ensures
            match *self {
                Value::Enum(x) => r == Ok::<&ValueEnum, DataSetError>(&x),
                _ => r == Err::<&ValueEnum, DataSetError>(DataSetError::InvalidSchema),
            },
    {
        match self.try_as_enum() {
            Some(x) => Ok(x),
            None => Err(DataSetError::InvalidSchema),
        }
    }

    pub fn set_enum(&mut self, value: ValueEnum)
        ensures
            *final(self) == Value::Enum(value),
    {
        *self = Value::Enum(value);
    }

    /// The enum value for `name`: the current name of the first symbol that is called
    /// `name` or has it as an alias (an alias is translated to the symbol's name), or None
    /// when no symbol knows `name`.
    pub fn enum_value_from_string(schema_enum: &SchemaEnum, name: &str) -> (r: Option<Value>)
        ensures
            match enum_symbol_for(*schema_enum, name@) {
                Some(n) => r matches Some(v) && v@ == ValueModel::Enum(n),
                None => r is None,
            },
    {
        let mut i: usize = 0;
        while i < schema_enum.symbols.len()
            invariant
                i <= schema_enum.symbols@.len(),
                forall|j: int| 0 <= j < i ==> !symbol_knows_name(#[trigger] schema_enum.symbols@[j], name@),
            decreases schema_enum.symbols@.len() - i,
        {
            let symbol = &schema_enum.symbols[i];
            let mut found = str_eq(symbol.name.as_str(), name);
            let mut k: usize = 0;
            while k < symbol.aliases.len() && !found
                invariant
                    i < schema_enum.symbols@.len(),
                    *symbol == schema_enum.symbols@[i as int],
                    k <= symbol.aliases@.len(),
                    found ==> symbol_knows_name(schema_enum.symbols@[i as int], name@),
                    !found ==> symbol.name@ != name@,
                    !found ==> forall|j: int| 0 <= j < k ==> (#[trigger] symbol.aliases@[j])@ != name@,
                decreases symbol.aliases@.len() - k,
            {
                if str_eq(symbol.aliases[k].as_str(), name) {
                    assert(symbol.aliases@[k as int]@ == name@);
                    found = true;
                }
                k = k + 1;
            }
            if found {
                proof {
                    lemma_first_symbol_unique(*schema_enum, name@, i as int);
                }
                return Some(Value::Enum(ValueEnum::new(symbol.name.clone())));
            }
            assert(!symbol_knows_name(schema_enum.symbols@[i as int], name@));
            i = i + 1;
        }
        proof {
            if exists|j: int| first_symbol_at(*schema_enum, name@, j) {
                let j = choose|j: int| first_symbol_at(*schema_enum, name@, j);
                assert(!symbol_knows_name(schema_enum.symbols@[j], name@));
            }
        }
        None
    }
}

/// The symbol is called `name` or has `name` as an alias.
pub open spec fn symbol_knows_name(sym: crate::schema::SchemaEnumSymbol, name: Seq<char>) -> bool {
    sym.name@ == name || exists|j: int| 0 <= j < sym.aliases@.len() && (#[trigger] sym.aliases@[j])@ == name
}

/// Symbol `i` is the first symbol of the enum that knows `name`.
pub open spec fn first_symbol_at(e: SchemaEnum, name: Seq<char>, i: int) -> bool {
    &&& 0 <= i < e.symbols@.len()
    &&& symbol_knows_name(e.symbols@[i], name)
    &&& forall|j: int| 0 <= j < i ==> !symbol_knows_name(#[trigger] e.symbols@[j], name)
}

/// The current name of the first symbol that knows `name`, if any does.
pub open spec fn enum_symbol_for(e: SchemaEnum, name: Seq<char>) -> Option<Seq<char>> {
    if exists|i: int| first_symbol_at(e, name, i) {
        Some(e.symbols@[choose|i: int| first_symbol_at(e, name, i)].name@)
    } else {
        None
    }
}

/// An enum value holds its symbol's current name (what reading the name back gives);
/// every other value qualifies.
pub open spec fn canonical_leaf(v: ValueModel, s: Schema, types: Map<u128, SchemaNamedType>) -> bool {
    match v {
        ValueModel::Enum(name) => match s {
            Schema::Enum(f) => match types[f.0] {
                SchemaNamedType::Enum(e) => enum_symbol_for(e, name) == Some(name),
                SchemaNamedType::Record(_) => true,
            },
            _ => true,
        },
        _ => true,
    }
}

/// There is at most one first symbol.
pub proof fn lemma_first_symbol_unique(e: SchemaEnum, name: Seq<char>, i: int)
    requires
        first_symbol_at(e, name, i),
    ensures
        enum_symbol_for(e, name) == Some(e.symbols@[i].name@),
{
    let j = choose|j: int| first_symbol_at(e, name, j);
    if j < i {
        assert(!symbol_knows_name(e.symbols@[j], name));
    }
    if i < j {
        assert(!symbol_knows_name(e.symbols@[i], name));
    }
}

/// The f32 with these bits is a NaN.
pub open spec fn f32_is_nan(b: u32) -> bool {
    b & 0x7f80_0000u32 == 0x7f80_0000u32 && b & 0x007f_ffffu32 != 0
}

/// The f64 with these bits is a NaN.
pub open spec fn f64_is_nan(b: u64) -> bool {
    b & 0x7ff0_0000_0000_0000u64 == 0x7ff0_0000_0000_0000u64 && b & 0x000f_ffff_ffff_ffffu64 != 0
}

/// The f32 numbers with these bits are equal as IEEE numbers: neither is a NaN, and the bits
/// are the same or both are zeros (+0.0 and -0.0 are equal).
pub open spec fn f32_bits_equal(a: u32, b: u32) -> bool {
    !f32_is_nan(a) && !f32_is_nan(b) && (a == b || (a & 0x7fff_ffffu32 == 0 && b & 0x7fff_ffffu32 == 0))
}

/// The f64 numbers with these bits are equal as IEEE numbers (see `f32_bits_equal`).
pub open spec fn f64_bits_equal(a: u64, b: u64) -> bool {
    !f64_is_nan(a) && !f64_is_nan(b) && (a == b || (a & 0x7fff_ffff_ffff_ffffu64 == 0 && b
        & 0x7fff_ffff_ffff_ffffu64 == 0))
}

/// Two values are leaf values of the same kind with equal content; floating-point
/// payloads are compared as IEEE numbers.
pub open spec fn leaf_values_equal(a: ValueModel, b: ValueModel) -> bool {
    match (a, b) {
        (ValueModel::F32(x), ValueModel::F32(y)) => f32_bits_equal(x, y),
        (ValueModel::F64(x), ValueModel::F64(y)) => f64_bits_equal(x, y),
        _ => is_leaf(a) && a == b,
    }
}

fn f32_bits_eq(a: u32, b: u32) -> (r: bool)
    ensures
        r == f32_bits_equal(a, b),
{
    let a_nan = a & 0x7f80_0000u32 == 0x7f80_0000u32 && a & 0x007f_ffffu32 != 0;
    let b_nan = b & 0x7f80_0000u32 == 0x7f80_0000u32 && b & 0x007f_ffffu32 != 0;
    !a_nan && !b_nan && (a == b || (a & 0x7fff_ffffu32 == 0 && b & 0x7fff_ffffu32 == 0))
}

fn f64_bits_eq(a: u64, b: u64) -> (r: bool)
    ensures
        r == f64_bits_equal(a, b),
{
    let a_nan = a & 0x7ff0_0000_0000_0000u64 == 0x7ff0_0000_0000_0000u64 && a & 0x000f_ffff_ffff_ffffu64 != 0;
    let b_nan = b & 0x7ff0_0000_0000_0000u64 == 0x7ff0_0000_0000_0000u64 && b & 0x000f_ffff_ffff_ffffu64 != 0;
    !a_nan && !b_nan && (a == b || (a & 0x7fff_ffff_ffff_ffffu64 == 0 && b & 0x7fff_ffff_ffff_ffffu64
        == 0))
}

fn bytes_eq(a: &Vec<u8>, b: &Vec<u8>) -> (r: bool)
    ensures
        r == (a@ == b@),
{
    if a.len() != b.len() {
        return false;
    }
    let mut i: usize = 0;
    while i < a.len()
        invariant
            a@.len() == b@.len(),
            i <= a@.len(),
            forall|j: int| 0 <= j < i ==> a@[j] == b@[j],
        decreases a@.len() - i,
    {
        if a[i] != b[i] {
            return false;
        }
        i = i + 1;
    }
    assert(a@ =~= b@);
    true
}

impl PropertyValue {
    /// The value this property value stands for.
    pub fn as_value(&self) -> (r: Value)
        ensures
            r@ == self@,
    {
        match self {
            PropertyValue::Boolean(x) => Value::Boolean(*x),
            PropertyValue::I32(x) => Value::I32(*x),
            PropertyValue::I64(x) => Value::I64(*x),
            PropertyValue::U32(x) => Value::U32(*x),
            PropertyValue::U64(x) => Value::U64(*x),
            PropertyValue::F32(x) => Value::F32(*x),
            PropertyValue::F64(x) => Value::F64(*x),
            PropertyValue::Bytes(x) => {
                let c = x.clone();
                assert(c@ =~= x@);
                Value::Bytes(c)
            },
            PropertyValue::String(x) => Value::String(x.clone()),
            PropertyValue::AssetRef(x) => Value::AssetRef(*x),
            PropertyValue::Enum(x) => Value::Enum(x.copy_enum()),
        }
    }

    /// Whether both values are leaf values of the same kind and equal content, with
    /// floating-point payloads compared as IEEE numbers (see `leaf_values_equal`).
    pub fn are_matching_property_values(lhs: &Value, rhs: &Value) -> (r: bool)
        ensures
            r == leaf_values_equal(lhs@, rhs@),
    {
        match (lhs, rhs) {
            (Value::Boolean(a), Value::Boolean(b)) => *a == *b,
            (Value::I32(a), Value::I32(b)) => *a == *b,
            (Value::I64(a), Value::I64(b)) => *a == *b,
            (Value::U32(a), Value::U32(b)) => *a == *b,
            (Value::U64(a), Value::U64(b)) => *a == *b,
            (Value::F32(a), Value::F32(b)) => f32_bits_eq(*a, *b),
            (Value::F64(a), Value::F64(b)) => f64_bits_eq(*a, *b),
            (Value::Bytes(a), Value::Bytes(b)) => bytes_eq(a, b),
            (Value::String(a), Value::String(b)) => *a == *b,
            (Value::AssetRef(a), Value::AssetRef(b)) => *a == *b,
            (Value::Enum(a), Value::Enum(b)) => a.symbol_name == b.symbol_name,
            _ => false,
        }
    }
}

} // verus!
