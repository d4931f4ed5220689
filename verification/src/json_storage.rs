use vstd::prelude::*;
use crate::data_set::{entry_models, parse_uuid, uuid_parse, value_models};
use crate::ordered_set::OrderedSet;
use crate::path::{append_str, strings_view, to_owned_string};
use crate::path_reference::{
    last_occurrence, name_delimiter, namespace_delimiter, parsable_reference, parsed_reference,
    path_is_relative, reference_text, rfind, substring, PathReference, PathReferenceNamespaceResolver,
};
use crate::prop_map::{PathSet, PropertyMap};
use crate::schema::{property_schema_of, schema_closed, types_closed, SchemaFingerprint, SchemaRecord};
use crate::field_wrappers::{hyphenated_uuid, uuid_text};
use crate::data_set::{import_model, new_random_uuid, BuildInfo, DataSetAssetInfo, ImportInfo, ImportInfoModel};
use crate::single_object::{ObjectModel, SingleObject};
use crate::json_round_trip::{
    asset_load_state, asset_round_trips, lemma_asset_loads_back, lemma_object_loads_back,
    object_load_state, object_round_trips,
};
use std::collections::HashMap;
use crate::ids::{
    AssetId, AssetLocation, AssetName, DataSetError, DataSetResult, ImportableName, ImporterId,
    NullOverride,
};
use crate::path::str_eq;
use crate::schema::{Schema, SchemaNamedType};
use crate::schema_set::SchemaSet;
use crate::value::{canonical_leaf, enum_symbol_for, Value, ValueModel};

verus! {

/// What the storage code reads of a JSON number: the number as each of the
/// representations it may be asked for (None where the number has none, as
/// `serde_json::Number::as_i64` and the like give None), floating-point values by
/// their bits.
#[derive(Clone, Copy, Debug, PartialEq, Eq, Structural)]
pub struct JsonNumber {
    pub as_i64: Option<i64>,
    pub as_u64: Option<u64>,
    pub as_f64_bits: Option<u64>,
    pub as_f32_bits: Option<u32>,
}

/// A JSON document.
#[derive(Debug)]
pub enum JsonValue {
    Null,
    Bool(bool),
    Number(JsonNumber),
    String(String),
    Array(Vec<JsonValue>),
    Object(Vec<(String, JsonValue)>),
}

/// The content of a JSON document: strings, arrays and members become sequences.
pub enum JsonModel {
    Null,
    Bool(bool),
    Number(JsonNumber),
    String(Seq<char>),
    Array(Seq<JsonModel>),
    Object(Seq<(Seq<char>, JsonModel)>),
}

pub open spec fn json_model(v: JsonValue) -> JsonModel
    decreases v, 1int,
{
    match v {
        JsonValue::Null => JsonModel::Null,
        JsonValue::Bool(b) => JsonModel::Bool(b),
        JsonValue::Number(n) => JsonModel::Number(n),
        JsonValue::String(s) => JsonModel::String(s@),
        JsonValue::Array(a) => JsonModel::Array(json_models_of(a@)),
        JsonValue::Object(m) => JsonModel::Object(json_members_of(m@)),
    }
}

pub open spec fn json_models_of(s: Seq<JsonValue>) -> Seq<JsonModel>
    decreases s, 0int,
{
    if s.len() == 0 {
        Seq::empty()
    } else {
        json_models_of(s.drop_last()).push(json_model(s.last()))
    }
}

pub open spec fn json_members_of(s: Seq<(String, JsonValue)>) -> Seq<(Seq<char>, JsonModel)>
    decreases s, 0int,
{
    if s.len() == 0 {
        Seq::empty()
    } else {
        json_members_of(s.drop_last()).push((s.last().0@, json_model(s.last().1)))
    }
}

impl View for JsonValue {
    type V = JsonModel;

    open spec fn view(&self) -> JsonModel {
        json_model(*self)
    }
}

/// An integer as a JSON number.
pub open spec fn int_number(x: int) -> JsonNumber {
    JsonNumber {
        as_i64: if i64::MIN <= x <= i64::MAX {
            Some(x as i64)
        } else {
            None
        },
        as_u64: if 0 <= x <= u64::MAX {
            Some(x as u64)
        } else {
            None
        },
        as_f64_bits: None,
        as_f32_bits: None,
    }
}

fn number_of_i64(x: i64) -> (r: JsonNumber)
    ensures
        r == int_number(x as int),
{
    JsonNumber {
        as_i64: Some(x),
        as_u64: if x >= 0 {
            Some(x as u64)
        } else {
            None
        },
        as_f64_bits: None,
        as_f32_bits: None,
    }
}

fn number_of_u64(x: u64) -> (r: JsonNumber)
    ensures
        r == int_number(x as int),
{
    JsonNumber {
        as_i64: if x <= 0x7fff_ffff_ffff_ffffu64 {
            Some(x as i64)
        } else {
            None
        },
        as_u64: Some(x),
        as_f64_bits: None,
        as_f32_bits: None,
    }
}

/// The character of the standard base64 alphabet for the six-bit value `n`.
pub open spec fn base64_char(n: int) -> char {
    if n < 26 {
        ('A' as int + n) as char
    } else if n < 52 {
        ('a' as int + (n - 26)) as char
    } else if n < 62 {
        ('0' as int + (n - 52)) as char
    } else if n == 62 {
        '+'
    } else {
        '/'
    }
}

/// Standard base64 with padding, what `base64::encode` gives for `data`: each group of
/// three bytes becomes four characters of six bits each; a last group of one or two bytes
/// is padded with `=`.
pub open spec fn base64_text(data: Seq<u8>) -> Seq<char>
    decreases data.len(),
{
    let b0 = if data.len() > 0 { data[0] as int } else { 0 };
    let b1 = if data.len() > 1 { data[1] as int } else { 0 };
    let b2 = if data.len() > 2 { data[2] as int } else { 0 };
    if data.len() == 0 {
        Seq::empty()
    } else if data.len() == 1 {
        seq![base64_char(b0 / 4), base64_char((b0 % 4) * 16), '=', '=']
    } else if data.len() == 2 {
        seq![base64_char(b0 / 4), base64_char((b0 % 4) * 16 + b1 / 16), base64_char((b1 % 16) * 4), '=']
    } else {
        seq![
            base64_char(b0 / 4),
            base64_char((b0 % 4) * 16 + b1 / 16),
            base64_char((b1 % 16) * 4 + b2 / 64),
            base64_char(b2 % 64),
        ] + base64_text(data.subrange(3, data.len() as int))
    }
}

/// What `base64::decode` gives for `text` (standard alphabet), None when it fails.
pub uninterp spec fn base64_bytes(text: Seq<char>) -> Option<Seq<u8>>;

/// `base64::encode` of `data`: standard padded base64 (`base64_text`). Decoding what it
/// gives yields `data` again, as the crate's documentation and round-trip tests show.
#[verifier::external_body]
fn base64_encode(data: &Vec<u8>) -> (r: String)
    ensures
        r@ == base64_text(data@),
        base64_bytes(r@) == Some(data@),
{
    base64::encode(data.as_slice())
}

/// `base64::decode` of `text`; the crate's error becomes None.
#[verifier::external_body]
fn base64_decode(text: &str) -> (r: Option<Vec<u8>>)
    ensures
        match r {
            Some(v) => base64_bytes(text@) == Some(v@),
            None => base64_bytes(text@) is None,
        },
{
    match base64::decode(text) {
        Ok(v) => Some(v),
        Err(_) => None,
    }
}

/// A leaf value: everything but nullables, arrays, maps and records.
pub open spec fn is_stored_leaf(v: ValueModel) -> bool {
    !(v is Nullable || v is StaticArray || v is DynamicArray || v is Mapping || v is Record)
}

/// The JSON form of a leaf value. Bytes go to the buffer list when there is one (the
/// JSON holds their index, `buffer_count`) and are written inline in base64 otherwise.
pub open spec fn leaf_json(v: ValueModel, buffer_count: Option<nat>) -> JsonModel {
    match v {
        ValueModel::Boolean(x) => JsonModel::Bool(x),
        ValueModel::I32(x) => JsonModel::Number(int_number(x as int)),
        ValueModel::I64(x) => JsonModel::Number(int_number(x as int)),
        ValueModel::U32(x) => JsonModel::Number(int_number(x as int)),
        ValueModel::U64(x) => JsonModel::Number(int_number(x as int)),
        ValueModel::F32(b) => JsonModel::Number(
            JsonNumber { as_i64: None, as_u64: None, as_f64_bits: None, as_f32_bits: Some(b) },
        ),
        ValueModel::F64(b) => JsonModel::Number(
            JsonNumber { as_i64: None, as_u64: None, as_f64_bits: Some(b), as_f32_bits: None },
        ),
        ValueModel::Bytes(x) => match buffer_count {
            Some(i) => JsonModel::Number(int_number(i as int)),
            None => JsonModel::String(base64_text(x)),
        },
        ValueModel::String(s) => JsonModel::String(s),
        ValueModel::AssetRef(id) => JsonModel::String(hyphenated_uuid(id.0)),
        ValueModel::Enum(s) => JsonModel::String(s),
        _ => JsonModel::Null,
    }
}

/// The buffer list after storing `v`: a byte buffer is appended to it.
pub open spec fn buffers_after(v: ValueModel, buffers: Option<Seq<Seq<u8>>>) -> Option<Seq<Seq<u8>>> {
    match (v, buffers) {
        (ValueModel::Bytes(x), Some(b)) => Some(b.push(x)),
        _ => buffers,
    }
}

pub open spec fn buffers_view(b: Option<Vec<Vec<u8>>>) -> Option<Seq<Seq<u8>>> {
    match b {
        Some(v) => Some(v@.map_values(|x: Vec<u8>| x@)),
        None => None,
    }
}

pub open spec fn buffer_count(b: Option<Seq<Seq<u8>>>) -> Option<nat> {
    match b {
        Some(s) => Some(s.len()),
        None => None,
    }
}

/// The JSON form of a leaf value (see `leaf_json`).
pub fn property_value_to_json(value: &Value, buffers: &mut Option<Vec<Vec<u8>>>) -> (r: JsonValue)
    requires
        is_stored_leaf(value@),
    ensures
        r@ == leaf_json(value@, buffer_count(buffers_view(*old(buffers)))),
        buffers_view(*final(buffers)) == buffers_after(value@, buffers_view(*old(buffers))),
        forall|s: Schema, types: Map<u128, SchemaNamedType>|
            #![trigger json_leaf_value(s, r@, buffers_view(*final(buffers)), types)]
            crate::value::value_matches(value@, s, types) && schema_closed(s, types) && canonical_leaf(value@, s, types)
                ==> json_leaf_value(s, r@, buffers_view(*final(buffers)), types) == Some(value@),
{
    match value {
        Value::Boolean(x) => JsonValue::Bool(*x),
        Value::I32(x) => JsonValue::Number(number_of_i64(*x as i64)),
        Value::I64(x) => JsonValue::Number(number_of_i64(*x)),
        Value::U32(x) => JsonValue::Number(number_of_u64(*x as u64)),
        Value::U64(x) => JsonValue::Number(number_of_u64(*x)),
        Value::F32(b) => JsonValue::Number(
            JsonNumber { as_i64: None, as_u64: None, as_f64_bits: None, as_f32_bits: Some(*b) },
        ),
        Value::F64(b) => JsonValue::Number(
            JsonNumber { as_i64: None, as_u64: None, as_f64_bits: Some(*b), as_f32_bits: None },
        ),
        Value::Bytes(x) => {
            match buffers {
                Some(b) => {
                    let ghost old_b = b@;
                    let index = b.len();
                    b.push(x.clone());
                    proof {
                        assert(b@.map_values(|y: Vec<u8>| y@) =~= old_b.map_values(
                            |y: Vec<u8>| y@,
                        ).push(x@));
                    }
                    JsonValue::Number(number_of_u64(index as u64))
                },
                None => JsonValue::String(base64_encode(x)),
            }
        },
        Value::String(x) => JsonValue::String(x.clone()),
        Value::AssetRef(x) => JsonValue::String(uuid_text(x.0)),
        Value::Enum(x) => JsonValue::String(x.symbol_name.clone()),
        _ => JsonValue::Null,
    }
}

/// The leaf value a JSON value stands for under `schema`, or None when it cannot be read
/// so (the wrong kind of JSON value, a buffer index out of range, text that is not
/// base64 or a UUID, a symbol the enum does not know, or a schema that is not a leaf). An
/// enum symbol read by an alias gives the symbol's current name.
pub open spec fn json_leaf_value(
    schema: Schema,
    j: JsonModel,
    buffers: Option<Seq<Seq<u8>>>,
    types: Map<u128, SchemaNamedType>,
) -> Option<ValueModel> {
    match schema {
        Schema::Boolean => match j {
            JsonModel::Bool(b) => Some(ValueModel::Boolean(b)),
            _ => None,
        },
        Schema::I32 => match j {
            JsonModel::Number(n) => match n.as_i64 {
                Some(x) => Some(ValueModel::I32(x as i32)),
                None => None,
            },
            _ => None,
        },
        Schema::I64 => match j {
            JsonModel::Number(n) => match n.as_i64 {
                Some(x) => Some(ValueModel::I64(x)),
                None => None,
            },
            _ => None,
        },
        Schema::U32 => match j {
            JsonModel::Number(n) => match n.as_u64 {
                Some(x) => Some(ValueModel::U32(x as u32)),
                None => None,
            },
            _ => None,
        },
        Schema::U64 => match j {
            JsonModel::Number(n) => match n.as_u64 {
                Some(x) => Some(ValueModel::U64(x)),
                None => None,
            },
            _ => None,
        },
        Schema::F32 => match j {
            JsonModel::Number(n) => match n.as_f32_bits {
                Some(x) => Some(ValueModel::F32(x)),
                None => None,
            },
            _ => None,
        },
        Schema::F64 => match j {
            JsonModel::Number(n) => match n.as_f64_bits {
                Some(x) => Some(ValueModel::F64(x)),
                None => None,
            },
            _ => None,
        },
        Schema::Bytes => match buffers {
            Some(bs) => match j {
                JsonModel::Number(n) => match n.as_u64 {
                    Some(i) => if i < bs.len() {
                        Some(ValueModel::Bytes(bs[i as int]))
                    } else {
                        None
                    },
                    None => None,
                },
                _ => None,
            },
            None => match j {
                JsonModel::String(t) => match base64_bytes(t) {
                    Some(d) => Some(ValueModel::Bytes(d)),
                    None => None,
                },
                _ => None,
            },
        },
        Schema::String => match j {
            JsonModel::String(t) => Some(ValueModel::String(t)),
            _ => None,
        },
        Schema::AssetRef(_) => match j {
            JsonModel::String(t) => match uuid_parse(t) {
                Some(u) => Some(ValueModel::AssetRef(AssetId(u))),
                None => None,
            },
            _ => None,
        },
        Schema::Enum(f) => if types.contains_key(f.0) {
            match types[f.0] {
                SchemaNamedType::Enum(e) => match j {
                    JsonModel::String(t) => match enum_symbol_for(e, t) {
                        Some(n) => Some(ValueModel::Enum(n)),
                        None => None,
                    },
                    _ => None,
                },
                SchemaNamedType::Record(_) => None,
            }
        } else {
            None
        },
        _ => None,
    }
}

fn json_as_i64(value: &JsonValue) -> (r: Option<i64>)
    ensures
        r == (match value@ {
            JsonModel::Number(n) => n.as_i64,
            _ => None,
        }),
{
    match value {
        JsonValue::Number(n) => n.as_i64,
        _ => None,
    }
}

fn json_as_u64(value: &JsonValue) -> (r: Option<u64>)
    ensures
        r == (match value@ {
            JsonModel::Number(n) => n.as_u64,
            _ => None,
        }),
{
    match value {
        JsonValue::Number(n) => n.as_u64,
        _ => None,
    }
}

fn json_as_str(value: &JsonValue) -> (r: Option<&str>)
    ensures
        match value@ {
            JsonModel::String(t) => r matches Some(s) && s@ == t,
            _ => r is None,
        },
{
    match value {
        JsonValue::String(s) => Some(s.as_str()),
        _ => None,
    }
}

/// Reads a leaf value of `schema` from its JSON form (see `json_leaf_value`); a value
/// that cannot be read so is a `StorageFormatError`.
pub fn json_to_property_value_with_schema(
    schema_set: &SchemaSet,
    schema: &Schema,
    value: &JsonValue,
    buffers: &Option<Vec<Vec<u8>>>,
) -> (r: DataSetResult<Value>)
    ensures
        match json_leaf_value(*schema, value@, buffers_view(*buffers), schema_set.types()) {
            Some(v) => r matches Ok(x) && x@ == v,
            None => r == Err::<Value, DataSetError>(DataSetError::StorageFormatError),
        },
{
    let bad = DataSetError::StorageFormatError;
    match schema {
        Schema::Boolean => match value {
            JsonValue::Bool(b) => Ok(Value::Boolean(*b)),
            _ => Err(bad),
        },
        Schema::I32 => match json_as_i64(value) {
            Some(x) => Ok(Value::I32(x as i32)),
            None => Err(bad),
        },
        Schema::I64 => match json_as_i64(value) {
            Some(x) => Ok(Value::I64(x)),
            None => Err(bad),
        },
        Schema::U32 => match json_as_u64(value) {
            Some(x) => Ok(Value::U32(x as u32)),
            None => Err(bad),
        },
        Schema::U64 => match json_as_u64(value) {
            Some(x) => Ok(Value::U64(x)),
            None => Err(bad),
        },
        Schema::F32 => match value {
            JsonValue::Number(n) => match n.as_f32_bits {
                Some(x) => Ok(Value::F32(x)),
                None => Err(bad),
            },
            _ => Err(bad),
        },
        Schema::F64 => match value {
            JsonValue::Number(n) => match n.as_f64_bits {
                Some(x) => Ok(Value::F64(x)),
                None => Err(bad),
            },
            _ => Err(bad),
        },
        Schema::Bytes => match buffers {
            Some(bs) => match json_as_u64(value) {
                Some(i) => if i < bs.len() as u64 {
                    Ok(Value::Bytes(bs[i as usize].clone()))
                } else {
                    Err(bad)
                },
                None => Err(bad),
            },
            None => match json_as_str(value) {
                Some(t) => match base64_decode(t) {
                    Some(d) => Ok(Value::Bytes(d)),
                    None => Err(bad),
                },
                None => Err(bad),
            },
        },
        Schema::String => match value {
            JsonValue::String(t) => Ok(Value::String(t.clone())),
            _ => Err(bad),
        },
        Schema::AssetRef(_) => match json_as_str(value) {
            Some(t) => match parse_uuid(t) {
                Some(u) => Ok(Value::AssetRef(AssetId(u))),
                None => Err(bad),
            },
            None => Err(bad),
        },
        Schema::Enum(f) => match schema_set.schemas().get(&f.0) {
            Some(SchemaNamedType::Enum(e)) => match json_as_str(value) {
                Some(t) => match Value::enum_value_from_string(e, t) {
                    Some(v) => Ok(v),
                    None => Err(bad),
                },
                None => Err(bad),
            },
            _ => Err(bad),
        },
        _ => Err(bad),
    }
}

/// The text a stored null override is written as (`Unset` is never stored).
pub open spec fn null_override_text(n: NullOverride) -> Seq<char> {
    match n {
        NullOverride::SetNull => "SetNull"@,
        NullOverride::SetNonNull => "SetNonNull"@,
        NullOverride::Unset => Seq::empty(),
    }
}

/// The null override a stored text names, if any.
pub open spec fn null_override_named(t: Seq<char>) -> Option<NullOverride> {
    if t == "SetNull"@ {
        Some(NullOverride::SetNull)
    } else if t == "SetNonNull"@ {
        Some(NullOverride::SetNonNull)
    } else {
        None
    }
}

pub fn null_override_to_string_value(null_override: NullOverride) -> (r: &'static str)
    requires
        null_override != NullOverride::Unset,
    ensures
        r@ == null_override_text(null_override),
{
    match null_override {
        NullOverride::SetNull => "SetNull",
        _ => "SetNonNull",
    }
}

pub fn string_to_null_override_value(s: &str) -> (r: Option<NullOverride>)
    ensures
        r == null_override_named(s@),
{
    if str_eq(s, "SetNull") {
        Some(NullOverride::SetNull)
    } else if str_eq(s, "SetNonNull") {
        Some(NullOverride::SetNonNull)
    } else {
        None
    }
}

/// What loading the stored properties of an object builds.
pub struct LoadState {
    pub properties: Map<Seq<char>, ValueModel>,
    pub null_overrides: Map<Seq<char>, NullOverride>,
    pub replace_mode: Set<Seq<char>>,
    pub entries: Map<Seq<char>, Seq<u128>>,
}

pub open spec fn empty_load_state() -> LoadState {
    LoadState {
        properties: Map::empty(),
        null_overrides: Map::empty(),
        replace_mode: Set::empty(),
        entries: Map::empty(),
    }
}

/// The entries listed for `path` so far.
pub open spec fn listed(m: Map<Seq<char>, Seq<u128>>, path: Seq<char>) -> Seq<u128> {
    if m.contains_key(path) {
        m[path]
    } else {
        Seq::empty()
    }
}

/// `e` with each of `ids` appended that it does not list yet.
pub open spec fn append_missing(e: Seq<u128>, ids: Seq<u128>) -> Seq<u128>
    decreases ids.len(),
{
    if ids.len() == 0 {
        e
    } else {
        let e2 = append_missing(e, ids.drop_last());
        if e2.contains(ids.last()) {
            e2
        } else {
            e2.push(ids.last())
        }
    }
}

/// The UUIDs a JSON array lists, None when an item is not a UUID string.
pub open spec fn json_uuids(items: Seq<JsonModel>) -> Option<Seq<u128>>
    decreases items.len(),
{
    if items.len() == 0 {
        Some(Seq::empty())
    } else {
        match (json_uuids(items.drop_last()), items.last()) {
            (Some(ids), JsonModel::String(t)) => match uuid_parse(t) {
                Some(u) => Some(ids.push(u)),
                None => None,
            },
            _ => None,
        }
    }
}

/// What a stored entry whose path ends in `.null_override` or `.replace` does to the
/// state, when the part before names a nullable or a dynamic array; None when the entry
/// is an ordinary property. A path whose part before the last '.' is not a property
/// cannot be read.
pub open spec fn load_marker(
    st: LoadState,
    f: SchemaFingerprint,
    types: Map<u128, SchemaNamedType>,
    path: Seq<char>,
    j: JsonModel,
    keep_replace: bool,
) -> Option<DataSetResult<LoadState>> {
    let d = last_occurrence(path, seq!['.']);
    if d < 0 {
        None
    } else {
        let parent = path.subrange(0, d);
        let end = path.subrange(d + 1, path.len() as int);
        match property_schema_of(f, parent, types) {
            None => Some(Err(DataSetError::StorageFormatError)),
            Some(ps) => if ps is Nullable && end == "null_override"@ {
                match j {
                    JsonModel::String(t) => match null_override_named(t) {
                        Some(n) => Some(
                            Ok(LoadState { null_overrides: st.null_overrides.insert(parent, n), ..st }),
                        ),
                        None => Some(Err(DataSetError::StorageFormatError)),
                    },
                    _ => Some(Err(DataSetError::StorageFormatError)),
                }
            } else if ps is DynamicArray && end == "replace"@ {
                Some(
                    Ok(
                        if keep_replace && j == JsonModel::Bool(true) {
                            LoadState { replace_mode: st.replace_mode.insert(parent), ..st }
                        } else {
                            st
                        },
                    ),
                )
            } else {
                None
            },
        }
    }
}

/// What one stored entry does to the state.
pub open spec fn load_entry(
    st: LoadState,
    f: SchemaFingerprint,
    types: Map<u128, SchemaNamedType>,
    path: Seq<char>,
    j: JsonModel,
    buffers: Option<Seq<Seq<u8>>>,
    keep_replace: bool,
) -> DataSetResult<LoadState> {
    match load_marker(st, f, types, path, j, keep_replace) {
        Some(r) => r,
        None => match property_schema_of(f, path, types) {
            None => Err(DataSetError::StorageFormatError),
            Some(ps) => if ps is DynamicArray || ps is Mapping {
                match j {
                    JsonModel::Array(items) => match json_uuids(items) {
                        Some(ids) => Ok(
                            if ids.len() == 0 {
                                st
                            } else {
                                LoadState {
                                    entries: st.entries.insert(
                                        path,
                                        append_missing(listed(st.entries, path), ids),
                                    ),
                                    ..st
                                }
                            },
                        ),
                        None => Err(DataSetError::StorageFormatError),
                    },
                    _ => Err(DataSetError::StorageFormatError),
                }
            } else {
                match json_leaf_value(ps, j, buffers, types) {
                    Some(v) => Ok(LoadState { properties: st.properties.insert(path, v), ..st }),
                    None => Err(DataSetError::StorageFormatError),
                }
            },
        },
    }
}

/// What the stored entries, read in order, build from `st`.
pub open spec fn load_entries(
    st: LoadState,
    f: SchemaFingerprint,
    types: Map<u128, SchemaNamedType>,
    js: Seq<(Seq<char>, JsonModel)>,
    buffers: Option<Seq<Seq<u8>>>,
    keep_replace: bool,
) -> DataSetResult<LoadState>
    decreases js.len(),
{
    if js.len() == 0 {
        Ok(st)
    } else {
        match load_entries(st, f, types, js.drop_last(), buffers, keep_replace) {
            Err(e) => Err(e),
            Ok(s2) => load_entry(s2, f, types, js.last().0, js.last().1, buffers, keep_replace),
        }
    }
}

/// An error on a prefix of the entries is the error of all of them.
proof fn lemma_load_error_stays(
    st: LoadState,
    f: SchemaFingerprint,
    types: Map<u128, SchemaNamedType>,
    js: Seq<(Seq<char>, JsonModel)>,
    buffers: Option<Seq<Seq<u8>>>,
    keep_replace: bool,
    i: int,
)
    requires
        0 <= i <= js.len(),
        load_entries(st, f, types, js.take(i), buffers, keep_replace) is Err,
    ensures
        load_entries(st, f, types, js, buffers, keep_replace) == load_entries(
            st,
            f,
            types,
            js.take(i),
            buffers,
            keep_replace,
        ),
    decreases js.len() - i,
{
    if i < js.len() {
        assert(js.take(i + 1).drop_last() =~= js.take(i));
        lemma_load_error_stays(st, f, types, js, buffers, keep_replace, i + 1);
    } else {
        assert(js.take(i) =~= js);
    }
}

/// The properties, null overrides, replace-mode containers and container entries of a
/// stored object.
pub struct LoadedProperties {
    pub properties: PropertyMap<Value>,
    pub property_null_overrides: PropertyMap<NullOverride>,
    pub properties_in_replace_mode: PathSet,
    pub dynamic_collection_entries: PropertyMap<OrderedSet>,
}

impl View for LoadedProperties {
    type V = LoadState;

    open spec fn view(&self) -> LoadState {
        LoadState {
            properties: value_models(self.properties@),
            null_overrides: self.property_null_overrides@,
            replace_mode: self.properties_in_replace_mode@,
            entries: entry_models(self.dynamic_collection_entries@),
        }
    }
}

impl LoadedProperties {
    pub fn new() -> (r: LoadedProperties)
        ensures
            r@ == empty_load_state(),
    {
        let r = LoadedProperties {
            properties: PropertyMap::new(),
            property_null_overrides: PropertyMap::new(),
            properties_in_replace_mode: PathSet::new(),
            dynamic_collection_entries: PropertyMap::new(),
        };
        assert(r@.properties =~= Map::<Seq<char>, ValueModel>::empty());
        assert(r@.entries =~= Map::<Seq<char>, Seq<u128>>::empty());
        r
    }

    /// The entries of a stored dynamic array or map: each id that the JSON array lists
    /// and the entries do not list yet is appended.
    fn load_entries_of(&mut self, path: &str, items: &Vec<JsonValue>) -> (r: DataSetResult<()>)
        ensures
            match json_uuids(json_models_of(items@)) {
                Some(ids) => r is Ok && final(self)@ == (if ids.len() == 0 {
                    old(self)@
                } else {
                    LoadState {
                        entries: old(self)@.entries.insert(
                            path@,
                            append_missing(listed(old(self)@.entries, path@), ids),
                        ),
                        ..old(self)@
                    }
                }),
                None => r == Err::<(), DataSetError>(DataSetError::StorageFormatError),
            },
    {
        let ghost models = json_models_of(items@);
        let mut cur = match self.dynamic_collection_entries.get(path) {
            Some(e) => e.copy_set(),
            None => OrderedSet::new(),
        };
        let mut k: usize = 0;
        while k < items.len()
            invariant
                k <= items@.len(),
                models == json_models_of(items@),
                json_uuids(models.take(k as int)) matches Some(ids) && cur@ == append_missing(
                    listed(entry_models(self.dynamic_collection_entries@), path@),
                    ids,
                ) && ids.len() == k,
                *self == *old(self),
            decreases items@.len() - k,
        {
            proof {
                lemma_models_take(items@, k as int);
            }
            let t = match json_as_str(&items[k]) {
                Some(t) => t,
                None => {
                    proof {
                        lemma_uuids_stop(models, k as int);
                    }
                    return Err(DataSetError::StorageFormatError);
                },
            };
            let u = match parse_uuid(t) {
                Some(u) => u,
                None => {
                    proof {
                        lemma_uuids_stop(models, k as int);
                    }
                    return Err(DataSetError::StorageFormatError);
                },
            };
            let ghost ids_k = json_uuids(models.take(k as int))->0;
            proof {
                let next = models.take(k + 1);
                assert(next.drop_last() =~= models.take(k as int));
                assert(next.last() == json_model(items@[k as int]));
                assert(json_uuids(next) == Some(ids_k.push(u)));
                assert(ids_k.push(u).drop_last() =~= ids_k);
            }
            cur.try_insert_at_end(u);
            k = k + 1;
        }
        proof {
            lemma_models_len(items@);
            assert(models.take(items@.len() as int) =~= models);
        }
        if items.len() > 0 {
            self.dynamic_collection_entries.insert(to_owned_string(path), cur);
            assert(entry_models(self.dynamic_collection_entries@) =~= old(self)@.entries.insert(
                path@,
                cur@,
            ));
        }
        Ok(())
    }
}

proof fn lemma_models_take(s: Seq<JsonValue>, k: int)
    requires
        0 <= k < s.len(),
    ensures
        json_models_of(s).len() == s.len(),
        json_models_of(s).take(k + 1) == json_models_of(s).take(k).push(json_model(s[k])),
        json_models_of(s)[k] == json_model(s[k]),
    decreases s.len(),
{
    lemma_models_len(s);
    lemma_models_index(s, k);
    assert(json_models_of(s).take(k + 1) =~= json_models_of(s).take(k).push(json_model(s[k])));
}

proof fn lemma_models_len(s: Seq<JsonValue>)
    ensures
        json_models_of(s).len() == s.len(),
    decreases s.len(),
{
    if s.len() > 0 {
        lemma_models_len(s.drop_last());
    }
}

proof fn lemma_models_index(s: Seq<JsonValue>, k: int)
    requires
        0 <= k < s.len(),
    ensures
        json_models_of(s)[k] == json_model(s[k]),
    decreases s.len(),
{
    lemma_models_len(s.drop_last());
    if k < s.len() - 1 {
        lemma_models_index(s.drop_last(), k);
    }
}

/// A JSON array one of whose first `k + 1` items is not a UUID string lists no UUIDs.
proof fn lemma_uuids_stop(items: Seq<JsonModel>, k: int)
    requires
        0 <= k < items.len(),
        json_uuids(items.take(k)) is Some,
        !(items[k] matches JsonModel::String(t) && uuid_parse(t) is Some),
    ensures
        json_uuids(items) is None,
{
    assert(items.take(k + 1).drop_last() =~= items.take(k));
    lemma_uuids_none_grows(items, k + 1);
}

proof fn lemma_uuids_none_grows(items: Seq<JsonModel>, i: int)
    requires
        0 <= i <= items.len(),
        json_uuids(items.take(i)) is None,
    ensures
        json_uuids(items) is None,
    decreases items.len() - i,
{
    if i < items.len() {
        assert(items.take(i + 1).drop_last() =~= items.take(i));
        lemma_uuids_none_grows(items, i + 1);
    } else {
        assert(items.take(i) =~= items);
    }
}

impl LoadedProperties {
    /// Applies one stored entry (see `load_entry`).
    fn load_one(
        &mut self,
        rec: &SchemaRecord,
        schema_set: &SchemaSet,
        path: &str,
        value: &JsonValue,
        buffers: &Option<Vec<Vec<u8>>>,
        keep_replace: bool,
    ) -> (r: DataSetResult<()>)
        requires
            schema_set.wf(),
            schema_closed(Schema::Record(rec.fingerprint), schema_set.types()),
        ensures
            match load_entry(
                old(self)@,
                rec.fingerprint,
                schema_set.types(),
                path@,
                value@,
                buffers_view(*buffers),
                keep_replace,
            ) {
                Ok(st) => r is Ok && final(self)@ == st,
                Err(e) => r == Err::<(), DataSetError>(e),
            },
    {
        proof {
            reveal_strlit(".");
            assert("."@ =~= seq!['.']);
        }
        let bad = DataSetError::StorageFormatError;
        let n = path.unicode_len();
        match rfind(path, ".") {
            Some(d) => {
                proof {
                    crate::path_reference::lemma_last_occurrence_bounds(path@, seq!['.'], path@.len() - 1 + 1);
                }
                let parent = substring(path, 0, d);
                let end = substring(path, d + 1, n);
                match rec.find_property_schema(parent.as_str(), schema_set.schemas()) {
                    None => {
                        return Err(bad);
                    },
                    Some(ps) => {
                        if ps.is_nullable() && str_eq(end.as_str(), "null_override") {
                            let t = match json_as_str(value) {
                                Some(t) => t,
                                None => {
                                    return Err(bad);
                                },
                            };
                            match string_to_null_override_value(t) {
                                Some(o) => {
                                    self.property_null_overrides.insert(parent, o);
                                    return Ok(());
                                },
                                None => {
                                    return Err(bad);
                                },
                            }
                        } else if ps.is_dynamic_array() && str_eq(end.as_str(), "replace") {
                            if keep_replace {
                                match value {
                                    JsonValue::Bool(true) => {
                                        self.properties_in_replace_mode.insert(parent);
                                    },
                                    _ => {},
                                }
                            }
                            return Ok(());
                        }
                    },
                }
            },
            None => {},
        }
        let ps = match rec.find_property_schema(path, schema_set.schemas()) {
            Some(ps) => ps,
            None => {
                return Err(bad);
            },
        };
        if ps.is_dynamic_array() || ps.is_map() {
            match value {
                JsonValue::Array(items) => self.load_entries_of(path, items),
                _ => Err(bad),
            }
        } else {
            match json_to_property_value_with_schema(schema_set, &ps, value, buffers) {
                Ok(v) => {
                    let ghost vm = v@;
                    self.properties.insert(to_owned_string(path), v);
                    assert(value_models(self.properties@) =~= old(self)@.properties.insert(
                        path@,
                        vm,
                    ));
                    Ok(())
                },
                Err(e) => Err(e),
            }
        }
    }
}

/// Loads the stored entries of an object of record type `rec`, in order (see
/// `load_entries`); replace-mode markers are kept only when `keep_replace` is set. An
/// entry that cannot be read is a `StorageFormatError`.
pub fn load_json_properties(
    rec: &SchemaRecord,
    schema_set: &SchemaSet,
    json_properties: &Vec<(String, JsonValue)>,
    keep_replace: bool,
    buffers: &Option<Vec<Vec<u8>>>,
) -> (r: DataSetResult<LoadedProperties>)
    requires
        schema_set.wf(),
        schema_closed(Schema::Record(rec.fingerprint), schema_set.types()),
    ensures
        match load_entries(
            empty_load_state(),
            rec.fingerprint,
            schema_set.types(),
            json_members_of(json_properties@),
            buffers_view(*buffers),
            keep_replace,
        ) {
            Ok(st) => r matches Ok(l) && l@ == st,
            Err(e) => r matches Err(e2) && e2 == e,
        },
{
    let ghost js = json_members_of(json_properties@);
    let ghost bv = buffers_view(*buffers);
    let mut loaded = LoadedProperties::new();
    let mut i: usize = 0;
    proof {
        lemma_members_len(json_properties@);
    }
    while i < json_properties.len()
        invariant
            schema_set.wf(),
            schema_closed(Schema::Record(rec.fingerprint), schema_set.types()),
            i <= json_properties@.len(),
            js == json_members_of(json_properties@),
            js.len() == json_properties@.len(),
            bv == buffers_view(*buffers),
            load_entries(empty_load_state(), rec.fingerprint, schema_set.types(), js.take(i as int), bv, keep_replace)
                == Ok::<LoadState, DataSetError>(loaded@),
        decreases json_properties@.len() - i,
    {
        proof {
            lemma_members_index(json_properties@, i as int);
            assert(js.take(i + 1).drop_last() =~= js.take(i as int));
        }
        let (path, value) = (&json_properties[i].0, &json_properties[i].1);
        match loaded.load_one(rec, schema_set, path.as_str(), value, buffers, keep_replace) {
            Ok(_) => {},
            Err(e) => {
                proof {
                    lemma_load_error_stays(
                        empty_load_state(),
                        rec.fingerprint,
                        schema_set.types(),
                        js,
                        bv,
                        keep_replace,
                        i + 1,
                    );
                }
                return Err(e);
            },
        }
        i = i + 1;
    }
    proof {
        assert(js.take(json_properties@.len() as int) =~= js);
    }
    Ok(loaded)
}

proof fn lemma_members_len(s: Seq<(String, JsonValue)>)
    ensures
        json_members_of(s).len() == s.len(),
    decreases s.len(),
{
    if s.len() > 0 {
        lemma_members_len(s.drop_last());
    }
}

proof fn lemma_members_index(s: Seq<(String, JsonValue)>, k: int)
    requires
        0 <= k < s.len(),
    ensures
        json_members_of(s)[k] == (s[k].0@, json_model(s[k].1)),
    decreases s.len(),
{
    lemma_members_len(s.drop_last());
    if k < s.len() - 1 {
        lemma_members_index(s.drop_last(), k);
    }
}

/// The stored entries for null overrides: `path.null_override` and the override's text.
pub open spec fn null_pairs(s: Seq<(String, NullOverride)>) -> Seq<(Seq<char>, JsonModel)> {
    s.map_values(
        |e: (String, NullOverride)|
            (e.0@ + ".null_override"@, JsonModel::String(null_override_text(e.1))),
    )
}

/// The stored entries for containers in replace mode: `path.replace` and true.
pub open spec fn replace_pairs(paths: Seq<Seq<char>>) -> Seq<(Seq<char>, JsonModel)> {
    paths.map_values(|p: Seq<char>| (p + ".replace"@, JsonModel::Bool(true)))
}

/// The JSON array of entry ids, in the hyphenated UUID form.
pub open spec fn uuid_strings(ids: Seq<u128>) -> Seq<JsonModel> {
    ids.map_values(|u: u128| JsonModel::String(hyphenated_uuid(u)))
}

/// The stored entries for the entries of dynamic arrays and maps.
pub open spec fn entry_pairs(s: Seq<(String, OrderedSet)>) -> Seq<(Seq<char>, JsonModel)> {
    s.map_values(|e: (String, OrderedSet)| (e.0@, JsonModel::Array(uuid_strings(e.1@))))
}

/// The stored entries for property values, with the buffer list they leave.
pub open spec fn property_pairs(s: Seq<(String, Value)>, buffers: Option<Seq<Seq<u8>>>) -> (
    Seq<(Seq<char>, JsonModel)>,
    Option<Seq<Seq<u8>>>,
)
    decreases s.len(),
{
    if s.len() == 0 {
        (Seq::empty(), buffers)
    } else {
        let (p, b) = property_pairs(s.drop_last(), buffers);
        (p.push((s.last().0@, leaf_json(s.last().1@, buffer_count(b)))), buffers_after(s.last().1@, b))
    }
}

fn with_suffix(path: &String, suffix: &str) -> (r: String)
    ensures
        r@ == path@ + suffix@,
{
    let mut s = path.clone();
    append_str(&mut s, suffix);
    s
}

fn uuid_array(ids: &Vec<u128>) -> (r: JsonValue)
    ensures
        r@ == JsonModel::Array(uuid_strings(ids@)),
        json_uuids(uuid_strings(ids@)) == Some(ids@),
{
    let mut out: Vec<JsonValue> = Vec::new();
    let mut i: usize = 0;
    while i < ids.len()
        invariant
            i <= ids@.len(),
            json_models_of(out@) == uuid_strings(ids@.take(i as int)),
            json_uuids(uuid_strings(ids@.take(i as int))) == Some(ids@.take(i as int)),
        decreases ids@.len() - i,
    {
        let ghost before = out@;
        let t = uuid_text(ids[i]);
        proof {
            let u = uuid_strings(ids@.take(i + 1));
            assert(u =~= uuid_strings(ids@.take(i as int)).push(JsonModel::String(t@)));
            assert(u.drop_last() =~= uuid_strings(ids@.take(i as int)));
            assert(ids@.take(i as int).push(ids@[i as int]) =~= ids@.take(i + 1));
        }
        out.push(JsonValue::String(t));
        proof {
            assert(out@.drop_last() =~= before);
            assert(json_models_of(out@) == json_models_of(before).push(json_model(out@.last())));
            assert(uuid_strings(ids@.take(i + 1)) =~= uuid_strings(ids@.take(i as int)).push(
                JsonModel::String(hyphenated_uuid(ids@[i as int])),
            ));
        }
        i = i + 1;
    }
    assert(ids@.take(ids@.len() as int) =~= ids@);
    JsonValue::Array(out)
}

/// The stored entries of an object: its null overrides, then the containers in replace
/// mode (when given), then the entries of its dynamic arrays and maps, then its property
/// values, each in the order its map lists them. Byte buffers go to `buffers` when it is
/// set.
pub fn store_json_properties(
    properties: &PropertyMap<Value>,
    property_null_overrides: &PropertyMap<NullOverride>,
    properties_in_replace_mode: Option<&PathSet>,
    dynamic_collection_entries: &PropertyMap<OrderedSet>,
    buffers: &mut Option<Vec<Vec<u8>>>,
) -> (r: Vec<(String, JsonValue)>)
    requires
        forall|i: int|
            0 <= i < properties.entry_seq().len() ==> is_stored_leaf(
                (#[trigger] properties.entry_seq()[i]).1@,
            ),
        forall|i: int|
            0 <= i < property_null_overrides.entry_seq().len() ==> (
            #[trigger] property_null_overrides.entry_seq()[i]).1 != NullOverride::Unset,
    ensures
        json_members_of(r@) == null_pairs(property_null_overrides.entry_seq()) + (match properties_in_replace_mode {
            Some(p) => replace_pairs(p.path_seq()),
            None => Seq::empty(),
        }) + entry_pairs(dynamic_collection_entries.entry_seq()) + property_pairs(
            properties.entry_seq(),
            buffers_view(*old(buffers)),
        ).0,
        buffers_view(*final(buffers)) == property_pairs(
            properties.entry_seq(),
            buffers_view(*old(buffers)),
        ).1,
        forall|x: int|
            0 <= x < dynamic_collection_entries.entry_seq().len() ==> json_uuids(
                uuid_strings((#[trigger] dynamic_collection_entries.entry_seq()[x]).1@),
            ) == Some(dynamic_collection_entries.entry_seq()[x].1@),
        stored_values_read_back(
            properties.entry_seq(),
            property_pairs(properties.entry_seq(), buffers_view(*old(buffers))).0,
            buffers_view(*final(buffers)),
        ),
{
    let mut out: Vec<(String, JsonValue)> = Vec::new();
    let nulls = property_null_overrides.entries();
    let mut i: usize = 0;
    while i < nulls.len()
        invariant
            i <= nulls@.len(),
            nulls@ == property_null_overrides.entry_seq(),
            forall|k: int| 0 <= k < nulls@.len() ==> (#[trigger] nulls@[k]).1 != NullOverride::Unset,
            json_members_of(out@) == null_pairs(nulls@.take(i as int)),
        decreases nulls@.len() - i,
    {
        let ghost before = out@;
        let key = with_suffix(&nulls[i].0, ".null_override");
        let text = to_owned_string(null_override_to_string_value(nulls[i].1));
        out.push((key, JsonValue::String(text)));
        proof {
            assert(out@.drop_last() =~= before);
            assert(json_members_of(out@) == json_members_of(before).push((out@.last().0@, json_model(out@.last().1))));
            assert(null_pairs(nulls@.take(i + 1)) =~= null_pairs(nulls@.take(i as int)).push(
                (nulls@[i as int].0@ + ".null_override"@, JsonModel::String(null_override_text(nulls@[i as int].1))),
            ));
        }
        i = i + 1;
    }
    assert(nulls@.take(nulls@.len() as int) =~= nulls@);
    let ghost after_nulls = json_members_of(out@);
    match properties_in_replace_mode {
        Some(p) => {
            let paths = p.paths();
            let mut j: usize = 0;
            while j < paths.len()
                invariant
                    j <= paths@.len(),
                    strings_view(paths@) == p.path_seq(),
                    json_members_of(out@) == after_nulls + replace_pairs(strings_view(paths@).take(j as int)),
                decreases paths@.len() - j,
            {
                let ghost before = out@;
                let key = with_suffix(&paths[j], ".replace");
                out.push((key, JsonValue::Bool(true)));
                proof {
                    assert(out@.drop_last() =~= before);
                    assert(json_members_of(out@) == json_members_of(before).push((out@.last().0@, json_model(out@.last().1))));
                    assert(strings_view(paths@).take(j + 1) =~= strings_view(paths@).take(j as int).push(paths@[j as int]@));
                    assert(replace_pairs(strings_view(paths@).take(j + 1)) =~= replace_pairs(strings_view(paths@).take(j as int)).push(
                        (paths@[j as int]@ + ".replace"@, JsonModel::Bool(true)),
                    ));
                }
                j = j + 1;
            }
            assert(strings_view(paths@).take(paths@.len() as int) =~= strings_view(paths@));
        },
        None => {
            assert(after_nulls + Seq::<(Seq<char>, JsonModel)>::empty() =~= after_nulls);
        },
    }
    let ghost after_replace = json_members_of(out@);
    let es = dynamic_collection_entries.entries();
    let mut k: usize = 0;
    while k < es.len()
        invariant
            k <= es@.len(),
            es@ == dynamic_collection_entries.entry_seq(),
            json_members_of(out@) == after_replace + entry_pairs(es@.take(k as int)),
            forall|x: int|
                0 <= x < k ==> json_uuids(uuid_strings((#[trigger] es@[x]).1@)) == Some(es@[x].1@),
        decreases es@.len() - k,
    {
        let ghost before = out@;
        let arr = uuid_array(es[k].1.as_vec());
        out.push((es[k].0.clone(), arr));
        proof {
            assert(out@.drop_last() =~= before);
            assert(entry_pairs(es@.take(k + 1)) =~= entry_pairs(es@.take(k as int)).push(
                (es@[k as int].0@, JsonModel::Array(uuid_strings(es@[k as int].1@))),
            ));
        }
        k = k + 1;
    }
    assert(es@.take(es@.len() as int) =~= es@);
    let ghost after_entries = json_members_of(out@);
    let ghost b0 = buffers_view(*buffers);
    let ps = properties.entries();
    let mut m: usize = 0;
    while m < ps.len()
        invariant
            m <= ps@.len(),
            ps@ == properties.entry_seq(),
            forall|x: int| 0 <= x < ps@.len() ==> is_stored_leaf((#[trigger] ps@[x]).1@),
            json_members_of(out@) == after_entries + property_pairs(ps@.take(m as int), b0).0,
            buffers_view(*buffers) == property_pairs(ps@.take(m as int), b0).1,
            stored_values_read_back(
                ps@.take(m as int),
                property_pairs(ps@.take(m as int), b0).0,
                buffers_view(*buffers),
            ),
        decreases ps@.len() - m,
    {
        let ghost before = out@;
        let ghost bm = buffers_view(*buffers);
        let ghost pm = property_pairs(ps@.take(m as int), b0).0;
        let j = property_value_to_json(&ps[m].1, buffers);
        out.push((ps[m].0.clone(), j));
        proof {
            assert(out@.drop_last() =~= before);
            let t1 = ps@.take(m + 1);
            assert(t1.drop_last() =~= ps@.take(m as int));
            let p1 = property_pairs(t1, b0).0;
            assert(p1 == pm.push((ps@[m as int].0@, j@)));
            lemma_read_back_step(ps@.take(m as int), pm, bm, ps@[m as int], j@, buffers_view(*buffers));
            assert(ps@.take(m as int).push(ps@[m as int]) =~= t1);
        }
        m = m + 1;
    }
    assert(ps@.take(ps@.len() as int) =~= ps@);
    out
}

/// Without a buffer list, storing values leaves none.
pub proof fn lemma_pairs_without_buffers(s: Seq<(String, Value)>)
    ensures
        property_pairs(s, None).1 == None::<Seq<Seq<u8>>>,
    decreases s.len(),
{
    if s.len() > 0 {
        lemma_pairs_without_buffers(s.drop_last());
    }
}

/// Each stored value reads back as itself, under any schema it matches (an enum value
/// holding its symbol's current name).
pub open spec fn stored_values_read_back(
    ps: Seq<(String, Value)>,
    js: Seq<(Seq<char>, JsonModel)>,
    buffers: Option<Seq<Seq<u8>>>,
) -> bool {
    &&& js.len() == ps.len()
    &&& forall|x: int| 0 <= x < ps.len() ==> (#[trigger] js[x]).0 == ps[x].0@
    &&& forall|x: int, s: Schema, t: Map<u128, SchemaNamedType>|
        #![trigger json_leaf_value(s, js[x].1, buffers, t)]
        0 <= x < ps.len() && crate::value::value_matches(ps[x].1@, s, t) && schema_closed(s, t)
            && canonical_leaf(ps[x].1@, s, t)
            ==> json_leaf_value(s, js[x].1, buffers, t) == Some(ps[x].1@)
}

/// A buffer list that only grew keeps every value read from it.
proof fn lemma_leaf_value_grow(s: Schema, j: JsonModel, b: Option<Seq<Seq<u8>>>, v: ValueModel, t: Map<u128, SchemaNamedType>)
    requires
        json_leaf_value(s, j, b, t) is Some,
    ensures
        json_leaf_value(s, j, buffers_after(v, b), t) == json_leaf_value(s, j, b, t),
{
    if let (ValueModel::Bytes(x), Some(bs)) = (v, b) {
        if let (Schema::Bytes, JsonModel::Number(n)) = (s, j) {
            if let Some(i) = n.as_u64 {
                assert(bs.push(x)[i as int] == bs[i as int]);
            }
        }
    }
}

proof fn lemma_read_back_step(
    ps: Seq<(String, Value)>,
    js: Seq<(Seq<char>, JsonModel)>,
    b: Option<Seq<Seq<u8>>>,
    e: (String, Value),
    j: JsonModel,
    b2: Option<Seq<Seq<u8>>>,
)
    requires
        stored_values_read_back(ps, js, b),
        b2 == buffers_after(e.1@, b),
        forall|s: Schema, t: Map<u128, SchemaNamedType>|
            #![trigger json_leaf_value(s, j, b2, t)]
            crate::value::value_matches(e.1@, s, t) && schema_closed(s, t) && canonical_leaf(e.1@, s, t)
                ==> json_leaf_value(s, j, b2, t) == Some(e.1@),
    ensures
        stored_values_read_back(ps.push(e), js.push((e.0@, j)), b2),
{
    let ps2 = ps.push(e);
    let js2 = js.push((e.0@, j));
    assert forall|x: int| 0 <= x < ps2.len() implies (#[trigger] js2[x]).0 == ps2[x].0@ by {
        if x < ps.len() {
            assert(js2[x] == js[x] && ps2[x] == ps[x]);
        }
    }
    assert forall|x: int, s: Schema, t: Map<u128, SchemaNamedType>|
        0 <= x < ps2.len() && crate::value::value_matches(ps2[x].1@, s, t) && schema_closed(s, t)
            && canonical_leaf(ps2[x].1@, s, t)
            implies #[trigger] json_leaf_value(s, js2[x].1, b2, t) == Some(ps2[x].1@) by {
        if x < ps.len() {
            assert(js2[x] == js[x] && ps2[x] == ps[x]);
            assert(json_leaf_value(s, js[x].1, b, t) == Some(ps[x].1@));
            lemma_leaf_value_grow(s, js[x].1, b, e.1@, t);
        } else {
            assert(js2[x] == (e.0@, j) && ps2[x] == e);
        }
    }
}

/// Whether a path reference's text can be read (see `parsable_reference`).
fn is_parsable_reference(s: &str) -> (r: bool)
    ensures
        r == parsable_reference(s@),
{
    proof {
        reveal_strlit("://");
        reveal_strlit("#");
    }
    assert("://"@ =~= namespace_delimiter());
    assert("#"@ =~= name_delimiter());
    match (rfind(s, "://"), rfind(s, "#")) {
        (Some(n), Some(h)) => h >= n && h - n >= 3,
        _ => true,
    }
}

/// A reference whose text names a namespace or a relative path: simplifying it leaves
/// its namespace and path as they are.
pub open spec fn kept_reference(s: Seq<char>) -> bool {
    parsed_reference(s).0.len() != 0 || path_is_relative(parsed_reference(s).1)
}

/// The canonical text of the path reference written `text`, with the importable name
/// `name`: what `PathReference::simplify` gives, written out. Text that cannot be read
/// as a reference is a `StorageFormatError`.
fn canonical_reference_text<R: PathReferenceNamespaceResolver>(
    text: &str,
    name: ImportableName,
    namespace_resolver: &R,
) -> (r: DataSetResult<String>)
    ensures
        !parsable_reference(text@) ==> r == Err::<String, DataSetError>(
            DataSetError::StorageFormatError,
        ),
        parsable_reference(text@) ==> r is Ok,
        parsable_reference(text@) && kept_reference(text@) ==> (r matches Ok(t) && t@
            == reference_text(parsed_reference(text@).0, parsed_reference(text@).1, name.0@)),
{
    if !is_parsable_reference(text) {
        return Err(DataSetError::StorageFormatError);
    }
    let parsed = PathReference::from_text(text);
    let named = PathReference::new(
        to_owned_string(parsed.namespace()),
        to_owned_string(parsed.path()),
        name,
    );
    let canonical = named.simplify(namespace_resolver);
    Ok(canonical.to_string())
}

/// The import information of an asset, as stored.
pub struct AssetImportInfoJson {
    pub importer_id: u128,
    pub source_file_path: String,
    pub importable_name: String,
    pub file_references: Vec<String>,
}

impl AssetImportInfoJson {
    pub fn new(import_info: &ImportInfo) -> (r: AssetImportInfoJson)
        ensures
            r.importer_id == import_info@.importer_id,
            r.source_file_path@ == import_info@.source_file_path,
            r.importable_name@ == import_info@.importable_name,
            strings_view(r.file_references@) == import_info@.file_references,
    {
        AssetImportInfoJson {
            importer_id: import_info.importer_id().0,
            source_file_path: to_owned_string(import_info.source_file_path()),
            importable_name: match import_info.importable_name() {
                Some(n) => to_owned_string(n),
                None => String::new(),
            },
            file_references: crate::data_set::copy_strings_pub(import_info.file_references()),
        }
    }

    /// The import information this stands for, with the source file and each file
    /// reference in canonical form. A reference whose text cannot be read is a
    /// `StorageFormatError`.
    pub fn to_import_info<R: PathReferenceNamespaceResolver>(&self, namespace_resolver: &R) -> (r:
        DataSetResult<ImportInfo>)
        ensures
            import_json_parsable(*self) <==> r is Ok,
            r matches Err(e) ==> e == DataSetError::StorageFormatError,
            r matches Ok(info) ==> import_info_read(*self, info@),
    {
        let mut refs: Vec<String> = Vec::new();
        let mut i: usize = 0;
        while i < self.file_references.len()
            invariant
                i <= self.file_references@.len(),
                refs@.len() == i,
                forall|k: int| 0 <= k < i ==> parsable_reference(#[trigger] self.file_references@[k]@),
                forall|k: int|
                    0 <= k < i && kept_reference(#[trigger] self.file_references@[k]@) ==> refs@[k]@
                        == reference_text(
                        parsed_reference(self.file_references@[k]@).0,
                        parsed_reference(self.file_references@[k]@).1,
                        parsed_reference(self.file_references@[k]@).2,
                    ),
            decreases self.file_references@.len() - i,
        {
            let text = self.file_references[i].as_str();
            if !is_parsable_reference(text) {
                return Err(DataSetError::StorageFormatError);
            }
            let parsed = PathReference::from_text(text);
            let name = ImportableName::new(to_owned_string(parsed.importable_name().0.as_str()));
            let t = match canonical_reference_text(text, name, namespace_resolver) {
                Ok(t) => t,
                Err(e) => {
                    return Err(e);
                },
            };
            refs.push(t);
            i = i + 1;
        }
        let source = match canonical_reference_text(
            self.source_file_path.as_str(),
            ImportableName::new(String::new()),
            namespace_resolver,
        ) {
            Ok(t) => t,
            Err(e) => {
                return Err(e);
            },
        };
        let info = ImportInfo::new(
            ImporterId(self.importer_id),
            source,
            ImportableName::new(self.importable_name.clone()),
            refs,
        );
        Ok(info)
    }
}

/// The build information of an asset, as stored: the asset chosen for each referenced
/// path.
pub struct AssetBuildInfoJson {
    pub file_reference_overrides: Vec<(String, u128)>,
}

impl AssetBuildInfoJson {
    pub fn new(build_info: &BuildInfo) -> (r: AssetBuildInfoJson)
        ensures
            r.file_reference_overrides@.len() == build_info.file_reference_overrides.entry_seq().len(),
            forall|i: int|
                0 <= i < r.file_reference_overrides@.len() ==> (#[trigger] r.file_reference_overrides@[i]).0@
                    == build_info.file_reference_overrides.entry_seq()[i].0@
                    && r.file_reference_overrides@[i].1
                    == build_info.file_reference_overrides.entry_seq()[i].1.0,
    {
        let es = build_info.file_reference_overrides.entries();
        let mut out: Vec<(String, u128)> = Vec::new();
        let mut i: usize = 0;
        while i < es.len()
            invariant
                i <= es@.len(),
                es@ == build_info.file_reference_overrides.entry_seq(),
                out@.len() == i,
                forall|k: int|
                    0 <= k < i ==> (#[trigger] out@[k]).0@ == es@[k].0@ && out@[k].1 == es@[k].1.0,
            decreases es@.len() - i,
        {
            out.push((es[i].0.clone(), es[i].1.0));
            i = i + 1;
        }
        AssetBuildInfoJson { file_reference_overrides: out }
    }

    /// The build information this stands for, each path in canonical form. A path whose
    /// text cannot be read as a reference is a `StorageFormatError`.
    pub fn to_build_info<R: PathReferenceNamespaceResolver>(&self, namespace_resolver: &R) -> (r:
        DataSetResult<BuildInfo>)
        ensures
            build_json_parsable(*self) <==> r is Ok,
            r matches Err(e) ==> e == DataSetError::StorageFormatError,
            r matches Ok(b) ==> build_info_read(*self, b),
    {
        let mut build_info = BuildInfo::new();
        let mut i: usize = 0;
        while i < self.file_reference_overrides.len()
            invariant
                i <= self.file_reference_overrides@.len(),
                forall|k: int|
                    0 <= k < i ==> parsable_reference((#[trigger] self.file_reference_overrides@[k]).0@),
                forall|k: int|
                    0 <= k < i && kept_reference((#[trigger] self.file_reference_overrides@[k]).0@)
                        ==> build_info.file_reference_overrides@.contains_key(
                        reference_text(
                            parsed_reference(self.file_reference_overrides@[k].0@).0,
                            parsed_reference(self.file_reference_overrides@[k].0@).1,
                            parsed_reference(self.file_reference_overrides@[k].0@).2,
                        ),
                    ),
            decreases self.file_reference_overrides@.len() - i,
        {
            let text = self.file_reference_overrides[i].0.as_str();
            if !is_parsable_reference(text) {
                return Err(DataSetError::StorageFormatError);
            }
            let parsed = PathReference::from_text(text);
            let name = ImportableName::new(to_owned_string(parsed.importable_name().0.as_str()));
            let t = match canonical_reference_text(text, name, namespace_resolver) {
                Ok(t) => t,
                Err(e) => {
                    return Err(e);
                },
            };
            build_info.file_reference_overrides.insert(t, AssetId(self.file_reference_overrides[i].1));
            i = i + 1;
        }
        Ok(build_info)
    }
}

/// Where an asset restored from storage goes: a data set, or an editor's model around one.
pub trait RestoreAssetFromStorageImpl {
    type Resolver: PathReferenceNamespaceResolver;

    fn restore_asset(
        &mut self,
        asset_id: AssetId,
        asset_name: AssetName,
        asset_location: AssetLocation,
        import_info: Option<ImportInfo>,
        build_info: BuildInfo,
        prototype: Option<AssetId>,
        schema: SchemaFingerprint,
        properties: PropertyMap<Value>,
        property_null_overrides: PropertyMap<NullOverride>,
        properties_in_replace_mode: PathSet,
        dynamic_collection_entries: PropertyMap<OrderedSet>,
    ) -> DataSetResult<()>;

    fn namespace_resolver(&self) -> &Self::Resolver;
}

/// Every path reference of the stored import information parses.
pub open spec fn import_json_parsable(j: AssetImportInfoJson) -> bool {
    parsable_reference(j.source_file_path@) && forall|i: int|
        0 <= i < j.file_references@.len() ==> parsable_reference(#[trigger] j.file_references@[i]@)
}

/// `info` is what reading the stored import information gives: its importer, importable
/// name and as many file references, with the references that are kept in canonical form.
pub open spec fn import_info_read(j: AssetImportInfoJson, info: ImportInfoModel) -> bool {
    &&& info.importer_id == j.importer_id
    &&& info.importable_name == j.importable_name@
    &&& info.file_references.len() == j.file_references@.len()
    &&& kept_reference(j.source_file_path@) ==> info.source_file_path == reference_text(
        parsed_reference(j.source_file_path@).0,
        parsed_reference(j.source_file_path@).1,
        Seq::empty(),
    )
    &&& forall|i: int|
        0 <= i < j.file_references@.len() && kept_reference(#[trigger] j.file_references@[i]@)
            ==> info.file_references[i] == reference_text(
            parsed_reference(j.file_references@[i]@).0,
            parsed_reference(j.file_references@[i]@).1,
            parsed_reference(j.file_references@[i]@).2,
        )
}

/// Every path reference of the stored build information parses.
pub open spec fn build_json_parsable(j: AssetBuildInfoJson) -> bool {
    forall|i: int|
        0 <= i < j.file_reference_overrides@.len() ==> parsable_reference(
            (#[trigger] j.file_reference_overrides@[i]).0@,
        )
}

/// `b` is what reading the stored build information gives: every kept reference, in
/// canonical form, has an override.
pub open spec fn build_info_read(j: AssetBuildInfoJson, b: BuildInfo) -> bool {
    forall|i: int|
        0 <= i < j.file_reference_overrides@.len() && kept_reference(
            (#[trigger] j.file_reference_overrides@[i]).0@,
        ) ==> b.file_reference_overrides@.contains_key(
            reference_text(
                parsed_reference(j.file_reference_overrides@[i].0@).0,
                parsed_reference(j.file_reference_overrides@[i].0@).1,
                parsed_reference(j.file_reference_overrides@[i].0@).2,
            ),
        )
}

/// Every path reference of the stored asset's import and build information parses.
pub open spec fn asset_references_parsable(a: AssetJson) -> bool {
    &&& a.import_info matches Some(i) ==> import_json_parsable(i)
    &&& build_json_parsable(a.build_info)
}

/// An asset as stored in its own file.
pub struct AssetJson {
    pub id: Option<u128>,
    pub name: String,
    pub parent_dir: Option<u128>,
    pub schema: u128,
    pub schema_name: String,
    pub import_info: Option<AssetImportInfoJson>,
    pub build_info: AssetBuildInfoJson,
    pub prototype: Option<u128>,
    pub properties: Vec<(String, JsonValue)>,
}

/// The asset read from storage, ready to be restored.
pub struct RestoredAsset {
    pub asset_id: AssetId,
    pub asset_name: AssetName,
    pub asset_location: AssetLocation,
    pub import_info: Option<ImportInfo>,
    pub build_info: BuildInfo,
    pub prototype: Option<AssetId>,
    pub schema: SchemaFingerprint,
    pub loaded: LoadedProperties,
}

/// The named type a stored object is read with: the one with its fingerprint, else the
/// one with its schema name.
pub open spec fn stored_type(schema_set: SchemaSet, fingerprint: u128, name: Seq<char>) -> Option<
    SchemaNamedType,
> {
    if schema_set.types().contains_key(fingerprint) {
        Some(schema_set.types()[fingerprint])
    } else if schema_set.names().contains_key(name) && schema_set.types().contains_key(
        schema_set.names()[name].0,
    ) {
        Some(schema_set.types()[schema_set.names()[name].0])
    } else {
        None
    }
}

/// What reading the stored properties with the stored type gives (or why it fails).
pub open spec fn stored_properties(
    schema_set: SchemaSet,
    fingerprint: u128,
    name: Seq<char>,
    js: Seq<(Seq<char>, JsonModel)>,
    buffers: Option<Seq<Seq<u8>>>,
    keep_replace: bool,
) -> DataSetResult<(SchemaFingerprint, LoadState)> {
    match stored_type(schema_set, fingerprint, name) {
        None => Err(DataSetError::SchemaNotFound),
        Some(SchemaNamedType::Enum(_)) => Err(DataSetError::InvalidSchema),
        Some(SchemaNamedType::Record(rec)) => match load_entries(
            empty_load_state(),
            rec.fingerprint,
            schema_set.types(),
            js,
            buffers,
            keep_replace,
        ) {
            Ok(st) => Ok((rec.fingerprint, st)),
            Err(e) => Err(e),
        },
    }
}

/// Finds the stored type and reads the stored properties with it (see
/// `stored_properties`).
fn load_stored_properties(
    schema_set: &SchemaSet,
    fingerprint: u128,
    name: &str,
    json_properties: &Vec<(String, JsonValue)>,
    buffers: &Option<Vec<Vec<u8>>>,
    keep_replace: bool,
) -> (r: DataSetResult<(SchemaFingerprint, LoadedProperties)>)
    requires
        schema_set.wf(),
    ensures
        match stored_properties(
            *schema_set,
            fingerprint,
            name@,
            json_members_of(json_properties@),
            buffers_view(*buffers),
            keep_replace,
        ) {
            Ok((f, st)) => r matches Ok((f2, l)) && f2 == f && l@ == st && schema_set.types().contains_key(
                f.0,
            ) && schema_set.types()[f.0] is Record,
            Err(e) => r matches Err(e2) && e2 == e,
        },
{
    let named = match schema_set.find_named_type_by_fingerprint(SchemaFingerprint(fingerprint)) {
        Some(t) => t,
        None => match schema_set.find_named_type(name) {
            Ok(t) => t,
            Err(e) => {
                return Err(e);
            },
        },
    };
    let rec = match named {
        SchemaNamedType::Record(rec) => rec,
        SchemaNamedType::Enum(_) => {
            return Err(DataSetError::InvalidSchema);
        },
    };
    proof {
        let f = if schema_set.types().contains_key(fingerprint) {
            fingerprint
        } else {
            schema_set.names()[name@].0
        };
        assert(schema_set.types()[f].spec_fingerprint().0 == f);
        assert(schema_closed(Schema::Record(rec.fingerprint), schema_set.types()));
    }
    match load_json_properties(rec, schema_set, json_properties, keep_replace, buffers) {
        Ok(l) => Ok((rec.fingerprint, l)),
        Err(e) => Err(e),
    }
}

/// The id a loaded asset gets: the one given, else the one stored (None: a random one).
pub open spec fn loaded_asset_id(stored: Option<u128>, override_asset_id: Option<u128>) -> Option<u128> {
    match override_asset_id {
        Some(u) => Some(u),
        None => stored,
    }
}

/// The location a loaded asset gets: the one given, else its stored parent directory,
/// else the default.
pub open spec fn loaded_location(
    parent_dir: Option<u128>,
    default_asset_location: AssetLocation,
    override_asset_location: Option<AssetLocation>,
) -> AssetLocation {
    match override_asset_location {
        Some(l) => l,
        None => match parent_dir {
            Some(p) => AssetLocation { path_node_id: AssetId(p) },
            None => default_asset_location,
        },
    }
}

pub open spec fn id_option(i: Option<u128>) -> Option<AssetId> {
    match i {
        Some(u) => Some(AssetId(u)),
        None => None,
    }
}

impl AssetJson {
    /// Reads the stored asset: its id, name, location, prototype and schema, its
    /// properties (see `stored_properties`, with replace-mode markers kept), and its
    /// import and build information with path references in canonical form.
    pub fn prepare_asset<R: PathReferenceNamespaceResolver>(
        &self,
        schema_set: &SchemaSet,
        override_asset_id: Option<u128>,
        default_asset_location: AssetLocation,
        override_asset_location: Option<AssetLocation>,
        namespace_resolver: &R,
    ) -> (r: DataSetResult<RestoredAsset>)
        requires
            schema_set.wf(),
        ensures
            match stored_properties(
                *schema_set,
                self.schema,
                self.schema_name@,
                json_members_of(self.properties@),
                None,
                true,
            ) {
                Err(e) => r matches Err(e2) && e2 == e,
                Ok((f, st)) => (r is Ok <==> asset_references_parsable(*self)) && match r {
                    Ok(a) => {
                        &&& loaded_asset_id(self.id, override_asset_id) matches Some(u) ==> a.asset_id
                            == AssetId(u)
                        &&& a.asset_name.0@ == self.name@
                        &&& a.asset_location == loaded_location(
                            self.parent_dir,
                            default_asset_location,
                            override_asset_location,
                        )
                        &&& a.prototype == id_option(self.prototype)
                        &&& a.schema == f
                        &&& a.loaded@ == st
                        &&& (a.import_info is Some <==> self.import_info is Some)
                        &&& a.import_info matches Some(info) ==> import_info_read(
                            self.import_info->Some_0,
                            info@,
                        )
                        &&& build_info_read(self.build_info, a.build_info)
                    },
                    Err(e) => e == DataSetError::StorageFormatError,
                },
            },
    {
        let asset_location = match override_asset_location {
            Some(l) => l,
            None => match self.parent_dir {
                Some(p) => AssetLocation::new(AssetId(p)),
                None => default_asset_location,
            },
        };
        let asset_name = if self.name.as_str().is_empty() {
            AssetName::empty()
        } else {
            AssetName::new(self.name.clone())
        };
        let asset_id = match override_asset_id {
            Some(u) => AssetId(u),
            None => match self.id {
                Some(u) => AssetId(u),
                None => AssetId(new_random_uuid()),
            },
        };
        let prototype = match self.prototype {
            Some(p) => Some(AssetId(p)),
            None => None,
        };
        let (schema, loaded) = match load_stored_properties(
            schema_set,
            self.schema,
            self.schema_name.as_str(),
            &self.properties,
            &None,
            true,
        ) {
            Ok(x) => x,
            Err(e) => {
                return Err(e);
            },
        };
        let import_info = match &self.import_info {
            Some(i) => match i.to_import_info(namespace_resolver) {
                Ok(info) => Some(info),
                Err(e) => {
                    return Err(e);
                },
            },
            None => None,
        };
        let build_info = match self.build_info.to_build_info(namespace_resolver) {
            Ok(b) => b,
            Err(e) => {
                return Err(e);
            },
        };
        Ok(
            RestoredAsset {
                asset_id,
                asset_name,
                asset_location,
                import_info,
                build_info,
                prototype,
                schema,
                loaded,
            },
        )
    }

    /// Reads the stored asset (see `prepare_asset`) and restores it through
    /// `restore_asset_impl`, giving its id.
    pub fn load_asset<T: RestoreAssetFromStorageImpl>(
        &self,
        restore_asset_impl: &mut T,
        schema_set: &SchemaSet,
        override_asset_id: Option<u128>,
        default_asset_location: AssetLocation,
        override_asset_location: Option<AssetLocation>,
    ) -> (r: DataSetResult<AssetId>)
        requires
            schema_set.wf(),
        ensures
            stored_properties(
                *schema_set,
                self.schema,
                self.schema_name@,
                json_members_of(self.properties@),
                None,
                true,
            ) matches Err(e) ==> r == Err::<AssetId, DataSetError>(e),
            stored_properties(
                *schema_set,
                self.schema,
                self.schema_name@,
                json_members_of(self.properties@),
                None,
                true,
            ) is Ok && !asset_references_parsable(*self) ==> r == Err::<AssetId, DataSetError>(
                DataSetError::StorageFormatError,
            ),
            r is Ok && loaded_asset_id(self.id, override_asset_id) is Some ==> r == Ok::<
                AssetId,
                DataSetError,
            >(AssetId(loaded_asset_id(self.id, override_asset_id)->0)),
    {
        let prepared = match self.prepare_asset(
            schema_set,
            override_asset_id,
            default_asset_location,
            override_asset_location,
            restore_asset_impl.namespace_resolver(),
        ) {
            Ok(a) => a,
            Err(e) => {
                return Err(e);
            },
        };
        let asset_id = prepared.asset_id;
        let loaded = prepared.loaded;
        match restore_asset_impl.restore_asset(
            asset_id,
            prepared.asset_name,
            prepared.asset_location,
            prepared.import_info,
            prepared.build_info,
            prepared.prototype,
            prepared.schema,
            loaded.properties,
            loaded.property_null_overrides,
            loaded.properties_in_replace_mode,
            loaded.dynamic_collection_entries,
        ) {
            Ok(_) => Ok(asset_id),
            Err(e) => Err(e),
        }
    }
}

/// The stored entries of an asset's or object's maps (see `store_json_properties`).
pub open spec fn stored_members(
    properties: PropertyMap<Value>,
    null_overrides: PropertyMap<NullOverride>,
    replace_mode: Option<PathSet>,
    entries: PropertyMap<OrderedSet>,
    buffers: Option<Seq<Seq<u8>>>,
) -> Seq<(Seq<char>, JsonModel)> {
    null_pairs(null_overrides.entry_seq()) + (match replace_mode {
        Some(p) => replace_pairs(p.path_seq()),
        None => Seq::empty(),
    }) + entry_pairs(entries.entry_seq()) + property_pairs(properties.entry_seq(), buffers).0
}

/// Everything in the maps can be stored: property values are leaves and no null
/// override is `Unset`.
pub open spec fn storable(properties: PropertyMap<Value>, null_overrides: PropertyMap<NullOverride>) -> bool {
    &&& forall|i: int|
        0 <= i < properties.entry_seq().len() ==> is_stored_leaf(
            (#[trigger] properties.entry_seq()[i]).1@,
        )
    &&& forall|i: int|
        0 <= i < null_overrides.entry_seq().len() ==> (#[trigger] null_overrides.entry_seq()[i]).1
            != NullOverride::Unset
}

pub open spec fn import_json_matches(j: Option<AssetImportInfoJson>, m: Option<ImportInfoModel>) -> bool {
    match (j, m) {
        (Some(a), Some(b)) => a.importer_id == b.importer_id && a.source_file_path@ == b.source_file_path
            && a.importable_name@ == b.importable_name && strings_view(a.file_references@)
            == b.file_references,
        (None, None) => true,
        _ => false,
    }
}

impl AssetJson {
    /// The stored form of the asset `asset_id` of `assets`: its id when
    /// `include_asset_id_in_file` is set, its name, the given location as its parent
    /// directory, its schema, import and build information, prototype, and its maps as
    /// `store_json_properties` writes them (bytes inline).
    pub fn save_asset(
        assets: &HashMap<u128, DataSetAssetInfo>,
        asset_id: AssetId,
        include_asset_id_in_file: bool,
        asset_location: Option<AssetLocation>,
    ) -> (r: AssetJson)
        requires
            assets@.contains_key(asset_id.0),
            storable(assets@[asset_id.0].property_map(), assets@[asset_id.0].null_map()),
        ensures
            ({
                let a = assets@[asset_id.0];
                &&& r.id == (if include_asset_id_in_file {
                    Some(asset_id.0)
                } else {
                    None
                })
                &&& r.name@ == a@.name
                &&& r.parent_dir == (match asset_location {
                    Some(l) => Some(l.path_node_id.0),
                    None => None,
                })
                &&& r.schema == a@.schema
                &&& r.schema_name@ == a.schema_record().name@
                &&& import_json_matches(r.import_info, a@.import_info)
                &&& r.prototype == a@.prototype
                &&& json_members_of(r.properties@) == stored_members(
                    a.property_map(),
                    a.null_map(),
                    Some(a.replace_set()),
                    a.entries_map(),
                    None,
                )
            }),
            forall|ss: SchemaSet|
                #![trigger asset_round_trips(assets@[asset_id.0]@, ss)]
                asset_round_trips(assets@[asset_id.0]@, ss) ==> stored_properties(
                    ss,
                    r.schema,
                    r.schema_name@,
                    json_members_of(r.properties@),
                    None,
                    true,
                ) == Ok::<(SchemaFingerprint, LoadState), DataSetError>(
                    (SchemaFingerprint(assets@[asset_id.0]@.schema), asset_load_state(assets@[asset_id.0]@)),
                ),
    {
        let obj = assets.get(&asset_id.0).unwrap();
        let mut buffers: Option<Vec<Vec<u8>>> = None;
        obj.properties().lemma_wf();
        obj.property_null_overrides().lemma_wf();
        obj.dynamic_array_entries().lemma_wf();
        obj.properties_in_replace_mode().lemma_wf();
        let properties = store_json_properties(
            obj.properties(),
            obj.property_null_overrides(),
            Some(obj.properties_in_replace_mode()),
            obj.dynamic_array_entries(),
            &mut buffers,
        );
        let import_info = match obj.import_info() {
            Some(i) => Some(AssetImportInfoJson::new(i)),
            None => None,
        };
        let build_info = AssetBuildInfoJson::new(obj.build_info());
        proof {
            lemma_pairs_without_buffers(obj.property_map().entry_seq());
            assert forall|ss: SchemaSet| #[trigger] asset_round_trips(assets@[asset_id.0]@, ss) implies stored_properties(
                ss,
                obj@.schema,
                obj.schema_record().name@,
                json_members_of(properties@),
                None,
                true,
            ) == Ok::<(SchemaFingerprint, LoadState), DataSetError>(
                (SchemaFingerprint(obj@.schema), asset_load_state(obj@)),
            ) by {
                lemma_asset_loads_back(*obj, ss, obj.schema_record().name@, json_members_of(properties@));
            }
        }
        AssetJson {
            id: if include_asset_id_in_file {
                Some(asset_id.0)
            } else {
                None
            },
            name: obj.asset_name().0.clone(),
            parent_dir: match asset_location {
                Some(l) => Some(l.path_node_id.0),
                None => None,
            },
            schema: obj.schema().fingerprint().0,
            schema_name: to_owned_string(obj.schema().name()),
            import_info,
            build_info,
            prototype: match obj.prototype() {
                Some(p) => Some(p.0),
                None => None,
            },
            properties,
        }
    }
}

/// A standalone object as stored.
pub struct SingleObjectJson {
    pub schema: u128,
    pub schema_name: String,
    pub properties: Vec<(String, JsonValue)>,
}

impl SingleObjectJson {
    /// The stored form of `object` (byte buffers go to `buffers` when it is set). Read
    /// back with any schema set under which the object round-trips (see
    /// `object_round_trips`), it gives the object's values, null overrides and non-empty
    /// entry lists again, so `to_single_object` rebuilds the object.
    pub fn new(object: &SingleObject, buffers: &mut Option<Vec<Vec<u8>>>) -> (r: SingleObjectJson)
        requires
            storable(object.property_map(), object.null_map()),
        ensures
            forall|ss: SchemaSet|
                #![trigger object_round_trips(object@, ss)]
                object_round_trips(object@, ss) ==> stored_properties(
                    ss,
                    r.schema,
                    r.schema_name@,
                    json_members_of(r.properties@),
                    buffers_view(*final(buffers)),
                    false,
                ) == Ok::<(SchemaFingerprint, LoadState), DataSetError>(
                    (SchemaFingerprint(object@.schema), object_load_state(object@)),
                ),
            r.schema == object@.schema,
            r.schema_name@ == object.schema_record().name@,
            json_members_of(r.properties@) == stored_members(
                object.property_map(),
                object.null_map(),
                None,
                object.entries_map(),
                buffers_view(*old(buffers)),
            ),
            buffers_view(*final(buffers)) == property_pairs(
                object.property_map().entry_seq(),
                buffers_view(*old(buffers)),
            ).1,
    {
        let ghost b0 = buffers_view(*buffers);
        object.properties().lemma_wf();
        object.property_null_overrides().lemma_wf();
        object.dynamic_collection_entries().lemma_wf();
        let properties = store_json_properties(
            object.properties(),
            object.property_null_overrides(),
            None,
            object.dynamic_collection_entries(),
            buffers,
        );
        let r = SingleObjectJson {
            schema: object.schema().fingerprint().0,
            schema_name: to_owned_string(object.schema().name()),
            properties,
        };
        proof {
            assert forall|ss: SchemaSet| #[trigger] object_round_trips(object@, ss) implies stored_properties(
                ss,
                r.schema,
                r.schema_name@,
                json_members_of(r.properties@),
                buffers_view(*buffers),
                false,
            ) == Ok::<(SchemaFingerprint, LoadState), DataSetError>(
                (SchemaFingerprint(object@.schema), object_load_state(object@)),
            ) by {
                lemma_object_loads_back(
                    *object,
                    ss,
                    r.schema_name@,
                    json_members_of(r.properties@),
                    b0,
                    buffers_view(*buffers),
                );
            }
        }
        r
    }

    /// The object this stands for (byte buffers are read from `buffers` when it is
    /// set). Fails with `SchemaNotFound` when the schema set has no type with the stored
    /// fingerprint, `InvalidSchema` when that type is an enum, or as loading the
    /// properties fails.
    pub fn to_single_object(&self, schema_set: &SchemaSet, buffers: &Option<Vec<Vec<u8>>>) -> (r:
        DataSetResult<SingleObject>)
        requires
            schema_set.wf(),
        ensures
            !schema_set.types().contains_key(self.schema) ==> r == Err::<SingleObject, DataSetError>(
                DataSetError::SchemaNotFound,
            ),
            schema_set.types().contains_key(self.schema) ==> match stored_properties(
                *schema_set,
                self.schema,
                self.schema_name@,
                json_members_of(self.properties@),
                buffers_view(*buffers),
                false,
            ) {
                Err(e) => r matches Err(e2) && e2 == e,
                Ok((f, st)) => r matches Ok(o) && o@ == (ObjectModel {
                    schema: f.0,
                    properties: st.properties,
                    null_overrides: st.null_overrides,
                    entries: st.entries,
                }),
            },
    {
        if schema_set.find_named_type_by_fingerprint(SchemaFingerprint(self.schema)).is_none() {
            return Err(DataSetError::SchemaNotFound);
        }
        let (f, loaded) = match load_stored_properties(
            schema_set,
            self.schema,
            self.schema_name.as_str(),
            &self.properties,
            buffers,
            false,
        ) {
            Ok(x) => x,
            Err(e) => {
                return Err(e);
            },
        };
        let o = SingleObject::restore(
            schema_set,
            f,
            loaded.properties,
            loaded.property_null_overrides,
            loaded.dynamic_collection_entries,
        );
        proof {
            assert(crate::data_set::record_fingerprint(schema_set.types()[f.0]) == f.0);
        }
        Ok(o)
    }
}

/// The ids assigned in the past to the importables of a source file, by importable
/// name (the empty name for the file's default importable).
pub struct MetaFile {
    pub past_id_assignments: PropertyMap<AssetId>,
}

impl Default for MetaFile {
    fn default() -> (r: MetaFile)
        ensures
            r.past_id_assignments@ == Map::<Seq<char>, AssetId>::empty(),
    {
        MetaFile { past_id_assignments: PropertyMap::new() }
    }
}

/// A meta file as stored.
pub struct MetaFileJson {
    pub past_id_assignments: Vec<(String, u128)>,
}

/// The assignments a stored meta file lists, later ones winning.
pub open spec fn assignments_of(s: Seq<(String, u128)>) -> Map<Seq<char>, AssetId>
    decreases s.len(),
{
    if s.len() == 0 {
        Map::empty()
    } else {
        assignments_of(s.drop_last()).insert(s.last().0@, AssetId(s.last().1))
    }
}

impl MetaFileJson {
    /// The meta file this stands for.
    pub fn to_meta_file(&self) -> (r: MetaFile)
        ensures
            r.past_id_assignments@ == assignments_of(self.past_id_assignments@),
    {
        let mut m: PropertyMap<AssetId> = PropertyMap::new();
        let mut i: usize = 0;
        while i < self.past_id_assignments.len()
            invariant
                i <= self.past_id_assignments@.len(),
                m@ == assignments_of(self.past_id_assignments@.take(i as int)),
            decreases self.past_id_assignments@.len() - i,
        {
            let (name, id) = (&self.past_id_assignments[i].0, self.past_id_assignments[i].1);
            m.insert(name.clone(), AssetId(id));
            proof {
                assert(self.past_id_assignments@.take(i + 1).drop_last() =~= self.past_id_assignments@.take(
                    i as int,
                ));
            }
            i = i + 1;
        }
        assert(self.past_id_assignments@.take(self.past_id_assignments@.len() as int)
            =~= self.past_id_assignments@);
        MetaFile { past_id_assignments: m }
    }

    /// The stored form of `meta_file`: its assignments in the order its map lists them.
    pub fn from_meta_file(meta_file: &MetaFile) -> (r: MetaFileJson)
        ensures
            r.past_id_assignments@.len() == meta_file.past_id_assignments.entry_seq().len(),
            forall|i: int|
                0 <= i < r.past_id_assignments@.len() ==> (#[trigger] r.past_id_assignments@[i]).0@
                    == meta_file.past_id_assignments.entry_seq()[i].0@ && r.past_id_assignments@[i].1
                    == meta_file.past_id_assignments.entry_seq()[i].1.0,
    {
        let es = meta_file.past_id_assignments.entries();
        let mut out: Vec<(String, u128)> = Vec::new();
        let mut i: usize = 0;
        while i < es.len()
            invariant
                i <= es@.len(),
                es@ == meta_file.past_id_assignments.entry_seq(),
                out@.len() == i,
                forall|k: int|
                    0 <= k < i ==> (#[trigger] out@[k]).0@ == es@[k].0@ && out@[k].1 == es@[k].1.0,
            decreases es@.len() - i,
        {
            out.push((es[i].0.clone(), es[i].1.0));
            i = i + 1;
        }
        MetaFileJson { past_id_assignments: out }
    }
}

} // verus!
