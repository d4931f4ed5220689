use vstd::prelude::*;
use vstd::arithmetic::power2::pow2;
use std::marker::PhantomData;
use crate::data_container::{
    container_array, container_entries, container_map, container_null_override,
    container_property, container_schema_at, container_with_entries, container_with_null,
    property_set_outcome, ContainerModel, DataContainerRef, DataContainerRefMut,
};
use crate::data_set::uuid_parse;
use crate::ids::{AssetId, DataSetError, DataSetResult, NullOverride};
use crate::path::{append_str, push_char_pub, to_owned_string};
use crate::schema::{decimal_value, is_decimal, SchemaNamedType};
use crate::schema_set::SchemaSet;
use crate::single_object::{ObjectModel, SingleObject};
use crate::value::{Value, ValueEnum, ValueModel};

verus! {

/// `path` extended by the field `name`: just one of them when the other is empty, else
/// both joined by '.'.
pub open spec fn pushed_path(path: Seq<char>, name: Seq<char>) -> Seq<char> {
    if path.len() == 0 {
        name
    } else if name.len() == 0 {
        path
    } else {
        path + seq!['.'] + name
    }
}

/// A dotted path to a property of a record.
#[derive(Clone, Debug)]
pub struct PropertyPath(String);

impl View for PropertyPath {
    type V = Seq<char>;

    closed spec fn view(&self) -> Seq<char> {
        self.0@
    }
}

impl Default for PropertyPath {
    fn default() -> (r: PropertyPath)
        ensures
            r@ == Seq::<char>::empty(),
    {
        PropertyPath(String::new())
    }
}

impl PropertyPath {
    /// The path to the field `str` of the property at this path.
    pub fn push(&self, str: &str) -> (r: PropertyPath)
        ensures
            r@ == pushed_path(self@, str@),
    {
        if self.0.as_str().is_empty() {
            PropertyPath(to_owned_string(str))
        } else if str.is_empty() {
            PropertyPath(to_owned_string(self.0.as_str()))
        } else {
            let mut s = to_owned_string(self.0.as_str());
            push_char_pub(&mut s, '.');
            append_str(&mut s, str);
            PropertyPath(s)
        }
    }

    pub fn path(&self) -> (r: &str)
        ensures
            r@ == self@,
    {
        self.0.as_str()
    }
}

/// The decimal digit for `d` (0 to 9).
pub open spec fn digit_char(d: nat) -> char {
    ('0' as int + d) as char
}

/// The decimal text of `n`, without leading zeros.
pub open spec fn decimal_text(n: nat) -> Seq<char>
    decreases n,
{
    if n < 10 {
        seq![digit_char(n)]
    } else {
        decimal_text(n / 10).push(digit_char(n % 10))
    }
}

/// Reading back the decimal text of a number gives the number.
pub proof fn lemma_decimal_round_trip(n: nat)
    ensures
        is_decimal(decimal_text(n)),
        decimal_value(decimal_text(n)) == n,
    decreases n,
{
    let d = n % 10;
    assert(digit_char(d) as int == '0' as int + d);
    if n >= 10 {
        lemma_decimal_round_trip(n / 10);
        let t = decimal_text(n / 10);
        assert(decimal_text(n).drop_last() == t);
        assert(n == (n / 10) * 10 + d);
    } else {
        assert(decimal_text(n).drop_last() =~= Seq::<char>::empty());
    }
    assert(decimal_text(n).last() == digit_char(d));
    assert(decimal_value(decimal_text(n)) == decimal_value(decimal_text(n).drop_last()) * 10 + (
    decimal_text(n).last() as int - '0' as int));
    assert(decimal_text(n).len() > 0);
    assert forall|i: int| 0 <= i < decimal_text(n).len() implies '0' <= #[trigger] decimal_text(
        n,
    )[i] <= '9' by {
        if n >= 10 && i < decimal_text(n).len() - 1 {
            assert(decimal_text(n)[i] == decimal_text(n / 10)[i]);
        }
    }
}

fn digit_of(d: usize) -> (c: char)
    requires
        d < 10,
    ensures
        c == digit_char(d as nat),
{
    match d {
        0 => '0',
        1 => '1',
        2 => '2',
        3 => '3',
        4 => '4',
        5 => '5',
        6 => '6',
        7 => '7',
        8 => '8',
        _ => '9',
    }
}

/// The decimal text of `n` (what `to_string` gives for an unsigned integer).
pub fn usize_to_text(n: usize) -> (r: String)
    ensures
        r@ == decimal_text(n as nat),
    decreases n,
{
    let c: char = digit_of(n % 10);
    if n < 10 {
        let mut s = String::new();
        push_char_pub(&mut s, c);
        s
    } else {
        let mut s = usize_to_text(n / 10);
        push_char_pub(&mut s, c);
        s
    }
}

/// The lowercase hexadecimal digit for `d` (0 to 15).
pub open spec fn hex_char(d: int) -> char {
    if d < 10 {
        ('0' as int + d) as char
    } else {
        ('a' as int + d - 10) as char
    }
}

/// Nibble `j` (0 is the most significant of the 32) of a 128-bit value.
pub open spec fn nibble(u: u128, j: int) -> int {
    (u as int / pow2((4 * (31 - j)) as nat) as int) % 16
}

/// How many of the hyphens of the hyphenated UUID form stand before position `k`.
pub open spec fn hyphens_before(k: int) -> int {
    if k <= 8 {
        0
    } else if k <= 13 {
        1
    } else if k <= 18 {
        2
    } else if k <= 23 {
        3
    } else {
        4
    }
}

/// The hyphenated lowercase form of a UUID (8-4-4-4-12 hexadecimal digits, most
/// significant first), as `uuid::Uuid` displays it.
pub open spec fn hyphenated_uuid(u: u128) -> Seq<char> {
    Seq::new(
        36,
        |k: int|
            if k == 8 || k == 13 || k == 18 || k == 23 {
                '-'
            } else {
                hex_char(nibble(u, k - hyphens_before(k)))
            },
    )
}

/// Formats a UUID given as its 128-bit value (`uuid::Uuid::from_u128` then `to_string`).
/// The source displays a UUID in the hyphenated lowercase form, and `Uuid::parse_str`
/// accepts that form and gives the same value back.
#[verifier::external_body]
pub(crate) fn uuid_text(u: u128) -> (r: String)
    ensures
        r@ == hyphenated_uuid(u),
        uuid_parse(r@) == Some(u),
{
    uuid::Uuid::from_u128(u).to_string()
}

/// Accessors name a property of a record by its path.
pub trait FieldAccessor: Sized {
    /// The path of the property this accessor reaches.
    spec fn field_path(&self) -> Seq<char>;

    fn new(property_path: PropertyPath) -> (r: Self)
        ensures
            r.field_path() == property_path@,
    ;
}

/// An enum of generated code, stored as its symbol name.
pub trait Enum: Sized {
    fn to_symbol_name(&self) -> &'static str;

    fn from_symbol_name(str: &str) -> Option<Self>;
}

/// A generated record type, reached through accessors.
pub trait RecordAccessor {
    fn schema_name() -> &'static str;

    /// A new object of this record type (all properties at their defaults); see
    /// `new_object_of_named_type`, which is given the name `schema_name` returns.
    fn new_single_object(schema_set: &SchemaSet) -> (r: DataSetResult<SingleObject>)
        ensures
            match r {
                Ok(o) => exists|name: Seq<char>| #[trigger] is_new_object_named(*schema_set, name, o@),
                Err(e) => e == DataSetError::SchemaNotFound || e == DataSetError::InvalidSchema,
            },
    {
        let name = Self::schema_name();
        let r = new_object_of_named_type(schema_set, name);
        proof {
            if r is Ok {
                assert(is_new_object_named(*schema_set, name@, r->Ok_0@));
            }
        }
        r
    }
}

/// `o` is the empty object of the record type that `name` names in `s`.
pub open spec fn is_new_object_named(s: SchemaSet, name: Seq<char>, o: ObjectModel) -> bool {
    &&& s.names().contains_key(name)
    &&& s.types().contains_key(s.names()[name].0)
    &&& s.types()[s.names()[name].0] matches SchemaNamedType::Record(rec)
    &&& o == empty_object(rec.fingerprint.0)
}

/// The empty object of the record type with fingerprint `f`.
pub open spec fn empty_object(f: u128) -> ObjectModel {
    ObjectModel {
        schema: f,
        properties: Map::empty(),
        null_overrides: Map::empty(),
        entries: Map::empty(),
    }
}

/// A new object of the record type named `name` in `schema_set`, with nothing set:
/// `SchemaNotFound` when no type has that name, `InvalidSchema` when it names an enum.
pub fn new_object_of_named_type(schema_set: &SchemaSet, name: &str) -> (r: DataSetResult<SingleObject>)
    ensures
        !(schema_set.names().contains_key(name@) && schema_set.types().contains_key(
            schema_set.names()[name@].0,
        )) ==> r == Err::<SingleObject, DataSetError>(DataSetError::SchemaNotFound),
        schema_set.names().contains_key(name@) && schema_set.types().contains_key(
            schema_set.names()[name@].0,
        ) ==> match schema_set.types()[schema_set.names()[name@].0] {
            SchemaNamedType::Record(rec) => r matches Ok(o) && o@ == empty_object(rec.fingerprint.0),
            SchemaNamedType::Enum(_) => r == Err::<SingleObject, DataSetError>(DataSetError::InvalidSchema),
        },
{
    let named = match schema_set.find_named_type(name) {
        Ok(t) => t,
        Err(e) => {
            return Err(e);
        },
    };
    match named.as_record() {
        Ok(rec) => Ok(SingleObject::new(rec)),
        Err(e) => Err(e),
    }
}

/// A read-only view of a generated record.
pub trait RecordRef {
    fn schema_name() -> &'static str;
}

/// A read/write view of a generated record.
pub trait RecordRefMut {
    fn schema_name() -> &'static str;
}

/// What an enum read gives once the symbol was looked up: the enum value, or
/// `UnexpectedEnumSymbol` when the symbol names none.
pub fn enum_from_lookup<T>(found: Option<T>) -> (r: DataSetResult<T>)
    ensures
        match found {
            Some(t) => r == Ok::<T, DataSetError>(t),
            None => r == Err::<T, DataSetError>(DataSetError::UnexpectedEnumSymbol),
        },
{
    match found {
        Some(t) => Ok(t),
        None => Err(DataSetError::UnexpectedEnumSymbol),
    }
}

/// Whenever the read of `path` succeeds, the value it gives is of the kind `kind` accepts.
pub open spec fn reads_kind(c: ContainerModel, s: SchemaSet, path: Seq<char>, kind: spec_fn(ValueModel) -> bool) -> bool {
    container_property(c, s, path) matches Ok(v) ==> kind(v)
}

/// An enum property.
pub struct EnumFieldAccessor<T: Enum>(PropertyPath, PhantomData<T>);

impl<T: Enum> FieldAccessor for EnumFieldAccessor<T> {
    closed spec fn field_path(&self) -> Seq<char> {
        self.0@
    }

    fn new(property_path: PropertyPath) -> (r: Self) {
        EnumFieldAccessor(property_path, PhantomData)
    }
}

impl<T: Enum> EnumFieldAccessor<T> {
    /// Reads the enum at `property_path`: the read's error, or the value whose symbol the
    /// stored symbol is (`UnexpectedEnumSymbol` when none is).
    pub fn do_get(property_path: &PropertyPath, data_container: DataContainerRef) -> (r:
        DataSetResult<T>)
        requires
            data_container.valid(),
            reads_kind(
                data_container.model(),
                data_container.schema(),
                property_path@,
                |v: ValueModel| v is Enum,
            ),
        ensures
            match container_property(
                data_container.model(),
                data_container.schema(),
                property_path@,
            ) {
                Err(e) => r == Err::<T, DataSetError>(e),
                Ok(_) => r is Ok || r == Err::<T, DataSetError>(DataSetError::UnexpectedEnumSymbol),
            },
    {
        let v = match data_container.resolve_property(property_path.path()) {
            Ok(v) => v,
            Err(e) => {
                return Err(e);
            },
        };
        match v {
            Value::Enum(e) => enum_from_lookup(T::from_symbol_name(e.symbol_name())),
            _ => Err(DataSetError::InvalidSchema),
        }
    }

    /// Writes the symbol of `value` at `property_path`.
    pub fn do_set(property_path: &PropertyPath, data_container: &mut DataContainerRefMut, value: T) -> (r:
        DataSetResult<Option<Value>>)
        requires
            old(data_container).valid(),
        ensures
            final(data_container).schema() == old(data_container).schema(),
            final(data_container).valid(),
            exists|sym: Seq<char>|
                property_set_outcome(
                    old(data_container).model(),
                    final(data_container).model(),
                    old(data_container).schema(),
                    property_path@,
                    Some(ValueModel::Enum(sym)),
                    r,
                ),
    {
        let sym = to_owned_string(value.to_symbol_name());
        let v = Value::Enum(ValueEnum::new(sym));
        let r = data_container.set_property_override(property_path.path(), Some(v));
        assert(property_set_outcome(
            old(data_container).model(),
            final(data_container).model(),
            old(data_container).schema(),
            property_path@,
            Some(ValueModel::Enum(sym@)),
            r,
        ));
        r
    }

    pub fn get(&self, data_container: DataContainerRef) -> (r: DataSetResult<T>)
        requires
            data_container.valid(),
            reads_kind(
                data_container.model(),
                data_container.schema(),
                self.field_path(),
                |v: ValueModel| v is Enum,
            ),
        ensures
            match container_property(data_container.model(), data_container.schema(), self.field_path()) {
                Err(e) => r == Err::<T, DataSetError>(e),
                Ok(_) => r is Ok || r == Err::<T, DataSetError>(DataSetError::UnexpectedEnumSymbol),
            },
    {
        Self::do_get(&self.0, data_container)
    }

    pub fn set(&self, data_container: &mut DataContainerRefMut, value: T) -> (r: DataSetResult<
        Option<Value>,
    >)
        requires
            old(data_container).valid(),
        ensures
            final(data_container).schema() == old(data_container).schema(),
            final(data_container).valid(),
            exists|sym: Seq<char>|
                property_set_outcome(
                    old(data_container).model(),
                    final(data_container).model(),
                    old(data_container).schema(),
                    self.field_path(),
                    Some(ValueModel::Enum(sym)),
                    r,
                ),
    {
        let r = Self::do_set(&self.0, data_container, value);
        proof {
            let sym = choose|sym: Seq<char>|
                property_set_outcome(
                    old(data_container).model(),
                    final(data_container).model(),
                    old(data_container).schema(),
                    self.0@,
                    Some(ValueModel::Enum(sym)),
                    r,
                );
            assert(property_set_outcome(
                old(data_container).model(),
                final(data_container).model(),
                old(data_container).schema(),
                self.field_path(),
                Some(ValueModel::Enum(sym)),
                r,
            ));
        }
        r
    }
}

/// The integer read as an i32 (`as`, wrapping).
pub open spec fn i32_of(v: ValueModel) -> i32 {
    match v {
        ValueModel::I32(x) => x,
        ValueModel::U32(x) => x as i32,
        ValueModel::I64(x) => x as i32,
        ValueModel::U64(x) => x as i32,
        _ => 0,
    }
}

/// The integer read as an i64 (`as`, wrapping).
pub open spec fn i64_of(v: ValueModel) -> i64 {
    match v {
        ValueModel::I32(x) => x as i64,
        ValueModel::U32(x) => x as i64,
        ValueModel::I64(x) => x,
        ValueModel::U64(x) => x as i64,
        _ => 0,
    }
}

/// The integer read as a u32 (`as`, wrapping).
pub open spec fn u32_of(v: ValueModel) -> u32 {
    match v {
        ValueModel::I32(x) => x as u32,
        ValueModel::U32(x) => x,
        ValueModel::I64(x) => x as u32,
        ValueModel::U64(x) => x as u32,
        _ => 0,
    }
}

/// The integer read as a u64 (`as`, wrapping).
pub open spec fn u64_of(v: ValueModel) -> u64 {
    match v {
        ValueModel::I32(x) => x as u64,
        ValueModel::U32(x) => x as u64,
        ValueModel::I64(x) => x as u64,
        ValueModel::U64(x) => x,
        _ => 0,
    }
}

/// One of the integer kinds.
pub open spec fn is_integer(v: ValueModel) -> bool {
    v is I32 || v is U32 || v is I64 || v is U64
}

/// A boolean property.
pub struct BooleanFieldAccessor(pub PropertyPath);

impl FieldAccessor for BooleanFieldAccessor {
    open spec fn field_path(&self) -> Seq<char> {
        self.0@
    }

    fn new(property_path: PropertyPath) -> (r: Self) {
        BooleanFieldAccessor(property_path)
    }
}

impl BooleanFieldAccessor {
    pub(crate) fn do_get(property_path: &PropertyPath, data_container: DataContainerRef) -> (r: DataSetResult<
        bool,
    >)
        requires
            data_container.valid(),
            reads_kind(
                data_container.model(),
                data_container.schema(),
                property_path@,
                |v: ValueModel| v is Boolean,
            ),
        ensures
            match container_property(
                data_container.model(),
                data_container.schema(),
                property_path@,
            ) {
                Err(e) => r == Err::<bool, DataSetError>(e),
                Ok(v) => r matches Ok(x) && ValueModel::Boolean(x) == v,
            },
    {
        let v = match data_container.resolve_property(property_path.path()) {
            Ok(v) => v,
            Err(e) => {
                return Err(e);
            },
        };
        match v {
            Value::Boolean(x) => Ok(x),
            _ => Err(DataSetError::InvalidSchema),
        }
    }

    fn do_set(property_path: &PropertyPath, data_container: &mut DataContainerRefMut, value: bool) -> (r:
        DataSetResult<Option<Value>>)
        requires
            old(data_container).valid(),
        ensures
            final(data_container).schema() == old(data_container).schema(),
            final(data_container).valid(),
            property_set_outcome(
                old(data_container).model(),
                final(data_container).model(),
                old(data_container).schema(),
                property_path@,
                Some(ValueModel::Boolean(value)),
                r,
            ),
    {
        data_container.set_property_override(property_path.path(), Some(Value::Boolean(value)))
    }

    pub fn get(&self, data_container: DataContainerRef) -> (r: DataSetResult<bool>)
        requires
            data_container.valid(),
            reads_kind(
                data_container.model(),
                data_container.schema(),
                self.field_path(),
                |v: ValueModel| v is Boolean,
            ),
        ensures
            match container_property(
                data_container.model(),
                data_container.schema(),
                self.field_path(),
            ) {
                Err(e) => r == Err::<bool, DataSetError>(e),
                Ok(v) => r matches Ok(x) && ValueModel::Boolean(x) == v,
            },
    {
        Self::do_get(&self.0, data_container)
    }

    pub fn set(&self, data_container: &mut DataContainerRefMut, value: bool) -> (r: DataSetResult<
        Option<Value>,
    >)
        requires
            old(data_container).valid(),
        ensures
            final(data_container).schema() == old(data_container).schema(),
            final(data_container).valid(),
            property_set_outcome(
                old(data_container).model(),
                final(data_container).model(),
                old(data_container).schema(),
                self.field_path(),
                Some(ValueModel::Boolean(value)),
                r,
            ),
    {
        Self::do_set(&self.0, data_container, value)
    }
}

/// A 32-bit signed integer property (any integer read is converted with `as`).
pub struct I32FieldAccessor(pub PropertyPath);

impl FieldAccessor for I32FieldAccessor {
    open spec fn field_path(&self) -> Seq<char> {
        self.0@
    }

    fn new(property_path: PropertyPath) -> (r: Self) {
        I32FieldAccessor(property_path)
    }
}

impl I32FieldAccessor {
    pub(crate) fn do_get(property_path: &PropertyPath, data_container: DataContainerRef) -> (r: DataSetResult<
        i32,
    >)
        requires
            data_container.valid(),
            reads_kind(
                data_container.model(),
                data_container.schema(),
                property_path@,
                |v: ValueModel| is_integer(v),
            ),
        ensures
            match container_property(
                data_container.model(),
                data_container.schema(),
                property_path@,
            ) {
                Err(e) => r == Err::<i32, DataSetError>(e),
                Ok(v) => r matches Ok(x) && x == i32_of(v),
            },
    {
        let v = match data_container.resolve_property(property_path.path()) {
            Ok(v) => v,
            Err(e) => {
                return Err(e);
            },
        };
        match v.as_i32() {
            Ok(x) => Ok(x),
            Err(e) => Err(e),
        }
    }

    fn do_set(property_path: &PropertyPath, data_container: &mut DataContainerRefMut, value: i32) -> (r:
        DataSetResult<Option<Value>>)
        requires
            old(data_container).valid(),
        ensures
            final(data_container).schema() == old(data_container).schema(),
            final(data_container).valid(),
            property_set_outcome(
                old(data_container).model(),
                final(data_container).model(),
                old(data_container).schema(),
                property_path@,
                Some(ValueModel::I32(value)),
                r,
            ),
    {
        data_container.set_property_override(property_path.path(), Some(Value::I32(value)))
    }

    pub fn get(&self, data_container: DataContainerRef) -> (r: DataSetResult<i32>)
        requires
            data_container.valid(),
            reads_kind(
                data_container.model(),
                data_container.schema(),
                self.field_path(),
                |v: ValueModel| is_integer(v),
            ),
        ensures
            match container_property(
                data_container.model(),
                data_container.schema(),
                self.field_path(),
            ) {
                Err(e) => r == Err::<i32, DataSetError>(e),
                Ok(v) => r matches Ok(x) && x == i32_of(v),
            },
    {
        Self::do_get(&self.0, data_container)
    }

    pub fn set(&self, data_container: &mut DataContainerRefMut, value: i32) -> (r: DataSetResult<
        Option<Value>,
    >)
        requires
            old(data_container).valid(),
        ensures
            final(data_container).schema() == old(data_container).schema(),
            final(data_container).valid(),
            property_set_outcome(
                old(data_container).model(),
                final(data_container).model(),
                old(data_container).schema(),
                self.field_path(),
                Some(ValueModel::I32(value)),
                r,
            ),
    {
        Self::do_set(&self.0, data_container, value)
    }
}

/// A 64-bit signed integer property (any integer read is converted with `as`).
pub struct I64FieldAccessor(pub PropertyPath);

impl FieldAccessor for I64FieldAccessor {
    open spec fn field_path(&self) -> Seq<char> {
        self.0@
    }

    fn new(property_path: PropertyPath) -> (r: Self) {
        I64FieldAccessor(property_path)
    }
}

impl I64FieldAccessor {
    pub(crate) fn do_get(property_path: &PropertyPath, data_container: DataContainerRef) -> (r: DataSetResult<
        i64,
    >)
        requires
            data_container.valid(),
            reads_kind(
                data_container.model(),
                data_container.schema(),
                property_path@,
                |v: ValueModel| is_integer(v),
            ),
        ensures
            match container_property(
                data_container.model(),
                data_container.schema(),
                property_path@,
            ) {
                Err(e) => r == Err::<i64, DataSetError>(e),
                Ok(v) => r matches Ok(x) && x == i64_of(v),
            },
    {
        let v = match data_container.resolve_property(property_path.path()) {
            Ok(v) => v,
            Err(e) => {
                return Err(e);
            },
        };
        match v.as_i64() {
            Ok(x) => Ok(x),
            Err(e) => Err(e),
        }
    }

    fn do_set(property_path: &PropertyPath, data_container: &mut DataContainerRefMut, value: i64) -> (r:
        DataSetResult<Option<Value>>)
        requires
            old(data_container).valid(),
        ensures
            final(data_container).schema() == old(data_container).schema(),
            final(data_container).valid(),
            property_set_outcome(
                old(data_container).model(),
                final(data_container).model(),
                old(data_container).schema(),
                property_path@,
                Some(ValueModel::I64(value)),
                r,
            ),
    {
        data_container.set_property_override(property_path.path(), Some(Value::I64(value)))
    }

    pub fn get(&self, data_container: DataContainerRef) -> (r: DataSetResult<i64>)
        requires
            data_container.valid(),
            reads_kind(
                data_container.model(),
                data_container.schema(),
                self.field_path(),
                |v: ValueModel| is_integer(v),
            ),
        ensures
            match container_property(
                data_container.model(),
                data_container.schema(),
                self.field_path(),
            ) {
                Err(e) => r == Err::<i64, DataSetError>(e),
                Ok(v) => r matches Ok(x) && x == i64_of(v),
            },
    {
        Self::do_get(&self.0, data_container)
    }

    pub fn set(&self, data_container: &mut DataContainerRefMut, value: i64) -> (r: DataSetResult<
        Option<Value>,
    >)
        requires
            old(data_container).valid(),
        ensures
            final(data_container).schema() == old(data_container).schema(),
            final(data_container).valid(),
            property_set_outcome(
                old(data_container).model(),
                final(data_container).model(),
                old(data_container).schema(),
                self.field_path(),
                Some(ValueModel::I64(value)),
                r,
            ),
    {
        Self::do_set(&self.0, data_container, value)
    }
}

/// A 32-bit unsigned integer property (any integer read is converted with `as`).
pub struct U32FieldAccessor(pub PropertyPath);

impl FieldAccessor for U32FieldAccessor {
    open spec fn field_path(&self) -> Seq<char> {
        self.0@
    }

    fn new(property_path: PropertyPath) -> (r: Self) {
        U32FieldAccessor(property_path)
    }
}

impl U32FieldAccessor {
    pub(crate) fn do_get(property_path: &PropertyPath, data_container: DataContainerRef) -> (r: DataSetResult<
        u32,
    >)
        requires
            data_container.valid(),
            reads_kind(
                data_container.model(),
                data_container.schema(),
                property_path@,
                |v: ValueModel| is_integer(v),
            ),
        ensures
            match container_property(
                data_container.model(),
                data_container.schema(),
                property_path@,
            ) {
                Err(e) => r == Err::<u32, DataSetError>(e),
                Ok(v) => r matches Ok(x) && x == u32_of(v),
            },
    {
        let v = match data_container.resolve_property(property_path.path()) {
            Ok(v) => v,
            Err(e) => {
                return Err(e);
            },
        };
        match v.as_u32() {
            Ok(x) => Ok(x),
            Err(e) => Err(e),
        }
    }

    fn do_set(property_path: &PropertyPath, data_container: &mut DataContainerRefMut, value: u32) -> (r:
        DataSetResult<Option<Value>>)
        requires
            old(data_container).valid(),
        ensures
            final(data_container).schema() == old(data_container).schema(),
            final(data_container).valid(),
            property_set_outcome(
                old(data_container).model(),
                final(data_container).model(),
                old(data_container).schema(),
                property_path@,
                Some(ValueModel::U32(value)),
                r,
            ),
    {
        data_container.set_property_override(property_path.path(), Some(Value::U32(value)))
    }

    pub fn get(&self, data_container: DataContainerRef) -> (r: DataSetResult<u32>)
        requires
            data_container.valid(),
            reads_kind(
                data_container.model(),
                data_container.schema(),
                self.field_path(),
                |v: ValueModel| is_integer(v),
            ),
        ensures
            match container_property(
                data_container.model(),
                data_container.schema(),
                self.field_path(),
            ) {
                Err(e) => r == Err::<u32, DataSetError>(e),
                Ok(v) => r matches Ok(x) && x == u32_of(v),
            },
    {
        Self::do_get(&self.0, data_container)
    }

    pub fn set(&self, data_container: &mut DataContainerRefMut, value: u32) -> (r: DataSetResult<
        Option<Value>,
    >)
        requires
            old(data_container).valid(),
        ensures
            final(data_container).schema() == old(data_container).schema(),
            final(data_container).valid(),
            property_set_outcome(
                old(data_container).model(),
                final(data_container).model(),
                old(data_container).schema(),
                self.field_path(),
                Some(ValueModel::U32(value)),
                r,
            ),
    {
        Self::do_set(&self.0, data_container, value)
    }
}

/// A 64-bit unsigned integer property (any integer read is converted with `as`).
pub struct U64FieldAccessor(pub PropertyPath);

impl FieldAccessor for U64FieldAccessor {
    open spec fn field_path(&self) -> Seq<char> {
        self.0@
    }

    fn new(property_path: PropertyPath) -> (r: Self) {
        U64FieldAccessor(property_path)
    }
}

impl U64FieldAccessor {
    pub(crate) fn do_get(property_path: &PropertyPath, data_container: DataContainerRef) -> (r: DataSetResult<
        u64,
    >)
        requires
            data_container.valid(),
            reads_kind(
                data_container.model(),
                data_container.schema(),
                property_path@,
                |v: ValueModel| is_integer(v),
            ),
        ensures
            match container_property(
                data_container.model(),
                data_container.schema(),
                property_path@,
            ) {
                Err(e) => r == Err::<u64, DataSetError>(e),
                Ok(v) => r matches Ok(x) && x == u64_of(v),
            },
    {
        let v = match data_container.resolve_property(property_path.path()) {
            Ok(v) => v,
            Err(e) => {
                return Err(e);
            },
        };
        match v.as_u64() {
            Ok(x) => Ok(x),
            Err(e) => Err(e),
        }
    }

    fn do_set(property_path: &PropertyPath, data_container: &mut DataContainerRefMut, value: u64) -> (r:
        DataSetResult<Option<Value>>)
        requires
            old(data_container).valid(),
        ensures
            final(data_container).schema() == old(data_container).schema(),
            final(data_container).valid(),
            property_set_outcome(
                old(data_container).model(),
                final(data_container).model(),
                old(data_container).schema(),
                property_path@,
                Some(ValueModel::U64(value)),
                r,
            ),
    {
        data_container.set_property_override(property_path.path(), Some(Value::U64(value)))
    }

    pub fn get(&self, data_container: DataContainerRef) -> (r: DataSetResult<u64>)
        requires
            data_container.valid(),
            reads_kind(
                data_container.model(),
                data_container.schema(),
                self.field_path(),
                |v: ValueModel| is_integer(v),
            ),
        ensures
            match container_property(
                data_container.model(),
                data_container.schema(),
                self.field_path(),
            ) {
                Err(e) => r == Err::<u64, DataSetError>(e),
                Ok(v) => r matches Ok(x) && x == u64_of(v),
            },
    {
        Self::do_get(&self.0, data_container)
    }

    pub fn set(&self, data_container: &mut DataContainerRefMut, value: u64) -> (r: DataSetResult<
        Option<Value>,
    >)
        requires
            old(data_container).valid(),
        ensures
            final(data_container).schema() == old(data_container).schema(),
            final(data_container).valid(),
            property_set_outcome(
                old(data_container).model(),
                final(data_container).model(),
                old(data_container).schema(),
                self.field_path(),
                Some(ValueModel::U64(value)),
                r,
            ),
    {
        Self::do_set(&self.0, data_container, value)
    }
}

/// A byte buffer property.
pub struct BytesFieldAccessor(pub PropertyPath);

impl FieldAccessor for BytesFieldAccessor {
    open spec fn field_path(&self) -> Seq<char> {
        self.0@
    }

    fn new(property_path: PropertyPath) -> (r: Self) {
        BytesFieldAccessor(property_path)
    }
}

impl BytesFieldAccessor {
    pub(crate) fn do_get(property_path: &PropertyPath, data_container: DataContainerRef) -> (r: DataSetResult<
        Vec<u8>,
    >)
        requires
            data_container.valid(),
            reads_kind(
                data_container.model(),
                data_container.schema(),
                property_path@,
                |v: ValueModel| v is Bytes,
            ),
        ensures
            match container_property(
                data_container.model(),
                data_container.schema(),
                property_path@,
            ) {
                Err(e) => r == Err::<Vec<u8>, DataSetError>(e),
                Ok(v) => r matches Ok(x) && ValueModel::Bytes(x@) == v,
            },
    {
        let v = match data_container.resolve_property(property_path.path()) {
            Ok(v) => v,
            Err(e) => {
                return Err(e);
            },
        };
        match v {
            Value::Bytes(x) => Ok(x),
            _ => Err(DataSetError::InvalidSchema),
        }
    }

    fn do_set(property_path: &PropertyPath, data_container: &mut DataContainerRefMut, value: Vec<u8>) -> (r:
        DataSetResult<Option<Value>>)
        requires
            old(data_container).valid(),
        ensures
            final(data_container).schema() == old(data_container).schema(),
            final(data_container).valid(),
            property_set_outcome(
                old(data_container).model(),
                final(data_container).model(),
                old(data_container).schema(),
                property_path@,
                Some(ValueModel::Bytes(value@)),
                r,
            ),
    {
        data_container.set_property_override(property_path.path(), Some(Value::Bytes(value)))
    }

    pub fn get(&self, data_container: DataContainerRef) -> (r: DataSetResult<Vec<u8>>)
        requires
            data_container.valid(),
            reads_kind(
                data_container.model(),
                data_container.schema(),
                self.field_path(),
                |v: ValueModel| v is Bytes,
            ),
        ensures
            match container_property(
                data_container.model(),
                data_container.schema(),
                self.field_path(),
            ) {
                Err(e) => r == Err::<Vec<u8>, DataSetError>(e),
                Ok(v) => r matches Ok(x) && ValueModel::Bytes(x@) == v,
            },
    {
        Self::do_get(&self.0, data_container)
    }

    pub fn set(&self, data_container: &mut DataContainerRefMut, value: Vec<u8>) -> (r: DataSetResult<
        Option<Value>,
    >)
        requires
            old(data_container).valid(),
        ensures
            final(data_container).schema() == old(data_container).schema(),
            final(data_container).valid(),
            property_set_outcome(
                old(data_container).model(),
                final(data_container).model(),
                old(data_container).schema(),
                self.field_path(),
                Some(ValueModel::Bytes(value@)),
                r,
            ),
    {
        Self::do_set(&self.0, data_container, value)
    }
}

/// A string property.
pub struct StringFieldAccessor(pub PropertyPath);

impl FieldAccessor for StringFieldAccessor {
    open spec fn field_path(&self) -> Seq<char> {
        self.0@
    }

    fn new(property_path: PropertyPath) -> (r: Self) {
        StringFieldAccessor(property_path)
    }
}

impl StringFieldAccessor {
    pub(crate) fn do_get(property_path: &PropertyPath, data_container: DataContainerRef) -> (r: DataSetResult<
        String,
    >)
        requires
            data_container.valid(),
            reads_kind(
                data_container.model(),
                data_container.schema(),
                property_path@,
                |v: ValueModel| v is String,
            ),
        ensures
            match container_property(
                data_container.model(),
                data_container.schema(),
                property_path@,
            ) {
                Err(e) => r == Err::<String, DataSetError>(e),
                Ok(v) => r matches Ok(x) && ValueModel::String(x@) == v,
            },
    {
        let v = match data_container.resolve_property(property_path.path()) {
            Ok(v) => v,
            Err(e) => {
                return Err(e);
            },
        };
        match v {
            Value::String(x) => Ok(x),
            _ => Err(DataSetError::InvalidSchema),
        }
    }

    fn do_set(property_path: &PropertyPath, data_container: &mut DataContainerRefMut, value: String) -> (r:
        DataSetResult<Option<Value>>)
        requires
            old(data_container).valid(),
        ensures
            final(data_container).schema() == old(data_container).schema(),
            final(data_container).valid(),
            property_set_outcome(
                old(data_container).model(),
                final(data_container).model(),
                old(data_container).schema(),
                property_path@,
                Some(ValueModel::String(value@)),
                r,
            ),
    {
        data_container.set_property_override(property_path.path(), Some(Value::String(value)))
    }

    pub fn get(&self, data_container: DataContainerRef) -> (r: DataSetResult<String>)
        requires
            data_container.valid(),
            reads_kind(
                data_container.model(),
                data_container.schema(),
                self.field_path(),
                |v: ValueModel| v is String,
            ),
        ensures
            match container_property(
                data_container.model(),
                data_container.schema(),
                self.field_path(),
            ) {
                Err(e) => r == Err::<String, DataSetError>(e),
                Ok(v) => r matches Ok(x) && ValueModel::String(x@) == v,
            },
    {
        Self::do_get(&self.0, data_container)
    }

    pub fn set(&self, data_container: &mut DataContainerRefMut, value: String) -> (r: DataSetResult<
        Option<Value>,
    >)
        requires
            old(data_container).valid(),
        ensures
            final(data_container).schema() == old(data_container).schema(),
            final(data_container).valid(),
            property_set_outcome(
                old(data_container).model(),
                final(data_container).model(),
                old(data_container).schema(),
                self.field_path(),
                Some(ValueModel::String(value@)),
                r,
            ),
    {
        Self::do_set(&self.0, data_container, value)
    }
}

/// A reference to another asset.
pub struct AssetRefFieldAccessor(pub PropertyPath);

impl FieldAccessor for AssetRefFieldAccessor {
    open spec fn field_path(&self) -> Seq<char> {
        self.0@
    }

    fn new(property_path: PropertyPath) -> (r: Self) {
        AssetRefFieldAccessor(property_path)
    }
}

impl AssetRefFieldAccessor {
    pub(crate) fn do_get(property_path: &PropertyPath, data_container: DataContainerRef) -> (r: DataSetResult<
        AssetId,
    >)
        requires
            data_container.valid(),
            reads_kind(
                data_container.model(),
                data_container.schema(),
                property_path@,
                |v: ValueModel| v is AssetRef,
            ),
        ensures
            match container_property(
                data_container.model(),
                data_container.schema(),
                property_path@,
            ) {
                Err(e) => r == Err::<AssetId, DataSetError>(e),
                Ok(v) => r matches Ok(x) && ValueModel::AssetRef(x) == v,
            },
    {
        let v = match data_container.resolve_property(property_path.path()) {
            Ok(v) => v,
            Err(e) => {
                return Err(e);
            },
        };
        match v {
            Value::AssetRef(x) => Ok(x),
            _ => Err(DataSetError::InvalidSchema),
        }
    }

    fn do_set(property_path: &PropertyPath, data_container: &mut DataContainerRefMut, value: AssetId) -> (r:
        DataSetResult<Option<Value>>)
        requires
            old(data_container).valid(),
        ensures
            final(data_container).schema() == old(data_container).schema(),
            final(data_container).valid(),
            property_set_outcome(
                old(data_container).model(),
                final(data_container).model(),
                old(data_container).schema(),
                property_path@,
                Some(ValueModel::AssetRef(value)),
                r,
            ),
    {
        data_container.set_property_override(property_path.path(), Some(Value::AssetRef(value)))
    }

    pub fn get(&self, data_container: DataContainerRef) -> (r: DataSetResult<AssetId>)
        requires
            data_container.valid(),
            reads_kind(
                data_container.model(),
                data_container.schema(),
                self.field_path(),
                |v: ValueModel| v is AssetRef,
            ),
        ensures
            match container_property(
                data_container.model(),
                data_container.schema(),
                self.field_path(),
            ) {
                Err(e) => r == Err::<AssetId, DataSetError>(e),
                Ok(v) => r matches Ok(x) && ValueModel::AssetRef(x) == v,
            },
    {
        Self::do_get(&self.0, data_container)
    }

    pub fn set(&self, data_container: &mut DataContainerRefMut, value: AssetId) -> (r: DataSetResult<
        Option<Value>,
    >)
        requires
            old(data_container).valid(),
        ensures
            final(data_container).schema() == old(data_container).schema(),
            final(data_container).valid(),
            property_set_outcome(
                old(data_container).model(),
                final(data_container).model(),
                old(data_container).schema(),
                self.field_path(),
                Some(ValueModel::AssetRef(value)),
                r,
            ),
    {
        Self::do_set(&self.0, data_container, value)
    }
}

/// A 32-bit floating-point property. Reading and writing it converts floating-point
/// values, which this library leaves to its callers: the property is read and written
/// as a `Value::F32` holding the bits.
pub struct F32FieldAccessor(pub PropertyPath);

impl FieldAccessor for F32FieldAccessor {
    open spec fn field_path(&self) -> Seq<char> {
        self.0@
    }

    fn new(property_path: PropertyPath) -> (r: Self) {
        F32FieldAccessor(property_path)
    }
}

/// A 64-bit floating-point property. Reading and writing it converts floating-point
/// values, which this library leaves to its callers: the property is read and written
/// as a `Value::F64` holding the bits.
pub struct F64FieldAccessor(pub PropertyPath);

impl FieldAccessor for F64FieldAccessor {
    open spec fn field_path(&self) -> Seq<char> {
        self.0@
    }

    fn new(property_path: PropertyPath) -> (r: Self) {
        F64FieldAccessor(property_path)
    }
}

/// A nullable property; its value, when set non-null, is the field `value`.
pub struct NullableFieldAccessor<T: FieldAccessor>(pub PropertyPath, PhantomData<T>);

impl<T: FieldAccessor> FieldAccessor for NullableFieldAccessor<T> {
    closed spec fn field_path(&self) -> Seq<char> {
        self.0@
    }

    fn new(property_path: PropertyPath) -> (r: Self) {
        NullableFieldAccessor(property_path, PhantomData)
    }
}

/// What a nullable read gives for the null override `n` in effect: an accessor for the
/// value when it is set non-null, else None.
pub open spec fn nullable_result<T: FieldAccessor>(
    n: DataSetResult<NullOverride>,
    path: Seq<char>,
    r: DataSetResult<Option<T>>,
) -> bool {
    match n {
        Err(e) => r matches Err(e2) && e2 == e,
        Ok(o) => if o == NullOverride::SetNonNull {
            r matches Ok(Some(t)) && t.field_path() == pushed_path(path, "value"@)
        } else {
            r matches Ok(None)
        },
    }
}

impl<T: FieldAccessor> NullableFieldAccessor<T> {
    pub fn resolve_null(&self, data_container: DataContainerRef) -> (r: DataSetResult<Option<T>>)
        requires
            data_container.valid(),
        ensures
            nullable_result(
                container_null_override(
                    data_container.model(),
                    data_container.schema(),
                    self.field_path(),
                ),
                self.field_path(),
                r,
            ),
    {
        match self.resolve_null_override(data_container) {
            Err(e) => Err(e),
            Ok(NullOverride::SetNonNull) => Ok(Some(T::new(self.0.push("value")))),
            Ok(_) => Ok(None),
        }
    }

    pub fn resolve_null_override(&self, data_container: DataContainerRef) -> (r: DataSetResult<
        NullOverride,
    >)
        requires
            data_container.valid(),
        ensures
            r == container_null_override(
                data_container.model(),
                data_container.schema(),
                self.field_path(),
            ),
    {
        data_container.resolve_null_override(self.0.path())
    }

    /// Sets the null override, then reads it back as `resolve_null` does.
    pub fn set_null_override(&self, data_container: &mut DataContainerRefMut, null_override: NullOverride) -> (r:
        DataSetResult<Option<T>>)
        requires
            old(data_container).valid(),
        ensures
            final(data_container).schema() == old(data_container).schema(),
            final(data_container).valid(),
            match container_schema_at(
                old(data_container).model(),
                old(data_container).schema(),
                self.field_path(),
            ) {
                Err(e) => (r matches Err(e2) && e2 == e) && final(data_container).model() == old(data_container).model(),
                Ok(s) => if s is Nullable {
                    final(data_container).model() == container_with_null(
                        old(data_container).model(),
                        self.field_path(),
                        null_override,
                    ) && nullable_result(
                        container_null_override(
                            final(data_container).model(),
                            final(data_container).schema(),
                            self.field_path(),
                        ),
                        self.field_path(),
                        r,
                    )
                } else {
                    (r matches Err(e) && e == DataSetError::InvalidSchema) && final(data_container).model() == old(data_container).model()
                },
            },
    {
        let path = self.0.path();
        match data_container.set_null_override(path, null_override) {
            Ok(_) => {},
            Err(e) => {
                return Err(e);
            },
        }
        match data_container.resolve_null_override(path) {
            Err(e) => Err(e),
            Ok(NullOverride::SetNonNull) => Ok(Some(T::new(self.0.push("value")))),
            Ok(_) => Ok(None),
        }
    }
}

/// A fixed-length array property; entry `i` is the field named by `i` in decimal.
pub struct StaticArrayFieldAccessor<T: FieldAccessor>(pub PropertyPath, PhantomData<T>);

impl<T: FieldAccessor> FieldAccessor for StaticArrayFieldAccessor<T> {
    closed spec fn field_path(&self) -> Seq<char> {
        self.0@
    }

    fn new(property_path: PropertyPath) -> (r: Self) {
        StaticArrayFieldAccessor(property_path, PhantomData)
    }
}

impl<T: FieldAccessor> StaticArrayFieldAccessor<T> {
    /// The entries listed at this path, read as those of a dynamic array.
    pub fn resolve_entries(&self, data_container: DataContainerRef) -> (r: DataSetResult<Vec<u128>>)
        requires
            data_container.valid(),
        ensures
            match r {
                Ok(v) => container_array(data_container.model(), data_container.schema(), self.field_path())
                    == Ok::<Seq<u128>, DataSetError>(v@),
                Err(e) => container_array(data_container.model(), data_container.schema(), self.field_path())
                    == Err::<Seq<u128>, DataSetError>(e),
            },
    {
        data_container.resolve_dynamic_array(self.0.path())
    }

    /// The accessor of entry `index`.
    pub fn entry(&self, index: usize) -> (r: T)
        ensures
            r.field_path() == pushed_path(self.field_path(), decimal_text(index as nat)),
    {
        let name = usize_to_text(index);
        T::new(self.0.push(name.as_str()))
    }
}

/// A dynamic array property; the entry with id `u` is the field named by `u` in the
/// hyphenated UUID form.
pub struct DynamicArrayFieldAccessor<T: FieldAccessor>(pub PropertyPath, PhantomData<T>);

impl<T: FieldAccessor> FieldAccessor for DynamicArrayFieldAccessor<T> {
    closed spec fn field_path(&self) -> Seq<char> {
        self.0@
    }

    fn new(property_path: PropertyPath) -> (r: Self) {
        DynamicArrayFieldAccessor(property_path, PhantomData)
    }
}

impl<T: FieldAccessor> DynamicArrayFieldAccessor<T> {
    pub fn resolve_entries(&self, data_container: DataContainerRef) -> (r: DataSetResult<Vec<u128>>)
        requires
            data_container.valid(),
        ensures
            match r {
                Ok(v) => container_array(data_container.model(), data_container.schema(), self.field_path())
                    == Ok::<Seq<u128>, DataSetError>(v@),
                Err(e) => container_array(data_container.model(), data_container.schema(), self.field_path())
                    == Err::<Seq<u128>, DataSetError>(e),
            },
    {
        data_container.resolve_dynamic_array(self.0.path())
    }

    /// The accessor of the entry with id `entry_uuid`.
    pub fn entry(&self, entry_uuid: u128) -> (r: T)
        ensures
            r.field_path() == pushed_path(self.field_path(), hyphenated_uuid(entry_uuid)),
    {
        let name = uuid_text(entry_uuid);
        T::new(self.0.push(name.as_str()))
    }

    /// Appends a new entry with a random id.
    pub fn add_entry(&self, data_container: &mut DataContainerRefMut) -> (r: DataSetResult<u128>)
        requires
            old(data_container).valid(),
        ensures
            final(data_container).schema() == old(data_container).schema(),
            final(data_container).valid(),
            match container_schema_at(
                old(data_container).model(),
                old(data_container).schema(),
                self.field_path(),
            ) {
                Err(e) => r == Err::<u128, DataSetError>(e) && final(data_container).model() == old(data_container).model(),
                Ok(s) => if s is DynamicArray {
                    match r {
                        Ok(u) => !container_entries(old(data_container).model(), self.field_path()).contains(u)
                            && final(data_container).model() == container_with_entries(
                            old(data_container).model(),
                            self.field_path(),
                            container_entries(old(data_container).model(), self.field_path()).push(u),
                        ),
                        Err(e) => e == DataSetError::DuplicateEntryKey && final(data_container).model()
                            == old(data_container).model() && container_entries(
                            old(data_container).model(),
                            self.field_path(),
                        ).len() > 0,
                    }
                } else {
                    r == Err::<u128, DataSetError>(DataSetError::InvalidSchema) && final(data_container).model() == old(data_container).model()
                },
            },
    {
        data_container.add_dynamic_array_override(self.0.path())
    }

    /// Removes the entry `entry_id`; returns whether it was listed.
    pub fn remove_entry(&self, data_container: &mut DataContainerRefMut, entry_id: u128) -> (r:
        DataSetResult<bool>)
        requires
            old(data_container).valid(),
        ensures
            final(data_container).schema() == old(data_container).schema(),
            final(data_container).valid(),
            match container_schema_at(
                old(data_container).model(),
                old(data_container).schema(),
                self.field_path(),
            ) {
                Err(e) => r == Err::<bool, DataSetError>(e) && final(data_container).model() == old(data_container).model(),
                Ok(s) => if s is DynamicArray {
                    let e = container_entries(old(data_container).model(), self.field_path());
                    &&& r == Ok::<bool, DataSetError>(e.contains(entry_id))
                    &&& !e.contains(entry_id) ==> final(data_container).model() == old(data_container).model()
                    &&& e.contains(entry_id) ==> exists|i: int|
                        0 <= i < e.len() && e[i] == entry_id && final(data_container).model()
                            == container_with_entries(old(data_container).model(), self.field_path(), e.remove(i))
                } else {
                    r == Err::<bool, DataSetError>(DataSetError::InvalidSchema) && final(data_container).model() == old(data_container).model()
                },
            },
    {
        data_container.remove_dynamic_array_override(self.0.path(), entry_id)
    }
}

/// A map property; the key and the value of the entry with id `u` are both reached
/// through the field named by `u` in the hyphenated UUID form.
pub struct MapFieldAccessor<KeyT: FieldAccessor, ValueT: FieldAccessor>(
    pub PropertyPath,
    PhantomData<(KeyT, ValueT)>,
);

impl<KeyT: FieldAccessor, ValueT: FieldAccessor> FieldAccessor for MapFieldAccessor<KeyT, ValueT> {
    closed spec fn field_path(&self) -> Seq<char> {
        self.0@
    }

    fn new(property_path: PropertyPath) -> (r: Self) {
        MapFieldAccessor(property_path, PhantomData)
    }
}

impl<KeyT: FieldAccessor, ValueT: FieldAccessor> MapFieldAccessor<KeyT, ValueT> {
    pub fn resolve_entries(&self, data_container: DataContainerRef) -> (r: DataSetResult<Vec<u128>>)
        requires
            data_container.valid(),
        ensures
            match r {
                Ok(v) => container_map(data_container.model(), data_container.schema(), self.field_path())
                    == Ok::<Seq<u128>, DataSetError>(v@),
                Err(e) => container_map(data_container.model(), data_container.schema(), self.field_path())
                    == Err::<Seq<u128>, DataSetError>(e),
            },
    {
        data_container.resolve_map(self.0.path())
    }

    pub fn key(&self, entry_uuid: u128) -> (r: KeyT)
        ensures
            r.field_path() == pushed_path(self.field_path(), hyphenated_uuid(entry_uuid)),
    {
        let name = uuid_text(entry_uuid);
        KeyT::new(self.0.push(name.as_str()))
    }

    pub fn value(&self, entry_uuid: u128) -> (r: ValueT)
        ensures
            r.field_path() == pushed_path(self.field_path(), hyphenated_uuid(entry_uuid)),
    {
        let name = uuid_text(entry_uuid);
        ValueT::new(self.0.push(name.as_str()))
    }

    /// Appends a new entry with a random id (a data set keeps no map entries:
    /// `InvalidSchema`).
    pub fn add_entry(&self, data_container: &mut DataContainerRefMut) -> (r: DataSetResult<u128>)
        requires
            old(data_container).valid(),
        ensures
            final(data_container).schema() == old(data_container).schema(),
            final(data_container).valid(),
            old(data_container).model() is Assets ==> r == Err::<u128, DataSetError>(
                DataSetError::InvalidSchema,
            ) && final(data_container).model() == old(data_container).model(),
            old(data_container).model() is Object ==> match container_schema_at(
                old(data_container).model(),
                old(data_container).schema(),
                self.field_path(),
            ) {
                Err(e) => r == Err::<u128, DataSetError>(e) && final(data_container).model() == old(data_container).model(),
                Ok(s) => if s is Mapping {
                    match r {
                        Ok(u) => !container_entries(old(data_container).model(), self.field_path()).contains(u)
                            && final(data_container).model() == container_with_entries(
                            old(data_container).model(),
                            self.field_path(),
                            container_entries(old(data_container).model(), self.field_path()).push(u),
                        ),
                        Err(e) => e == DataSetError::DuplicateEntryKey && final(data_container).model()
                            == old(data_container).model() && container_entries(
                            old(data_container).model(),
                            self.field_path(),
                        ).len() > 0,
                    }
                } else {
                    r == Err::<u128, DataSetError>(DataSetError::InvalidSchema) && final(data_container).model() == old(data_container).model()
                },
            },
    {
        data_container.add_map_override(self.0.path())
    }

    /// Removes the entry `entry_id` (a data set keeps no map entries: `InvalidSchema`);
    /// returns whether it was listed.
    pub fn remove_entry(&self, data_container: &mut DataContainerRefMut, entry_id: u128) -> (r:
        DataSetResult<bool>)
        requires
            old(data_container).valid(),
        ensures
            final(data_container).schema() == old(data_container).schema(),
            final(data_container).valid(),
            old(data_container).model() is Assets ==> r == Err::<bool, DataSetError>(
                DataSetError::InvalidSchema,
            ) && final(data_container).model() == old(data_container).model(),
            old(data_container).model() is Object ==> match container_schema_at(
                old(data_container).model(),
                old(data_container).schema(),
                self.field_path(),
            ) {
                Err(e) => r == Err::<bool, DataSetError>(e) && final(data_container).model() == old(data_container).model(),
                Ok(s) => if s is Mapping {
                    let e = container_entries(old(data_container).model(), self.field_path());
                    &&& r == Ok::<bool, DataSetError>(e.contains(entry_id))
                    &&& !e.contains(entry_id) ==> final(data_container).model() == old(data_container).model()
                    &&& e.contains(entry_id) ==> exists|i: int|
                        0 <= i < e.len() && e[i] == entry_id && final(data_container).model()
                            == container_with_entries(old(data_container).model(), self.field_path(), e.remove(i))
                } else {
                    r == Err::<bool, DataSetError>(DataSetError::InvalidSchema) && final(data_container).model() == old(data_container).model()
                },
            },
    {
        data_container.remove_map_override(self.0.path(), entry_id)
    }
}

} // verus!
