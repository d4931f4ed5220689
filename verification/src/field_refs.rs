use vstd::prelude::*;
use std::marker::PhantomData;
use crate::data_container::{container_array, container_map, container_null_override, container_property, DataContainerRef};
use crate::field_wrappers::{
    decimal_text, hyphenated_uuid, i32_of, i64_of, is_integer, pushed_path, reads_kind, u32_of, u64_of,
    usize_to_text, uuid_text, AssetRefFieldAccessor, BooleanFieldAccessor, BytesFieldAccessor, Enum,
    EnumFieldAccessor, I32FieldAccessor, I64FieldAccessor, PropertyPath, StringFieldAccessor,
    U32FieldAccessor, U64FieldAccessor,
};
use crate::ids::{AssetId, DataSetError, DataSetResult, NullOverride};
use crate::value::ValueModel;

verus! {

/// Views of a property of a read-only container, made from its path and the container.
pub trait FieldRef<'a>: Sized {
    /// The path of the property this view reaches.
    spec fn field_path(&self) -> Seq<char>;

    /// The container it reads.
    spec fn container(&self) -> DataContainerRef<'a>;

    fn new(property_path: PropertyPath, data_container: DataContainerRef<'a>) -> (r: Self)
        ensures
            r.field_path() == property_path@,
            r.container() == data_container,
    ;
}

/// An enum property of a read-only container.
pub struct EnumFieldRef<'a, T>(pub PropertyPath, DataContainerRef<'a>, PhantomData<T>);

impl<'a, T: Enum> FieldRef<'a> for EnumFieldRef<'a, T> {
    closed spec fn field_path(&self) -> Seq<char> {
        self.0@
    }

    closed spec fn container(&self) -> DataContainerRef<'a> {
        self.1
    }

    fn new(property_path: PropertyPath, data_container: DataContainerRef<'a>) -> (r: Self) {
        EnumFieldRef(property_path, data_container, PhantomData)
    }
}

impl<'a, T: Enum> EnumFieldRef<'a, T> {
    pub fn get(&self) -> (r: DataSetResult<T>)
        requires
            self.container().valid(),
            reads_kind(
                self.container().model(),
                self.container().schema(),
                self.field_path(),
                |v: ValueModel| v is Enum,
            ),
        ensures
            match container_property(self.container().model(), self.container().schema(), self.field_path()) {
                Err(e) => r == Err::<T, DataSetError>(e),
                Ok(_) => r is Ok || r == Err::<T, DataSetError>(DataSetError::UnexpectedEnumSymbol),
            },
    {
        EnumFieldAccessor::<T>::do_get(&self.0, self.1)
    }
}

/// A boolean property of a read-only container.
pub struct BooleanFieldRef<'a>(pub PropertyPath, DataContainerRef<'a>);

impl<'a> FieldRef<'a> for BooleanFieldRef<'a> {
    closed spec fn field_path(&self) -> Seq<char> {
        self.0@
    }

    closed spec fn container(&self) -> DataContainerRef<'a> {
        self.1
    }

    fn new(property_path: PropertyPath, data_container: DataContainerRef<'a>) -> (r: Self) {
        BooleanFieldRef(property_path, data_container)
    }
}

impl<'a> BooleanFieldRef<'a> {
    pub fn get(&self) -> (r: DataSetResult<bool>)
        requires
            self.container().valid(),
            reads_kind(
                self.container().model(),
                self.container().schema(),
                self.field_path(),
                |v: ValueModel| v is Boolean,
            ),
        ensures
            match container_property(self.container().model(), self.container().schema(), self.field_path()) {
                Err(e) => r == Err::<bool, DataSetError>(e),
                Ok(v) => r matches Ok(x) && ValueModel::Boolean(x) == v,
            },
    {
        BooleanFieldAccessor::do_get(&self.0, self.1)
    }
}

/// A 32-bit signed integer property of a read-only container.
pub struct I32FieldRef<'a>(pub PropertyPath, DataContainerRef<'a>);

impl<'a> FieldRef<'a> for I32FieldRef<'a> {
    closed spec fn field_path(&self) -> Seq<char> {
        self.0@
    }

    closed spec fn container(&self) -> DataContainerRef<'a> {
        self.1
    }

    fn new(property_path: PropertyPath, data_container: DataContainerRef<'a>) -> (r: Self) {
        I32FieldRef(property_path, data_container)
    }
}

impl<'a> I32FieldRef<'a> {
    pub fn get(&self) -> (r: DataSetResult<i32>)
        requires
            self.container().valid(),
            reads_kind(
                self.container().model(),
                self.container().schema(),
                self.field_path(),
                |v: ValueModel| is_integer(v),
            ),
        ensures
            match container_property(self.container().model(), self.container().schema(), self.field_path()) {
                Err(e) => r == Err::<i32, DataSetError>(e),
                Ok(v) => r matches Ok(x) && x == i32_of(v),
            },
    {
        I32FieldAccessor::do_get(&self.0, self.1)
    }
}

/// A 64-bit signed integer property of a read-only container.
pub struct I64FieldRef<'a>(pub PropertyPath, DataContainerRef<'a>);

impl<'a> FieldRef<'a> for I64FieldRef<'a> {
    closed spec fn field_path(&self) -> Seq<char> {
        self.0@
    }

    closed spec fn container(&self) -> DataContainerRef<'a> {
        self.1
    }

    fn new(property_path: PropertyPath, data_container: DataContainerRef<'a>) -> (r: Self) {
        I64FieldRef(property_path, data_container)
    }
}

impl<'a> I64FieldRef<'a> {
    pub fn get(&self) -> (r: DataSetResult<i64>)
        requires
            self.container().valid(),
            reads_kind(
                self.container().model(),
                self.container().schema(),
                self.field_path(),
                |v: ValueModel| is_integer(v),
            ),
        ensures
            match container_property(self.container().model(), self.container().schema(), self.field_path()) {
                Err(e) => r == Err::<i64, DataSetError>(e),
                Ok(v) => r matches Ok(x) && x == i64_of(v),
            },
    {
        I64FieldAccessor::do_get(&self.0, self.1)
    }
}

/// A 32-bit unsigned integer property of a read-only container.
pub struct U32FieldRef<'a>(pub PropertyPath, DataContainerRef<'a>);

impl<'a> FieldRef<'a> for U32FieldRef<'a> {
    closed spec fn field_path(&self) -> Seq<char> {
        self.0@
    }

    closed spec fn container(&self) -> DataContainerRef<'a> {
        self.1
    }

    fn new(property_path: PropertyPath, data_container: DataContainerRef<'a>) -> (r: Self) {
        U32FieldRef(property_path, data_container)
    }
}

impl<'a> U32FieldRef<'a> {
    pub fn get(&self) -> (r: DataSetResult<u32>)
        requires
            self.container().valid(),
            reads_kind(
                self.container().model(),
                self.container().schema(),
                self.field_path(),
                |v: ValueModel| is_integer(v),
            ),
        ensures
            match container_property(self.container().model(), self.container().schema(), self.field_path()) {
                Err(e) => r == Err::<u32, DataSetError>(e),
                Ok(v) => r matches Ok(x) && x == u32_of(v),
            },
    {
        U32FieldAccessor::do_get(&self.0, self.1)
    }
}

/// A 64-bit unsigned integer property of a read-only container.
pub struct U64FieldRef<'a>(pub PropertyPath, DataContainerRef<'a>);

impl<'a> FieldRef<'a> for U64FieldRef<'a> {
    closed spec fn field_path(&self) -> Seq<char> {
        self.0@
    }

    closed spec fn container(&self) -> DataContainerRef<'a> {
        self.1
    }

    fn new(property_path: PropertyPath, data_container: DataContainerRef<'a>) -> (r: Self) {
        U64FieldRef(property_path, data_container)
    }
}

impl<'a> U64FieldRef<'a> {
    pub fn get(&self) -> (r: DataSetResult<u64>)
        requires
            self.container().valid(),
            reads_kind(
                self.container().model(),
                self.container().schema(),
                self.field_path(),
                |v: ValueModel| is_integer(v),
            ),
        ensures
            match container_property(self.container().model(), self.container().schema(), self.field_path()) {
                Err(e) => r == Err::<u64, DataSetError>(e),
                Ok(v) => r matches Ok(x) && x == u64_of(v),
            },
    {
        U64FieldAccessor::do_get(&self.0, self.1)
    }
}

/// A byte buffer property of a read-only container.
pub struct BytesFieldRef<'a>(pub PropertyPath, DataContainerRef<'a>);

impl<'a> FieldRef<'a> for BytesFieldRef<'a> {
    closed spec fn field_path(&self) -> Seq<char> {
        self.0@
    }

    closed spec fn container(&self) -> DataContainerRef<'a> {
        self.1
    }

    fn new(property_path: PropertyPath, data_container: DataContainerRef<'a>) -> (r: Self) {
        BytesFieldRef(property_path, data_container)
    }
}

impl<'a> BytesFieldRef<'a> {
    pub fn get(&self) -> (r: DataSetResult<Vec<u8>>)
        requires
            self.container().valid(),
            reads_kind(
                self.container().model(),
                self.container().schema(),
                self.field_path(),
                |v: ValueModel| v is Bytes,
            ),
        ensures
            match container_property(self.container().model(), self.container().schema(), self.field_path()) {
                Err(e) => r == Err::<Vec<u8>, DataSetError>(e),
                Ok(v) => r matches Ok(x) && ValueModel::Bytes(x@) == v,
            },
    {
        BytesFieldAccessor::do_get(&self.0, self.1)
    }
}

/// A string property of a read-only container.
pub struct StringFieldRef<'a>(pub PropertyPath, DataContainerRef<'a>);

impl<'a> FieldRef<'a> for StringFieldRef<'a> {
    closed spec fn field_path(&self) -> Seq<char> {
        self.0@
    }

    closed spec fn container(&self) -> DataContainerRef<'a> {
        self.1
    }

    fn new(property_path: PropertyPath, data_container: DataContainerRef<'a>) -> (r: Self) {
        StringFieldRef(property_path, data_container)
    }
}

impl<'a> StringFieldRef<'a> {
    pub fn get(&self) -> (r: DataSetResult<String>)
        requires
            self.container().valid(),
            reads_kind(
                self.container().model(),
                self.container().schema(),
                self.field_path(),
                |v: ValueModel| v is String,
            ),
        ensures
            match container_property(self.container().model(), self.container().schema(), self.field_path()) {
                Err(e) => r == Err::<String, DataSetError>(e),
                Ok(v) => r matches Ok(x) && ValueModel::String(x@) == v,
            },
    {
        StringFieldAccessor::do_get(&self.0, self.1)
    }
}

/// A reference to another asset, in a read-only container.
pub struct AssetRefFieldRef<'a>(pub PropertyPath, DataContainerRef<'a>);

impl<'a> FieldRef<'a> for AssetRefFieldRef<'a> {
    closed spec fn field_path(&self) -> Seq<char> {
        self.0@
    }

    closed spec fn container(&self) -> DataContainerRef<'a> {
        self.1
    }

    fn new(property_path: PropertyPath, data_container: DataContainerRef<'a>) -> (r: Self) {
        AssetRefFieldRef(property_path, data_container)
    }
}

impl<'a> AssetRefFieldRef<'a> {
    pub fn get(&self) -> (r: DataSetResult<AssetId>)
        requires
            self.container().valid(),
            reads_kind(
                self.container().model(),
                self.container().schema(),
                self.field_path(),
                |v: ValueModel| v is AssetRef,
            ),
        ensures
            match container_property(self.container().model(), self.container().schema(), self.field_path()) {
                Err(e) => r == Err::<AssetId, DataSetError>(e),
                Ok(v) => r matches Ok(x) && ValueModel::AssetRef(x) == v,
            },
    {
        AssetRefFieldAccessor::do_get(&self.0, self.1)
    }
}

/// A nullable property of a read-only container; its value, when set non-null, is the
/// field `value`.
pub struct NullableFieldRef<'a, T>(pub PropertyPath, DataContainerRef<'a>, PhantomData<T>);

impl<'a, T: FieldRef<'a>> FieldRef<'a> for NullableFieldRef<'a, T> {
    closed spec fn field_path(&self) -> Seq<char> {
        self.0@
    }

    closed spec fn container(&self) -> DataContainerRef<'a> {
        self.1
    }

    fn new(property_path: PropertyPath, data_container: DataContainerRef<'a>) -> (r: Self) {
        NullableFieldRef(property_path, data_container, PhantomData)
    }
}

impl<'a, T: FieldRef<'a>> NullableFieldRef<'a, T> {
    /// A view of the value when the nullable is set non-null, else None.
    pub fn resolve_null(&self) -> (r: DataSetResult<Option<T>>)
        requires
            self.container().valid(),
        ensures
            match container_null_override(self.container().model(), self.container().schema(), self.field_path()) {
                Err(e) => r matches Err(e2) && e2 == e,
                Ok(o) => if o == NullOverride::SetNonNull {
                    r matches Ok(Some(t)) && t.field_path() == pushed_path(self.field_path(), "value"@)
                        && t.container() == self.container()
                } else {
                    r matches Ok(None)
                },
            },
    {
        match self.resolve_null_override() {
            Err(e) => Err(e),
            Ok(NullOverride::SetNonNull) => Ok(Some(T::new(self.0.push("value"), self.1))),
            Ok(_) => Ok(None),
        }
    }

    pub fn resolve_null_override(&self) -> (r: DataSetResult<NullOverride>)
        requires
            self.container().valid(),
        ensures
            r == container_null_override(self.container().model(), self.container().schema(), self.field_path()),
    {
        self.1.resolve_null_override(self.0.path())
    }
}

/// A fixed-length array property of a read-only container.
pub struct StaticArrayFieldRef<'a, T>(pub PropertyPath, DataContainerRef<'a>, PhantomData<T>);

impl<'a, T: FieldRef<'a>> FieldRef<'a> for StaticArrayFieldRef<'a, T> {
    closed spec fn field_path(&self) -> Seq<char> {
        self.0@
    }

    closed spec fn container(&self) -> DataContainerRef<'a> {
        self.1
    }

    fn new(property_path: PropertyPath, data_container: DataContainerRef<'a>) -> (r: Self) {
        StaticArrayFieldRef(property_path, data_container, PhantomData)
    }
}

impl<'a, T: FieldRef<'a>> StaticArrayFieldRef<'a, T> {
    pub fn resolve_entries(&self) -> (r: DataSetResult<Vec<u128>>)
        requires
            self.container().valid(),
        ensures
            match r {
                Ok(v) => container_array(self.container().model(), self.container().schema(), self.field_path())
                    == Ok::<Seq<u128>, DataSetError>(v@),
                Err(e) => container_array(self.container().model(), self.container().schema(), self.field_path())
                    == Err::<Seq<u128>, DataSetError>(e),
            },
    {
        self.1.resolve_dynamic_array(self.0.path())
    }

    pub fn entry(&self, index: usize) -> (r: T)
        ensures
            r.field_path() == pushed_path(self.field_path(), decimal_text(index as nat)),
            r.container() == self.container(),
    {
        let name = usize_to_text(index);
        T::new(self.0.push(name.as_str()), self.1)
    }
}

/// A dynamic array property of a read-only container.
pub struct DynamicArrayFieldRef<'a, T>(pub PropertyPath, DataContainerRef<'a>, PhantomData<T>);

impl<'a, T: FieldRef<'a>> FieldRef<'a> for DynamicArrayFieldRef<'a, T> {
    closed spec fn field_path(&self) -> Seq<char> {
        self.0@
    }

    closed spec fn container(&self) -> DataContainerRef<'a> {
        self.1
    }

    fn new(property_path: PropertyPath, data_container: DataContainerRef<'a>) -> (r: Self) {
        DynamicArrayFieldRef(property_path, data_container, PhantomData)
    }
}

impl<'a, T: FieldRef<'a>> DynamicArrayFieldRef<'a, T> {
    pub fn resolve_entries(&self) -> (r: DataSetResult<Vec<u128>>)
        requires
            self.container().valid(),
        ensures
            match r {
                Ok(v) => container_array(self.container().model(), self.container().schema(), self.field_path())
                    == Ok::<Seq<u128>, DataSetError>(v@),
                Err(e) => container_array(self.container().model(), self.container().schema(), self.field_path())
                    == Err::<Seq<u128>, DataSetError>(e),
            },
    {
        self.1.resolve_dynamic_array(self.0.path())
    }

    pub fn entry(&self, entry_uuid: u128) -> (r: T)
        ensures
            r.field_path() == pushed_path(self.field_path(), hyphenated_uuid(entry_uuid)),
            r.container() == self.container(),
    {
        let name = uuid_text(entry_uuid);
        T::new(self.0.push(name.as_str()), self.1)
    }
}

/// A map property of a read-only container.
pub struct MapFieldRef<'a, KeyT, ValueT>(pub PropertyPath, DataContainerRef<'a>, PhantomData<(KeyT, ValueT)>);

impl<'a, KeyT: FieldRef<'a>, ValueT: FieldRef<'a>> FieldRef<'a> for MapFieldRef<'a, KeyT, ValueT> {
    closed spec fn field_path(&self) -> Seq<char> {
        self.0@
    }

    closed spec fn container(&self) -> DataContainerRef<'a> {
        self.1
    }

    fn new(property_path: PropertyPath, data_container: DataContainerRef<'a>) -> (r: Self) {
        MapFieldRef(property_path, data_container, PhantomData)
    }
}

impl<'a, KeyT: FieldRef<'a>, ValueT: FieldRef<'a>> MapFieldRef<'a, KeyT, ValueT> {
    pub fn resolve_entries(&self) -> (r: DataSetResult<Vec<u128>>)
        requires
            self.container().valid(),
        ensures
            match r {
                Ok(v) => container_map(self.container().model(), self.container().schema(), self.field_path())
                    == Ok::<Seq<u128>, DataSetError>(v@),
                Err(e) => container_map(self.container().model(), self.container().schema(), self.field_path())
                    == Err::<Seq<u128>, DataSetError>(e),
            },
    {
        self.1.resolve_map(self.0.path())
    }

    pub fn key(&self, entry_uuid: u128) -> (r: KeyT)
        ensures
            r.field_path() == pushed_path(self.field_path(), hyphenated_uuid(entry_uuid)),
            r.container() == self.container(),
    {
        let name = uuid_text(entry_uuid);
        KeyT::new(self.0.push(name.as_str()), self.1)
    }

    pub fn value(&self, entry_uuid: u128) -> (r: ValueT)
        ensures
            r.field_path() == pushed_path(self.field_path(), hyphenated_uuid(entry_uuid)),
            r.container() == self.container(),
    {
        let name = uuid_text(entry_uuid);
        ValueT::new(self.0.push(name.as_str()), self.1)
    }
}

} // verus!
