use vstd::prelude::*;
use crate::data_set_laws::{law_null_override_round_trip, law_resolve_after_set};
use crate::data_set::{
    lemma_chain_ends_same, map_get, opt_value_model, override_behavior_at, own_entries,
    property_schema_at, property_write_error, prototype_chain_ends, resolved_dynamic_array,
    resolved_null_override, resolved_property, schema_known, stored_null_override, with_entries,
    with_null_override, with_property, AssetModel, DataSet,
};
use crate::ids::{AssetId, DataSetError, DataSetResult, NullOverride, OverrideBehavior};
use crate::schema::Schema;
use crate::schema_set::SchemaSet;
use crate::single_object::{
    object_dynamic_array, object_entries, object_map, object_null_override, object_property,
    object_schema_at, object_schema_known, object_stored_null_override, object_write_error,
    law_object_null_override_round_trip, law_object_resolve_after_set, ObjectModel, SingleObject,
};
use crate::value::{Value, ValueModel};

verus! {

/// What a data container reads and writes: one asset of a data set (with the rest of the
/// set, which its prototypes come from), or a standalone object.
pub enum ContainerModel {
    Assets(Map<u128, AssetModel>, u128),
    Object(ObjectModel),
}

/// The container can be read: its schema set is well formed, the record type it holds is
/// one of the set's, and (for an asset) its prototype chain ends.
pub open spec fn container_valid(c: ContainerModel, s: SchemaSet) -> bool {
    &&& s.wf()
    &&& match c {
        ContainerModel::Assets(m, id) => schema_known(m, s.types(), id) && prototype_chain_ends(
            m,
            id,
        ),
        ContainerModel::Object(o) => object_schema_known(o, s.types()),
    }
}

/// The value a read of `path` gives.
pub open spec fn container_property(c: ContainerModel, s: SchemaSet, path: Seq<char>) -> DataSetResult<
    ValueModel,
> {
    match c {
        ContainerModel::Assets(m, id) => resolved_property(
            m,
            s.types(),
            s.enum_defaults(),
            id,
            path,
        ),
        ContainerModel::Object(o) => object_property(o, s.types(), s.enum_defaults(), path),
    }
}

/// What writing `v` at `path` does: the write fails, leaving the container as it was, or
/// it succeeds, returning the value the container itself had set there.
pub open spec fn property_set_outcome(
    before: ContainerModel,
    after: ContainerModel,
    s: SchemaSet,
    path: Seq<char>,
    v: Option<ValueModel>,
    r: DataSetResult<Option<Value>>,
) -> bool {
    match container_write_error(before, s, path, v) {
        Some(e) => r == Err::<Option<Value>, DataSetError>(e) && after == before,
        None => (r matches Ok(o) && opt_value_model(o) == container_stored_property(before, path))
            && after == container_with_property(before, path, v),
    }
}

/// The null override in effect for the nullable at `path`.
pub open spec fn container_null_override(c: ContainerModel, s: SchemaSet, path: Seq<char>) -> DataSetResult<
    NullOverride,
> {
    match c {
        ContainerModel::Assets(m, id) => resolved_null_override(m, s.types(), id, path),
        ContainerModel::Object(o) => object_null_override(o, s.types(), path),
    }
}

/// The null override stored for the nullable at `path` by the container itself.
pub open spec fn container_stored_null(c: ContainerModel, s: SchemaSet, path: Seq<char>) -> DataSetResult<
    NullOverride,
> {
    match c {
        ContainerModel::Assets(m, id) => stored_null_override(m, s.types(), id, path),
        ContainerModel::Object(o) => object_stored_null_override(o, s.types(), path),
    }
}

/// The entries of the dynamic array at `path`, as a read gives them.
pub open spec fn container_array(c: ContainerModel, s: SchemaSet, path: Seq<char>) -> DataSetResult<
    Seq<u128>,
> {
    match c {
        ContainerModel::Assets(m, id) => resolved_dynamic_array(m, s.types(), id, path),
        ContainerModel::Object(o) => object_dynamic_array(o, s.types(), path),
    }
}

/// The entries of the map at `path`. A data set keeps no map entries: there, every map
/// read fails with `InvalidSchema`.
pub open spec fn container_map(c: ContainerModel, s: SchemaSet, path: Seq<char>) -> DataSetResult<
    Seq<u128>,
> {
    match c {
        ContainerModel::Assets(_, _) => Err(DataSetError::InvalidSchema),
        ContainerModel::Object(o) => object_map(o, s.types(), path),
    }
}

/// Whether the container at `path` appends to or replaces inherited entries; a
/// standalone object has no prototype and always replaces.
pub open spec fn container_behavior(c: ContainerModel, s: SchemaSet, path: Seq<char>) -> DataSetResult<
    OverrideBehavior,
> {
    match c {
        ContainerModel::Assets(m, id) => override_behavior_at(m, s.types(), id, path),
        ContainerModel::Object(_) => Ok(OverrideBehavior::Replace),
    }
}

/// The schema of the property at `path` (without checking the nullables and entries it
/// passes through).
pub open spec fn container_schema_at(c: ContainerModel, s: SchemaSet, path: Seq<char>) -> DataSetResult<
    Schema,
> {
    match c {
        ContainerModel::Assets(m, id) => property_schema_at(m, s.types(), id, path),
        ContainerModel::Object(o) => object_schema_at(o, s.types(), path),
    }
}

/// Why writing `v` at `path` fails, if it does.
pub open spec fn container_write_error(
    c: ContainerModel,
    s: SchemaSet,
    path: Seq<char>,
    v: Option<ValueModel>,
) -> Option<DataSetError> {
    match c {
        ContainerModel::Assets(m, id) => property_write_error(m, s.types(), id, path, v),
        ContainerModel::Object(o) => object_write_error(o, s.types(), path, v),
    }
}

/// The value the container itself sets at `path`.
pub open spec fn container_stored_property(c: ContainerModel, path: Seq<char>) -> Option<ValueModel> {
    match c {
        ContainerModel::Assets(m, id) => map_get(m[id].properties, path),
        ContainerModel::Object(o) => map_get(o.properties, path),
    }
}

/// The container with `path` set to `v` (cleared for None).
pub open spec fn container_with_property(c: ContainerModel, path: Seq<char>, v: Option<ValueModel>) -> ContainerModel {
    match c {
        ContainerModel::Assets(m, id) => ContainerModel::Assets(
            m.insert(id, with_property(m[id], path, v)),
            id,
        ),
        ContainerModel::Object(o) => ContainerModel::Object(
            ObjectModel {
                properties: match v {
                    Some(x) => o.properties.insert(path, x),
                    None => o.properties.remove(path),
                },
                ..o
            },
        ),
    }
}

/// The container with the null override at `path` set to `n` (removed for `Unset`).
pub open spec fn container_with_null(c: ContainerModel, path: Seq<char>, n: NullOverride) -> ContainerModel {
    match c {
        ContainerModel::Assets(m, id) => ContainerModel::Assets(
            m.insert(id, with_null_override(m[id], path, n)),
            id,
        ),
        ContainerModel::Object(o) => ContainerModel::Object(
            ObjectModel {
                null_overrides: if n != NullOverride::Unset {
                    o.null_overrides.insert(path, n)
                } else {
                    o.null_overrides.remove(path)
                },
                ..o
            },
        ),
    }
}

/// The entries the container itself lists at `path`.
pub open spec fn container_entries(c: ContainerModel, path: Seq<char>) -> Seq<u128> {
    match c {
        ContainerModel::Assets(m, id) => own_entries(m[id], path),
        ContainerModel::Object(o) => object_entries(o, path),
    }
}

/// The container listing `e` as its own entries at `path`.
pub open spec fn container_with_entries(c: ContainerModel, path: Seq<char>, e: Seq<u128>) -> ContainerModel {
    match c {
        ContainerModel::Assets(m, id) => ContainerModel::Assets(
            m.insert(id, with_entries(m[id], path, e)),
            id,
        ),
        ContainerModel::Object(o) => ContainerModel::Object(
            ObjectModel { entries: o.entries.insert(path, e), ..o },
        ),
    }
}

/// The container with the override behavior at `path` set to `b` (a standalone object
/// keeps none).
pub open spec fn container_with_behavior(c: ContainerModel, path: Seq<char>, b: OverrideBehavior) -> ContainerModel {
    match c {
        ContainerModel::Assets(m, id) => ContainerModel::Assets(
            m.insert(
                id,
                AssetModel {
                    replace_mode: match b {
                        OverrideBehavior::Append => m[id].replace_mode.remove(path),
                        OverrideBehavior::Replace => m[id].replace_mode.insert(path),
                    },
                    ..m[id]
                },
            ),
            id,
        ),
        ContainerModel::Object(o) => c,
    }
}

/// Replacing one asset by one with the same schema and prototype keeps the container
/// readable.
proof fn lemma_replace_asset_valid(m: Map<u128, AssetModel>, id: u128, a: AssetModel, s: SchemaSet)
    requires
        container_valid(ContainerModel::Assets(m, id), s),
        m.contains_key(id),
        a.schema == m[id].schema,
        a.prototype == m[id].prototype,
    ensures
        container_valid(ContainerModel::Assets(m.insert(id, a), id), s),
{
    let m2 = m.insert(id, a);
    let n = choose|n: nat| crate::data_set::chain_ends(m, id, n);
    assert(m.dom() =~= m2.dom());
    assert forall|k: u128| #[trigger] m.contains_key(k) implies m[k].prototype
        == m2[k].prototype by {}
    lemma_chain_ends_same(m, m2, id, n);
    assert(crate::data_set::asset_fp(m, id) == crate::data_set::asset_fp(m2, id));
}


/// Reading a property after a successful write of `v` to it gives `v`, whether the
/// container is an asset of a data set or a standalone object.
pub proof fn law_container_read_after_write(
    before: ContainerModel,
    after: ContainerModel,
    s: SchemaSet,
    path: Seq<char>,
    v: ValueModel,
    r: DataSetResult<Option<Value>>,
)
    requires
        container_valid(before, s),
        property_set_outcome(before, after, s, path, Some(v), r),
        r is Ok,
    ensures
        container_property(after, s, path) == Ok::<ValueModel, DataSetError>(v),
{
    match before {
        ContainerModel::Assets(m, id) => {
            law_resolve_after_set(m, s.types(), s.enum_defaults(), id, path, v);
        },
        ContainerModel::Object(o) => {
            law_object_resolve_after_set(o, s.types(), s.enum_defaults(), path, v);
        },
    }
}

/// Reading the stored null override of a nullable after setting it gives the override
/// that was set.
pub proof fn law_container_null_round_trip(c: ContainerModel, s: SchemaSet, path: Seq<char>, n: NullOverride)
    requires
        container_schema_at(c, s, path) matches Ok(x) && x is Nullable,
    ensures
        container_stored_null(container_with_null(c, path, n), s, path) == Ok::<
            NullOverride,
            DataSetError,
        >(n),
{
    match c {
        ContainerModel::Assets(m, id) => {
            law_null_override_round_trip(m, s.types(), id, path, n);
        },
        ContainerModel::Object(o) => {
            law_object_null_override_round_trip(o, s.types(), path, n);
        },
    }
}

/// A read-only view of one asset of a data set, or of a standalone object, with the
/// schema set that describes it.
#[derive(Clone, Copy)]
pub enum DataContainerRef<'a> {
    DataSet(&'a DataSet, &'a SchemaSet, AssetId),
    SingleObjectRef(&'a SingleObject, &'a SchemaSet),
}

impl<'a> DataContainerRef<'a> {
    pub open spec fn model(&self) -> ContainerModel {
        match *self {
            DataContainerRef::DataSet(d, _, id) => ContainerModel::Assets(d@, id.0),
            DataContainerRef::SingleObjectRef(o, _) => ContainerModel::Object(o@),
        }
    }

    pub open spec fn schema(&self) -> SchemaSet {
        match *self {
            DataContainerRef::DataSet(_, s, _) => *s,
            DataContainerRef::SingleObjectRef(_, s) => *s,
        }
    }

    pub open spec fn valid(&self) -> bool {
        container_valid(self.model(), self.schema())
    }

    pub fn from_single_object(single_object: &'a SingleObject, schema_set: &'a SchemaSet) -> (r:
        DataContainerRef<'a>)
        ensures
            r.model() == ContainerModel::Object(single_object@),
            r.schema() == *schema_set,
    {
        DataContainerRef::SingleObjectRef(single_object, schema_set)
    }

    pub fn from_dataset(data_set: &'a DataSet, schema_set: &'a SchemaSet, asset_id: AssetId) -> (r:
        DataContainerRef<'a>)
        ensures
            r.model() == ContainerModel::Assets(data_set@, asset_id.0),
            r.schema() == *schema_set,
    {
        DataContainerRef::DataSet(data_set, schema_set, asset_id)
    }

    pub fn schema_set(&self) -> (r: &SchemaSet)
        ensures
            *r == self.schema(),
    {
        match self {
            DataContainerRef::DataSet(_, s, _) => s,
            DataContainerRef::SingleObjectRef(_, s) => s,
        }
    }

    pub fn resolve_property(&self, path: &str) -> (r: DataSetResult<Value>)
        requires
            self.valid(),
        ensures
            match r {
                Ok(v) => container_property(self.model(), self.schema(), path@) == Ok::<
                    ValueModel,
                    DataSetError,
                >(v@),
                Err(e) => container_property(self.model(), self.schema(), path@) == Err::<
                    ValueModel,
                    DataSetError,
                >(e),
            },
    {
        match self {
            DataContainerRef::DataSet(d, s, id) => d.resolve_property(s, *id, path),
            DataContainerRef::SingleObjectRef(o, s) => o.resolve_property(s, path),
        }
    }

    pub fn get_null_override(&self, path: &str) -> (r: DataSetResult<NullOverride>)
        requires
            self.valid(),
        ensures
            r == container_stored_null(self.model(), self.schema(), path@),
    {
        match self {
            DataContainerRef::DataSet(d, s, id) => d.get_null_override(s, *id, path),
            DataContainerRef::SingleObjectRef(o, s) => o.get_null_override(s, path),
        }
    }

    pub fn resolve_null_override(&self, path: &str) -> (r: DataSetResult<NullOverride>)
        requires
            self.valid(),
        ensures
            r == container_null_override(self.model(), self.schema(), path@),
    {
        match self {
            DataContainerRef::DataSet(d, s, id) => d.resolve_null_override(s, *id, path),
            DataContainerRef::SingleObjectRef(o, s) => o.resolve_null_override(s, path),
        }
    }

    pub fn resolve_dynamic_array(&self, path: &str) -> (r: DataSetResult<Vec<u128>>)
        requires
            self.valid(),
        ensures
            match r {
                Ok(v) => container_array(self.model(), self.schema(), path@) == Ok::<
                    Seq<u128>,
                    DataSetError,
                >(v@),
                Err(e) => container_array(self.model(), self.schema(), path@) == Err::<
                    Seq<u128>,
                    DataSetError,
                >(e),
            },
    {
        match self {
            DataContainerRef::DataSet(d, s, id) => d.resolve_dynamic_array(s, *id, path),
            DataContainerRef::SingleObjectRef(o, s) => o.resolve_dynamic_array_entries(s, path),
        }
    }

    pub fn resolve_map(&self, path: &str) -> (r: DataSetResult<Vec<u128>>)
        requires
            self.valid(),
        ensures
            match r {
                Ok(v) => container_map(self.model(), self.schema(), path@) == Ok::<
                    Seq<u128>,
                    DataSetError,
                >(v@),
                Err(e) => container_map(self.model(), self.schema(), path@) == Err::<
                    Seq<u128>,
                    DataSetError,
                >(e),
            },
    {
        match self {
            DataContainerRef::DataSet(_, _, _) => Err(DataSetError::InvalidSchema),
            DataContainerRef::SingleObjectRef(o, s) => o.resolve_map_entries(s, path),
        }
    }

    pub fn get_override_behavior(&self, path: &str) -> (r: DataSetResult<OverrideBehavior>)
        requires
            self.valid(),
        ensures
            r == container_behavior(self.model(), self.schema(), path@),
    {
        match self {
            DataContainerRef::DataSet(d, s, id) => d.get_override_behavior(s, *id, path),
            DataContainerRef::SingleObjectRef(_, _) => Ok(OverrideBehavior::Replace),
        }
    }
}

/// A read/write view of one asset of a data set, or of a standalone object, with the
/// schema set that describes it.
pub enum DataContainerRefMut<'a> {
    DataSet(&'a mut DataSet, &'a SchemaSet, AssetId),
    SingleObject(&'a mut SingleObject, &'a SchemaSet),
}

impl<'a> DataContainerRefMut<'a> {
    pub open spec fn model(&self) -> ContainerModel {
        match self {
            DataContainerRefMut::DataSet(d, _, id) => ContainerModel::Assets(d@, id.0),
            DataContainerRefMut::SingleObject(o, _) => ContainerModel::Object(o@),
        }
    }

    pub open spec fn schema(&self) -> SchemaSet {
        match self {
            DataContainerRefMut::DataSet(_, s, _) => **s,
            DataContainerRefMut::SingleObject(_, s) => **s,
        }
    }

    pub open spec fn valid(&self) -> bool {
        container_valid(self.model(), self.schema())
    }

    pub fn from_single_object(single_object: &'a mut SingleObject, schema_set: &'a SchemaSet) -> (r:
        DataContainerRefMut<'a>)
        ensures
            r.model() == ContainerModel::Object(old(single_object)@),
            r.schema() == *schema_set,
    {
        DataContainerRefMut::SingleObject(single_object, schema_set)
    }

    pub fn from_dataset(data_set: &'a mut DataSet, schema_set: &'a SchemaSet, asset_id: AssetId) -> (r:
        DataContainerRefMut<'a>)
        ensures
            r.model() == ContainerModel::Assets(old(data_set)@, asset_id.0),
            r.schema() == *schema_set,
    {
        DataContainerRefMut::DataSet(data_set, schema_set, asset_id)
    }

    /// A read-only view of the same container.
    pub fn read(&self) -> (r: DataContainerRef<'_>)
        ensures
            r.model() == self.model(),
            r.schema() == self.schema(),
    {
        match self {
            DataContainerRefMut::DataSet(d, s, id) => DataContainerRef::DataSet(d, s, *id),
            DataContainerRefMut::SingleObject(o, s) => DataContainerRef::SingleObjectRef(o, s),
        }
    }

    pub fn resolve_property(&self, path: &str) -> (r: DataSetResult<Value>)
        requires
            self.valid(),
        ensures
            match r {
                Ok(v) => container_property(self.model(), self.schema(), path@) == Ok::<
                    ValueModel,
                    DataSetError,
                >(v@),
                Err(e) => container_property(self.model(), self.schema(), path@) == Err::<
                    ValueModel,
                    DataSetError,
                >(e),
            },
    {
        self.read().resolve_property(path)
    }

    pub fn get_null_override(&self, path: &str) -> (r: DataSetResult<NullOverride>)
        requires
            self.valid(),
        ensures
            r == container_stored_null(self.model(), self.schema(), path@),
    {
        self.read().get_null_override(path)
    }

    pub fn resolve_null_override(&self, path: &str) -> (r: DataSetResult<NullOverride>)
        requires
            self.valid(),
        ensures
            r == container_null_override(self.model(), self.schema(), path@),
    {
        self.read().resolve_null_override(path)
    }

    pub fn resolve_dynamic_array(&self, path: &str) -> (r: DataSetResult<Vec<u128>>)
        requires
            self.valid(),
        ensures
            match r {
                Ok(v) => container_array(self.model(), self.schema(), path@) == Ok::<
                    Seq<u128>,
                    DataSetError,
                >(v@),
                Err(e) => container_array(self.model(), self.schema(), path@) == Err::<
                    Seq<u128>,
                    DataSetError,
                >(e),
            },
    {
        self.read().resolve_dynamic_array(path)
    }

    pub fn resolve_map(&self, path: &str) -> (r: DataSetResult<Vec<u128>>)
        requires
            self.valid(),
        ensures
            match r {
                Ok(v) => container_map(self.model(), self.schema(), path@) == Ok::<
                    Seq<u128>,
                    DataSetError,
                >(v@),
                Err(e) => container_map(self.model(), self.schema(), path@) == Err::<
                    Seq<u128>,
                    DataSetError,
                >(e),
            },
    {
        self.read().resolve_map(path)
    }

    pub fn get_override_behavior(&self, path: &str) -> (r: DataSetResult<OverrideBehavior>)
        requires
            self.valid(),
        ensures
            r == container_behavior(self.model(), self.schema(), path@),
    {
        self.read().get_override_behavior(path)
    }

    pub fn set_null_override(&mut self, path: &str, null_override: NullOverride) -> (r: DataSetResult<()>)
        requires
            old(self).valid(),
        ensures
            final(self).schema() == old(self).schema(),
            final(self).valid(),
            match container_schema_at(old(self).model(), old(self).schema(), path@) {
                Err(e) => r == Err::<(), DataSetError>(e) && final(self).model() == old(self).model(),
                Ok(s) => if s is Nullable {
                    r is Ok && final(self).model() == container_with_null(
                        old(self).model(),
                        path@,
                        null_override,
                    )
                } else {
                    r == Err::<(), DataSetError>(DataSetError::InvalidSchema) && final(self).model()
                        == old(self).model()
                },
            },
    {
        match self {
            DataContainerRefMut::DataSet(d, s, id) => {
                let ghost m = d@;
                let r = d.set_null_override(s, *id, path, null_override);
                proof {
                    if d@ != m {
                        lemma_replace_asset_valid(m, id.0, d@[id.0], **s);
                    }
                }
                r
            },
            DataContainerRefMut::SingleObject(o, s) => o.set_null_override(s, path, null_override),
        }
    }

    pub fn set_property_override(&mut self, path: &str, value: Option<Value>) -> (r: DataSetResult<
        Option<Value>,
    >)
        requires
            old(self).valid(),
        ensures
            final(self).schema() == old(self).schema(),
            final(self).valid(),
            property_set_outcome(
                old(self).model(),
                final(self).model(),
                old(self).schema(),
                path@,
                opt_value_model(value),
                r,
            ),
    {
        match self {
            DataContainerRefMut::DataSet(d, s, id) => {
                let ghost m = d@;
                let r = d.set_property_override(s, *id, path, value);
                proof {
                    if d@ != m {
                        lemma_replace_asset_valid(m, id.0, d@[id.0], **s);
                    }
                }
                r
            },
            DataContainerRefMut::SingleObject(o, s) => o.set_property_override(s, path, value),
        }
    }

    pub fn set_override_behavior(&mut self, path: &str, behavior: OverrideBehavior) -> (r:
        DataSetResult<()>)
        requires
            old(self).valid(),
        ensures
            final(self).schema() == old(self).schema(),
            final(self).valid(),
            old(self).model() is Object ==> r is Ok && final(self).model() == old(self).model(),
            old(self).model() is Assets ==> match container_schema_at(
                old(self).model(),
                old(self).schema(),
                path@,
            ) {
                Err(e) => r == Err::<(), DataSetError>(e) && final(self).model() == old(self).model(),
                Ok(s) => if s is DynamicArray || s is Mapping {
                    r is Ok && final(self).model() == container_with_behavior(
                        old(self).model(),
                        path@,
                        behavior,
                    )
                } else {
                    r == Err::<(), DataSetError>(DataSetError::InvalidSchema) && final(self).model()
                        == old(self).model()
                },
            },
    {
        match self {
            DataContainerRefMut::DataSet(d, s, id) => {
                let ghost m = d@;
                let r = d.set_override_behavior(s, *id, path, behavior);
                proof {
                    if d@ != m {
                        lemma_replace_asset_valid(m, id.0, d@[id.0], **s);
                    }
                }
                r
            },
            DataContainerRefMut::SingleObject(_, _) => Ok(()),
        }
    }

    /// Appends a new entry with a random id to the dynamic array at `path`.
    pub fn add_dynamic_array_override(&mut self, path: &str) -> (r: DataSetResult<u128>)
        requires
            old(self).valid(),
        ensures
            final(self).schema() == old(self).schema(),
            final(self).valid(),
            match container_schema_at(old(self).model(), old(self).schema(), path@) {
                Err(e) => r == Err::<u128, DataSetError>(e) && final(self).model() == old(self).model(),
                Ok(s) => if s is DynamicArray {
                    match r {
                        Ok(u) => !container_entries(old(self).model(), path@).contains(u)
                            && final(self).model() == container_with_entries(
                            old(self).model(),
                            path@,
                            container_entries(old(self).model(), path@).push(u),
                        ),
                        Err(e) => e == DataSetError::DuplicateEntryKey && final(self).model()
                            == old(self).model() && container_entries(old(self).model(), path@).len() > 0,
                    }
                } else {
                    r == Err::<u128, DataSetError>(DataSetError::InvalidSchema) && final(self).model()
                        == old(self).model()
                },
            },
    {
        match self {
            DataContainerRefMut::DataSet(d, s, id) => {
                let ghost m = d@;
                let r = d.add_dynamic_array_override(s, *id, path);
                proof {
                    if d@ != m {
                        lemma_replace_asset_valid(m, id.0, d@[id.0], **s);
                    }
                }
                r
            },
            DataContainerRefMut::SingleObject(o, s) => o.add_dynamic_array_entry(s, path),
        }
    }

    /// Appends a new entry with a random id to the map at `path` (a data set keeps no map
    /// entries: `InvalidSchema`).
    pub fn add_map_override(&mut self, path: &str) -> (r: DataSetResult<u128>)
        requires
            old(self).valid(),
        ensures
            final(self).schema() == old(self).schema(),
            final(self).valid(),
            old(self).model() is Assets ==> r == Err::<u128, DataSetError>(
                DataSetError::InvalidSchema,
            ) && final(self).model() == old(self).model(),
            old(self).model() is Object ==> match container_schema_at(
                old(self).model(),
                old(self).schema(),
                path@,
            ) {
                Err(e) => r == Err::<u128, DataSetError>(e) && final(self).model() == old(self).model(),
                Ok(s) => if s is Mapping {
                    match r {
                        Ok(u) => !container_entries(old(self).model(), path@).contains(u)
                            && final(self).model() == container_with_entries(
                            old(self).model(),
                            path@,
                            container_entries(old(self).model(), path@).push(u),
                        ),
                        Err(e) => e == DataSetError::DuplicateEntryKey && final(self).model()
                            == old(self).model() && container_entries(old(self).model(), path@).len() > 0,
                    }
                } else {
                    r == Err::<u128, DataSetError>(DataSetError::InvalidSchema) && final(self).model()
                        == old(self).model()
                },
            },
    {
        match self {
            DataContainerRefMut::DataSet(_, _, _) => Err(DataSetError::InvalidSchema),
            DataContainerRefMut::SingleObject(o, s) => o.add_map_entry(s, path),
        }
    }

    /// Removes entry `entry_id` from the dynamic array at `path`; returns whether it was
    /// listed there.
    pub fn remove_dynamic_array_override(&mut self, path: &str, entry_id: u128) -> (r:
        DataSetResult<bool>)
        requires
            old(self).valid(),
        ensures
            final(self).schema() == old(self).schema(),
            final(self).valid(),
            match container_schema_at(old(self).model(), old(self).schema(), path@) {
                Err(e) => r == Err::<bool, DataSetError>(e) && final(self).model() == old(self).model(),
                Ok(s) => if s is DynamicArray {
                    let e = container_entries(old(self).model(), path@);
                    &&& r == Ok::<bool, DataSetError>(e.contains(entry_id))
                    &&& !e.contains(entry_id) ==> final(self).model() == old(self).model()
                    &&& e.contains(entry_id) ==> exists|i: int|
                        0 <= i < e.len() && e[i] == entry_id && final(self).model()
                            == container_with_entries(old(self).model(), path@, e.remove(i))
                } else {
                    r == Err::<bool, DataSetError>(DataSetError::InvalidSchema) && final(self).model()
                        == old(self).model()
                },
            },
    {
        match self {
            DataContainerRefMut::DataSet(d, s, id) => {
                let ghost m = d@;
                let r = d.remove_dynamic_array_override(s, *id, path, entry_id);
                proof {
                    if d@ != m {
                        lemma_replace_asset_valid(m, id.0, d@[id.0], **s);
                    }
                }
                r
            },
            DataContainerRefMut::SingleObject(o, s) => o.remove_dynamic_array_entry(s, path, entry_id),
        }
    }

    /// Removes entry `entry_id` from the map at `path` (a data set keeps no map entries:
    /// `InvalidSchema`); returns whether it was listed there.
    pub fn remove_map_override(&mut self, path: &str, entry_id: u128) -> (r: DataSetResult<bool>)
        requires
            old(self).valid(),
        ensures
            final(self).schema() == old(self).schema(),
            final(self).valid(),
            old(self).model() is Assets ==> r == Err::<bool, DataSetError>(
                DataSetError::InvalidSchema,
            ) && final(self).model() == old(self).model(),
            old(self).model() is Object ==> match container_schema_at(
                old(self).model(),
                old(self).schema(),
                path@,
            ) {
                Err(e) => r == Err::<bool, DataSetError>(e) && final(self).model() == old(self).model(),
                Ok(s) => if s is Mapping {
                    let e = container_entries(old(self).model(), path@);
                    &&& r == Ok::<bool, DataSetError>(e.contains(entry_id))
                    &&& !e.contains(entry_id) ==> final(self).model() == old(self).model()
                    &&& e.contains(entry_id) ==> exists|i: int|
                        0 <= i < e.len() && e[i] == entry_id && final(self).model()
                            == container_with_entries(old(self).model(), path@, e.remove(i))
                } else {
                    r == Err::<bool, DataSetError>(DataSetError::InvalidSchema) && final(self).model()
                        == old(self).model()
                },
            },
    {
        match self {
            DataContainerRefMut::DataSet(_, _, _) => Err(DataSetError::InvalidSchema),
            DataContainerRefMut::SingleObject(o, s) => o.remove_map_entry(s, path, entry_id),
        }
    }
}


/// An owned standalone object with the schema set that describes it.
pub enum DataContainer {
    SingleObject(SingleObject, SchemaSet),
}

impl DataContainer {
    pub open spec fn model(&self) -> ContainerModel {
        match self {
            DataContainer::SingleObject(o, _) => ContainerModel::Object(o@),
        }
    }

    pub open spec fn schema(&self) -> SchemaSet {
        match self {
            DataContainer::SingleObject(_, s) => *s,
        }
    }

    pub open spec fn valid(&self) -> bool {
        container_valid(self.model(), self.schema())
    }

    /// The object, without its schema set.
    pub fn into_inner(self) -> (r: SingleObject)
        ensures
            self.model() == ContainerModel::Object(r@),
    {
        match self {
            DataContainer::SingleObject(o, _) => o,
        }
    }

    pub fn from_single_object(single_object: SingleObject, schema_set: SchemaSet) -> (r: DataContainer)
        ensures
            r.model() == ContainerModel::Object(single_object@),
            r.schema() == schema_set,
    {
        DataContainer::SingleObject(single_object, schema_set)
    }

    /// A read-only view of the object.
    pub fn read(&self) -> (r: DataContainerRef<'_>)
        ensures
            r.model() == self.model(),
            r.schema() == self.schema(),
    {
        match self {
            DataContainer::SingleObject(o, s) => DataContainerRef::SingleObjectRef(o, s),
        }
    }

    /// A read/write view of the object.
    pub fn to_mut(&mut self) -> (r: DataContainerRefMut<'_>)
        ensures
            r.model() == old(self).model(),
            r.schema() == old(self).schema(),
    {
        match self {
            DataContainer::SingleObject(o, s) => DataContainerRefMut::SingleObject(o, s),
        }
    }

    pub fn resolve_property(&self, path: &str) -> (r: DataSetResult<Value>)
        requires
            self.valid(),
        ensures
            match r {
                Ok(v) => container_property(self.model(), self.schema(), path@) == Ok::<
                    ValueModel,
                    DataSetError,
                >(v@),
                Err(e) => container_property(self.model(), self.schema(), path@) == Err::<
                    ValueModel,
                    DataSetError,
                >(e),
            },
    {
        self.read().resolve_property(path)
    }

    pub fn get_null_override(&self, path: &str) -> (r: DataSetResult<NullOverride>)
        requires
            self.valid(),
        ensures
            r == container_stored_null(self.model(), self.schema(), path@),
    {
        self.read().get_null_override(path)
    }

    pub fn resolve_null_override(&self, path: &str) -> (r: DataSetResult<NullOverride>)
        requires
            self.valid(),
        ensures
            r == container_null_override(self.model(), self.schema(), path@),
    {
        self.read().resolve_null_override(path)
    }

    pub fn resolve_dynamic_array(&self, path: &str) -> (r: DataSetResult<Vec<u128>>)
        requires
            self.valid(),
        ensures
            match r {
                Ok(v) => container_array(self.model(), self.schema(), path@) == Ok::<
                    Seq<u128>,
                    DataSetError,
                >(v@),
                Err(e) => container_array(self.model(), self.schema(), path@) == Err::<
                    Seq<u128>,
                    DataSetError,
                >(e),
            },
    {
        self.read().resolve_dynamic_array(path)
    }

    pub fn resolve_map(&self, path: &str) -> (r: DataSetResult<Vec<u128>>)
        requires
            self.valid(),
        ensures
            match r {
                Ok(v) => container_map(self.model(), self.schema(), path@) == Ok::<
                    Seq<u128>,
                    DataSetError,
                >(v@),
                Err(e) => container_map(self.model(), self.schema(), path@) == Err::<
                    Seq<u128>,
                    DataSetError,
                >(e),
            },
    {
        self.read().resolve_map(path)
    }

    pub fn get_override_behavior(&self, path: &str) -> (r: DataSetResult<OverrideBehavior>)
        requires
            self.valid(),
        ensures
            r == container_behavior(self.model(), self.schema(), path@),
    {
        self.read().get_override_behavior(path)
    }

    pub fn set_null_override(&mut self, path: &str, null_override: NullOverride) -> (r: DataSetResult<()>)
        requires
            old(self).valid(),
        ensures
            final(self).schema() == old(self).schema(),
            final(self).valid(),
            match container_schema_at(old(self).model(), old(self).schema(), path@) {
                Err(e) => r == Err::<(), DataSetError>(e) && final(self).model() == old(self).model(),
                Ok(s) => if s is Nullable {
                    r is Ok && final(self).model() == container_with_null(
                        old(self).model(),
                        path@,
                        null_override,
                    )
                } else {
                    r == Err::<(), DataSetError>(DataSetError::InvalidSchema) && final(self).model()
                        == old(self).model()
                },
            },
    {
        match self {
            DataContainer::SingleObject(o, s) => o.set_null_override(s, path, null_override),
        }
    }

    pub fn set_property_override(&mut self, path: &str, value: Option<Value>) -> (r: DataSetResult<
        Option<Value>,
    >)
        requires
            old(self).valid(),
        ensures
            final(self).schema() == old(self).schema(),
            final(self).valid(),
            property_set_outcome(
                old(self).model(),
                final(self).model(),
                old(self).schema(),
                path@,
                opt_value_model(value),
                r,
            ),
    {
        match self {
            DataContainer::SingleObject(o, s) => o.set_property_override(s, path, value),
        }
    }

    pub fn set_override_behavior(&mut self, path: &str, behavior: OverrideBehavior) -> (r:
        DataSetResult<()>)
        requires
            old(self).valid(),
        ensures
            final(self).schema() == old(self).schema(),
            final(self).valid(),
            old(self).model() is Object ==> r is Ok && final(self).model() == old(self).model(),
            old(self).model() is Assets ==> match container_schema_at(
                old(self).model(),
                old(self).schema(),
                path@,
            ) {
                Err(e) => r == Err::<(), DataSetError>(e) && final(self).model() == old(self).model(),
                Ok(s) => if s is DynamicArray || s is Mapping {
                    r is Ok && final(self).model() == container_with_behavior(
                        old(self).model(),
                        path@,
                        behavior,
                    )
                } else {
                    r == Err::<(), DataSetError>(DataSetError::InvalidSchema) && final(self).model()
                        == old(self).model()
                },
            },
    {
        Ok(())
    }

    /// Appends a new entry with a random id to the dynamic array at `path`.
    pub fn add_dynamic_array_override(&mut self, path: &str) -> (r: DataSetResult<u128>)
        requires
            old(self).valid(),
        ensures
            final(self).schema() == old(self).schema(),
            final(self).valid(),
            match container_schema_at(old(self).model(), old(self).schema(), path@) {
                Err(e) => r == Err::<u128, DataSetError>(e) && final(self).model() == old(self).model(),
                Ok(s) => if s is DynamicArray {
                    match r {
                        Ok(u) => !container_entries(old(self).model(), path@).contains(u)
                            && final(self).model() == container_with_entries(
                            old(self).model(),
                            path@,
                            container_entries(old(self).model(), path@).push(u),
                        ),
                        Err(e) => e == DataSetError::DuplicateEntryKey && final(self).model()
                            == old(self).model() && container_entries(old(self).model(), path@).len() > 0,
                    }
                } else {
                    r == Err::<u128, DataSetError>(DataSetError::InvalidSchema) && final(self).model()
                        == old(self).model()
                },
            },
    {
        match self {
            DataContainer::SingleObject(o, s) => o.add_dynamic_array_entry(s, path),
        }
    }

    /// Appends a new entry with a random id to the map at `path` (a data set keeps no map
    /// entries: `InvalidSchema`).
    pub fn add_map_override(&mut self, path: &str) -> (r: DataSetResult<u128>)
        requires
            old(self).valid(),
        ensures
            final(self).schema() == old(self).schema(),
            final(self).valid(),
            old(self).model() is Assets ==> r == Err::<u128, DataSetError>(
                DataSetError::InvalidSchema,
            ) && final(self).model() == old(self).model(),
            old(self).model() is Object ==> match container_schema_at(
                old(self).model(),
                old(self).schema(),
                path@,
            ) {
                Err(e) => r == Err::<u128, DataSetError>(e) && final(self).model() == old(self).model(),
                Ok(s) => if s is Mapping {
                    match r {
                        Ok(u) => !container_entries(old(self).model(), path@).contains(u)
                            && final(self).model() == container_with_entries(
                            old(self).model(),
                            path@,
                            container_entries(old(self).model(), path@).push(u),
                        ),
                        Err(e) => e == DataSetError::DuplicateEntryKey && final(self).model()
                            == old(self).model() && container_entries(old(self).model(), path@).len() > 0,
                    }
                } else {
                    r == Err::<u128, DataSetError>(DataSetError::InvalidSchema) && final(self).model()
                        == old(self).model()
                },
            },
    {
        match self {
            DataContainer::SingleObject(o, s) => o.add_map_entry(s, path),
        }
    }
}

} // verus!
