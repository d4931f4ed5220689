use vstd::prelude::*;
use crate::data_set::{
    check_entry_key, copy_entries_map, copy_null_map, copy_value_map, entry_models, keys_of, map_get,
    nullables_of, opt_value_model, parse_uuid, uuid_parse, value_models,
};
use crate::ids::{DataSetError, DataSetResult, NullOverride};
use crate::ordered_set::OrderedSet;
use crate::path::strings_view;
use crate::prop_map::PropertyMap;
use crate::property_util::pair_strings_view;
use crate::schema::{
    property_schema_of, schema_closed, Schema, SchemaFingerprint, SchemaNamedType, SchemaRecord,
};
use crate::schema_set::SchemaSet;
use crate::value::{Value, ValueModel};

verus! {

/// The content of a standalone object.
pub struct ObjectModel {
    pub schema: u128,
    pub properties: Map<Seq<char>, ValueModel>,
    pub null_overrides: Map<Seq<char>, NullOverride>,
    pub entries: Map<Seq<char>, Seq<u128>>,
}

/// A standalone set of properties of one record type, with null overrides and the entries
/// of its dynamic arrays and maps (no prototype).
#[derive(Debug)]
pub struct SingleObject {
    schema: SchemaRecord,
    properties: PropertyMap<Value>,
    property_null_overrides: PropertyMap<NullOverride>,
    dynamic_collection_entries: PropertyMap<OrderedSet>,
}

impl View for SingleObject {
    type V = ObjectModel;

    closed spec fn view(&self) -> ObjectModel {
        ObjectModel {
            schema: self.schema.fingerprint.0,
            properties: value_models(self.properties@),
            null_overrides: self.property_null_overrides@,
            entries: entry_models(self.dynamic_collection_entries@),
        }
    }
}

/// The entries the object lists for `path` (none when absent).
pub open spec fn object_entries(o: ObjectModel, path: Seq<char>) -> Seq<u128> {
    if o.entries.contains_key(path) {
        o.entries[path]
    } else {
        Seq::empty()
    }
}

/// The object's schema is a record of the schema set.
pub open spec fn object_schema_known(o: ObjectModel, types: Map<u128, SchemaNamedType>) -> bool {
    schema_closed(Schema::Record(SchemaFingerprint(o.schema)), types)
}

/// What validating `path` gives: the property's schema, unless the path leaves the schema
/// (`SchemaNotFound`), a nullable it passes through is not set non-null
/// (`PathParentIsNull`), or an entry key it uses is not an entry of its dynamic array.
pub open spec fn object_validated(o: ObjectModel, types: Map<u128, SchemaNamedType>, path: Seq<char>) -> DataSetResult<
    Schema,
>
    decreases path.len(), 1int, 0int,
{
    let f = SchemaFingerprint(o.schema);
    match property_schema_of(f, path, types) {
        None => Err(DataSetError::SchemaNotFound),
        Some(s) => match object_nullables_error(o, types, path, nullables_of(f, path, types), 0) {
            Some(e) => Err(e),
            None => match object_entries_error(o, types, path, keys_of(f, path, types, 1), 0) {
                Some(e) => Err(e),
                None => Ok(s),
            },
        },
    }
}

pub open spec fn object_nullables_error(
    o: ObjectModel,
    types: Map<u128, SchemaNamedType>,
    path: Seq<char>,
    anc: Seq<Seq<char>>,
    k: int,
) -> Option<DataSetError>
    decreases path.len(), 0int, anc.len() - k,
{
    if 0 <= k < anc.len() && anc[k].len() < path.len() {
        match object_null_override(o, types, anc[k]) {
            Err(e) => Some(e),
            Ok(n) => if n == NullOverride::SetNonNull {
                object_nullables_error(o, types, path, anc, k + 1)
            } else {
                Some(DataSetError::PathParentIsNull)
            },
        }
    } else {
        None
    }
}

pub open spec fn object_entries_error(
    o: ObjectModel,
    types: Map<u128, SchemaNamedType>,
    path: Seq<char>,
    keys: Seq<(Seq<char>, Seq<char>)>,
    k: int,
) -> Option<DataSetError>
    decreases path.len(), 0int, keys.len() - k,
{
    if 0 <= k < keys.len() && keys[k].0.len() < path.len() {
        match object_dynamic_array(o, types, keys[k].0) {
            Err(e) => Some(e),
            Ok(entries) => match uuid_parse(keys[k].1) {
                None => Some(DataSetError::UuidParseError),
                Some(u) => if entries.contains(u) {
                    object_entries_error(o, types, path, keys, k + 1)
                } else {
                    Some(DataSetError::PathDynamicArrayEntryDoesNotExist)
                },
            },
        }
    } else {
        None
    }
}

/// What resolving the null override of `path` gives.
pub open spec fn object_null_override(o: ObjectModel, types: Map<u128, SchemaNamedType>, path: Seq<char>) -> DataSetResult<
    NullOverride,
>
    decreases path.len(), 2int, 0int,
{
    match object_validated(o, types, path) {
        Err(e) => Err(e),
        Ok(s) => if !(s is Nullable) {
            Err(DataSetError::InvalidSchema)
        } else {
            Ok(
                match map_get(o.null_overrides, path) {
                    Some(n) => n,
                    None => NullOverride::Unset,
                },
            )
        },
    }
}

/// What resolving the entries of the dynamic array at `path` gives.
pub open spec fn object_dynamic_array(o: ObjectModel, types: Map<u128, SchemaNamedType>, path: Seq<char>) -> DataSetResult<
    Seq<u128>,
>
    decreases path.len(), 2int, 0int,
{
    match object_validated(o, types, path) {
        Err(e) => Err(e),
        Ok(s) => if !(s is DynamicArray) {
            Err(DataSetError::InvalidSchema)
        } else {
            Ok(object_entries(o, path))
        },
    }
}

/// What resolving the entries of the map at `path` gives.
pub open spec fn object_map(o: ObjectModel, types: Map<u128, SchemaNamedType>, path: Seq<char>) -> DataSetResult<
    Seq<u128>,
> {
    match object_validated(o, types, path) {
        Err(e) => Err(e),
        Ok(s) => if !(s is Mapping) {
            Err(DataSetError::InvalidSchema)
        } else {
            Ok(object_entries(o, path))
        },
    }
}

/// What resolving the property at `path` gives: the value set, else the default for the
/// property's schema.
pub open spec fn object_property(
    o: ObjectModel,
    types: Map<u128, SchemaNamedType>,
    defaults: Map<u128, ValueModel>,
    path: Seq<char>,
) -> DataSetResult<ValueModel> {
    match object_validated(o, types, path) {
        Err(e) => Err(e),
        Ok(s) => Ok(
            match map_get(o.properties, path) {
                Some(v) => v,
                None => crate::value::default_model(s, defaults),
            },
        ),
    }
}

/// The schema of the property at `path`, as far as the schema alone decides.
pub open spec fn object_schema_at(o: ObjectModel, types: Map<u128, SchemaNamedType>, path: Seq<char>) -> DataSetResult<
    Schema,
> {
    match property_schema_of(SchemaFingerprint(o.schema), path, types) {
        None => Err(DataSetError::SchemaNotFound),
        Some(s) => Ok(s),
    }
}

/// The null override stored for the nullable property at `path`.
pub open spec fn object_stored_null_override(
    o: ObjectModel,
    types: Map<u128, SchemaNamedType>,
    path: Seq<char>,
) -> DataSetResult<NullOverride> {
    match object_schema_at(o, types, path) {
        Err(e) => Err(e),
        Ok(s) => if s is Nullable {
            Ok(
                match map_get(o.null_overrides, path) {
                    Some(n) => n,
                    None => NullOverride::Unset,
                },
            )
        } else {
            Err(DataSetError::InvalidSchema)
        },
    }
}

/// Why writing `value` at `path` fails, if it does.
pub open spec fn object_write_error(
    o: ObjectModel,
    types: Map<u128, SchemaNamedType>,
    path: Seq<char>,
    value: Option<ValueModel>,
) -> Option<DataSetError> {
    match object_validated(o, types, path) {
        Err(e) => Some(e),
        Ok(s) => if value matches Some(v) && !crate::value::value_matches(v, s, types) {
            Some(DataSetError::ValueDoesNotMatchSchema)
        } else {
            None
        },
    }
}

impl SingleObject {
    /// An object of record type `schema` with nothing set.
    pub fn new(schema: &SchemaRecord) -> (r: SingleObject)
        ensures
            r@ == (ObjectModel {
                schema: schema.fingerprint.0,
                properties: Map::empty(),
                null_overrides: Map::empty(),
                entries: Map::empty(),
            }),
    {
        let r = SingleObject {
            schema: schema.copy_record(),
            properties: PropertyMap::new(),
            property_null_overrides: PropertyMap::new(),
            dynamic_collection_entries: PropertyMap::new(),
        };
        assert(value_models(r.properties@) =~= Map::<Seq<char>, ValueModel>::empty());
        assert(entry_models(r.dynamic_collection_entries@) =~= Map::<Seq<char>, Seq<u128>>::empty());
        r
    }

    /// An object of the record type with fingerprint `schema`, holding the given parts.
    pub fn restore(
        schema_set: &SchemaSet,
        schema: SchemaFingerprint,
        properties: PropertyMap<Value>,
        property_null_overrides: PropertyMap<NullOverride>,
        dynamic_collection_entries: PropertyMap<OrderedSet>,
    ) -> (r: SingleObject)
        requires
            schema_set.types().contains_key(schema.0),
            schema_set.types()[schema.0] is Record,
        ensures
            r@ == (ObjectModel {
                schema: crate::data_set::record_fingerprint(schema_set.types()[schema.0]),
                properties: value_models(properties@),
                null_overrides: property_null_overrides@,
                entries: entry_models(dynamic_collection_entries@),
            }),
    {
        let named = schema_set.schemas().get(&schema.0).unwrap();
        let record = match named {
            SchemaNamedType::Record(r) => r.copy_record(),
            SchemaNamedType::Enum(_) => {
                proof {
                    assert(false);
                }
                SchemaRecord::new(schema, String::new(), Vec::new())
            },
        };
        SingleObject {
            schema: record,
            properties,
            property_null_overrides,
            dynamic_collection_entries,
        }
    }

    /// The record type of the object.
    pub closed spec fn schema_record(&self) -> SchemaRecord {
        self.schema
    }

    pub fn schema(&self) -> (r: &SchemaRecord)
        ensures
            r.fingerprint.0 == self@.schema,
            *r == self.schema_record(),
    {
        &self.schema
    }

    /// The maps the object keeps its properties, null overrides and entries in.
    pub closed spec fn property_map(&self) -> PropertyMap<Value> {
        self.properties
    }

    /// The object's content is what its maps hold.
    pub proof fn lemma_maps(&self)
        ensures
            self@.properties == value_models(self.property_map()@),
            self@.null_overrides == self.null_map()@,
            self@.entries == entry_models(self.entries_map()@),
    {
    }

    pub closed spec fn null_map(&self) -> PropertyMap<NullOverride> {
        self.property_null_overrides
    }

    pub closed spec fn entries_map(&self) -> PropertyMap<OrderedSet> {
        self.dynamic_collection_entries
    }

    pub fn properties(&self) -> (r: &PropertyMap<Value>)
        ensures
            value_models(r@) == self@.properties,
            *r == self.property_map(),
    {
        &self.properties
    }

    pub fn property_null_overrides(&self) -> (r: &PropertyMap<NullOverride>)
        ensures
            r@ == self@.null_overrides,
            *r == self.null_map(),
    {
        &self.property_null_overrides
    }

    pub fn dynamic_collection_entries(&self) -> (r: &PropertyMap<OrderedSet>)
        ensures
            entry_models(r@) == self@.entries,
            *r == self.entries_map(),
    {
        &self.dynamic_collection_entries
    }

    /// A copy with the same content.
    pub fn copy_object(&self) -> (r: SingleObject)
        ensures
            r@ == self@,
            crate::schema::same_record(r.schema_record(), self.schema_record()),
    {
        SingleObject {
            schema: self.schema.copy_record(),
            properties: copy_value_map(&self.properties),
            property_null_overrides: copy_null_map(&self.property_null_overrides),
            dynamic_collection_entries: copy_entries_map(&self.dynamic_collection_entries),
        }
    }

    fn find_schema(&self, schema_set: &SchemaSet, path: &str) -> (r: DataSetResult<Schema>)
        requires
            schema_set.wf(),
            object_schema_known(self@, schema_set.types()),
        ensures
            r == object_schema_at(self@, schema_set.types(), path@),
            r matches Ok(s) ==> schema_closed(s, schema_set.types()),
    {
        proof {
            crate::schema::lemma_walk_closed(
                Schema::Record(SchemaFingerprint(self@.schema)),
                crate::path::split_dot(path@),
                schema_set.types(),
            );
        }
        match self.schema.find_property_schema(path, schema_set.schemas()) {
            Some(s) => Ok(s),
            None => Err(DataSetError::SchemaNotFound),
        }
    }

    /// The null override stored for the nullable property at `path` (`Unset` when none is).
    /// Fails with `SchemaNotFound`, or `InvalidSchema` when the property is not nullable.
    pub fn get_null_override(&self, schema_set: &SchemaSet, path: &str) -> (r: DataSetResult<
        NullOverride,
    >)
        requires
            schema_set.wf(),
            object_schema_known(self@, schema_set.types()),
        ensures
            r == object_stored_null_override(self@, schema_set.types(), path@),
    {
        let s = match self.find_schema(schema_set, path) {
            Ok(s) => s,
            Err(e) => {
                return Err(e);
            },
        };
        if s.is_nullable() {
            match self.property_null_overrides.get(path) {
                Some(n) => Ok(*n),
                None => Ok(NullOverride::Unset),
            }
        } else {
            Err(DataSetError::InvalidSchema)
        }
    }

    /// Sets (or, for `Unset`, removes) the null override of the nullable property at
    /// `path`. Fails like `get_null_override`, leaving the object unchanged.
    pub fn set_null_override(&mut self, schema_set: &SchemaSet, path: &str, null_override: NullOverride) -> (r:
        DataSetResult<()>)
        requires
            schema_set.wf(),
            object_schema_known(old(self)@, schema_set.types()),
        ensures
            match object_schema_at(old(self)@, schema_set.types(), path@) {
                Err(e) => r == Err::<(), DataSetError>(e) && final(self)@ == old(self)@,
                Ok(s) => if s is Nullable {
                    r is Ok && final(self)@ == (ObjectModel {
                        null_overrides: if null_override != NullOverride::Unset {
                            old(self)@.null_overrides.insert(path@, null_override)
                        } else {
                            old(self)@.null_overrides.remove(path@)
                        },
                        ..old(self)@
                    })
                } else {
                    r == Err::<(), DataSetError>(DataSetError::InvalidSchema) && final(self)@ == old(
                        self,
                    )@
                },
            },
    {
        let s = match self.find_schema(schema_set, path) {
            Ok(s) => s,
            Err(e) => {
                return Err(e);
            },
        };
        if !s.is_nullable() {
            return Err(DataSetError::InvalidSchema);
        }
        if null_override != NullOverride::Unset {
            self.property_null_overrides.insert(crate::path::to_owned_string(path), null_override);
        } else {
            self.property_null_overrides.remove(path);
        }
        Ok(())
    }

    /// Validates `path` (see `object_validated`).
    fn validate_parent_paths(&self, schema_set: &SchemaSet, path: &str) -> (r: DataSetResult<Schema>)
        requires
            schema_set.wf(),
            object_schema_known(self@, schema_set.types()),
        ensures
            r == object_validated(self@, schema_set.types(), path@),
            r matches Ok(s) ==> schema_closed(s, schema_set.types()),
        decreases path@.len(), 1int,
    {
        let ghost o = self@;
        let ghost types = schema_set.types();
        let ghost f = SchemaFingerprint(o.schema);
        let mut nullables: Vec<String> = Vec::new();
        let mut dynamic_array_keys: Vec<(String, String)> = Vec::new();
        let mut static_array_keys: Vec<(String, String)> = Vec::new();
        let mut map_keys: Vec<(String, String)> = Vec::new();
        let property_schema = match crate::property_util::property_schema_and_path_ancestors_to_check(
            &self.schema,
            path,
            schema_set.schemas(),
            &mut nullables,
            &mut dynamic_array_keys,
            &mut static_array_keys,
            &mut map_keys,
        ) {
            Ok(s) => s,
            Err(e) => {
                return Err(e);
            },
        };
        let ghost anc = nullables_of(f, path@, types);
        let ghost keys = keys_of(f, path@, types, 1);
        proof {
            crate::property_util::lemma_checked_steps_valid(f, path@, types);
            assert(strings_view(Seq::<String>::empty()) =~= Seq::<Seq<char>>::empty());
            assert(pair_strings_view(Seq::<(String, String)>::empty()) =~= Seq::<
                (Seq<char>, Seq<char>),
            >::empty());
            assert(Seq::<Seq<char>>::empty() + anc =~= anc);
            assert(Seq::<(Seq<char>, Seq<char>)>::empty() + keys =~= keys);
            crate::path::lemma_split_dot_nonempty(path@);
            crate::property_util::lemma_ancestors_shorter(
                f,
                path@,
                types,
                crate::path::split_dot(path@).len() - 1,
            );
            crate::schema::lemma_walk_closed(
                Schema::Record(f),
                crate::path::split_dot(path@),
                types,
            );
            reveal_with_fuel(object_validated, 2);
        }
        let mut i: usize = 0;
        while i < nullables.len()
            invariant
                o == self@,
                types == schema_set.types(),
                f == SchemaFingerprint(o.schema),
                schema_set.wf(),
                object_schema_known(o, types),
                strings_view(nullables@) == anc,
                property_schema_of(f, path@, types) == Some(property_schema),
                anc == nullables_of(f, path@, types),
                keys == keys_of(f, path@, types, 1),
                i <= nullables@.len(),
                forall|j: int| 0 <= j < anc.len() ==> (#[trigger] anc[j]).len() < path@.len(),
                object_nullables_error(o, types, path@, anc, 0) == object_nullables_error(
                    o,
                    types,
                    path@,
                    anc,
                    i as int,
                ),
            decreases nullables@.len() - i,
        {
            assert(anc[i as int] == nullables@[i as int]@);
            let n = match self.resolve_null_override(schema_set, nullables[i].as_str()) {
                Ok(n) => n,
                Err(e) => {
                    assert(object_nullables_error(o, types, path@, anc, i as int) == Some(e));
                    assert(object_validated(o, types, path@) == Err::<Schema, DataSetError>(e)) by {
                        reveal_with_fuel(object_validated, 2);
                    }
                    return Err(e);
                },
            };
            if n != NullOverride::SetNonNull {
                assert(object_nullables_error(o, types, path@, anc, i as int) == Some(
                    DataSetError::PathParentIsNull,
                ));
                assert(object_validated(o, types, path@) == Err::<Schema, DataSetError>(
                    DataSetError::PathParentIsNull,
                )) by {
                    reveal_with_fuel(object_validated, 2);
                }
                return Err(DataSetError::PathParentIsNull);
            }
            assert(object_nullables_error(o, types, path@, anc, i as int) == object_nullables_error(
                o,
                types,
                path@,
                anc,
                i + 1,
            ));
            i = i + 1;
        }
        assert(object_nullables_error(o, types, path@, anc, i as int) is None);
        let mut k: usize = 0;
        while k < dynamic_array_keys.len()
            invariant
                o == self@,
                types == schema_set.types(),
                f == SchemaFingerprint(o.schema),
                schema_set.wf(),
                object_schema_known(o, types),
                pair_strings_view(dynamic_array_keys@) == keys,
                property_schema_of(f, path@, types) == Some(property_schema),
                anc == nullables_of(f, path@, types),
                keys == keys_of(f, path@, types, 1),
                k <= dynamic_array_keys@.len(),
                forall|j: int| 0 <= j < keys.len() ==> (#[trigger] keys[j]).0.len() < path@.len(),
                object_nullables_error(o, types, path@, anc, 0) is None,
                object_entries_error(o, types, path@, keys, 0) == object_entries_error(
                    o,
                    types,
                    path@,
                    keys,
                    k as int,
                ),
            decreases dynamic_array_keys@.len() - k,
        {
            assert(keys[k as int] == (
                dynamic_array_keys@[k as int].0@,
                dynamic_array_keys@[k as int].1@,
            ));
            let entries = match self.resolve_dynamic_array_entries(
                schema_set,
                dynamic_array_keys[k].0.as_str(),
            ) {
                Ok(e) => e,
                Err(e) => {
                    assert(object_entries_error(o, types, path@, keys, k as int) == Some(e));
                    assert(object_validated(o, types, path@) == Err::<Schema, DataSetError>(e)) by {
                        reveal_with_fuel(object_validated, 2);
                    }
                    return Err(e);
                },
            };
            let parsed = parse_uuid(dynamic_array_keys[k].1.as_str());
            match check_entry_key(&entries, parsed) {
                Ok(()) => {},
                Err(e) => {
                    assert(object_entries_error(o, types, path@, keys, k as int) == Some(e));
                    assert(object_validated(o, types, path@) == Err::<Schema, DataSetError>(e)) by {
                        reveal_with_fuel(object_validated, 2);
                    }
                    return Err(e);
                },
            }
            assert(object_entries_error(o, types, path@, keys, k as int) == object_entries_error(
                o,
                types,
                path@,
                keys,
                k + 1,
            ));
            k = k + 1;
        }
        assert(object_entries_error(o, types, path@, keys, k as int) is None);
        assert(object_validated(o, types, path@) == Ok::<Schema, DataSetError>(property_schema)) by {
            reveal_with_fuel(object_validated, 2);
        }
        Ok(property_schema)
    }

    /// The null override of the nullable property at `path`. Fails as validation fails
    /// (see `object_validated`), or with `InvalidSchema` when the property is not nullable.
    pub fn resolve_null_override(&self, schema_set: &SchemaSet, path: &str) -> (r: DataSetResult<
        NullOverride,
    >)
        requires
            schema_set.wf(),
            object_schema_known(self@, schema_set.types()),
        ensures
            r == object_null_override(self@, schema_set.types(), path@),
        decreases path@.len(), 2int,
    {
        proof {
            reveal_with_fuel(object_null_override, 2);
        }
        let s = match self.validate_parent_paths(schema_set, path) {
            Ok(s) => s,
            Err(e) => {
                return Err(e);
            },
        };
        if !s.is_nullable() {
            return Err(DataSetError::InvalidSchema);
        }
        match self.property_null_overrides.get(path) {
            Some(n) => Ok(*n),
            None => Ok(NullOverride::Unset),
        }
    }

    /// The entries of the dynamic array at `path`. Fails as validation fails, or with
    /// `InvalidSchema` when the property is not a dynamic array.
    pub fn resolve_dynamic_array_entries(&self, schema_set: &SchemaSet, path: &str) -> (r:
        DataSetResult<Vec<u128>>)
        requires
            schema_set.wf(),
            object_schema_known(self@, schema_set.types()),
        ensures
            match r {
                Ok(v) => object_dynamic_array(self@, schema_set.types(), path@) == Ok::<
                    Seq<u128>,
                    DataSetError,
                >(v@),
                Err(e) => object_dynamic_array(self@, schema_set.types(), path@) == Err::<
                    Seq<u128>,
                    DataSetError,
                >(e),
            },
        decreases path@.len(), 2int,
    {
        proof {
            reveal_with_fuel(object_dynamic_array, 2);
        }
        let s = match self.validate_parent_paths(schema_set, path) {
            Ok(s) => s,
            Err(e) => {
                return Err(e);
            },
        };
        if !s.is_dynamic_array() {
            return Err(DataSetError::InvalidSchema);
        }
        Ok(self.own_entries(path))
    }

    /// The entries of the map at `path`. Fails as validation fails, or with
    /// `InvalidSchema` when the property is not a map.
    pub fn resolve_map_entries(&self, schema_set: &SchemaSet, path: &str) -> (r: DataSetResult<
        Vec<u128>,
    >)
        requires
            schema_set.wf(),
            object_schema_known(self@, schema_set.types()),
        ensures
            match r {
                Ok(v) => object_map(self@, schema_set.types(), path@) == Ok::<
                    Seq<u128>,
                    DataSetError,
                >(v@),
                Err(e) => object_map(self@, schema_set.types(), path@) == Err::<
                    Seq<u128>,
                    DataSetError,
                >(e),
            },
    {
        let s = match self.validate_parent_paths(schema_set, path) {
            Ok(s) => s,
            Err(e) => {
                return Err(e);
            },
        };
        if !s.is_map() {
            return Err(DataSetError::InvalidSchema);
        }
        Ok(self.own_entries(path))
    }

    fn own_entries(&self, path: &str) -> (r: Vec<u128>)
        ensures
            r@ == object_entries(self@, path@),
    {
        match self.dynamic_collection_entries.get(path) {
            Some(e) => e.as_vec().clone(),
            None => Vec::new(),
        }
    }

    /// Whether the object sets the property at `path`.
    pub fn has_property_override(&self, path: &str) -> (r: bool)
        ensures
            r == self@.properties.contains_key(path@),
    {
        self.properties.contains_key(path)
    }

    /// The value set at `path`, if any.
    pub fn get_property_override(&self, path: &str) -> (r: Option<&Value>)
        ensures
            match r {
                Some(v) => map_get(self@.properties, path@) == Some(v@),
                None => map_get(self@.properties, path@) is None,
            },
    {
        self.properties.get(path)
    }

    /// Sets the property at `path` to `value` (None clears it), returning the value it
    /// replaced. Fails as validation fails, or with `ValueDoesNotMatchSchema`, leaving the
    /// object unchanged.
    pub fn set_property_override(&mut self, schema_set: &SchemaSet, path: &str, value: Option<Value>) -> (r:
        DataSetResult<Option<Value>>)
        requires
            schema_set.wf(),
            object_schema_known(old(self)@, schema_set.types()),
        ensures
            match object_write_error(old(self)@, schema_set.types(), path@, opt_value_model(value)) {
                Some(e) => r == Err::<Option<Value>, DataSetError>(e) && final(self)@ == old(self)@,
                None => (r matches Ok(o) && opt_value_model(o) == map_get(
                    old(self)@.properties,
                    path@,
                )) && final(self)@ == (ObjectModel {
                    properties: match opt_value_model(value) {
                        Some(v) => old(self)@.properties.insert(path@, v),
                        None => old(self)@.properties.remove(path@),
                    },
                    ..old(self)@
                }),
            },
    {
        let s = match self.validate_parent_paths(schema_set, path) {
            Ok(s) => s,
            Err(e) => {
                return Err(e);
            },
        };
        match &value {
            Some(v) => {
                if !v.matches_schema(&s, schema_set.schemas()) {
                    return Err(DataSetError::ValueDoesNotMatchSchema);
                }
            },
            None => {},
        }
        let ghost vm = opt_value_model(value);
        let old_value = match value {
            Some(v) => self.properties.insert(crate::path::to_owned_string(path), v),
            None => self.properties.remove(path),
        };
        proof {
            match vm {
                Some(x) => assert(value_models(self.properties@) =~= old(self)@.properties.insert(
                    path@,
                    x,
                )),
                None => assert(value_models(self.properties@) =~= old(self)@.properties.remove(
                    path@,
                )),
            }
        }
        Ok(old_value)
    }

    /// The value of the property at `path`: the value set, else the default for the
    /// property's schema. Fails as validation fails.
    pub fn resolve_property(&self, schema_set: &SchemaSet, path: &str) -> (r: DataSetResult<Value>)
        requires
            schema_set.wf(),
            object_schema_known(self@, schema_set.types()),
        ensures
            match r {
                Ok(v) => object_property(
                    self@,
                    schema_set.types(),
                    schema_set.enum_defaults(),
                    path@,
                ) == Ok::<ValueModel, DataSetError>(v@),
                Err(e) => object_property(
                    self@,
                    schema_set.types(),
                    schema_set.enum_defaults(),
                    path@,
                ) == Err::<ValueModel, DataSetError>(e),
            },
    {
        let s = match self.validate_parent_paths(schema_set, path) {
            Ok(s) => s,
            Err(e) => {
                return Err(e);
            },
        };
        match self.properties.get(path) {
            Some(v) => Ok(v.copy_value()),
            None => {
                proof {
                    let types = schema_set.types();
                    if let Schema::Enum(f) = s {
                        assert(types.contains_key(f.0) && types[f.0] is Enum);
                    }
                }
                Ok(Value::default_for_schema(&s, schema_set))
            },
        }
    }

    /// The entries the object lists for the dynamic array at `path`. Fails with
    /// `SchemaNotFound`, or `InvalidSchema` when the property is not a dynamic array.
    pub fn get_dynamic_array_entries(&self, schema_set: &SchemaSet, path: &str) -> (r:
        DataSetResult<Vec<u128>>)
        requires
            schema_set.wf(),
            object_schema_known(self@, schema_set.types()),
        ensures
            match object_schema_at(self@, schema_set.types(), path@) {
                Err(e) => r == Err::<Vec<u128>, DataSetError>(e),
                Ok(s) => if s is DynamicArray {
                    r matches Ok(v) && v@ == object_entries(self@, path@)
                } else {
                    r == Err::<Vec<u128>, DataSetError>(DataSetError::InvalidSchema)
                },
            },
    {
        let s = match self.find_schema(schema_set, path) {
            Ok(s) => s,
            Err(e) => {
                return Err(e);
            },
        };
        if !s.is_dynamic_array() {
            return Err(DataSetError::InvalidSchema);
        }
        Ok(self.own_entries(path))
    }

    /// The entries the object lists for the map at `path`. Fails with `SchemaNotFound`,
    /// or `InvalidSchema` when the property is not a map.
    pub fn get_map_entries(&self, schema_set: &SchemaSet, path: &str) -> (r: DataSetResult<
        Vec<u128>,
    >)
        requires
            schema_set.wf(),
            object_schema_known(self@, schema_set.types()),
        ensures
            match object_schema_at(self@, schema_set.types(), path@) {
                Err(e) => r == Err::<Vec<u128>, DataSetError>(e),
                Ok(s) => if s is Mapping {
                    r matches Ok(v) && v@ == object_entries(self@, path@)
                } else {
                    r == Err::<Vec<u128>, DataSetError>(DataSetError::InvalidSchema)
                },
            },
    {
        let s = match self.find_schema(schema_set, path) {
            Ok(s) => s,
            Err(e) => {
                return Err(e);
            },
        };
        if !s.is_map() {
            return Err(DataSetError::InvalidSchema);
        }
        Ok(self.own_entries(path))
    }

    /// Appends an entry with a random id to the entries of `path`; fails with
    /// `DuplicateEntryKey`, leaving the object unchanged, should the random id already be
    /// listed (so an empty entry list always gets its entry).
    fn add_dynamic_collection_entry(&mut self, path: &str) -> (r: DataSetResult<u128>)
        ensures
            match r {
                Ok(u) => !object_entries(old(self)@, path@).contains(u) && final(self)@ == (ObjectModel {
                    entries: old(self)@.entries.insert(
                        path@,
                        object_entries(old(self)@, path@).push(u),
                    ),
                    ..old(self)@
                }),
                Err(e) => e == DataSetError::DuplicateEntryKey && final(self)@ == old(self)@
                    && object_entries(old(self)@, path@).len() > 0,
            },
    {
        let new_id = crate::data_set::new_random_uuid();
        let (mut entries, was_present) = match self.dynamic_collection_entries.remove(path) {
            Some(e) => (e, true),
            None => (OrderedSet::new(), false),
        };
        let ghost before = entries@;
        assert(before == object_entries(old(self)@, path@));
        if !entries.try_insert_at_end(new_id) {
            assert(before.contains(new_id));
            if was_present {
                self.dynamic_collection_entries.insert(crate::path::to_owned_string(path), entries);
            }
            assert(entry_models(self.dynamic_collection_entries@) =~= old(self)@.entries);
            return Err(DataSetError::DuplicateEntryKey);
        }
        self.dynamic_collection_entries.insert(crate::path::to_owned_string(path), entries);
        assert(entry_models(self.dynamic_collection_entries@) =~= old(self)@.entries.insert(
            path@,
            before.push(new_id),
        ));
        Ok(new_id)
    }

    /// Appends a new entry with a random id to the dynamic array at `path`. Fails with
    /// `SchemaNotFound`, `InvalidSchema` when the property is not a dynamic array, or
    /// `DuplicateEntryKey`, leaving the object unchanged.
    pub fn add_dynamic_array_entry(&mut self, schema_set: &SchemaSet, path: &str) -> (r:
        DataSetResult<u128>)
        requires
            schema_set.wf(),
            object_schema_known(old(self)@, schema_set.types()),
        ensures
            match object_schema_at(old(self)@, schema_set.types(), path@) {
                Err(e) => r == Err::<u128, DataSetError>(e) && final(self)@ == old(self)@,
                Ok(s) => if s is DynamicArray {
                    match r {
                        Ok(u) => !object_entries(old(self)@, path@).contains(u) && final(self)@
                            == (ObjectModel {
                            entries: old(self)@.entries.insert(
                                path@,
                                object_entries(old(self)@, path@).push(u),
                            ),
                            ..old(self)@
                        }),
                        Err(e) => e == DataSetError::DuplicateEntryKey && final(self)@ == old(
                            self,
                        )@ && object_entries(old(self)@, path@).len() > 0,
                    }
                } else {
                    r == Err::<u128, DataSetError>(DataSetError::InvalidSchema) && final(self)@
                        == old(self)@
                },
            },
    {
        let s = match self.find_schema(schema_set, path) {
            Ok(s) => s,
            Err(e) => {
                return Err(e);
            },
        };
        if !s.is_dynamic_array() {
            return Err(DataSetError::InvalidSchema);
        }
        self.add_dynamic_collection_entry(path)
    }

    /// Appends a new entry with a random id to the map at `path`; fails like
    /// `add_dynamic_array_entry` (`InvalidSchema` when the property is not a map).
    pub fn add_map_entry(&mut self, schema_set: &SchemaSet, path: &str) -> (r: DataSetResult<u128>)
        requires
            schema_set.wf(),
            object_schema_known(old(self)@, schema_set.types()),
        ensures
            match object_schema_at(old(self)@, schema_set.types(), path@) {
                Err(e) => r == Err::<u128, DataSetError>(e) && final(self)@ == old(self)@,
                Ok(s) => if s is Mapping {
                    match r {
                        Ok(u) => !object_entries(old(self)@, path@).contains(u) && final(self)@
                            == (ObjectModel {
                            entries: old(self)@.entries.insert(
                                path@,
                                object_entries(old(self)@, path@).push(u),
                            ),
                            ..old(self)@
                        }),
                        Err(e) => e == DataSetError::DuplicateEntryKey && final(self)@ == old(
                            self,
                        )@ && object_entries(old(self)@, path@).len() > 0,
                    }
                } else {
                    r == Err::<u128, DataSetError>(DataSetError::InvalidSchema) && final(self)@
                        == old(self)@
                },
            },
    {
        let s = match self.find_schema(schema_set, path) {
            Ok(s) => s,
            Err(e) => {
                return Err(e);
            },
        };
        if !s.is_map() {
            return Err(DataSetError::InvalidSchema);
        }
        self.add_dynamic_collection_entry(path)
    }

    /// Inserts entry `entry_uuid` at position `index` of the dynamic array at `path`. Fails
    /// with `SchemaNotFound`, `InvalidSchema` when the property is not a dynamic array, or
    /// `DuplicateEntryKey` when the entry is already listed, leaving the object unchanged.
    pub fn insert_dynamic_array_entry(
        &mut self,
        schema_set: &SchemaSet,
        path: &str,
        index: usize,
        entry_uuid: u128,
    ) -> (r: DataSetResult<()>)
        requires
            schema_set.wf(),
            object_schema_known(old(self)@, schema_set.types()),
            index <= object_entries(old(self)@, path@).len(),
        ensures
            match object_schema_at(old(self)@, schema_set.types(), path@) {
                Err(e) => r == Err::<(), DataSetError>(e) && final(self)@ == old(self)@,
                Ok(s) => if !(s is DynamicArray) {
                    r == Err::<(), DataSetError>(DataSetError::InvalidSchema) && final(self)@ == old(
                        self,
                    )@
                } else if object_entries(old(self)@, path@).contains(entry_uuid) {
                    r == Err::<(), DataSetError>(DataSetError::DuplicateEntryKey) && final(self)@
                        == old(self)@
                } else {
                    r is Ok && final(self)@ == (ObjectModel {
                        entries: old(self)@.entries.insert(
                            path@,
                            object_entries(old(self)@, path@).insert(index as int, entry_uuid),
                        ),
                        ..old(self)@
                    })
                },
            },
    {
        let s = match self.find_schema(schema_set, path) {
            Ok(s) => s,
            Err(e) => {
                return Err(e);
            },
        };
        if !s.is_dynamic_array() {
            return Err(DataSetError::InvalidSchema);
        }
        let (mut entries, was_present) = match self.dynamic_collection_entries.remove(path) {
            Some(e) => (e, true),
            None => (OrderedSet::new(), false),
        };
        let ghost before = entries@;
        assert(before == object_entries(old(self)@, path@));
        if !entries.try_insert_at_position(index, entry_uuid) {
            if was_present {
                self.dynamic_collection_entries.insert(crate::path::to_owned_string(path), entries);
            }
            assert(entry_models(self.dynamic_collection_entries@) =~= old(self)@.entries);
            return Err(DataSetError::DuplicateEntryKey);
        }
        self.dynamic_collection_entries.insert(crate::path::to_owned_string(path), entries);
        assert(entry_models(self.dynamic_collection_entries@) =~= old(self)@.entries.insert(
            path@,
            before.insert(index as int, entry_uuid),
        ));
        Ok(())
    }

    /// Removes entry `element_id` from the entries of `path`; returns whether it was listed.
    fn remove_dynamic_collection_entry(&mut self, path: &str, element_id: u128) -> (r: bool)
        ensures
            r == object_entries(old(self)@, path@).contains(element_id),
            !r ==> final(self)@ == old(self)@,
            r ==> exists|i: int|
                0 <= i < object_entries(old(self)@, path@).len() && object_entries(old(self)@, path@)[i]
                    == element_id && final(self)@ == (ObjectModel {
                    entries: old(self)@.entries.insert(
                        path@,
                        object_entries(old(self)@, path@).remove(i),
                    ),
                    ..old(self)@
                }),
    {
        let listed = match self.dynamic_collection_entries.get(path) {
            Some(e) => {
                assert(entry_models(self.dynamic_collection_entries@)[path@] == e@);
                e.contains(&element_id)
            },
            None => false,
        };
        assert(listed == object_entries(old(self)@, path@).contains(element_id));
        if !listed {
            return false;
        }
        assert(entry_models(self.dynamic_collection_entries@).contains_key(path@));
        let mut entries = self.dynamic_collection_entries.remove(path).unwrap();
        let ghost before = entries@;
        let removed = entries.remove(&element_id);
        let ghost after = entries@;
        self.dynamic_collection_entries.insert(crate::path::to_owned_string(path), entries);
        proof {
            let i = choose|i: int|
                0 <= i < before.len() && before[i] == element_id && after == before.remove(i);
            assert(entry_models(self.dynamic_collection_entries@) =~= old(self)@.entries.insert(
                path@,
                before.remove(i),
            ));
        }
        removed
    }

    /// Removes entry `element_id` from the dynamic array at `path`; returns whether it was
    /// listed. Fails with `SchemaNotFound`, or `InvalidSchema` when the property is not a
    /// dynamic array.
    pub fn remove_dynamic_array_entry(&mut self, schema_set: &SchemaSet, path: &str, element_id: u128) -> (r:
        DataSetResult<bool>)
        requires
            schema_set.wf(),
            object_schema_known(old(self)@, schema_set.types()),
        ensures
            match object_schema_at(old(self)@, schema_set.types(), path@) {
                Err(e) => r == Err::<bool, DataSetError>(e) && final(self)@ == old(self)@,
                Ok(s) => if s is DynamicArray {
                    let e = object_entries(old(self)@, path@);
                    &&& r == Ok::<bool, DataSetError>(e.contains(element_id))
                    &&& !e.contains(element_id) ==> final(self)@ == old(self)@
                    &&& e.contains(element_id) ==> exists|i: int|
                        0 <= i < e.len() && e[i] == element_id && final(self)@ == (ObjectModel {
                            entries: old(self)@.entries.insert(path@, e.remove(i)),
                            ..old(self)@
                        })
                } else {
                    r == Err::<bool, DataSetError>(DataSetError::InvalidSchema) && final(self)@
                        == old(self)@
                },
            },
    {
        let s = match self.find_schema(schema_set, path) {
            Ok(s) => s,
            Err(e) => {
                return Err(e);
            },
        };
        if !s.is_dynamic_array() {
            return Err(DataSetError::InvalidSchema);
        }
        Ok(self.remove_dynamic_collection_entry(path, element_id))
    }

    /// Removes entry `element_id` from the map at `path`; returns whether it was listed.
    /// Fails with `SchemaNotFound`, or `InvalidSchema` when the property is not a map.
    pub fn remove_map_entry(&mut self, schema_set: &SchemaSet, path: &str, element_id: u128) -> (r:
        DataSetResult<bool>)
        requires
            schema_set.wf(),
            object_schema_known(old(self)@, schema_set.types()),
        ensures
            match object_schema_at(old(self)@, schema_set.types(), path@) {
                Err(e) => r == Err::<bool, DataSetError>(e) && final(self)@ == old(self)@,
                Ok(s) => if s is Mapping {
                    let e = object_entries(old(self)@, path@);
                    &&& r == Ok::<bool, DataSetError>(e.contains(element_id))
                    &&& !e.contains(element_id) ==> final(self)@ == old(self)@
                    &&& e.contains(element_id) ==> exists|i: int|
                        0 <= i < e.len() && e[i] == element_id && final(self)@ == (ObjectModel {
                            entries: old(self)@.entries.insert(path@, e.remove(i)),
                            ..old(self)@
                        })
                } else {
                    r == Err::<bool, DataSetError>(DataSetError::InvalidSchema) && final(self)@
                        == old(self)@
                },
            },
    {
        let s = match self.find_schema(schema_set, path) {
            Ok(s) => s,
            Err(e) => {
                return Err(e);
            },
        };
        if !s.is_map() {
            return Err(DataSetError::InvalidSchema);
        }
        Ok(self.remove_dynamic_collection_entry(path, element_id))
    }
}

/// Validating paths and resolving null overrides and entries of an object do not depend on
/// the property values it sets.
pub proof fn lemma_object_resolution_ignores_properties(
    o: ObjectModel,
    o2: ObjectModel,
    types: Map<u128, SchemaNamedType>,
    path: Seq<char>,
)
    requires
        o2 == (ObjectModel { properties: o2.properties, ..o }),
    ensures
        object_validated(o, types, path) == object_validated(o2, types, path),
        object_null_override(o, types, path) == object_null_override(o2, types, path),
        object_dynamic_array(o, types, path) == object_dynamic_array(o2, types, path),
    decreases path.len(), 2int, 0int,
{
    lemma_object_validated_ignores_properties(o, o2, types, path);
}

proof fn lemma_object_validated_ignores_properties(
    o: ObjectModel,
    o2: ObjectModel,
    types: Map<u128, SchemaNamedType>,
    path: Seq<char>,
)
    requires
        o2 == (ObjectModel { properties: o2.properties, ..o }),
    ensures
        object_validated(o, types, path) == object_validated(o2, types, path),
    decreases path.len(), 1int, 0int,
{
    let f = SchemaFingerprint(o.schema);
    lemma_object_nullables_ignore_properties(o, o2, types, path, nullables_of(f, path, types), 0);
    lemma_object_entries_ignore_properties(o, o2, types, path, keys_of(f, path, types, 1), 0);
}

proof fn lemma_object_nullables_ignore_properties(
    o: ObjectModel,
    o2: ObjectModel,
    types: Map<u128, SchemaNamedType>,
    path: Seq<char>,
    anc: Seq<Seq<char>>,
    k: int,
)
    requires
        o2 == (ObjectModel { properties: o2.properties, ..o }),
    ensures
        object_nullables_error(o, types, path, anc, k) == object_nullables_error(o2, types, path, anc, k),
    decreases path.len(), 0int, anc.len() - k,
{
    if 0 <= k < anc.len() && anc[k].len() < path.len() {
        lemma_object_resolution_ignores_properties(o, o2, types, anc[k]);
        lemma_object_nullables_ignore_properties(o, o2, types, path, anc, k + 1);
    }
}

proof fn lemma_object_entries_ignore_properties(
    o: ObjectModel,
    o2: ObjectModel,
    types: Map<u128, SchemaNamedType>,
    path: Seq<char>,
    keys: Seq<(Seq<char>, Seq<char>)>,
    k: int,
)
    requires
        o2 == (ObjectModel { properties: o2.properties, ..o }),
    ensures
        object_entries_error(o, types, path, keys, k) == object_entries_error(o2, types, path, keys, k),
    decreases path.len(), 0int, keys.len() - k,
{
    if 0 <= k < keys.len() && keys[k].0.len() < path.len() {
        lemma_object_resolution_ignores_properties(o, o2, types, keys[k].0);
        lemma_object_entries_ignore_properties(o, o2, types, path, keys, k + 1);
    }
}

/// Read after write for objects: once a property has been written, resolving it gives
/// the written value.
pub proof fn law_object_resolve_after_set(
    o: ObjectModel,
    types: Map<u128, SchemaNamedType>,
    defaults: Map<u128, ValueModel>,
    path: Seq<char>,
    v: ValueModel,
)
    requires
        object_write_error(o, types, path, Some(v)) is None,
    ensures
        object_property(
            ObjectModel { properties: o.properties.insert(path, v), ..o },
            types,
            defaults,
            path,
        ) == Ok::<ValueModel, DataSetError>(v),
{
    let o2 = ObjectModel { properties: o.properties.insert(path, v), ..o };
    lemma_object_validated_ignores_properties(o, o2, types, path);
}

/// Setting a null override and reading it back gives the override that was set.
pub proof fn law_object_null_override_round_trip(
    o: ObjectModel,
    types: Map<u128, SchemaNamedType>,
    path: Seq<char>,
    n: NullOverride,
)
    requires
        object_schema_at(o, types, path) matches Ok(s) && s is Nullable,
    ensures
        object_stored_null_override(
            ObjectModel {
                null_overrides: if n != NullOverride::Unset {
                    o.null_overrides.insert(path, n)
                } else {
                    o.null_overrides.remove(path)
                },
                ..o
            },
            types,
            path,
        ) == Ok::<NullOverride, DataSetError>(n),
{
}

} // verus!
