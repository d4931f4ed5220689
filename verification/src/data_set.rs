use vstd::prelude::*;
use std::collections::HashMap;
use crate::ids::{
    AssetId, AssetLocation, AssetName, DataSetError, DataSetResult, ImportableName, ImporterId,
    NullOverride, OverrideBehavior,
};
use crate::ordered_set::OrderedSet;
use crate::prop_map::{lemma_entries_correspond, PathSet, PropertyMap};
use crate::schema::{
    property_schema_of, schema_closed, NamedTypes, Schema, SchemaFingerprint, SchemaNamedType,
    SchemaRecord,
};
use crate::path::strings_view;
use crate::property_util::{keyed_ancestors, nullable_ancestors, pair_strings_view};
use crate::schema_set::SchemaSet;
use crate::value::{Value, ValueModel};

verus! {

broadcast use vstd::std_specs::hash::group_hash_axioms;

/// Draws a random version-4 UUID (`uuid::Uuid::new_v4`) as its 128-bit value. The value
/// is random; the source sets the version and variant bits, so it is never zero.
#[verifier::external_body]
pub(crate) fn new_random_uuid() -> (r: u128)
    ensures
        r != 0,
{
    uuid::Uuid::new_v4().as_u128()
}

/// What `uuid::Uuid::parse_str` gives for a string, as a 128-bit value (None when the
/// string is not a UUID in one of the accepted formats).
pub uninterp spec fn uuid_parse(s: Seq<char>) -> Option<u128>;

/// Parses a UUID with `uuid::Uuid::parse_str` (simple, hyphenated, braced or URN form).
#[verifier::external_body]
pub(crate) fn parse_uuid(s: &str) -> (r: Option<u128>)
    ensures
        r == uuid_parse(s@),
{
    match uuid::Uuid::parse_str(s) {
        Ok(u) => Some(u.as_u128()),
        Err(_) => None,
    }
}

/// Whether an entry key that the path uses names one of the resolved entries: fails
/// with `UuidParseError` when the key did not parse, and with
/// `PathDynamicArrayEntryDoesNotExist` when the entry is not among `entries`.
pub fn check_entry_key(entries: &Vec<u128>, parsed: Option<u128>) -> (r: DataSetResult<()>)
    ensures
        match parsed {
            None => r == Err::<(), DataSetError>(DataSetError::UuidParseError),
            Some(u) => if entries@.contains(u) {
                r is Ok
            } else {
                r == Err::<(), DataSetError>(DataSetError::PathDynamicArrayEntryDoesNotExist)
            },
        },
{
    match parsed {
        None => Err(DataSetError::UuidParseError),
        Some(u) => {
            let mut i: usize = 0;
            while i < entries.len()
                invariant
                    parsed == Some(u),
                    i <= entries@.len(),
                    forall|j: int| 0 <= j < i ==> entries@[j] != u,
                decreases entries@.len() - i,
            {
                if entries[i] == u {
                    assert(entries@[i as int] == u);
                    return Ok(());
                }
                i = i + 1;
            }
            Err(DataSetError::PathDynamicArrayEntryDoesNotExist)
        },
    }
}

/// Describes how an asset was imported: by which importer, from which file, which
/// importable inside that file, and the files it references.
#[derive(Debug)]
pub struct ImportInfo {
    importer_id: ImporterId,
    source_file_path: String,
    importable_name: ImportableName,
    file_references: Vec<String>,
}

/// The content of an `ImportInfo`.
pub struct ImportInfoModel {
    pub importer_id: u128,
    pub source_file_path: Seq<char>,
    pub importable_name: Seq<char>,
    pub file_references: Seq<Seq<char>>,
}

impl View for ImportInfo {
    type V = ImportInfoModel;

    closed spec fn view(&self) -> ImportInfoModel {
        ImportInfoModel {
            importer_id: self.importer_id.0,
            source_file_path: self.source_file_path@,
            importable_name: self.importable_name.0@,
            file_references: crate::path::strings_view(self.file_references@),
        }
    }
}

/// A copy of a list of strings.
pub fn copy_strings_pub(v: &Vec<String>) -> (r: Vec<String>)
    ensures
        crate::path::strings_view(r@) == crate::path::strings_view(v@),
{
    copy_strings(v)
}

fn copy_strings(v: &Vec<String>) -> (r: Vec<String>)
    ensures
        crate::path::strings_view(r@) == crate::path::strings_view(v@),
{
    let mut out: Vec<String> = Vec::new();
    let mut i: usize = 0;
    while i < v.len()
        invariant
            i <= v@.len(),
            out@.len() == i,
            forall|j: int| 0 <= j < i ==> (#[trigger] out@[j])@ == v@[j]@,
        decreases v@.len() - i,
    {
        out.push(v[i].clone());
        i = i + 1;
    }
    assert(crate::path::strings_view(out@) =~= crate::path::strings_view(v@));
    out
}

impl ImportInfo {
    pub fn new(
        importer_id: ImporterId,
        source_file_path: String,
        importable_name: ImportableName,
        file_references: Vec<String>,
    ) -> (r: ImportInfo)
        ensures
            r@.importer_id == importer_id.0,
            r@.source_file_path == source_file_path@,
            r@.importable_name == importable_name.0@,
            r@.file_references == crate::path::strings_view(file_references@),
    {
        ImportInfo { importer_id, source_file_path, importable_name, file_references }
    }

    pub fn importer_id(&self) -> (r: ImporterId)
        ensures
            r.0 == self@.importer_id,
    {
        self.importer_id
    }

    pub fn source_file_path(&self) -> (r: &str)
        ensures
            r@ == self@.source_file_path,
    {
        self.source_file_path.as_str()
    }

    /// The importable name, or None for the file's default importable.
    pub fn importable_name(&self) -> (r: Option<&str>)
        ensures
            self@.importable_name.len() == 0 ==> r is None,
            self@.importable_name.len() != 0 ==> (r matches Some(s) && s@
                == self@.importable_name),
    {
        self.importable_name.name()
    }

    pub fn file_references(&self) -> (r: &Vec<String>)
        ensures
            crate::path::strings_view(r@) == self@.file_references,
    {
        &self.file_references
    }

    pub fn copy_info(&self) -> (r: ImportInfo)
        ensures
            r@ == self@,
    {
        ImportInfo {
            importer_id: self.importer_id,
            source_file_path: self.source_file_path.clone(),
            importable_name: self.importable_name.clone(),
            file_references: copy_strings(&self.file_references),
        }
    }
}

/// Build configuration of an asset: the asset chosen for each file path that the
/// imported data references.
#[derive(Debug)]
pub struct BuildInfo {
    pub file_reference_overrides: PropertyMap<AssetId>,
}

impl BuildInfo {
    pub fn new() -> (r: BuildInfo)
        ensures
            r.file_reference_overrides@ == Map::<Seq<char>, AssetId>::empty(),
    {
        BuildInfo { file_reference_overrides: PropertyMap::new() }
    }

    pub fn copy_build_info(&self) -> (r: BuildInfo)
        ensures
            r.file_reference_overrides@ == self.file_reference_overrides@,
    {
        BuildInfo { file_reference_overrides: copy_id_map(&self.file_reference_overrides) }
    }
}

/// A copy of a map from paths to asset ids.
pub fn copy_id_map(m: &PropertyMap<AssetId>) -> (r: PropertyMap<AssetId>)
    ensures
        r@ == m@,
{
    m.clone()
}

/// The content of an asset.
pub struct AssetModel {
    pub schema: u128,
    pub name: Seq<char>,
    pub location: u128,
    pub import_info: Option<ImportInfoModel>,
    pub file_reference_overrides: Map<Seq<char>, AssetId>,
    pub prototype: Option<u128>,
    pub properties: Map<Seq<char>, ValueModel>,
    pub null_overrides: Map<Seq<char>, NullOverride>,
    pub replace_mode: Set<Seq<char>>,
    pub dynamic_array_entries: Map<Seq<char>, Seq<u128>>,
}

pub open spec fn value_models(m: Map<Seq<char>, Value>) -> Map<Seq<char>, ValueModel> {
    m.map_values(|v: Value| v@)
}

pub open spec fn entry_models(m: Map<Seq<char>, OrderedSet>) -> Map<Seq<char>, Seq<u128>> {
    m.map_values(|v: OrderedSet| v@)
}

pub open spec fn import_model(i: Option<ImportInfo>) -> Option<ImportInfoModel> {
    match i {
        Some(x) => Some(x@),
        None => None,
    }
}

pub open spec fn id_model(i: Option<AssetId>) -> Option<u128> {
    match i {
        Some(x) => Some(x.0),
        None => None,
    }
}

/// The full state of one asset of a data set.
#[derive(Debug)]
pub struct DataSetAssetInfo {
    schema: SchemaRecord,
    asset_name: AssetName,
    asset_location: AssetLocation,
    import_info: Option<ImportInfo>,
    build_info: BuildInfo,
    prototype: Option<AssetId>,
    properties: PropertyMap<Value>,
    property_null_overrides: PropertyMap<NullOverride>,
    properties_in_replace_mode: PathSet,
    dynamic_array_entries: PropertyMap<OrderedSet>,
}

impl View for DataSetAssetInfo {
    type V = AssetModel;

    closed spec fn view(&self) -> AssetModel {
        AssetModel {
            schema: self.schema.fingerprint.0,
            name: self.asset_name.0@,
            location: self.asset_location.path_node_id.0,
            import_info: import_model(self.import_info),
            file_reference_overrides: self.build_info.file_reference_overrides@,
            prototype: id_model(self.prototype),
            properties: value_models(self.properties@),
            null_overrides: self.property_null_overrides@,
            replace_mode: self.properties_in_replace_mode@,
            dynamic_array_entries: entry_models(self.dynamic_array_entries@),
        }
    }
}

/// A copy of a map from paths to values.
pub fn copy_value_map(m: &PropertyMap<Value>) -> (r: PropertyMap<Value>)
    ensures
        value_models(r@) == value_models(m@),
{
    let es = m.entries();
    let mut out: PropertyMap<Value> = PropertyMap::new();
    let mut i: usize = 0;
    while i < es.len()
        invariant
            i <= es@.len(),
            crate::prop_map::keys_distinct(es@),
            out.entry_seq().len() == i,
            forall|j: int|
                0 <= j < i ==> (#[trigger] out.entry_seq()[j]).0@ == es@[j].0@
                    && out.entry_seq()[j].1@ == es@[j].1@,
        decreases es@.len() - i,
    {
        out.lemma_wf();
        proof {
            out.lemma_entries();
            assert(!out@.contains_key(es@[i as int].0@)) by {
                if out@.contains_key(es@[i as int].0@) {
                    let j = choose|j: int|
                        crate::prop_map::has_key_at(out.entry_seq(), es@[i as int].0@, j);
                    assert(es@[j].0@ == es@[i as int].0@);
                }
            }
        }
        out.push_new(es[i].0.clone(), es[i].1.copy_value());
        i = i + 1;
    }
    out.lemma_wf();
    proof {
        out.lemma_entries();
        lemma_entries_correspond(es@, out.entry_seq());
        assert(value_models(out@) =~= value_models(m@)) by {
            assert forall|k: Seq<char>| #[trigger] m@.contains_key(k) implies out@[k]@ == m@[k]@ by {
                let j = choose|j: int|
                    0 <= j < es@.len() && es@[j].0@ == k
                        && crate::prop_map::entries_view(es@)[k] == es@[j].1
                        && crate::prop_map::entries_view(out.entry_seq())[k]
                        == out.entry_seq()[j].1;
            }
        }
    }
    out
}

/// A copy of a map from paths to null overrides.
pub fn copy_null_map(m: &PropertyMap<NullOverride>) -> (r: PropertyMap<NullOverride>)
    ensures
        r@ == m@,
{
    let es = m.entries();
    let mut out: PropertyMap<NullOverride> = PropertyMap::new();
    let mut i: usize = 0;
    while i < es.len()
        invariant
            i <= es@.len(),
            crate::prop_map::keys_distinct(es@),
            out.entry_seq().len() == i,
            forall|j: int|
                0 <= j < i ==> (#[trigger] out.entry_seq()[j]).0@ == es@[j].0@
                    && out.entry_seq()[j].1 == es@[j].1,
        decreases es@.len() - i,
    {
        out.lemma_wf();
        proof {
            out.lemma_entries();
            assert(!out@.contains_key(es@[i as int].0@)) by {
                if out@.contains_key(es@[i as int].0@) {
                    let j = choose|j: int|
                        crate::prop_map::has_key_at(out.entry_seq(), es@[i as int].0@, j);
                    assert(es@[j].0@ == es@[i as int].0@);
                }
            }
        }
        out.push_new(es[i].0.clone(), es[i].1);
        i = i + 1;
    }
    out.lemma_wf();
    proof {
        out.lemma_entries();
        lemma_entries_correspond(es@, out.entry_seq());
        assert(out@ =~= m@) by {
            assert forall|k: Seq<char>| #[trigger] m@.contains_key(k) implies out@[k] == m@[k] by {
                let j = choose|j: int|
                    0 <= j < es@.len() && es@[j].0@ == k
                        && crate::prop_map::entries_view(es@)[k] == es@[j].1
                        && crate::prop_map::entries_view(out.entry_seq())[k]
                        == out.entry_seq()[j].1;
            }
        }
    }
    out
}

/// A copy of a map from paths to entry lists.
pub fn copy_entries_map(m: &PropertyMap<OrderedSet>) -> (r: PropertyMap<OrderedSet>)
    ensures
        entry_models(r@) == entry_models(m@),
{
    let es = m.entries();
    let mut out: PropertyMap<OrderedSet> = PropertyMap::new();
    let mut i: usize = 0;
    while i < es.len()
        invariant
            i <= es@.len(),
            crate::prop_map::keys_distinct(es@),
            out.entry_seq().len() == i,
            forall|j: int|
                0 <= j < i ==> (#[trigger] out.entry_seq()[j]).0@ == es@[j].0@
                    && out.entry_seq()[j].1@ == es@[j].1@,
        decreases es@.len() - i,
    {
        out.lemma_wf();
        proof {
            out.lemma_entries();
            assert(!out@.contains_key(es@[i as int].0@)) by {
                if out@.contains_key(es@[i as int].0@) {
                    let j = choose|j: int|
                        crate::prop_map::has_key_at(out.entry_seq(), es@[i as int].0@, j);
                    assert(es@[j].0@ == es@[i as int].0@);
                }
            }
        }
        out.push_new(es[i].0.clone(), es[i].1.copy_set());
        i = i + 1;
    }
    out.lemma_wf();
    proof {
        out.lemma_entries();
        lemma_entries_correspond(es@, out.entry_seq());
        assert(entry_models(out@) =~= entry_models(m@)) by {
            assert forall|k: Seq<char>| #[trigger] m@.contains_key(k) implies out@[k]@ == m@[k]@ by {
                let j = choose|j: int|
                    0 <= j < es@.len() && es@[j].0@ == k
                        && crate::prop_map::entries_view(es@)[k] == es@[j].1
                        && crate::prop_map::entries_view(out.entry_seq())[k]
                        == out.entry_seq()[j].1;
            }
        }
    }
    out
}

impl DataSetAssetInfo {
    /// The schema record stored with the asset.
    pub closed spec fn schema_record(&self) -> SchemaRecord {
        self.schema
    }

    pub fn schema(&self) -> (r: &SchemaRecord)
        ensures
            r.fingerprint.0 == self@.schema,
            *r == self.schema_record(),
    {
        &self.schema
    }

    pub fn asset_name(&self) -> (r: &AssetName)
        ensures
            r.0@ == self@.name,
    {
        &self.asset_name
    }

    pub fn asset_location(&self) -> (r: &AssetLocation)
        ensures
            r.path_node_id.0 == self@.location,
    {
        &self.asset_location
    }

    pub fn import_info(&self) -> (r: &Option<ImportInfo>)
        ensures
            import_model(*r) == self@.import_info,
    {
        &self.import_info
    }

    pub fn build_info(&self) -> (r: &BuildInfo)
        ensures
            r.file_reference_overrides@ == self@.file_reference_overrides,
    {
        &self.build_info
    }

    pub fn prototype(&self) -> (r: Option<AssetId>)
        ensures
            id_model(r) == self@.prototype,
    {
        self.prototype
    }

    /// The maps the asset keeps its properties, null overrides and entries in (their
    /// order is the order in which they list their entries).
    pub closed spec fn property_map(&self) -> PropertyMap<Value> {
        self.properties
    }

    /// The asset's content is what its maps hold.
    pub proof fn lemma_maps(&self)
        ensures
            self@.properties == value_models(self.property_map()@),
            self@.null_overrides == self.null_map()@,
            self@.replace_mode == self.replace_set()@,
            self@.dynamic_array_entries == entry_models(self.entries_map()@),
    {
    }

    pub closed spec fn null_map(&self) -> PropertyMap<NullOverride> {
        self.property_null_overrides
    }

    pub closed spec fn replace_set(&self) -> PathSet {
        self.properties_in_replace_mode
    }

    pub closed spec fn entries_map(&self) -> PropertyMap<OrderedSet> {
        self.dynamic_array_entries
    }

    pub fn properties(&self) -> (r: &PropertyMap<Value>)
        ensures
            value_models(r@) == self@.properties,
            *r == self.property_map(),
    {
        &self.properties
    }

    pub fn property_null_overrides(&self) -> (r: &PropertyMap<NullOverride>)
        ensures
            r@ == self@.null_overrides,
            *r == self.null_map(),
    {
        &self.property_null_overrides
    }

    pub fn properties_in_replace_mode(&self) -> (r: &PathSet)
        ensures
            r@ == self@.replace_mode,
            *r == self.replace_set(),
    {
        &self.properties_in_replace_mode
    }

    pub fn dynamic_array_entries(&self) -> (r: &PropertyMap<OrderedSet>)
        ensures
            entry_models(r@) == self@.dynamic_array_entries,
            *r == self.entries_map(),
    {
        &self.dynamic_array_entries
    }

    pub(crate) fn set_name(&mut self, n: AssetName)
        ensures
            final(self)@ == (AssetModel { name: n.0@, ..old(self)@ }),
            final(self).schema_record() == old(self).schema_record(),
    {
        self.asset_name = n;
    }

    pub(crate) fn set_location(&mut self, l: AssetLocation)
        ensures
            final(self)@ == (AssetModel { location: l.path_node_id.0, ..old(self)@ }),
            final(self).schema_record() == old(self).schema_record(),
    {
        self.asset_location = l;
    }

    pub(crate) fn set_prototype(&mut self, p: Option<AssetId>)
        ensures
            final(self)@ == (AssetModel { prototype: id_model(p), ..old(self)@ }),
            final(self).schema_record() == old(self).schema_record(),
    {
        self.prototype = p;
    }

    pub(crate) fn insert_property(&mut self, k: String, v: Value)
        ensures
            final(self)@ == (AssetModel { properties: old(self)@.properties.insert(k@, v@), ..old(self)@ }),
            final(self).schema_record() == old(self).schema_record(),
    {
        let ghost vm = v@;
        self.properties.insert(k, v);
        assert(value_models(self.properties@) =~= old(self)@.properties.insert(k@, vm));
    }

    pub(crate) fn remove_property(&mut self, k: &str)
        ensures
            final(self)@ == (AssetModel { properties: old(self)@.properties.remove(k@), ..old(self)@ }),
            final(self).schema_record() == old(self).schema_record(),
    {
        self.properties.remove(k);
        assert(value_models(self.properties@) =~= old(self)@.properties.remove(k@));
    }

    pub(crate) fn insert_null_override(&mut self, k: String, o: NullOverride)
        ensures
            final(self)@ == (AssetModel {
                null_overrides: old(self)@.null_overrides.insert(k@, o),
                ..old(self)@
            }),
            final(self).schema_record() == old(self).schema_record(),
    {
        self.property_null_overrides.insert(k, o);
    }

    pub(crate) fn remove_null_override(&mut self, k: &str)
        ensures
            final(self)@ == (AssetModel {
                null_overrides: old(self)@.null_overrides.remove(k@),
                ..old(self)@
            }),
            final(self).schema_record() == old(self).schema_record(),
    {
        self.property_null_overrides.remove(k);
    }

    pub(crate) fn add_replace_mode(&mut self, k: String)
        ensures
            final(self)@ == (AssetModel { replace_mode: old(self)@.replace_mode.insert(k@), ..old(self)@ }),
            final(self).schema_record() == old(self).schema_record(),
    {
        self.properties_in_replace_mode.insert(k);
    }

    pub(crate) fn remove_replace_mode(&mut self, k: &str)
        ensures
            final(self)@ == (AssetModel { replace_mode: old(self)@.replace_mode.remove(k@), ..old(self)@ }),
            final(self).schema_record() == old(self).schema_record(),
    {
        self.properties_in_replace_mode.remove(k);
    }

    pub(crate) fn set_entries(&mut self, k: String, e: OrderedSet)
        ensures
            final(self)@ == (AssetModel {
                dynamic_array_entries: old(self)@.dynamic_array_entries.insert(k@, e@),
                ..old(self)@
            }),
            final(self).schema_record() == old(self).schema_record(),
    {
        let ghost em = e@;
        self.dynamic_array_entries.insert(k, e);
        assert(entry_models(self.dynamic_array_entries@) =~= old(self)@.dynamic_array_entries.insert(
            k@,
            em,
        ));
    }

    pub(crate) fn remove_entries(&mut self, k: &str)
        ensures
            final(self)@ == (AssetModel {
                dynamic_array_entries: old(self)@.dynamic_array_entries.remove(k@),
                ..old(self)@
            }),
            final(self).schema_record() == old(self).schema_record(),
    {
        self.dynamic_array_entries.remove(k);
        assert(entry_models(self.dynamic_array_entries@) =~= old(self)@.dynamic_array_entries.remove(
            k@,
        ));
    }

    pub(crate) fn insert_file_reference(&mut self, k: String, id: AssetId)
        ensures
            final(self)@ == (AssetModel {
                file_reference_overrides: old(self)@.file_reference_overrides.insert(k@, id),
                ..old(self)@
            }),
            final(self).schema_record() == old(self).schema_record(),
    {
        self.build_info.file_reference_overrides.insert(k, id);
    }

    pub(crate) fn remove_file_reference(&mut self, k: &str)
        ensures
            final(self)@ == (AssetModel {
                file_reference_overrides: old(self)@.file_reference_overrides.remove(k@),
                ..old(self)@
            }),
            final(self).schema_record() == old(self).schema_record(),
    {
        self.build_info.file_reference_overrides.remove(k);
    }

    /// A copy with the same content and an equal schema record.
    pub fn copy_asset(&self) -> (r: DataSetAssetInfo)
        ensures
            r@ == self@,
            crate::schema::same_record(r.schema_record(), self.schema_record()),
    {
        let import_info = match &self.import_info {
            Some(i) => Some(i.copy_info()),
            None => None,
        };
        DataSetAssetInfo {
            schema: self.schema.copy_record(),
            asset_name: self.asset_name.clone(),
            asset_location: self.asset_location,
            import_info,
            build_info: self.build_info.copy_build_info(),
            prototype: self.prototype,
            properties: copy_value_map(&self.properties),
            property_null_overrides: copy_null_map(&self.property_null_overrides),
            properties_in_replace_mode: self.properties_in_replace_mode.copy_set(),
            dynamic_array_entries: copy_entries_map(&self.dynamic_array_entries),
        }
    }
}

/// The contents of a map of assets.
pub open spec fn asset_models(m: Map<u128, DataSetAssetInfo>) -> Map<u128, AssetModel> {
    m.map_values(|a: DataSetAssetInfo| a@)
}

proof fn lemma_models_insert(m: Map<u128, DataSetAssetInfo>, k: u128, v: DataSetAssetInfo)
    ensures
        asset_models(m.insert(k, v)) == asset_models(m).insert(k, v@),
{
    assert(asset_models(m.insert(k, v)) =~= asset_models(m).insert(k, v@));
}

proof fn lemma_models_remove(m: Map<u128, DataSetAssetInfo>, k: u128)
    ensures
        asset_models(m.remove(k)) == asset_models(m).remove(k),
{
    assert(asset_models(m.remove(k)) =~= asset_models(m).remove(k));
}

/// A new asset with nothing set: no prototype, no import info, no properties.
pub open spec fn fresh_asset(schema: u128, name: Seq<char>, location: u128) -> AssetModel {
    AssetModel {
        schema,
        name,
        location,
        import_info: None,
        file_reference_overrides: Map::empty(),
        prototype: None,
        properties: Map::empty(),
        null_overrides: Map::empty(),
        replace_mode: Set::empty(),
        dynamic_array_entries: Map::empty(),
    }
}

/// The fingerprint of a named type that is a record.
pub open spec fn record_fingerprint(t: crate::schema::SchemaNamedType) -> u128 {
    match t {
        crate::schema::SchemaNamedType::Record(r) => r.fingerprint.0,
        crate::schema::SchemaNamedType::Enum(e) => e.fingerprint.0,
    }
}

/// The prototype chain starting at `id` ends within `n` steps: it reaches an asset
/// without a prototype, or a prototype that is not in the data set.
pub open spec fn chain_ends(m: Map<u128, AssetModel>, id: u128, n: nat) -> bool
    decreases n,
{
    if !m.contains_key(id) {
        true
    } else {
        match m[id].prototype {
            None => true,
            Some(p) => n > 0 && chain_ends(m, p, (n - 1) as nat),
        }
    }
}

/// The prototype chain starting at `id` has no cycle.
pub open spec fn prototype_chain_ends(m: Map<u128, AssetModel>, id: u128) -> bool {
    exists|n: nat| chain_ends(m, id, n)
}

/// A number of steps within which the prototype chain of `id` ends.
pub open spec fn chain_fuel(m: Map<u128, AssetModel>, id: u128) -> nat {
    choose|n: nat| chain_ends(m, id, n)
}

pub proof fn lemma_chain_ends_mono(m: Map<u128, AssetModel>, id: u128, n: nat, n2: nat)
    requires
        chain_ends(m, id, n),
        n <= n2,
    ensures
        chain_ends(m, id, n2),
    decreases n,
{
    if m.contains_key(id) {
        if let Some(p) = m[id].prototype {
            lemma_chain_ends_mono(m, p, (n - 1) as nat, (n2 - 1) as nat);
        }
    }
}

/// The file references of `id` and its prototypes; an asset's own entries win over
/// those of its prototypes.
pub open spec fn file_references_walk(m: Map<u128, AssetModel>, id: u128, n: nat) -> DataSetResult<
    Map<Seq<char>, AssetId>,
>
    decreases n,
{
    if !m.contains_key(id) {
        Err(DataSetError::AssetNotFound)
    } else {
        let base = match m[id].prototype {
            None => Ok(Map::empty()),
            Some(p) => if n == 0 {
                Ok(Map::empty())
            } else {
                file_references_walk(m, p, (n - 1) as nat)
            },
        };
        match base {
            Err(e) => Err(e),
            Ok(b) => Ok(b.union_prefer_right(m[id].file_reference_overrides)),
        }
    }
}

/// The parent locations of `cur` and upwards, appended to `chain`.
pub open spec fn location_walk(m: Map<u128, AssetModel>, cur: u128, chain: Seq<u128>, n: nat) -> DataSetResult<
    Seq<u128>,
>
    decreases n,
{
    if cur == 0 {
        Ok(chain)
    } else if chain.contains(cur) {
        Err(DataSetError::LocationCycleDetected)
    } else if !m.contains_key(cur) {
        Err(DataSetError::LocationParentNotFound)
    } else if n == 0 {
        Err(DataSetError::LocationCycleDetected)
    } else {
        location_walk(m, m[cur].location, chain.push(cur), (n - 1) as nat)
    }
}

/// The chain of locations from an asset's own location up to the root (the null
/// location, which is not included).
pub open spec fn location_chain(m: Map<u128, AssetModel>, id: u128) -> DataSetResult<Seq<u128>> {
    if !m.contains_key(id) {
        Ok(Seq::empty())
    } else {
        location_walk(m, m[id].location, Seq::empty(), m.dom().len() + 1)
    }
}

pub open spec fn location_ids(v: Seq<AssetLocation>) -> Seq<u128> {
    v.map_values(|l: AssetLocation| l.path_node_id.0)
}

/// A collection of assets with prototype inheritance.
#[derive(Debug)]
pub struct DataSet {
    assets: HashMap<u128, DataSetAssetInfo>,
}

impl View for DataSet {
    type V = Map<u128, AssetModel>;

    closed spec fn view(&self) -> Map<u128, AssetModel> {
        asset_models(self.assets@)
    }
}

impl DataSet {
    /// The schema record stored with asset `id`.
    pub closed spec fn record_of(&self, id: u128) -> SchemaRecord {
        self.assets@[id].schema_record()
    }

    pub proof fn lemma_finite(&self)
        ensures
            self@.dom().finite(),
    {
        assert(self@.dom() =~= self.assets@.dom());
    }

    pub fn new() -> (r: DataSet)
        ensures
            r@ == Map::<u128, AssetModel>::empty(),
    {
        let r = DataSet { assets: HashMap::new() };
        assert(r@ =~= Map::<u128, AssetModel>::empty());
        r
    }

    /// The assets as the set keeps them.
    pub closed spec fn infos(&self) -> Map<u128, DataSetAssetInfo> {
        self.assets@
    }

    pub proof fn lemma_infos(&self)
        ensures
            asset_models(self.infos()) == self@,
    {
    }

    pub fn assets(&self) -> (r: &HashMap<u128, DataSetAssetInfo>)
        ensures
            asset_models(r@) == self@,
            r@ == self.infos(),
    {
        &self.assets
    }

    pub fn take_assets(self) -> (r: HashMap<u128, DataSetAssetInfo>)
        ensures
            asset_models(r@) == self@,
    {
        self.assets
    }

    /// Inserts the asset only if the id is not in use yet.
    fn insert_asset(&mut self, id: AssetId, info: DataSetAssetInfo) -> (r: DataSetResult<()>)
        ensures
            old(self)@.contains_key(id.0) ==> r == Err::<(), DataSetError>(
                DataSetError::DuplicateAssetId,
            ) && final(self)@ == old(self)@,
            !old(self)@.contains_key(id.0) ==> r is Ok && final(self)@ == old(self)@.insert(
                id.0,
                info@,
            ),
    {
        if self.assets.contains_key(&id.0) {
            Err(DataSetError::DuplicateAssetId)
        } else {
            proof {
                lemma_models_insert(self.assets@, id.0, info);
            }
            self.assets.insert(id.0, info);
            Ok(())
        }
    }

    /// Takes asset `id` out of the set (to be put back after a change).
    pub(crate) fn take_asset(&mut self, id: u128) -> (r: Option<DataSetAssetInfo>)
        ensures
            match r {
                Some(a) => old(self)@.contains_key(id) && a@ == old(self)@[id] && final(self)@
                    == old(self)@.remove(id) && a.schema_record() == old(self).record_of(id),
                None => !old(self)@.contains_key(id) && final(self)@ == old(self)@,
            },
            forall|k: u128| k != id && old(self)@.contains_key(k) ==> final(self).record_of(k)
                == old(self).record_of(k),
    {
        proof {
            lemma_models_remove(self.assets@, id);
        }
        let r = self.assets.remove(&id);
        proof {
            if r is None {
                assert(self.assets@ =~= old(self).assets@);
            }
        }
        r
    }

    /// Puts asset `id` (back) into the set.
    pub(crate) fn put_asset(&mut self, id: u128, a: DataSetAssetInfo)
        ensures
            final(self)@ == old(self)@.insert(id, a@),
            final(self).record_of(id) == a.schema_record(),
            forall|k: u128| k != id && old(self)@.contains_key(k) ==> final(self).record_of(k)
                == old(self).record_of(k),
    {
        proof {
            lemma_models_insert(self.assets@, id, a);
        }
        self.assets.insert(id, a);
    }

    /// Creates the asset from its parts, replacing any asset with the same id. Fails with
    /// `SchemaNotFound` when the schema set has no type with the fingerprint, and with
    /// `InvalidSchema` when that type is not a record.
    pub fn restore_asset(
        &mut self,
        asset_id: AssetId,
        asset_name: AssetName,
        asset_location: AssetLocation,
        import_info: Option<ImportInfo>,
        build_info: BuildInfo,
        schema_set: &SchemaSet,
        prototype: Option<AssetId>,
        schema: crate::schema::SchemaFingerprint,
        properties: PropertyMap<Value>,
        property_null_overrides: PropertyMap<NullOverride>,
        properties_in_replace_mode: PathSet,
        dynamic_array_entries: PropertyMap<OrderedSet>,
    ) -> (r: DataSetResult<()>)
        ensures
            !schema_set.types().contains_key(schema.0) ==> r == Err::<(), DataSetError>(
                DataSetError::SchemaNotFound,
            ) && final(self)@ == old(self)@,
            schema_set.types().contains_key(schema.0) && schema_set.types()[schema.0] is Enum ==> r
                == Err::<(), DataSetError>(DataSetError::InvalidSchema) && final(self)@ == old(
                self,
            )@,
            schema_set.types().contains_key(schema.0) && schema_set.types()[schema.0] is Record ==> r
                is Ok && final(self)@ == old(self)@.insert(
                asset_id.0,
                AssetModel {
                    schema: record_fingerprint(schema_set.types()[schema.0]),
                    name: asset_name.0@,
                    location: asset_location.path_node_id.0,
                    import_info: import_model(import_info),
                    file_reference_overrides: build_info.file_reference_overrides@,
                    prototype: id_model(prototype),
                    properties: value_models(properties@),
                    null_overrides: property_null_overrides@,
                    replace_mode: properties_in_replace_mode@,
                    dynamic_array_entries: entry_models(dynamic_array_entries@),
                },
            ),
    {
        let named = match schema_set.schemas().get(&schema.0) {
            Some(t) => t,
            None => {
                return Err(DataSetError::SchemaNotFound);
            },
        };
        let record = match named.as_record() {
            Ok(r) => r.copy_record(),
            Err(e) => {
                return Err(e);
            },
        };
        let obj = DataSetAssetInfo {
            schema: record,
            asset_name,
            asset_location,
            import_info,
            build_info,
            prototype,
            properties,
            property_null_overrides,
            properties_in_replace_mode,
            dynamic_array_entries,
        };
        self.put_asset(asset_id.0, obj);
        Ok(())
    }

    /// Restores a copy of `info` under `asset_id` (see `restore_asset`), taking its schema
    /// from the schema set by the fingerprint of `info`'s schema record.
    pub fn restore_asset_from(&mut self, asset_id: AssetId, info: &DataSetAssetInfo, schema_set: &SchemaSet) -> (r:
        DataSetResult<()>)
        ensures
            !schema_set.types().contains_key(info@.schema) ==> r == Err::<(), DataSetError>(
                DataSetError::SchemaNotFound,
            ) && final(self)@ == old(self)@,
            schema_set.types().contains_key(info@.schema) && schema_set.types()[info@.schema] is Enum
                ==> r == Err::<(), DataSetError>(DataSetError::InvalidSchema) && final(self)@ == old(
                self,
            )@,
            schema_set.types().contains_key(info@.schema) && schema_set.types()[info@.schema] is Record
                ==> r is Ok && final(self)@ == old(self)@.insert(
                asset_id.0,
                AssetModel {
                    schema: record_fingerprint(schema_set.types()[info@.schema]),
                    ..info@
                },
            ),
    {
        let c = info.copy_asset();
        self.restore_asset(
            asset_id,
            c.asset_name,
            c.asset_location,
            c.import_info,
            c.build_info,
            schema_set,
            c.prototype,
            c.schema.fingerprint,
            c.properties,
            c.property_null_overrides,
            c.properties_in_replace_mode,
            c.dynamic_array_entries,
        )
    }

    /// Creates an asset with the given id and nothing set. Fails with `DuplicateAssetId`
    /// when the id is in use.
    pub fn new_asset_with_id(
        &mut self,
        asset_id: AssetId,
        asset_name: AssetName,
        asset_location: AssetLocation,
        schema: &SchemaRecord,
    ) -> (r: DataSetResult<()>)
        ensures
            old(self)@.contains_key(asset_id.0) ==> r == Err::<(), DataSetError>(
                DataSetError::DuplicateAssetId,
            ) && final(self)@ == old(self)@,
            !old(self)@.contains_key(asset_id.0) ==> r is Ok && final(self)@ == old(self)@.insert(
                asset_id.0,
                fresh_asset(schema.fingerprint.0, asset_name.0@, asset_location.path_node_id.0),
            ),
    {
        let props: PropertyMap<Value> = PropertyMap::new();
        let nulls: PropertyMap<NullOverride> = PropertyMap::new();
        let entries: PropertyMap<OrderedSet> = PropertyMap::new();
        let obj = DataSetAssetInfo {
            schema: schema.copy_record(),
            asset_name,
            asset_location,
            import_info: None,
            build_info: BuildInfo::new(),
            prototype: None,
            properties: props,
            property_null_overrides: nulls,
            properties_in_replace_mode: PathSet::new(),
            dynamic_array_entries: entries,
        };
        assert(value_models(obj.properties@) =~= Map::<Seq<char>, ValueModel>::empty());
        assert(entry_models(obj.dynamic_array_entries@) =~= Map::<Seq<char>, Seq<u128>>::empty());
        self.insert_asset(asset_id, obj)
    }

    /// Creates an asset with a random id and nothing set. The id is fresh; should the
    /// random id collide with an asset already present, the set is left as it was and
    /// `DuplicateAssetId` is returned (so an empty set always gets its asset).
    pub fn new_asset(
        &mut self,
        asset_name: AssetName,
        asset_location: AssetLocation,
        schema: &SchemaRecord,
    ) -> (r: DataSetResult<AssetId>)
        ensures
            match r {
                Ok(id) => !old(self)@.contains_key(id.0) && final(self)@ == old(self)@.insert(
                    id.0,
                    fresh_asset(schema.fingerprint.0, asset_name.0@, asset_location.path_node_id.0),
                ),
                Err(e) => e == DataSetError::DuplicateAssetId && final(self)@ == old(self)@
                    && exists|u: u128| #[trigger] old(self)@.contains_key(u),
            },
    {
        let id = AssetId(new_random_uuid());
        match self.new_asset_with_id(id, asset_name, asset_location, schema) {
            Ok(()) => Ok(id),
            Err(e) => Err(e),
        }
    }

    /// Creates a new asset with a random id whose prototype is `prototype_asset_id`, with the
    /// prototype's schema. Fails with `AssetNotFound` when the prototype is not in the set.
    pub fn new_asset_from_prototype(
        &mut self,
        asset_name: AssetName,
        asset_location: AssetLocation,
        prototype_asset_id: AssetId,
    ) -> (r: DataSetResult<AssetId>)
        ensures
            !old(self)@.contains_key(prototype_asset_id.0) ==> r == Err::<AssetId, DataSetError>(
                DataSetError::AssetNotFound,
            ),
            match r {
                Ok(id) => old(self)@.contains_key(prototype_asset_id.0) && !old(self)@.contains_key(
                    id.0,
                ) && final(self)@ == old(self)@.insert(
                    id.0,
                    AssetModel {
                        prototype: Some(prototype_asset_id.0),
                        ..fresh_asset(
                            old(self)@[prototype_asset_id.0].schema,
                            asset_name.0@,
                            asset_location.path_node_id.0,
                        )
                    },
                ),
                Err(e) => final(self)@ == old(self)@ && (e == DataSetError::AssetNotFound || e
                    == DataSetError::DuplicateAssetId),
            },
    {
        let schema = match self.assets.get(&prototype_asset_id.0) {
            Some(p) => p.schema.copy_record(),
            None => {
                return Err(DataSetError::AssetNotFound);
            },
        };
        let id = match self.new_asset(asset_name, asset_location, &schema) {
            Ok(id) => id,
            Err(e) => {
                return Err(e);
            },
        };
        let mut a = self.take_asset(id.0).unwrap();
        a.prototype = Some(prototype_asset_id);
        self.put_asset(id.0, a);
        assert(self@ =~= old(self)@.insert(
            id.0,
            AssetModel {
                prototype: Some(prototype_asset_id.0),
                ..fresh_asset(
                    old(self)@[prototype_asset_id.0].schema,
                    asset_name.0@,
                    asset_location.path_node_id.0,
                )
            },
        ));
        Ok(id)
    }

    /// Replaces the content of the asset with that of `single_object`: the prototype,
    /// properties, null overrides, replace-mode paths and dynamic array entries are reset
    /// and then taken from the object. Fails with `AssetNotFound`, or with
    /// `SingleObjectDoesNotMatchSchema` when the schemas differ, leaving the set unchanged.
    pub fn copy_from_single_object(
        &mut self,
        asset_id: AssetId,
        single_object: &crate::single_object::SingleObject,
    ) -> (r: DataSetResult<()>)
        ensures
            !old(self)@.contains_key(asset_id.0) ==> r == Err::<(), DataSetError>(
                DataSetError::AssetNotFound,
            ) && final(self)@ == old(self)@,
            old(self)@.contains_key(asset_id.0) && old(self)@[asset_id.0].schema
                != single_object@.schema ==> r == Err::<(), DataSetError>(
                DataSetError::SingleObjectDoesNotMatchSchema,
            ) && final(self)@ == old(self)@,
            old(self)@.contains_key(asset_id.0) && old(self)@[asset_id.0].schema
                == single_object@.schema ==> r is Ok && final(self)@ == old(self)@.insert(
                asset_id.0,
                AssetModel {
                    prototype: None,
                    properties: single_object@.properties,
                    null_overrides: single_object@.null_overrides,
                    replace_mode: Set::empty(),
                    dynamic_array_entries: single_object@.entries,
                    ..old(self)@[asset_id.0]
                },
            ),
    {
        match self.assets.get(&asset_id.0) {
            Some(a) => {
                if a.schema.fingerprint.0 != single_object.schema().fingerprint.0 {
                    return Err(DataSetError::SingleObjectDoesNotMatchSchema);
                }
            },
            None => {
                return Err(DataSetError::AssetNotFound);
            },
        }
        let mut a = self.take_asset(asset_id.0).unwrap();
        a.prototype = None;
        a.properties = copy_value_map(single_object.properties());
        a.property_null_overrides = copy_null_map(single_object.property_null_overrides());
        a.properties_in_replace_mode = PathSet::new();
        a.dynamic_array_entries = copy_entries_map(single_object.dynamic_collection_entries());
        self.put_asset(asset_id.0, a);
        assert(self@ =~= old(self)@.insert(
            asset_id.0,
            AssetModel {
                prototype: None,
                properties: single_object@.properties,
                null_overrides: single_object@.null_overrides,
                replace_mode: Set::empty(),
                dynamic_array_entries: single_object@.entries,
                ..old(self)@[asset_id.0]
            },
        ));
        Ok(())
    }

    /// Removes the asset; fails with `AssetNotFound` when it does not exist.
    pub fn delete_asset(&mut self, asset_id: AssetId) -> (r: DataSetResult<()>)
        ensures
            old(self)@.contains_key(asset_id.0) ==> r is Ok && final(self)@ == old(self)@.remove(
                asset_id.0,
            ),
            !old(self)@.contains_key(asset_id.0) ==> r == Err::<(), DataSetError>(
                DataSetError::AssetNotFound,
            ) && final(self)@ == old(self)@,
    {
        match self.take_asset(asset_id.0) {
            Some(_) => Ok(()),
            None => Err(DataSetError::AssetNotFound),
        }
    }

    /// Moves the asset; fails with `AssetNotFound` when it does not exist.
    pub fn set_asset_location(&mut self, asset_id: AssetId, new_location: AssetLocation) -> (r:
        DataSetResult<()>)
        ensures
            old(self)@.contains_key(asset_id.0) ==> r is Ok && final(self)@ == old(self)@.insert(
                asset_id.0,
                AssetModel { location: new_location.path_node_id.0, ..old(self)@[asset_id.0] },
            ),
            !old(self)@.contains_key(asset_id.0) ==> r == Err::<(), DataSetError>(
                DataSetError::AssetNotFound,
            ) && final(self)@ == old(self)@,
            crate::hash_laws::property_hashes_kept(*old(self), *final(self)),
    {
        self.lemma_assets_wf();
        let r = match self.take_asset(asset_id.0) {
            Some(mut a) => {
                a.asset_location = new_location;
                self.put_asset(asset_id.0, a);
                Ok(())
            },
            None => Err(DataSetError::AssetNotFound),
        };
        self.lemma_assets_wf();
        proof {
            assert(crate::hash_laws::only_metadata_changed(old(self)@, self@)) by {
                assert(old(self)@.dom() =~= self@.dom()) by {
                    if old(self)@.contains_key(asset_id.0) {
                        assert(old(self)@.dom().insert(asset_id.0) =~= old(self)@.dom());
                    }
                }
            }
            crate::hash_laws::lemma_metadata_change_keeps_hashes(*old(self), *self);
        }
        r
    }

    /// Records how the asset was imported; fails with `AssetNotFound` when it does not exist.
    pub fn set_import_info(&mut self, asset_id: AssetId, import_info: ImportInfo) -> (r:
        DataSetResult<()>)
        ensures
            old(self)@.contains_key(asset_id.0) ==> r is Ok && final(self)@ == old(self)@.insert(
                asset_id.0,
                AssetModel { import_info: Some(import_info@), ..old(self)@[asset_id.0] },
            ),
            !old(self)@.contains_key(asset_id.0) ==> r == Err::<(), DataSetError>(
                DataSetError::AssetNotFound,
            ) && final(self)@ == old(self)@,
            crate::hash_laws::property_hashes_kept(*old(self), *final(self)),
    {
        self.lemma_assets_wf();
        let r = match self.take_asset(asset_id.0) {
            Some(mut a) => {
                a.import_info = Some(import_info);
                self.put_asset(asset_id.0, a);
                Ok(())
            },
            None => Err(DataSetError::AssetNotFound),
        };
        self.lemma_assets_wf();
        proof {
            assert(crate::hash_laws::only_metadata_changed(old(self)@, self@)) by {
                assert(old(self)@.dom() =~= self@.dom()) by {
                    if old(self)@.contains_key(asset_id.0) {
                        assert(old(self)@.dom().insert(asset_id.0) =~= old(self)@.dom());
                    }
                }
            }
            crate::hash_laws::lemma_metadata_change_keeps_hashes(*old(self), *self);
        }
        r
    }

    /// Copies asset `asset_id` of `other` into this set, replacing any asset with that id.
    /// Fails with `AssetNotFound` when `other` has no such asset.
    pub fn copy_from(&mut self, other: &DataSet, asset_id: AssetId) -> (r: DataSetResult<()>)
        ensures
            other@.contains_key(asset_id.0) ==> r is Ok && final(self)@ == old(self)@.insert(
                asset_id.0,
                other@[asset_id.0],
            ),
            !other@.contains_key(asset_id.0) ==> r == Err::<(), DataSetError>(
                DataSetError::AssetNotFound,
            ) && final(self)@ == old(self)@,
    {
        match other.assets.get(&asset_id.0) {
            Some(a) => {
                let c = a.copy_asset();
                self.put_asset(asset_id.0, c);
                Ok(())
            },
            None => Err(DataSetError::AssetNotFound),
        }
    }

    pub fn asset_name(&self, asset_id: AssetId) -> (r: Option<&AssetName>)
        ensures
            match r {
                Some(n) => self@.contains_key(asset_id.0) && n.0@ == self@[asset_id.0].name,
                None => !self@.contains_key(asset_id.0),
            },
    {
        match self.assets.get(&asset_id.0) {
            Some(a) => Some(&a.asset_name),
            None => None,
        }
    }

    /// Renames the asset; fails with `AssetNotFound` when it does not exist.
    pub fn set_asset_name(&mut self, asset_id: AssetId, asset_name: AssetName) -> (r:
        DataSetResult<()>)
        ensures
            old(self)@.contains_key(asset_id.0) ==> r is Ok && final(self)@ == old(self)@.insert(
                asset_id.0,
                AssetModel { name: asset_name.0@, ..old(self)@[asset_id.0] },
            ),
            !old(self)@.contains_key(asset_id.0) ==> r == Err::<(), DataSetError>(
                DataSetError::AssetNotFound,
            ) && final(self)@ == old(self)@,
            crate::hash_laws::property_hashes_kept(*old(self), *final(self)),
    {
        self.lemma_assets_wf();
        let r = match self.take_asset(asset_id.0) {
            Some(mut a) => {
                a.asset_name = asset_name;
                self.put_asset(asset_id.0, a);
                Ok(())
            },
            None => Err(DataSetError::AssetNotFound),
        };
        self.lemma_assets_wf();
        proof {
            assert(crate::hash_laws::only_metadata_changed(old(self)@, self@)) by {
                assert(old(self)@.dom() =~= self@.dom()) by {
                    if old(self)@.contains_key(asset_id.0) {
                        assert(old(self)@.dom().insert(asset_id.0) =~= old(self)@.dom());
                    }
                }
            }
            crate::hash_laws::lemma_metadata_change_keeps_hashes(*old(self), *self);
        }
        r
    }

    pub fn asset_location(&self, asset_id: AssetId) -> (r: Option<&AssetLocation>)
        ensures
            match r {
                Some(l) => self@.contains_key(asset_id.0) && l.path_node_id.0
                    == self@[asset_id.0].location,
                None => !self@.contains_key(asset_id.0),
            },
    {
        match self.assets.get(&asset_id.0) {
            Some(a) => Some(&a.asset_location),
            None => None,
        }
    }

    pub fn import_info(&self, asset_id: AssetId) -> (r: Option<&ImportInfo>)
        ensures
            match r {
                Some(i) => self@.contains_key(asset_id.0) && self@[asset_id.0].import_info == Some(
                    i@,
                ),
                None => !self@.contains_key(asset_id.0) || self@[asset_id.0].import_info is None,
            },
    {
        match self.assets.get(&asset_id.0) {
            Some(a) => match &a.import_info {
                Some(i) => Some(i),
                None => None,
            },
            None => None,
        }
    }

    pub fn get_all_file_reference_overrides(&self, asset_id: AssetId) -> (r: Option<
        &PropertyMap<AssetId>,
    >)
        ensures
            match r {
                Some(m) => self@.contains_key(asset_id.0) && m@
                    == self@[asset_id.0].file_reference_overrides,
                None => !self@.contains_key(asset_id.0),
            },
    {
        match self.assets.get(&asset_id.0) {
            Some(a) => Some(&a.build_info.file_reference_overrides),
            None => None,
        }
    }

    /// Records which asset a referenced file path stands for; fails with `AssetNotFound`
    /// when the asset does not exist.
    pub fn set_file_reference_override(
        &mut self,
        asset_id: AssetId,
        path: String,
        referenced_asset_id: AssetId,
    ) -> (r: DataSetResult<()>)
        ensures
            old(self)@.contains_key(asset_id.0) ==> r is Ok && final(self)@ == old(self)@.insert(
                asset_id.0,
                AssetModel {
                    file_reference_overrides: old(self)@[asset_id.0].file_reference_overrides.insert(
                        path@,
                        referenced_asset_id,
                    ),
                    ..old(self)@[asset_id.0]
                },
            ),
            !old(self)@.contains_key(asset_id.0) ==> r == Err::<(), DataSetError>(
                DataSetError::AssetNotFound,
            ) && final(self)@ == old(self)@,
            crate::hash_laws::property_hashes_kept(*old(self), *final(self)),
    {
        self.lemma_assets_wf();
        let r = match self.take_asset(asset_id.0) {
            Some(mut a) => {
                a.build_info.file_reference_overrides.insert(path, referenced_asset_id);
                self.put_asset(asset_id.0, a);
                Ok(())
            },
            None => Err(DataSetError::AssetNotFound),
        };
        self.lemma_assets_wf();
        proof {
            assert(crate::hash_laws::only_metadata_changed(old(self)@, self@)) by {
                assert(old(self)@.dom() =~= self@.dom()) by {
                    if old(self)@.contains_key(asset_id.0) {
                        assert(old(self)@.dom().insert(asset_id.0) =~= old(self)@.dom());
                    }
                }
            }
            crate::hash_laws::lemma_metadata_change_keeps_hashes(*old(self), *self);
        }
        r
    }

    pub fn asset_prototype(&self, asset_id: AssetId) -> (r: Option<AssetId>)
        ensures
            self@.contains_key(asset_id.0) ==> id_model(r) == self@[asset_id.0].prototype,
            !self@.contains_key(asset_id.0) ==> r is None,
    {
        match self.assets.get(&asset_id.0) {
            Some(a) => a.prototype,
            None => None,
        }
    }

    pub fn asset_schema(&self, asset_id: AssetId) -> (r: Option<&SchemaRecord>)
        ensures
            match r {
                Some(s) => self@.contains_key(asset_id.0) && s.fingerprint.0
                    == self@[asset_id.0].schema && *s == self.record_of(asset_id.0),
                None => !self@.contains_key(asset_id.0),
            },
    {
        match self.assets.get(&asset_id.0) {
            Some(a) => Some(&a.schema),
            None => None,
        }
    }

    /// The locations from the asset's own location up to the root: the asset's parent
    /// path node, that node's parent, and so on, ending before the null location. An asset
    /// that does not exist has an empty chain. Fails with `LocationCycleDetected` when a
    /// location comes round again and with `LocationParentNotFound` when a location is not
    /// an asset of the set.
    pub fn asset_location_chain(&self, asset_id: AssetId) -> (r: DataSetResult<Vec<AssetLocation>>)
        ensures
            match r {
                Ok(v) => location_chain(self@, asset_id.0) == Ok::<Seq<u128>, DataSetError>(
                    location_ids(v@),
                ),
                Err(e) => location_chain(self@, asset_id.0) == Err::<Seq<u128>, DataSetError>(e),
            },
    {
        let ghost m = self@;
        let mut chain: Vec<AssetLocation> = Vec::new();
        let mut cur: AssetLocation = match self.asset_location(asset_id) {
            Some(l) => *l,
            None => {
                assert(location_ids(chain@) =~= Seq::<u128>::empty());
                return Ok(chain);
            },
        };
        proof {
            self.lemma_finite();
        }
        let ghost n0: nat = m.dom().len() + 1;
        assert(location_ids(chain@) =~= Seq::<u128>::empty());
        while !cur.is_null()
            invariant
                m == self@,
                m.dom().finite(),
                n0 == m.dom().len() + 1,
                m.contains_key(asset_id.0),
                location_walk(m, cur.path_node_id.0, location_ids(chain@), (n0 - chain@.len()) as nat)
                    == location_chain(m, asset_id.0),
                location_ids(chain@).no_duplicates(),
                forall|i: int|
                    0 <= i < chain@.len() ==> m.contains_key(#[trigger] location_ids(chain@)[i]),
                chain@.len() <= m.dom().len(),
            decreases m.dom().len() - chain@.len(),
        {
            let ghost ids = location_ids(chain@);
            let mut found = false;
            let mut i: usize = 0;
            while i < chain.len()
                invariant
                    i <= chain@.len(),
                    ids == location_ids(chain@),
                    found == exists|j: int| 0 <= j < i && ids[j] == cur.path_node_id.0,
                decreases chain@.len() - i,
            {
                assert(ids[i as int] == chain@[i as int].path_node_id.0);
                if chain[i].path_node_id.0 == cur.path_node_id.0 {
                    found = true;
                }
                i = i + 1;
            }
            if found {
                assert(ids.contains(cur.path_node_id.0));
                return Err(DataSetError::LocationCycleDetected);
            }
            assert(!ids.contains(cur.path_node_id.0));
            let next = match self.asset_location(cur.path_node_id) {
                Some(l) => *l,
                None => {
                    return Err(DataSetError::LocationParentNotFound);
                },
            };
            chain.push(cur);
            proof {
                let ids2 = location_ids(chain@);
                assert(ids2 =~= ids.push(cur.path_node_id.0));
                assert(ids2.no_duplicates());
                assert forall|i: int| 0 <= i < ids2.len() implies m.contains_key(#[trigger] ids2[i]) by {
                    if i < ids.len() {
                        assert(ids2[i] == ids[i]);
                    }
                }
                ids2.unique_seq_to_set();
                assert(ids2.to_set().subset_of(m.dom()));
                vstd::set_lib::lemma_len_subset(ids2.to_set(), m.dom());
            }
            cur = next;
        }
        Ok(chain)
    }

    fn collect_file_references(
        &self,
        asset_id: AssetId,
        all_references: &mut PropertyMap<AssetId>,
        Ghost(n): Ghost<nat>,
    ) -> (r: DataSetResult<()>)
        requires
            chain_ends(self@, asset_id.0, n),
        ensures
            match file_references_walk(self@, asset_id.0, n) {
                Ok(refs) => r is Ok && final(all_references)@ == old(all_references)@.union_prefer_right(
                    refs,
                ),
                Err(e) => r == Err::<(), DataSetError>(e),
            },
        decreases n,
    {
        let a = match self.assets.get(&asset_id.0) {
            Some(a) => a,
            None => {
                return Err(DataSetError::AssetNotFound);
            },
        };
        let ghost start = all_references@;
        match a.prototype {
            Some(p) => {
                match self.collect_file_references(p, all_references, Ghost((n - 1) as nat)) {
                    Ok(()) => {},
                    Err(e) => {
                        return Err(e);
                    },
                }
            },
            None => {
                assert(start.union_prefer_right(Map::<Seq<char>, AssetId>::empty()) =~= start);
            },
        }
        let ghost mid = all_references@;
        let es = a.build_info.file_reference_overrides.entries();
        a.build_info.file_reference_overrides.lemma_wf();
        proof {
            a.build_info.file_reference_overrides.lemma_entries();
        }
        let ghost own = a.build_info.file_reference_overrides@;
        let mut i: usize = 0;
        while i < es.len()
            invariant
                i <= es@.len(),
                crate::prop_map::keys_distinct(es@),
                own == crate::prop_map::entries_view(es@),
                all_references@ == mid.union_prefer_right(
                    crate::prop_map::entries_view(es@.take(i as int)),
                ),
            decreases es@.len() - i,
        {
            proof {
                let pre = es@.take(i as int);
                assert(es@.take(i + 1) =~= pre.push(es@[i as int]));
                assert(crate::prop_map::keys_distinct(pre));
                assert(!crate::prop_map::entries_view(pre).contains_key(es@[i as int].0@)) by {
                    if crate::prop_map::entries_view(pre).contains_key(es@[i as int].0@) {
                        let j = choose|j: int|
                            crate::prop_map::has_key_at(pre, es@[i as int].0@, j);
                        assert(es@[j].0@ == es@[i as int].0@);
                    }
                }
                crate::prop_map::lemma_view_push(pre, es@[i as int].0, es@[i as int].1);
            }
            all_references.insert(es[i].0.clone(), es[i].1);
            assert(all_references@ =~= mid.union_prefer_right(
                crate::prop_map::entries_view(es@.take(i + 1)),
            ));
            i = i + 1;
        }
        assert(es@.take(es@.len() as int) =~= es@);
        assert(all_references@ =~= start.union_prefer_right(
            file_references_walk(self@, asset_id.0, n)->Ok_0,
        ));
        Ok(())
    }

    /// All file references of the asset and its prototypes, an asset's own entries
    /// winning over those of its prototypes. Fails with `AssetNotFound` when the asset or
    /// one of its prototypes is missing.
    pub fn resolve_all_file_references(&self, asset_id: AssetId) -> (r: DataSetResult<
        PropertyMap<AssetId>,
    >)
        requires
            prototype_chain_ends(self@, asset_id.0),
        ensures
            match r {
                Ok(m) => file_references_walk(self@, asset_id.0, chain_fuel(self@, asset_id.0))
                    == Ok::<Map<Seq<char>, AssetId>, DataSetError>(m@),
                Err(e) => file_references_walk(self@, asset_id.0, chain_fuel(self@, asset_id.0))
                    == Err::<Map<Seq<char>, AssetId>, DataSetError>(e),
            },
    {
        let mut all: PropertyMap<AssetId> = PropertyMap::new();
        match self.collect_file_references(asset_id, &mut all, Ghost(chain_fuel(self@, asset_id.0))) {
            Ok(()) => {
                assert(Map::<Seq<char>, AssetId>::empty().union_prefer_right(
                    file_references_walk(self@, asset_id.0, chain_fuel(self@, asset_id.0))->Ok_0,
                ) =~= file_references_walk(self@, asset_id.0, chain_fuel(self@, asset_id.0))->Ok_0);
                Ok(all)
            },
            Err(e) => Err(e),
        }
    }
}

/// The schema fingerprint of asset `id` as a fingerprint.
pub open spec fn asset_fp(m: Map<u128, AssetModel>, id: u128) -> SchemaFingerprint {
    SchemaFingerprint(m[id].schema)
}

/// The paths of the nullables that a valid `path` passes through.
pub open spec fn nullables_of(f: SchemaFingerprint, path: Seq<char>, types: Map<u128, SchemaNamedType>) -> Seq<
    Seq<char>,
> {
    nullable_ancestors(f, path, types, crate::path::split_dot(path).len() - 1)
}

/// The container path and entry key of each container of the given kind (1: dynamic
/// arrays, 2: maps) that a valid `path` passes through.
pub open spec fn keys_of(
    f: SchemaFingerprint,
    path: Seq<char>,
    types: Map<u128, SchemaNamedType>,
    kind: int,
) -> Seq<(Seq<char>, Seq<char>)> {
    keyed_ancestors(f, path, types, kind, crate::path::split_dot(path).len() - 1)
}

pub open spec fn key_paths(keys: Seq<(Seq<char>, Seq<char>)>) -> Seq<Seq<char>> {
    keys.map_values(|p: (Seq<char>, Seq<char>)| p.0)
}

/// The asset's schema is a record of the schema set (always true for assets that
/// were restored from the schema set).
pub open spec fn schema_known(m: Map<u128, AssetModel>, types: Map<u128, SchemaNamedType>, id: u128) -> bool {
    m.contains_key(id) ==> schema_closed(Schema::Record(asset_fp(m, id)), types)
}

/// The null override stored for `path` on the first asset of the prototype chain that
/// has one (Unset when none has).
pub open spec fn null_override_walk(m: Map<u128, AssetModel>, id: u128, path: Seq<char>, n: nat) -> DataSetResult<
    NullOverride,
>
    decreases n,
{
    if !m.contains_key(id) {
        Err(DataSetError::AssetNotFound)
    } else if m[id].null_overrides.contains_key(path) {
        Ok(m[id].null_overrides[path])
    } else {
        match m[id].prototype {
            None => Ok(NullOverride::Unset),
            Some(p) => if n == 0 {
                Ok(NullOverride::Unset)
            } else {
                null_override_walk(m, p, path, (n - 1) as nat)
            },
        }
    }
}

/// The value set for `path` on the first asset of the prototype chain that sets it; a
/// prototype that is missing ends the chain.
pub open spec fn property_walk(m: Map<u128, AssetModel>, id: u128, path: Seq<char>, n: nat) -> Option<
    ValueModel,
>
    decreases n,
{
    if !m.contains_key(id) {
        None
    } else if m[id].properties.contains_key(path) {
        Some(m[id].properties[path])
    } else {
        match m[id].prototype {
            None => None,
            Some(p) => if n == 0 {
                None
            } else {
                property_walk(m, p, path, (n - 1) as nat)
            },
        }
    }
}

/// The asset replaces (rather than appends to) its prototype's entries of `path`: the
/// path itself, or a dynamic array or map that it lies in, is in replace mode.
pub open spec fn replaces_parent_entries(
    a: AssetModel,
    path: Seq<char>,
    dyn_paths: Seq<Seq<char>>,
    map_paths: Seq<Seq<char>>,
) -> bool {
    ||| a.replace_mode.contains(path)
    ||| exists|i: int| 0 <= i < dyn_paths.len() && a.replace_mode.contains(#[trigger] dyn_paths[i])
    ||| exists|i: int| 0 <= i < map_paths.len() && a.replace_mode.contains(#[trigger] map_paths[i])
}

/// The entries of the dynamic array at `path`: those inherited from the prototype
/// chain (unless replaced), followed by the asset's own.
pub open spec fn dynamic_array_walk(
    m: Map<u128, AssetModel>,
    id: u128,
    path: Seq<char>,
    dyn_paths: Seq<Seq<char>>,
    map_paths: Seq<Seq<char>>,
    n: nat,
) -> Seq<u128>
    decreases n,
{
    if !m.contains_key(id) {
        Seq::empty()
    } else {
        let a = m[id];
        let own = if a.dynamic_array_entries.contains_key(path) {
            a.dynamic_array_entries[path]
        } else {
            Seq::empty()
        };
        match a.prototype {
            Some(p) => if !replaces_parent_entries(a, path, dyn_paths, map_paths) && m.contains_key(p)
                && n > 0 {
                dynamic_array_walk(m, p, path, dyn_paths, map_paths, (n - 1) as nat) + own
            } else {
                own
            },
            None => own,
        }
    }
}

/// What resolving the null override of `path` on asset `id` gives.
pub open spec fn resolved_null_override(
    m: Map<u128, AssetModel>,
    types: Map<u128, SchemaNamedType>,
    id: u128,
    path: Seq<char>,
) -> DataSetResult<NullOverride>
    decreases path.len(), 2int, 0int,
{
    if !m.contains_key(id) {
        Err(DataSetError::AssetNotFound)
    } else {
        match property_schema_of(asset_fp(m, id), path, types) {
            None => Err(DataSetError::SchemaNotFound),
            Some(s) => if !(s is Nullable) {
                Err(DataSetError::InvalidSchema)
            } else {
                match parent_paths_error(m, types, id, path) {
                    Some(e) => Err(e),
                    None => null_override_walk(m, id, path, chain_fuel(m, id)),
                }
            },
        }
    }
}

/// What resolving the dynamic array at `path` on asset `id` gives.
pub open spec fn resolved_dynamic_array(
    m: Map<u128, AssetModel>,
    types: Map<u128, SchemaNamedType>,
    id: u128,
    path: Seq<char>,
) -> DataSetResult<Seq<u128>>
    decreases path.len(), 2int, 0int,
{
    if !m.contains_key(id) {
        Err(DataSetError::AssetNotFound)
    } else {
        match property_schema_of(asset_fp(m, id), path, types) {
            None => Err(DataSetError::SchemaNotFound),
            Some(_) => match parent_paths_error(m, types, id, path) {
                Some(e) => Err(e),
                None => Ok(
                    dynamic_array_walk(
                        m,
                        id,
                        path,
                        key_paths(keys_of(asset_fp(m, id), path, types, 1)),
                        key_paths(keys_of(asset_fp(m, id), path, types, 2)),
                        chain_fuel(m, id),
                    ),
                ),
            },
        }
    }
}

/// The first failure among the checks of the containers that `path` passes through:
/// every nullable must resolve to `SetNonNull` (else `PathParentIsNull`), then every
/// dynamic-array entry key must name a resolved entry of its array.
pub open spec fn parent_paths_error(
    m: Map<u128, AssetModel>,
    types: Map<u128, SchemaNamedType>,
    id: u128,
    path: Seq<char>,
) -> Option<DataSetError>
    decreases path.len(), 1int, 0int,
{
    let f = asset_fp(m, id);
    match nullable_parents_error(m, types, id, path, nullables_of(f, path, types), 0) {
        Some(e) => Some(e),
        None => entry_parents_error(m, types, id, path, keys_of(f, path, types, 1), 0),
    }
}

/// The first failure among the nullable ancestors `anc[k..]` (ancestors are shorter
/// than `path`).
pub open spec fn nullable_parents_error(
    m: Map<u128, AssetModel>,
    types: Map<u128, SchemaNamedType>,
    id: u128,
    path: Seq<char>,
    anc: Seq<Seq<char>>,
    k: int,
) -> Option<DataSetError>
    decreases path.len(), 0int, anc.len() - k,
{
    if 0 <= k < anc.len() && anc[k].len() < path.len() {
        match resolved_null_override(m, types, id, anc[k]) {
            Err(e) => Some(e),
            Ok(o) => if o == NullOverride::SetNonNull {
                nullable_parents_error(m, types, id, path, anc, k + 1)
            } else {
                Some(DataSetError::PathParentIsNull)
            },
        }
    } else {
        None
    }
}

/// The first failure among the dynamic-array entry keys `keys[k..]` (container paths
/// are shorter than `path`).
pub open spec fn entry_parents_error(
    m: Map<u128, AssetModel>,
    types: Map<u128, SchemaNamedType>,
    id: u128,
    path: Seq<char>,
    keys: Seq<(Seq<char>, Seq<char>)>,
    k: int,
) -> Option<DataSetError>
    decreases path.len(), 0int, keys.len() - k,
{
    if 0 <= k < keys.len() && keys[k].0.len() < path.len() {
        match resolved_dynamic_array(m, types, id, keys[k].0) {
            Err(e) => Some(e),
            Ok(entries) => match uuid_parse(keys[k].1) {
                None => Some(DataSetError::UuidParseError),
                Some(u) => if entries.contains(u) {
                    entry_parents_error(m, types, id, path, keys, k + 1)
                } else {
                    Some(DataSetError::PathDynamicArrayEntryDoesNotExist)
                },
            },
        }
    } else {
        None
    }
}

/// What resolving the property at `path` on asset `id` gives: the value set on the
/// nearest asset of the prototype chain, else the default for the property's schema.
pub open spec fn resolved_property(
    m: Map<u128, AssetModel>,
    types: Map<u128, SchemaNamedType>,
    defaults: Map<u128, ValueModel>,
    id: u128,
    path: Seq<char>,
) -> DataSetResult<ValueModel> {
    if !m.contains_key(id) {
        Err(DataSetError::AssetNotFound)
    } else {
        match property_schema_of(asset_fp(m, id), path, types) {
            None => Err(DataSetError::SchemaNotFound),
            Some(s) => match parent_paths_error(m, types, id, path) {
                Some(e) => Err(e),
                None => match property_walk(m, id, path, chain_fuel(m, id)) {
                    Some(v) => Ok(v),
                    None => Ok(crate::value::default_model(s, defaults)),
                },
            },
        }
    }
}

fn firsts(v: &Vec<(String, String)>) -> (r: Vec<String>)
    ensures
        strings_view(r@) == key_paths(pair_strings_view(v@)),
{
    let mut out: Vec<String> = Vec::new();
    let mut i: usize = 0;
    while i < v.len()
        invariant
            i <= v@.len(),
            out@.len() == i,
            forall|j: int| 0 <= j < i ==> (#[trigger] out@[j])@ == v@[j].0@,
        decreases v@.len() - i,
    {
        out.push(v[i].0.clone());
        i = i + 1;
    }
    assert(strings_view(out@) =~= key_paths(pair_strings_view(v@)));
    out
}

/// The containers that a valid path passes through.
struct PathAncestors {
    schema: Schema,
    nullables: Vec<String>,
    dynamic_array_keys: Vec<(String, String)>,
    map_keys: Vec<(String, String)>,
}

impl DataSet {
    /// Finds the schema of `path` on asset `asset_id` and the containers the path passes
    /// through.
    fn path_ancestors(&self, schema_set: &SchemaSet, asset_id: AssetId, path: &str) -> (r:
        DataSetResult<PathAncestors>)
        requires
            schema_set.wf(),
            schema_known(self@, schema_set.types(), asset_id.0),
        ensures
            !self@.contains_key(asset_id.0) ==> r == Err::<PathAncestors, DataSetError>(
                DataSetError::AssetNotFound,
            ),
            self@.contains_key(asset_id.0) && property_schema_of(
                asset_fp(self@, asset_id.0),
                path@,
                schema_set.types(),
            ) is None ==> r == Err::<PathAncestors, DataSetError>(DataSetError::SchemaNotFound),
            r is Ok ==> self@.contains_key(asset_id.0),
            self@.contains_key(asset_id.0) && property_schema_of(
                asset_fp(self@, asset_id.0),
                path@,
                schema_set.types(),
            ) is Some ==> r is Ok,
            match r {
                Ok(a) => property_schema_of(asset_fp(self@, asset_id.0), path@, schema_set.types())
                    == Some(a.schema) && strings_view(a.nullables@) == nullables_of(
                    asset_fp(self@, asset_id.0),
                    path@,
                    schema_set.types(),
                ) && pair_strings_view(a.dynamic_array_keys@) == keys_of(
                    asset_fp(self@, asset_id.0),
                    path@,
                    schema_set.types(),
                    1,
                ) && pair_strings_view(a.map_keys@) == keys_of(
                    asset_fp(self@, asset_id.0),
                    path@,
                    schema_set.types(),
                    2,
                ) && schema_closed(a.schema, schema_set.types()),
                Err(_) => true,
            },
    {
        let record = match self.asset_schema(asset_id) {
            Some(r) => r,
            None => {
                return Err(DataSetError::AssetNotFound);
            },
        };
        let mut nullables: Vec<String> = Vec::new();
        let mut dynamic_array_keys: Vec<(String, String)> = Vec::new();
        let mut static_array_keys: Vec<(String, String)> = Vec::new();
        let mut map_keys: Vec<(String, String)> = Vec::new();
        let schema = crate::property_util::property_schema_and_path_ancestors_to_check(
            record,
            path,
            schema_set.schemas(),
            &mut nullables,
            &mut dynamic_array_keys,
            &mut static_array_keys,
            &mut map_keys,
        );
        match schema {
            Ok(s) => {
                proof {
                    crate::property_util::lemma_checked_steps_valid(
                        record.fingerprint,
                        path@,
                        schema_set.types(),
                    );
                    assert(strings_view(Seq::<String>::empty()) =~= Seq::<Seq<char>>::empty());
                    assert(pair_strings_view(Seq::<(String, String)>::empty()) =~= Seq::<
                        (Seq<char>, Seq<char>),
                    >::empty());
                    assert(Seq::<Seq<char>>::empty() + nullables_of(
                        record.fingerprint,
                        path@,
                        schema_set.types(),
                    ) =~= nullables_of(record.fingerprint, path@, schema_set.types()));
                    assert(Seq::<(Seq<char>, Seq<char>)>::empty() + keys_of(
                        record.fingerprint,
                        path@,
                        schema_set.types(),
                        1,
                    ) =~= keys_of(record.fingerprint, path@, schema_set.types(), 1));
                    assert(Seq::<(Seq<char>, Seq<char>)>::empty() + keys_of(
                        record.fingerprint,
                        path@,
                        schema_set.types(),
                        2,
                    ) =~= keys_of(record.fingerprint, path@, schema_set.types(), 2));
                    crate::schema::lemma_walk_closed(
                        Schema::Record(record.fingerprint),
                        crate::path::split_dot(path@),
                        schema_set.types(),
                    );
                }
                Ok(PathAncestors { schema: s, nullables, dynamic_array_keys, map_keys })
            },
            Err(e) => Err(e),
        }
    }

    /// Checks the containers that `path` passes through (see `parent_paths_error`).
    fn check_parent_paths(
        &self,
        schema_set: &SchemaSet,
        asset_id: AssetId,
        path: &str,
        nullables: &Vec<String>,
        dynamic_array_keys: &Vec<(String, String)>,
    ) -> (r: DataSetResult<()>)
        requires
            schema_set.wf(),
            schema_known(self@, schema_set.types(), asset_id.0),
            self@.contains_key(asset_id.0),
            prototype_chain_ends(self@, asset_id.0),
            property_schema_of(asset_fp(self@, asset_id.0), path@, schema_set.types()) is Some,
            strings_view(nullables@) == nullables_of(
                asset_fp(self@, asset_id.0),
                path@,
                schema_set.types(),
            ),
            pair_strings_view(dynamic_array_keys@) == keys_of(
                asset_fp(self@, asset_id.0),
                path@,
                schema_set.types(),
                1,
            ),
        ensures
            match parent_paths_error(self@, schema_set.types(), asset_id.0, path@) {
                Some(e) => r == Err::<(), DataSetError>(e),
                None => r is Ok,
            },
        decreases path@.len(), 1int,
    {
        let ghost m = self@;
        let ghost types = schema_set.types();
        let ghost f = asset_fp(m, asset_id.0);
        let ghost anc = nullables_of(f, path@, types);
        let ghost keys = keys_of(f, path@, types, 1);
        proof {
            crate::path::lemma_split_dot_nonempty(path@);
            crate::property_util::lemma_ancestors_shorter(
                f,
                path@,
                types,
                crate::path::split_dot(path@).len() - 1,
            );
        }
        let mut i: usize = 0;
        while i < nullables.len()
            invariant
                m == self@,
                types == schema_set.types(),
                schema_set.wf(),
                schema_known(m, types, asset_id.0),
                m.contains_key(asset_id.0),
                prototype_chain_ends(m, asset_id.0),
                strings_view(nullables@) == anc,
                anc == nullables_of(asset_fp(m, asset_id.0), path@, types),
                keys == keys_of(asset_fp(m, asset_id.0), path@, types, 1),
                i <= nullables@.len(),
                forall|j: int| 0 <= j < anc.len() ==> (#[trigger] anc[j]).len() < path@.len(),
                nullable_parents_error(m, types, asset_id.0, path@, anc, 0)
                    == nullable_parents_error(m, types, asset_id.0, path@, anc, i as int),
            decreases nullables@.len() - i,
        {
            assert(anc[i as int] == nullables@[i as int]@);
            let o = match self.resolve_null_override(schema_set, asset_id, nullables[i].as_str()) {
                Ok(o) => o,
                Err(e) => {
                    assert(nullable_parents_error(m, types, asset_id.0, path@, anc, i as int) == Some(
                        e,
                    ));
                    assert(parent_paths_error(m, types, asset_id.0, path@) == Some(e)) by {
                        reveal_with_fuel(parent_paths_error, 2);
                    }
                    return Err(e);
                },
            };
            if o != NullOverride::SetNonNull {
                assert(nullable_parents_error(m, types, asset_id.0, path@, anc, i as int) == Some(
                    DataSetError::PathParentIsNull,
                ));
                assert(parent_paths_error(m, types, asset_id.0, path@) == Some(
                    DataSetError::PathParentIsNull,
                )) by {
                    reveal_with_fuel(parent_paths_error, 2);
                }
                return Err(DataSetError::PathParentIsNull);
            }
            assert(nullable_parents_error(m, types, asset_id.0, path@, anc, i as int)
                == nullable_parents_error(m, types, asset_id.0, path@, anc, i + 1));
            i = i + 1;
        }
        assert(nullable_parents_error(m, types, asset_id.0, path@, anc, i as int) is None);
        let mut k: usize = 0;
        while k < dynamic_array_keys.len()
            invariant
                m == self@,
                types == schema_set.types(),
                schema_set.wf(),
                schema_known(m, types, asset_id.0),
                m.contains_key(asset_id.0),
                prototype_chain_ends(m, asset_id.0),
                pair_strings_view(dynamic_array_keys@) == keys,
                anc == nullables_of(asset_fp(m, asset_id.0), path@, types),
                keys == keys_of(asset_fp(m, asset_id.0), path@, types, 1),
                k <= dynamic_array_keys@.len(),
                forall|j: int| 0 <= j < keys.len() ==> (#[trigger] keys[j]).0.len() < path@.len(),
                nullable_parents_error(m, types, asset_id.0, path@, anc, 0) is None,
                entry_parents_error(m, types, asset_id.0, path@, keys, 0) == entry_parents_error(
                    m,
                    types,
                    asset_id.0,
                    path@,
                    keys,
                    k as int,
                ),
            decreases dynamic_array_keys@.len() - k,
        {
            assert(keys[k as int] == (dynamic_array_keys@[k as int].0@, dynamic_array_keys@[k as int].1@));
            let entries = match self.resolve_dynamic_array(
                schema_set,
                asset_id,
                dynamic_array_keys[k].0.as_str(),
            ) {
                Ok(e) => e,
                Err(e) => {
                    assert(entry_parents_error(m, types, asset_id.0, path@, keys, k as int) == Some(
                        e,
                    ));
                    assert(parent_paths_error(m, types, asset_id.0, path@) == Some(e)) by {
                        reveal_with_fuel(parent_paths_error, 2);
                    }
                    return Err(e);
                },
            };
            let parsed = parse_uuid(dynamic_array_keys[k].1.as_str());
            match check_entry_key(&entries, parsed) {
                Ok(()) => {},
                Err(e) => {
                    assert(entry_parents_error(m, types, asset_id.0, path@, keys, k as int) == Some(
                        e,
                    ));
                    assert(parent_paths_error(m, types, asset_id.0, path@) == Some(e)) by {
                        reveal_with_fuel(parent_paths_error, 2);
                    }
                    return Err(e);
                },
            }
            assert(entry_parents_error(m, types, asset_id.0, path@, keys, k as int)
                == entry_parents_error(m, types, asset_id.0, path@, keys, k + 1));
            k = k + 1;
        }
        assert(entry_parents_error(m, types, asset_id.0, path@, keys, k as int) is None);
        assert(parent_paths_error(m, types, asset_id.0, path@) is None) by {
            reveal_with_fuel(parent_paths_error, 2);
        }
        Ok(())
    }

    /// The null override that applies to the nullable property at `path`: the one set on
    /// the nearest asset of the prototype chain, or `Unset`. Fails with `AssetNotFound`,
    /// `SchemaNotFound` (the path is not in the schema), `InvalidSchema` (the property is
    /// not nullable), `PathParentIsNull` (a nullable that the path passes through is not
    /// set non-null), or the failure of an entry check (see `parent_paths_error`).
    pub fn resolve_null_override(&self, schema_set: &SchemaSet, asset_id: AssetId, path: &str) -> (r:
        DataSetResult<NullOverride>)
        requires
            schema_set.wf(),
            schema_known(self@, schema_set.types(), asset_id.0),
            prototype_chain_ends(self@, asset_id.0),
        ensures
            r == resolved_null_override(self@, schema_set.types(), asset_id.0, path@),
        decreases path@.len(), 2int,
    {
        proof {
            reveal_with_fuel(resolved_null_override, 2);
        }
        let anc = match self.path_ancestors(schema_set, asset_id, path) {
            Ok(a) => a,
            Err(e) => {
                return Err(e);
            },
        };
        if !anc.schema.is_nullable() {
            return Err(DataSetError::InvalidSchema);
        }
        match self.check_parent_paths(
            schema_set,
            asset_id,
            path,
            &anc.nullables,
            &anc.dynamic_array_keys,
        ) {
            Ok(()) => {},
            Err(e) => {
                return Err(e);
            },
        }
        let ghost m = self@;
        let ghost total = null_override_walk(m, asset_id.0, path@, chain_fuel(m, asset_id.0));
        let mut cur: u128 = asset_id.0;
        let ghost mut k: nat = chain_fuel(m, asset_id.0);
        loop
            invariant
                m == self@,
                chain_ends(m, cur, k),
                null_override_walk(m, cur, path@, k) == total,
                resolved_null_override(m, schema_set.types(), asset_id.0, path@) == total,
            decreases k,
        {
            let a = match self.assets.get(&cur) {
                Some(a) => a,
                None => {
                    return Err(DataSetError::AssetNotFound);
                },
            };
            match a.property_null_overrides.get(path) {
                Some(v) => {
                    return Ok(*v);
                },
                None => {},
            }
            match a.prototype {
                None => {
                    return Ok(NullOverride::Unset);
                },
                Some(p) => {
                    cur = p.0;
                    proof {
                        k = (k - 1) as nat;
                    }
                },
            }
        }
    }

    /// Appends the resolved entries of the dynamic array at `path` of asset `asset_id` to
    /// `resolved_entries`: those of the prototype chain (unless the asset replaces them,
    /// see `replaces_parent_entries`), then the asset's own. Fails with `AssetNotFound`
    /// when the asset does not exist.
    pub fn do_resolve_dynamic_array(
        &self,
        asset_id: AssetId,
        path: &str,
        dynamic_array_ancestors: &Vec<String>,
        map_ancestors: &Vec<String>,
        resolved_entries: &mut Vec<u128>,
    ) -> (r: DataSetResult<()>)
        requires
            prototype_chain_ends(self@, asset_id.0),
        ensures
            !self@.contains_key(asset_id.0) ==> r == Err::<(), DataSetError>(
                DataSetError::AssetNotFound,
            ) && final(resolved_entries)@ == old(resolved_entries)@,
            self@.contains_key(asset_id.0) ==> r is Ok && final(resolved_entries)@ == old(
                resolved_entries,
            )@ + dynamic_array_walk(
                self@,
                asset_id.0,
                path@,
                strings_view(dynamic_array_ancestors@),
                strings_view(map_ancestors@),
                chain_fuel(self@, asset_id.0),
            ),
    {
        if !self.assets.contains_key(&asset_id.0) {
            return Err(DataSetError::AssetNotFound);
        }
        self.collect_dynamic_array(
            asset_id.0,
            path,
            dynamic_array_ancestors,
            map_ancestors,
            resolved_entries,
            Ghost(chain_fuel(self@, asset_id.0)),
        );
        Ok(())
    }

    fn collect_dynamic_array(
        &self,
        id: u128,
        path: &str,
        dyn_paths: &Vec<String>,
        map_paths: &Vec<String>,
        resolved: &mut Vec<u128>,
        Ghost(n): Ghost<nat>,
    )
        requires
            self@.contains_key(id),
            chain_ends(self@, id, n),
        ensures
            final(resolved)@ == old(resolved)@ + dynamic_array_walk(
                self@,
                id,
                path@,
                strings_view(dyn_paths@),
                strings_view(map_paths@),
                n,
            ),
        decreases n,
    {
        let ghost m = self@;
        let ghost dv = strings_view(dyn_paths@);
        let ghost mv = strings_view(map_paths@);
        let a = self.assets.get(&id).unwrap();
        let mut replaced = a.properties_in_replace_mode.contains(path);
        let mut i: usize = 0;
        while i < dyn_paths.len()
            invariant
                i <= dyn_paths@.len(),
                dv == strings_view(dyn_paths@),
                replaced == (m[id].replace_mode.contains(path@) || exists|j: int|
                    0 <= j < i && m[id].replace_mode.contains(#[trigger] dv[j])),
                a@ == m[id],
            decreases dyn_paths@.len() - i,
        {
            assert(dv[i as int] == dyn_paths@[i as int]@);
            if a.properties_in_replace_mode.contains(dyn_paths[i].as_str()) {
                replaced = true;
            }
            i = i + 1;
        }
        let mut j: usize = 0;
        while j < map_paths.len()
            invariant
                j <= map_paths@.len(),
                mv == strings_view(map_paths@),
                replaced == (m[id].replace_mode.contains(path@) || (exists|x: int|
                    0 <= x < dv.len() && m[id].replace_mode.contains(#[trigger] dv[x])) || exists|
                    x: int,
                | 0 <= x < j && m[id].replace_mode.contains(#[trigger] mv[x])),
                dv.len() == dyn_paths@.len(),
                a@ == m[id],
            decreases map_paths@.len() - j,
        {
            assert(mv[j as int] == map_paths@[j as int]@);
            if a.properties_in_replace_mode.contains(map_paths[j].as_str()) {
                replaced = true;
            }
            j = j + 1;
        }
        assert(replaced == replaces_parent_entries(m[id], path@, dv, mv));
        if !replaced {
            match a.prototype {
                Some(p) => {
                    if self.assets.contains_key(&p.0) {
                        self.collect_dynamic_array(
                            p.0,
                            path,
                            dyn_paths,
                            map_paths,
                            resolved,
                            Ghost((n - 1) as nat),
                        );
                    }
                },
                None => {},
            }
        }
        let ghost mid = resolved@;
        match a.dynamic_array_entries.get(path) {
            Some(entries) => {
                let es = entries.as_vec();
                let mut x: usize = 0;
                while x < es.len()
                    invariant
                        x <= es@.len(),
                        resolved@ == mid + es@.take(x as int),
                    decreases es@.len() - x,
                {
                    resolved.push(es[x]);
                    assert(es@.take(x + 1) =~= es@.take(x as int).push(es@[x as int]));
                    x = x + 1;
                }
                assert(es@.take(es@.len() as int) =~= es@);
                assert(resolved@ =~= old(resolved)@ + dynamic_array_walk(m, id, path@, dv, mv, n));
            },
            None => {
                assert(resolved@ =~= old(resolved)@ + dynamic_array_walk(m, id, path@, dv, mv, n));
            },
        }
    }

    /// The entries of the dynamic array at `path`: those inherited through the prototype
    /// chain followed by the asset's own (see `dynamic_array_walk`). Fails like
    /// `resolve_null_override`, except that the property need not be nullable.
    pub fn resolve_dynamic_array(&self, schema_set: &SchemaSet, asset_id: AssetId, path: &str) -> (r:
        DataSetResult<Vec<u128>>)
        requires
            schema_set.wf(),
            schema_known(self@, schema_set.types(), asset_id.0),
            prototype_chain_ends(self@, asset_id.0),
        ensures
            match r {
                Ok(v) => resolved_dynamic_array(self@, schema_set.types(), asset_id.0, path@)
                    == Ok::<Seq<u128>, DataSetError>(v@),
                Err(e) => resolved_dynamic_array(self@, schema_set.types(), asset_id.0, path@)
                    == Err::<Seq<u128>, DataSetError>(e),
            },
        decreases path@.len(), 2int,
    {
        proof {
            reveal_with_fuel(resolved_dynamic_array, 2);
        }
        let anc = match self.path_ancestors(schema_set, asset_id, path) {
            Ok(a) => a,
            Err(e) => {
                return Err(e);
            },
        };
        match self.check_parent_paths(
            schema_set,
            asset_id,
            path,
            &anc.nullables,
            &anc.dynamic_array_keys,
        ) {
            Ok(()) => {},
            Err(e) => {
                return Err(e);
            },
        }
        let dyn_paths = firsts(&anc.dynamic_array_keys);
        let map_paths = firsts(&anc.map_keys);
        let mut resolved: Vec<u128> = Vec::new();
        match self.do_resolve_dynamic_array(asset_id, path, &dyn_paths, &map_paths, &mut resolved) {
            Ok(()) => {},
            Err(e) => {
                return Err(e);
            },
        }
        assert(resolved@ =~= dynamic_array_walk(
            self@,
            asset_id.0,
            path@,
            key_paths(keys_of(asset_fp(self@, asset_id.0), path@, schema_set.types(), 1)),
            key_paths(keys_of(asset_fp(self@, asset_id.0), path@, schema_set.types(), 2)),
            chain_fuel(self@, asset_id.0),
        ));
        Ok(resolved)
    }
}

/// The schema of the property at `path` of asset `id`.
pub open spec fn property_schema_at(
    m: Map<u128, AssetModel>,
    types: Map<u128, SchemaNamedType>,
    id: u128,
    path: Seq<char>,
) -> DataSetResult<Schema> {
    if !m.contains_key(id) {
        Err(DataSetError::AssetNotFound)
    } else {
        match property_schema_of(asset_fp(m, id), path, types) {
            None => Err(DataSetError::SchemaNotFound),
            Some(s) => Ok(s),
        }
    }
}

/// The null override stored on asset `id` itself for the nullable property at `path`.
pub open spec fn stored_null_override(
    m: Map<u128, AssetModel>,
    types: Map<u128, SchemaNamedType>,
    id: u128,
    path: Seq<char>,
) -> DataSetResult<NullOverride> {
    match property_schema_at(m, types, id, path) {
        Err(e) => Err(e),
        Ok(s) => if s is Nullable {
            Ok(
                match map_get(m[id].null_overrides, path) {
                    Some(o) => o,
                    None => NullOverride::Unset,
                },
            )
        } else {
            Err(DataSetError::InvalidSchema)
        },
    }
}

pub open spec fn map_get<V>(m: Map<Seq<char>, V>, k: Seq<char>) -> Option<V> {
    if m.contains_key(k) {
        Some(m[k])
    } else {
        None
    }
}

pub open spec fn opt_value_model(v: Option<Value>) -> Option<ValueModel> {
    match v {
        Some(x) => Some(x@),
        None => None,
    }
}

/// Why writing `value` (None: clearing) to the property at `path` of asset `id` fails,
/// if it does.
pub open spec fn property_write_error(
    m: Map<u128, AssetModel>,
    types: Map<u128, SchemaNamedType>,
    id: u128,
    path: Seq<char>,
    value: Option<ValueModel>,
) -> Option<DataSetError> {
    if !m.contains_key(id) {
        Some(DataSetError::AssetNotFound)
    } else {
        match property_schema_of(asset_fp(m, id), path, types) {
            None => Some(DataSetError::SchemaNotFound),
            Some(s) => if value matches Some(v) && !crate::value::value_matches(v, s, types) {
                Some(DataSetError::ValueDoesNotMatchSchema)
            } else {
                parent_paths_error(m, types, id, path)
            },
        }
    }
}

/// The asset with the property at `path` set to `value` (or cleared).
pub open spec fn with_property(a: AssetModel, path: Seq<char>, value: Option<ValueModel>) -> AssetModel {
    AssetModel {
        properties: match value {
            Some(v) => a.properties.insert(path, v),
            None => a.properties.remove(path),
        },
        ..a
    }
}

/// The asset with the null override of `path` set (an `Unset` override is not stored).
pub open spec fn with_null_override(a: AssetModel, path: Seq<char>, o: NullOverride) -> AssetModel {
    AssetModel {
        null_overrides: if o != NullOverride::Unset {
            a.null_overrides.insert(path, o)
        } else {
            a.null_overrides.remove(path)
        },
        ..a
    }
}

impl DataSet {
    /// The null override set on this asset itself for the nullable property at `path`
    /// (`Unset` when none is stored), ignoring prototypes. Fails with `AssetNotFound`,
    /// `SchemaNotFound`, or `InvalidSchema` when the property is not nullable.
    pub fn get_null_override(&self, schema_set: &SchemaSet, asset_id: AssetId, path: &str) -> (r:
        DataSetResult<NullOverride>)
        requires
            schema_set.wf(),
            schema_known(self@, schema_set.types(), asset_id.0),
        ensures
            r == stored_null_override(self@, schema_set.types(), asset_id.0, path@),
    {
        let a = match self.assets.get(&asset_id.0) {
            Some(a) => a,
            None => {
                return Err(DataSetError::AssetNotFound);
            },
        };
        let s = match a.schema.find_property_schema(path, schema_set.schemas()) {
            Some(s) => s,
            None => {
                return Err(DataSetError::SchemaNotFound);
            },
        };
        if s.is_nullable() {
            match a.property_null_overrides.get(path) {
                Some(o) => Ok(*o),
                None => Ok(NullOverride::Unset),
            }
        } else {
            Err(DataSetError::InvalidSchema)
        }
    }

    /// Sets (or, for `Unset`, removes) the null override of the nullable property at `path`
    /// on this asset. Fails like `get_null_override`, leaving the set unchanged.
    pub fn set_null_override(
        &mut self,
        schema_set: &SchemaSet,
        asset_id: AssetId,
        path: &str,
        null_override: NullOverride,
    ) -> (r: DataSetResult<()>)
        requires
            schema_set.wf(),
            schema_known(old(self)@, schema_set.types(), asset_id.0),
        ensures
            match property_schema_at(old(self)@, schema_set.types(), asset_id.0, path@) {
                Err(e) => r == Err::<(), DataSetError>(e) && final(self)@ == old(self)@,
                Ok(s) => if s is Nullable {
                    r is Ok && final(self)@ == old(self)@.insert(
                        asset_id.0,
                        with_null_override(old(self)@[asset_id.0], path@, null_override),
                    )
                } else {
                    r == Err::<(), DataSetError>(DataSetError::InvalidSchema) && final(self)@ == old(
                        self,
                    )@
                },
            },
    {
        let s = match self.assets.get(&asset_id.0) {
            Some(a) => match a.schema.find_property_schema(path, schema_set.schemas()) {
                Some(s) => s,
                None => {
                    return Err(DataSetError::SchemaNotFound);
                },
            },
            None => {
                return Err(DataSetError::AssetNotFound);
            },
        };
        if !s.is_nullable() {
            return Err(DataSetError::InvalidSchema);
        }
        let mut a = self.take_asset(asset_id.0).unwrap();
        if null_override != NullOverride::Unset {
            a.property_null_overrides.insert(crate::path::to_owned_string(path), null_override);
        } else {
            a.property_null_overrides.remove(path);
        }
        self.put_asset(asset_id.0, a);
        assert(self@ =~= old(self)@.insert(
            asset_id.0,
            with_null_override(old(self)@[asset_id.0], path@, null_override),
        ));
        Ok(())
    }

    /// The value set on this asset itself at `path`, if any (prototypes are not consulted,
    /// no default is given). Fails with `AssetNotFound`.
    pub fn get_property_override(&self, asset_id: AssetId, path: &str) -> (r: DataSetResult<
        Option<&Value>,
    >)
        ensures
            !self@.contains_key(asset_id.0) ==> r == Err::<Option<&Value>, DataSetError>(
                DataSetError::AssetNotFound,
            ),
            self@.contains_key(asset_id.0) ==> (r matches Ok(o) && match o {
                Some(v) => map_get(self@[asset_id.0].properties, path@) == Some(v@),
                None => map_get(self@[asset_id.0].properties, path@) is None,
            }),
    {
        match self.assets.get(&asset_id.0) {
            Some(a) => Ok(a.properties.get(path)),
            None => Err(DataSetError::AssetNotFound),
        }
    }

    /// Whether this asset itself sets the property at `path`. Fails with `AssetNotFound`.
    pub fn has_property_override(&self, asset_id: AssetId, path: &str) -> (r: DataSetResult<bool>)
        ensures
            !self@.contains_key(asset_id.0) ==> r == Err::<bool, DataSetError>(
                DataSetError::AssetNotFound,
            ),
            self@.contains_key(asset_id.0) ==> r == Ok::<bool, DataSetError>(
                self@[asset_id.0].properties.contains_key(path@),
            ),
    {
        match self.get_property_override(asset_id, path) {
            Ok(o) => Ok(o.is_some()),
            Err(e) => Err(e),
        }
    }

    /// Sets the property at `path` on this asset to `value` (None clears it), returning
    /// the value it replaced. Fails (see `property_write_error`) with `AssetNotFound`,
    /// `SchemaNotFound`, `ValueDoesNotMatchSchema`, or the failure of a container check,
    /// leaving the set unchanged.
    pub fn set_property_override(
        &mut self,
        schema_set: &SchemaSet,
        asset_id: AssetId,
        path: &str,
        value: Option<Value>,
    ) -> (r: DataSetResult<Option<Value>>)
        requires
            schema_set.wf(),
            schema_known(old(self)@, schema_set.types(), asset_id.0),
            prototype_chain_ends(old(self)@, asset_id.0),
        ensures
            match property_write_error(
                old(self)@,
                schema_set.types(),
                asset_id.0,
                path@,
                opt_value_model(value),
            ) {
                Some(e) => r == Err::<Option<Value>, DataSetError>(e) && final(self)@ == old(self)@,
                None => (r matches Ok(o) && opt_value_model(o) == map_get(
                    old(self)@[asset_id.0].properties,
                    path@,
                )) && final(self)@ == old(self)@.insert(
                    asset_id.0,
                    with_property(old(self)@[asset_id.0], path@, opt_value_model(value)),
                ),
            },
    {
        let s = match self.assets.get(&asset_id.0) {
            Some(a) => match a.schema.find_property_schema(path, schema_set.schemas()) {
                Some(s) => s,
                None => {
                    return Err(DataSetError::SchemaNotFound);
                },
            },
            None => {
                return Err(DataSetError::AssetNotFound);
            },
        };
        proof {
            crate::schema::lemma_walk_closed(
                Schema::Record(asset_fp(self@, asset_id.0)),
                crate::path::split_dot(path@),
                schema_set.types(),
            );
        }
        match &value {
            Some(v) => {
                if !v.matches_schema(&s, schema_set.schemas()) {
                    return Err(DataSetError::ValueDoesNotMatchSchema);
                }
            },
            None => {},
        }
        let anc = match self.path_ancestors(schema_set, asset_id, path) {
            Ok(a) => a,
            Err(e) => {
                return Err(e);
            },
        };
        match self.check_parent_paths(
            schema_set,
            asset_id,
            path,
            &anc.nullables,
            &anc.dynamic_array_keys,
        ) {
            Ok(()) => {},
            Err(e) => {
                return Err(e);
            },
        }
        let ghost vm = opt_value_model(value);
        let mut a = self.take_asset(asset_id.0).unwrap();
        let old_value = match value {
            Some(v) => a.properties.insert(crate::path::to_owned_string(path), v),
            None => a.properties.remove(path),
        };
        self.put_asset(asset_id.0, a);
        proof {
            let props0 = old(self)@[asset_id.0].properties;
            let props1 = self@[asset_id.0].properties;
            match vm {
                Some(x) => assert(props1 =~= props0.insert(path@, x)),
                None => assert(props1 =~= props0.remove(path@)),
            }
        }
        assert(self@ =~= old(self)@.insert(
            asset_id.0,
            with_property(old(self)@[asset_id.0], path@, vm),
        ));
        Ok(old_value)
    }

    /// The value of the property at `path`: the value set on the nearest asset of the
    /// prototype chain, or the default value of the property's schema. Fails with
    /// `AssetNotFound`, `SchemaNotFound`, or the failure of a container check.
    pub fn resolve_property(&self, schema_set: &SchemaSet, asset_id: AssetId, path: &str) -> (r:
        DataSetResult<Value>)
        requires
            schema_set.wf(),
            schema_known(self@, schema_set.types(), asset_id.0),
            prototype_chain_ends(self@, asset_id.0),
        ensures
            match r {
                Ok(v) => resolved_property(
                    self@,
                    schema_set.types(),
                    schema_set.enum_defaults(),
                    asset_id.0,
                    path@,
                ) == Ok::<ValueModel, DataSetError>(v@),
                Err(e) => resolved_property(
                    self@,
                    schema_set.types(),
                    schema_set.enum_defaults(),
                    asset_id.0,
                    path@,
                ) == Err::<ValueModel, DataSetError>(e),
            },
    {
        let anc = match self.path_ancestors(schema_set, asset_id, path) {
            Ok(a) => a,
            Err(e) => {
                return Err(e);
            },
        };
        match self.check_parent_paths(
            schema_set,
            asset_id,
            path,
            &anc.nullables,
            &anc.dynamic_array_keys,
        ) {
            Ok(()) => {},
            Err(e) => {
                return Err(e);
            },
        }
        let ghost m = self@;
        let ghost total = property_walk(m, asset_id.0, path@, chain_fuel(m, asset_id.0));
        let mut cur: u128 = asset_id.0;
        let ghost mut k: nat = chain_fuel(m, asset_id.0);
        let mut found: Option<Value> = None;
        loop
            invariant_except_break
                found is None,
            invariant
                m == self@,
                chain_ends(m, cur, k),
                property_walk(m, cur, path@, k) == total,
            ensures
                match found {
                    Some(v) => total == Some(v@),
                    None => total is None,
                },
            decreases k,
        {
            let a = match self.assets.get(&cur) {
                Some(a) => a,
                None => {
                    break;
                },
            };
            match a.properties.get(path) {
                Some(v) => {
                    found = Some(v.copy_value());
                    break;
                },
                None => {},
            }
            match a.prototype {
                None => {
                    break;
                },
                Some(p) => {
                    cur = p.0;
                    proof {
                        k = (k - 1) as nat;
                    }
                },
            }
        }
        match found {
            Some(v) => Ok(v),
            None => {
                proof {
                    let types = schema_set.types();
                    if let Schema::Enum(f) = anc.schema {
                        assert(types.contains_key(f.0) && types[f.0] is Enum);
                        assert(schema_set.types()[f.0] is Enum);
                    }
                }
                Ok(Value::default_for_schema(&anc.schema, schema_set))
            },
        }
    }

    /// Moves the value set at `path` on this asset to its prototype: the value is cleared
    /// here and set on the prototype. Nothing happens when the asset has no prototype or
    /// does not set the property. Fails with `AssetNotFound`, or as clearing the property
    /// here or setting it on the prototype fails; when setting it on the prototype fails,
    /// the property has already been cleared here.
    pub fn apply_property_override_to_prototype(
        &mut self,
        schema_set: &SchemaSet,
        asset_id: AssetId,
        path: &str,
    ) -> (r: DataSetResult<()>)
        requires
            schema_set.wf(),
            schema_known(old(self)@, schema_set.types(), asset_id.0),
            prototype_chain_ends(old(self)@, asset_id.0),
            old(self)@.contains_key(asset_id.0) ==> (old(self)@[asset_id.0].prototype matches Some(p)
                ==> schema_known(old(self)@, schema_set.types(), p) && prototype_chain_ends(
                old(self)@,
                p,
            )),
        ensures
            !old(self)@.contains_key(asset_id.0) ==> r == Err::<(), DataSetError>(
                DataSetError::AssetNotFound,
            ) && final(self)@ == old(self)@,
            old(self)@.contains_key(asset_id.0) && old(self)@[asset_id.0].prototype is None ==> r is Ok
                && final(self)@ == old(self)@,
            old(self)@.contains_key(asset_id.0) ==> (old(self)@[asset_id.0].prototype matches Some(p)
                ==> {
                let m = old(self)@;
                let types = schema_set.types();
                match property_write_error(m, types, asset_id.0, path@, None) {
                    Some(e) => r == Err::<(), DataSetError>(e) && final(self)@ == m,
                    None => {
                        let m1 = m.insert(asset_id.0, with_property(m[asset_id.0], path@, None));
                        match map_get(m[asset_id.0].properties, path@) {
                            None => r is Ok && final(self)@ == m1,
                            Some(v) => match property_write_error(m1, types, p, path@, Some(v)) {
                                Some(e) => r == Err::<(), DataSetError>(e) && final(self)@ == m1,
                                None => r is Ok && final(self)@ == m1.insert(
                                    p,
                                    with_property(m1[p], path@, Some(v)),
                                ),
                            },
                        }
                    },
                }
            }),
    {
        let proto = match self.assets.get(&asset_id.0) {
            Some(a) => a.prototype,
            None => {
                return Err(DataSetError::AssetNotFound);
            },
        };
        match proto {
            None => Ok(()),
            Some(p) => {
                let ghost m = self@;
                let v = match self.set_property_override(schema_set, asset_id, path, None) {
                    Ok(v) => v,
                    Err(e) => {
                        return Err(e);
                    },
                };
                match v {
                    None => Ok(()),
                    Some(v) => {
                        proof {
                            let m1 = self@;
                            assert(m.dom().insert(asset_id.0) =~= m.dom());
                            assert(m1.dom() =~= m.dom());
                            assert forall|k: u128| #[trigger] m.contains_key(k) implies m[k].prototype
                                == m1[k].prototype && m[k].schema == m1[k].schema by {}
                            lemma_chain_same_prototypes(m, m1, p.0);
                        }
                        match self.set_property_override(schema_set, p, path, Some(v)) {
                            Ok(_) => Ok(()),
                            Err(e) => Err(e),
                        }
                    },
                }
            },
        }
    }
}

/// Two data sets whose assets have the same prototypes have the same chain lengths.
pub proof fn lemma_chain_same_prototypes(m: Map<u128, AssetModel>, m2: Map<u128, AssetModel>, id: u128)
    requires
        prototype_chain_ends(m, id),
        m.dom() == m2.dom(),
        forall|k: u128| #[trigger] m.contains_key(k) ==> m[k].prototype == m2[k].prototype,
    ensures
        prototype_chain_ends(m2, id),
{
    let n = chain_fuel(m, id);
    lemma_chain_ends_same(m, m2, id, n);
}

pub proof fn lemma_chain_ends_same(m: Map<u128, AssetModel>, m2: Map<u128, AssetModel>, id: u128, n: nat)
    requires
        chain_ends(m, id, n),
        m.dom() == m2.dom(),
        forall|k: u128| #[trigger] m.contains_key(k) ==> m[k].prototype == m2[k].prototype,
    ensures
        chain_ends(m2, id, n),
    decreases n,
{
    assert(m.contains_key(id) == m2.contains_key(id));
    if m.contains_key(id) {
        if let Some(p) = m[id].prototype {
            lemma_chain_ends_same(m, m2, p, (n - 1) as nat);
        }
    }
}

/// The entries this asset itself lists for the dynamic array at `path`.
pub open spec fn own_entries(a: AssetModel, path: Seq<char>) -> Seq<u128> {
    if a.dynamic_array_entries.contains_key(path) {
        a.dynamic_array_entries[path]
    } else {
        Seq::empty()
    }
}

/// The asset with the entry list of `path` replaced.
pub open spec fn with_entries(a: AssetModel, path: Seq<char>, e: Seq<u128>) -> AssetModel {
    AssetModel { dynamic_array_entries: a.dynamic_array_entries.insert(path, e), ..a }
}

/// The override behavior reported for a property of schema `s`: containers report
/// whether they are in replace mode, everything else always replaces.
pub open spec fn override_behavior_of(a: AssetModel, s: Schema, path: Seq<char>) -> OverrideBehavior {
    if (s is DynamicArray || s is Mapping) && !a.replace_mode.contains(path) {
        OverrideBehavior::Append
    } else {
        OverrideBehavior::Replace
    }
}

/// The override behavior of the property at `path` of asset `id`.
pub open spec fn override_behavior_at(
    m: Map<u128, AssetModel>,
    types: Map<u128, SchemaNamedType>,
    id: u128,
    path: Seq<char>,
) -> DataSetResult<OverrideBehavior> {
    match property_schema_at(m, types, id, path) {
        Err(e) => Err(e),
        Ok(s) => Ok(override_behavior_of(m[id], s, path)),
    }
}

impl DataSet {
    /// The entries this asset itself adds to the dynamic array at `path` (its prototypes
    /// are not consulted). Fails with `AssetNotFound`, `SchemaNotFound`, or `InvalidSchema`
    /// when the property is not a dynamic array.
    pub fn get_dynamic_array_overrides(&self, schema_set: &SchemaSet, asset_id: AssetId, path: &str) -> (r:
        DataSetResult<Vec<u128>>)
        requires
            schema_set.wf(),
            schema_known(self@, schema_set.types(), asset_id.0),
        ensures
            match property_schema_at(self@, schema_set.types(), asset_id.0, path@) {
                Err(e) => r == Err::<Vec<u128>, DataSetError>(e),
                Ok(s) => if s is DynamicArray {
                    r matches Ok(v) && v@ == own_entries(self@[asset_id.0], path@)
                } else {
                    r == Err::<Vec<u128>, DataSetError>(DataSetError::InvalidSchema)
                },
            },
    {
        let a = match self.assets.get(&asset_id.0) {
            Some(a) => a,
            None => {
                return Err(DataSetError::AssetNotFound);
            },
        };
        let s = match a.schema.find_property_schema(path, schema_set.schemas()) {
            Some(s) => s,
            None => {
                return Err(DataSetError::SchemaNotFound);
            },
        };
        if !s.is_dynamic_array() {
            return Err(DataSetError::InvalidSchema);
        }
        match a.dynamic_array_entries.get(path) {
            Some(e) => Ok(e.as_vec().clone()),
            None => Ok(Vec::new()),
        }
    }

    /// Appends a new entry with a random id to this asset's entries of the dynamic array at
    /// `path`, returning the id. Fails like `get_dynamic_array_overrides`; should the random
    /// id already be listed, fails with `DuplicateEntryKey`. A failure leaves the set
    /// unchanged.
    pub fn add_dynamic_array_override(&mut self, schema_set: &SchemaSet, asset_id: AssetId, path: &str) -> (r:
        DataSetResult<u128>)
        requires
            schema_set.wf(),
            schema_known(old(self)@, schema_set.types(), asset_id.0),
        ensures
            match property_schema_at(old(self)@, schema_set.types(), asset_id.0, path@) {
                Err(e) => r == Err::<u128, DataSetError>(e) && final(self)@ == old(self)@,
                Ok(s) => if s is DynamicArray {
                    match r {
                        Ok(u) => !own_entries(old(self)@[asset_id.0], path@).contains(u)
                            && final(self)@ == old(self)@.insert(
                            asset_id.0,
                            with_entries(
                                old(self)@[asset_id.0],
                                path@,
                                own_entries(old(self)@[asset_id.0], path@).push(u),
                            ),
                        ),
                        Err(e) => e == DataSetError::DuplicateEntryKey && final(self)@ == old(
                            self,
                        )@ && own_entries(old(self)@[asset_id.0], path@).len() > 0,
                    }
                } else {
                    r == Err::<u128, DataSetError>(DataSetError::InvalidSchema) && final(self)@
                        == old(self)@
                },
            },
    {
        let s = match self.assets.get(&asset_id.0) {
            Some(a) => match a.schema.find_property_schema(path, schema_set.schemas()) {
                Some(s) => s,
                None => {
                    return Err(DataSetError::SchemaNotFound);
                },
            },
            None => {
                return Err(DataSetError::AssetNotFound);
            },
        };
        if !s.is_dynamic_array() {
            return Err(DataSetError::InvalidSchema);
        }
        let new_id = new_random_uuid();
        let mut a = self.take_asset(asset_id.0).unwrap();
        let (mut entries, was_present) = match a.dynamic_array_entries.remove(path) {
            Some(e) => (e, true),
            None => (OrderedSet::new(), false),
        };
        let ghost before = entries@;
        assert(before == own_entries(old(self)@[asset_id.0], path@));
        if !entries.try_insert_at_end(new_id) {
            assert(before.contains(new_id));
            let ghost a0 = old(self)@[asset_id.0];
            if was_present {
                a.dynamic_array_entries.insert(crate::path::to_owned_string(path), entries);
            }
            self.put_asset(asset_id.0, a);
            proof {
                if a0.dynamic_array_entries.contains_key(path@) {
                    assert(entry_models(a.dynamic_array_entries@) =~= a0.dynamic_array_entries);
                } else {
                    assert(entry_models(a.dynamic_array_entries@) =~= a0.dynamic_array_entries);
                }
            }
            assert(self@ =~= old(self)@);
            return Err(DataSetError::DuplicateEntryKey);
        }
        a.dynamic_array_entries.insert(crate::path::to_owned_string(path), entries);
        self.put_asset(asset_id.0, a);
        assert(self@ =~= old(self)@.insert(
            asset_id.0,
            with_entries(old(self)@[asset_id.0], path@, before.push(new_id)),
        )) by {
            assert(entry_models(a.dynamic_array_entries@) =~= old(self)@[asset_id.0].dynamic_array_entries.insert(
                path@,
                before.push(new_id),
            ));
        }
        Ok(new_id)
    }

    /// Removes entry `element_id` from this asset's entries of the dynamic array at `path`,
    /// keeping the order of the others; returns whether it was listed. Fails like
    /// `get_dynamic_array_overrides`, leaving the set unchanged.
    pub fn remove_dynamic_array_override(
        &mut self,
        schema_set: &SchemaSet,
        asset_id: AssetId,
        path: &str,
        element_id: u128,
    ) -> (r: DataSetResult<bool>)
        requires
            schema_set.wf(),
            schema_known(old(self)@, schema_set.types(), asset_id.0),
        ensures
            match property_schema_at(old(self)@, schema_set.types(), asset_id.0, path@) {
                Err(e) => r == Err::<bool, DataSetError>(e) && final(self)@ == old(self)@,
                Ok(s) => if s is DynamicArray {
                    let e = own_entries(old(self)@[asset_id.0], path@);
                    &&& r == Ok::<bool, DataSetError>(e.contains(element_id))
                    &&& !e.contains(element_id) ==> final(self)@ == old(self)@
                    &&& e.contains(element_id) ==> exists|i: int|
                        0 <= i < e.len() && e[i] == element_id && final(self)@ == old(self)@.insert(
                            asset_id.0,
                            with_entries(old(self)@[asset_id.0], path@, e.remove(i)),
                        )
                } else {
                    r == Err::<bool, DataSetError>(DataSetError::InvalidSchema) && final(self)@
                        == old(self)@
                },
            },
    {
        let s = match self.assets.get(&asset_id.0) {
            Some(a) => match a.schema.find_property_schema(path, schema_set.schemas()) {
                Some(s) => s,
                None => {
                    return Err(DataSetError::SchemaNotFound);
                },
            },
            None => {
                return Err(DataSetError::AssetNotFound);
            },
        };
        if !s.is_dynamic_array() {
            return Err(DataSetError::InvalidSchema);
        }
        let listed = match self.assets.get(&asset_id.0) {
            Some(a) => match a.dynamic_array_entries.get(path) {
                Some(e) => {
                    assert(entry_models(a.dynamic_array_entries@)[path@] == e@);
                    e.contains(&element_id)
                },
                None => false,
            },
            None => false,
        };
        assert(listed == own_entries(old(self)@[asset_id.0], path@).contains(element_id));
        if !listed {
            return Ok(false);
        }
        let mut a = self.take_asset(asset_id.0).unwrap();
        assert(entry_models(a.dynamic_array_entries@).contains_key(path@));
        assert(a.dynamic_array_entries@.contains_key(path@));
        let mut entries = a.dynamic_array_entries.remove(path).unwrap();
        let ghost before = entries@;
        let removed = entries.remove(&element_id);
        let ghost after = entries@;
        a.dynamic_array_entries.insert(crate::path::to_owned_string(path), entries);
        self.put_asset(asset_id.0, a);
        proof {
            let i = choose|i: int| 0 <= i < before.len() && before[i] == element_id && after == before.remove(i);
            assert(self@ =~= old(self)@.insert(
                asset_id.0,
                with_entries(old(self)@[asset_id.0], path@, before.remove(i)),
            )) by {
                assert(entry_models(a.dynamic_array_entries@) =~= old(self)@[asset_id.0].dynamic_array_entries.insert(
                    path@,
                    after,
                ));
            }
        }
        Ok(removed)
    }

    /// Whether the container property at `path` appends to or replaces its prototype's
    /// entries on this asset; properties that are not dynamic arrays or maps always
    /// replace. Fails with `AssetNotFound` or `SchemaNotFound`.
    pub fn get_override_behavior(&self, schema_set: &SchemaSet, asset_id: AssetId, path: &str) -> (r:
        DataSetResult<OverrideBehavior>)
        requires
            schema_set.wf(),
            schema_known(self@, schema_set.types(), asset_id.0),
        ensures
            r == override_behavior_at(self@, schema_set.types(), asset_id.0, path@),
    {
        let a = match self.assets.get(&asset_id.0) {
            Some(a) => a,
            None => {
                return Err(DataSetError::AssetNotFound);
            },
        };
        let s = match a.schema.find_property_schema(path, schema_set.schemas()) {
            Some(s) => s,
            None => {
                return Err(DataSetError::SchemaNotFound);
            },
        };
        if s.is_dynamic_array() || s.is_map() {
            if a.properties_in_replace_mode.contains(path) {
                Ok(OverrideBehavior::Replace)
            } else {
                Ok(OverrideBehavior::Append)
            }
        } else {
            Ok(OverrideBehavior::Replace)
        }
    }

    /// Sets whether the container property at `path` appends to or replaces its
    /// prototype's entries. Fails with `AssetNotFound`, `SchemaNotFound`, or
    /// `InvalidSchema` when the property is not a dynamic array or map, leaving the set
    /// unchanged.
    pub fn set_override_behavior(
        &mut self,
        schema_set: &SchemaSet,
        asset_id: AssetId,
        path: &str,
        behavior: OverrideBehavior,
    ) -> (r: DataSetResult<()>)
        requires
            schema_set.wf(),
            schema_known(old(self)@, schema_set.types(), asset_id.0),
        ensures
            match property_schema_at(old(self)@, schema_set.types(), asset_id.0, path@) {
                Err(e) => r == Err::<(), DataSetError>(e) && final(self)@ == old(self)@,
                Ok(s) => if s is DynamicArray || s is Mapping {
                    r is Ok && final(self)@ == old(self)@.insert(
                        asset_id.0,
                        AssetModel {
                            replace_mode: match behavior {
                                OverrideBehavior::Append => old(self)@[asset_id.0].replace_mode.remove(
                                    path@,
                                ),
                                OverrideBehavior::Replace => old(
                                    self,
                                )@[asset_id.0].replace_mode.insert(path@),
                            },
                            ..old(self)@[asset_id.0]
                        },
                    )
                } else {
                    r == Err::<(), DataSetError>(DataSetError::InvalidSchema) && final(self)@ == old(
                        self,
                    )@
                },
            },
    {
        let s = match self.assets.get(&asset_id.0) {
            Some(a) => match a.schema.find_property_schema(path, schema_set.schemas()) {
                Some(s) => s,
                None => {
                    return Err(DataSetError::SchemaNotFound);
                },
            },
            None => {
                return Err(DataSetError::AssetNotFound);
            },
        };
        if !(s.is_dynamic_array() || s.is_map()) {
            return Err(DataSetError::InvalidSchema);
        }
        let mut a = self.take_asset(asset_id.0).unwrap();
        match behavior {
            OverrideBehavior::Append => {
                a.properties_in_replace_mode.remove(path);
            },
            OverrideBehavior::Replace => {
                a.properties_in_replace_mode.insert(crate::path::to_owned_string(path));
            },
        }
        self.put_asset(asset_id.0, a);
        Ok(())
    }
}

} // verus!
