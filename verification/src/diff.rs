use vstd::prelude::*;
use crate::data_set::{value_models, AssetModel, DataSet, DataSetAssetInfo};
use crate::ids::{AssetId, AssetLocation, AssetName, NullOverride};
use crate::ordered_set::OrderedSet;
use crate::prop_map::{entries_view, has_key_at, keys_distinct, PathSet, PropertyMap};
use crate::value::{is_leaf, leaf_values_equal, PropertyValue, Value, ValueModel};

verus! {

/// Key `k` is set in `after` and is new or has another value than in `before`.
pub open spec fn changed_key<V>(before: Map<Seq<char>, V>, after: Map<Seq<char>, V>, k: Seq<char>) -> bool {
    after.contains_key(k) && !(before.contains_key(k) && before[k] == after[k])
}

/// `s` lists each changed key of `after` once, with its value in `after`.
pub open spec fn lists_changed<V>(
    s: Seq<(Seq<char>, V)>,
    before: Map<Seq<char>, V>,
    after: Map<Seq<char>, V>,
) -> bool {
    &&& forall|i: int, j: int| 0 <= i < j < s.len() ==> #[trigger] s[i].0 != #[trigger] s[j].0
    &&& forall|i: int|
        0 <= i < s.len() ==> changed_key(before, after, (#[trigger] s[i]).0) && s[i].1 == after[s[i].0]
    &&& forall|k: Seq<char>| #[trigger]
        changed_key(before, after, k) ==> exists|i: int| 0 <= i < s.len() && s[i].0 == k
}

/// Property `k` of `after` is new, or differs from its value in `before` (property values
/// compared as `are_matching_property_values` compares them).
pub open spec fn value_changed(before: Map<Seq<char>, ValueModel>, after: Map<Seq<char>, ValueModel>, k: Seq<char>) -> bool {
    after.contains_key(k) && !(before.contains_key(k) && leaf_values_equal(before[k], after[k]))
}

/// `s` lists each changed property of `after` once, with its value in `after`.
pub open spec fn lists_changed_values(
    s: Seq<(Seq<char>, ValueModel)>,
    before: Map<Seq<char>, ValueModel>,
    after: Map<Seq<char>, ValueModel>,
) -> bool {
    &&& forall|i: int, j: int| 0 <= i < j < s.len() ==> #[trigger] s[i].0 != #[trigger] s[j].0
    &&& forall|i: int|
        0 <= i < s.len() ==> value_changed(before, after, (#[trigger] s[i]).0) && s[i].1 == after[s[i].0]
    &&& forall|k: Seq<char>| #[trigger]
        value_changed(before, after, k) ==> exists|i: int| 0 <= i < s.len() && s[i].0 == k
}

/// The property maps hold the same paths, each with the same value or with values that
/// compare equal (such as +0.0 and -0.0).
pub open spec fn props_agree(r: Map<Seq<char>, ValueModel>, a: Map<Seq<char>, ValueModel>) -> bool {
    &&& r.dom() == a.dom()
    &&& forall|k: Seq<char>| #[trigger]
        r.contains_key(k) ==> (r[k] == a[k] || leaf_values_equal(r[k], a[k]))
}

/// `s` lists each key of `before` that `after` lacks, once.
pub open spec fn lists_removed<V>(s: Seq<Seq<char>>, before: Map<Seq<char>, V>, after: Map<Seq<char>, V>) -> bool {
    &&& s.no_duplicates()
    &&& forall|i: int|
        0 <= i < s.len() ==> before.contains_key(#[trigger] s[i]) && !after.contains_key(s[i])
    &&& forall|k: Seq<char>|
        before.contains_key(k) && !after.contains_key(k) ==> #[trigger] s.contains(k)
}

/// `s` lists each element of `after` that `before` lacks, once.
pub open spec fn lists_added(s: Seq<Seq<char>>, before: Set<Seq<char>>, after: Set<Seq<char>>) -> bool {
    &&& s.no_duplicates()
    &&& forall|i: int| 0 <= i < s.len() ==> after.contains(#[trigger] s[i]) && !before.contains(s[i])
    &&& forall|k: Seq<char>| after.contains(k) && !before.contains(k) ==> #[trigger] s.contains(k)
}

/// The entries listed for `path` (none when the path is absent).
pub open spec fn entries_at(m: Map<Seq<char>, Seq<u128>>, path: Seq<char>) -> Seq<u128> {
    if m.contains_key(path) {
        m[path]
    } else {
        Seq::empty()
    }
}

/// `s` lists, once each, the paths whose entry lists differ, with the entries of `after`.
pub open spec fn lists_delta(
    s: Seq<(Seq<char>, Seq<u128>)>,
    before: Map<Seq<char>, Seq<u128>>,
    after: Map<Seq<char>, Seq<u128>>,
) -> bool {
    &&& forall|i: int, j: int| 0 <= i < j < s.len() ==> #[trigger] s[i].0 != #[trigger] s[j].0
    &&& forall|i: int|
        0 <= i < s.len() ==> entries_at(before, (#[trigger] s[i]).0) != entries_at(after, s[i].0)
            && s[i].1 == entries_at(after, s[i].0)
    &&& forall|k: Seq<char>|
        #[trigger] entries_at(before, k) != entries_at(after, k) ==> exists|i: int|
            0 <= i < s.len() && s[i].0 == k
}

/// The content of an asset diff.
pub struct AssetDiffModel {
    pub set_name: Option<Seq<char>>,
    pub set_location: Option<u128>,
    pub set_prototype: Option<Option<u128>>,
    pub set_properties: Seq<(Seq<char>, ValueModel)>,
    pub remove_properties: Seq<Seq<char>>,
    pub set_null_overrides: Seq<(Seq<char>, NullOverride)>,
    pub remove_null_overrides: Seq<Seq<char>>,
    pub add_replace_mode: Seq<Seq<char>>,
    pub remove_replace_mode: Seq<Seq<char>>,
    pub entry_deltas: Seq<(Seq<char>, Seq<u128>)>,
    pub set_file_references: Seq<(Seq<char>, AssetId)>,
    pub remove_file_references: Seq<Seq<char>>,
}

/// `d` turns asset `before` into asset `after`: it sets exactly what differs.
pub open spec fn describes_diff(d: AssetDiffModel, before: AssetModel, after: AssetModel) -> bool {
    &&& d.set_name == if before.name != after.name {
        Some(after.name)
    } else {
        None
    }
    &&& d.set_location == if before.location != after.location {
        Some(after.location)
    } else {
        None
    }
    &&& d.set_prototype == if before.prototype != after.prototype {
        Some(after.prototype)
    } else {
        None
    }
    &&& lists_changed_values(d.set_properties, before.properties, after.properties)
    &&& lists_removed(d.remove_properties, before.properties, after.properties)
    &&& lists_changed(d.set_null_overrides, before.null_overrides, after.null_overrides)
    &&& lists_removed(d.remove_null_overrides, before.null_overrides, after.null_overrides)
    &&& lists_added(d.add_replace_mode, before.replace_mode, after.replace_mode)
    &&& lists_added(d.remove_replace_mode, after.replace_mode, before.replace_mode)
    &&& lists_delta(d.entry_deltas, before.dynamic_array_entries, after.dynamic_array_entries)
    &&& lists_changed(
        d.set_file_references,
        before.file_reference_overrides,
        after.file_reference_overrides,
    )
    &&& lists_removed(
        d.remove_file_references,
        before.file_reference_overrides,
        after.file_reference_overrides,
    )
}

pub open spec fn diff_has_changes(d: AssetDiffModel) -> bool {
    ||| d.set_name is Some
    ||| d.set_location is Some
    ||| d.set_prototype is Some
    ||| d.set_properties.len() > 0
    ||| d.remove_properties.len() > 0
    ||| d.set_null_overrides.len() > 0
    ||| d.remove_null_overrides.len() > 0
    ||| d.add_replace_mode.len() > 0
    ||| d.remove_replace_mode.len() > 0
    ||| d.entry_deltas.len() > 0
    ||| d.set_file_references.len() > 0
    ||| d.remove_file_references.len() > 0
}

/// `m` with the pairs of `s` inserted in order.
pub open spec fn insert_all<V>(m: Map<Seq<char>, V>, s: Seq<(Seq<char>, V)>) -> Map<Seq<char>, V>
    decreases s.len(),
{
    if s.len() == 0 {
        m
    } else {
        insert_all(m, s.drop_last()).insert(s.last().0, s.last().1)
    }
}

/// `m` with the keys of `s` removed.
pub open spec fn remove_all<V>(m: Map<Seq<char>, V>, s: Seq<Seq<char>>) -> Map<Seq<char>, V>
    decreases s.len(),
{
    if s.len() == 0 {
        m
    } else {
        remove_all(m, s.drop_last()).remove(s.last())
    }
}

/// `s0` with the elements of `s` added.
pub open spec fn set_insert_all(s0: Set<Seq<char>>, s: Seq<Seq<char>>) -> Set<Seq<char>>
    decreases s.len(),
{
    if s.len() == 0 {
        s0
    } else {
        set_insert_all(s0, s.drop_last()).insert(s.last())
    }
}

/// `s0` with the elements of `s` removed.
pub open spec fn set_remove_all(s0: Set<Seq<char>>, s: Seq<Seq<char>>) -> Set<Seq<char>>
    decreases s.len(),
{
    if s.len() == 0 {
        s0
    } else {
        set_remove_all(s0, s.drop_last()).remove(s.last())
    }
}

/// `m` with each delta applied in order: an empty entry list removes the path, another
/// list replaces the path's entries.
pub open spec fn apply_deltas(m: Map<Seq<char>, Seq<u128>>, s: Seq<(Seq<char>, Seq<u128>)>) -> Map<
    Seq<char>,
    Seq<u128>,
>
    decreases s.len(),
{
    if s.len() == 0 {
        m
    } else if s.last().1.len() == 0 {
        apply_deltas(m, s.drop_last()).remove(s.last().0)
    } else {
        apply_deltas(m, s.drop_last()).insert(s.last().0, s.last().1)
    }
}

/// The asset after applying diff `d` to `a`.
pub open spec fn apply_asset_diff(d: AssetDiffModel, a: AssetModel) -> AssetModel {
    AssetModel {
        name: match d.set_name {
            Some(n) => n,
            None => a.name,
        },
        location: match d.set_location {
            Some(l) => l,
            None => a.location,
        },
        prototype: match d.set_prototype {
            Some(p) => p,
            None => a.prototype,
        },
        properties: remove_all(insert_all(a.properties, d.set_properties), d.remove_properties),
        null_overrides: remove_all(
            insert_all(a.null_overrides, d.set_null_overrides),
            d.remove_null_overrides,
        ),
        replace_mode: set_remove_all(
            set_insert_all(a.replace_mode, d.add_replace_mode),
            d.remove_replace_mode,
        ),
        dynamic_array_entries: apply_deltas(a.dynamic_array_entries, d.entry_deltas),
        file_reference_overrides: remove_all(
            insert_all(a.file_reference_overrides, d.set_file_references),
            d.remove_file_references,
        ),
        ..a
    }
}

/// The new entry list of one path of an asset.
#[derive(Debug)]
pub struct DynamicArrayEntryDelta {
    key: String,
    entries: OrderedSet,
}

/// The changes that turn one state of an asset into another.
#[derive(Debug)]
pub struct AssetDiff {
    set_name: Option<AssetName>,
    set_location: Option<AssetLocation>,
    set_prototype: Option<Option<AssetId>>,
    set_properties: Vec<(String, PropertyValue)>,
    remove_properties: Vec<String>,
    set_null_overrides: Vec<(String, NullOverride)>,
    remove_null_overrides: Vec<String>,
    add_properties_in_replace_mode: Vec<String>,
    remove_properties_in_replace_mode: Vec<String>,
    dynamic_array_entry_deltas: Vec<DynamicArrayEntryDelta>,
    set_file_references: Vec<(String, AssetId)>,
    remove_file_references: Vec<String>,
}

pub open spec fn pv_pairs(s: Seq<(String, PropertyValue)>) -> Seq<(Seq<char>, ValueModel)> {
    s.map_values(|p: (String, PropertyValue)| (p.0@, p.1@))
}

pub open spec fn null_pairs(s: Seq<(String, NullOverride)>) -> Seq<(Seq<char>, NullOverride)> {
    s.map_values(|p: (String, NullOverride)| (p.0@, p.1))
}

pub open spec fn id_pairs(s: Seq<(String, AssetId)>) -> Seq<(Seq<char>, AssetId)> {
    s.map_values(|p: (String, AssetId)| (p.0@, p.1))
}

pub closed spec fn delta_pairs(s: Seq<DynamicArrayEntryDelta>) -> Seq<(Seq<char>, Seq<u128>)> {
    s.map_values(|d: DynamicArrayEntryDelta| (d.key@, d.entries@))
}

impl View for AssetDiff {
    type V = AssetDiffModel;

    closed spec fn view(&self) -> AssetDiffModel {
        AssetDiffModel {
            set_name: match self.set_name {
                Some(n) => Some(n.0@),
                None => None,
            },
            set_location: match self.set_location {
                Some(l) => Some(l.path_node_id.0),
                None => None,
            },
            set_prototype: match self.set_prototype {
                Some(p) => Some(crate::data_set::id_model(p)),
                None => None,
            },
            set_properties: pv_pairs(self.set_properties@),
            remove_properties: crate::path::strings_view(self.remove_properties@),
            set_null_overrides: null_pairs(self.set_null_overrides@),
            remove_null_overrides: crate::path::strings_view(self.remove_null_overrides@),
            add_replace_mode: crate::path::strings_view(self.add_properties_in_replace_mode@),
            remove_replace_mode: crate::path::strings_view(self.remove_properties_in_replace_mode@),
            entry_deltas: delta_pairs(self.dynamic_array_entry_deltas@),
            set_file_references: id_pairs(self.set_file_references@),
            remove_file_references: crate::path::strings_view(self.remove_file_references@),
        }
    }
}

impl AssetDiff {
    pub fn new() -> (r: AssetDiff)
        ensures
            !diff_has_changes(r@),
    {
        let r = AssetDiff {
            set_name: None,
            set_location: None,
            set_prototype: None,
            set_properties: Vec::new(),
            remove_properties: Vec::new(),
            set_null_overrides: Vec::new(),
            remove_null_overrides: Vec::new(),
            add_properties_in_replace_mode: Vec::new(),
            remove_properties_in_replace_mode: Vec::new(),
            dynamic_array_entry_deltas: Vec::new(),
            set_file_references: Vec::new(),
            remove_file_references: Vec::new(),
        };
        r
    }

    pub fn has_changes(&self) -> (r: bool)
        ensures
            r == diff_has_changes(self@),
    {
        self.set_name.is_some() || self.set_location.is_some() || self.set_prototype.is_some()
            || self.set_properties.len() > 0 || self.remove_properties.len() > 0
            || self.set_null_overrides.len() > 0 || self.remove_null_overrides.len() > 0
            || self.add_properties_in_replace_mode.len() > 0
            || self.remove_properties_in_replace_mode.len() > 0
            || self.dynamic_array_entry_deltas.len() > 0 || self.set_file_references.len() > 0
            || self.remove_file_references.len() > 0
    }

    /// Applies the changes to `asset` (the schema and import info are left as they are).
    pub fn apply(&self, asset: &mut DataSetAssetInfo)
        ensures
            final(asset)@ == apply_asset_diff(self@, old(asset)@),
            final(asset).schema_record() == old(asset).schema_record(),
    {
        let ghost d = self@;
        let ghost a0 = asset@;
        match &self.set_name {
            Some(n) => asset.set_name(n.clone()),
            None => {},
        }
        match &self.set_location {
            Some(l) => asset.set_location(*l),
            None => {},
        }
        match &self.set_prototype {
            Some(p) => asset.set_prototype(*p),
            None => {},
        }
        let ghost a1 = asset@;
        let mut i: usize = 0;
        while i < self.set_properties.len()
            invariant
                i <= self.set_properties@.len(),
                d == self@,
                asset.schema_record() == old(asset).schema_record(),
                asset@ == (AssetModel {
                    properties: insert_all(a1.properties, d.set_properties.take(i as int)),
                    ..a1
                }),
            decreases self.set_properties@.len() - i,
        {
            let v = self.set_properties[i].1.as_value();
            asset.insert_property(self.set_properties[i].0.clone(), v);
            assert(d.set_properties.take(i + 1).drop_last() =~= d.set_properties.take(i as int));
            i = i + 1;
        }
        assert(d.set_properties.take(i as int) =~= d.set_properties);
        let ghost a2 = asset@;
        let mut i: usize = 0;
        while i < self.remove_properties.len()
            invariant
                i <= self.remove_properties@.len(),
                d == self@,
                asset.schema_record() == old(asset).schema_record(),
                asset@ == (AssetModel {
                    properties: remove_all(a2.properties, d.remove_properties.take(i as int)),
                    ..a2
                }),
            decreases self.remove_properties@.len() - i,
        {
            asset.remove_property(self.remove_properties[i].as_str());
            assert(d.remove_properties.take(i + 1).drop_last() =~= d.remove_properties.take(
                i as int,
            ));
            i = i + 1;
        }
        assert(d.remove_properties.take(i as int) =~= d.remove_properties);
        let ghost a3 = asset@;
        let mut i: usize = 0;
        while i < self.set_null_overrides.len()
            invariant
                i <= self.set_null_overrides@.len(),
                d == self@,
                asset.schema_record() == old(asset).schema_record(),
                asset@ == (AssetModel {
                    null_overrides: insert_all(a3.null_overrides, d.set_null_overrides.take(i as int)),
                    ..a3
                }),
            decreases self.set_null_overrides@.len() - i,
        {
            asset.insert_null_override(
                self.set_null_overrides[i].0.clone(),
                self.set_null_overrides[i].1,
            );
            assert(d.set_null_overrides.take(i + 1).drop_last() =~= d.set_null_overrides.take(
                i as int,
            ));
            i = i + 1;
        }
        assert(d.set_null_overrides.take(i as int) =~= d.set_null_overrides);
        let ghost a4 = asset@;
        let mut i: usize = 0;
        while i < self.remove_null_overrides.len()
            invariant
                i <= self.remove_null_overrides@.len(),
                d == self@,
                asset.schema_record() == old(asset).schema_record(),
                asset@ == (AssetModel {
                    null_overrides: remove_all(
                        a4.null_overrides,
                        d.remove_null_overrides.take(i as int),
                    ),
                    ..a4
                }),
            decreases self.remove_null_overrides@.len() - i,
        {
            asset.remove_null_override(self.remove_null_overrides[i].as_str());
            assert(d.remove_null_overrides.take(i + 1).drop_last() =~= d.remove_null_overrides.take(
                i as int,
            ));
            i = i + 1;
        }
        assert(d.remove_null_overrides.take(i as int) =~= d.remove_null_overrides);
        let ghost a5 = asset@;
        let mut i: usize = 0;
        while i < self.add_properties_in_replace_mode.len()
            invariant
                i <= self.add_properties_in_replace_mode@.len(),
                d == self@,
                asset.schema_record() == old(asset).schema_record(),
                asset@ == (AssetModel {
                    replace_mode: set_insert_all(a5.replace_mode, d.add_replace_mode.take(i as int)),
                    ..a5
                }),
            decreases self.add_properties_in_replace_mode@.len() - i,
        {
            asset.add_replace_mode(self.add_properties_in_replace_mode[i].clone());
            assert(d.add_replace_mode.take(i + 1).drop_last() =~= d.add_replace_mode.take(i as int));
            i = i + 1;
        }
        assert(d.add_replace_mode.take(i as int) =~= d.add_replace_mode);
        let ghost a6 = asset@;
        let mut i: usize = 0;
        while i < self.remove_properties_in_replace_mode.len()
            invariant
                i <= self.remove_properties_in_replace_mode@.len(),
                d == self@,
                asset.schema_record() == old(asset).schema_record(),
                asset@ == (AssetModel {
                    replace_mode: set_remove_all(a6.replace_mode, d.remove_replace_mode.take(i as int)),
                    ..a6
                }),
            decreases self.remove_properties_in_replace_mode@.len() - i,
        {
            asset.remove_replace_mode(self.remove_properties_in_replace_mode[i].as_str());
            assert(d.remove_replace_mode.take(i + 1).drop_last() =~= d.remove_replace_mode.take(
                i as int,
            ));
            i = i + 1;
        }
        assert(d.remove_replace_mode.take(i as int) =~= d.remove_replace_mode);
        let ghost a7 = asset@;
        let mut i: usize = 0;
        while i < self.dynamic_array_entry_deltas.len()
            invariant
                i <= self.dynamic_array_entry_deltas@.len(),
                d == self@,
                asset.schema_record() == old(asset).schema_record(),
                asset@ == (AssetModel {
                    dynamic_array_entries: apply_deltas(
                        a7.dynamic_array_entries,
                        d.entry_deltas.take(i as int),
                    ),
                    ..a7
                }),
            decreases self.dynamic_array_entry_deltas@.len() - i,
        {
            let delta = &self.dynamic_array_entry_deltas[i];
            assert(d.entry_deltas.take(i + 1).drop_last() =~= d.entry_deltas.take(i as int));
            if delta.entries.is_empty() {
                asset.remove_entries(delta.key.as_str());
            } else {
                asset.set_entries(delta.key.clone(), delta.entries.copy_set());
            }
            i = i + 1;
        }
        assert(d.entry_deltas.take(i as int) =~= d.entry_deltas);
        let ghost a8 = asset@;
        let mut i: usize = 0;
        while i < self.set_file_references.len()
            invariant
                i <= self.set_file_references@.len(),
                d == self@,
                asset.schema_record() == old(asset).schema_record(),
                asset@ == (AssetModel {
                    file_reference_overrides: insert_all(
                        a8.file_reference_overrides,
                        d.set_file_references.take(i as int),
                    ),
                    ..a8
                }),
            decreases self.set_file_references@.len() - i,
        {
            asset.insert_file_reference(
                self.set_file_references[i].0.clone(),
                self.set_file_references[i].1,
            );
            assert(d.set_file_references.take(i + 1).drop_last() =~= d.set_file_references.take(
                i as int,
            ));
            i = i + 1;
        }
        assert(d.set_file_references.take(i as int) =~= d.set_file_references);
        let ghost a9 = asset@;
        let mut i: usize = 0;
        while i < self.remove_file_references.len()
            invariant
                i <= self.remove_file_references@.len(),
                d == self@,
                asset.schema_record() == old(asset).schema_record(),
                asset@ == (AssetModel {
                    file_reference_overrides: remove_all(
                        a9.file_reference_overrides,
                        d.remove_file_references.take(i as int),
                    ),
                    ..a9
                }),
            decreases self.remove_file_references@.len() - i,
        {
            asset.remove_file_reference(self.remove_file_references[i].as_str());
            assert(d.remove_file_references.take(i + 1).drop_last() =~= d.remove_file_references.take(
                i as int,
            ));
            i = i + 1;
        }
        assert(d.remove_file_references.take(i as int) =~= d.remove_file_references);
        assert(asset@ =~= apply_asset_diff(d, a0));
    }
}

/// The keys of `from` that `to` lacks.
fn removed_keys<V, W>(from: &PropertyMap<V>, to: &PropertyMap<W>) -> (r: Vec<String>)
    ensures
        crate::path::strings_view(r@).no_duplicates(),
        forall|i: int|
            0 <= i < r@.len() ==> from@.contains_key(#[trigger] r@[i]@) && !to@.contains_key(
                r@[i]@,
            ),
        forall|k: Seq<char>|
            from@.contains_key(k) && !to@.contains_key(k) ==> #[trigger] crate::path::strings_view(
                r@,
            ).contains(k),
{
    let es = from.entries();
    from.lemma_wf();
    proof {
        from.lemma_entries();
    }
    let mut out: Vec<String> = Vec::new();
    let mut i: usize = 0;
    while i < es.len()
        invariant
            i <= es@.len(),
            keys_distinct(es@),
            from@ == entries_view(es@),
            forall|x: int, y: int| 0 <= x < y < out@.len() ==> out@[x]@ != out@[y]@,
            forall|x: int|
                0 <= x < out@.len() ==> exists|t: int| 0 <= t < i && (#[trigger] out@[x])@ == es@[t].0@,
            forall|x: int|
                0 <= x < out@.len() ==> from@.contains_key(#[trigger] out@[x]@) && !to@.contains_key(
                    out@[x]@,
                ),
            forall|t: int|
                0 <= t < i && !to@.contains_key(#[trigger] es@[t].0@) ==> exists|x: int|
                    0 <= x < out@.len() && out@[x]@ == es@[t].0@,
        decreases es@.len() - i,
    {
        proof {
            crate::prop_map::lemma_entry_in_view(es@, i as int);
        }
        if !to.contains_key(es[i].0.as_str()) {
            let ghost before = out@;
            out.push(es[i].0.clone());
            proof {
                assert forall|x: int, y: int| 0 <= x < y < out@.len() implies out@[x]@ != out@[y]@ by {
                    if y == out@.len() - 1 {
                        let t = choose|t: int| 0 <= t < i && before[x]@ == es@[t].0@;
                        assert(es@[t].0@ != es@[i as int].0@);
                    } else {
                        assert(before[x]@ != before[y]@);
                    }
                }
                assert forall|t: int|
                    0 <= t < i + 1 && !to@.contains_key(#[trigger] es@[t].0@) implies exists|x: int|
                    0 <= x < out@.len() && out@[x]@ == es@[t].0@ by {
                    if t == i {
                        assert(out@[out@.len() - 1]@ == es@[t].0@);
                    } else {
                        let x = choose|x: int| 0 <= x < before.len() && before[x]@ == es@[t].0@;
                        assert(out@[x] == before[x]);
                    }
                }
                assert forall|x: int| 0 <= x < out@.len() implies exists|t: int|
                    0 <= t < i + 1 && (#[trigger] out@[x])@ == es@[t].0@ by {
                    if x < before.len() {
                        let t = choose|t: int| 0 <= t < i && before[x]@ == es@[t].0@;
                        assert(out@[x] == before[x]);
                    } else {
                        assert(out@[x]@ == es@[i as int].0@);
                    }
                }
            }
        }
        i = i + 1;
    }
    proof {
        let sv = crate::path::strings_view(out@);
        assert(sv.no_duplicates()) by {
            assert forall|x: int, y: int| 0 <= x < sv.len() && 0 <= y < sv.len() && x != y implies sv[x]
                != sv[y] by {
                if x < y {
                    assert(out@[x]@ != out@[y]@);
                } else {
                    assert(out@[y]@ != out@[x]@);
                }
            }
        }
        assert forall|k: Seq<char>| from@.contains_key(k) && !to@.contains_key(k) implies #[trigger] sv.contains(
            k,
        ) by {
            let t = choose|t: int| has_key_at(es@, k, t);
            let x = choose|x: int| 0 <= x < out@.len() && out@[x]@ == es@[t].0@;
            assert(sv[x] == k);
        }
    }
    out
}

/// The paths of `to` that `from` lacks.
fn added_paths(from: &PathSet, to: &PathSet) -> (r: Vec<String>)
    ensures
        lists_added(crate::path::strings_view(r@), from@, to@),
{
    let ps = to.paths();
    let mut out: Vec<String> = Vec::new();
    let mut i: usize = 0;
    while i < ps.len()
        invariant
            i <= ps@.len(),
            forall|a: int, b: int| 0 <= a < ps@.len() && 0 <= b < ps@.len() && a != b ==> ps@[a]@ != ps@[b]@,
            forall|a: int| 0 <= a < ps@.len() ==> to@.contains(#[trigger] ps@[a]@),
            forall|x: int, y: int| 0 <= x < y < out@.len() ==> out@[x]@ != out@[y]@,
            forall|x: int|
                0 <= x < out@.len() ==> exists|t: int| 0 <= t < i && (#[trigger] out@[x])@ == ps@[t]@,
            forall|x: int|
                0 <= x < out@.len() ==> to@.contains(#[trigger] out@[x]@) && !from@.contains(out@[x]@),
            forall|t: int|
                0 <= t < i && !from@.contains(#[trigger] ps@[t]@) ==> exists|x: int|
                    0 <= x < out@.len() && out@[x]@ == ps@[t]@,
        decreases ps@.len() - i,
    {
        if !from.contains(ps[i].as_str()) {
            let ghost before = out@;
            out.push(ps[i].clone());
            proof {
                assert forall|x: int, y: int| 0 <= x < y < out@.len() implies out@[x]@ != out@[y]@ by {
                    if y == out@.len() - 1 {
                        let t = choose|t: int| 0 <= t < i && before[x]@ == ps@[t]@;
                        assert(ps@[t]@ != ps@[i as int]@);
                    } else {
                        assert(before[x]@ != before[y]@);
                    }
                }
                assert forall|t: int| 0 <= t < i + 1 && !from@.contains(#[trigger] ps@[t]@) implies exists|
                    x: int,
                | 0 <= x < out@.len() && out@[x]@ == ps@[t]@ by {
                    if t == i {
                        assert(out@[out@.len() - 1]@ == ps@[t]@);
                    } else {
                        let x = choose|x: int| 0 <= x < before.len() && before[x]@ == ps@[t]@;
                        assert(out@[x] == before[x]);
                    }
                }
                assert forall|x: int| 0 <= x < out@.len() implies exists|t: int|
                    0 <= t < i + 1 && (#[trigger] out@[x])@ == ps@[t]@ by {
                    if x < before.len() {
                        let t = choose|t: int| 0 <= t < i && before[x]@ == ps@[t]@;
                        assert(out@[x] == before[x]);
                    } else {
                        assert(out@[x]@ == ps@[i as int]@);
                    }
                }
            }
        }
        i = i + 1;
    }
    proof {
        let sv = crate::path::strings_view(out@);
        assert(sv.no_duplicates()) by {
            assert forall|x: int, y: int| 0 <= x < sv.len() && 0 <= y < sv.len() && x != y implies sv[x]
                != sv[y] by {
                if x < y {
                    assert(out@[x]@ != out@[y]@);
                } else {
                    assert(out@[y]@ != out@[x]@);
                }
            }
        }
        assert forall|k: Seq<char>| to@.contains(k) && !from@.contains(k) implies #[trigger] sv.contains(k) by {
            let t = choose|t: int| 0 <= t < ps@.len() && ps@[t]@ == k;
            let x = choose|x: int| 0 <= x < out@.len() && out@[x]@ == ps@[t]@;
            assert(sv[x] == k);
        }
        assert forall|a: int| 0 <= a < sv.len() implies to@.contains(#[trigger] sv[a]) && !from@.contains(
            sv[a],
        ) by {
            assert(sv[a] == out@[a]@);
        }
    }
    out
}

/// The entries of `to` that are new or differ from `from`, with their values in `to`.
fn changed_values(from: &PropertyMap<Value>, to: &PropertyMap<Value>) -> (r: Vec<(String, PropertyValue)>)
    requires
        forall|k: Seq<char>| #[trigger] to@.contains_key(k) ==> is_leaf(to@[k]@),
    ensures
        lists_changed_values(pv_pairs(r@), value_models(from@), value_models(to@)),
{
    let es = to.entries();
    to.lemma_wf();
    proof {
        to.lemma_entries();
    }
    let ghost fm = value_models(from@);
    let ghost tm = value_models(to@);
    let mut out: Vec<(String, PropertyValue)> = Vec::new();
    let mut i: usize = 0;
    while i < es.len()
        invariant
            i <= es@.len(),
            keys_distinct(es@),
            to@ == entries_view(es@),
            fm == value_models(from@),
            tm == value_models(to@),
            forall|k: Seq<char>| #[trigger] to@.contains_key(k) ==> is_leaf(to@[k]@),
            forall|x: int, y: int| 0 <= x < y < out@.len() ==> out@[x].0@ != out@[y].0@,
            forall|x: int|
                0 <= x < out@.len() ==> exists|t: int| 0 <= t < i && (#[trigger] out@[x]).0@ == es@[t].0@,
            forall|x: int|
                0 <= x < out@.len() ==> value_changed(fm, tm, (#[trigger] out@[x]).0@) && out@[x].1@
                    == tm[out@[x].0@],
            forall|t: int|
                0 <= t < i && value_changed(fm, tm, (#[trigger] es@[t]).0@) ==> exists|x: int|
                    0 <= x < out@.len() && out@[x].0@ == es@[t].0@,
        decreases es@.len() - i,
    {
        proof {
            crate::prop_map::lemma_entry_in_view(es@, i as int);
        }
        let tv = &es[i].1;
        let unchanged = match from.get(es[i].0.as_str()) {
            Some(fv) => PropertyValue::are_matching_property_values(fv, tv),
            None => false,
        };
        assert(unchanged == !value_changed(fm, tm, es@[i as int].0@));
        if !unchanged {
            let ghost before = out@;
            let pv = tv.as_property_value().unwrap();
            out.push((es[i].0.clone(), pv));
            proof {
                assert forall|x: int, y: int| 0 <= x < y < out@.len() implies out@[x].0@ != out@[y].0@ by {
                    if y == out@.len() - 1 {
                        let t = choose|t: int| 0 <= t < i && before[x].0@ == es@[t].0@;
                        assert(es@[t].0@ != es@[i as int].0@);
                    } else {
                        assert(before[x].0@ != before[y].0@);
                    }
                }
                assert forall|t: int|
                    0 <= t < i + 1 && value_changed(fm, tm, (#[trigger] es@[t]).0@) implies exists|x: int|
                    0 <= x < out@.len() && out@[x].0@ == es@[t].0@ by {
                    if t == i {
                        assert(out@[out@.len() - 1].0@ == es@[t].0@);
                    } else {
                        let x = choose|x: int| 0 <= x < before.len() && before[x].0@ == es@[t].0@;
                        assert(out@[x] == before[x]);
                    }
                }
                assert forall|x: int| 0 <= x < out@.len() implies exists|t: int|
                    0 <= t < i + 1 && (#[trigger] out@[x]).0@ == es@[t].0@ by {
                    if x < before.len() {
                        let t = choose|t: int| 0 <= t < i && before[x].0@ == es@[t].0@;
                        assert(out@[x] == before[x]);
                    } else {
                        assert(out@[x].0@ == es@[i as int].0@);
                    }
                }
            }
        }
        i = i + 1;
    }
    proof {
        let sv = pv_pairs(out@);
        assert forall|x: int, y: int| 0 <= x < y < sv.len() implies #[trigger] sv[x].0 != #[trigger] sv[y].0 by {
            assert(out@[x].0@ != out@[y].0@);
        }
        assert forall|x: int| 0 <= x < sv.len() implies value_changed(fm, tm, (#[trigger] sv[x]).0) && sv[x].1
            == tm[sv[x].0] by {
            assert(sv[x] == (out@[x].0@, out@[x].1@));
        }
        assert forall|k: Seq<char>| #[trigger] value_changed(fm, tm, k) implies exists|x: int|
            0 <= x < sv.len() && sv[x].0 == k by {
            let t = choose|t: int| has_key_at(es@, k, t);
            let x = choose|x: int| 0 <= x < out@.len() && out@[x].0@ == es@[t].0@;
            assert(sv[x].0 == k);
        }
    }
    out
}

/// The entries of `to` that are new or differ from `from`, with their values in `to`.
fn changed_nulls(from: &PropertyMap<NullOverride>, to: &PropertyMap<NullOverride>) -> (r: Vec<(String, NullOverride)>)
    
    ensures
        lists_changed(null_pairs(r@), from@, to@),
{
    let es = to.entries();
    to.lemma_wf();
    proof {
        to.lemma_entries();
    }
    let ghost fm = from@;
    let ghost tm = to@;
    let mut out: Vec<(String, NullOverride)> = Vec::new();
    let mut i: usize = 0;
    while i < es.len()
        invariant
            i <= es@.len(),
            keys_distinct(es@),
            to@ == entries_view(es@),
            fm == from@,
            tm == to@,
            
            forall|x: int, y: int| 0 <= x < y < out@.len() ==> out@[x].0@ != out@[y].0@,
            forall|x: int|
                0 <= x < out@.len() ==> exists|t: int| 0 <= t < i && (#[trigger] out@[x]).0@ == es@[t].0@,
            forall|x: int|
                0 <= x < out@.len() ==> changed_key(fm, tm, (#[trigger] out@[x]).0@) && out@[x].1
                    == tm[out@[x].0@],
            forall|t: int|
                0 <= t < i && changed_key(fm, tm, (#[trigger] es@[t]).0@) ==> exists|x: int|
                    0 <= x < out@.len() && out@[x].0@ == es@[t].0@,
        decreases es@.len() - i,
    {
        proof {
            crate::prop_map::lemma_entry_in_view(es@, i as int);
        }
        let tv = &es[i].1;
        let unchanged = match from.get(es[i].0.as_str()) {
            Some(fv) => *fv == *tv,
            None => false,
        };
        assert(unchanged == !changed_key(fm, tm, es@[i as int].0@));
        if !unchanged {
            let ghost before = out@;
            let pv = *tv;
            out.push((es[i].0.clone(), pv));
            proof {
                assert forall|x: int, y: int| 0 <= x < y < out@.len() implies out@[x].0@ != out@[y].0@ by {
                    if y == out@.len() - 1 {
                        let t = choose|t: int| 0 <= t < i && before[x].0@ == es@[t].0@;
                        assert(es@[t].0@ != es@[i as int].0@);
                    } else {
                        assert(before[x].0@ != before[y].0@);
                    }
                }
                assert forall|t: int|
                    0 <= t < i + 1 && changed_key(fm, tm, (#[trigger] es@[t]).0@) implies exists|x: int|
                    0 <= x < out@.len() && out@[x].0@ == es@[t].0@ by {
                    if t == i {
                        assert(out@[out@.len() - 1].0@ == es@[t].0@);
                    } else {
                        let x = choose|x: int| 0 <= x < before.len() && before[x].0@ == es@[t].0@;
                        assert(out@[x] == before[x]);
                    }
                }
                assert forall|x: int| 0 <= x < out@.len() implies exists|t: int|
                    0 <= t < i + 1 && (#[trigger] out@[x]).0@ == es@[t].0@ by {
                    if x < before.len() {
                        let t = choose|t: int| 0 <= t < i && before[x].0@ == es@[t].0@;
                        assert(out@[x] == before[x]);
                    } else {
                        assert(out@[x].0@ == es@[i as int].0@);
                    }
                }
            }
        }
        i = i + 1;
    }
    proof {
        let sv = null_pairs(out@);
        assert forall|x: int, y: int| 0 <= x < y < sv.len() implies #[trigger] sv[x].0 != #[trigger] sv[y].0 by {
            assert(out@[x].0@ != out@[y].0@);
        }
        assert forall|x: int| 0 <= x < sv.len() implies changed_key(fm, tm, (#[trigger] sv[x]).0) && sv[x].1
            == tm[sv[x].0] by {
            assert(sv[x] == (out@[x].0@, out@[x].1));
        }
        assert forall|k: Seq<char>| #[trigger] changed_key(fm, tm, k) implies exists|x: int|
            0 <= x < sv.len() && sv[x].0 == k by {
            let t = choose|t: int| has_key_at(es@, k, t);
            let x = choose|x: int| 0 <= x < out@.len() && out@[x].0@ == es@[t].0@;
            assert(sv[x].0 == k);
        }
    }
    out
}

/// The entries of `to` that are new or differ from `from`, with their values in `to`.
fn changed_ids(from: &PropertyMap<AssetId>, to: &PropertyMap<AssetId>) -> (r: Vec<(String, AssetId)>)
    
    ensures
        lists_changed(id_pairs(r@), from@, to@),
{
    let es = to.entries();
    to.lemma_wf();
    proof {
        to.lemma_entries();
    }
    let ghost fm = from@;
    let ghost tm = to@;
    let mut out: Vec<(String, AssetId)> = Vec::new();
    let mut i: usize = 0;
    while i < es.len()
        invariant
            i <= es@.len(),
            keys_distinct(es@),
            to@ == entries_view(es@),
            fm == from@,
            tm == to@,
            
            forall|x: int, y: int| 0 <= x < y < out@.len() ==> out@[x].0@ != out@[y].0@,
            forall|x: int|
                0 <= x < out@.len() ==> exists|t: int| 0 <= t < i && (#[trigger] out@[x]).0@ == es@[t].0@,
            forall|x: int|
                0 <= x < out@.len() ==> changed_key(fm, tm, (#[trigger] out@[x]).0@) && out@[x].1
                    == tm[out@[x].0@],
            forall|t: int|
                0 <= t < i && changed_key(fm, tm, (#[trigger] es@[t]).0@) ==> exists|x: int|
                    0 <= x < out@.len() && out@[x].0@ == es@[t].0@,
        decreases es@.len() - i,
    {
        proof {
            crate::prop_map::lemma_entry_in_view(es@, i as int);
        }
        let tv = &es[i].1;
        let unchanged = match from.get(es[i].0.as_str()) {
            Some(fv) => *fv == *tv,
            None => false,
        };
        assert(unchanged == !changed_key(fm, tm, es@[i as int].0@));
        if !unchanged {
            let ghost before = out@;
            let pv = *tv;
            out.push((es[i].0.clone(), pv));
            proof {
                assert forall|x: int, y: int| 0 <= x < y < out@.len() implies out@[x].0@ != out@[y].0@ by {
                    if y == out@.len() - 1 {
                        let t = choose|t: int| 0 <= t < i && before[x].0@ == es@[t].0@;
                        assert(es@[t].0@ != es@[i as int].0@);
                    } else {
                        assert(before[x].0@ != before[y].0@);
                    }
                }
                assert forall|t: int|
                    0 <= t < i + 1 && changed_key(fm, tm, (#[trigger] es@[t]).0@) implies exists|x: int|
                    0 <= x < out@.len() && out@[x].0@ == es@[t].0@ by {
                    if t == i {
                        assert(out@[out@.len() - 1].0@ == es@[t].0@);
                    } else {
                        let x = choose|x: int| 0 <= x < before.len() && before[x].0@ == es@[t].0@;
                        assert(out@[x] == before[x]);
                    }
                }
                assert forall|x: int| 0 <= x < out@.len() implies exists|t: int|
                    0 <= t < i + 1 && (#[trigger] out@[x]).0@ == es@[t].0@ by {
                    if x < before.len() {
                        let t = choose|t: int| 0 <= t < i && before[x].0@ == es@[t].0@;
                        assert(out@[x] == before[x]);
                    } else {
                        assert(out@[x].0@ == es@[i as int].0@);
                    }
                }
            }
        }
        i = i + 1;
    }
    proof {
        let sv = id_pairs(out@);
        assert forall|x: int, y: int| 0 <= x < y < sv.len() implies #[trigger] sv[x].0 != #[trigger] sv[y].0 by {
            assert(out@[x].0@ != out@[y].0@);
        }
        assert forall|x: int| 0 <= x < sv.len() implies changed_key(fm, tm, (#[trigger] sv[x]).0) && sv[x].1
            == tm[sv[x].0] by {
            assert(sv[x] == (out@[x].0@, out@[x].1));
        }
        assert forall|k: Seq<char>| #[trigger] changed_key(fm, tm, k) implies exists|x: int|
            0 <= x < sv.len() && sv[x].0 == k by {
            let t = choose|t: int| has_key_at(es@, k, t);
            let x = choose|x: int| 0 <= x < out@.len() && out@[x].0@ == es@[t].0@;
            assert(sv[x].0 == k);
        }
    }
    out
}

fn ids_eq(a: &Vec<u128>, b: &Vec<u128>) -> (r: bool)
    ensures
        r == (a@ == b@),
{
    if a.len() != b.len() {
        return false;
    }
    let mut i: usize = 0;
    while i < a.len()
        invariant
            a@.len() == b@.len(),
            i <= a@.len(),
            forall|j: int| 0 <= j < i ==> a@[j] == b@[j],
        decreases a@.len() - i,
    {
        if a[i] != b[i] {
            return false;
        }
        i = i + 1;
    }
    assert(a@ =~= b@);
    true
}

/// The entry list of `path` as a new set (empty when the path is absent).
fn entries_copy(m: &PropertyMap<OrderedSet>, path: &str) -> (r: OrderedSet)
    ensures
        r@ == entries_at(crate::data_set::entry_models(m@), path@),
{
    match m.get(path) {
        Some(e) => e.copy_set(),
        None => OrderedSet::new(),
    }
}

/// The paths whose entry lists differ between `b` and `a`: the deltas from `b` to `a`
/// and those from `a` back to `b`.
fn entry_deltas(b: &PropertyMap<OrderedSet>, a: &PropertyMap<OrderedSet>) -> (r: (
    Vec<DynamicArrayEntryDelta>,
    Vec<DynamicArrayEntryDelta>,
))
    ensures
        lists_delta(
            delta_pairs(r.0@),
            crate::data_set::entry_models(b@),
            crate::data_set::entry_models(a@),
        ),
        lists_delta(
            delta_pairs(r.1@),
            crate::data_set::entry_models(a@),
            crate::data_set::entry_models(b@),
        ),
{
    let ghost bm = crate::data_set::entry_models(b@);
    let ghost am = crate::data_set::entry_models(a@);
    let bes = b.entries();
    let aes = a.entries();
    b.lemma_wf();
    a.lemma_wf();
    proof {
        b.lemma_entries();
        a.lemma_entries();
    }
    let mut out_a: Vec<DynamicArrayEntryDelta> = Vec::new();
    let mut out_r: Vec<DynamicArrayEntryDelta> = Vec::new();
    let mut i: usize = 0;
    while i < bes.len()
        invariant
            i <= bes@.len(),
            keys_distinct(bes@),
            b@ == entries_view(bes@),
            bm == crate::data_set::entry_models(b@),
            am == crate::data_set::entry_models(a@),
            out_a@.len() == out_r@.len(),
            forall|x: int| 0 <= x < out_a@.len() ==> (#[trigger] out_a@[x]).key@ == out_r@[x].key@,
            forall|x: int, y: int| 0 <= x < y < out_a@.len() ==> out_a@[x].key@ != out_a@[y].key@,
            forall|x: int|
                0 <= x < out_a@.len() ==> entries_at(bm, (#[trigger] out_a@[x]).key@) != entries_at(
                    am,
                    out_a@[x].key@,
                ) && out_a@[x].entries@ == entries_at(am, out_a@[x].key@) && out_r@[x].entries@
                    == entries_at(bm, out_a@[x].key@),
            forall|x: int|
                0 <= x < out_a@.len() ==> exists|t: int|
                    0 <= t < i && (#[trigger] out_a@[x]).key@ == bes@[t].0@,
            forall|t: int|
                0 <= t < i && entries_at(bm, (#[trigger] bes@[t]).0@) != entries_at(am, bes@[t].0@)
                    ==> exists|x: int| 0 <= x < out_a@.len() && out_a@[x].key@ == bes@[t].0@,
        decreases bes@.len() - i,
    {
        proof {
            crate::prop_map::lemma_entry_in_view(bes@, i as int);
        }
        let k = bes[i].0.as_str();
        let old_e = entries_copy(b, k);
        let new_e = entries_copy(a, k);
        if !ids_eq(old_e.as_vec(), new_e.as_vec()) {
            let ghost ba = out_a@;
            let ghost br = out_r@;
            out_a.push(DynamicArrayEntryDelta { key: bes[i].0.clone(), entries: new_e });
            out_r.push(DynamicArrayEntryDelta { key: bes[i].0.clone(), entries: old_e });
            proof {
                assert forall|x: int, y: int| 0 <= x < y < out_a@.len() implies out_a@[x].key@
                    != out_a@[y].key@ by {
                    if y == out_a@.len() - 1 {
                        let t = choose|t: int| 0 <= t < i && ba[x].key@ == bes@[t].0@;
                        assert(bes@[t].0@ != bes@[i as int].0@);
                    } else {
                        assert(ba[x].key@ != ba[y].key@);
                    }
                }
                assert forall|t: int|
                    0 <= t < i + 1 && entries_at(bm, (#[trigger] bes@[t]).0@) != entries_at(
                        am,
                        bes@[t].0@,
                    ) implies exists|x: int|
                    0 <= x < out_a@.len() && out_a@[x].key@ == bes@[t].0@ by {
                    if t == i {
                        assert(out_a@[out_a@.len() - 1].key@ == bes@[t].0@);
                    } else {
                        let x = choose|x: int| 0 <= x < ba.len() && ba[x].key@ == bes@[t].0@;
                        assert(out_a@[x] == ba[x]);
                    }
                }
                assert forall|x: int| 0 <= x < out_a@.len() implies exists|t: int|
                    0 <= t < i + 1 && (#[trigger] out_a@[x]).key@ == bes@[t].0@ by {
                    if x < ba.len() {
                        let t = choose|t: int| 0 <= t < i && ba[x].key@ == bes@[t].0@;
                        assert(out_a@[x] == ba[x]);
                    } else {
                        assert(out_a@[x].key@ == bes@[i as int].0@);
                    }
                }
                assert forall|x: int| 0 <= x < out_a@.len() implies (#[trigger] out_a@[x]).key@
                    == out_r@[x].key@ by {
                    if x < ba.len() {
                        assert(out_a@[x] == ba[x]);
                        assert(out_r@[x] == br[x]);
                    }
                }
                assert forall|x: int| 0 <= x < out_a@.len() implies entries_at(
                    bm,
                    (#[trigger] out_a@[x]).key@,
                ) != entries_at(am, out_a@[x].key@) && out_a@[x].entries@ == entries_at(
                    am,
                    out_a@[x].key@,
                ) && out_r@[x].entries@ == entries_at(bm, out_a@[x].key@) by {
                    if x < ba.len() {
                        assert(out_a@[x] == ba[x]);
                        assert(out_r@[x] == br[x]);
                    }
                }
            }
        }
        i = i + 1;
    }
    let mut j: usize = 0;
    while j < aes.len()
        invariant
            j <= aes@.len(),
            keys_distinct(aes@),
            a@ == entries_view(aes@),
            keys_distinct(bes@),
            b@ == entries_view(bes@),
            bm == crate::data_set::entry_models(b@),
            am == crate::data_set::entry_models(a@),
            out_a@.len() == out_r@.len(),
            forall|x: int| 0 <= x < out_a@.len() ==> (#[trigger] out_a@[x]).key@ == out_r@[x].key@,
            forall|x: int, y: int| 0 <= x < y < out_a@.len() ==> out_a@[x].key@ != out_a@[y].key@,
            forall|x: int|
                0 <= x < out_a@.len() ==> entries_at(bm, (#[trigger] out_a@[x]).key@) != entries_at(
                    am,
                    out_a@[x].key@,
                ) && out_a@[x].entries@ == entries_at(am, out_a@[x].key@) && out_r@[x].entries@
                    == entries_at(bm, out_a@[x].key@),
            forall|x: int|
                0 <= x < out_a@.len() ==> b@.contains_key((#[trigger] out_a@[x]).key@) || exists|
                    t: int,
                | 0 <= t < j && out_a@[x].key@ == aes@[t].0@,
            forall|t: int|
                0 <= t < bes@.len() && entries_at(bm, (#[trigger] bes@[t]).0@) != entries_at(
                    am,
                    bes@[t].0@,
                ) ==> exists|x: int| 0 <= x < out_a@.len() && out_a@[x].key@ == bes@[t].0@,
            forall|t: int|
                0 <= t < j && entries_at(bm, (#[trigger] aes@[t]).0@) != entries_at(am, aes@[t].0@)
                    ==> exists|x: int| 0 <= x < out_a@.len() && out_a@[x].key@ == aes@[t].0@,
        decreases aes@.len() - j,
    {
        proof {
            crate::prop_map::lemma_entry_in_view(aes@, j as int);
        }
        let k = aes[j].0.as_str();
        if !b.contains_key(k) {
            let old_e = entries_copy(b, k);
            let new_e = entries_copy(a, k);
            if !ids_eq(old_e.as_vec(), new_e.as_vec()) {
                let ghost ba = out_a@;
                let ghost br = out_r@;
                out_a.push(DynamicArrayEntryDelta { key: aes[j].0.clone(), entries: new_e });
                out_r.push(DynamicArrayEntryDelta { key: aes[j].0.clone(), entries: old_e });
                proof {
                    assert forall|x: int, y: int| 0 <= x < y < out_a@.len() implies out_a@[x].key@
                        != out_a@[y].key@ by {
                        if y == out_a@.len() - 1 {
                            if !b@.contains_key(ba[x].key@) {
                                let t = choose|t: int| 0 <= t < j && ba[x].key@ == aes@[t].0@;
                                assert(aes@[t].0@ != aes@[j as int].0@);
                            }
                        } else {
                            assert(ba[x].key@ != ba[y].key@);
                        }
                    }
                    assert forall|t: int|
                        0 <= t < j + 1 && entries_at(bm, (#[trigger] aes@[t]).0@) != entries_at(
                            am,
                            aes@[t].0@,
                        ) implies exists|x: int|
                        0 <= x < out_a@.len() && out_a@[x].key@ == aes@[t].0@ by {
                        if t == j {
                            assert(out_a@[out_a@.len() - 1].key@ == aes@[t].0@);
                        } else {
                            let x = choose|x: int| 0 <= x < ba.len() && ba[x].key@ == aes@[t].0@;
                            assert(out_a@[x] == ba[x]);
                        }
                    }
                    assert forall|t: int|
                        0 <= t < bes@.len() && entries_at(bm, (#[trigger] bes@[t]).0@) != entries_at(
                            am,
                            bes@[t].0@,
                        ) implies exists|x: int|
                        0 <= x < out_a@.len() && out_a@[x].key@ == bes@[t].0@ by {
                        let x = choose|x: int| 0 <= x < ba.len() && ba[x].key@ == bes@[t].0@;
                        assert(out_a@[x] == ba[x]);
                    }
                    assert forall|x: int| 0 <= x < out_a@.len() implies b@.contains_key(
                        (#[trigger] out_a@[x]).key@,
                    ) || exists|t: int| 0 <= t < j + 1 && out_a@[x].key@ == aes@[t].0@ by {
                        if x < ba.len() {
                            assert(out_a@[x] == ba[x]);
                        } else {
                            assert(out_a@[x].key@ == aes@[j as int].0@);
                        }
                    }
                    assert forall|x: int| 0 <= x < out_a@.len() implies (#[trigger] out_a@[x]).key@
                        == out_r@[x].key@ by {
                        if x < ba.len() {
                            assert(out_a@[x] == ba[x]);
                            assert(out_r@[x] == br[x]);
                        }
                    }
                    assert forall|x: int| 0 <= x < out_a@.len() implies entries_at(
                        bm,
                        (#[trigger] out_a@[x]).key@,
                    ) != entries_at(am, out_a@[x].key@) && out_a@[x].entries@ == entries_at(
                        am,
                        out_a@[x].key@,
                    ) && out_r@[x].entries@ == entries_at(bm, out_a@[x].key@) by {
                        if x < ba.len() {
                            assert(out_a@[x] == ba[x]);
                            assert(out_r@[x] == br[x]);
                        }
                    }
                }
            }
        } else {
            proof {
                let t = choose|t: int| has_key_at(bes@, aes@[j as int].0@, t);
                assert(bes@[t].0@ == aes@[j as int].0@);
            }
        }
        j = j + 1;
    }
    proof {
        let da = delta_pairs(out_a@);
        let dr = delta_pairs(out_r@);
        assert forall|x: int| 0 <= x < out_a@.len() implies (#[trigger] da[x]) == (
            out_a@[x].key@,
            out_a@[x].entries@,
        ) && dr[x] == (out_r@[x].key@, out_r@[x].entries@) by {}
        assert forall|x: int, y: int| 0 <= x < y < da.len() implies #[trigger] da[x].0 != #[trigger] da[y].0 by {
            assert(da[x].0 == out_a@[x].key@);
            assert(da[y].0 == out_a@[y].key@);
        }
        assert forall|x: int, y: int| 0 <= x < y < dr.len() implies #[trigger] dr[x].0 != #[trigger] dr[y].0 by {
            assert(dr[x].0 == out_a@[x].key@);
            assert(dr[y].0 == out_a@[y].key@);
        }
        assert forall|x: int| 0 <= x < da.len() implies entries_at(bm, (#[trigger] da[x]).0)
            != entries_at(am, da[x].0) && da[x].1 == entries_at(am, da[x].0) by {
            assert(da[x] == (out_a@[x].key@, out_a@[x].entries@));
        }
        assert forall|x: int| 0 <= x < dr.len() implies entries_at(am, (#[trigger] dr[x]).0)
            != entries_at(bm, dr[x].0) && dr[x].1 == entries_at(bm, dr[x].0) by {
            assert(dr[x] == (out_r@[x].key@, out_r@[x].entries@));
            assert(out_r@[x].key@ == out_a@[x].key@);
        }
        assert forall|k: Seq<char>| #[trigger] entries_at(bm, k) != entries_at(am, k) implies exists|
            x: int,
        | 0 <= x < da.len() && da[x].0 == k by {
            if b@.contains_key(k) {
                let t = choose|t: int| has_key_at(bes@, k, t);
                let x = choose|x: int| 0 <= x < out_a@.len() && out_a@[x].key@ == bes@[t].0@;
                assert(da[x].0 == k);
            } else {
                assert(bm.contains_key(k) == b@.contains_key(k));
                assert(a@.contains_key(k));
                let t = choose|t: int| has_key_at(aes@, k, t);
                let x = choose|x: int| 0 <= x < out_a@.len() && out_a@[x].key@ == aes@[t].0@;
                assert(da[x].0 == k);
            }
        }
        assert forall|k: Seq<char>| #[trigger] entries_at(am, k) != entries_at(bm, k) implies exists|
            x: int,
        | 0 <= x < dr.len() && dr[x].0 == k by {
            assert(entries_at(bm, k) != entries_at(am, k));
            let x = choose|x: int| 0 <= x < da.len() && da[x].0 == k;
            assert(dr[x].0 == out_r@[x].key@);
        }
    }
    (out_a, out_r)
}

/// Every value of the map is a leaf value.
pub open spec fn all_leaves(props: Map<Seq<char>, ValueModel>) -> bool {
    forall|k: Seq<char>| #[trigger] props.contains_key(k) ==> is_leaf(props[k])
}

/// The modified locations after a change of an asset that was at `from` and is at `to`:
/// `to` is added, and `from` too when the asset moved (each only when not listed yet).
pub open spec fn note_locations(s: Seq<u128>, from: u128, to: u128) -> Seq<u128> {
    let s1 = if s.contains(to) {
        s
    } else {
        s.push(to)
    };
    if from != to && !s1.contains(from) {
        s1.push(from)
    } else {
        s1
    }
}

proof fn lemma_removed_models(s: Seq<Seq<char>>, b: Map<Seq<char>, Value>, a: Map<Seq<char>, Value>)
    requires
        s.no_duplicates(),
        forall|i: int| 0 <= i < s.len() ==> b.contains_key(#[trigger] s[i]) && !a.contains_key(s[i]),
        forall|k: Seq<char>| b.contains_key(k) && !a.contains_key(k) ==> #[trigger] s.contains(k),
    ensures
        lists_removed(s, value_models(b), value_models(a)),
{
    assert(value_models(b).dom() =~= b.dom());
    assert(value_models(a).dom() =~= a.dom());
}

/// The diff from one state of an asset to another, and the diff back.
pub struct AssetDiffSet {
    pub apply_diff: AssetDiff,
    pub revert_diff: AssetDiff,
}

impl AssetDiffSet {
    pub fn has_changes(&self) -> (r: bool)
        ensures
            r == diff_has_changes(self.apply_diff@),
    {
        self.apply_diff.has_changes()
    }

    /// The diffs between asset `before_asset_id` of `before_data_set` and asset
    /// `after_asset_id` of `after_data_set` (which must have the same schema and hold only
    /// leaf property values): `apply_diff` turns the first into the second and
    /// `revert_diff` the second into the first. When there is a change, the asset's new
    /// location (and its old one, when it moved) is added to `modified_locations`.
    pub fn diff_assets(
        before_data_set: &DataSet,
        before_asset_id: AssetId,
        after_data_set: &DataSet,
        after_asset_id: AssetId,
        modified_locations: &mut OrderedSet,
    ) -> (r: AssetDiffSet)
        requires
            before_data_set@.contains_key(before_asset_id.0),
            after_data_set@.contains_key(after_asset_id.0),
            before_data_set@[before_asset_id.0].schema == after_data_set@[after_asset_id.0].schema,
            all_leaves(before_data_set@[before_asset_id.0].properties),
            all_leaves(after_data_set@[after_asset_id.0].properties),
        ensures
            describes_diff(
                r.apply_diff@,
                before_data_set@[before_asset_id.0],
                after_data_set@[after_asset_id.0],
            ),
            describes_diff(
                r.revert_diff@,
                after_data_set@[after_asset_id.0],
                before_data_set@[before_asset_id.0],
            ),
            final(modified_locations)@ == if diff_has_changes(r.apply_diff@) {
                note_locations(
                    old(modified_locations)@,
                    before_data_set@[before_asset_id.0].location,
                    after_data_set@[after_asset_id.0].location,
                )
            } else {
                old(modified_locations)@
            },
    {
        let b = before_data_set.assets().get(&before_asset_id.0).unwrap();
        let a = after_data_set.assets().get(&after_asset_id.0).unwrap();
        let ghost bm = b@;
        let ghost am = a@;
        let mut apply_diff = AssetDiff::new();
        let mut revert_diff = AssetDiff::new();
        if !(b.asset_name() == a.asset_name()) {
            apply_diff.set_name = Some(a.asset_name().clone());
            revert_diff.set_name = Some(b.asset_name().clone());
        }
        let bl = *b.asset_location();
        let al = *a.asset_location();
        if bl.path_node_id.0 != al.path_node_id.0 {
            apply_diff.set_location = Some(al);
            revert_diff.set_location = Some(bl);
        }
        let bp = b.prototype();
        let ap = a.prototype();
        let same_prototype = match (bp, ap) {
            (Some(x), Some(y)) => x.0 == y.0,
            (None, None) => true,
            _ => false,
        };
        if !same_prototype {
            apply_diff.set_prototype = Some(ap);
            revert_diff.set_prototype = Some(bp);
        }
        let bprops = b.properties();
        let aprops = a.properties();
        proof {
            assert forall|k: Seq<char>| #[trigger] aprops@.contains_key(k) implies is_leaf(
                aprops@[k]@,
            ) by {
                assert(am.properties.contains_key(k));
                assert(am.properties[k] == aprops@[k]@);
            }
            assert forall|k: Seq<char>| #[trigger] bprops@.contains_key(k) implies is_leaf(
                bprops@[k]@,
            ) by {
                assert(bm.properties.contains_key(k));
                assert(bm.properties[k] == bprops@[k]@);
            }
        }
        apply_diff.set_properties = changed_values(bprops, aprops);
        revert_diff.set_properties = changed_values(aprops, bprops);
        apply_diff.remove_properties = removed_keys(bprops, aprops);
        revert_diff.remove_properties = removed_keys(aprops, bprops);
        proof {
            lemma_removed_models(
                crate::path::strings_view(apply_diff.remove_properties@),
                bprops@,
                aprops@,
            );
            lemma_removed_models(
                crate::path::strings_view(revert_diff.remove_properties@),
                aprops@,
                bprops@,
            );
        }
        apply_diff.set_null_overrides = changed_nulls(
            b.property_null_overrides(),
            a.property_null_overrides(),
        );
        revert_diff.set_null_overrides = changed_nulls(
            a.property_null_overrides(),
            b.property_null_overrides(),
        );
        apply_diff.remove_null_overrides = removed_keys(
            b.property_null_overrides(),
            a.property_null_overrides(),
        );
        revert_diff.remove_null_overrides = removed_keys(
            a.property_null_overrides(),
            b.property_null_overrides(),
        );
        let added = added_paths(b.properties_in_replace_mode(), a.properties_in_replace_mode());
        let dropped = added_paths(a.properties_in_replace_mode(), b.properties_in_replace_mode());
        apply_diff.add_properties_in_replace_mode = crate::data_set::copy_strings_pub(&added);
        apply_diff.remove_properties_in_replace_mode = crate::data_set::copy_strings_pub(&dropped);
        revert_diff.add_properties_in_replace_mode = dropped;
        revert_diff.remove_properties_in_replace_mode = added;
        let (deltas_apply, deltas_revert) = entry_deltas(
            b.dynamic_array_entries(),
            a.dynamic_array_entries(),
        );
        apply_diff.dynamic_array_entry_deltas = deltas_apply;
        revert_diff.dynamic_array_entry_deltas = deltas_revert;
        let bf = &b.build_info().file_reference_overrides;
        let af = &a.build_info().file_reference_overrides;
        apply_diff.set_file_references = changed_ids(bf, af);
        revert_diff.set_file_references = changed_ids(af, bf);
        apply_diff.remove_file_references = removed_keys(bf, af);
        revert_diff.remove_file_references = removed_keys(af, bf);
        if apply_diff.has_changes() {
            modified_locations.try_insert_at_end(al.path_node_id.0);
            if bl.path_node_id.0 != al.path_node_id.0 {
                modified_locations.try_insert_at_end(bl.path_node_id.0);
            }
        }
        AssetDiffSet { apply_diff, revert_diff }
    }
}

proof fn lemma_insert_all<V>(m: Map<Seq<char>, V>, s: Seq<(Seq<char>, V)>, k: Seq<char>)
    requires
        forall|i: int, j: int| 0 <= i < j < s.len() ==> #[trigger] s[i].0 != #[trigger] s[j].0,
    ensures
        (exists|i: int| 0 <= i < s.len() && s[i].0 == k) ==> ({
            let i = choose|i: int| 0 <= i < s.len() && s[i].0 == k;
            insert_all(m, s).contains_key(k) && insert_all(m, s)[k] == s[i].1
        }),
        !(exists|i: int| 0 <= i < s.len() && s[i].0 == k) ==> (insert_all(m, s).contains_key(k)
            == m.contains_key(k) && (m.contains_key(k) ==> insert_all(m, s)[k] == m[k])),
    decreases s.len(),
{
    if s.len() > 0 {
        let p = s.drop_last();
        lemma_insert_all(m, p, k);
        if exists|i: int| 0 <= i < s.len() && s[i].0 == k {
            let i = choose|i: int| 0 <= i < s.len() && s[i].0 == k;
            if i < s.len() - 1 {
                assert(p[i].0 == k);
                let i2 = choose|i: int| 0 <= i < p.len() && p[i].0 == k;
                if i2 != i {
                    if i2 < i {
                        assert(s[i2].0 != s[i].0);
                    } else {
                        assert(s[i].0 != s[i2].0);
                    }
                }
                assert(s.last().0 != k) by {
                    assert(s[i].0 != s[s.len() - 1].0);
                }
            }
        } else {
            assert forall|i: int| 0 <= i < p.len() implies p[i].0 != k by {
                assert(s[i].0 != k);
            }
        }
    }
}

proof fn lemma_remove_all<V>(m: Map<Seq<char>, V>, s: Seq<Seq<char>>, k: Seq<char>)
    ensures
        remove_all(m, s).contains_key(k) == (m.contains_key(k) && !s.contains(k)),
        remove_all(m, s).contains_key(k) ==> remove_all(m, s)[k] == m[k],
    decreases s.len(),
{
    if s.len() > 0 {
        lemma_remove_all(m, s.drop_last(), k);
        if s.drop_last().contains(k) {
            let i = choose|i: int| 0 <= i < s.drop_last().len() && s.drop_last()[i] == k;
            assert(s[i] == k);
        }
        if s.contains(k) && s.last() != k {
            let i = choose|i: int| 0 <= i < s.len() && s[i] == k;
            assert(s.drop_last()[i] == k);
        }
        if s.last() == k {
            assert(s[s.len() - 1] == k);
        }
    }
}

proof fn lemma_set_insert_all(s0: Set<Seq<char>>, s: Seq<Seq<char>>, k: Seq<char>)
    ensures
        set_insert_all(s0, s).contains(k) == (s0.contains(k) || s.contains(k)),
    decreases s.len(),
{
    if s.len() > 0 {
        lemma_set_insert_all(s0, s.drop_last(), k);
        if s.drop_last().contains(k) {
            let i = choose|i: int| 0 <= i < s.drop_last().len() && s.drop_last()[i] == k;
            assert(s[i] == k);
        }
        if s.contains(k) && s.last() != k {
            let i = choose|i: int| 0 <= i < s.len() && s[i] == k;
            assert(s.drop_last()[i] == k);
        }
        if s.last() == k {
            assert(s[s.len() - 1] == k);
        }
    }
}

proof fn lemma_set_remove_all(s0: Set<Seq<char>>, s: Seq<Seq<char>>, k: Seq<char>)
    ensures
        set_remove_all(s0, s).contains(k) == (s0.contains(k) && !s.contains(k)),
    decreases s.len(),
{
    if s.len() > 0 {
        lemma_set_remove_all(s0, s.drop_last(), k);
        if s.drop_last().contains(k) {
            let i = choose|i: int| 0 <= i < s.drop_last().len() && s.drop_last()[i] == k;
            assert(s[i] == k);
        }
        if s.contains(k) && s.last() != k {
            let i = choose|i: int| 0 <= i < s.len() && s[i] == k;
            assert(s.drop_last()[i] == k);
        }
        if s.last() == k {
            assert(s[s.len() - 1] == k);
        }
    }
}

proof fn lemma_apply_deltas(m: Map<Seq<char>, Seq<u128>>, s: Seq<(Seq<char>, Seq<u128>)>, k: Seq<char>)
    requires
        forall|i: int, j: int| 0 <= i < j < s.len() ==> #[trigger] s[i].0 != #[trigger] s[j].0,
    ensures
        (exists|i: int| 0 <= i < s.len() && s[i].0 == k) ==> entries_at(apply_deltas(m, s), k)
            == s[choose|i: int| 0 <= i < s.len() && s[i].0 == k].1,
        !(exists|i: int| 0 <= i < s.len() && s[i].0 == k) ==> entries_at(apply_deltas(m, s), k)
            == entries_at(m, k),
    decreases s.len(),
{
    if s.len() > 0 {
        let p = s.drop_last();
        lemma_apply_deltas(m, p, k);
        if exists|i: int| 0 <= i < s.len() && s[i].0 == k {
            let i = choose|i: int| 0 <= i < s.len() && s[i].0 == k;
            if i < s.len() - 1 {
                assert(p[i].0 == k);
                let i2 = choose|i: int| 0 <= i < p.len() && p[i].0 == k;
                if i2 != i {
                    if i2 < i {
                        assert(s[i2].0 != s[i].0);
                    } else {
                        assert(s[i].0 != s[i2].0);
                    }
                }
                assert(s.last().0 != k) by {
                    assert(s[i].0 != s[s.len() - 1].0);
                }
            }
        } else {
            assert forall|i: int| 0 <= i < p.len() implies p[i].0 != k by {
                assert(s[i].0 != k);
            }
        }
    }
}

/// Inserting the changed entries and removing the removed keys turns `b` into `a`.
proof fn lemma_map_diff<V>(b: Map<Seq<char>, V>, a: Map<Seq<char>, V>, set_s: Seq<(Seq<char>, V)>, rem_s: Seq<Seq<char>>)
    requires
        lists_changed(set_s, b, a),
        lists_removed(rem_s, b, a),
    ensures
        remove_all(insert_all(b, set_s), rem_s) == a,
{
    let r = remove_all(insert_all(b, set_s), rem_s);
    assert forall|k: Seq<char>| r.contains_key(k) <==> a.contains_key(k) by {
        lemma_insert_all(b, set_s, k);
        lemma_remove_all(insert_all(b, set_s), rem_s, k);
        if rem_s.contains(k) {
            let i = choose|i: int| 0 <= i < rem_s.len() && rem_s[i] == k;
        }
        if exists|i: int| 0 <= i < set_s.len() && set_s[i].0 == k {
            let i = choose|i: int| 0 <= i < set_s.len() && set_s[i].0 == k;
            assert(changed_key(b, a, set_s[i].0));
        }
        if a.contains_key(k) && !b.contains_key(k) {
            assert(changed_key(b, a, k));
        }
        if b.contains_key(k) && !a.contains_key(k) {
            assert(rem_s.contains(k));
        }
    }
    assert forall|k: Seq<char>| #[trigger] r.contains_key(k) implies r[k] == a[k] by {
        lemma_insert_all(b, set_s, k);
        lemma_remove_all(insert_all(b, set_s), rem_s, k);
        if exists|i: int| 0 <= i < set_s.len() && set_s[i].0 == k {
            let i = choose|i: int| 0 <= i < set_s.len() && set_s[i].0 == k;
            assert(changed_key(b, a, set_s[i].0));
        } else {
            if !(b.contains_key(k) && b[k] == a[k]) {
                assert(changed_key(b, a, k));
            }
        }
    }
    assert(r =~= a);
}

/// Some pair of `s` has key `k`.
pub open spec fn has_pair_key<V>(s: Seq<(Seq<char>, V)>, k: Seq<char>) -> bool {
    exists|i: int| 0 <= i < s.len() && s[i].0 == k
}

/// On a key that `s` sets, inserting `s` gives the same value whatever the map.
proof fn lemma_insert_all_on_key<V>(x: Map<Seq<char>, V>, y: Map<Seq<char>, V>, s: Seq<(Seq<char>, V)>, k: Seq<char>)
    requires
        has_pair_key(s, k),
    ensures
        insert_all(x, s).contains_key(k),
        insert_all(y, s).contains_key(k),
        insert_all(x, s)[k] == insert_all(y, s)[k],
    decreases s.len(),
{
    if s.last().0 != k {
        let i = choose|i: int| 0 <= i < s.len() && s[i].0 == k;
        assert(s.drop_last()[i].0 == k);
        lemma_insert_all_on_key(x, y, s.drop_last(), k);
    }
}

/// Off the keys that `s` sets, inserting `s` leaves the map as it is.
proof fn lemma_insert_all_off_key<V>(x: Map<Seq<char>, V>, s: Seq<(Seq<char>, V)>, k: Seq<char>)
    requires
        !has_pair_key(s, k),
    ensures
        insert_all(x, s).contains_key(k) == x.contains_key(k),
        x.contains_key(k) ==> insert_all(x, s)[k] == x[k],
    decreases s.len(),
{
    if s.len() > 0 {
        assert(s[s.len() - 1].0 == s.last().0);
        assert forall|i: int| 0 <= i < s.drop_last().len() implies s.drop_last()[i].0 != k by {
            assert(s[i].0 != k);
        }
        lemma_insert_all_off_key(x, s.drop_last(), k);
    }
}

/// Setting and removing the same keys a second time changes nothing.
proof fn lemma_set_remove_twice<V>(m: Map<Seq<char>, V>, s: Seq<(Seq<char>, V)>, r: Seq<Seq<char>>)
    ensures
        remove_all(insert_all(remove_all(insert_all(m, s), r), s), r) == remove_all(insert_all(m, s), r),
{
    let once = remove_all(insert_all(m, s), r);
    let twice = remove_all(insert_all(once, s), r);
    assert forall|k: Seq<char>| #![trigger twice.dom().contains(k)] #![trigger once.dom().contains(k)]
        twice.dom().contains(k) == once.dom().contains(k) && (twice.dom().contains(k) ==> twice[k]
        == once[k]) by {
        lemma_remove_all(insert_all(once, s), r, k);
        lemma_remove_all(insert_all(m, s), r, k);
        if has_pair_key(s, k) {
            lemma_insert_all_on_key(once, m, s, k);
        } else {
            lemma_insert_all_off_key(once, s, k);
            lemma_insert_all_off_key(m, s, k);
            lemma_remove_all(m, r, k);
        }
    }
    assert(twice =~= once);
}

/// On a path that `s` has a delta for, applying `s` gives the same entries whatever the map.
proof fn lemma_apply_deltas_on_key(
    x: Map<Seq<char>, Seq<u128>>,
    y: Map<Seq<char>, Seq<u128>>,
    s: Seq<(Seq<char>, Seq<u128>)>,
    k: Seq<char>,
)
    requires
        has_pair_key(s, k),
    ensures
        apply_deltas(x, s).contains_key(k) == apply_deltas(y, s).contains_key(k),
        apply_deltas(x, s).contains_key(k) ==> apply_deltas(x, s)[k] == apply_deltas(y, s)[k],
    decreases s.len(),
{
    if s.last().0 != k {
        let i = choose|i: int| 0 <= i < s.len() && s[i].0 == k;
        assert(s.drop_last()[i].0 == k);
        lemma_apply_deltas_on_key(x, y, s.drop_last(), k);
    }
}

/// Off the paths that `s` has deltas for, applying `s` leaves the map as it is.
proof fn lemma_apply_deltas_off_key(x: Map<Seq<char>, Seq<u128>>, s: Seq<(Seq<char>, Seq<u128>)>, k: Seq<char>)
    requires
        !has_pair_key(s, k),
    ensures
        apply_deltas(x, s).contains_key(k) == x.contains_key(k),
        x.contains_key(k) ==> apply_deltas(x, s)[k] == x[k],
    decreases s.len(),
{
    if s.len() > 0 {
        assert(s[s.len() - 1].0 == s.last().0);
        assert forall|i: int| 0 <= i < s.drop_last().len() implies s.drop_last()[i].0 != k by {
            assert(s[i].0 != k);
        }
        lemma_apply_deltas_off_key(x, s.drop_last(), k);
    }
}

/// Applying a diff to an asset a second time changes nothing: every part a diff sets is
/// already set, and every part it removes is already gone.
pub proof fn law_apply_asset_diff_twice(d: AssetDiffModel, a: AssetModel)
    ensures
        apply_asset_diff(d, apply_asset_diff(d, a)) == apply_asset_diff(d, a),
{
    let once = apply_asset_diff(d, a);
    let twice = apply_asset_diff(d, once);
    lemma_set_remove_twice(a.properties, d.set_properties, d.remove_properties);
    lemma_set_remove_twice(a.null_overrides, d.set_null_overrides, d.remove_null_overrides);
    lemma_set_remove_twice(a.file_reference_overrides, d.set_file_references, d.remove_file_references);
    assert forall|k: Seq<char>| twice.replace_mode.contains(k) == once.replace_mode.contains(k) by {
        lemma_set_insert_all(once.replace_mode, d.add_replace_mode, k);
        lemma_set_remove_all(set_insert_all(once.replace_mode, d.add_replace_mode), d.remove_replace_mode, k);
        lemma_set_insert_all(a.replace_mode, d.add_replace_mode, k);
        lemma_set_remove_all(set_insert_all(a.replace_mode, d.add_replace_mode), d.remove_replace_mode, k);
    }
    assert(twice.replace_mode =~= once.replace_mode);
    assert forall|k: Seq<char>|
        #![trigger twice.dynamic_array_entries.dom().contains(k)]
        #![trigger once.dynamic_array_entries.dom().contains(k)]
        twice.dynamic_array_entries.dom().contains(k) == once.dynamic_array_entries.dom().contains(k) && (
        twice.dynamic_array_entries.dom().contains(k) ==> twice.dynamic_array_entries[k]
            == once.dynamic_array_entries[k]) by {
        if has_pair_key(d.entry_deltas, k) {
            lemma_apply_deltas_on_key(once.dynamic_array_entries, a.dynamic_array_entries, d.entry_deltas, k);
        } else {
            lemma_apply_deltas_off_key(once.dynamic_array_entries, d.entry_deltas, k);
        }
    }
    assert(twice.dynamic_array_entries =~= once.dynamic_array_entries);
    assert(twice =~= once);
}

/// Inserting the changed properties and removing the removed ones turns `b` into a map
/// that agrees with `a` (a property left alone holds a value equal to `a`'s).
proof fn lemma_value_map_diff(
    b: Map<Seq<char>, ValueModel>,
    a: Map<Seq<char>, ValueModel>,
    set_s: Seq<(Seq<char>, ValueModel)>,
    rem_s: Seq<Seq<char>>,
)
    requires
        lists_changed_values(set_s, b, a),
        lists_removed(rem_s, b, a),
    ensures
        props_agree(remove_all(insert_all(b, set_s), rem_s), a),
{
    let r = remove_all(insert_all(b, set_s), rem_s);
    assert forall|k: Seq<char>| r.contains_key(k) <==> a.contains_key(k) by {
        lemma_insert_all(b, set_s, k);
        lemma_remove_all(insert_all(b, set_s), rem_s, k);
        if rem_s.contains(k) {
            let i = choose|i: int| 0 <= i < rem_s.len() && rem_s[i] == k;
        }
        if exists|i: int| 0 <= i < set_s.len() && set_s[i].0 == k {
            let i = choose|i: int| 0 <= i < set_s.len() && set_s[i].0 == k;
            assert(value_changed(b, a, set_s[i].0));
        }
        if a.contains_key(k) && !b.contains_key(k) {
            assert(value_changed(b, a, k));
        }
        if b.contains_key(k) && !a.contains_key(k) {
            assert(rem_s.contains(k));
        }
    }
    assert(r.dom() =~= a.dom());
    assert forall|k: Seq<char>| #[trigger] r.contains_key(k) implies (r[k] == a[k] || leaf_values_equal(
        r[k],
        a[k],
    )) by {
        lemma_insert_all(b, set_s, k);
        lemma_remove_all(insert_all(b, set_s), rem_s, k);
        if exists|i: int| 0 <= i < set_s.len() && set_s[i].0 == k {
            let i = choose|i: int| 0 <= i < set_s.len() && set_s[i].0 == k;
            assert(value_changed(b, a, set_s[i].0));
        } else {
            if !(b.contains_key(k) && leaf_values_equal(b[k], a[k])) {
                assert(value_changed(b, a, k));
            }
        }
    }
}

/// Applying the diff from asset `before` to asset `after` to `before` gives `after`,
/// except that the import info (which diffs do not carry) stays that of `before`, a path
/// with an empty entry list may be listed or not, and a property whose values compare
/// equal (such as +0.0 and -0.0) keeps its value from `before`.
pub proof fn law_apply_asset_diff(d: AssetDiffModel, before: AssetModel, after: AssetModel)
    requires
        describes_diff(d, before, after),
        before.schema == after.schema,
    ensures
        ({
            let r = apply_asset_diff(d, before);
            &&& r == (AssetModel {
                import_info: before.import_info,
                dynamic_array_entries: r.dynamic_array_entries,
                properties: r.properties,
                ..after
            })
            &&& props_agree(r.properties, after.properties)
            &&& forall|k: Seq<char>|
                entries_at(r.dynamic_array_entries, k) == entries_at(after.dynamic_array_entries, k)
        }),
{
    let r = apply_asset_diff(d, before);
    lemma_value_map_diff(before.properties, after.properties, d.set_properties, d.remove_properties);
    lemma_map_diff(
        before.null_overrides,
        after.null_overrides,
        d.set_null_overrides,
        d.remove_null_overrides,
    );
    lemma_map_diff(
        before.file_reference_overrides,
        after.file_reference_overrides,
        d.set_file_references,
        d.remove_file_references,
    );
    assert forall|k: Seq<char>| r.replace_mode.contains(k) <==> after.replace_mode.contains(k) by {
        lemma_set_insert_all(before.replace_mode, d.add_replace_mode, k);
        lemma_set_remove_all(set_insert_all(before.replace_mode, d.add_replace_mode), d.remove_replace_mode, k);
        if d.add_replace_mode.contains(k) {
            let i = choose|i: int| 0 <= i < d.add_replace_mode.len() && d.add_replace_mode[i] == k;
        }
        if d.remove_replace_mode.contains(k) {
            let i = choose|i: int| 0 <= i < d.remove_replace_mode.len() && d.remove_replace_mode[i] == k;
        }
    }
    assert(r.replace_mode =~= after.replace_mode);
    assert forall|k: Seq<char>|
        entries_at(r.dynamic_array_entries, k) == entries_at(after.dynamic_array_entries, k) by {
        lemma_apply_deltas(before.dynamic_array_entries, d.entry_deltas, k);
        if exists|i: int| 0 <= i < d.entry_deltas.len() && d.entry_deltas[i].0 == k {
            let i = choose|i: int| 0 <= i < d.entry_deltas.len() && d.entry_deltas[i].0 == k;
            assert(d.entry_deltas[i].1 == entries_at(after.dynamic_array_entries, d.entry_deltas[i].0));
        } else {
            if entries_at(before.dynamic_array_entries, k) != entries_at(after.dynamic_array_entries, k) {
                assert(exists|i: int| 0 <= i < d.entry_deltas.len() && d.entry_deltas[i].0 == k);
            }
        }
    }
}

/// The content of a data set diff.
pub struct DataSetDiffModel {
    pub creates: Seq<(u128, AssetModel)>,
    pub deletes: Seq<u128>,
    pub changes: Seq<(u128, AssetDiffModel)>,
}

/// The asset that restoring `a` with the schema set's types produces.
pub open spec fn restored(types: Map<u128, crate::schema::SchemaNamedType>, a: AssetModel) -> Result<
    AssetModel,
    crate::ids::DataSetError,
> {
    if !types.contains_key(a.schema) {
        Err(crate::ids::DataSetError::SchemaNotFound)
    } else if types[a.schema] is Enum {
        Err(crate::ids::DataSetError::InvalidSchema)
    } else {
        Ok(AssetModel { schema: crate::data_set::record_fingerprint(types[a.schema]), ..a })
    }
}

/// Deletes the assets of `s` in order, stopping at the first that is missing.
pub open spec fn apply_deletes(m: Map<u128, AssetModel>, s: Seq<u128>) -> (
    Map<u128, AssetModel>,
    Option<crate::ids::DataSetError>,
)
    decreases s.len(),
{
    if s.len() == 0 {
        (m, None)
    } else {
        let (m1, e1) = apply_deletes(m, s.drop_last());
        if e1 is Some {
            (m1, e1)
        } else if m1.contains_key(s.last()) {
            (m1.remove(s.last()), None)
        } else {
            (m1, Some(crate::ids::DataSetError::AssetNotFound))
        }
    }
}

/// Restores the assets of `s` in order, stopping at the first whose schema is unusable.
pub open spec fn apply_creates(
    m: Map<u128, AssetModel>,
    s: Seq<(u128, AssetModel)>,
    types: Map<u128, crate::schema::SchemaNamedType>,
) -> (Map<u128, AssetModel>, Option<crate::ids::DataSetError>)
    decreases s.len(),
{
    if s.len() == 0 {
        (m, None)
    } else {
        let (m1, e1) = apply_creates(m, s.drop_last(), types);
        if e1 is Some {
            (m1, e1)
        } else {
            match restored(types, s.last().1) {
                Ok(a) => (m1.insert(s.last().0, a), None),
                Err(e) => (m1, Some(e)),
            }
        }
    }
}

/// Applies the asset diffs of `s` in order to the assets that exist.
pub open spec fn apply_changes(m: Map<u128, AssetModel>, s: Seq<(u128, AssetDiffModel)>) -> Map<
    u128,
    AssetModel,
>
    decreases s.len(),
{
    if s.len() == 0 {
        m
    } else {
        let m1 = apply_changes(m, s.drop_last());
        if m1.contains_key(s.last().0) {
            m1.insert(s.last().0, apply_asset_diff(s.last().1, m1[s.last().0]))
        } else {
            m1
        }
    }
}

/// The data set after applying `d` (deletes, then creates, then changes), and the error
/// that stopped it, if any.
pub open spec fn apply_data_set_diff(
    d: DataSetDiffModel,
    m: Map<u128, AssetModel>,
    types: Map<u128, crate::schema::SchemaNamedType>,
) -> (Map<u128, AssetModel>, Option<crate::ids::DataSetError>) {
    let (m1, e1) = apply_deletes(m, d.deletes);
    if e1 is Some {
        (m1, e1)
    } else {
        let (m2, e2) = apply_creates(m1, d.creates, types);
        if e2 is Some {
            (m2, e2)
        } else {
            (apply_changes(m2, d.changes), None)
        }
    }
}

/// `s` with `x` appended unless already present.
pub open spec fn push_unique(s: Seq<u128>, x: u128) -> Seq<u128> {
    if s.contains(x) {
        s
    } else {
        s.push(x)
    }
}

/// `s` with each element of `xs` appended unless already present.
pub open spec fn push_unique_all(s: Seq<u128>, xs: Seq<u128>) -> Seq<u128>
    decreases xs.len(),
{
    if xs.len() == 0 {
        s
    } else {
        push_unique(push_unique_all(s, xs.drop_last()), xs.last())
    }
}

/// The changes to a data set: assets to create, assets to delete, and assets to change.
#[derive(Debug)]
pub struct DataSetDiff {
    creates: Vec<(AssetId, DataSetAssetInfo)>,
    deletes: Vec<AssetId>,
    changes: Vec<(AssetId, AssetDiff)>,
}

pub closed spec fn create_models(s: Seq<(AssetId, DataSetAssetInfo)>) -> Seq<(u128, AssetModel)> {
    s.map_values(|p: (AssetId, DataSetAssetInfo)| (p.0.0, p.1@))
}

pub closed spec fn change_models(s: Seq<(AssetId, AssetDiff)>) -> Seq<(u128, AssetDiffModel)> {
    s.map_values(|p: (AssetId, AssetDiff)| (p.0.0, p.1@))
}

pub open spec fn id_values(s: Seq<AssetId>) -> Seq<u128> {
    s.map_values(|p: AssetId| p.0)
}

impl View for DataSetDiff {
    type V = DataSetDiffModel;

    closed spec fn view(&self) -> DataSetDiffModel {
        DataSetDiffModel {
            creates: create_models(self.creates@),
            deletes: id_values(self.deletes@),
            changes: change_models(self.changes@),
        }
    }
}

impl DataSetDiff {
    pub fn new() -> (r: DataSetDiff)
        ensures
            r@.creates.len() == 0,
            r@.deletes.len() == 0,
            r@.changes.len() == 0,
    {
        let r = DataSetDiff { creates: Vec::new(), deletes: Vec::new(), changes: Vec::new() };
        assert(create_models(r.creates@) =~= Seq::<(u128, AssetModel)>::empty());
        assert(change_models(r.changes@) =~= Seq::<(u128, AssetDiffModel)>::empty());
        r
    }

    pub fn has_changes(&self) -> (r: bool)
        ensures
            r == (self@.creates.len() > 0 || self@.deletes.len() > 0 || self@.changes.len() > 0),
    {
        self.creates.len() > 0 || self.deletes.len() > 0 || self.changes.len() > 0
    }

    /// Applies the diff to `data_set`: deletes (failing with `AssetNotFound` on a missing
    /// asset), then creates (failing as `restore_asset` does), then changes (to the assets
    /// that exist). A failure stops the application where it happened.
    pub fn apply(&self, data_set: &mut DataSet, schema_set: &crate::schema_set::SchemaSet) -> (r:
        crate::ids::DataSetResult<()>)
        ensures
            ({
                let (m, e) = apply_data_set_diff(self@, old(data_set)@, schema_set.types());
                &&& final(data_set)@ == m
                &&& match e {
                    Some(x) => r == Err::<(), crate::ids::DataSetError>(x),
                    None => r is Ok,
                }
            }),
    {
        let ghost d = self@;
        let ghost types = schema_set.types();
        let ghost m0 = data_set@;
        let mut i: usize = 0;
        while i < self.deletes.len()
            invariant
                i <= self.deletes@.len(),
                d == self@,
                m0 == old(data_set)@,
                types == schema_set.types(),
                apply_deletes(m0, d.deletes.take(i as int)) == (data_set@, None::<crate::ids::DataSetError>),
            decreases self.deletes@.len() - i,
        {
            assert(d.deletes.take(i + 1).drop_last() =~= d.deletes.take(i as int));
            match data_set.delete_asset(self.deletes[i]) {
                Ok(()) => {},
                Err(e) => {
                    assert(apply_deletes(m0, d.deletes.take(i + 1)) == (
                        data_set@,
                        Some(crate::ids::DataSetError::AssetNotFound),
                    ));
                    proof {
                        lemma_deletes_stop(m0, d.deletes, i as int + 1);
                    }
                    return Err(e);
                },
            }
            i = i + 1;
        }
        assert(d.deletes.take(i as int) =~= d.deletes);
        let ghost m1 = data_set@;
        let mut j: usize = 0;
        while j < self.creates.len()
            invariant
                j <= self.creates@.len(),
                d == self@,
                m0 == old(data_set)@,
                types == schema_set.types(),
                apply_deletes(m0, d.deletes) == (m1, None::<crate::ids::DataSetError>),
                apply_creates(m1, d.creates.take(j as int), types) == (data_set@, None::<crate::ids::DataSetError>),
            decreases self.creates@.len() - j,
        {
            assert(d.creates.take(j + 1).drop_last() =~= d.creates.take(j as int));
            assert(d.creates[j as int] == (self.creates@[j as int].0.0, self.creates@[j as int].1@));
            match data_set.restore_asset_from(self.creates[j].0, &self.creates[j].1, schema_set) {
                Ok(()) => {},
                Err(e) => {
                    assert(restored(types, d.creates[j as int].1) == Err::<
                        AssetModel,
                        crate::ids::DataSetError,
                    >(e));
                    assert(apply_creates(m1, d.creates.take(j + 1), types) == (data_set@, Some(e)));
                    proof {
                        lemma_creates_stop(m1, d.creates, j as int + 1, types);
                    }
                    return Err(e);
                },
            }
            j = j + 1;
        }
        assert(d.creates.take(j as int) =~= d.creates);
        let ghost m2 = data_set@;
        let mut k: usize = 0;
        while k < self.changes.len()
            invariant
                k <= self.changes@.len(),
                d == self@,
                m0 == old(data_set)@,
                types == schema_set.types(),
                apply_deletes(m0, d.deletes) == (m1, None::<crate::ids::DataSetError>),
                apply_creates(m1, d.creates, types) == (m2, None::<crate::ids::DataSetError>),
                data_set@ == apply_changes(m2, d.changes.take(k as int)),
            decreases self.changes@.len() - k,
        {
            assert(d.changes.take(k + 1).drop_last() =~= d.changes.take(k as int));
            assert(d.changes[k as int] == (self.changes@[k as int].0.0, self.changes@[k as int].1@));
            let id = self.changes[k].0.0;
            match data_set.take_asset(id) {
                Some(mut a) => {
                    self.changes[k].1.apply(&mut a);
                    data_set.put_asset(id, a);
                    proof {
                        let prev = apply_changes(m2, d.changes.take(k as int));
                        assert(data_set@ =~= prev.insert(id, apply_asset_diff(d.changes[k as int].1, prev[id])));
                    }
                },
                None => {},
            }
            k = k + 1;
        }
        assert(d.changes.take(k as int) =~= d.changes);
        Ok(())
    }

    /// Adds the ids of all created, deleted and changed assets to `modified_assets`.
    pub fn get_modified_assets(&self, modified_assets: &mut OrderedSet)
        ensures
            final(modified_assets)@ == push_unique_all(
                push_unique_all(
                    push_unique_all(
                        old(modified_assets)@,
                        self@.creates.map_values(|p: (u128, AssetModel)| p.0),
                    ),
                    self@.deletes,
                ),
                self@.changes.map_values(|p: (u128, AssetDiffModel)| p.0),
            ),
    {
        let ghost d = self@;
        let ghost cids = d.creates.map_values(|p: (u128, AssetModel)| p.0);
        let ghost hids = d.changes.map_values(|p: (u128, AssetDiffModel)| p.0);
        let ghost s0 = modified_assets@;
        let mut i: usize = 0;
        while i < self.creates.len()
            invariant
                i <= self.creates@.len(),
                d == self@,
                cids == d.creates.map_values(|p: (u128, AssetModel)| p.0),
                modified_assets@ == push_unique_all(s0, cids.take(i as int)),
            decreases self.creates@.len() - i,
        {
            assert(cids.take(i + 1).drop_last() =~= cids.take(i as int));
            assert(cids[i as int] == self.creates@[i as int].0.0);
            modified_assets.try_insert_at_end(self.creates[i].0.0);
            i = i + 1;
        }
        assert(cids.take(i as int) =~= cids);
        let ghost s1 = modified_assets@;
        let mut j: usize = 0;
        while j < self.deletes.len()
            invariant
                j <= self.deletes@.len(),
                d == self@,
                modified_assets@ == push_unique_all(s1, d.deletes.take(j as int)),
            decreases self.deletes@.len() - j,
        {
            assert(d.deletes.take(j + 1).drop_last() =~= d.deletes.take(j as int));
            modified_assets.try_insert_at_end(self.deletes[j].0);
            j = j + 1;
        }
        assert(d.deletes.take(j as int) =~= d.deletes);
        let ghost s2 = modified_assets@;
        let mut k: usize = 0;
        while k < self.changes.len()
            invariant
                k <= self.changes@.len(),
                d == self@,
                hids == d.changes.map_values(|p: (u128, AssetDiffModel)| p.0),
                modified_assets@ == push_unique_all(s2, hids.take(k as int)),
            decreases self.changes@.len() - k,
        {
            assert(hids.take(k + 1).drop_last() =~= hids.take(k as int));
            assert(hids[k as int] == self.changes@[k as int].0.0);
            modified_assets.try_insert_at_end(self.changes[k].0.0);
            k = k + 1;
        }
        assert(hids.take(k as int) =~= hids);
    }
}

proof fn lemma_deletes_stop(m: Map<u128, AssetModel>, s: Seq<u128>, k: int)
    requires
        0 < k <= s.len(),
        apply_deletes(m, s.take(k)).1 is Some,
    ensures
        apply_deletes(m, s) == apply_deletes(m, s.take(k)),
    decreases s.len() - k,
{
    if k < s.len() {
        assert(s.take(k + 1).drop_last() =~= s.take(k));
        lemma_deletes_stop(m, s, k + 1);
    } else {
        assert(s.take(k) =~= s);
    }
}

proof fn lemma_creates_stop(
    m: Map<u128, AssetModel>,
    s: Seq<(u128, AssetModel)>,
    k: int,
    types: Map<u128, crate::schema::SchemaNamedType>,
)
    requires
        0 < k <= s.len(),
        apply_creates(m, s.take(k), types).1 is Some,
    ensures
        apply_creates(m, s, types) == apply_creates(m, s.take(k), types),
    decreases s.len() - k,
{
    if k < s.len() {
        assert(s.take(k + 1).drop_last() =~= s.take(k));
        lemma_creates_stop(m, s, k + 1, types);
    } else {
        assert(s.take(k) =~= s);
    }
}

/// The two states of an asset agree on everything that a diff carries.
pub open spec fn assets_same(b: AssetModel, a: AssetModel) -> bool {
    &&& b.name == a.name
    &&& b.location == a.location
    &&& b.prototype == a.prototype
    &&& b.properties.dom() == a.properties.dom()
    &&& forall|k: Seq<char>| #[trigger]
        b.properties.contains_key(k) ==> leaf_values_equal(b.properties[k], a.properties[k])
    &&& b.null_overrides == a.null_overrides
    &&& b.replace_mode == a.replace_mode
    &&& b.file_reference_overrides == a.file_reference_overrides
    &&& forall|k: Seq<char>|
        #[trigger] entries_at(b.dynamic_array_entries, k) == entries_at(a.dynamic_array_entries, k)
}

/// `d` turns data set `b` into data set `a` as far as the assets of `watched` go: it
/// deletes the watched assets that `a` lacks, creates those that `b` lacks (as they are in
/// `a`), and changes those that differ.
pub open spec fn describes_data_set_diff(
    d: DataSetDiffModel,
    b: Map<u128, AssetModel>,
    a: Map<u128, AssetModel>,
    watched: Seq<u128>,
) -> bool {
    &&& d.deletes.no_duplicates()
    &&& forall|i: int|
        0 <= i < d.deletes.len() ==> watched.contains(#[trigger] d.deletes[i]) && b.contains_key(
            d.deletes[i],
        ) && !a.contains_key(d.deletes[i])
    &&& forall|id: u128|
        watched.contains(id) && b.contains_key(id) && !a.contains_key(id) ==> #[trigger] d.deletes.contains(
            id,
        )
    &&& forall|i: int, j: int|
        0 <= i < j < d.creates.len() ==> #[trigger] d.creates[i].0 != #[trigger] d.creates[j].0
    &&& forall|i: int|
        0 <= i < d.creates.len() ==> watched.contains((#[trigger] d.creates[i]).0) && !b.contains_key(
            d.creates[i].0,
        ) && a.contains_key(d.creates[i].0) && d.creates[i].1 == a[d.creates[i].0]
    &&& forall|id: u128|
        watched.contains(id) && !b.contains_key(id) && #[trigger] a.contains_key(id) ==> exists|i: int|
            0 <= i < d.creates.len() && d.creates[i].0 == id
    &&& forall|i: int, j: int|
        0 <= i < j < d.changes.len() ==> #[trigger] d.changes[i].0 != #[trigger] d.changes[j].0
    &&& forall|i: int|
        0 <= i < d.changes.len() ==> watched.contains((#[trigger] d.changes[i]).0) && b.contains_key(
            d.changes[i].0,
        ) && a.contains_key(d.changes[i].0) && describes_diff(
            d.changes[i].1,
            b[d.changes[i].0],
            a[d.changes[i].0],
        ) && !assets_same(b[d.changes[i].0], a[d.changes[i].0])
    &&& forall|id: u128|
        watched.contains(id) && b.contains_key(id) && a.contains_key(id) && !assets_same(
            b[id],
            a[id],
        ) ==> exists|i: int| 0 <= i < d.changes.len() && #[trigger] d.changes[i].0 == id
}

/// A watched asset that was changed, deleted or created touches location `x`: its
/// location before, or after.
pub open spec fn touches_location(b: Map<u128, AssetModel>, a: Map<u128, AssetModel>, id: u128, x: u128) -> bool {
    ||| b.contains_key(id) && a.contains_key(id) && !assets_same(b[id], a[id]) && (x == a[id].location
        || x == b[id].location)
    ||| b.contains_key(id) && !a.contains_key(id) && x == b[id].location
    ||| !b.contains_key(id) && a.contains_key(id) && x == a[id].location
}

proof fn lemma_seq_push_contains(s: Seq<u128>, x: u128, y: u128)
    ensures
        s.push(x).contains(y) == (s.contains(y) || y == x),
{
    if s.contains(y) {
        let i = choose|i: int| 0 <= i < s.len() && s[i] == y;
        assert(s.push(x)[i] == y);
    }
    if y == x {
        assert(s.push(x)[s.len() as int] == y);
    }
    if s.push(x).contains(y) {
        let i = choose|i: int| 0 <= i < s.len() + 1 && s.push(x)[i] == y;
        if i < s.len() {
            assert(s[i] == y);
        }
    }
}

proof fn lemma_note_locations(s: Seq<u128>, f: u128, t: u128, x: u128)
    ensures
        note_locations(s, f, t).contains(x) == (s.contains(x) || x == t || x == f),
{
    lemma_seq_push_contains(s, t, x);
    let s1 = if s.contains(t) {
        s
    } else {
        s.push(t)
    };
    lemma_seq_push_contains(s1, f, x);
    lemma_seq_push_contains(s, t, f);
}

proof fn lemma_changes_iff_differ(d: AssetDiffModel, b: AssetModel, a: AssetModel)
    requires
        describes_diff(d, b, a),
    ensures
        diff_has_changes(d) == !assets_same(b, a),
{
    if diff_has_changes(d) {
        if d.set_properties.len() > 0 {
            assert(value_changed(b.properties, a.properties, d.set_properties[0].0));
        }
        if d.remove_properties.len() > 0 {
            assert(b.properties.contains_key(d.remove_properties[0]));
        }
        if d.set_null_overrides.len() > 0 {
            assert(changed_key(b.null_overrides, a.null_overrides, d.set_null_overrides[0].0));
        }
        if d.remove_null_overrides.len() > 0 {
            assert(b.null_overrides.contains_key(d.remove_null_overrides[0]));
        }
        if d.add_replace_mode.len() > 0 {
            assert(a.replace_mode.contains(d.add_replace_mode[0]));
        }
        if d.remove_replace_mode.len() > 0 {
            assert(b.replace_mode.contains(d.remove_replace_mode[0]));
        }
        if d.entry_deltas.len() > 0 {
            let k = d.entry_deltas[0].0;
            assert(entries_at(b.dynamic_array_entries, k) != entries_at(a.dynamic_array_entries, k));
        }
        if d.set_file_references.len() > 0 {
            assert(changed_key(
                b.file_reference_overrides,
                a.file_reference_overrides,
                d.set_file_references[0].0,
            ));
        }
        if d.remove_file_references.len() > 0 {
            assert(b.file_reference_overrides.contains_key(d.remove_file_references[0]));
        }
    } else {
        assert forall|k: Seq<char>| b.properties.contains_key(k) <==> a.properties.contains_key(k) by {
            if a.properties.contains_key(k) && !b.properties.contains_key(k) {
                assert(value_changed(b.properties, a.properties, k));
            }
            if b.properties.contains_key(k) && !a.properties.contains_key(k) {
                assert(d.remove_properties.contains(k));
            }
        }
        assert forall|k: Seq<char>| #[trigger] b.properties.contains_key(k) implies leaf_values_equal(
            b.properties[k],
            a.properties[k],
        ) by {
            if !leaf_values_equal(b.properties[k], a.properties[k]) && a.properties.contains_key(k) {
                assert(value_changed(b.properties, a.properties, k));
            }
        }
        assert(b.properties.dom() =~= a.properties.dom());
        assert forall|k: Seq<char>| b.null_overrides.contains_key(k) <==> a.null_overrides.contains_key(k) by {
            if a.null_overrides.contains_key(k) && !b.null_overrides.contains_key(k) {
                assert(changed_key(b.null_overrides, a.null_overrides, k));
            }
            if b.null_overrides.contains_key(k) && !a.null_overrides.contains_key(k) {
                assert(d.remove_null_overrides.contains(k));
            }
        }
        assert forall|k: Seq<char>| #[trigger] b.null_overrides.contains_key(k) implies b.null_overrides[k]
            == a.null_overrides[k] by {
            if !(b.null_overrides[k] == a.null_overrides[k]) && a.null_overrides.contains_key(k) {
                assert(changed_key(b.null_overrides, a.null_overrides, k));
            }
        }
        assert(b.null_overrides =~= a.null_overrides);
        assert forall|k: Seq<char>| b.file_reference_overrides.contains_key(k)
            <==> a.file_reference_overrides.contains_key(k) by {
            if a.file_reference_overrides.contains_key(k) && !b.file_reference_overrides.contains_key(k) {
                assert(changed_key(b.file_reference_overrides, a.file_reference_overrides, k));
            }
            if b.file_reference_overrides.contains_key(k) && !a.file_reference_overrides.contains_key(k) {
                assert(d.remove_file_references.contains(k));
            }
        }
        assert forall|k: Seq<char>| #[trigger] b.file_reference_overrides.contains_key(k) implies b.file_reference_overrides[k]
            == a.file_reference_overrides[k] by {
            if !(b.file_reference_overrides[k] == a.file_reference_overrides[k])
                && a.file_reference_overrides.contains_key(k) {
                assert(changed_key(b.file_reference_overrides, a.file_reference_overrides, k));
            }
        }
        assert(b.file_reference_overrides =~= a.file_reference_overrides);
        assert forall|k: Seq<char>| b.replace_mode.contains(k) <==> a.replace_mode.contains(k) by {
            if a.replace_mode.contains(k) && !b.replace_mode.contains(k) {
                assert(d.add_replace_mode.contains(k));
            }
            if b.replace_mode.contains(k) && !a.replace_mode.contains(k) {
                assert(d.remove_replace_mode.contains(k));
            }
        }
        assert(b.replace_mode =~= a.replace_mode);
        assert forall|k: Seq<char>|
            #[trigger] entries_at(b.dynamic_array_entries, k) == entries_at(a.dynamic_array_entries, k) by {
            if entries_at(b.dynamic_array_entries, k) != entries_at(a.dynamic_array_entries, k) {
                let i = choose|i: int| 0 <= i < d.entry_deltas.len() && d.entry_deltas[i].0 == k;
            }
        }
    }
}

/// The diffs between two data sets, and what they touch.
pub struct DataSetDiffSet {
    pub apply_diff: DataSetDiff,
    pub revert_diff: DataSetDiff,
    pub modified_assets: OrderedSet,
    pub modified_locations: OrderedSet,
}

impl DataSetDiffSet {
    pub fn has_changes(&self) -> (r: bool)
        ensures
            r == (self.apply_diff@.creates.len() > 0 || self.apply_diff@.deletes.len() > 0
                || self.apply_diff@.changes.len() > 0),
    {
        self.apply_diff.has_changes()
    }

    /// The diffs between data sets `before` and `after`, for the assets in
    /// `tracked_assets`: `apply_diff` turns `before` into `after` and `revert_diff` turns
    /// `after` back into `before`. `modified_assets` lists the watched assets that were
    /// changed or deleted, `modified_locations` the locations they and the created assets
    /// were at, before or after. Tracked assets present in both must keep their schema and
    /// hold only leaf property values.
    pub fn diff_data_set(before: &DataSet, after: &DataSet, tracked_assets: &OrderedSet) -> (r:
        DataSetDiffSet)
        requires
            forall|id: u128|
                #![trigger before@.contains_key(id), after@.contains_key(id)]
                tracked_assets@.contains(id) && before@.contains_key(id) && after@.contains_key(id)
                    ==> before@[id].schema == after@[id].schema && all_leaves(
                    before@[id].properties,
                ) && all_leaves(after@[id].properties),
        ensures
            describes_data_set_diff(r.apply_diff@, before@, after@, tracked_assets@),
            describes_data_set_diff(r.revert_diff@, after@, before@, tracked_assets@),
            forall|x: u128|
                r.modified_assets@.contains(x) <==> tracked_assets@.contains(x) && before@.contains_key(
                    x,
                ) && (after@.contains_key(x) ==> !assets_same(before@[x], after@[x])),
            forall|x: u128|
                r.modified_locations@.contains(x) <==> exists|id: u128|
                    tracked_assets@.contains(id) && #[trigger] touches_location(
                        before@,
                        after@,
                        id,
                        x,
                    ),
    {
        let ghost b = before@;
        let ghost a = after@;
        let ghost tr = tracked_assets@;
        let ids = tracked_assets.as_vec();
        tracked_assets.lemma_wf();
        let bassets = before.assets();
        let aassets = after.assets();
        let mut apply_diff = DataSetDiff::new();
        let mut revert_diff = DataSetDiff::new();
        let mut modified_assets = OrderedSet::new();
        let mut modified_locations = OrderedSet::new();
        let mut t: usize = 0;
        while t < ids.len()
            invariant
                t <= ids@.len(),
                ids@ == tr,
                tr.no_duplicates(),
                b == before@,
                a == after@,
                crate::data_set::asset_models(bassets@) == b,
                crate::data_set::asset_models(aassets@) == a,
                forall|id: u128|
                    #![trigger before@.contains_key(id), after@.contains_key(id)]
                    tr.contains(id) && before@.contains_key(id) && after@.contains_key(id)
                        ==> before@[id].schema == after@[id].schema && all_leaves(
                        before@[id].properties,
                    ) && all_leaves(after@[id].properties),
                describes_data_set_diff(apply_diff@, b, a, tr.take(t as int)),
                describes_data_set_diff(revert_diff@, a, b, tr.take(t as int)),
                forall|x: u128|
                    modified_assets@.contains(x) <==> tr.take(t as int).contains(x) && b.contains_key(x)
                        && (a.contains_key(x) ==> !assets_same(b[x], a[x])),
                forall|x: u128|
                    modified_locations@.contains(x) <==> exists|id: u128|
                        tr.take(t as int).contains(id) && #[trigger] touches_location(b, a, id, x),
            decreases ids@.len() - t,
        {
            let id = ids[t];
            let ghost pre = tr.take(t as int);
            let ghost post = tr.take(t + 1);
            proof {
                assert(post =~= pre.push(id));
                assert forall|y: u128| post.contains(y) == (pre.contains(y) || y == id) by {
                    lemma_seq_push_contains(pre, id, y);
                }
                assert(!pre.contains(id)) by {
                    if pre.contains(id) {
                        let s = choose|s: int| 0 <= s < pre.len() && pre[s] == id;
                        assert(tr[s] == tr[t as int]);
                    }
                }
            }
            let existed_before = bassets.contains_key(&id);
            let existed_after = aassets.contains_key(&id);
            proof {
                assert(tr[t as int] == id);
                assert(tr.contains(id));
                assert(crate::data_set::asset_models(bassets@).dom() =~= bassets@.dom());
                assert(crate::data_set::asset_models(aassets@).dom() =~= aassets@.dom());
                assert(existed_before == b.contains_key(id));
                assert(existed_after == a.contains_key(id));
            }
            let ghost da0 = apply_diff@;
            let ghost dr0 = revert_diff@;
            let ghost ma0 = modified_assets@;
            let ghost ml0 = modified_locations@;
            if existed_before {
                if existed_after {
                    let diff = AssetDiffSet::diff_assets(
                        before,
                        AssetId(id),
                        after,
                        AssetId(id),
                        &mut modified_locations,
                    );
                    proof {
                        lemma_changes_iff_differ(diff.apply_diff@, b[id], a[id]);
                        assert forall|x: u128| modified_locations@.contains(x) <==> exists|y: u128|
                            post.contains(y) && #[trigger] touches_location(b, a, y, x) by {
                            if diff_has_changes(diff.apply_diff@) {
                                lemma_note_locations(ml0, b[id].location, a[id].location, x);
                            }
                            if touches_location(b, a, id, x) {
                                assert(post.contains(id));
                            }
                            if exists|y: u128| post.contains(y) && #[trigger] touches_location(b, a, y, x) {
                                let y = choose|y: u128| post.contains(y) && #[trigger] touches_location(b, a, y, x);
                                if y != id {
                                    assert(pre.contains(y));
                                }
                            }
                            if exists|y: u128| pre.contains(y) && #[trigger] touches_location(b, a, y, x) {
                                let y = choose|y: u128| pre.contains(y) && #[trigger] touches_location(b, a, y, x);
                                assert(post.contains(y));
                            }
                        }
                    }
                    if diff.has_changes() {
                        modified_assets.try_insert_at_end(id);
                        let ghost ca = diff.apply_diff@;
                        let ghost cr = diff.revert_diff@;
                        apply_diff.changes.push((AssetId(id), diff.apply_diff));
                        revert_diff.changes.push((AssetId(id), diff.revert_diff));
                        proof {
                            assert(change_models(apply_diff.changes@) =~= da0.changes.push((id, ca)));
                            assert(change_models(revert_diff.changes@) =~= dr0.changes.push((id, cr)));
                            lemma_data_set_diff_step_change(da0, b, a, pre, id, ca);
                            lemma_data_set_diff_step_change(dr0, a, b, pre, id, cr);
                            assert forall|x: u128| modified_assets@.contains(x) <==> post.contains(x)
                                && b.contains_key(x) && (a.contains_key(x) ==> !assets_same(b[x], a[x])) by {
                                lemma_seq_push_contains(ma0, id, x);
                            }
                        }
                    } else {
                        proof {
                            lemma_data_set_diff_step_none(da0, b, a, pre, id);
                            lemma_data_set_diff_step_none(dr0, a, b, pre, id);
                            assert(apply_diff@ == da0);
                        }
                    }
                } else {
                    let info = bassets.get(&id).unwrap().copy_asset();
                    modified_assets.try_insert_at_end(id);
                    modified_locations.try_insert_at_end(info.asset_location().path_node_id.0);
                    let ghost im = info@;
                    apply_diff.deletes.push(AssetId(id));
                    revert_diff.creates.push((AssetId(id), info));
                    proof {
                        assert(id_values(apply_diff.deletes@) =~= da0.deletes.push(id));
                        assert(create_models(revert_diff.creates@) =~= dr0.creates.push((id, im)));
                        lemma_data_set_diff_step_delete(da0, b, a, pre, id);
                        lemma_data_set_diff_step_create(dr0, a, b, pre, id);
                        assert forall|x: u128| modified_assets@.contains(x) <==> post.contains(x)
                            && b.contains_key(x) && (a.contains_key(x) ==> !assets_same(b[x], a[x])) by {
                            lemma_seq_push_contains(ma0, id, x);
                        }
                        assert forall|x: u128| modified_locations@.contains(x) <==> exists|y: u128|
                            post.contains(y) && #[trigger] touches_location(b, a, y, x) by {
                            lemma_seq_push_contains(ml0, im.location, x);
                            if touches_location(b, a, id, x) {
                                assert(post.contains(id));
                            }
                            if exists|y: u128| post.contains(y) && #[trigger] touches_location(b, a, y, x) {
                                let y = choose|y: u128| post.contains(y) && #[trigger] touches_location(b, a, y, x);
                                if y != id {
                                    assert(pre.contains(y));
                                }
                            }
                            if exists|y: u128| pre.contains(y) && #[trigger] touches_location(b, a, y, x) {
                                let y = choose|y: u128| pre.contains(y) && #[trigger] touches_location(b, a, y, x);
                                assert(post.contains(y));
                            }
                        }
                    }
                }
            } else if existed_after {
                let info = aassets.get(&id).unwrap().copy_asset();
                modified_locations.try_insert_at_end(info.asset_location().path_node_id.0);
                let ghost im = info@;
                apply_diff.creates.push((AssetId(id), info));
                revert_diff.deletes.push(AssetId(id));
                proof {
                    assert(create_models(apply_diff.creates@) =~= da0.creates.push((id, im)));
                    assert(id_values(revert_diff.deletes@) =~= dr0.deletes.push(id));
                    lemma_data_set_diff_step_create(da0, b, a, pre, id);
                    lemma_data_set_diff_step_delete(dr0, a, b, pre, id);
                    assert forall|x: u128| modified_assets@.contains(x) <==> post.contains(x)
                        && b.contains_key(x) && (a.contains_key(x) ==> !assets_same(b[x], a[x])) by {}
                    assert forall|x: u128| modified_locations@.contains(x) <==> exists|y: u128|
                        post.contains(y) && #[trigger] touches_location(b, a, y, x) by {
                        lemma_seq_push_contains(ml0, im.location, x);
                        if touches_location(b, a, id, x) {
                            assert(post.contains(id));
                        }
                        if exists|y: u128| post.contains(y) && #[trigger] touches_location(b, a, y, x) {
                            let y = choose|y: u128| post.contains(y) && #[trigger] touches_location(b, a, y, x);
                            if y != id {
                                assert(pre.contains(y));
                            }
                        }
                        if exists|y: u128| pre.contains(y) && #[trigger] touches_location(b, a, y, x) {
                            let y = choose|y: u128| pre.contains(y) && #[trigger] touches_location(b, a, y, x);
                            assert(post.contains(y));
                        }
                    }
                }
            } else {
                proof {
                    lemma_data_set_diff_step_none(da0, b, a, pre, id);
                    lemma_data_set_diff_step_none(dr0, a, b, pre, id);
                    assert forall|x: u128| modified_locations@.contains(x) <==> exists|y: u128|
                        post.contains(y) && #[trigger] touches_location(b, a, y, x) by {
                        if exists|y: u128| post.contains(y) && #[trigger] touches_location(b, a, y, x) {
                            let y = choose|y: u128| post.contains(y) && #[trigger] touches_location(b, a, y, x);
                            if y != id {
                                assert(pre.contains(y));
                            }
                        }
                        if exists|y: u128| pre.contains(y) && #[trigger] touches_location(b, a, y, x) {
                            let y = choose|y: u128| pre.contains(y) && #[trigger] touches_location(b, a, y, x);
                            assert(post.contains(y));
                        }
                    }
                }
            }
            t = t + 1;
        }
        assert(tr.take(t as int) =~= tr);
        DataSetDiffSet { apply_diff, revert_diff, modified_assets, modified_locations }
    }
}

proof fn lemma_tracked_push(pre: Seq<u128>, id: u128, y: u128)
    ensures
        pre.push(id).contains(y) == (pre.contains(y) || y == id),
{
    if pre.contains(y) {
        let i = choose|i: int| 0 <= i < pre.len() && pre[i] == y;
        assert(pre.push(id)[i] == y);
    }
    if y == id {
        assert(pre.push(id)[pre.len() as int] == y);
    }
    if pre.push(id).contains(y) {
        let i = choose|i: int| 0 <= i < pre.len() + 1 && pre.push(id)[i] == y;
        if i < pre.len() {
            assert(pre[i] == y);
        }
    }
}

proof fn lemma_data_set_diff_step_none(
    d: DataSetDiffModel,
    b: Map<u128, AssetModel>,
    a: Map<u128, AssetModel>,
    pre: Seq<u128>,
    id: u128,
)
    requires
        describes_data_set_diff(d, b, a, pre),
        b.contains_key(id) == a.contains_key(id),
        b.contains_key(id) ==> assets_same(b[id], a[id]),
    ensures
        describes_data_set_diff(d, b, a, pre.push(id)),
{
    assert forall|y: u128| #![trigger pre.push(id).contains(y)] pre.push(id).contains(y) == (pre.contains(y) || y == id) by {
        lemma_tracked_push(pre, id, y);
    }
}

proof fn lemma_data_set_diff_step_change(
    d: DataSetDiffModel,
    b: Map<u128, AssetModel>,
    a: Map<u128, AssetModel>,
    pre: Seq<u128>,
    id: u128,
    c: AssetDiffModel,
)
    requires
        describes_data_set_diff(d, b, a, pre),
        !pre.contains(id),
        b.contains_key(id),
        a.contains_key(id),
        describes_diff(c, b[id], a[id]),
        !assets_same(b[id], a[id]),
    ensures
        describes_data_set_diff(
            DataSetDiffModel { changes: d.changes.push((id, c)), ..d },
            b,
            a,
            pre.push(id),
        ),
{
    let d2 = DataSetDiffModel { changes: d.changes.push((id, c)), ..d };
    assert forall|y: u128| #![trigger pre.push(id).contains(y)] pre.push(id).contains(y) == (pre.contains(y) || y == id) by {
        lemma_tracked_push(pre, id, y);
    }
    assert forall|y: u128|
        pre.push(id).contains(y) && b.contains_key(y) && !a.contains_key(y) implies #[trigger] d2.deletes.contains(
        y,
    ) by {
        assert(pre.contains(y));
        assert(d.deletes.contains(y));
        let i = choose|i: int| 0 <= i < d.deletes.len() && d.deletes[i] == y;
        assert(d2.deletes[i] == y);
    }
    assert forall|y: u128| pre.push(id).contains(y) && !b.contains_key(y) && #[trigger] a.contains_key(y) implies exists|
        i: int,
    | 0 <= i < d2.creates.len() && d2.creates[i].0 == y by {
        assert(pre.contains(y));
        assert(exists|i: int| 0 <= i < d.creates.len() && d.creates[i].0 == y);
        let i = choose|i: int| 0 <= i < d.creates.len() && d.creates[i].0 == y;
        assert(d2.creates[i].0 == y);
    }
    assert forall|i: int, j: int| 0 <= i < j < d2.changes.len() implies #[trigger] d2.changes[i].0
        != #[trigger] d2.changes[j].0 by {
        if j == d2.changes.len() - 1 {
            assert(pre.contains(d.changes[i].0));
        } else {
            assert(d.changes[i].0 != d.changes[j].0);
        }
    }
    assert forall|i: int| 0 <= i < d2.changes.len() implies pre.push(id).contains((#[trigger] d2.changes[i]).0)
        && b.contains_key(d2.changes[i].0) && a.contains_key(d2.changes[i].0) && describes_diff(
        d2.changes[i].1,
        b[d2.changes[i].0],
        a[d2.changes[i].0],
    ) && !assets_same(b[d2.changes[i].0], a[d2.changes[i].0]) by {
        if i < d.changes.len() {
            assert(d2.changes[i] == d.changes[i]);
        }
    }
    assert forall|y: u128|
        pre.push(id).contains(y) && b.contains_key(y) && a.contains_key(y) && !assets_same(b[y], a[y])
            implies exists|i: int| 0 <= i < d2.changes.len() && #[trigger] d2.changes[i].0 == y by {
        if y == id {
            assert(d2.changes[d.changes.len() as int].0 == y);
        } else {
            let i = choose|i: int| 0 <= i < d.changes.len() && #[trigger] d.changes[i].0 == y;
            assert(d2.changes[i] == d.changes[i]);
        }
    }
}

proof fn lemma_data_set_diff_step_delete(
    d: DataSetDiffModel,
    b: Map<u128, AssetModel>,
    a: Map<u128, AssetModel>,
    pre: Seq<u128>,
    id: u128,
)
    requires
        describes_data_set_diff(d, b, a, pre),
        !pre.contains(id),
        b.contains_key(id),
        !a.contains_key(id),
    ensures
        describes_data_set_diff(DataSetDiffModel { deletes: d.deletes.push(id), ..d }, b, a, pre.push(id)),
{
    let d2 = DataSetDiffModel { deletes: d.deletes.push(id), ..d };
    assert forall|y: u128| #![trigger pre.push(id).contains(y)] pre.push(id).contains(y) == (pre.contains(y) || y == id) by {
        lemma_tracked_push(pre, id, y);
    }
    assert forall|y: u128| pre.push(id).contains(y) && !b.contains_key(y) && #[trigger] a.contains_key(y) implies exists|
        i: int,
    | 0 <= i < d2.creates.len() && d2.creates[i].0 == y by {
        assert(pre.contains(y));
        assert(exists|i: int| 0 <= i < d.creates.len() && d.creates[i].0 == y);
        let i = choose|i: int| 0 <= i < d.creates.len() && d.creates[i].0 == y;
        assert(d2.creates[i].0 == y);
    }
    assert forall|y: u128|
        pre.push(id).contains(y) && b.contains_key(y) && a.contains_key(y) && !assets_same(b[y], a[y])
            implies exists|i: int| 0 <= i < d2.changes.len() && #[trigger] d2.changes[i].0 == y by {
        assert(pre.contains(y));
        let i = choose|i: int| 0 <= i < d.changes.len() && #[trigger] d.changes[i].0 == y;
        assert(d2.changes[i].0 == y);
    }
    assert forall|y: u128| #![trigger d2.deletes.contains(y)] d2.deletes.contains(y) == (d.deletes.contains(y) || y == id) by {
        lemma_tracked_push(d.deletes, id, y);
    }
    assert(d2.deletes.no_duplicates()) by {
        assert forall|i: int, j: int| 0 <= i < d2.deletes.len() && 0 <= j < d2.deletes.len() && i != j implies d2.deletes[i]
            != d2.deletes[j] by {
            if i == d2.deletes.len() - 1 {
                assert(pre.contains(d.deletes[j]));
            } else if j == d2.deletes.len() - 1 {
                assert(pre.contains(d.deletes[i]));
            } else {
                assert(d.deletes[i] != d.deletes[j]);
            }
        }
    }
    assert forall|i: int| 0 <= i < d2.deletes.len() implies pre.push(id).contains(#[trigger] d2.deletes[i])
        && b.contains_key(d2.deletes[i]) && !a.contains_key(d2.deletes[i]) by {
        if i < d.deletes.len() {
            assert(d2.deletes[i] == d.deletes[i]);
        }
    }
}

proof fn lemma_data_set_diff_step_create(
    d: DataSetDiffModel,
    b: Map<u128, AssetModel>,
    a: Map<u128, AssetModel>,
    pre: Seq<u128>,
    id: u128,
)
    requires
        describes_data_set_diff(d, b, a, pre),
        !pre.contains(id),
        !b.contains_key(id),
        a.contains_key(id),
    ensures
        describes_data_set_diff(
            DataSetDiffModel { creates: d.creates.push((id, a[id])), ..d },
            b,
            a,
            pre.push(id),
        ),
{
    let d2 = DataSetDiffModel { creates: d.creates.push((id, a[id])), ..d };
    assert forall|y: u128| #![trigger pre.push(id).contains(y)] pre.push(id).contains(y) == (pre.contains(y) || y == id) by {
        lemma_tracked_push(pre, id, y);
    }
    assert forall|y: u128|
        pre.push(id).contains(y) && b.contains_key(y) && a.contains_key(y) && !assets_same(b[y], a[y])
            implies exists|i: int| 0 <= i < d2.changes.len() && #[trigger] d2.changes[i].0 == y by {
        assert(pre.contains(y));
        let i = choose|i: int| 0 <= i < d.changes.len() && #[trigger] d.changes[i].0 == y;
        assert(d2.changes[i].0 == y);
    }
    assert forall|y: u128|
        pre.push(id).contains(y) && b.contains_key(y) && !a.contains_key(y) implies #[trigger] d2.deletes.contains(
        y,
    ) by {
        assert(pre.contains(y));
        assert(d.deletes.contains(y));
        let i = choose|i: int| 0 <= i < d.deletes.len() && d.deletes[i] == y;
        assert(d2.deletes[i] == y);
    }
    assert forall|i: int, j: int| 0 <= i < j < d2.creates.len() implies #[trigger] d2.creates[i].0
        != #[trigger] d2.creates[j].0 by {
        if j == d2.creates.len() - 1 {
            assert(pre.contains(d.creates[i].0));
        } else {
            assert(d.creates[i].0 != d.creates[j].0);
        }
    }
    assert forall|i: int| 0 <= i < d2.creates.len() implies pre.push(id).contains((#[trigger] d2.creates[i]).0)
        && !b.contains_key(d2.creates[i].0) && a.contains_key(d2.creates[i].0) && d2.creates[i].1
        == a[d2.creates[i].0] by {
        if i < d.creates.len() {
            assert(d2.creates[i] == d.creates[i]);
        }
    }
    assert forall|y: u128| pre.push(id).contains(y) && !b.contains_key(y) && #[trigger] a.contains_key(y) implies exists|
        i: int,
    | 0 <= i < d2.creates.len() && d2.creates[i].0 == y by {
        if y == id {
            assert(d2.creates[d.creates.len() as int].0 == y);
        } else {
            let i = choose|i: int| 0 <= i < d.creates.len() && d.creates[i].0 == y;
            assert(d2.creates[i] == d.creates[i]);
        }
    }
}

proof fn lemma_apply_deletes(m: Map<u128, AssetModel>, s: Seq<u128>)
    requires
        s.no_duplicates(),
        forall|i: int| 0 <= i < s.len() ==> m.contains_key(#[trigger] s[i]),
    ensures
        apply_deletes(m, s).1 is None,
        forall|k: u128|
            #[trigger] apply_deletes(m, s).0.contains_key(k) == (m.contains_key(k) && !s.contains(k)),
        forall|k: u128| #[trigger] apply_deletes(m, s).0.contains_key(k) ==> apply_deletes(m, s).0[k] == m[k],
    decreases s.len(),
{
    if s.len() > 0 {
        let p = s.drop_last();
        assert(p.no_duplicates()) by {
            assert forall|i: int, j: int| 0 <= i < p.len() && 0 <= j < p.len() && i != j implies p[i] != p[j] by {
                assert(s[i] != s[j]);
            }
        }
        lemma_apply_deletes(m, p);
        assert forall|k: u128| s.contains(k) == (p.contains(k) || k == s.last()) by {
            lemma_seq_push_contains(p, s.last(), k);
            assert(p.push(s.last()) =~= s);
        }
        assert(!p.contains(s.last())) by {
            if p.contains(s.last()) {
                let i = choose|i: int| 0 <= i < p.len() && p[i] == s.last();
                assert(s[i] == s[s.len() - 1]);
            }
        }
        assert(m.contains_key(s[s.len() - 1]));
    }
}

proof fn lemma_apply_creates(
    m: Map<u128, AssetModel>,
    s: Seq<(u128, AssetModel)>,
    types: Map<u128, crate::schema::SchemaNamedType>,
)
    requires
        forall|i: int, j: int| 0 <= i < j < s.len() ==> #[trigger] s[i].0 != #[trigger] s[j].0,
        forall|i: int| 0 <= i < s.len() ==> restored(types, (#[trigger] s[i]).1) == Ok::<
            AssetModel,
            crate::ids::DataSetError,
        >(s[i].1),
    ensures
        apply_creates(m, s, types).1 is None,
        forall|k: u128|
            #[trigger] apply_creates(m, s, types).0.contains_key(k) == (m.contains_key(k) || exists|i: int|
                0 <= i < s.len() && s[i].0 == k),
        forall|i: int| 0 <= i < s.len() ==> apply_creates(m, s, types).0[(#[trigger] s[i]).0] == s[i].1,
        forall|k: u128|
            !(exists|i: int| 0 <= i < s.len() && s[i].0 == k) && m.contains_key(k) ==> #[trigger] apply_creates(
                m,
                s,
                types,
            ).0[k] == m[k],
    decreases s.len(),
{
    if s.len() > 0 {
        let p = s.drop_last();
        lemma_apply_creates(m, p, types);
        let r = apply_creates(m, s, types).0;
        assert(restored(types, s[s.len() - 1].1) == Ok::<AssetModel, crate::ids::DataSetError>(s.last().1));
        assert forall|k: u128| #[trigger] r.contains_key(k) == (m.contains_key(k) || exists|i: int|
            0 <= i < s.len() && s[i].0 == k) by {
            if exists|i: int| 0 <= i < s.len() && s[i].0 == k {
                let i = choose|i: int| 0 <= i < s.len() && s[i].0 == k;
                if i < p.len() {
                    assert(p[i].0 == k);
                }
            }
            if exists|i: int| 0 <= i < p.len() && p[i].0 == k {
                let i = choose|i: int| 0 <= i < p.len() && p[i].0 == k;
                assert(s[i].0 == k);
            }
        }
        assert forall|i: int| 0 <= i < s.len() implies r[(#[trigger] s[i]).0] == s[i].1 by {
            if i < p.len() {
                assert(p[i] == s[i]);
                assert(s[i].0 != s[s.len() - 1].0);
            }
        }
        assert forall|k: u128|
            !(exists|i: int| 0 <= i < s.len() && s[i].0 == k) && m.contains_key(k) implies #[trigger] r[k]
            == m[k] by {
            assert(k != s[s.len() - 1].0);
            if exists|i: int| 0 <= i < p.len() && p[i].0 == k {
                let i = choose|i: int| 0 <= i < p.len() && p[i].0 == k;
                assert(s[i].0 == k);
            }
        }
    }
}

proof fn lemma_apply_changes(m: Map<u128, AssetModel>, s: Seq<(u128, AssetDiffModel)>)
    requires
        forall|i: int, j: int| 0 <= i < j < s.len() ==> #[trigger] s[i].0 != #[trigger] s[j].0,
    ensures
        apply_changes(m, s).dom() == m.dom(),
        forall|i: int|
            0 <= i < s.len() && m.contains_key((#[trigger] s[i]).0) ==> apply_changes(m, s)[s[i].0]
                == apply_asset_diff(s[i].1, m[s[i].0]),
        forall|k: u128|
            !(exists|i: int| 0 <= i < s.len() && s[i].0 == k) && m.contains_key(k) ==> #[trigger] apply_changes(
                m,
                s,
            )[k] == m[k],
    decreases s.len(),
{
    if s.len() > 0 {
        let p = s.drop_last();
        lemma_apply_changes(m, p);
        let m1 = apply_changes(m, p);
        if m1.contains_key(s.last().0) {
            assert(m1.dom().insert(s.last().0) =~= m1.dom());
        }
        let r = apply_changes(m, s);
        assert forall|i: int|
            0 <= i < s.len() && m.contains_key((#[trigger] s[i]).0) implies r[s[i].0] == apply_asset_diff(
            s[i].1,
            m[s[i].0],
        ) by {
            if i < p.len() {
                assert(p[i] == s[i]);
                assert(s[i].0 != s[s.len() - 1].0);
            } else {
                assert(!(exists|j: int| 0 <= j < p.len() && p[j].0 == s[i].0)) by {
                    if exists|j: int| 0 <= j < p.len() && p[j].0 == s[i].0 {
                        let j = choose|j: int| 0 <= j < p.len() && p[j].0 == s[i].0;
                        assert(s[j].0 != s[i].0);
                    }
                }
            }
        }
        assert forall|k: u128|
            !(exists|i: int| 0 <= i < s.len() && s[i].0 == k) && m.contains_key(k) implies #[trigger] r[k]
            == m[k] by {
            assert(k != s[s.len() - 1].0);
            if exists|i: int| 0 <= i < p.len() && p[i].0 == k {
                let i = choose|i: int| 0 <= i < p.len() && p[i].0 == k;
                assert(s[i].0 == k);
            }
        }
    }
}

/// Applying the diff from data set `b` to data set `a` (for the assets of `watched`) to `b`
/// succeeds; it gives the assets of `a` for the watched ones (a changed asset keeps its
/// import info from `b`, a path with an empty entry list may be listed or not, and a
/// property whose values compare equal keeps its value from `b`), and leaves every other
/// asset as it is in `b`.
pub proof fn law_apply_data_set_diff(
    d: DataSetDiffModel,
    b: Map<u128, AssetModel>,
    a: Map<u128, AssetModel>,
    watched: Seq<u128>,
    types: Map<u128, crate::schema::SchemaNamedType>,
)
    requires
        describes_data_set_diff(d, b, a, watched),
        forall|id: u128|
            #![trigger b.contains_key(id), a.contains_key(id)]
            watched.contains(id) && b.contains_key(id) && a.contains_key(id) ==> b[id].schema
                == a[id].schema,
        forall|id: u128|
            watched.contains(id) && !b.contains_key(id) && #[trigger] a.contains_key(id) ==> restored(
                types,
                a[id],
            ) == Ok::<AssetModel, crate::ids::DataSetError>(a[id]),
    ensures
        ({
            let (m, e) = apply_data_set_diff(d, b, types);
            &&& e is None
            &&& forall|id: u128|
                !watched.contains(id) ==> (m.contains_key(id) == b.contains_key(id) && (b.contains_key(id)
                    ==> m[id] == b[id]))
            &&& forall|id: u128| watched.contains(id) ==> m.contains_key(id) == a.contains_key(id)
            &&& forall|id: u128|
                watched.contains(id) && !b.contains_key(id) && a.contains_key(id) ==> m[id] == a[id]
            &&& forall|id: u128|
                watched.contains(id) && b.contains_key(id) && a.contains_key(id) ==> m[id] == (AssetModel {
                    import_info: b[id].import_info,
                    dynamic_array_entries: m[id].dynamic_array_entries,
                    properties: m[id].properties,
                    ..a[id]
                }) && props_agree(m[id].properties, a[id].properties) && forall|k: Seq<char>|
                    entries_at(m[id].dynamic_array_entries, k) == entries_at(
                        a[id].dynamic_array_entries,
                        k,
                    )
        }),
{
    lemma_apply_deletes(b, d.deletes);
    let m1 = apply_deletes(b, d.deletes).0;
    assert forall|i: int| 0 <= i < d.creates.len() implies restored(types, (#[trigger] d.creates[i]).1)
        == Ok::<AssetModel, crate::ids::DataSetError>(d.creates[i].1) by {
        assert(a.contains_key(d.creates[i].0));
    }
    lemma_apply_creates(m1, d.creates, types);
    let m2 = apply_creates(m1, d.creates, types).0;
    lemma_apply_changes(m2, d.changes);
    let m = apply_changes(m2, d.changes);
    assert forall|id: u128| !watched.contains(id) implies (m.contains_key(id) == b.contains_key(id) && (
    b.contains_key(id) ==> m[id] == b[id])) by {
        assert(!d.deletes.contains(id)) by {
            if d.deletes.contains(id) {
                let i = choose|i: int| 0 <= i < d.deletes.len() && d.deletes[i] == id;
                assert(watched.contains(d.deletes[i]));
            }
        }
        assert(!(exists|i: int| 0 <= i < d.creates.len() && d.creates[i].0 == id)) by {
            if exists|i: int| 0 <= i < d.creates.len() && d.creates[i].0 == id {
                let i = choose|i: int| 0 <= i < d.creates.len() && d.creates[i].0 == id;
                assert(watched.contains(d.creates[i].0));
            }
        }
        assert(!(exists|i: int| 0 <= i < d.changes.len() && d.changes[i].0 == id)) by {
            if exists|i: int| 0 <= i < d.changes.len() && d.changes[i].0 == id {
                let i = choose|i: int| 0 <= i < d.changes.len() && d.changes[i].0 == id;
                assert(watched.contains(d.changes[i].0));
            }
        }
        assert(m.dom().contains(id) == m2.dom().contains(id));
    }
    assert forall|id: u128| watched.contains(id) implies m.contains_key(id) == a.contains_key(id) by {
        assert(m.dom().contains(id) == m2.dom().contains(id));
        if b.contains_key(id) && !a.contains_key(id) {
            assert(d.deletes.contains(id));
            assert(!(exists|i: int| 0 <= i < d.creates.len() && d.creates[i].0 == id)) by {
                if exists|i: int| 0 <= i < d.creates.len() && d.creates[i].0 == id {
                    let i = choose|i: int| 0 <= i < d.creates.len() && d.creates[i].0 == id;
                    assert(!b.contains_key(d.creates[i].0));
                }
            }
        }
        if !b.contains_key(id) && a.contains_key(id) {
            let i = choose|i: int| 0 <= i < d.creates.len() && d.creates[i].0 == id;
            assert(m2.contains_key(d.creates[i].0));
        }
        if b.contains_key(id) && a.contains_key(id) {
            assert(!d.deletes.contains(id)) by {
                if d.deletes.contains(id) {
                    let i = choose|i: int| 0 <= i < d.deletes.len() && d.deletes[i] == id;
                    assert(!a.contains_key(d.deletes[i]));
                }
            }
        }
        if !b.contains_key(id) && !a.contains_key(id) {
            assert(!(exists|i: int| 0 <= i < d.creates.len() && d.creates[i].0 == id)) by {
                if exists|i: int| 0 <= i < d.creates.len() && d.creates[i].0 == id {
                    let i = choose|i: int| 0 <= i < d.creates.len() && d.creates[i].0 == id;
                    assert(a.contains_key(d.creates[i].0));
                }
            }
        }
    }
    assert forall|id: u128|
        watched.contains(id) && !b.contains_key(id) && a.contains_key(id) implies m[id] == a[id] by {
        let i = choose|i: int| 0 <= i < d.creates.len() && d.creates[i].0 == id;
        assert(m2[d.creates[i].0] == d.creates[i].1);
        assert(!(exists|j: int| 0 <= j < d.changes.len() && d.changes[j].0 == id)) by {
            if exists|j: int| 0 <= j < d.changes.len() && d.changes[j].0 == id {
                let j = choose|j: int| 0 <= j < d.changes.len() && d.changes[j].0 == id;
                assert(b.contains_key(d.changes[j].0));
            }
        }
        assert(m2.contains_key(id));
    }
    assert forall|id: u128| watched.contains(id) && b.contains_key(id) && a.contains_key(id) implies m[id]
        == (AssetModel {
        import_info: b[id].import_info,
        dynamic_array_entries: m[id].dynamic_array_entries,
        properties: m[id].properties,
        ..a[id]
    }) && props_agree(m[id].properties, a[id].properties) && forall|k: Seq<char>|
        entries_at(m[id].dynamic_array_entries, k) == entries_at(a[id].dynamic_array_entries, k) by {
        assert(!d.deletes.contains(id)) by {
            if d.deletes.contains(id) {
                let i = choose|i: int| 0 <= i < d.deletes.len() && d.deletes[i] == id;
                assert(!a.contains_key(d.deletes[i]));
            }
        }
        assert(!(exists|i: int| 0 <= i < d.creates.len() && d.creates[i].0 == id)) by {
            if exists|i: int| 0 <= i < d.creates.len() && d.creates[i].0 == id {
                let i = choose|i: int| 0 <= i < d.creates.len() && d.creates[i].0 == id;
                assert(!b.contains_key(d.creates[i].0));
            }
        }
        assert(m1.contains_key(id) && m1[id] == b[id]);
        assert(m2.contains_key(id) && m2[id] == b[id]);
        if assets_same(b[id], a[id]) {
            assert(!(exists|i: int| 0 <= i < d.changes.len() && d.changes[i].0 == id)) by {
                if exists|i: int| 0 <= i < d.changes.len() && d.changes[i].0 == id {
                    let i = choose|i: int| 0 <= i < d.changes.len() && d.changes[i].0 == id;
                    assert(!assets_same(b[d.changes[i].0], a[d.changes[i].0]));
                }
            }
            assert(m[id] == b[id]);
            assert(m[id] =~= (AssetModel {
                import_info: b[id].import_info,
                dynamic_array_entries: m[id].dynamic_array_entries,
                properties: m[id].properties,
                ..a[id]
            }));
        } else {
            let i = choose|i: int| 0 <= i < d.changes.len() && #[trigger] d.changes[i].0 == id;
            assert(m[d.changes[i].0] == apply_asset_diff(d.changes[i].1, m2[d.changes[i].0]));
            law_apply_asset_diff(d.changes[i].1, b[id], a[id]);
        }
    }
}

} // verus!
