use vstd::prelude::*;
use crate::data_set::{
    asset_models, chain_fuel, lemma_chain_ends_same,
    prototype_chain_ends, AssetModel, DataSet, DataSetAssetInfo,
};
use crate::ids::NullOverride;
use vstd::std_specs::iter::IteratorSpec;
use crate::ordered_set::OrderedSet;
use crate::prop_map::{entries_view, has_key_at, keys_distinct, lemma_entry_in_view};
use crate::property_hash::{
    asset_hash, be_bytes, lemma_asset_hash_fuel, entries_xor, ids_xor, le_bytes, null_bytes, nulls_xor,
    object_hash_bytes, option_hash_bytes, paths_xor, properties_xor, sip_hash, str_bytes, uuid_bytes,
    value_bytes,
};
use crate::single_object::SingleObject;
use crate::value::{Value, ValueModel};

verus! {

/// The xor of `h` over the items of `s`, last item last.
pub open spec fn xor_fold<A>(s: Seq<A>, h: spec_fn(A) -> u64) -> u64
    decreases s.len(),
{
    if s.len() == 0 {
        0
    } else {
        xor_fold(s.drop_last(), h) ^ h(s.last())
    }
}

proof fn lemma_xor_swap(a: u64, b: u64, c: u64)
    ensures
        (a ^ b) ^ c == (a ^ c) ^ b,
{
    assert((a ^ b) ^ c == (a ^ c) ^ b) by (bit_vector);
}

/// Taking item `i` out of a sequence takes its hash out of the xor.
pub proof fn lemma_xor_fold_remove<A>(s: Seq<A>, h: spec_fn(A) -> u64, i: int)
    requires
        0 <= i < s.len(),
    ensures
        xor_fold(s, h) == xor_fold(s.remove(i), h) ^ h(s[i]),
    decreases s.len(),
{
    if i == s.len() - 1 {
        assert(s.remove(i) =~= s.drop_last());
    } else {
        let d = s.drop_last();
        lemma_xor_fold_remove(d, h, i);
        assert(d.remove(i) =~= s.remove(i).drop_last());
        assert(s.remove(i).last() == s.last());
        lemma_xor_swap(xor_fold(d.remove(i), h), h(s[i]), h(s.last()));
    }
}

/// Two sequences that hold the same items, each once, have the same xor whatever their
/// order.
pub proof fn lemma_xor_fold_same_items<A>(s: Seq<A>, t: Seq<A>, h: spec_fn(A) -> u64)
    requires
        s.no_duplicates(),
        t.no_duplicates(),
        forall|x: A| s.contains(x) <==> t.contains(x),
    ensures
        xor_fold(s, h) == xor_fold(t, h),
    decreases s.len(),
{
    if s.len() == 0 {
        if t.len() > 0 {
            assert(t.contains(t[0]));
        }
    } else {
        let x = s.last();
        assert(s.contains(x)) by {
            assert(s[s.len() - 1] == x);
        }
        assert(t.contains(x));
        let j = choose|j: int| 0 <= j < t.len() && t[j] == x;
        let s2 = s.drop_last();
        let t2 = t.remove(j);
        assert forall|y: A| s2.contains(y) <==> t2.contains(y) by {
            if s2.contains(y) {
                let k = choose|k: int| 0 <= k < s2.len() && s2[k] == y;
                assert(s[k] == y);
                assert(y != x);
                assert(s.contains(y));
                let m = choose|m: int| 0 <= m < t.len() && t[m] == y;
                assert(m != j);
                if m < j {
                    assert(t2[m] == y);
                } else {
                    assert(t2[m - 1] == y);
                }
            }
            if t2.contains(y) {
                let k = choose|k: int| 0 <= k < t2.len() && t2[k] == y;
                let m = if k < j {
                    k
                } else {
                    k + 1
                };
                assert(t[m] == y);
                assert(y != x);
                assert(s.contains(y));
                let n = choose|n: int| 0 <= n < s.len() && s[n] == y;
                assert(n != s.len() - 1);
                assert(s2[n] == y);
            }
        }
        assert forall|a: int, b: int| 0 <= a < s2.len() && 0 <= b < s2.len() && a != b implies s2[a]
            != s2[b] by {
            assert(s2[a] == s[a] && s2[b] == s[b]);
        }
        assert forall|a: int, b: int| 0 <= a < t2.len() && 0 <= b < t2.len() && a != b implies t2[a]
            != t2[b] by {
            let a2 = if a < j {
                a
            } else {
                a + 1
            };
            let b2 = if b < j {
                b
            } else {
                b + 1
            };
            assert(t2[a] == t[a2] && t2[b] == t[b2]);
        }
        lemma_xor_fold_same_items(s2, t2, h);
        lemma_xor_fold_remove(t, h, j);
    }
}

/// The entries of a keyed list as (key, model) pairs, the model of a value given by `f`.
pub open spec fn keyed_items<V, W>(s: Seq<(String, V)>, f: spec_fn(V) -> W) -> Seq<(Seq<char>, W)> {
    s.map_values(|e: (String, V)| (e.0@, f(e.1)))
}

/// A keyed list without duplicate keys lists each (key, model) pair of its map once.
pub proof fn lemma_keyed_items<V, W>(s: Seq<(String, V)>, f: spec_fn(V) -> W)
    requires
        keys_distinct(s),
    ensures
        keyed_items(s, f).no_duplicates(),
        forall|k: Seq<char>, w: W| #[trigger]
            keyed_items(s, f).contains((k, w)) <==> (entries_view(s).contains_key(k) && f(
                entries_view(s)[k],
            ) == w),
{
    let items = keyed_items(s, f);
    assert forall|a: int, b: int| 0 <= a < items.len() && 0 <= b < items.len() && a != b implies items[a]
        != items[b] by {
        assert(items[a].0 == s[a].0@ && items[b].0 == s[b].0@);
    }
    assert forall|k: Seq<char>, w: W| #[trigger]
        items.contains((k, w)) <==> (entries_view(s).contains_key(k) && f(entries_view(s)[k]) == w) by {
        if items.contains((k, w)) {
            let i = choose|i: int| 0 <= i < items.len() && items[i] == (k, w);
            lemma_entry_in_view(s, i);
            assert(has_key_at(s, k, i));
        }
        if entries_view(s).contains_key(k) && f(entries_view(s)[k]) == w {
            let i = choose|i: int| has_key_at(s, k, i);
            lemma_entry_in_view(s, i);
            assert(items[i] == (k, w));
        }
    }
}

/// Two keyed lists without duplicate keys whose maps agree on every model have the same
/// xor of (key, model) hashes, whatever the order of their entries.
pub proof fn lemma_keyed_xor_same_map<V, W>(
    s: Seq<(String, V)>,
    t: Seq<(String, V)>,
    f: spec_fn(V) -> W,
    h: spec_fn((Seq<char>, W)) -> u64,
)
    requires
        keys_distinct(s),
        keys_distinct(t),
        entries_view(s).dom() == entries_view(t).dom(),
        forall|k: Seq<char>| #[trigger]
            entries_view(s).contains_key(k) ==> f(entries_view(s)[k]) == f(entries_view(t)[k]),
    ensures
        xor_fold(keyed_items(s, f), h) == xor_fold(keyed_items(t, f), h),
{
    lemma_keyed_items(s, f);
    lemma_keyed_items(t, f);
    assert forall|x: (Seq<char>, W)| keyed_items(s, f).contains(x) <==> keyed_items(t, f).contains(x) by {
        assert(keyed_items(s, f).contains((x.0, x.1)) == keyed_items(s, f).contains(x));
        assert(keyed_items(t, f).contains((x.0, x.1)) == keyed_items(t, f).contains(x));
        if entries_view(s).contains_key(x.0) {
            assert(entries_view(t).contains_key(x.0));
        }
    }
    lemma_xor_fold_same_items(keyed_items(s, f), keyed_items(t, f), h);
}

/// The model of a property value.
pub open spec fn value_model_fn() -> spec_fn(Value) -> ValueModel {
    |v: Value| v@
}

/// The hash of a (path, value) entry.
pub open spec fn property_item_hash() -> spec_fn((Seq<char>, ValueModel)) -> u64 {
    |m: (Seq<char>, ValueModel)| sip_hash(str_bytes(m.0) + value_bytes(m.1))
}

/// A null override is its own model.
pub open spec fn null_model_fn() -> spec_fn(NullOverride) -> NullOverride {
    |n: NullOverride| n
}

/// The hash of a (path, null override) entry.
pub open spec fn null_item_hash() -> spec_fn((Seq<char>, NullOverride)) -> u64 {
    |m: (Seq<char>, NullOverride)| sip_hash(str_bytes(m.0) + null_bytes(m.1))
}

/// The model of a list of entry ids.
pub open spec fn ids_model_fn() -> spec_fn(OrderedSet) -> Seq<u128> {
    |o: OrderedSet| o@
}

/// The hash of a (path, entry ids) pair.
pub open spec fn entries_item_hash() -> spec_fn((Seq<char>, Seq<u128>)) -> u64 {
    |m: (Seq<char>, Seq<u128>)| sip_hash(str_bytes(m.0) + le_bytes(ids_xor(m.1) as nat, 8))
}

/// The hash of a path.
pub open spec fn path_hash() -> spec_fn(Seq<char>) -> u64 {
    |p: Seq<char>| sip_hash(str_bytes(p))
}

proof fn lemma_properties_xor_items(s: Seq<(String, Value)>)
    ensures
        properties_xor(s) == xor_fold(keyed_items(s, value_model_fn()), property_item_hash()),
    decreases s.len(),
{
    if s.len() > 0 {
        lemma_properties_xor_items(s.drop_last());
        assert(keyed_items(s.drop_last(), value_model_fn()) =~= keyed_items(s, value_model_fn()).drop_last());
    }
}

proof fn lemma_nulls_xor_items(s: Seq<(String, NullOverride)>)
    ensures
        nulls_xor(s) == xor_fold(keyed_items(s, null_model_fn()), null_item_hash()),
    decreases s.len(),
{
    if s.len() > 0 {
        lemma_nulls_xor_items(s.drop_last());
        assert(keyed_items(s.drop_last(), null_model_fn()) =~= keyed_items(s, null_model_fn()).drop_last());
    }
}

proof fn lemma_entries_xor_items(s: Seq<(String, OrderedSet)>)
    ensures
        entries_xor(s) == xor_fold(keyed_items(s, ids_model_fn()), entries_item_hash()),
    decreases s.len(),
{
    if s.len() > 0 {
        lemma_entries_xor_items(s.drop_last());
        assert(keyed_items(s.drop_last(), ids_model_fn()) =~= keyed_items(s, ids_model_fn()).drop_last());
    }
}

proof fn lemma_paths_xor_items(s: Seq<Seq<char>>)
    ensures
        paths_xor(s) == xor_fold(s, path_hash()),
    decreases s.len(),
{
    if s.len() > 0 {
        lemma_paths_xor_items(s.drop_last());
    }
}

/// The maps of a standalone object are well formed (true of every object the library
/// builds).
pub open spec fn object_maps_wf(o: SingleObject) -> bool {
    &&& o.property_map().wf()
    &&& o.null_map().wf()
    &&& o.entries_map().wf()
}

/// The hash of a standalone object is a function of its content: two objects with the same
/// schema, properties, null overrides and entries feed the hasher the same bytes, whatever
/// the order in which their entries were set.
pub proof fn law_object_hash_follows_content(a: SingleObject, b: SingleObject)
    requires
        object_maps_wf(a),
        object_maps_wf(b),
        a@ == b@,
    ensures
        object_hash_bytes(a) == object_hash_bytes(b),
{
    a.lemma_maps();
    b.lemma_maps();
    a.property_map().lemma_entries();
    b.property_map().lemma_entries();
    a.null_map().lemma_entries();
    b.null_map().lemma_entries();
    a.entries_map().lemma_entries();
    b.entries_map().lemma_entries();
    let (pa, pb) = (a.property_map().entry_seq(), b.property_map().entry_seq());
    let (na, nb) = (a.null_map().entry_seq(), b.null_map().entry_seq());
    let (ea, eb) = (a.entries_map().entry_seq(), b.entries_map().entry_seq());
    assert(entries_view(pa).dom() == entries_view(pb).dom()) by {
        assert(a@.properties.dom() == entries_view(pa).dom());
        assert(b@.properties.dom() == entries_view(pb).dom());
    }
    assert forall|k: Seq<char>| #[trigger] entries_view(pa).contains_key(k) implies value_model_fn()(
        entries_view(pa)[k],
    ) == value_model_fn()(entries_view(pb)[k]) by {
        assert(a@.properties[k] == entries_view(pa)[k]@);
        assert(b@.properties[k] == entries_view(pb)[k]@);
    }
    lemma_keyed_xor_same_map(pa, pb, value_model_fn(), property_item_hash());
    lemma_properties_xor_items(pa);
    lemma_properties_xor_items(pb);
    lemma_keyed_xor_same_map(na, nb, null_model_fn(), null_item_hash());
    lemma_nulls_xor_items(na);
    lemma_nulls_xor_items(nb);
    assert(entries_view(ea).dom() == entries_view(eb).dom()) by {
        assert(a@.entries.dom() == entries_view(ea).dom());
        assert(b@.entries.dom() == entries_view(eb).dom());
    }
    assert forall|k: Seq<char>| #[trigger] entries_view(ea).contains_key(k) implies ids_model_fn()(
        entries_view(ea)[k],
    ) == ids_model_fn()(entries_view(eb)[k]) by {
        assert(a@.entries[k] == entries_view(ea)[k]@);
        assert(b@.entries[k] == entries_view(eb)[k]@);
    }
    lemma_keyed_xor_same_map(ea, eb, ids_model_fn(), entries_item_hash());
    lemma_entries_xor_items(ea);
    lemma_entries_xor_items(eb);
}

/// The maps of an asset are well formed (true of every asset the library builds).
pub open spec fn info_maps_wf(a: DataSetAssetInfo) -> bool {
    &&& a.property_map().wf()
    &&& a.null_map().wf()
    &&& a.replace_set().wf()
    &&& a.entries_map().wf()
}

/// Two sets of assets that agree on what the hash reads: the same assets, each with the
/// same schema, prototype, properties, null overrides, replace-mode paths and entries.
pub open spec fn same_hashed_parts(m: Map<u128, DataSetAssetInfo>, m2: Map<u128, DataSetAssetInfo>) -> bool {
    &&& m.dom() == m2.dom()
    &&& forall|k: u128| #[trigger]
        m.contains_key(k) ==> {
            &&& m2[k]@.schema == m[k]@.schema
            &&& m2[k]@.prototype == m[k]@.prototype
            &&& m2[k]@.properties == m[k]@.properties
            &&& m2[k]@.null_overrides == m[k]@.null_overrides
            &&& m2[k]@.replace_mode == m[k]@.replace_mode
            &&& m2[k]@.dynamic_array_entries == m[k]@.dynamic_array_entries
        }
}

/// Two assets that agree on what the hash reads have the same xor for each of their maps.
proof fn lemma_same_xors(a: DataSetAssetInfo, b: DataSetAssetInfo)
    requires
        info_maps_wf(a),
        info_maps_wf(b),
        a@.properties == b@.properties,
        a@.null_overrides == b@.null_overrides,
        a@.replace_mode == b@.replace_mode,
        a@.dynamic_array_entries == b@.dynamic_array_entries,
    ensures
        properties_xor(a.property_map().entry_seq()) == properties_xor(b.property_map().entry_seq()),
        nulls_xor(a.null_map().entry_seq()) == nulls_xor(b.null_map().entry_seq()),
        paths_xor(a.replace_set().path_seq()) == paths_xor(b.replace_set().path_seq()),
        entries_xor(a.entries_map().entry_seq()) == entries_xor(b.entries_map().entry_seq()),
{
    a.lemma_maps();
    b.lemma_maps();
    a.property_map().lemma_entries();
    b.property_map().lemma_entries();
    a.null_map().lemma_entries();
    b.null_map().lemma_entries();
    a.entries_map().lemma_entries();
    b.entries_map().lemma_entries();
    a.replace_set().lemma_paths();
    b.replace_set().lemma_paths();
    let (pa, pb) = (a.property_map().entry_seq(), b.property_map().entry_seq());
    let (na, nb) = (a.null_map().entry_seq(), b.null_map().entry_seq());
    let (ea, eb) = (a.entries_map().entry_seq(), b.entries_map().entry_seq());
    assert(entries_view(pa).dom() == entries_view(pb).dom()) by {
        assert(a@.properties.dom() == entries_view(pa).dom());
        assert(b@.properties.dom() == entries_view(pb).dom());
    }
    assert forall|k: Seq<char>| #[trigger] entries_view(pa).contains_key(k) implies value_model_fn()(
        entries_view(pa)[k],
    ) == value_model_fn()(entries_view(pb)[k]) by {
        assert(a@.properties[k] == entries_view(pa)[k]@);
        assert(b@.properties[k] == entries_view(pb)[k]@);
    }
    lemma_keyed_xor_same_map(pa, pb, value_model_fn(), property_item_hash());
    lemma_properties_xor_items(pa);
    lemma_properties_xor_items(pb);
    lemma_keyed_xor_same_map(na, nb, null_model_fn(), null_item_hash());
    lemma_nulls_xor_items(na);
    lemma_nulls_xor_items(nb);
    assert(entries_view(ea).dom() == entries_view(eb).dom()) by {
        assert(a@.dynamic_array_entries.dom() == entries_view(ea).dom());
        assert(b@.dynamic_array_entries.dom() == entries_view(eb).dom());
    }
    assert forall|k: Seq<char>| #[trigger] entries_view(ea).contains_key(k) implies ids_model_fn()(
        entries_view(ea)[k],
    ) == ids_model_fn()(entries_view(eb)[k]) by {
        assert(a@.dynamic_array_entries[k] == entries_view(ea)[k]@);
        assert(b@.dynamic_array_entries[k] == entries_view(eb)[k]@);
    }
    lemma_keyed_xor_same_map(ea, eb, ids_model_fn(), entries_item_hash());
    lemma_entries_xor_items(ea);
    lemma_entries_xor_items(eb);
    let (ra, rb) = (a.replace_set().path_seq(), b.replace_set().path_seq());
    assert forall|p: Seq<char>| ra.contains(p) <==> rb.contains(p) by {
        assert(a@.replace_mode.contains(p) == ra.contains(p));
        assert(b@.replace_mode.contains(p) == rb.contains(p));
    }
    lemma_xor_fold_same_items(ra, rb, path_hash());
    lemma_paths_xor_items(ra);
    lemma_paths_xor_items(rb);
}

/// The property hash of an asset reads only its schema, its prototype's hash and the
/// content of its maps: it does not depend on the asset's name, location, import
/// information or build information (nor on those of its prototypes), nor on the order in
/// which its entries were set.
pub proof fn law_hash_ignores_names_and_locations(
    m: Map<u128, DataSetAssetInfo>,
    m2: Map<u128, DataSetAssetInfo>,
    id: u128,
    n: nat,
)
    requires
        forall|k: u128| #[trigger] m.contains_key(k) ==> info_maps_wf(m[k]),
        forall|k: u128| #[trigger] m2.contains_key(k) ==> info_maps_wf(m2[k]),
        same_hashed_parts(m, m2),
    ensures
        asset_hash(m, id, n) == asset_hash(m2, id, n),
    decreases n,
{
    if m.contains_key(id) {
        assert(m2.contains_key(id));
        lemma_same_xors(m[id], m2[id]);
        if let Some(p) = m[id]@.prototype {
            if n > 0 {
                law_hash_ignores_names_and_locations(m, m2, p, (n - 1) as nat);
            }
        }
    } else {
        assert(!m2.contains_key(id));
    }
}

/// The assets of `m2` are those of `m` with at most their names, locations, import
/// information and file-reference overrides changed (what `set_asset_name`,
/// `set_asset_location`, `set_import_info` and `set_file_reference_override` change).
pub open spec fn only_metadata_changed(m: Map<u128, AssetModel>, m2: Map<u128, AssetModel>) -> bool {
    &&& m.dom() == m2.dom()
    &&& forall|k: u128| #[trigger]
        m.contains_key(k) ==> m2[k] == (AssetModel {
            name: m2[k].name,
            location: m2[k].location,
            import_info: m2[k].import_info,
            file_reference_overrides: m2[k].file_reference_overrides,
            ..m[k]
        })
}

/// Renaming or moving assets, and changing their import information or file-reference
/// overrides, leaves the property hash of every asset as it was.
pub proof fn law_hash_ignores_metadata_setters(d: DataSet, d2: DataSet, id: u128)
    requires
        forall|k: u128| #[trigger] d.infos().contains_key(k) ==> info_maps_wf(d.infos()[k]),
        forall|k: u128| #[trigger] d2.infos().contains_key(k) ==> info_maps_wf(d2.infos()[k]),
        only_metadata_changed(d@, d2@),
        prototype_chain_ends(d@, id),
    ensures
        prototype_chain_ends(d2@, id),
        asset_hash(d.infos(), id, chain_fuel(d@, id)) == asset_hash(d2.infos(), id, chain_fuel(d2@, id)),
{
    d.lemma_infos();
    d2.lemma_infos();
    let (m, m2) = (d.infos(), d2.infos());
    let n1 = chain_fuel(d@, id);
    assert forall|k: u128| #[trigger] d@.contains_key(k) implies d@[k].prototype == d2@[k].prototype by {
        assert(d2@[k].prototype == d@[k].prototype);
    }
    lemma_chain_ends_same(d@, d2@, id, n1);
    let n2 = chain_fuel(d2@, id);
    let n = if n1 <= n2 { n2 } else { n1 };
    assert(m.dom() == d@.dom() && m2.dom() == d2@.dom()) by {
        assert(asset_models(m).dom() == m.dom());
        assert(asset_models(m2).dom() == m2.dom());
    }
    assert(same_hashed_parts(m, m2)) by {
        assert forall|k: u128| #[trigger] m.contains_key(k) implies {
            &&& m2[k]@.schema == m[k]@.schema
            &&& m2[k]@.prototype == m[k]@.prototype
            &&& m2[k]@.properties == m[k]@.properties
            &&& m2[k]@.null_overrides == m[k]@.null_overrides
            &&& m2[k]@.replace_mode == m[k]@.replace_mode
            &&& m2[k]@.dynamic_array_entries == m[k]@.dynamic_array_entries
        } by {
            assert(asset_models(m)[k] == m[k]@);
            assert(asset_models(m2)[k] == m2[k]@);
            assert(d@.contains_key(k));
        }
    }
    lemma_asset_hash_fuel(m, id, n1, n);
    lemma_asset_hash_fuel(m2, id, n2, n);
    law_hash_ignores_names_and_locations(m, m2, id, n);
}

/// Every asset whose prototype chain ends in `d` has the same property hash in `d2`.
pub open spec fn property_hashes_kept(d: DataSet, d2: DataSet) -> bool {
    forall|x: u128|
        prototype_chain_ends(d@, x) ==> #[trigger] asset_hash(d2.infos(), x, chain_fuel(d2@, x))
            == asset_hash(d.infos(), x, chain_fuel(d@, x))
}

/// A change of names, locations, import information or file-reference overrides keeps
/// every property hash.
pub proof fn lemma_metadata_change_keeps_hashes(d: DataSet, d2: DataSet)
    requires
        forall|k: u128| #[trigger] d.infos().contains_key(k) ==> info_maps_wf(d.infos()[k]),
        forall|k: u128| #[trigger] d2.infos().contains_key(k) ==> info_maps_wf(d2.infos()[k]),
        only_metadata_changed(d@, d2@),
    ensures
        property_hashes_kept(d, d2),
{
    assert forall|x: u128| prototype_chain_ends(d@, x) implies #[trigger] asset_hash(
        d2.infos(),
        x,
        chain_fuel(d2@, x),
    ) == asset_hash(d.infos(), x, chain_fuel(d@, x)) by {
        law_hash_ignores_metadata_setters(d, d2, x);
    }
}

impl DataSetAssetInfo {
    /// The asset's maps are well formed, as every asset's are.
    pub fn lemma_maps_wf(&self)
        ensures
            info_maps_wf(*self),
    {
        self.properties().lemma_wf();
        self.property_null_overrides().lemma_wf();
        self.properties_in_replace_mode().lemma_wf();
        self.dynamic_array_entries().lemma_wf();
    }
}

impl DataSet {
    /// Every asset's maps are well formed (what `law_hash_ignores_names_and_locations` and
    /// `law_hash_ignores_metadata_setters` ask of the data sets they compare).
    pub fn lemma_assets_wf(&self)
        ensures
            forall|k: u128| #[trigger] self.infos().contains_key(k) ==> info_maps_wf(self.infos()[k]),
    {
        let assets = self.assets();
        let ghost all = vstd::std_specs::hash::spec_keys_iter(assets).remaining();
        let ghost mut seen: int = 0;
        for k in it: assets.keys()
            invariant
                it.seq() == all,
                seen == it.index(),
                all.unref().to_set() == self.infos().dom(),
                assets@ == self.infos(),
                forall|j: int| 0 <= j < seen ==> info_maps_wf(self.infos()[#[trigger] *all[j]]),
        {
            assert(all.unref()[seen] == *k);
            if let Some(info) = assets.get(k) {
                info.lemma_maps_wf();
            } else {
                assert(all.unref().to_set().contains(*k));
            }
            proof {
                seen = seen + 1;
            }
        }
        assert forall|f: u128| #[trigger] self.infos().contains_key(f) implies info_maps_wf(self.infos()[f]) by {
            assert(all.unref().to_set().contains(f));
            let j = choose|j: int| 0 <= j < all.unref().len() && all.unref()[j] == f;
            assert(*all[j] == f);
        }
    }
}


/// 256 to the power `n`: one more than the largest number `n` bytes hold.
spec fn pow256(n: nat) -> nat
    decreases n,
{
    if n == 0 {
        1
    } else {
        256 * pow256((n - 1) as nat)
    }
}

proof fn lemma_le_bytes_len(x: nat, n: nat)
    ensures
        le_bytes(x, n).len() == n,
    decreases n,
{
    if n > 0 {
        lemma_le_bytes_len(x / 256, (n - 1) as nat);
    }
}

proof fn lemma_be_bytes_len(x: nat, n: nat)
    ensures
        be_bytes(x, n).len() == n,
    decreases n,
{
    if n > 0 {
        lemma_be_bytes_len(x / 256, (n - 1) as nat);
    }
}

/// Two numbers that fit in `n` bytes have the same `n` low bytes only if they are equal.
proof fn lemma_le_bytes_injective(x: nat, y: nat, n: nat)
    requires
        le_bytes(x, n) == le_bytes(y, n),
        x < pow256(n),
        y < pow256(n),
    ensures
        x == y,
    decreases n,
{
    if n > 0 {
        let k = (n - 1) as nat;
        assert(le_bytes(x, n)[0] == (x % 256) as u8);
        assert(le_bytes(y, n)[0] == (y % 256) as u8);
        assert(x % 256 == y % 256);
        assert(le_bytes(x / 256, k) =~= le_bytes(x, n).drop_first());
        assert(le_bytes(y / 256, k) =~= le_bytes(y, n).drop_first());
        let q = pow256(k);
        assert(x / 256 < q) by (nonlinear_arith)
            requires
                x < 256 * q,
        ;
        assert(y / 256 < q) by (nonlinear_arith)
            requires
                y < 256 * q,
        ;
        lemma_le_bytes_injective(x / 256, y / 256, k);
    }
}

/// Different optional hashes feed the hasher different bytes.
proof fn lemma_option_hash_bytes_injective(h1: Option<u64>, h2: Option<u64>)
    requires
        option_hash_bytes(h1) == option_hash_bytes(h2),
    ensures
        h1 == h2,
{
    lemma_le_bytes_len(1, 8);
    lemma_le_bytes_len(0, 8);
    match (h1, h2) {
        (Some(x1), Some(x2)) => {
            lemma_le_bytes_len(x1 as nat, 8);
            lemma_le_bytes_len(x2 as nat, 8);
            let o1 = option_hash_bytes(h1);
            assert(le_bytes(x1 as nat, 8) =~= o1.subrange(8, 16));
            assert(le_bytes(x2 as nat, 8) =~= option_hash_bytes(h2).subrange(8, 16));
            reveal_with_fuel(pow256, 9);
            assert(pow256(8) == 0x1_0000_0000_0000_0000);
            lemma_le_bytes_injective(x1 as nat, x2 as nat, 8);
        },
        (Some(x1), None) => {
            lemma_le_bytes_len(x1 as nat, 8);
            assert(option_hash_bytes(h1).len() == 16);
        },
        (None, Some(x2)) => {
            lemma_le_bytes_len(x2 as nat, 8);
            assert(option_hash_bytes(h2).len() == 16);
        },
        (None, None) => {},
    }
}

/// The property hash of an asset that has a prototype takes in its prototype's hash: when
/// the same asset lies in two data sets and its prototype hashes differently in them, the
/// asset's two hashes are SipHash values of two different byte streams.
pub proof fn law_hash_reads_prototype_hash(
    m: Map<u128, DataSetAssetInfo>,
    m2: Map<u128, DataSetAssetInfo>,
    id: u128,
    n: nat,
)
    requires
        m.contains_key(id),
        m2.contains_key(id),
        m2[id] == m[id],
        m[id]@.prototype is Some,
        n > 0,
        asset_hash(m, m[id]@.prototype->0, (n - 1) as nat) != asset_hash(
            m2,
            m[id]@.prototype->0,
            (n - 1) as nat,
        ),
    ensures
        exists|b1: Seq<u8>, b2: Seq<u8>|
            #![trigger sip_hash(b1), sip_hash(b2)]
            b1 != b2 && asset_hash(m, id, n) == Some(sip_hash(b1)) && asset_hash(m2, id, n) == Some(
                sip_hash(b2),
            ),
{
    let a = m[id];
    let p = a@.prototype->0;
    let h1 = asset_hash(m, p, (n - 1) as nat);
    let h2 = asset_hash(m2, p, (n - 1) as nat);
    let u = uuid_bytes(a@.schema);
    let la = le_bytes(properties_xor(a.property_map().entry_seq()) as nat, 8);
    let lb = le_bytes(nulls_xor(a.null_map().entry_seq()) as nat, 8);
    let lc = le_bytes(paths_xor(a.replace_set().path_seq()) as nat, 8);
    let ld = le_bytes(entries_xor(a.entries_map().entry_seq()) as nat, 8);
    let o1 = option_hash_bytes(h1);
    let o2 = option_hash_bytes(h2);
    let b1 = u + o1 + la + lb + lc + ld;
    let b2 = u + o2 + la + lb + lc + ld;
    assert(asset_hash(m, id, n) == Some(sip_hash(b1)));
    assert(asset_hash(m2, id, n) == Some(sip_hash(b2)));
    lemma_le_bytes_len(16, 8);
    lemma_be_bytes_len(a@.schema as nat, 16);
    assert(u.len() == 24);
    lemma_le_bytes_len(properties_xor(a.property_map().entry_seq()) as nat, 8);
    lemma_le_bytes_len(nulls_xor(a.null_map().entry_seq()) as nat, 8);
    lemma_le_bytes_len(paths_xor(a.replace_set().path_seq()) as nat, 8);
    lemma_le_bytes_len(entries_xor(a.entries_map().entry_seq()) as nat, 8);
    assert(la.len() == 8 && lb.len() == 8 && lc.len() == 8 && ld.len() == 8);
    assert(b1.len() == 56 + o1.len());
    assert(b2.len() == 56 + o2.len());
    if b1 == b2 {
        assert(o1.len() == o2.len());
        assert(o1 =~= b1.subrange(24, (24 + o1.len()) as int));
        assert(o2 =~= b2.subrange(24, (24 + o2.len()) as int));
        lemma_option_hash_bytes_injective(h1, h2);
    }
    assert(b1 != b2);
}

} // verus!
