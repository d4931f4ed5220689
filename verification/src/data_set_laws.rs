use vstd::prelude::*;
use crate::data_set::{
    asset_fp, chain_ends, chain_fuel, dynamic_array_walk, entry_parents_error,
    file_references_walk, fresh_asset, key_paths, keys_of, lemma_chain_ends_same,
    location_chain, location_walk, map_get, own_entries, replaces_parent_entries, null_override_walk, nullable_parents_error,
    override_behavior_at, parent_paths_error, property_schema_at, property_walk,
    property_write_error, prototype_chain_ends, resolved_dynamic_array, resolved_null_override,
    resolved_property, stored_null_override, with_null_override, with_property, AssetModel,
};
use crate::ids::{AssetId, DataSetError, NullOverride, OverrideBehavior};
use crate::schema::{Schema, SchemaNamedType};
use crate::value::ValueModel;

verus! {

/// Two data sets that differ at most in the property values their assets set.
pub open spec fn same_but_properties(m: Map<u128, AssetModel>, m2: Map<u128, AssetModel>) -> bool {
    &&& m.dom() == m2.dom()
    &&& forall|k: u128| #[trigger]
        m.contains_key(k) ==> m2[k] == (AssetModel { properties: m2[k].properties, ..m[k] })
}

proof fn lemma_same_chain(m: Map<u128, AssetModel>, m2: Map<u128, AssetModel>, id: u128, n: nat)
    requires
        same_but_properties(m, m2),
        chain_ends(m, id, n),
    ensures
        chain_ends(m2, id, n),
{
    assert forall|k: u128| #[trigger] m.contains_key(k) implies m[k].prototype == m2[k].prototype by {
        assert(m2[k] == (AssetModel { properties: m2[k].properties, ..m[k] }));
    }
    lemma_chain_ends_same(m, m2, id, n);
}

proof fn lemma_null_walk_fuel(m: Map<u128, AssetModel>, id: u128, path: Seq<char>, n: nat, n2: nat)
    requires
        chain_ends(m, id, n),
        n <= n2,
    ensures
        null_override_walk(m, id, path, n) == null_override_walk(m, id, path, n2),
    decreases n,
{
    if m.contains_key(id) && !m[id].null_overrides.contains_key(path) {
        if let Some(p) = m[id].prototype {
            lemma_null_walk_fuel(m, p, path, (n - 1) as nat, (n2 - 1) as nat);
        }
    }
}

proof fn lemma_dyn_walk_fuel(
    m: Map<u128, AssetModel>,
    id: u128,
    path: Seq<char>,
    d: Seq<Seq<char>>,
    mp: Seq<Seq<char>>,
    n: nat,
    n2: nat,
)
    requires
        chain_ends(m, id, n),
        n <= n2,
    ensures
        dynamic_array_walk(m, id, path, d, mp, n) == dynamic_array_walk(m, id, path, d, mp, n2),
    decreases n,
{
    if m.contains_key(id) {
        if let Some(p) = m[id].prototype {
            lemma_dyn_walk_fuel(m, p, path, d, mp, (n - 1) as nat, (n2 - 1) as nat);
        }
    }
}

proof fn lemma_prop_walk_fuel(m: Map<u128, AssetModel>, id: u128, path: Seq<char>, n: nat, n2: nat)
    requires
        chain_ends(m, id, n),
        n <= n2,
    ensures
        property_walk(m, id, path, n) == property_walk(m, id, path, n2),
    decreases n,
{
    if m.contains_key(id) && !m[id].properties.contains_key(path) {
        if let Some(p) = m[id].prototype {
            lemma_prop_walk_fuel(m, p, path, (n - 1) as nat, (n2 - 1) as nat);
        }
    }
}

proof fn lemma_null_walk_same(
    m: Map<u128, AssetModel>,
    m2: Map<u128, AssetModel>,
    id: u128,
    path: Seq<char>,
    n: nat,
)
    requires
        same_but_properties(m, m2),
    ensures
        null_override_walk(m, id, path, n) == null_override_walk(m2, id, path, n),
    decreases n,
{
    if m.contains_key(id) {
        assert(m2[id] == (AssetModel { properties: m2[id].properties, ..m[id] }));
        if let Some(p) = m[id].prototype {
            if n > 0 {
                lemma_null_walk_same(m, m2, p, path, (n - 1) as nat);
            }
        }
    }
}

proof fn lemma_dyn_walk_same(
    m: Map<u128, AssetModel>,
    m2: Map<u128, AssetModel>,
    id: u128,
    path: Seq<char>,
    d: Seq<Seq<char>>,
    mp: Seq<Seq<char>>,
    n: nat,
)
    requires
        same_but_properties(m, m2),
    ensures
        dynamic_array_walk(m, id, path, d, mp, n) == dynamic_array_walk(m2, id, path, d, mp, n),
    decreases n,
{
    if m.contains_key(id) {
        assert(m2[id] == (AssetModel { properties: m2[id].properties, ..m[id] }));
        if let Some(p) = m[id].prototype {
            if n > 0 {
                lemma_dyn_walk_same(m, m2, p, path, d, mp, (n - 1) as nat);
            }
        }
    }
}

/// The walks of two data sets that differ only in properties agree, whatever step counts
/// within which their chains end are used.
proof fn lemma_walks_same(
    m: Map<u128, AssetModel>,
    m2: Map<u128, AssetModel>,
    id: u128,
    path: Seq<char>,
    d: Seq<Seq<char>>,
    mp: Seq<Seq<char>>,
)
    requires
        same_but_properties(m, m2),
        prototype_chain_ends(m, id),
    ensures
        prototype_chain_ends(m2, id),
        null_override_walk(m, id, path, chain_fuel(m, id)) == null_override_walk(
            m2,
            id,
            path,
            chain_fuel(m2, id),
        ),
        dynamic_array_walk(m, id, path, d, mp, chain_fuel(m, id)) == dynamic_array_walk(
            m2,
            id,
            path,
            d,
            mp,
            chain_fuel(m2, id),
        ),
{
    let n1 = chain_fuel(m, id);
    lemma_same_chain(m, m2, id, n1);
    let n2 = chain_fuel(m2, id);
    lemma_null_walk_same(m, m2, id, path, n1);
    lemma_dyn_walk_same(m, m2, id, path, d, mp, n1);
    if n1 <= n2 {
        lemma_null_walk_fuel(m2, id, path, n1, n2);
        lemma_dyn_walk_fuel(m2, id, path, d, mp, n1, n2);
    } else {
        lemma_null_walk_fuel(m2, id, path, n2, n1);
        lemma_dyn_walk_fuel(m2, id, path, d, mp, n2, n1);
    }
}

/// Resolving null overrides and dynamic arrays, and checking the containers of a path,
/// do not depend on the property values that assets set.
pub proof fn lemma_resolution_ignores_properties(
    m: Map<u128, AssetModel>,
    m2: Map<u128, AssetModel>,
    types: Map<u128, SchemaNamedType>,
    id: u128,
    path: Seq<char>,
)
    requires
        same_but_properties(m, m2),
        prototype_chain_ends(m, id),
    ensures
        resolved_null_override(m, types, id, path) == resolved_null_override(m2, types, id, path),
        resolved_dynamic_array(m, types, id, path) == resolved_dynamic_array(m2, types, id, path),
        m.contains_key(id) ==> parent_paths_error(m, types, id, path) == parent_paths_error(
            m2,
            types,
            id,
            path,
        ),
    decreases path.len(), 2int, 0int,
{
    if m.contains_key(id) {
        assert(m2[id] == (AssetModel { properties: m2[id].properties, ..m[id] }));
        assert(asset_fp(m, id) == asset_fp(m2, id));
        lemma_parents_ignore_properties(m, m2, types, id, path);
        let f = asset_fp(m, id);
        lemma_walks_same(
            m,
            m2,
            id,
            path,
            crate::data_set::key_paths(crate::data_set::keys_of(f, path, types, 1)),
            crate::data_set::key_paths(crate::data_set::keys_of(f, path, types, 2)),
        );
    }
}

proof fn lemma_parents_ignore_properties(
    m: Map<u128, AssetModel>,
    m2: Map<u128, AssetModel>,
    types: Map<u128, SchemaNamedType>,
    id: u128,
    path: Seq<char>,
)
    requires
        same_but_properties(m, m2),
        prototype_chain_ends(m, id),
        m.contains_key(id),
    ensures
        parent_paths_error(m, types, id, path) == parent_paths_error(m2, types, id, path),
    decreases path.len(), 1int, 0int,
{
    assert(m2[id] == (AssetModel { properties: m2[id].properties, ..m[id] }));
    let f = asset_fp(m, id);
    assert(f == asset_fp(m2, id));
    lemma_nullables_ignore_properties(
        m,
        m2,
        types,
        id,
        path,
        crate::data_set::nullables_of(f, path, types),
        0,
    );
    lemma_entries_ignore_properties(
        m,
        m2,
        types,
        id,
        path,
        crate::data_set::keys_of(f, path, types, 1),
        0,
    );
}

proof fn lemma_nullables_ignore_properties(
    m: Map<u128, AssetModel>,
    m2: Map<u128, AssetModel>,
    types: Map<u128, SchemaNamedType>,
    id: u128,
    path: Seq<char>,
    anc: Seq<Seq<char>>,
    k: int,
)
    requires
        same_but_properties(m, m2),
        prototype_chain_ends(m, id),
        m.contains_key(id),
    ensures
        nullable_parents_error(m, types, id, path, anc, k) == nullable_parents_error(
            m2,
            types,
            id,
            path,
            anc,
            k,
        ),
    decreases path.len(), 0int, anc.len() - k,
{
    if 0 <= k < anc.len() && anc[k].len() < path.len() {
        lemma_resolution_ignores_properties(m, m2, types, id, anc[k]);
        lemma_nullables_ignore_properties(m, m2, types, id, path, anc, k + 1);
    }
}

proof fn lemma_entries_ignore_properties(
    m: Map<u128, AssetModel>,
    m2: Map<u128, AssetModel>,
    types: Map<u128, SchemaNamedType>,
    id: u128,
    path: Seq<char>,
    keys: Seq<(Seq<char>, Seq<char>)>,
    k: int,
)
    requires
        same_but_properties(m, m2),
        prototype_chain_ends(m, id),
        m.contains_key(id),
    ensures
        entry_parents_error(m, types, id, path, keys, k) == entry_parents_error(
            m2,
            types,
            id,
            path,
            keys,
            k,
        ),
    decreases path.len(), 0int, keys.len() - k,
{
    if 0 <= k < keys.len() && keys[k].0.len() < path.len() {
        lemma_resolution_ignores_properties(m, m2, types, id, keys[k].0);
        lemma_entries_ignore_properties(m, m2, types, id, path, keys, k + 1);
    }
}

proof fn lemma_with_property_same(m: Map<u128, AssetModel>, id: u128, path: Seq<char>, v: Option<ValueModel>)
    requires
        m.contains_key(id),
    ensures
        same_but_properties(m, m.insert(id, with_property(m[id], path, v))),
{
    let m2 = m.insert(id, with_property(m[id], path, v));
    assert(m.dom().insert(id) =~= m.dom());
    assert(m2.dom() =~= m.dom());
}

/// Read after write: once a property has been written, resolving it gives the written
/// value.
pub proof fn law_resolve_after_set(
    m: Map<u128, AssetModel>,
    types: Map<u128, SchemaNamedType>,
    defaults: Map<u128, ValueModel>,
    id: u128,
    path: Seq<char>,
    v: ValueModel,
)
    requires
        prototype_chain_ends(m, id),
        property_write_error(m, types, id, path, Some(v)) is None,
    ensures
        resolved_property(m.insert(id, with_property(m[id], path, Some(v))), types, defaults, id, path)
            == Ok::<ValueModel, DataSetError>(v),
{
    let m2 = m.insert(id, with_property(m[id], path, Some(v)));
    lemma_with_property_same(m, id, path, Some(v));
    lemma_resolution_ignores_properties(m, m2, types, id, path);
    assert(asset_fp(m, id) == asset_fp(m2, id));
}

/// Undo of a write: when a property write is accepted, writing back the value the first
/// write replaced (what `set_property_override` returns) is accepted too, as long as that
/// value fits the property's schema, and gives back the data set as it was.
pub proof fn law_set_property_undo(
    m: Map<u128, AssetModel>,
    types: Map<u128, SchemaNamedType>,
    id: u128,
    path: Seq<char>,
    v: Option<ValueModel>,
)
    requires
        prototype_chain_ends(m, id),
        property_write_error(m, types, id, path, v) is None,
        map_get(m[id].properties, path) matches Some(old) ==> property_write_error(
            m,
            types,
            id,
            path,
            Some(old),
        ) is None,
    ensures
        ({
            let m2 = m.insert(id, with_property(m[id], path, v));
            let old = map_get(m[id].properties, path);
            &&& property_write_error(m2, types, id, path, old) is None
            &&& m2.insert(id, with_property(m2[id], path, old)) == m
        }),
{
    let m2 = m.insert(id, with_property(m[id], path, v));
    let old = map_get(m[id].properties, path);
    lemma_with_property_same(m, id, path, v);
    lemma_resolution_ignores_properties(m, m2, types, id, path);
    assert(asset_fp(m, id) == asset_fp(m2, id));
    let back = m2.insert(id, with_property(m2[id], path, old));
    assert(back[id].properties =~= m[id].properties);
    assert(back[id] == m[id]);
    assert(back =~= m);
}

/// Moving a property from an asset to its prototype (what
/// `apply_property_override_to_prototype` does when it succeeds) leaves the value that
/// the asset resolves for that property unchanged.
pub proof fn law_apply_to_prototype_keeps_value(
    m: Map<u128, AssetModel>,
    types: Map<u128, SchemaNamedType>,
    defaults: Map<u128, ValueModel>,
    id: u128,
    p: u128,
    path: Seq<char>,
)
    requires
        prototype_chain_ends(m, id),
        m.contains_key(id),
        m[id].prototype == Some(p),
        m[id].properties.contains_key(path),
        property_write_error(m, types, id, path, None) is None,
        property_write_error(
            m.insert(id, with_property(m[id], path, None)),
            types,
            p,
            path,
            Some(m[id].properties[path]),
        ) is None,
    ensures
        ({
            let v = m[id].properties[path];
            let m1 = m.insert(id, with_property(m[id], path, None));
            let m2 = m1.insert(p, with_property(m1[p], path, Some(v)));
            resolved_property(m2, types, defaults, id, path) == resolved_property(
                m,
                types,
                defaults,
                id,
                path,
            )
        }),
{
    let v = m[id].properties[path];
    let m1 = m.insert(id, with_property(m[id], path, None));
    let m2 = m1.insert(p, with_property(m1[p], path, Some(v)));
    lemma_with_property_same(m, id, path, None);
    assert(m1.contains_key(p));
    lemma_with_property_same(m1, p, path, Some(v));
    lemma_resolution_ignores_properties(m, m1, types, id, path);
    lemma_same_chain(m, m1, id, chain_fuel(m, id));
    lemma_resolution_ignores_properties(m1, m2, types, id, path);
    lemma_same_chain(m1, m2, id, chain_fuel(m, id));
    assert(asset_fp(m, id) == asset_fp(m2, id));
    assert(chain_ends(m2, id, chain_fuel(m, id)));
    assert(prototype_chain_ends(m2, id));
    let n = chain_fuel(m2, id);
    assert(chain_ends(m2, id, n));
    lemma_no_self_prototype(m, id, chain_fuel(m, id));
    assert(property_walk(m2, id, path, n) == Some(v)) by {
        assert(m2[id] == m1[id]);
        assert(m1[id].properties == m[id].properties.remove(path));
        assert(!m2[id].properties.contains_key(path));
        assert(m2[id].prototype == Some(p));
        assert(n > 0);
        assert(m2.contains_key(p));
        assert(m2[p].properties == m1[p].properties.insert(path, v));
        assert(m2[p].properties.contains_key(path));
        assert(property_walk(m2, p, path, (n - 1) as nat) == Some(v));
    }
    assert(property_walk(m, id, path, chain_fuel(m, id)) == Some(v));
}

/// An asset whose prototype chain ends is not its own prototype.
pub proof fn lemma_no_self_prototype(m: Map<u128, AssetModel>, id: u128, n: nat)
    requires
        chain_ends(m, id, n),
        m.contains_key(id),
    ensures
        m[id].prototype != Some(id),
    decreases n,
{
    if m[id].prototype == Some(id) {
        lemma_no_self_prototype(m, id, (n - 1) as nat);
    }
}

/// Setting a null override and reading it back gives the override that was set.
pub proof fn law_null_override_round_trip(
    m: Map<u128, AssetModel>,
    types: Map<u128, SchemaNamedType>,
    id: u128,
    path: Seq<char>,
    o: NullOverride,
)
    requires
        property_schema_at(m, types, id, path) matches Ok(s) && s is Nullable,
    ensures
        stored_null_override(m.insert(id, with_null_override(m[id], path, o)), types, id, path)
            == Ok::<NullOverride, DataSetError>(o),
{
    let m2 = m.insert(id, with_null_override(m[id], path, o));
    assert(asset_fp(m, id) == asset_fp(m2, id));
}

/// Setting the override behavior of a dynamic array or map and reading it back gives the
/// behavior that was set.
pub proof fn law_override_behavior_round_trip(
    m: Map<u128, AssetModel>,
    types: Map<u128, SchemaNamedType>,
    id: u128,
    path: Seq<char>,
    b: OverrideBehavior,
)
    requires
        property_schema_at(m, types, id, path) matches Ok(s) && (s is DynamicArray || s is Mapping),
    ensures
        ({
            let a = AssetModel {
                replace_mode: match b {
                    OverrideBehavior::Append => m[id].replace_mode.remove(path),
                    OverrideBehavior::Replace => m[id].replace_mode.insert(path),
                },
                ..m[id]
            };
            override_behavior_at(m.insert(id, a), types, id, path) == Ok::<
                OverrideBehavior,
                DataSetError,
            >(b)
        }),
{
    let a = AssetModel {
        replace_mode: match b {
            OverrideBehavior::Append => m[id].replace_mode.remove(path),
            OverrideBehavior::Replace => m[id].replace_mode.insert(path),
        },
        ..m[id]
    };
    assert(asset_fp(m, id) == asset_fp(m.insert(id, a), id));
}

/// Creating an asset under an unused id and deleting it again gives back the data set.
pub proof fn law_delete_undoes_new(
    m: Map<u128, AssetModel>,
    id: u128,
    schema: u128,
    name: Seq<char>,
    location: u128,
)
    requires
        !m.contains_key(id),
    ensures
        m.insert(id, fresh_asset(schema, name, location)).remove(id) == m,
{
    assert(m.insert(id, fresh_asset(schema, name, location)).remove(id) =~= m);
}

/// Removing a dynamic-array entry that was just added gives back the entries as they
/// were.
pub proof fn law_remove_undoes_add_entry(e: Seq<u128>, u: u128)
    requires
        !e.contains(u),
    ensures
        forall|i: int| 0 <= i < e.len() + 1 && #[trigger] e.push(u)[i] == u ==> e.push(u).remove(i) == e,
{
    assert forall|i: int| 0 <= i < e.len() + 1 && #[trigger] e.push(u)[i] == u implies e.push(u).remove(i) == e by {
        if i < e.len() {
            assert(e[i] == u);
        }
        assert(e.push(u).remove(i) =~= e);
    }
}


/// Null overrides are inherited along the prototype chain. An asset that sets a null
/// override for a path resolves it to its own; one that sets none resolves it to what its
/// prototype resolves it to, or to `Unset` when it has no prototype.
pub proof fn law_null_override_inherited(
    m: Map<u128, AssetModel>,
    types: Map<u128, SchemaNamedType>,
    id: u128,
    path: Seq<char>,
)
    requires
        prototype_chain_ends(m, id),
        m.contains_key(id),
    ensures
        m[id].null_overrides.contains_key(path) && resolved_null_override(m, types, id, path) is Ok
            ==> resolved_null_override(m, types, id, path) == Ok::<NullOverride, DataSetError>(
            m[id].null_overrides[path],
        ),
        forall|p: u128|
            m[id].prototype == Some(p) && !m[id].null_overrides.contains_key(path)
                && resolved_null_override(m, types, id, path) is Ok && (
                #[trigger] resolved_null_override(m, types, p, path)) is Ok
                ==> resolved_null_override(m, types, id, path) == resolved_null_override(m, types, p, path),
        m[id].prototype is None && !m[id].null_overrides.contains_key(path) && resolved_null_override(
            m,
            types,
            id,
            path,
        ) is Ok ==> resolved_null_override(m, types, id, path) == Ok::<NullOverride, DataSetError>(
            NullOverride::Unset,
        ),
{
    let n = chain_fuel(m, id);
    assert(chain_ends(m, id, n));
    assert forall|p: u128|
        m[id].prototype == Some(p) && !m[id].null_overrides.contains_key(path)
            && resolved_null_override(m, types, id, path) is Ok && (
            #[trigger] resolved_null_override(m, types, p, path)) is Ok implies resolved_null_override(
        m,
        types,
        id,
        path,
    ) == resolved_null_override(m, types, p, path) by {
        assert(resolved_null_override(m, types, id, path) == null_override_walk(m, id, path, n));
        assert(n > 0 && chain_ends(m, p, (n - 1) as nat));
        assert(null_override_walk(m, id, path, n) == null_override_walk(m, p, path, (n - 1) as nat));
        let n2 = chain_fuel(m, p);
        assert(chain_ends(m, p, n2));
        if n2 <= n - 1 {
            lemma_null_walk_fuel(m, p, path, n2, (n - 1) as nat);
        } else {
            lemma_null_walk_fuel(m, p, path, (n - 1) as nat, n2);
        }
        assert(resolved_null_override(m, types, p, path) == null_override_walk(m, p, path, n2));
    }
}

/// Resolving a dynamic array lists the asset's own entries last, in the order in which the
/// asset stores them (the order they were added), after those it inherits; an asset
/// without a prototype resolves to its own entries alone.
pub proof fn law_dynamic_array_own_entries_last(
    m: Map<u128, AssetModel>,
    types: Map<u128, SchemaNamedType>,
    id: u128,
    path: Seq<char>,
    s: Seq<u128>,
)
    requires
        resolved_dynamic_array(m, types, id, path) == Ok::<Seq<u128>, DataSetError>(s),
    ensures
        own_entries(m[id], path).len() <= s.len(),
        s.subrange(s.len() - own_entries(m[id], path).len(), s.len() as int) == own_entries(
            m[id],
            path,
        ),
        m[id].prototype is None ==> s == own_entries(m[id], path),
{
    let own = own_entries(m[id], path);
    let d = key_paths(keys_of(asset_fp(m, id), path, types, 1));
    let mp = key_paths(keys_of(asset_fp(m, id), path, types, 2));
    let n = chain_fuel(m, id);
    assert(m.contains_key(id));
    assert(s == dynamic_array_walk(m, id, path, d, mp, n));
    match m[id].prototype {
        Some(p) => {
            if !replaces_parent_entries(m[id], path, d, mp) && m.contains_key(p) && n > 0 {
                let pre = dynamic_array_walk(m, p, path, d, mp, (n - 1) as nat);
                assert(s == pre + own);
                assert((pre + own).subrange(pre.len() as int, (pre + own).len() as int) =~= own);
            } else {
                assert(s == own);
                assert(own.subrange(0, own.len() as int) =~= own);
            }
        },
        None => {
            assert(s == own);
            assert(own.subrange(0, own.len() as int) =~= own);
        },
    }
}

/// A dynamic array is inherited along the prototype chain. An asset (of its prototype's
/// schema) that does not replace its prototype's entries resolves the array to the entries
/// its prototype resolves, followed by its own; one that replaces them (the array, or a
/// dynamic array or map it lies in, is in replace mode) resolves it to its own entries
/// alone.
pub proof fn law_dynamic_array_inherited(
    m: Map<u128, AssetModel>,
    types: Map<u128, SchemaNamedType>,
    id: u128,
    p: u128,
    path: Seq<char>,
    s: Seq<u128>,
)
    requires
        prototype_chain_ends(m, id),
        m.contains_key(id),
        m[id].prototype == Some(p),
        m.contains_key(p),
        m[p].schema == m[id].schema,
        resolved_dynamic_array(m, types, id, path) == Ok::<Seq<u128>, DataSetError>(s),
    ensures
        ({
            let d = key_paths(keys_of(asset_fp(m, id), path, types, 1));
            let mp = key_paths(keys_of(asset_fp(m, id), path, types, 2));
            &&& replaces_parent_entries(m[id], path, d, mp) ==> s == own_entries(m[id], path)
            &&& forall|t: Seq<u128>|
                !replaces_parent_entries(m[id], path, d, mp) && #[trigger] resolved_dynamic_array(
                    m,
                    types,
                    p,
                    path,
                ) == Ok::<Seq<u128>, DataSetError>(t) ==> s == t + own_entries(m[id], path)
        }),
{
    let own = own_entries(m[id], path);
    let d = key_paths(keys_of(asset_fp(m, id), path, types, 1));
    let mp = key_paths(keys_of(asset_fp(m, id), path, types, 2));
    let n = chain_fuel(m, id);
    assert(chain_ends(m, id, n));
    assert(n > 0 && chain_ends(m, p, (n - 1) as nat));
    assert(s == dynamic_array_walk(m, id, path, d, mp, n));
    assert(asset_fp(m, p) == asset_fp(m, id));
    assert forall|t: Seq<u128>|
        !replaces_parent_entries(m[id], path, d, mp) && #[trigger] resolved_dynamic_array(
            m,
            types,
            p,
            path,
        ) == Ok::<Seq<u128>, DataSetError>(t) implies s == t + own by {
        let n2 = chain_fuel(m, p);
        assert(chain_ends(m, p, n2));
        assert(t == dynamic_array_walk(m, p, path, d, mp, n2));
        if n2 <= n - 1 {
            lemma_dyn_walk_fuel(m, p, path, d, mp, n2, (n - 1) as nat);
        } else {
            lemma_dyn_walk_fuel(m, p, path, d, mp, (n - 1) as nat, n2);
        }
    }
}

proof fn lemma_file_walk_fuel(m: Map<u128, AssetModel>, id: u128, n: nat, n2: nat)
    requires
        chain_ends(m, id, n),
        n <= n2,
    ensures
        file_references_walk(m, id, n) == file_references_walk(m, id, n2),
    decreases n,
{
    if m.contains_key(id) {
        if let Some(p) = m[id].prototype {
            lemma_file_walk_fuel(m, p, (n - 1) as nat, (n2 - 1) as nat);
        }
    }
}

/// An asset's own file-reference overrides win over those of its prototypes: resolving
/// all its file references gives, for each path the asset overrides itself, the asset's
/// own reference; an asset without a prototype resolves to its own overrides alone.
pub proof fn law_own_file_references_win(
    m: Map<u128, AssetModel>,
    id: u128,
    n: nat,
    r: Map<Seq<char>, AssetId>,
)
    requires
        file_references_walk(m, id, n) == Ok::<Map<Seq<char>, AssetId>, DataSetError>(r),
    ensures
        forall|k: Seq<char>| #[trigger]
            m[id].file_reference_overrides.contains_key(k) ==> r.contains_key(k) && r[k]
                == m[id].file_reference_overrides[k],
        m[id].prototype is None ==> r == m[id].file_reference_overrides,
{
    assert(m.contains_key(id));
    if m[id].prototype is None {
        assert(r =~= m[id].file_reference_overrides);
    }
}

/// The paths an asset does not override itself keep the references its prototype
/// resolves for them, and every resolved path is overridden by the asset or by its
/// prototype chain.
pub proof fn law_file_references_inherited(
    m: Map<u128, AssetModel>,
    id: u128,
    p: u128,
    b: Map<Seq<char>, AssetId>,
    r: Map<Seq<char>, AssetId>,
)
    requires
        prototype_chain_ends(m, id),
        m.contains_key(id),
        m[id].prototype == Some(p),
        file_references_walk(m, p, chain_fuel(m, p)) == Ok::<Map<Seq<char>, AssetId>, DataSetError>(b),
        file_references_walk(m, id, chain_fuel(m, id)) == Ok::<Map<Seq<char>, AssetId>, DataSetError>(r),
    ensures
        forall|k: Seq<char>|
            #[trigger] b.contains_key(k) && !m[id].file_reference_overrides.contains_key(k)
                ==> r.contains_key(k) && r[k] == b[k],
        forall|k: Seq<char>| #[trigger]
            r.contains_key(k) ==> m[id].file_reference_overrides.contains_key(k) || b.contains_key(k),
{
    let n = chain_fuel(m, id);
    assert(chain_ends(m, id, n));
    assert(n > 0 && chain_ends(m, p, (n - 1) as nat));
    let n2 = chain_fuel(m, p);
    assert(chain_ends(m, p, n2));
    if n2 <= n - 1 {
        lemma_file_walk_fuel(m, p, n2, (n - 1) as nat);
    } else {
        lemma_file_walk_fuel(m, p, (n - 1) as nat, n2);
    }
    assert(r == b.union_prefer_right(m[id].file_reference_overrides));
}

proof fn lemma_location_walk_shape(m: Map<u128, AssetModel>, cur: u128, chain: Seq<u128>, n: nat, r: Seq<u128>)
    requires
        location_walk(m, cur, chain, n) == Ok::<Seq<u128>, DataSetError>(r),
    ensures
        chain.len() <= r.len(),
        r.subrange(0, chain.len() as int) == chain,
        cur == 0 <==> r.len() == chain.len(),
        r.len() > chain.len() ==> r[chain.len() as int] == cur && m[r.last()].location == 0,
        forall|i: int| chain.len() <= i < r.len() ==> m.contains_key(#[trigger] r[i]),
        forall|i: int, j: int|
            chain.len() <= i && j == i + 1 && j < r.len() ==> #[trigger] r[j] == m[#[trigger] r[i]].location,
        chain.no_duplicates() ==> r.no_duplicates(),
    decreases n,
{
    if cur == 0 {
        assert(r == chain);
        assert(r.subrange(0, chain.len() as int) =~= chain);
    } else {
        let c2 = chain.push(cur);
        let next = m[cur].location;
        assert(location_walk(m, next, c2, (n - 1) as nat) == Ok::<Seq<u128>, DataSetError>(r));
        lemma_location_walk_shape(m, next, c2, (n - 1) as nat, r);
        assert(r.subrange(0, chain.len() as int) =~= c2.subrange(0, chain.len() as int));
        assert(c2.subrange(0, chain.len() as int) =~= chain);
        assert(r[chain.len() as int] == c2[chain.len() as int]);
        assert forall|i: int| chain.len() <= i < r.len() implies m.contains_key(#[trigger] r[i]) by {
            if i == chain.len() {
            }
        }
        assert forall|i: int, j: int|
            chain.len() <= i && j == i + 1 && j < r.len() implies #[trigger] r[j] == m[#[trigger] r[i]].location by {
            if i == chain.len() {
                assert(r.len() > c2.len());
            }
        }
        if r.len() == c2.len() {
            assert(next == 0);
            assert(r.last() == r[chain.len() as int]);
        }
        if chain.no_duplicates() {
            assert(!chain.contains(cur));
            assert(c2.no_duplicates()) by {
                assert forall|i: int, j: int| 0 <= i < c2.len() && 0 <= j < c2.len() && i != j implies c2[i] != c2[j] by {
                    if i == chain.len() as int {
                        assert(c2[j] == chain[j]);
                    } else if j == chain.len() as int {
                        assert(c2[i] == chain[i]);
                    }
                }
            }
        }
    }
}

/// An asset's location chain starts at the asset's own location and climbs one parent at
/// a time up to the root: the parent of each location follows it, every location of the
/// chain is a path node of the data set and occurs once, the last one lies at the root, and
/// the chain is empty exactly when the asset itself lies at the root.
pub proof fn law_location_chain_climbs(m: Map<u128, AssetModel>, id: u128, c: Seq<u128>)
    requires
        m.contains_key(id),
        location_chain(m, id) == Ok::<Seq<u128>, DataSetError>(c),
    ensures
        c.len() == 0 <==> m[id].location == 0,
        c.len() > 0 ==> c[0] == m[id].location && m[c.last()].location == 0,
        forall|i: int| 0 <= i < c.len() ==> m.contains_key(#[trigger] c[i]),
        forall|i: int, j: int|
            0 <= i && j == i + 1 && j < c.len() ==> #[trigger] c[j] == m[#[trigger] c[i]].location,
        c.no_duplicates(),
{
    lemma_location_walk_shape(m, m[id].location, Seq::empty(), m.dom().len() + 1, c);
}

} // verus!
