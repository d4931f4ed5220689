use vstd::prelude::*;
use crate::path::split_dot;
use crate::path_reference::{last_occurrence, last_occurrence_below, lemma_last_occurrence_bounds, occurs_at};
use crate::schema::{field_schema_of, property_schema_of, walk_schema, Schema, SchemaFingerprint, SchemaNamedType};
use crate::ids::NullOverride;
use crate::json_storage::{
    append_missing, empty_load_state, entry_pairs, json_leaf_value, json_uuids, listed, load_entries,
    load_entry, load_marker, null_override_named, null_override_text, null_pairs, uuid_strings,
    property_pairs, stored_properties, stored_type, stored_values_read_back, JsonModel, LoadState,
};
use crate::schema::{lemma_walk_closed, schema_closed, types_closed};
use crate::schema_set::SchemaSet;
use crate::single_object::{object_schema_known, ObjectModel, SingleObject};
use crate::ordered_set::OrderedSet;
use crate::prop_map::{entries_view, has_key_at, keys_distinct, lemma_view_push};
use crate::data_set::{entry_models, value_models, AssetModel, DataSetAssetInfo};
use crate::json_storage::replace_pairs;
use crate::prop_map::PathSet;
use crate::value::{Value, ValueModel};

verus! {

/// `s` holds no '.'.
pub open spec fn has_no_dot(s: Seq<char>) -> bool {
    forall|i: int| 0 <= i < s.len() ==> s[i] != '.'
}

pub open spec fn dot() -> Seq<char> {
    seq!['.']
}

/// A path without '.' is one segment.
pub proof fn lemma_split_no_dot(b: Seq<char>)
    requires
        has_no_dot(b),
    ensures
        split_dot(b) == seq![b],
    decreases b.len(),
{
    if b.len() > 0 {
        lemma_split_no_dot(b.drop_last());
        assert(b.drop_last().push(b.last()) =~= b);
        assert(seq![b.drop_last()].update(0, b.drop_last().push(b.last())) =~= seq![b]);
    } else {
        assert(b =~= Seq::<char>::empty());
    }
}

/// The segments of `a.b`, where `b` holds no '.': those of `a`, then `b`.
pub proof fn lemma_split_last_segment(a: Seq<char>, b: Seq<char>)
    requires
        has_no_dot(b),
    ensures
        split_dot(a + dot() + b) == split_dot(a).push(b),
    decreases b.len(),
{
    let s = a + dot() + b;
    if b.len() == 0 {
        assert(s.drop_last() =~= a);
        assert(s.last() == '.');
        assert(b =~= Seq::<char>::empty());
    } else {
        let b2 = b.drop_last();
        lemma_split_last_segment(a, b2);
        assert(s.drop_last() =~= a + dot() + b2);
        assert(s.last() == b.last());
        assert(b[b.len() - 1] != '.');
        let prev = split_dot(a).push(b2);
        assert(b2.push(b.last()) =~= b);
        assert(prev.last() == b2);
        assert(prev.update(prev.len() - 1, prev.last().push(b.last())) =~= split_dot(a).push(b));
    }
}

proof fn lemma_occurs_dot(s: Seq<char>, j: int)
    ensures
        occurs_at(s, dot(), j) <==> (0 <= j < s.len() && s[j] == '.'),
{
    if 0 <= j < s.len() {
        if s[j] == '.' {
            assert(s.subrange(j, j + 1) =~= dot());
        } else {
            assert(s.subrange(j, j + 1)[0] != dot()[0]);
        }
    }
}

/// No occurrence lies between the last one below `n` and `n`.
proof fn lemma_last_below_is_last(s: Seq<char>, pat: Seq<char>, n: int, j: int)
    requires
        last_occurrence_below(s, pat, n) < j < n,
    ensures
        !occurs_at(s, pat, j),
    decreases n,
{
    if n > 0 && !occurs_at(s, pat, n - 1) && j < n - 1 {
        lemma_last_below_is_last(s, pat, n - 1, j);
    }
}

/// Where the last '.' of a path lies: nowhere in a path without one; else the part
/// after it holds no '.'.
pub proof fn lemma_last_dot(s: Seq<char>)
    ensures
        last_occurrence(s, dot()) == -1 ==> has_no_dot(s),
        last_occurrence(s, dot()) >= 0 ==> {
            let d = last_occurrence(s, dot());
            &&& d < s.len()
            &&& s[d] == '.'
            &&& has_no_dot(s.subrange(d + 1, s.len() as int))
            &&& s == s.subrange(0, d) + dot() + s.subrange(d + 1, s.len() as int)
        },
{
    let n = s.len() - 1 + 1;
    let d = last_occurrence(s, dot());
    lemma_last_occurrence_bounds(s, dot(), n);
    assert forall|j: int| d < j < s.len() implies s[j] != '.' by {
        lemma_last_below_is_last(s, dot(), n, j);
        lemma_occurs_dot(s, j);
    }
    if d >= 0 {
        lemma_occurs_dot(s, d);
        let t = s.subrange(d + 1, s.len() as int);
        assert forall|i: int| 0 <= i < t.len() implies t[i] != '.' by {
            assert(t[i] == s[d + 1 + i]);
        }
        assert(s =~= s.subrange(0, d) + dot() + t);
    } else {
        assert forall|i: int| 0 <= i < s.len() implies s[i] != '.' by {
            assert(d < i);
        }
    }
}

/// The last '.' of `a.b`, where `b` holds no '.', is the one after `a`.
pub proof fn lemma_last_dot_of_join(a: Seq<char>, b: Seq<char>)
    requires
        has_no_dot(b),
    ensures
        last_occurrence(a + dot() + b, dot()) == a.len(),
{
    let s = a + dot() + b;
    lemma_last_dot(s);
    let d = last_occurrence(s, dot());
    lemma_occurs_dot(s, a.len() as int);
    assert(s[a.len() as int] == '.');
    let n = s.len() - 1 + 1;
    if d > a.len() {
        assert(s[d] == b[d - a.len() - 1]);
    }
    if d < a.len() {
        lemma_last_below_is_last(s, dot(), n, a.len() as int);
    }
}

/// The schema of `a.b`, where `b` holds no '.': field `b` of the schema of `a`.
pub proof fn lemma_schema_of_join(f: SchemaFingerprint, a: Seq<char>, b: Seq<char>, types: Map<u128, SchemaNamedType>)
    requires
        has_no_dot(b),
    ensures
        property_schema_of(f, a + dot() + b, types) == match property_schema_of(f, a, types) {
            Some(p) => field_schema_of(p, b, types),
            None => None,
        },
{
    lemma_split_last_segment(a, b);
    let segs = split_dot(a).push(b);
    assert(segs.drop_last() =~= split_dot(a));
}

/// The path's part after its last '.' is `replace` and the part before is a dynamic array
/// (storage would read the path as a replace-mode marker).
pub open spec fn replace_marker_path(f: SchemaFingerprint, k: Seq<char>, types: Map<u128, SchemaNamedType>) -> bool {
    let d = last_occurrence(k, dot());
    &&& d >= 0
    &&& property_schema_of(f, k.subrange(0, d), types) matches Some(p)
    &&& p is DynamicArray
    &&& k.subrange(d + 1, k.len() as int) == "replace"@
}

/// Loading entries one after the other: an error on the first part stops the load.
pub proof fn lemma_load_concat(
    st: LoadState,
    f: SchemaFingerprint,
    types: Map<u128, SchemaNamedType>,
    js1: Seq<(Seq<char>, JsonModel)>,
    js2: Seq<(Seq<char>, JsonModel)>,
    buffers: Option<Seq<Seq<u8>>>,
    keep: bool,
)
    ensures
        load_entries(st, f, types, js1 + js2, buffers, keep) == match load_entries(
            st,
            f,
            types,
            js1,
            buffers,
            keep,
        ) {
            Err(e) => Err(e),
            Ok(s1) => load_entries(s1, f, types, js2, buffers, keep),
        },
    decreases js2.len(),
{
    if js2.len() == 0 {
        assert(js1 + js2 =~= js1);
    } else {
        lemma_load_concat(st, f, types, js1, js2.drop_last(), buffers, keep);
        assert((js1 + js2).drop_last() =~= js1 + js2.drop_last());
        assert((js1 + js2).last() == js2.last());
    }
}

/// A stored null override of a nullable is read back as that override.
pub proof fn lemma_null_marker(
    st: LoadState,
    f: SchemaFingerprint,
    types: Map<u128, SchemaNamedType>,
    k: Seq<char>,
    n: NullOverride,
    buffers: Option<Seq<Seq<u8>>>,
    keep: bool,
)
    requires
        property_schema_of(f, k, types) matches Some(s) && s is Nullable,
        n != NullOverride::Unset,
    ensures
        load_entry(
            st,
            f,
            types,
            k + ".null_override"@,
            JsonModel::String(null_override_text(n)),
            buffers,
            keep,
        ) == Ok::<LoadState, crate::ids::DataSetError>(
            LoadState { null_overrides: st.null_overrides.insert(k, n), ..st },
        ),
{
    reveal_strlit(".null_override");
    reveal_strlit("null_override");
    reveal_strlit("SetNull");
    reveal_strlit("SetNonNull");
    let end = "null_override"@;
    assert(".null_override"@ =~= dot() + end);
    assert(has_no_dot(end));
    assert(k + ".null_override"@ =~= k + dot() + end);
    lemma_last_dot_of_join(k, end);
    let path = k + dot() + end;
    assert(path.subrange(0, k.len() as int) =~= k);
    assert(path.subrange(k.len() as int + 1, path.len() as int) =~= end);
    assert("SetNull"@ != "SetNonNull"@) by {
        assert("SetNull"@.len() != "SetNonNull"@.len());
    }
}

/// A path with a schema, which is not a replace-mode marker, is no marker at all.
pub proof fn lemma_no_marker(
    st: LoadState,
    f: SchemaFingerprint,
    types: Map<u128, SchemaNamedType>,
    k: Seq<char>,
    j: JsonModel,
    keep: bool,
)
    requires
        property_schema_of(f, k, types) is Some,
        !replace_marker_path(f, k, types),
    ensures
        load_marker(st, f, types, k, j, keep) is None,
{
    lemma_last_dot(k);
    let d = last_occurrence(k, dot());
    if d >= 0 {
        let parent = k.subrange(0, d);
        let end = k.subrange(d + 1, k.len() as int);
        lemma_schema_of_join(f, parent, end, types);
        reveal_strlit("null_override");
        if let Some(ps) = property_schema_of(f, parent, types) {
            if ps is Nullable {
                assert(end == seq!['v', 'a', 'l', 'u', 'e']);
                assert(end != "null_override"@) by {
                    assert(end.len() != "null_override"@.len());
                }
            }
        }
    }
}

/// The null overrides stored in order, as a map (later ones winning).
pub open spec fn nulls_fold(ns: Seq<(String, NullOverride)>) -> Map<Seq<char>, NullOverride>
    decreases ns.len(),
{
    if ns.len() == 0 {
        Map::empty()
    } else {
        nulls_fold(ns.drop_last()).insert(ns.last().0@, ns.last().1)
    }
}

/// Reading back stored null overrides of nullables gives them all.
pub proof fn lemma_load_nulls(
    f: SchemaFingerprint,
    types: Map<u128, SchemaNamedType>,
    ns: Seq<(String, NullOverride)>,
    buffers: Option<Seq<Seq<u8>>>,
    keep: bool,
)
    requires
        forall|i: int|
            0 <= i < ns.len() ==> (property_schema_of(f, (#[trigger] ns[i]).0@, types) matches Some(s)
                && s is Nullable) && ns[i].1 != NullOverride::Unset,
    ensures
        load_entries(empty_load_state(), f, types, null_pairs(ns), buffers, keep) == Ok::<
            LoadState,
            crate::ids::DataSetError,
        >(LoadState { null_overrides: nulls_fold(ns), ..empty_load_state() }),
    decreases ns.len(),
{
    if ns.len() > 0 {
        let prev = ns.drop_last();
        assert forall|i: int| 0 <= i < prev.len() implies (property_schema_of(
            f,
            (#[trigger] prev[i]).0@,
            types,
        ) matches Some(s) && s is Nullable) && prev[i].1 != NullOverride::Unset by {
            assert(prev[i] == ns[i]);
        }
        lemma_load_nulls(f, types, prev, buffers, keep);
        assert(null_pairs(ns).drop_last() =~= null_pairs(prev));
        let last = ns.last();
        assert(ns[ns.len() - 1] == last);
        lemma_null_marker(
            LoadState { null_overrides: nulls_fold(prev), ..empty_load_state() },
            f,
            types,
            last.0@,
            last.1,
            buffers,
            keep,
        );
    }
}

/// `ids` added to an empty list, when no id repeats, gives `ids`.
pub proof fn lemma_append_distinct(ids: Seq<u128>)
    requires
        ids.no_duplicates(),
    ensures
        append_missing(Seq::empty(), ids) == ids,
    decreases ids.len(),
{
    if ids.len() > 0 {
        let prev = ids.drop_last();
        assert(prev.no_duplicates());
        lemma_append_distinct(prev);
        assert(!prev.contains(ids.last()));
        assert(prev.push(ids.last()) =~= ids);
    }
}

/// The non-empty entry lists stored in order, as a map.
pub open spec fn entries_fold(es: Seq<(String, OrderedSet)>) -> Map<Seq<char>, Seq<u128>>
    decreases es.len(),
{
    if es.len() == 0 {
        Map::empty()
    } else {
        let m = entries_fold(es.drop_last());
        if es.last().1@.len() == 0 {
            m
        } else {
            m.insert(es.last().0@, es.last().1@)
        }
    }
}

proof fn lemma_entries_fold_keys(es: Seq<(String, OrderedSet)>, k: Seq<char>)
    requires
        entries_fold(es).contains_key(k),
    ensures
        exists|i: int| 0 <= i < es.len() && (#[trigger] es[i]).0@ == k,
    decreases es.len(),
{
    let prev = es.drop_last();
    if entries_fold(prev).contains_key(k) {
        lemma_entries_fold_keys(prev, k);
        let i = choose|i: int| 0 <= i < prev.len() && (#[trigger] prev[i]).0@ == k;
        assert(es[i] == prev[i]);
    } else {
        assert(es[es.len() - 1].0@ == k);
    }
}

/// Reading back the stored entry lists of dynamic arrays and maps gives the non-empty
/// ones.
pub proof fn lemma_load_entries(
    st: LoadState,
    f: SchemaFingerprint,
    types: Map<u128, SchemaNamedType>,
    es: Seq<(String, OrderedSet)>,
    buffers: Option<Seq<Seq<u8>>>,
    keep: bool,
)
    requires
        st.entries == Map::<Seq<char>, Seq<u128>>::empty(),
        forall|i: int, j: int| 0 <= i < es.len() && 0 <= j < es.len() && i != j ==> #[trigger] es[i].0@ != #[trigger] es[j].0@,
        forall|i: int|
            0 <= i < es.len() ==> (property_schema_of(f, (#[trigger] es[i]).0@, types) matches Some(s)
                && (s is DynamicArray || s is Mapping)) && !replace_marker_path(f, es[i].0@, types)
                && json_uuids(uuid_strings(es[i].1@)) == Some(es[i].1@) && es[i].1@.no_duplicates(),
    ensures
        load_entries(st, f, types, entry_pairs(es), buffers, keep) == Ok::<
            LoadState,
            crate::ids::DataSetError,
        >(LoadState { entries: entries_fold(es), ..st }),
    decreases es.len(),
{
    if es.len() > 0 {
        let prev = es.drop_last();
        assert forall|i: int, j: int| 0 <= i < prev.len() && 0 <= j < prev.len() && i != j implies #[trigger] prev[i].0@
            != #[trigger] prev[j].0@ by {
            assert(prev[i] == es[i] && prev[j] == es[j]);
        }
        assert forall|i: int| 0 <= i < prev.len() implies (property_schema_of(
            f,
            (#[trigger] prev[i]).0@,
            types,
        ) matches Some(s) && (s is DynamicArray || s is Mapping)) && !replace_marker_path(
            f,
            prev[i].0@,
            types,
        ) && json_uuids(uuid_strings(prev[i].1@)) == Some(prev[i].1@) && prev[i].1@.no_duplicates() by {
            assert(prev[i] == es[i]);
        }
        lemma_load_entries(st, f, types, prev, buffers, keep);
        assert(entry_pairs(es).drop_last() =~= entry_pairs(prev));
        let last = es.last();
        assert(es[es.len() - 1] == last);
        let s1 = LoadState { entries: entries_fold(prev), ..st };
        lemma_no_marker(s1, f, types, last.0@, JsonModel::Array(uuid_strings(last.1@)), keep);
        if entries_fold(prev).contains_key(last.0@) {
            lemma_entries_fold_keys(prev, last.0@);
            let i = choose|i: int| 0 <= i < prev.len() && (#[trigger] prev[i]).0@ == last.0@;
            assert(prev[i] == es[i]);
            assert(false);
        }
        assert(listed(entries_fold(prev), last.0@) =~= Seq::<u128>::empty());
        lemma_append_distinct(last.1@);
    }
}

/// The property values stored in order, as a map (later ones winning).
pub open spec fn props_fold(ps: Seq<(String, Value)>) -> Map<Seq<char>, ValueModel>
    decreases ps.len(),
{
    if ps.len() == 0 {
        Map::empty()
    } else {
        props_fold(ps.drop_last()).insert(ps.last().0@, ps.last().1@)
    }
}

/// Reading back stored values, each of which reads back as itself under its property's
/// schema, gives them all.
pub proof fn lemma_load_props(
    st: LoadState,
    f: SchemaFingerprint,
    types: Map<u128, SchemaNamedType>,
    ps: Seq<(String, Value)>,
    js: Seq<(Seq<char>, JsonModel)>,
    buffers: Option<Seq<Seq<u8>>>,
    keep: bool,
)
    requires
        st.properties == Map::<Seq<char>, ValueModel>::empty(),
        js.len() == ps.len(),
        forall|i: int|
            0 <= i < ps.len() ==> #[trigger] js[i].0 == ps[i].0@ && (property_schema_of(f, ps[i].0@, types) matches Some(s)
                && !(s is DynamicArray || s is Mapping) && json_leaf_value(s, js[i].1, buffers, types)
                == Some(ps[i].1@)) && !replace_marker_path(f, ps[i].0@, types),
    ensures
        load_entries(st, f, types, js, buffers, keep) == Ok::<LoadState, crate::ids::DataSetError>(
            LoadState { properties: props_fold(ps), ..st },
        ),
    decreases ps.len(),
{
    if ps.len() > 0 {
        let prev = ps.drop_last();
        let jprev = js.drop_last();
        assert forall|i: int| 0 <= i < prev.len() implies #[trigger] jprev[i].0 == prev[i].0@ && (property_schema_of(
            f,
            prev[i].0@,
            types,
        ) matches Some(s) && !(s is DynamicArray || s is Mapping) && json_leaf_value(
            s,
            jprev[i].1,
            buffers,
            types,
        ) == Some(prev[i].1@)) && !replace_marker_path(f, prev[i].0@, types) by {
            assert(prev[i] == ps[i] && jprev[i] == js[i]);
        }
        lemma_load_props(st, f, types, prev, jprev, buffers, keep);
        let n = ps.len() - 1;
        assert(js[n].0 == ps[n].0@);
        let s1 = LoadState { properties: props_fold(prev), ..st };
        lemma_no_marker(s1, f, types, ps[n].0@, js[n].1, keep);
        assert(ps.last() == ps[n]);
    }
}

proof fn lemma_distinct_prefix<V>(s: Seq<(String, V)>)
    requires
        keys_distinct(s),
        s.len() > 0,
    ensures
        keys_distinct(s.drop_last()),
        !entries_view(s.drop_last()).contains_key(s.last().0@),
        s.drop_last().push(s.last()) == s,
{
    let prev = s.drop_last();
    assert forall|i: int, j: int| 0 <= i < prev.len() && 0 <= j < prev.len() && i != j implies #[trigger] prev[i].0@
        != #[trigger] prev[j].0@ by {
        assert(prev[i] == s[i] && prev[j] == s[j]);
    }
    if entries_view(prev).contains_key(s.last().0@) {
        let i = choose|i: int| has_key_at(prev, s.last().0@, i);
        assert(prev[i] == s[i]);
        assert(s[i].0@ == s[s.len() - 1].0@);
    }
    assert(prev.push(s.last()) =~= s);
}

/// Null overrides stored in order, with no path twice, read back as the map they came
/// from.
pub proof fn lemma_nulls_fold_view(ns: Seq<(String, NullOverride)>)
    requires
        keys_distinct(ns),
    ensures
        nulls_fold(ns) == entries_view(ns),
    decreases ns.len(),
{
    if ns.len() == 0 {
        assert(entries_view(ns) =~= Map::<Seq<char>, NullOverride>::empty());
    } else {
        lemma_distinct_prefix(ns);
        lemma_nulls_fold_view(ns.drop_last());
        lemma_view_push(ns.drop_last(), ns.last().0, ns.last().1);
    }
}

/// Values stored in order, with no path twice, read back as the map they came from.
pub proof fn lemma_props_fold_view(ps: Seq<(String, Value)>)
    requires
        keys_distinct(ps),
    ensures
        props_fold(ps) == value_models(entries_view(ps)),
    decreases ps.len(),
{
    if ps.len() == 0 {
        assert(value_models(entries_view(ps)) =~= Map::<Seq<char>, ValueModel>::empty());
    } else {
        lemma_distinct_prefix(ps);
        lemma_props_fold_view(ps.drop_last());
        lemma_view_push(ps.drop_last(), ps.last().0, ps.last().1);
        assert(value_models(entries_view(ps)) =~= value_models(entries_view(ps.drop_last())).insert(
            ps.last().0@,
            ps.last().1@,
        ));
    }
}

/// The entry lists of a map that are not empty.
pub open spec fn nonempty_entries(m: Map<Seq<char>, Seq<u128>>) -> Map<Seq<char>, Seq<u128>> {
    Map::new(|k: Seq<char>| m.contains_key(k) && m[k].len() > 0, |k: Seq<char>| m[k])
}

/// Entry lists stored in order, with no path twice, read back as the non-empty ones of
/// the map they came from.
pub proof fn lemma_entries_fold_view(es: Seq<(String, OrderedSet)>)
    requires
        keys_distinct(es),
    ensures
        entries_fold(es) == nonempty_entries(entry_models(entries_view(es))),
    decreases es.len(),
{
    if es.len() == 0 {
        assert(nonempty_entries(entry_models(entries_view(es))) =~= Map::<Seq<char>, Seq<u128>>::empty());
    } else {
        lemma_distinct_prefix(es);
        let prev = es.drop_last();
        lemma_entries_fold_view(prev);
        lemma_view_push(prev, es.last().0, es.last().1);
        let k = es.last().0@;
        if es.last().1@.len() == 0 {
            assert(nonempty_entries(entry_models(entries_view(es))) =~= nonempty_entries(
                entry_models(entries_view(prev)),
            ));
        } else {
            assert(nonempty_entries(entry_models(entries_view(es))) =~= nonempty_entries(
                entry_models(entries_view(prev)),
            ).insert(k, es.last().1@));
        }
    }
}

/// A standalone object that storage gives back as it was: its schema is one of the set's,
/// its values are leaves set on leaf properties of their kind (an enum value holding its
/// symbol's current name, not an alias), its null overrides are set
/// (not `Unset`) on nullables, its entry lists (without repeated ids) on dynamic arrays
/// and maps, and none of its paths ends in `.replace` right below a dynamic array.
pub open spec fn object_round_trips(o: ObjectModel, ss: SchemaSet) -> bool {
    let f = SchemaFingerprint(o.schema);
    let types = ss.types();
    &&& ss.wf()
    &&& object_schema_known(o, types)
    &&& forall|k: Seq<char>| #[trigger]
        o.properties.contains_key(k) ==> (property_schema_of(f, k, types) matches Some(s) && !(
        s is DynamicArray || s is Mapping) && crate::value::value_matches(o.properties[k], s, types)
            && crate::value::canonical_leaf(o.properties[k], s, types))
            && !replace_marker_path(f, k, types)
    &&& forall|k: Seq<char>| #[trigger]
        o.null_overrides.contains_key(k) ==> (property_schema_of(f, k, types) matches Some(s)
            && s is Nullable) && o.null_overrides[k] != NullOverride::Unset
    &&& forall|k: Seq<char>| #[trigger]
        o.entries.contains_key(k) ==> (property_schema_of(f, k, types) matches Some(s) && (
        s is DynamicArray || s is Mapping)) && !replace_marker_path(f, k, types)
            && o.entries[k].no_duplicates()
}

/// What reading a stored object back gives: its values, null overrides and non-empty
/// entry lists.
pub open spec fn object_load_state(o: ObjectModel) -> LoadState {
    LoadState {
        properties: o.properties,
        null_overrides: o.null_overrides,
        replace_mode: Set::empty(),
        entries: nonempty_entries(o.entries),
    }
}

/// The stored entries of an object that round-trips read back as the object.
pub proof fn lemma_object_loads_back(
    o: SingleObject,
    ss: SchemaSet,
    name: Seq<char>,
    js: Seq<(Seq<char>, JsonModel)>,
    b0: Option<Seq<Seq<u8>>>,
    b: Option<Seq<Seq<u8>>>,
)
    requires
        object_round_trips(o@, ss),
        o.property_map().wf(),
        o.null_map().wf(),
        o.entries_map().wf(),
        js == null_pairs(o.null_map().entry_seq()) + Seq::<(Seq<char>, JsonModel)>::empty() + entry_pairs(
            o.entries_map().entry_seq(),
        ) + property_pairs(o.property_map().entry_seq(), b0).0,
        forall|x: int|
            0 <= x < o.entries_map().entry_seq().len() ==> json_uuids(
                uuid_strings((#[trigger] o.entries_map().entry_seq()[x]).1@),
            ) == Some(o.entries_map().entry_seq()[x].1@),
        stored_values_read_back(
            o.property_map().entry_seq(),
            property_pairs(o.property_map().entry_seq(), b0).0,
            b,
        ),
    ensures
        stored_properties(ss, o@.schema, name, js, b, false) == Ok::<
            (SchemaFingerprint, LoadState),
            crate::ids::DataSetError,
        >((SchemaFingerprint(o@.schema), object_load_state(o@))),
{
    let f = SchemaFingerprint(o@.schema);
    let types = ss.types();
    o.lemma_maps();
    o.property_map().lemma_entries();
    o.null_map().lemma_entries();
    o.entries_map().lemma_entries();
    let ns = o.null_map().entry_seq();
    let es = o.entries_map().entry_seq();
    let ps = o.property_map().entry_seq();
    let pj = property_pairs(ps, b0).0;
    assert(types.contains_key(f.0));
    assert(types[f.0].spec_fingerprint().0 == f.0);
    let rec = match types[f.0] {
        SchemaNamedType::Record(r) => r,
        SchemaNamedType::Enum(_) => {
            assert(false);
            arbitrary()
        },
    };
    assert(rec.fingerprint == f);
    assert(stored_type(ss, o@.schema, name) == Some(types[f.0]));
    let a = null_pairs(ns);
    let e = Seq::<(Seq<char>, JsonModel)>::empty();
    let bp = entry_pairs(es);
    assert forall|i: int| 0 <= i < ns.len() implies (property_schema_of(f, (#[trigger] ns[i]).0@, types) matches Some(s)
        && s is Nullable) && ns[i].1 != NullOverride::Unset by {
        assert(o@.null_overrides.contains_key(ns[i].0@));
    }
    lemma_load_nulls(f, types, ns, b, false);
    let s1 = LoadState { null_overrides: nulls_fold(ns), ..empty_load_state() };
    lemma_load_concat(empty_load_state(), f, types, a, e, b, false);
    assert(load_entries(s1, f, types, e, b, false) == Ok::<LoadState, crate::ids::DataSetError>(s1));
    assert forall|i: int|
        0 <= i < es.len() implies (property_schema_of(f, (#[trigger] es[i]).0@, types) matches Some(s)
            && (s is DynamicArray || s is Mapping)) && !replace_marker_path(f, es[i].0@, types)
            && json_uuids(uuid_strings(es[i].1@)) == Some(es[i].1@) && es[i].1@.no_duplicates() by {
        let k = es[i].0@;
        assert(o@.entries.contains_key(k));
        assert(o@.entries[k] == es[i].1@);
    }
    lemma_load_entries(s1, f, types, es, b, false);
    let s2 = LoadState { entries: entries_fold(es), ..s1 };
    lemma_load_concat(empty_load_state(), f, types, a + e, bp, b, false);
    assert forall|i: int|
        0 <= i < ps.len() implies #[trigger] pj[i].0 == ps[i].0@ && (property_schema_of(f, ps[i].0@, types) matches Some(s)
            && !(s is DynamicArray || s is Mapping) && json_leaf_value(s, pj[i].1, b, types) == Some(
            ps[i].1@,
        )) && !replace_marker_path(f, ps[i].0@, types) by {
        let k = ps[i].0@;
        assert(o@.properties.contains_key(k));
        assert(o@.properties[k] == ps[i].1@);
        let s = property_schema_of(f, k, types)->0;
        lemma_walk_closed(Schema::Record(f), split_dot(k), types);
        assert(schema_closed(s, types));
        assert(json_leaf_value(s, pj[i].1, b, types) == Some(ps[i].1@));
    }
    lemma_load_props(s2, f, types, ps, pj, b, false);
    lemma_load_concat(empty_load_state(), f, types, a + e + bp, pj, b, false);
    lemma_nulls_fold_view(ns);
    lemma_props_fold_view(ps);
    lemma_entries_fold_view(es);
    assert(LoadState { properties: props_fold(ps), ..s2 } == object_load_state(o@));
}

/// The replace-mode markers stored in order, as a set.
pub open spec fn replace_fold(paths: Seq<Seq<char>>) -> Set<Seq<char>>
    decreases paths.len(),
{
    if paths.len() == 0 {
        Set::empty()
    } else {
        replace_fold(paths.drop_last()).insert(paths.last())
    }
}

/// A stored replace-mode marker of a dynamic array is read back (when markers are
/// kept).
pub proof fn lemma_replace_marker(
    st: LoadState,
    f: SchemaFingerprint,
    types: Map<u128, SchemaNamedType>,
    k: Seq<char>,
    buffers: Option<Seq<Seq<u8>>>,
)
    requires
        property_schema_of(f, k, types) matches Some(s) && s is DynamicArray,
    ensures
        load_entry(st, f, types, k + ".replace"@, JsonModel::Bool(true), buffers, true) == Ok::<
            LoadState,
            crate::ids::DataSetError,
        >(LoadState { replace_mode: st.replace_mode.insert(k), ..st }),
{
    reveal_strlit(".replace");
    reveal_strlit("replace");
    reveal_strlit("null_override");
    let end = "replace"@;
    assert(".replace"@ =~= dot() + end);
    assert(has_no_dot(end));
    assert(k + ".replace"@ =~= k + dot() + end);
    lemma_last_dot_of_join(k, end);
    let path = k + dot() + end;
    assert(path.subrange(0, k.len() as int) =~= k);
    assert(path.subrange(k.len() as int + 1, path.len() as int) =~= end);
}

/// Reading back the stored replace-mode markers of dynamic arrays gives them all.
pub proof fn lemma_load_replace(
    st: LoadState,
    f: SchemaFingerprint,
    types: Map<u128, SchemaNamedType>,
    paths: Seq<Seq<char>>,
    buffers: Option<Seq<Seq<u8>>>,
)
    requires
        st.replace_mode == Set::<Seq<char>>::empty(),
        forall|i: int|
            0 <= i < paths.len() ==> (property_schema_of(f, #[trigger] paths[i], types) matches Some(s)
                && s is DynamicArray),
    ensures
        load_entries(st, f, types, replace_pairs(paths), buffers, true) == Ok::<
            LoadState,
            crate::ids::DataSetError,
        >(LoadState { replace_mode: replace_fold(paths), ..st }),
    decreases paths.len(),
{
    if paths.len() > 0 {
        let prev = paths.drop_last();
        assert forall|i: int| 0 <= i < prev.len() implies (property_schema_of(f, #[trigger] prev[i], types) matches Some(s)
            && s is DynamicArray) by {
            assert(prev[i] == paths[i]);
        }
        lemma_load_replace(st, f, types, prev, buffers);
        assert(replace_pairs(paths).drop_last() =~= replace_pairs(prev));
        assert(paths[paths.len() - 1] == paths.last());
        lemma_replace_marker(LoadState { replace_mode: replace_fold(prev), ..st }, f, types, paths.last(), buffers);
    }
}

proof fn lemma_replace_fold_contains(paths: Seq<Seq<char>>, k: Seq<char>)
    ensures
        replace_fold(paths).contains(k) <==> paths.contains(k),
    decreases paths.len(),
{
    if paths.len() > 0 {
        lemma_replace_fold_contains(paths.drop_last(), k);
        if paths.drop_last().contains(k) {
            let i = choose|i: int| 0 <= i < paths.drop_last().len() && paths.drop_last()[i] == k;
            assert(paths[i] == k);
        }
        if paths.contains(k) && paths.last() != k {
            let i = choose|i: int| 0 <= i < paths.len() && paths[i] == k;
            assert(i < paths.len() - 1);
            assert(paths.drop_last()[i] == k);
        }
    }
}

/// An asset that storage gives back as it was: as for a standalone object (see
/// `object_round_trips`), and its containers in replace mode are dynamic arrays.
pub open spec fn asset_round_trips(a: AssetModel, ss: SchemaSet) -> bool {
    &&& object_round_trips(
        ObjectModel {
            schema: a.schema,
            properties: a.properties,
            null_overrides: a.null_overrides,
            entries: a.dynamic_array_entries,
        },
        ss,
    )
    &&& forall|k: Seq<char>| #[trigger]
        a.replace_mode.contains(k) ==> (property_schema_of(SchemaFingerprint(a.schema), k, ss.types()) matches Some(
            s,
        ) && s is DynamicArray)
}

/// What reading a stored asset back gives: its values, null overrides, containers in
/// replace mode and non-empty entry lists.
pub open spec fn asset_load_state(a: AssetModel) -> LoadState {
    LoadState {
        properties: a.properties,
        null_overrides: a.null_overrides,
        replace_mode: a.replace_mode,
        entries: nonempty_entries(a.dynamic_array_entries),
    }
}

/// The stored entries of an asset that round-trips read back as the asset.
pub proof fn lemma_asset_loads_back(
    info: DataSetAssetInfo,
    ss: SchemaSet,
    name: Seq<char>,
    js: Seq<(Seq<char>, JsonModel)>,
)
    requires
        asset_round_trips(info@, ss),
        info.property_map().wf(),
        info.null_map().wf(),
        info.entries_map().wf(),
        info.replace_set().wf(),
        js == null_pairs(info.null_map().entry_seq()) + replace_pairs(info.replace_set().path_seq())
            + entry_pairs(info.entries_map().entry_seq()) + property_pairs(
            info.property_map().entry_seq(),
            None,
        ).0,
        forall|x: int|
            0 <= x < info.entries_map().entry_seq().len() ==> json_uuids(
                uuid_strings((#[trigger] info.entries_map().entry_seq()[x]).1@),
            ) == Some(info.entries_map().entry_seq()[x].1@),
        stored_values_read_back(
            info.property_map().entry_seq(),
            property_pairs(info.property_map().entry_seq(), None).0,
            None,
        ),
    ensures
        stored_properties(ss, info@.schema, name, js, None, true) == Ok::<
            (SchemaFingerprint, LoadState),
            crate::ids::DataSetError,
        >((SchemaFingerprint(info@.schema), asset_load_state(info@))),
{
    let a = info@;
    let f = SchemaFingerprint(a.schema);
    let types = ss.types();
    let b = None::<Seq<Seq<u8>>>;
    info.lemma_maps();
    info.property_map().lemma_entries();
    info.null_map().lemma_entries();
    info.entries_map().lemma_entries();
    info.replace_set().lemma_paths();
    let o = ObjectModel {
        schema: a.schema,
        properties: a.properties,
        null_overrides: a.null_overrides,
        entries: a.dynamic_array_entries,
    };
    let ns = info.null_map().entry_seq();
    let es = info.entries_map().entry_seq();
    let ps = info.property_map().entry_seq();
    let rp = info.replace_set().path_seq();
    let pj = property_pairs(ps, b).0;
    assert(types.contains_key(f.0));
    assert(types[f.0].spec_fingerprint().0 == f.0);
    let rec = match types[f.0] {
        SchemaNamedType::Record(r) => r,
        SchemaNamedType::Enum(_) => {
            assert(false);
            arbitrary()
        },
    };
    assert(rec.fingerprint == f);
    assert(stored_type(ss, a.schema, name) == Some(types[f.0]));
    let na = null_pairs(ns);
    let ra = replace_pairs(rp);
    let bp = entry_pairs(es);
    assert forall|i: int| 0 <= i < ns.len() implies (property_schema_of(f, (#[trigger] ns[i]).0@, types) matches Some(s)
        && s is Nullable) && ns[i].1 != NullOverride::Unset by {
        assert(o.null_overrides.contains_key(ns[i].0@));
    }
    lemma_load_nulls(f, types, ns, b, true);
    let s1 = LoadState { null_overrides: nulls_fold(ns), ..empty_load_state() };
    assert forall|i: int| 0 <= i < rp.len() implies (property_schema_of(f, #[trigger] rp[i], types) matches Some(s)
        && s is DynamicArray) by {
        assert(rp.contains(rp[i]));
        assert(a.replace_mode.contains(rp[i]));
    }
    lemma_load_replace(s1, f, types, rp, b);
    let s15 = LoadState { replace_mode: replace_fold(rp), ..s1 };
    lemma_load_concat(empty_load_state(), f, types, na, ra, b, true);
    assert forall|i: int|
        0 <= i < es.len() implies (property_schema_of(f, (#[trigger] es[i]).0@, types) matches Some(s)
            && (s is DynamicArray || s is Mapping)) && !replace_marker_path(f, es[i].0@, types)
            && json_uuids(uuid_strings(es[i].1@)) == Some(es[i].1@) && es[i].1@.no_duplicates() by {
        let k = es[i].0@;
        assert(o.entries.contains_key(k));
        assert(o.entries[k] == es[i].1@);
    }
    lemma_load_entries(s15, f, types, es, b, true);
    let s2 = LoadState { entries: entries_fold(es), ..s15 };
    lemma_load_concat(empty_load_state(), f, types, na + ra, bp, b, true);
    assert forall|i: int|
        0 <= i < ps.len() implies #[trigger] pj[i].0 == ps[i].0@ && (property_schema_of(f, ps[i].0@, types) matches Some(s)
            && !(s is DynamicArray || s is Mapping) && json_leaf_value(s, pj[i].1, b, types) == Some(
            ps[i].1@,
        )) && !replace_marker_path(f, ps[i].0@, types) by {
        let k = ps[i].0@;
        assert(o.properties.contains_key(k));
        assert(o.properties[k] == ps[i].1@);
        let s = property_schema_of(f, k, types)->0;
        lemma_walk_closed(Schema::Record(f), split_dot(k), types);
        assert(schema_closed(s, types));
        assert(json_leaf_value(s, pj[i].1, b, types) == Some(ps[i].1@));
    }
    lemma_load_props(s2, f, types, ps, pj, b, true);
    lemma_load_concat(empty_load_state(), f, types, na + ra + bp, pj, b, true);
    lemma_nulls_fold_view(ns);
    lemma_props_fold_view(ps);
    lemma_entries_fold_view(es);
    assert forall|k: Seq<char>| #[trigger] replace_fold(rp).contains(k) <==> a.replace_mode.contains(k) by {
        lemma_replace_fold_contains(rp, k);
    }
    assert(replace_fold(rp) =~= a.replace_mode);
    assert(LoadState { properties: props_fold(ps), ..s2 } == asset_load_state(a));
}

} // verus!
