use vstd::prelude::*;
use crate::ids::{DataSetError, DataSetResult};
use crate::path::{
    join_dot, lemma_join_split, lemma_split_dot_nonempty, split_dot, split_path, strings_view,
    truncate_property_path, truncated_path,
};
use crate::json_round_trip::{dot, has_no_dot, lemma_split_last_segment, lemma_split_no_dot};
use crate::schema::{
    find_field_schema, lemma_field_schema_closed, lemma_walk_none_extends, schema_closed,
    types_closed, walk_schema, NamedTypes, Schema, SchemaNamedType, SchemaRecord,
};

verus! {

/// Which kind of container a path step enters.
pub open spec fn step_is_nullable(s: Option<Schema>) -> bool {
    s matches Some(Schema::Nullable(_))
}

pub open spec fn step_is_static_array(s: Option<Schema>) -> bool {
    s matches Some(Schema::StaticArray(_, _))
}

pub open spec fn step_is_dynamic_array(s: Option<Schema>) -> bool {
    s matches Some(Schema::DynamicArray(_))
}

pub open spec fn step_is_map(s: Option<Schema>) -> bool {
    s matches Some(Schema::Mapping(_, _))
}

#[verifier::opaque]
/// Paths of the nullable containers entered by the first `k` steps of `path`.
pub open spec fn nullable_ancestors(f: crate::schema::SchemaFingerprint, path: Seq<char>, types: Map<
    u128,
    SchemaNamedType,
>, k: int) -> Seq<Seq<char>>
    decreases k,
{
    if k <= 0 {
        Seq::empty()
    } else {
        let prev = nullable_ancestors(f, path, types, k - 1);
        if step_is_nullable(walk_schema(Schema::Record(f), split_dot(path).take(k - 1), types)) {
            prev.push(truncated_path(path, k - 2))
        } else {
            prev
        }
    }
}

#[verifier::opaque]
/// Container path and entry key of every container of the chosen kind entered by the
/// first `k` steps of `path` (kind 0: static arrays, 1: dynamic arrays, 2: maps).
pub open spec fn keyed_ancestors(
    f: crate::schema::SchemaFingerprint,
    path: Seq<char>,
    types: Map<u128, SchemaNamedType>,
    kind: int,
    k: int,
) -> Seq<(Seq<char>, Seq<char>)>
    decreases k,
{
    if k <= 0 {
        Seq::empty()
    } else {
        let prev = keyed_ancestors(f, path, types, kind, k - 1);
        let parent = walk_schema(Schema::Record(f), split_dot(path).take(k - 1), types);
        let hit = if kind == 0 {
            step_is_static_array(parent)
        } else if kind == 1 {
            step_is_dynamic_array(parent)
        } else {
            step_is_map(parent)
        };
        if hit {
            prev.push((truncated_path(path, k - 2), split_dot(path)[k - 1]))
        } else {
            prev
        }
    }
}

/// `a` followed by a '.' begins `p`: `a` names a container that `p` passes through.
pub open spec fn is_dot_prefix(a: Seq<char>, p: Seq<char>) -> bool {
    a.len() < p.len() && p.subrange(0, a.len() as int) == a && p[a.len() as int] == '.'
}

/// `q` begins `p` (or is `p`).
pub open spec fn begins(q: Seq<char>, p: Seq<char>) -> bool {
    q.len() <= p.len() && p.subrange(0, q.len() as int) == q
}

pub open spec fn pair_strings_view(v: Seq<(String, String)>) -> Seq<(Seq<char>, Seq<char>)> {
    v.map_values(|p: (String, String)| (p.0@, p.1@))
}

/// The first `m + 1` steps of `path` stay inside the schema.
pub open spec fn step_ok(f: crate::schema::SchemaFingerprint, path: Seq<char>, types: Map<
    u128,
    SchemaNamedType,
>, m: int) -> bool {
    walk_schema(Schema::Record(f), split_dot(path).take(m + 1), types) is Some
}

/// The number of leading steps of `path` that stay inside the schema, capped at the
/// number of steps before the last one.
pub open spec fn checked_steps(f: crate::schema::SchemaFingerprint, path: Seq<char>, types: Map<
    u128,
    SchemaNamedType,
>) -> int {
    let n = split_dot(path).len() - 1;
    if exists|j: int| 0 <= j < n && !#[trigger] step_ok(f, path, types, j) {
        choose|j: int|
            0 <= j < n && !#[trigger] step_ok(f, path, types, j) && forall|m: int|
                0 <= m < j ==> #[trigger] step_ok(f, path, types, m)
    } else {
        n
    }
}

fn note_container(
    parent: &Schema,
    path: &str,
    i: usize,
    key: &String,
    nullable_keys: &mut Vec<String>,
    dynamic_array_keys: &mut Vec<(String, String)>,
    static_array_keys: &mut Vec<(String, String)>,
    map_keys: &mut Vec<(String, String)>,
)
    requires
        i == 0 ==> *parent is Record,
    ensures
        strings_view(final(nullable_keys)@) == if step_is_nullable(Some(*parent)) {
            strings_view(old(nullable_keys)@).push(truncated_path(path@, i - 1))
        } else {
            strings_view(old(nullable_keys)@)
        },
        pair_strings_view(final(static_array_keys)@) == if step_is_static_array(Some(*parent)) {
            pair_strings_view(old(static_array_keys)@).push((truncated_path(path@, i - 1), key@))
        } else {
            pair_strings_view(old(static_array_keys)@)
        },
        pair_strings_view(final(dynamic_array_keys)@) == if step_is_dynamic_array(Some(*parent)) {
            pair_strings_view(old(dynamic_array_keys)@).push((truncated_path(path@, i - 1), key@))
        } else {
            pair_strings_view(old(dynamic_array_keys)@)
        },
        pair_strings_view(final(map_keys)@) == if step_is_map(Some(*parent)) {
            pair_strings_view(old(map_keys)@).push((truncated_path(path@, i - 1), key@))
        } else {
            pair_strings_view(old(map_keys)@)
        },
{
    match parent {
        Schema::Nullable(_) => {
            let p = truncate_property_path(path, i - 1);
            let ghost before = nullable_keys@;
            nullable_keys.push(p);
            assert(strings_view(nullable_keys@) =~= strings_view(before).push(p@));
        },
        Schema::StaticArray(_, _) => {
            let p = truncate_property_path(path, i - 1);
            let k = key.clone();
            let ghost before = static_array_keys@;
            static_array_keys.push((p, k));
            assert(pair_strings_view(static_array_keys@) =~= pair_strings_view(before).push((p@, k@)));
        },
        Schema::DynamicArray(_) => {
            let p = truncate_property_path(path, i - 1);
            let k = key.clone();
            let ghost before = dynamic_array_keys@;
            dynamic_array_keys.push((p, k));
            assert(pair_strings_view(dynamic_array_keys@) =~= pair_strings_view(before).push((p@, k@)));
        },
        Schema::Mapping(_, _) => {
            let p = truncate_property_path(path, i - 1);
            let k = key.clone();
            let ghost before = map_keys@;
            map_keys.push((p, k));
            assert(pair_strings_view(map_keys@) =~= pair_strings_view(before).push((p@, k@)));
        },
        _ => {},
    }
}

#[verifier::rlimit(60)]
/// Finds the schema of the property at `path` in record `named_type`, and records the
/// containers that the path passes through: the paths of nullables, and the container
/// path and entry key of static arrays, dynamic arrays and maps. Fails with
/// `SchemaNotFound` when the path leaves the schema.
pub fn property_schema_and_path_ancestors_to_check(
    named_type: &SchemaRecord,
    path: &str,
    named_types: &NamedTypes,
    accessed_nullable_keys: &mut Vec<String>,
    accessed_dynamic_array_keys: &mut Vec<(String, String)>,
    accessed_static_array_keys: &mut Vec<(String, String)>,
    accessed_map_keys: &mut Vec<(String, String)>,
) -> (r: DataSetResult<Schema>)
    requires
        types_closed(named_types@),
        schema_closed(Schema::Record(named_type.fingerprint), named_types@),
    ensures
        match r {
            Ok(s) => crate::schema::property_schema_of(named_type.fingerprint, path@, named_types@)
                == Some(s),
            Err(e) => e == DataSetError::SchemaNotFound && crate::schema::property_schema_of(
                named_type.fingerprint,
                path@,
                named_types@,
            ) is None,
        },
        strings_view(final(accessed_nullable_keys)@) == strings_view(old(accessed_nullable_keys)@)
            + nullable_ancestors(
            named_type.fingerprint,
            path@,
            named_types@,
            checked_steps(named_type.fingerprint, path@, named_types@),
        ),
        pair_strings_view(final(accessed_static_array_keys)@) == pair_strings_view(
            old(accessed_static_array_keys)@,
        ) + keyed_ancestors(
            named_type.fingerprint,
            path@,
            named_types@,
            0,
            checked_steps(named_type.fingerprint, path@, named_types@),
        ),
        pair_strings_view(final(accessed_dynamic_array_keys)@) == pair_strings_view(
            old(accessed_dynamic_array_keys)@,
        ) + keyed_ancestors(
            named_type.fingerprint,
            path@,
            named_types@,
            1,
            checked_steps(named_type.fingerprint, path@, named_types@),
        ),
        pair_strings_view(final(accessed_map_keys)@) == pair_strings_view(old(accessed_map_keys)@)
            + keyed_ancestors(
            named_type.fingerprint,
            path@,
            named_types@,
            2,
            checked_steps(named_type.fingerprint, path@, named_types@),
        ),
{
    let ghost f = named_type.fingerprint;
    let ghost types = named_types@;
    let ghost segs_v = split_dot(path@);
    let ghost n0 = strings_view(old(accessed_nullable_keys)@);
    let ghost s0 = pair_strings_view(old(accessed_static_array_keys)@);
    let ghost d0 = pair_strings_view(old(accessed_dynamic_array_keys)@);
    let ghost m0 = pair_strings_view(old(accessed_map_keys)@);
    let mut schema = Schema::Record(named_type.fingerprint);
    let split = split_path(path);
    proof {
        crate::path::lemma_split_dot_nonempty(path@);
    }
    let last = split.len() - 1;
    let mut i: usize = 0;
    proof {
        lemma_ancestors_zero(f, path@, types);
        assert(n0 + Seq::<Seq<char>>::empty() =~= n0);
        assert(s0 + Seq::<(Seq<char>, Seq<char>)>::empty() =~= s0);
        assert(d0 + Seq::<(Seq<char>, Seq<char>)>::empty() =~= d0);
        assert(m0 + Seq::<(Seq<char>, Seq<char>)>::empty() =~= m0);
    }
    while i < last
        invariant
            types_closed(types),
            types == named_types@,
            f == named_type.fingerprint,
            n0 == strings_view(old(accessed_nullable_keys)@),
            s0 == pair_strings_view(old(accessed_static_array_keys)@),
            d0 == pair_strings_view(old(accessed_dynamic_array_keys)@),
            m0 == pair_strings_view(old(accessed_map_keys)@),
            strings_view(split@) == segs_v,
            segs_v == split_dot(path@),
            last == segs_v.len() - 1,
            i <= last,
            walk_schema(Schema::Record(f), segs_v.take(i as int), types) == Some(schema),
            schema_closed(schema, types),
            i == 0 ==> schema == Schema::Record(f),
            forall|m: int|
                0 <= m < i ==> step_ok(f, path@, types, m),
            strings_view(accessed_nullable_keys@) == n0 + nullable_ancestors(f, path@, types, i as int),
            pair_strings_view(accessed_static_array_keys@) == s0 + keyed_ancestors(
                f,
                path@,
                types,
                0,
                i as int,
            ),
            pair_strings_view(accessed_dynamic_array_keys@) == d0 + keyed_ancestors(
                f,
                path@,
                types,
                1,
                i as int,
            ),
            pair_strings_view(accessed_map_keys@) == m0 + keyed_ancestors(f, path@, types, 2, i as int),
        decreases last - i,
    {
        assert(segs_v.take(i + 1).drop_last() =~= segs_v.take(i as int));
        assert(segs_v.take(i + 1).last() == split@[i as int]@);
        let child = match find_field_schema(&schema, split[i].as_str(), named_types) {
            Some(c) => c,
            None => {
                proof {
                    lemma_fail_at(f, path@, types, i as int, schema);
                }
                return Err(DataSetError::SchemaNotFound);
            },
        };
        proof {
            lemma_field_schema_closed(schema, split@[i as int]@, types);
        }
        note_container(
            &schema,
            path,
            i,
            &split[i],
            accessed_nullable_keys,
            accessed_dynamic_array_keys,
            accessed_static_array_keys,
            accessed_map_keys,
        );
        proof {
            assert(split_dot(path@)[i as int] == split@[i as int]@);
            lemma_ancestors_step(f, path@, types, i as int);
            let item = (truncated_path(path@, i - 1), split_dot(path@)[i as int]);
            assert(n0 + nullable_ancestors(f, path@, types, i as int).push(truncated_path(path@, i - 1))
                =~= (n0 + nullable_ancestors(f, path@, types, i as int)).push(truncated_path(path@, i - 1)));
            assert(s0 + keyed_ancestors(f, path@, types, 0, i as int).push(item) =~= (s0
                + keyed_ancestors(f, path@, types, 0, i as int)).push(item));
            assert(d0 + keyed_ancestors(f, path@, types, 1, i as int).push(item) =~= (d0
                + keyed_ancestors(f, path@, types, 1, i as int)).push(item));
            assert(m0 + keyed_ancestors(f, path@, types, 2, i as int).push(item) =~= (m0
                + keyed_ancestors(f, path@, types, 2, i as int)).push(item));
        }
        schema = child;
        i = i + 1;
    }
    assert(segs_v.take(last + 1).drop_last() =~= segs_v.take(last as int));
    assert(segs_v.take(last + 1) =~= segs_v);
    proof {
        lemma_checked_steps_full(f, path@, types);
    }
    match find_field_schema(&schema, split[last].as_str(), named_types) {
        Some(c) => Ok(c),
        None => Err(DataSetError::SchemaNotFound),
    }
}

proof fn lemma_ancestors_step(
    f: crate::schema::SchemaFingerprint,
    path: Seq<char>,
    types: Map<u128, SchemaNamedType>,
    i: int,
)
    requires
        0 <= i,
    ensures
        ({
            let parent = walk_schema(Schema::Record(f), split_dot(path).take(i), types);
            let item = (truncated_path(path, i - 1), split_dot(path)[i]);
            &&& nullable_ancestors(f, path, types, i + 1) == if step_is_nullable(parent) {
                nullable_ancestors(f, path, types, i).push(truncated_path(path, i - 1))
            } else {
                nullable_ancestors(f, path, types, i)
            }
            &&& keyed_ancestors(f, path, types, 0, i + 1) == if step_is_static_array(parent) {
                keyed_ancestors(f, path, types, 0, i).push(item)
            } else {
                keyed_ancestors(f, path, types, 0, i)
            }
            &&& keyed_ancestors(f, path, types, 1, i + 1) == if step_is_dynamic_array(parent) {
                keyed_ancestors(f, path, types, 1, i).push(item)
            } else {
                keyed_ancestors(f, path, types, 1, i)
            }
            &&& keyed_ancestors(f, path, types, 2, i + 1) == if step_is_map(parent) {
                keyed_ancestors(f, path, types, 2, i).push(item)
            } else {
                keyed_ancestors(f, path, types, 2, i)
            }
        }),
{
    reveal(nullable_ancestors);
    reveal(keyed_ancestors);
}

proof fn lemma_ancestors_zero(f: crate::schema::SchemaFingerprint, path: Seq<char>, types: Map<
    u128,
    SchemaNamedType,
>)
    ensures
        nullable_ancestors(f, path, types, 0) == Seq::<Seq<char>>::empty(),
        keyed_ancestors(f, path, types, 0, 0) == Seq::<(Seq<char>, Seq<char>)>::empty(),
        keyed_ancestors(f, path, types, 1, 0) == Seq::<(Seq<char>, Seq<char>)>::empty(),
        keyed_ancestors(f, path, types, 2, 0) == Seq::<(Seq<char>, Seq<char>)>::empty(),
{
    reveal(nullable_ancestors);
    reveal(keyed_ancestors);
}

proof fn lemma_fail_at(
    f: crate::schema::SchemaFingerprint,
    path: Seq<char>,
    types: Map<u128, SchemaNamedType>,
    i: int,
    schema: Schema,
)
    requires
        0 <= i < split_dot(path).len() - 1,
        walk_schema(Schema::Record(f), split_dot(path).take(i), types) == Some(schema),
        crate::schema::field_schema_of(schema, split_dot(path)[i], types) is None,
        forall|m: int| 0 <= m < i ==> step_ok(f, path, types, m),
    ensures
        crate::schema::property_schema_of(f, path, types) is None,
        checked_steps(f, path, types) == i,
{
    let segs = split_dot(path);
    assert(segs.take(i + 1).drop_last() =~= segs.take(i));
    assert(segs.take(i + 1).last() == segs[i]);
    assert(walk_schema(Schema::Record(f), segs.take(i + 1), types) is None);
    lemma_walk_none_extends(Schema::Record(f), segs, i + 1, types);
    lemma_checked_steps_at(f, path, types, i);
}

proof fn lemma_checked_steps_at(
    f: crate::schema::SchemaFingerprint,
    path: Seq<char>,
    types: Map<u128, SchemaNamedType>,
    j: int,
)
    requires
        0 <= j < split_dot(path).len() - 1,
        !step_ok(f, path, types, j),
        forall|m: int|
            0 <= m < j ==> step_ok(f, path, types, m),
    ensures
        checked_steps(f, path, types) == j,
{
    let n = split_dot(path).len() - 1;
    assert(exists|jj: int|
        0 <= jj < n && !step_ok(f, path, types, jj));
    let c = checked_steps(f, path, types);
    assert(0 <= c < n && !step_ok(f, path, types, c)
        && forall|m: int|
        0 <= m < c ==> step_ok(f, path, types, m))
        by {
        assert(0 <= j < n && !step_ok(f, path, types, j) && forall|m: int|
            0 <= m < j ==> step_ok(f, path, types, m));
    }
    if c < j {
        assert(step_ok(f, path, types, c));
    }
    if c > j {
        assert(step_ok(f, path, types, j));
    }
}

proof fn lemma_checked_steps_full(
    f: crate::schema::SchemaFingerprint,
    path: Seq<char>,
    types: Map<u128, SchemaNamedType>,
)
    requires
        forall|m: int|
            0 <= m < split_dot(path).len() - 1 ==> step_ok(f, path, types, m),
    ensures
        checked_steps(f, path, types) == split_dot(path).len() - 1,
{
}

/// A path that stays inside the schema passes every step check.
pub proof fn lemma_checked_steps_valid(
    f: crate::schema::SchemaFingerprint,
    path: Seq<char>,
    types: Map<u128, SchemaNamedType>,
)
    requires
        crate::schema::property_schema_of(f, path, types) is Some,
    ensures
        checked_steps(f, path, types) == split_dot(path).len() - 1,
{
    let segs = split_dot(path);
    assert forall|m: int| 0 <= m < segs.len() - 1 implies step_ok(f, path, types, m) by {
        if !step_ok(f, path, types, m) {
            lemma_walk_none_extends(Schema::Record(f), segs, m + 1, types);
        }
    }
}

/// The containers that a path passes through have shorter paths than the path itself.
pub proof fn lemma_ancestors_shorter(
    f: crate::schema::SchemaFingerprint,
    path: Seq<char>,
    types: Map<u128, SchemaNamedType>,
    k: int,
)
    requires
        0 <= k <= split_dot(path).len() - 1,
    ensures
        forall|j: int|
            0 <= j < nullable_ancestors(f, path, types, k).len() ==> (#[trigger] nullable_ancestors(
                f,
                path,
                types,
                k,
            )[j]).len() < path.len(),
        forall|kind: int, j: int|
            0 <= j < keyed_ancestors(f, path, types, kind, k).len() ==> (#[trigger] keyed_ancestors(
                f,
                path,
                types,
                kind,
                k,
            )[j]).0.len() < path.len(),
    decreases k,
{
    reveal(nullable_ancestors);
    reveal(keyed_ancestors);
    if k > 0 {
        lemma_ancestors_shorter(f, path, types, k - 1);
        let parent = walk_schema(Schema::Record(f), split_dot(path).take(k - 1), types);
        if k - 1 == 0 {
            assert(split_dot(path).take(0) =~= Seq::<Seq<char>>::empty());
            assert(parent == Some(Schema::Record(f)));
        } else {
            crate::path::lemma_truncated_shorter(path, k - 2);
        }
        assert forall|j: int|
            0 <= j < nullable_ancestors(f, path, types, k).len() implies (#[trigger] nullable_ancestors(
            f,
            path,
            types,
            k,
        )[j]).len() < path.len() by {
            let prev = nullable_ancestors(f, path, types, k - 1);
            if j < prev.len() {
                assert(nullable_ancestors(f, path, types, k)[j] == prev[j]);
            }
        }
        assert forall|kind: int, j: int|
            0 <= j < keyed_ancestors(f, path, types, kind, k).len() implies (#[trigger] keyed_ancestors(
            f,
            path,
            types,
            kind,
            k,
        )[j]).0.len() < path.len() by {
            let prev = keyed_ancestors(f, path, types, kind, k - 1);
            if j < prev.len() {
                assert(keyed_ancestors(f, path, types, kind, k)[j] == prev[j]);
            }
        }
    }
}

/// No segment of a split path holds a '.'.
proof fn lemma_segments_no_dot(s: Seq<char>)
    ensures
        forall|i: int| 0 <= i < split_dot(s).len() ==> has_no_dot(#[trigger] split_dot(s)[i]),
    decreases s.len(),
{
    if s.len() > 0 {
        lemma_segments_no_dot(s.drop_last());
        lemma_split_dot_nonempty(s.drop_last());
        let prev = split_dot(s.drop_last());
        if s.last() != '.' {
            assert forall|i: int| 0 <= i < split_dot(s).len() implies has_no_dot(#[trigger] split_dot(s)[i]) by {
                if i < prev.len() - 1 {
                    assert(split_dot(s)[i] == prev[i]);
                } else {
                    assert(split_dot(s)[i] == prev.last().push(s.last()));
                    assert(has_no_dot(prev[prev.len() - 1]));
                }
            }
        } else {
            assert forall|i: int| 0 <= i < split_dot(s).len() implies has_no_dot(#[trigger] split_dot(s)[i]) by {
                if i < prev.len() {
                    assert(split_dot(s)[i] == prev[i]);
                }
            }
        }
    }
}

/// Joining segments without dots and splitting again gives the segments back.
proof fn lemma_split_join(segs: Seq<Seq<char>>)
    requires
        segs.len() >= 1,
        forall|i: int| 0 <= i < segs.len() ==> has_no_dot(#[trigger] segs[i]),
    ensures
        split_dot(join_dot(segs)) == segs,
    decreases segs.len(),
{
    if segs.len() == 1 {
        lemma_split_no_dot(segs[0]);
        assert(seq![segs[0]] =~= segs);
    } else {
        let d = segs.drop_last();
        lemma_split_join(d);
        assert(has_no_dot(segs[segs.len() - 1]));
        lemma_split_last_segment(join_dot(d), segs.last());
        assert(join_dot(segs) == join_dot(d) + seq!['.'] + segs.last());
        assert(dot() =~= seq!['.']);
        assert(d.push(segs.last()) =~= segs);
    }
}

/// Joining all the segments is joining the first `m`, a '.', and the rest.
proof fn lemma_join_parts(segs: Seq<Seq<char>>, m: int)
    requires
        1 <= m < segs.len(),
    ensures
        join_dot(segs) == join_dot(segs.take(m)) + seq!['.'] + join_dot(segs.skip(m)),
    decreases segs.len(),
{
    let d = segs.drop_last();
    if m == segs.len() - 1 {
        assert(segs.take(m) =~= d);
        assert(segs.skip(m) =~= seq![segs.last()]);
    } else {
        lemma_join_parts(d, m);
        assert(d.take(m) =~= segs.take(m));
        assert(segs.skip(m).drop_last() =~= d.skip(m));
        assert(segs.skip(m).last() == segs.last());
        assert(join_dot(segs.skip(m)) == join_dot(d.skip(m)) + seq!['.'] + segs.last());
        assert(join_dot(segs) =~= join_dot(segs.take(m)) + seq!['.'] + join_dot(segs.skip(m)));
    }
}

/// Joining segments begins with the first segment.
proof fn lemma_join_begins(segs: Seq<Seq<char>>)
    requires
        segs.len() >= 1,
    ensures
        begins(segs[0], join_dot(segs)),
    decreases segs.len(),
{
    if segs.len() > 1 {
        lemma_join_begins(segs.drop_last());
        assert(segs.drop_last()[0] == segs[0]);
        let j = join_dot(segs.drop_last());
        assert(join_dot(segs) == j + seq!['.'] + segs.last());
        assert(segs[0].len() <= j.len());
        assert((j + seq!['.'] + segs.last()).subrange(0, segs[0].len() as int) =~= j.subrange(
            0,
            segs[0].len() as int,
        ));
    } else {
        assert(join_dot(segs) == segs[0]);
        assert(segs[0].subrange(0, segs[0].len() as int) =~= segs[0]);
    }
}

/// The path of the container entered at step `k - 1` (for `2 <= k <= n`, `n` the number
/// of segments): a dot prefix of the path whose schema is the container's, with the key
/// `split_dot(path)[k - 1]` after it.
proof fn lemma_ancestor_at(
    f: crate::schema::SchemaFingerprint,
    path: Seq<char>,
    types: Map<u128, SchemaNamedType>,
    k: int,
)
    requires
        2 <= k <= split_dot(path).len() - 1,
    ensures
        is_dot_prefix(truncated_path(path, k - 2), path),
        crate::schema::property_schema_of(f, truncated_path(path, k - 2), types) == walk_schema(
            Schema::Record(f),
            split_dot(path).take(k - 1),
            types,
        ),
        begins(truncated_path(path, k - 2) + seq!['.'] + split_dot(path)[k - 1], path),
{
    let segs = split_dot(path);
    lemma_segments_no_dot(path);
    lemma_join_split(path);
    let a = truncated_path(path, k - 2);
    assert(a == join_dot(segs.take(k - 1)));
    assert forall|i: int| 0 <= i < segs.take(k - 1).len() implies has_no_dot(#[trigger] segs.take(k - 1)[i]) by {
        assert(segs.take(k - 1)[i] == segs[i]);
    }
    lemma_split_join(segs.take(k - 1));
    lemma_join_parts(segs, k - 1);
    let rest = join_dot(segs.skip(k - 1));
    assert(path == a + seq!['.'] + rest);
    assert(path.subrange(0, a.len() as int) =~= a);
    assert(path[a.len() as int] == '.');
    lemma_join_begins(segs.skip(k - 1));
    assert(segs.skip(k - 1)[0] == segs[k - 1]);
    assert(path.subrange(0, (a + seq!['.'] + segs[k - 1]).len() as int) =~= a + seq!['.'] + segs[k - 1]) by {
        assert(rest.subrange(0, segs[k - 1].len() as int) == segs[k - 1]);
    }
}

/// The ancestors a path check records are the containers the path passes through: each
/// recorded nullable is a dot prefix of the path whose schema is a nullable, and each
/// recorded container of a kind (0: static arrays, 1: dynamic arrays, 2: maps) is a dot
/// prefix of the path whose schema is of that kind, followed in the path by its key.
pub proof fn law_ancestors_lie_on_the_path(
    f: crate::schema::SchemaFingerprint,
    path: Seq<char>,
    types: Map<u128, SchemaNamedType>,
    k: int,
)
    requires
        0 <= k <= split_dot(path).len() - 1,
    ensures
        forall|j: int|
            0 <= j < nullable_ancestors(f, path, types, k).len() ==> {
                let a = #[trigger] nullable_ancestors(f, path, types, k)[j];
                is_dot_prefix(a, path) && crate::schema::property_schema_of(f, a, types) matches Some(
                    Schema::Nullable(_),
                )
            },
        forall|kind: int, j: int|
            0 <= j < keyed_ancestors(f, path, types, kind, k).len() ==> {
                let e = #[trigger] keyed_ancestors(f, path, types, kind, k)[j];
                &&& is_dot_prefix(e.0, path)
                &&& begins(e.0 + seq!['.'] + e.1, path)
                &&& if kind == 0 {
                    step_is_static_array(crate::schema::property_schema_of(f, e.0, types))
                } else if kind == 1 {
                    step_is_dynamic_array(crate::schema::property_schema_of(f, e.0, types))
                } else {
                    step_is_map(crate::schema::property_schema_of(f, e.0, types))
                }
            },
    decreases k,
{
    reveal(nullable_ancestors);
    reveal(keyed_ancestors);
    if k > 0 {
        law_ancestors_lie_on_the_path(f, path, types, k - 1);
        let parent = walk_schema(Schema::Record(f), split_dot(path).take(k - 1), types);
        if k - 1 == 0 {
            assert(split_dot(path).take(0) =~= Seq::<Seq<char>>::empty());
            assert(parent == Some(Schema::Record(f)));
        } else {
            lemma_ancestor_at(f, path, types, k);
        }
        assert forall|j: int| 0 <= j < nullable_ancestors(f, path, types, k).len() implies {
            let a = #[trigger] nullable_ancestors(f, path, types, k)[j];
            is_dot_prefix(a, path) && crate::schema::property_schema_of(f, a, types) matches Some(
                Schema::Nullable(_),
            )
        } by {
            let prev = nullable_ancestors(f, path, types, k - 1);
            if j < prev.len() {
                assert(nullable_ancestors(f, path, types, k)[j] == prev[j]);
            }
        }
        assert forall|kind: int, j: int| 0 <= j < keyed_ancestors(f, path, types, kind, k).len() implies {
            let e = #[trigger] keyed_ancestors(f, path, types, kind, k)[j];
            &&& is_dot_prefix(e.0, path)
            &&& begins(e.0 + seq!['.'] + e.1, path)
            &&& if kind == 0 {
                step_is_static_array(crate::schema::property_schema_of(f, e.0, types))
            } else if kind == 1 {
                step_is_dynamic_array(crate::schema::property_schema_of(f, e.0, types))
            } else {
                step_is_map(crate::schema::property_schema_of(f, e.0, types))
            }
        } by {
            let prev = keyed_ancestors(f, path, types, kind, k - 1);
            if j < prev.len() {
                assert(keyed_ancestors(f, path, types, kind, k)[j] == prev[j]);
            }
        }
    }
}

} // verus!
