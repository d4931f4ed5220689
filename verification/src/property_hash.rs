use vstd::prelude::*;
use crate::data_set::{asset_models, chain_ends, chain_fuel, prototype_chain_ends, DataSet, DataSetAssetInfo};
use crate::ids::{AssetId, NullOverride};
use crate::ordered_set::OrderedSet;
use crate::prop_map::{PathSet, PropertyMap};
use crate::single_object::SingleObject;
use crate::value::{field_models_of, models_of, pair_models_of, Value, ValueModel};

verus! {

/// What `siphasher::sip::SipHasher::default()` (SipHash-2-4 with zero keys) gives after
/// being fed `bytes`.
pub uninterp spec fn sip_hash(bytes: Seq<u8>) -> u64;

/// Feeds `bytes` to a new `siphasher::sip::SipHasher` (default keys) in one write and
/// finishes it. The hasher consumes its input as one stream of bytes, so this is the
/// hash of any sequence of writes whose bytes, joined, are `bytes`.
#[verifier::external_body]
fn sip_hash_bytes(bytes: &Vec<u8>) -> (r: u64)
    ensures
        r == sip_hash(bytes@),
{
    let mut h = siphasher::sip::SipHasher::default();
    std::hash::Hasher::write(&mut h, bytes.as_slice());
    std::hash::Hasher::finish(&h)
}

/// The `n` low bytes of `x`, least significant first.
pub open spec fn le_bytes(x: nat, n: nat) -> Seq<u8>
    decreases n,
{
    if n == 0 {
        Seq::empty()
    } else {
        seq![(x % 256) as u8] + le_bytes(x / 256, (n - 1) as nat)
    }
}

/// The `n` low bytes of `x`, most significant first.
pub open spec fn be_bytes(x: nat, n: nat) -> Seq<u8>
    decreases n,
{
    if n == 0 {
        Seq::empty()
    } else {
        be_bytes(x / 256, (n - 1) as nat).push((x % 256) as u8)
    }
}

/// The UTF-8 encoding of a character.
pub open spec fn utf8_char(c: char) -> Seq<u8> {
    let x = c as int;
    if x < 0x80 {
        seq![x as u8]
    } else if x < 0x800 {
        seq![(0xC0 + x / 64) as u8, (0x80 + x % 64) as u8]
    } else if x < 0x10000 {
        seq![(0xE0 + x / 4096) as u8, (0x80 + (x / 64) % 64) as u8, (0x80 + x % 64) as u8]
    } else {
        seq![
            (0xF0 + x / 262144) as u8,
            (0x80 + (x / 4096) % 64) as u8,
            (0x80 + (x / 64) % 64) as u8,
            (0x80 + x % 64) as u8,
        ]
    }
}

/// The UTF-8 encoding of a string.
pub open spec fn utf8(s: Seq<char>) -> Seq<u8>
    decreases s.len(),
{
    if s.len() == 0 {
        Seq::empty()
    } else {
        utf8(s.drop_last()) + utf8_char(s.last())
    }
}

/// What hashing a string feeds the hasher: its UTF-8 bytes and a 0xff end mark.
pub open spec fn str_bytes(s: Seq<char>) -> Seq<u8> {
    utf8(s).push(0xffu8)
}

/// What hashing a UUID feeds the hasher: its length (16) as a 64-bit length prefix,
/// then its 16 bytes, most significant first.
pub open spec fn uuid_bytes(u: u128) -> Seq<u8> {
    le_bytes(16, 8) + be_bytes(u as nat, 16)
}

/// What hashing a value feeds the hasher: integers little-endian (floating-point values
/// by their bits), lengths and option tags as 64-bit integers, strings as `str_bytes`,
/// and for maps and records the xor of the hashes of their entries.
pub open spec fn value_bytes(v: ValueModel) -> Seq<u8>
    decreases v, 1int,
{
    match v {
        ValueModel::Nullable(x) => match x {
            Some(b) => le_bytes(1, 8) + value_bytes(*b),
            None => le_bytes(0, 8),
        },
        ValueModel::Boolean(b) => seq![if b {
            1u8
        } else {
            0u8
        }],
        ValueModel::I32(x) => le_bytes(x as u32 as nat, 4),
        ValueModel::I64(x) => le_bytes(x as u64 as nat, 8),
        ValueModel::U32(x) => le_bytes(x as nat, 4),
        ValueModel::U64(x) => le_bytes(x as nat, 8),
        ValueModel::F32(x) => le_bytes(x as nat, 4),
        ValueModel::F64(x) => le_bytes(x as nat, 8),
        ValueModel::Bytes(d) => le_bytes(d.len(), 8) + d,
        ValueModel::String(s) => str_bytes(s),
        ValueModel::StaticArray(vs) => le_bytes(vs.len(), 8) + values_bytes(vs),
        ValueModel::DynamicArray(vs) => le_bytes(vs.len(), 8) + values_bytes(vs),
        ValueModel::Mapping(ps) => le_bytes(pairs_xor(ps) as nat, 8),
        ValueModel::AssetRef(id) => uuid_bytes(id.0),
        ValueModel::Record(fs) => le_bytes(fields_xor(fs) as nat, 8),
        ValueModel::Enum(s) => str_bytes(s),
    }
}

pub open spec fn values_bytes(vs: Seq<ValueModel>) -> Seq<u8>
    decreases vs, 0int,
{
    if vs.len() == 0 {
        Seq::empty()
    } else {
        values_bytes(vs.drop_last()) + value_bytes(vs.last())
    }
}

pub open spec fn pairs_xor(ps: Seq<(ValueModel, ValueModel)>) -> u64
    decreases ps, 0int,
{
    if ps.len() == 0 {
        0
    } else {
        pairs_xor(ps.drop_last()) ^ sip_hash(value_bytes(ps.last().0) + value_bytes(ps.last().1))
    }
}

pub open spec fn fields_xor(fs: Seq<(Seq<char>, ValueModel)>) -> u64
    decreases fs, 0int,
{
    if fs.len() == 0 {
        0
    } else {
        fields_xor(fs.drop_last()) ^ sip_hash(str_bytes(fs.last().0) + value_bytes(fs.last().1))
    }
}

fn push_le(out: &mut Vec<u8>, x: u64, n: usize)
    requires
        n <= 8,
    ensures
        final(out)@ == old(out)@ + le_bytes(x as nat, n as nat),
    decreases n,
{
    if n > 0 {
        let ghost before = out@;
        out.push((x % 256) as u8);
        push_le(out, x / 256, n - 1);
        assert(out@ =~= before + le_bytes(x as nat, n as nat));
    } else {
        assert(out@ =~= old(out)@ + le_bytes(x as nat, n as nat));
    }
}

fn push_be(out: &mut Vec<u8>, x: u128, n: usize)
    requires
        n <= 16,
    ensures
        final(out)@ == old(out)@ + be_bytes(x as nat, n as nat),
    decreases n,
{
    if n > 0 {
        push_be(out, x / 256, n - 1);
        out.push((x % 256) as u8);
        assert(out@ =~= old(out)@ + be_bytes(x as nat, n as nat));
    } else {
        assert(out@ =~= old(out)@ + be_bytes(x as nat, n as nat));
    }
}

fn push_utf8_char(out: &mut Vec<u8>, c: char)
    ensures
        final(out)@ == old(out)@ + utf8_char(c),
{
    let x: u32 = c as u32;
    assert(x as int == c as int);
    if x < 0x80 {
        out.push(x as u8);
    } else if x < 0x800 {
        out.push((0xC0 + x / 64) as u8);
        out.push((0x80 + x % 64) as u8);
    } else if x < 0x10000 {
        out.push((0xE0 + x / 4096) as u8);
        out.push((0x80 + (x / 64) % 64) as u8);
        out.push((0x80 + x % 64) as u8);
    } else {
        assert(x <= 0x10FFFF);
        out.push((0xF0 + x / 262144) as u8);
        out.push((0x80 + (x / 4096) % 64) as u8);
        out.push((0x80 + (x / 64) % 64) as u8);
        out.push((0x80 + x % 64) as u8);
    }
    assert(out@ =~= old(out)@ + utf8_char(c));
}

fn push_str(out: &mut Vec<u8>, s: &str)
    ensures
        final(out)@ == old(out)@ + str_bytes(s@),
{
    let n = s.unicode_len();
    let mut i: usize = 0;
    while i < n
        invariant
            n == s@.len(),
            i <= n,
            out@ == old(out)@ + utf8(s@.take(i as int)),
        decreases n - i,
    {
        let c = s.get_char(i);
        push_utf8_char(out, c);
        assert(s@.take(i + 1).drop_last() =~= s@.take(i as int));
        assert(out@ =~= old(out)@ + utf8(s@.take(i + 1)));
        i = i + 1;
    }
    assert(s@.take(n as int) =~= s@);
    out.push(0xffu8);
    assert(out@ =~= old(out)@ + str_bytes(s@));
}

fn push_uuid(out: &mut Vec<u8>, u: u128)
    ensures
        final(out)@ == old(out)@ + uuid_bytes(u),
{
    push_le(out, 16, 8);
    push_be(out, u, 16);
    assert(out@ =~= old(out)@ + uuid_bytes(u));
}

/// Appends what hashing `v` feeds the hasher (see `value_bytes`).
fn push_value(out: &mut Vec<u8>, v: &Value)
    ensures
        final(out)@ == old(out)@ + value_bytes(v@),
    decreases v, 1int,
{
    match v {
        Value::Nullable(x) => match x {
            Some(b) => {
                push_le(out, 1, 8);
                assert(decreases_to!(v => **b));
                push_value(out, b);
                assert(out@ =~= old(out)@ + value_bytes(v@));
            },
            None => {
                push_le(out, 0, 8);
            },
        },
        Value::Boolean(b) => {
            out.push(if *b {
                1u8
            } else {
                0u8
            });
            assert(out@ =~= old(out)@ + value_bytes(v@));
        },
        Value::I32(x) => push_le(out, (*x as u32) as u64, 4),
        Value::I64(x) => push_le(out, *x as u64, 8),
        Value::U32(x) => push_le(out, *x as u64, 4),
        Value::U64(x) => push_le(out, *x, 8),
        Value::F32(x) => push_le(out, *x as u64, 4),
        Value::F64(x) => push_le(out, *x, 8),
        Value::Bytes(d) => {
            push_le(out, d.len() as u64, 8);
            let mut i: usize = 0;
            let ghost mid = out@;
            while i < d.len()
                invariant
                    i <= d@.len(),
                    out@ == mid + d@.take(i as int),
                decreases d@.len() - i,
            {
                out.push(d[i]);
                assert(d@.take(i + 1) =~= d@.take(i as int).push(d@[i as int]));
                i = i + 1;
            }
            assert(d@.take(d@.len() as int) =~= d@);
            assert(out@ =~= old(out)@ + value_bytes(v@));
        },
        Value::String(x) => push_str(out, x.as_str()),
        Value::StaticArray(vs) => {
            push_le(out, vs.len() as u64, 8);
            push_values(out, vs);
            proof {
                lemma_models_len(vs@);
            }
            assert(out@ =~= old(out)@ + value_bytes(v@));
        },
        Value::DynamicArray(vs) => {
            push_le(out, vs.len() as u64, 8);
            push_values(out, vs);
            proof {
                lemma_models_len(vs@);
            }
            assert(out@ =~= old(out)@ + value_bytes(v@));
        },
        Value::Mapping(m) => {
            let h = hash_pairs(&m.properties);
            push_le(out, h, 8);
        },
        Value::AssetRef(id) => push_uuid(out, id.0),
        Value::Record(r) => {
            let h = hash_fields(&r.properties);
            push_le(out, h, 8);
        },
        Value::Enum(e) => push_str(out, e.symbol_name.as_str()),
    }
}

proof fn lemma_models_len(s: Seq<Value>)
    ensures
        models_of(s).len() == s.len(),
    decreases s.len(),
{
    if s.len() > 0 {
        lemma_models_len(s.drop_last());
    }
}

fn push_values(out: &mut Vec<u8>, vs: &Vec<Value>)
    ensures
        final(out)@ == old(out)@ + values_bytes(models_of(vs@)),
    decreases vs, 0int,
{
    let mut i: usize = 0;
    while i < vs.len()
        invariant
            i <= vs@.len(),
            out@ == old(out)@ + values_bytes(models_of(vs@.take(i as int))),
        decreases vs@.len() - i,
    {
        assert(decreases_to!(vs => vs@[i as int]));
        push_value(out, &vs[i]);
        proof {
            let t = vs@.take(i + 1);
            assert(t.drop_last() =~= vs@.take(i as int));
            assert(models_of(t).drop_last() =~= models_of(vs@.take(i as int)));
            assert(out@ =~= old(out)@ + values_bytes(models_of(t)));
        }
        i = i + 1;
    }
    assert(vs@.take(vs@.len() as int) =~= vs@);
}

fn hash_pairs(ps: &Vec<(Value, Value)>) -> (r: u64)
    ensures
        r == pairs_xor(pair_models_of(ps@)),
    decreases ps, 0int,
{
    let mut h: u64 = 0;
    let mut i: usize = 0;
    while i < ps.len()
        invariant
            i <= ps@.len(),
            h == pairs_xor(pair_models_of(ps@.take(i as int))),
        decreases ps@.len() - i,
    {
        assert(decreases_to!(ps => ps@[i as int].0));
        assert(decreases_to!(ps => ps@[i as int].1));
        let mut bytes: Vec<u8> = Vec::new();
        push_value(&mut bytes, &ps[i].0);
        push_value(&mut bytes, &ps[i].1);
        let x = sip_hash_bytes(&bytes);
        proof {
            let t = ps@.take(i + 1);
            assert(t.drop_last() =~= ps@.take(i as int));
            assert(bytes@ =~= value_bytes(ps@[i as int].0@) + value_bytes(ps@[i as int].1@));
            assert(pair_models_of(t).drop_last() =~= pair_models_of(ps@.take(i as int)));
            assert(pair_models_of(t).last() == (ps@[i as int].0@, ps@[i as int].1@));
        }
        h = h ^ x;
        i = i + 1;
    }
    assert(ps@.take(ps@.len() as int) =~= ps@);
    h
}

fn hash_fields(fs: &Vec<(String, Value)>) -> (r: u64)
    ensures
        r == fields_xor(field_models_of(fs@)),
    decreases fs, 0int,
{
    let mut h: u64 = 0;
    let mut i: usize = 0;
    while i < fs.len()
        invariant
            i <= fs@.len(),
            h == fields_xor(field_models_of(fs@.take(i as int))),
        decreases fs@.len() - i,
    {
        assert(decreases_to!(fs => fs@[i as int].1));
        let mut bytes: Vec<u8> = Vec::new();
        push_str(&mut bytes, fs[i].0.as_str());
        push_value(&mut bytes, &fs[i].1);
        let x = sip_hash_bytes(&bytes);
        proof {
            let t = fs@.take(i + 1);
            assert(t.drop_last() =~= fs@.take(i as int));
            assert(bytes@ =~= str_bytes(fs@[i as int].0@) + value_bytes(fs@[i as int].1@));
            assert(field_models_of(t).drop_last() =~= field_models_of(fs@.take(i as int)));
            assert(field_models_of(t).last() == (fs@[i as int].0@, fs@[i as int].1@));
        }
        h = h ^ x;
        i = i + 1;
    }
    assert(fs@.take(fs@.len() as int) =~= fs@);
    h
}

/// What hashing a null override feeds the hasher: its variant's index as a 64-bit
/// integer.
pub open spec fn null_bytes(n: NullOverride) -> Seq<u8> {
    le_bytes(
        match n {
            NullOverride::Unset => 0,
            NullOverride::SetNull => 1,
            NullOverride::SetNonNull => 2,
        },
        8,
    )
}

/// The xor of the hashes of the (path, value) entries.
pub open spec fn properties_xor(s: Seq<(String, Value)>) -> u64
    decreases s.len(),
{
    if s.len() == 0 {
        0
    } else {
        properties_xor(s.drop_last()) ^ sip_hash(str_bytes(s.last().0@) + value_bytes(s.last().1@))
    }
}

/// The xor of the hashes of the (path, null override) entries.
pub open spec fn nulls_xor(s: Seq<(String, NullOverride)>) -> u64
    decreases s.len(),
{
    if s.len() == 0 {
        0
    } else {
        nulls_xor(s.drop_last()) ^ sip_hash(str_bytes(s.last().0@) + null_bytes(s.last().1))
    }
}

/// The xor of the hashes of the paths.
pub open spec fn paths_xor(s: Seq<Seq<char>>) -> u64
    decreases s.len(),
{
    if s.len() == 0 {
        0
    } else {
        paths_xor(s.drop_last()) ^ sip_hash(str_bytes(s.last()))
    }
}

/// The xor of the hashes of the ids.
pub open spec fn ids_xor(s: Seq<u128>) -> u64
    decreases s.len(),
{
    if s.len() == 0 {
        0
    } else {
        ids_xor(s.drop_last()) ^ sip_hash(uuid_bytes(s.last()))
    }
}

/// The xor of the hashes of the (path, entries) pairs, each hashed as its path and the
/// xor of the hashes of its ids.
pub open spec fn entries_xor(s: Seq<(String, OrderedSet)>) -> u64
    decreases s.len(),
{
    if s.len() == 0 {
        0
    } else {
        entries_xor(s.drop_last()) ^ sip_hash(
            str_bytes(s.last().0@) + le_bytes(ids_xor(s.last().1@) as nat, 8),
        )
    }
}

/// What hashing an optional hash feeds the hasher.
pub open spec fn option_hash_bytes(h: Option<u64>) -> Seq<u8> {
    match h {
        Some(x) => le_bytes(1, 8) + le_bytes(x as nat, 8),
        None => le_bytes(0, 8),
    }
}

/// The hash of the properties of asset `id` (None when there is no such asset): its
/// schema's fingerprint, the hash of its prototype (when it has one), and the xor of
/// the hashes of the entries of each of its maps. Name, location, import and build
/// information are left out.
pub open spec fn asset_hash(m: Map<u128, DataSetAssetInfo>, id: u128, n: nat) -> Option<u64>
    decreases n,
{
    if !m.contains_key(id) {
        None
    } else {
        let a = m[id];
        let proto = match a@.prototype {
            Some(p) => if n > 0 {
                option_hash_bytes(asset_hash(m, p, (n - 1) as nat))
            } else {
                Seq::empty()
            },
            None => Seq::empty(),
        };
        Some(
            sip_hash(
                uuid_bytes(a@.schema) + proto + le_bytes(properties_xor(a.property_map().entry_seq()) as nat, 8)
                    + le_bytes(nulls_xor(a.null_map().entry_seq()) as nat, 8) + le_bytes(
                    paths_xor(a.replace_set().path_seq()) as nat,
                    8,
                ) + le_bytes(entries_xor(a.entries_map().entry_seq()) as nat, 8),
            ),
        )
    }
}

/// More fuel than the prototype chain needs does not change the hash.
pub proof fn lemma_asset_hash_fuel(m: Map<u128, DataSetAssetInfo>, id: u128, n: nat, n2: nat)
    requires
        chain_ends(asset_models(m), id, n),
        n <= n2,
    ensures
        asset_hash(m, id, n) == asset_hash(m, id, n2),
    decreases n,
{
    if m.contains_key(id) {
        assert(asset_models(m)[id] == m[id]@);
        if let Some(p) = m[id]@.prototype {
            lemma_asset_hash_fuel(m, p, (n - 1) as nat, (n2 - 1) as nat);
        }
    }
}

fn xor_properties(s: &Vec<(String, Value)>) -> (r: u64)
    ensures
        r == properties_xor(s@),
{
    let mut h: u64 = 0;
    let mut i: usize = 0;
    while i < s.len()
        invariant
            i <= s@.len(),
            h == properties_xor(s@.take(i as int)),
        decreases s@.len() - i,
    {
        let mut bytes: Vec<u8> = Vec::new();
        push_str(&mut bytes, s[i].0.as_str());
        push_value(&mut bytes, &s[i].1);
        let x = sip_hash_bytes(&bytes);
        assert(s@.take(i + 1).drop_last() =~= s@.take(i as int));
        h = h ^ x;
        i = i + 1;
    }
    assert(s@.take(s@.len() as int) =~= s@);
    h
}

fn xor_nulls(s: &Vec<(String, NullOverride)>) -> (r: u64)
    ensures
        r == nulls_xor(s@),
{
    let mut h: u64 = 0;
    let mut i: usize = 0;
    while i < s.len()
        invariant
            i <= s@.len(),
            h == nulls_xor(s@.take(i as int)),
        decreases s@.len() - i,
    {
        let mut bytes: Vec<u8> = Vec::new();
        push_str(&mut bytes, s[i].0.as_str());
        let d: u64 = match s[i].1 {
            NullOverride::Unset => 0,
            NullOverride::SetNull => 1,
            NullOverride::SetNonNull => 2,
        };
        push_le(&mut bytes, d, 8);
        let x = sip_hash_bytes(&bytes);
        assert(s@.take(i + 1).drop_last() =~= s@.take(i as int));
        h = h ^ x;
        i = i + 1;
    }
    assert(s@.take(s@.len() as int) =~= s@);
    h
}

fn xor_paths(s: &Vec<String>) -> (r: u64)
    ensures
        r == paths_xor(crate::path::strings_view(s@)),
{
    let ghost v = crate::path::strings_view(s@);
    let mut h: u64 = 0;
    let mut i: usize = 0;
    while i < s.len()
        invariant
            i <= s@.len(),
            v == crate::path::strings_view(s@),
            h == paths_xor(v.take(i as int)),
        decreases s@.len() - i,
    {
        let mut bytes: Vec<u8> = Vec::new();
        push_str(&mut bytes, s[i].as_str());
        let x = sip_hash_bytes(&bytes);
        assert(v.take(i + 1).drop_last() =~= v.take(i as int));
        h = h ^ x;
        i = i + 1;
    }
    assert(v.take(s@.len() as int) =~= v);
    h
}

fn xor_ids(s: &Vec<u128>) -> (r: u64)
    ensures
        r == ids_xor(s@),
{
    let mut h: u64 = 0;
    let mut i: usize = 0;
    while i < s.len()
        invariant
            i <= s@.len(),
            h == ids_xor(s@.take(i as int)),
        decreases s@.len() - i,
    {
        let mut bytes: Vec<u8> = Vec::new();
        push_uuid(&mut bytes, s[i]);
        let x = sip_hash_bytes(&bytes);
        assert(s@.take(i + 1).drop_last() =~= s@.take(i as int));
        h = h ^ x;
        i = i + 1;
    }
    assert(s@.take(s@.len() as int) =~= s@);
    h
}

fn xor_entries(s: &Vec<(String, OrderedSet)>) -> (r: u64)
    ensures
        r == entries_xor(s@),
{
    let mut h: u64 = 0;
    let mut i: usize = 0;
    while i < s.len()
        invariant
            i <= s@.len(),
            h == entries_xor(s@.take(i as int)),
        decreases s@.len() - i,
    {
        let mut bytes: Vec<u8> = Vec::new();
        push_str(&mut bytes, s[i].0.as_str());
        let ids = xor_ids(s[i].1.as_vec());
        push_le(&mut bytes, ids, 8);
        let x = sip_hash_bytes(&bytes);
        assert(s@.take(i + 1).drop_last() =~= s@.take(i as int));
        h = h ^ x;
        i = i + 1;
    }
    assert(s@.take(s@.len() as int) =~= s@);
    h
}

impl DataSet {
    fn hash_with_fuel(&self, asset_id: AssetId, Ghost(n): Ghost<nat>) -> (r: Option<u64>)
        requires
            chain_ends(self@, asset_id.0, n),
        ensures
            r == asset_hash(self.infos(), asset_id.0, n),
        decreases n,
    {
        proof {
            self.lemma_infos();
        }
        let assets = self.assets();
        let a = match assets.get(&asset_id.0) {
            Some(a) => a,
            None => {
                return None;
            },
        };
        let mut bytes: Vec<u8> = Vec::new();
        push_uuid(&mut bytes, a.schema().fingerprint().0);
        let ghost after_schema = bytes@;
        match a.prototype() {
            Some(p) => {
                assert(self@[asset_id.0] == a@);
                let ph = self.hash_with_fuel(p, Ghost((n - 1) as nat));
                match ph {
                    Some(x) => {
                        push_le(&mut bytes, 1, 8);
                        push_le(&mut bytes, x, 8);
                    },
                    None => {
                        push_le(&mut bytes, 0, 8);
                    },
                }
            },
            None => {},
        }
        let hp = xor_properties(a.properties().entries());
        push_le(&mut bytes, hp, 8);
        let hn = xor_nulls(a.property_null_overrides().entries());
        push_le(&mut bytes, hn, 8);
        let paths = a.properties_in_replace_mode().paths();
        let hr = xor_paths(&paths);
        push_le(&mut bytes, hr, 8);
        let he = xor_entries(a.dynamic_array_entries().entries());
        push_le(&mut bytes, he, 8);
        let h = sip_hash_bytes(&bytes);
        proof {
            let m = self.infos();
            let proto = match m[asset_id.0]@.prototype {
                Some(p) => if n > 0 {
                    option_hash_bytes(asset_hash(m, p, (n - 1) as nat))
                } else {
                    Seq::empty()
                },
                None => Seq::empty(),
            };
            assert(bytes@ =~= uuid_bytes(m[asset_id.0]@.schema) + proto + le_bytes(hp as nat, 8)
                + le_bytes(hn as nat, 8) + le_bytes(hr as nat, 8) + le_bytes(he as nat, 8));
        }
        Some(h)
    }

    /// The hash of the properties of `asset_id` (see `asset_hash`), or None when there is
    /// no such asset.
    pub fn hash_properties(&self, asset_id: AssetId) -> (r: Option<u64>)
        requires
            prototype_chain_ends(self@, asset_id.0),
        ensures
            r == asset_hash(self.infos(), asset_id.0, chain_fuel(self@, asset_id.0)),
            r is Some <==> self@.contains_key(asset_id.0),
    {
        proof {
            self.lemma_infos();
        }
        self.hash_with_fuel(asset_id, Ghost(chain_fuel(self@, asset_id.0)))
    }
}

/// What hashing a standalone object feeds the hasher: its schema's fingerprint and the
/// xor of the hashes of the entries of each of its maps.
pub open spec fn object_hash_bytes(o: SingleObject) -> Seq<u8> {
    uuid_bytes(o@.schema) + le_bytes(properties_xor(o.property_map().entry_seq()) as nat, 8)
        + le_bytes(nulls_xor(o.null_map().entry_seq()) as nat, 8) + le_bytes(
        entries_xor(o.entries_map().entry_seq()) as nat,
        8,
    )
}

impl SingleObject {
    /// The bytes hashing the object feeds a hasher (see `object_hash_bytes`).
    pub fn hash_bytes(&self) -> (r: Vec<u8>)
        ensures
            r@ == object_hash_bytes(*self),
    {
        let mut bytes: Vec<u8> = Vec::new();
        push_uuid(&mut bytes, self.schema().fingerprint().0);
        let hp = xor_properties(self.properties().entries());
        push_le(&mut bytes, hp, 8);
        let hn = xor_nulls(self.property_null_overrides().entries());
        push_le(&mut bytes, hn, 8);
        let he = xor_entries(self.dynamic_collection_entries().entries());
        push_le(&mut bytes, he, 8);
        assert(bytes@ =~= object_hash_bytes(*self));
        bytes
    }

    /// The hash of the object's content with a new `SipHasher` (default keys).
    pub fn content_hash(&self) -> (r: u64)
        ensures
            r == sip_hash(object_hash_bytes(*self)),
    {
        let bytes = self.hash_bytes();
        sip_hash_bytes(&bytes)
    }
}

} // verus!
