use vstd::prelude::*;
use std::collections::HashMap;
use crate::ids::{DataSetError, DataSetResult};
use crate::prop_map::PropertyMap;
use crate::schema::{schema_closed, types_closed, NamedTypes, Schema, SchemaFingerprint, SchemaNamedType};
use crate::path::str_eq;
use vstd::std_specs::iter::IteratorSpec;
use crate::value::{Value, ValueEnum, ValueModel};

verus! {

broadcast use vstd::std_specs::hash::group_hash_axioms;

/// What schema linking produced: named types and their lookup tables.
pub struct LinkedTypes {
    pub schemas: Vec<SchemaNamedType>,
    pub schemas_by_name: Vec<(String, SchemaFingerprint)>,
    pub schemas_by_type_uuid: Vec<(u128, SchemaFingerprint)>,
}

/// Accumulates linked types and builds a `SchemaSet`. Default values for enums are
/// computed here.
pub struct SchemaSetBuilder {
    schemas_by_type_uuid: HashMap<u128, SchemaFingerprint>,
    schemas_by_name: PropertyMap<SchemaFingerprint>,
    schemas: HashMap<u128, SchemaNamedType>,
    default_enum_values: HashMap<u128, Value>,
}

/// All named types known to the data model, with lookups by name and by type UUID.
#[derive(Clone)]
pub struct SchemaSet {
    schemas_by_type_uuid: HashMap<u128, SchemaFingerprint>,
    schemas_by_name: PropertyMap<SchemaFingerprint>,
    schemas: HashMap<u128, SchemaNamedType>,
    default_enum_values: HashMap<u128, Value>,
}

/// Whether every record or enum reference inside `s` names a type of that kind.
fn schema_closed_exec(s: &Schema, types: &HashMap<u128, SchemaNamedType>) -> (r: bool)
    ensures
        r == schema_closed(*s, types@),
    decreases s,
{
    match s {
        Schema::Nullable(i) => schema_closed_exec(i, types),
        Schema::StaticArray(i, _) => schema_closed_exec(i, types),
        Schema::DynamicArray(i) => schema_closed_exec(i, types),
        Schema::Mapping(k, v) => schema_closed_exec(k, types) && schema_closed_exec(v, types),
        Schema::Record(f) => match types.get(&f.0) {
            Some(SchemaNamedType::Record(_)) => true,
            _ => false,
        },
        Schema::Enum(f) => match types.get(&f.0) {
            Some(SchemaNamedType::Enum(_)) => true,
            _ => false,
        },
        _ => true,
    }
}

/// The default value of an enum type: its first symbol.
pub open spec fn enum_default_model(t: SchemaNamedType) -> ValueModel {
    match t {
        SchemaNamedType::Enum(e) => ValueModel::Enum(e.symbols@[0].name@),
        SchemaNamedType::Record(_) => ValueModel::Nullable(None),
    }
}

/// `m` with every type of `s` added under its fingerprint (later entries win).
pub open spec fn insert_types(m: Map<u128, SchemaNamedType>, s: Seq<SchemaNamedType>) -> Map<
    u128,
    SchemaNamedType,
>
    decreases s.len(),
{
    if s.len() == 0 {
        m
    } else {
        insert_types(m, s.drop_last()).insert(s.last().spec_fingerprint().0, s.last())
    }
}

/// `m` with the default value of every enum of `s` added.
pub open spec fn insert_enum_defaults(m: Map<u128, ValueModel>, s: Seq<SchemaNamedType>) -> Map<
    u128,
    ValueModel,
>
    decreases s.len(),
{
    if s.len() == 0 {
        m
    } else if s.last() is Enum {
        insert_enum_defaults(m, s.drop_last()).insert(
            s.last().spec_fingerprint().0,
            enum_default_model(s.last()),
        )
    } else {
        insert_enum_defaults(m, s.drop_last())
    }
}

/// `m` with every pair of `s` added.
pub open spec fn insert_pairs<K, V>(m: Map<K, V>, s: Seq<(K, V)>) -> Map<K, V>
    decreases s.len(),
{
    if s.len() == 0 {
        m
    } else {
        insert_pairs(m, s.drop_last()).insert(s.last().0, s.last().1)
    }
}

pub open spec fn values_model(m: Map<u128, Value>) -> Map<u128, ValueModel> {
    m.map_values(|v: Value| v@)
}

pub open spec fn name_pairs(s: Seq<(String, SchemaFingerprint)>) -> Seq<(Seq<char>, SchemaFingerprint)> {
    s.map_values(|p: (String, SchemaFingerprint)| (p.0@, p.1))
}

/// Every enum in `s` has a default symbol, and its default agrees with any default
/// already recorded for the same fingerprint.
pub open spec fn enums_consistent(defaults: Map<u128, ValueModel>, s: Seq<SchemaNamedType>) -> bool {
    forall|i: int|
        0 <= i < s.len() ==> (#[trigger] s[i] matches SchemaNamedType::Enum(e) ==> {
            &&& e.symbols@.len() > 0
            &&& insert_enum_defaults(defaults, s.take(i)).contains_key(e.fingerprint.0)
                ==> insert_enum_defaults(defaults, s.take(i))[e.fingerprint.0] == enum_default_model(
                s[i],
            )
        })
}

impl SchemaSetBuilder {
    pub closed spec fn types(&self) -> Map<u128, SchemaNamedType> {
        self.schemas@
    }

    pub closed spec fn enum_defaults(&self) -> Map<u128, ValueModel> {
        values_model(self.default_enum_values@)
    }

    pub closed spec fn names(&self) -> Map<Seq<char>, SchemaFingerprint> {
        self.schemas_by_name@
    }

    pub closed spec fn type_uuids(&self) -> Map<u128, SchemaFingerprint> {
        self.schemas_by_type_uuid@
    }

    pub fn new() -> (r: SchemaSetBuilder)
        ensures
            r.types() == Map::<u128, SchemaNamedType>::empty(),
            r.enum_defaults() == Map::<u128, ValueModel>::empty(),
            r.names() == Map::<Seq<char>, SchemaFingerprint>::empty(),
            r.type_uuids() == Map::<u128, SchemaFingerprint>::empty(),
    {
        let r = SchemaSetBuilder {
            schemas_by_type_uuid: HashMap::new(),
            schemas_by_name: PropertyMap::new(),
            schemas: HashMap::new(),
            default_enum_values: HashMap::new(),
        };
        assert(values_model(r.default_enum_values@) =~= Map::<u128, ValueModel>::empty());
        r
    }

    /// Freezes the accumulated types into a schema set.
    pub fn build(self) -> (r: SchemaSet)
        ensures
            r.types() == self.types(),
            r.enum_defaults() == self.enum_defaults(),
            r.names() == self.names(),
            r.type_uuids() == self.type_uuids(),
    {
        SchemaSet {
            schemas_by_type_uuid: self.schemas_by_type_uuid,
            schemas_by_name: self.schemas_by_name,
            schemas: self.schemas,
            default_enum_values: self.default_enum_values,
        }
    }

    /// Adds the output of schema linking. Enum types get their default value (the
    /// first symbol). Names and type UUIDs must not be registered twice, and an enum
    /// added again must keep its default symbol.
    pub fn add_linked_types(&mut self, linked: LinkedTypes) -> (r: Result<(), DataSetError>)
        requires
            enums_consistent(old(self).enum_defaults(), linked.schemas@),
            forall|i: int, j: int|
                0 <= i < j < linked.schemas_by_name@.len() ==> linked.schemas_by_name@[i].0@
                    != linked.schemas_by_name@[j].0@,
            forall|i: int|
                0 <= i < linked.schemas_by_name@.len() ==> !old(self).names().contains_key(
                    (#[trigger] linked.schemas_by_name@[i]).0@,
                ),
            forall|i: int, j: int|
                0 <= i < j < linked.schemas_by_type_uuid@.len() ==> linked.schemas_by_type_uuid@[i].0
                    != linked.schemas_by_type_uuid@[j].0,
            forall|i: int|
                0 <= i < linked.schemas_by_type_uuid@.len() ==> !old(self).type_uuids().contains_key(
                    (#[trigger] linked.schemas_by_type_uuid@[i]).0,
                ),
        ensures
            r is Ok,
            final(self).types() == insert_types(old(self).types(), linked.schemas@),
            final(self).enum_defaults() == insert_enum_defaults(
                old(self).enum_defaults(),
                linked.schemas@,
            ),
            final(self).names() == insert_pairs(
                old(self).names(),
                name_pairs(linked.schemas_by_name@),
            ),
            final(self).type_uuids() == insert_pairs(
                old(self).type_uuids(),
                linked.schemas_by_type_uuid@,
            ),
    {
        let LinkedTypes { schemas, schemas_by_name, schemas_by_type_uuid } = linked;
        let ghost types0 = self.schemas@;
        let ghost defaults0 = values_model(self.default_enum_values@);
        let mut schemas = schemas;
        let ghost all = schemas@;
        let total = schemas.len();
        assert(all.len() == total);
        let mut pending: Vec<SchemaNamedType> = Vec::new();
        while schemas.len() > 0
            invariant
                all.len() <= usize::MAX,
                pending@.len() + schemas@.len() == all.len(),
                schemas@ == all.take(schemas@.len() as int),
                forall|k: int| 0 <= k < pending@.len() ==> pending@[k] == all[all.len() - 1 - k],
            decreases schemas@.len(),
        {
            let ghost n = schemas@.len();
            let t = schemas.pop().unwrap();
            assert(t == all[n - 1]);
            pending.push(t);
            assert(schemas@ =~= all.take(schemas@.len() as int));
        }
        let mut i: usize = 0;
        while pending.len() > 0
            invariant
                self.schemas_by_name@ == old(self).names(),
                self.schemas_by_type_uuid@ == old(self).type_uuids(),
                all.len() <= usize::MAX,
                i <= all.len(),
                pending@.len() + i == all.len(),
                forall|k: int| 0 <= k < pending@.len() ==> pending@[k] == all[all.len() - 1 - k],
                enums_consistent(defaults0, all),
                self.schemas@ == insert_types(types0, all.take(i as int)),
                values_model(self.default_enum_values@) == insert_enum_defaults(
                    defaults0,
                    all.take(i as int),
                ),
            decreases pending@.len(),
        {
            let t = pending.pop().unwrap();
            assert(t == all[i as int]);
            assert(all.take(i + 1).drop_last() =~= all.take(i as int));
            let fp = t.fingerprint();
            match &t {
                SchemaNamedType::Enum(e) => {
                    let default_value = Value::Enum(
                        ValueEnum::new(e.default_value().name.clone()),
                    );
                    let ghost dv = default_value@;
                    let ghost before = self.default_enum_values@;
                    self.default_enum_values.insert(fp.0, default_value);
                    assert(values_model(self.default_enum_values@) =~= values_model(before).insert(
                        fp.0,
                        dv,
                    ));
                },
                SchemaNamedType::Record(_) => {},
            }
            self.schemas.insert(fp.0, t);
            i = i + 1;
        }
        assert(all.take(i as int) =~= all);
        let mut j: usize = 0;
        while j < schemas_by_name.len()
            invariant
                self.schemas_by_type_uuid@ == old(self).type_uuids(),
                self.schemas@ == insert_types(old(self).types(), all),
                values_model(self.default_enum_values@) == insert_enum_defaults(
                    old(self).enum_defaults(),
                    all,
                ),
                j <= schemas_by_name@.len(),
                self.schemas_by_name@ == insert_pairs(
                    old(self).names(),
                    name_pairs(schemas_by_name@).take(j as int),
                ),
            decreases schemas_by_name@.len() - j,
        {
            assert(name_pairs(schemas_by_name@).take(j + 1).drop_last() =~= name_pairs(
                schemas_by_name@,
            ).take(j as int));
            let k = schemas_by_name[j].0.clone();
            let v = schemas_by_name[j].1;
            self.schemas_by_name.insert(k, v);
            j = j + 1;
        }
        assert(name_pairs(schemas_by_name@).take(j as int) =~= name_pairs(schemas_by_name@));
        let mut u: usize = 0;
        while u < schemas_by_type_uuid.len()
            invariant
                self.schemas_by_name@ == insert_pairs(
                    old(self).names(),
                    name_pairs(schemas_by_name@),
                ),
                self.schemas@ == insert_types(old(self).types(), all),
                values_model(self.default_enum_values@) == insert_enum_defaults(
                    old(self).enum_defaults(),
                    all,
                ),
                u <= schemas_by_type_uuid@.len(),
                self.schemas_by_type_uuid@ == insert_pairs(
                    old(self).type_uuids(),
                    schemas_by_type_uuid@.take(u as int),
                ),
            decreases schemas_by_type_uuid@.len() - u,
        {
            assert(schemas_by_type_uuid@.take(u + 1).drop_last() =~= schemas_by_type_uuid@.take(
                u as int,
            ));
            let k = schemas_by_type_uuid[u].0;
            let v = schemas_by_type_uuid[u].1;
            self.schemas_by_type_uuid.insert(k, v);
            u = u + 1;
        }
        assert(schemas_by_type_uuid@.take(u as int) =~= schemas_by_type_uuid@);
        Ok(())
    }

    /// Adds named types as they are, keyed by fingerprint (enum defaults are not computed).
    pub fn restore_named_types(&mut self, named_types: Vec<SchemaNamedType>)
        ensures
            final(self).types() == insert_types(old(self).types(), named_types@),
            final(self).enum_defaults() == old(self).enum_defaults(),
            final(self).names() == old(self).names(),
            final(self).type_uuids() == old(self).type_uuids(),
    {
        let mut src = named_types;
        let ghost all = src@;
        let total = src.len();
        assert(all.len() == total);
        let mut pending: Vec<SchemaNamedType> = Vec::new();
        while src.len() > 0
            invariant
                all.len() <= usize::MAX,
                pending@.len() + src@.len() == all.len(),
                src@ == all.take(src@.len() as int),
                forall|k: int| 0 <= k < pending@.len() ==> pending@[k] == all[all.len() - 1 - k],
            decreases src@.len(),
        {
            let ghost n = src@.len();
            let t = src.pop().unwrap();
            assert(t == all[n - 1]);
            pending.push(t);
            assert(src@ =~= all.take(src@.len() as int));
        }
        let mut i: usize = 0;
        while pending.len() > 0
            invariant
                self.schemas_by_name == old(self).schemas_by_name,
                self.default_enum_values@ == old(self).default_enum_values@,
                self.schemas_by_type_uuid@ == old(self).type_uuids(),
                all.len() <= usize::MAX,
                i <= all.len(),
                pending@.len() + i == all.len(),
                forall|k: int| 0 <= k < pending@.len() ==> pending@[k] == all[all.len() - 1 - k],
                self.schemas@ == insert_types(old(self).types(), all.take(i as int)),
            decreases pending@.len(),
        {
            let t = pending.pop().unwrap();
            assert(t == all[i as int]);
            assert(all.take(i + 1).drop_last() =~= all.take(i as int));
            let fp = t.fingerprint();
            self.schemas.insert(fp.0, t);
            i = i + 1;
        }
        assert(all.take(i as int) =~= all);
    }
}

impl SchemaSet {
    pub closed spec fn types(&self) -> Map<u128, SchemaNamedType> {
        self.schemas@
    }

    pub closed spec fn enum_defaults(&self) -> Map<u128, ValueModel> {
        values_model(self.default_enum_values@)
    }

    pub closed spec fn names(&self) -> Map<Seq<char>, SchemaFingerprint> {
        self.schemas_by_name@
    }

    pub closed spec fn type_uuids(&self) -> Map<u128, SchemaFingerprint> {
        self.schemas_by_type_uuid@
    }

    /// A usable schema set: types refer only to known types of the
    /// right kind, every type is stored under its own fingerprint, and every enum has its
    /// default value.
    pub open spec fn wf(&self) -> bool {
        &&& types_closed(self.types())
        &&& forall|f: u128| #[trigger]
            self.types().contains_key(f) ==> self.types()[f].spec_fingerprint().0 == f
        &&& forall|f: u128|
            #![trigger self.types()[f]]
            self.types().contains_key(f) && self.types()[f] is Enum ==> self.enum_defaults().contains_key(f)
                && self.enum_defaults()[f] == enum_default_model(self.types()[f])
    }

    /// What `wf` asks of the type stored under `f`: the types it refers to are known and of
    /// the right kind (an enum has a symbol), it is stored under its own fingerprint, and an
    /// enum has its default value.
    pub open spec fn type_entry_ok(&self, f: u128) -> bool {
        let t = self.types()[f];
        &&& match t {
            SchemaNamedType::Record(r) => forall|i: int|
                0 <= i < r.fields@.len() ==> schema_closed(
                    (#[trigger] r.fields@[i]).field_schema,
                    self.types(),
                ),
            SchemaNamedType::Enum(e) => e.symbols@.len() > 0,
        }
        &&& t.spec_fingerprint().0 == f
        &&& t is Enum ==> self.enum_defaults().contains_key(f) && self.enum_defaults()[f]
            == enum_default_model(t)
    }

    fn check_type_entry(&self, f: u128, t: &SchemaNamedType) -> (r: bool)
        requires
            self.types().contains_key(f),
            *t == self.types()[f],
        ensures
            r == self.type_entry_ok(f),
    {
        if t.fingerprint().0 != f {
            return false;
        }
        match t {
            SchemaNamedType::Record(rec) => {
                let mut i: usize = 0;
                while i < rec.fields.len()
                    invariant
                        i <= rec.fields@.len(),
                        *t == self.types()[f],
                        *t == SchemaNamedType::Record(*rec),
                        t.spec_fingerprint().0 == f,
                        forall|j: int| 0 <= j < i ==> schema_closed(
                            (#[trigger] rec.fields@[j]).field_schema,
                            self.types(),
                        ),
                    decreases rec.fields@.len() - i,
                {
                    if !schema_closed_exec(&rec.fields[i].field_schema, &self.schemas) {
                        return false;
                    }
                    i = i + 1;
                }
                true
            },
            SchemaNamedType::Enum(e) => {
                if e.symbols.len() == 0 {
                    return false;
                }
                match self.default_enum_values.get(&f) {
                    Some(Value::Enum(v)) => str_eq(v.symbol_name(), e.symbols[0].name.as_str()),
                    _ => false,
                }
            },
        }
    }

    /// Whether the set is usable (`wf`), checked on every stored type.
    pub fn check_wf(&self) -> (r: bool)
        ensures
            r == self.wf(),
    {
        let ghost all = vstd::std_specs::hash::spec_keys_iter(&self.schemas).remaining();
        let ghost mut seen: int = 0;
        for k in it: self.schemas.keys()
            invariant
                it.seq() == all,
                seen == it.index(),
                all.unref().to_set() == self.types().dom(),
                forall|j: int| 0 <= j < seen ==> self.type_entry_ok(#[trigger] *all[j]),
        {
            assert(all.unref()[seen] == *k);
            assert(all.unref().to_set().contains(*k));
            let t = match self.schemas.get(k) {
                Some(t) => t,
                None => {
                    return false;
                },
            };
            if !self.check_type_entry(*k, t) {
                proof {
                    self.lemma_wf_entries();
                }
                return false;
            }
            proof {
                seen = seen + 1;
            }
        }
        proof {
            assert forall|f: u128| self.types().contains_key(f) implies self.type_entry_ok(f) by {
                assert(all.unref().to_set().contains(f));
                let j = choose|j: int| 0 <= j < all.unref().len() && all.unref()[j] == f;
                assert(*all[j] == f);
                assert(self.type_entry_ok(*all[j]));
            }
            self.lemma_wf_entries();
        }
        true
    }

    /// `wf` holds exactly when every stored type is as `type_entry_ok` asks.
    pub proof fn lemma_wf_entries(&self)
        ensures
            self.wf() <==> forall|f: u128| self.types().contains_key(f) ==> #[trigger] self.type_entry_ok(f),
    {
        if self.wf() {
            assert forall|f: u128| self.types().contains_key(f) implies #[trigger] self.type_entry_ok(f) by {
                let t = self.types()[f];
                assert(self.types()[f].spec_fingerprint().0 == f);
            }
        }
        if forall|f: u128| self.types().contains_key(f) ==> #[trigger] self.type_entry_ok(f) {
            assert forall|f: u128| #![trigger self.types()[f]] self.types().contains_key(f) implies match self.types()[f] {
                SchemaNamedType::Record(r) => forall|i: int|
                    0 <= i < r.fields@.len() ==> schema_closed(
                        (#[trigger] r.fields@[i]).field_schema,
                        self.types(),
                    ),
                SchemaNamedType::Enum(e) => e.symbols@.len() > 0,
            } by {
                assert(self.type_entry_ok(f));
            }
            assert(types_closed(self.types()));
            assert forall|f: u128| #[trigger] self.types().contains_key(f) implies self.types()[f].spec_fingerprint().0 == f by {
                assert(self.type_entry_ok(f));
            }
            assert forall|f: u128|
                #![trigger self.types()[f]]
                self.types().contains_key(f) && self.types()[f] is Enum implies self.enum_defaults().contains_key(f)
                    && self.enum_defaults()[f] == enum_default_model(self.types()[f]) by {
                assert(self.type_entry_ok(f));
            }
        }
    }

    pub fn schemas(&self) -> (r: &NamedTypes)
        ensures
            r@ == self.types(),
    {
        &self.schemas
    }

    pub fn schemas_by_type_uuid(&self) -> (r: &HashMap<u128, SchemaFingerprint>)
        ensures
            r@ == self.type_uuids(),
    {
        &self.schemas_by_type_uuid
    }

    pub fn default_value_for_enum(&self, fingerprint: SchemaFingerprint) -> (r: Option<&Value>)
        ensures
            match r {
                Some(v) => self.enum_defaults().contains_key(fingerprint.0) && v@
                    == self.enum_defaults()[fingerprint.0],
                None => !self.enum_defaults().contains_key(fingerprint.0),
            },
    {
        self.default_enum_values.get(&fingerprint.0)
    }

    pub fn find_named_type_by_fingerprint(&self, fingerprint: SchemaFingerprint) -> (r: Option<
        &SchemaNamedType,
    >)
        ensures
            match r {
                Some(t) => self.types().contains_key(fingerprint.0) && *t
                    == self.types()[fingerprint.0],
                None => !self.types().contains_key(fingerprint.0),
            },
    {
        self.schemas.get(&fingerprint.0)
    }

    pub fn try_find_named_type_by_type_uuid(&self, type_uuid: u128) -> (r: Option<
        &SchemaNamedType,
    >)
        ensures
            match r {
                Some(t) => self.type_uuids().contains_key(type_uuid) && self.types().contains_key(
                    self.type_uuids()[type_uuid].0,
                ) && *t == self.types()[self.type_uuids()[type_uuid].0],
                None => !(self.type_uuids().contains_key(type_uuid) && self.types().contains_key(
                    self.type_uuids()[type_uuid].0,
                )),
            },
    {
        match self.schemas_by_type_uuid.get(&type_uuid) {
            Some(fp) => self.find_named_type_by_fingerprint(*fp),
            None => None,
        }
    }

    pub fn find_named_type_by_type_uuid(&self, type_uuid: u128) -> (r: DataSetResult<
        &SchemaNamedType,
    >)
        ensures
            match r {
                Ok(t) => self.type_uuids().contains_key(type_uuid) && self.types().contains_key(
                    self.type_uuids()[type_uuid].0,
                ) && *t == self.types()[self.type_uuids()[type_uuid].0],
                Err(e) => e == DataSetError::SchemaNotFound && !(self.type_uuids().contains_key(
                    type_uuid,
                ) && self.types().contains_key(self.type_uuids()[type_uuid].0)),
            },
    {
        match self.try_find_named_type_by_type_uuid(type_uuid) {
            Some(t) => Ok(t),
            None => Err(DataSetError::SchemaNotFound),
        }
    }

    pub fn try_find_named_type(&self, name: &str) -> (r: Option<&SchemaNamedType>)
        ensures
            match r {
                Some(t) => self.names().contains_key(name@) && self.types().contains_key(
                    self.names()[name@].0,
                ) && *t == self.types()[self.names()[name@].0],
                None => !(self.names().contains_key(name@) && self.types().contains_key(
                    self.names()[name@].0,
                )),
            },
    {
        match self.schemas_by_name.get(name) {
            Some(fp) => self.find_named_type_by_fingerprint(*fp),
            None => None,
        }
    }

    pub fn find_named_type(&self, name: &str) -> (r: DataSetResult<&SchemaNamedType>)
        ensures
            match r {
                Ok(t) => self.names().contains_key(name@) && self.types().contains_key(
                    self.names()[name@].0,
                ) && *t == self.types()[self.names()[name@].0],
                Err(e) => e == DataSetError::SchemaNotFound && !(self.names().contains_key(name@)
                    && self.types().contains_key(self.names()[name@].0)),
            },
    {
        match self.try_find_named_type(name) {
            Some(t) => Ok(t),
            None => Err(DataSetError::SchemaNotFound),
        }
    }
}

} // verus!
