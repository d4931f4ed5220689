use hydrate_data::data_container::{DataContainer, DataContainerRef, DataContainerRefMut};
use hydrate_data::field_refs::{
    DynamicArrayFieldRef, EnumFieldRef, FieldRef, I32FieldRef, NullableFieldRef, StaticArrayFieldRef,
};
use hydrate_data::data_set::DataSet;
use hydrate_data::field_wrappers::{
    new_object_of_named_type,
    usize_to_text, AssetRefFieldAccessor, BooleanFieldAccessor, DynamicArrayFieldAccessor, Enum,
    EnumFieldAccessor, FieldAccessor, I32FieldAccessor, MapFieldAccessor, NullableFieldAccessor,
    PropertyPath, StaticArrayFieldAccessor, StringFieldAccessor, U64FieldAccessor,
};
use hydrate_data::ids::{AssetId, AssetLocation, AssetName, DataSetError, NullOverride};
use hydrate_data::schema::{
    Schema, SchemaEnum, SchemaEnumSymbol, SchemaFingerprint, SchemaNamedType, SchemaRecord,
    SchemaRecordField,
};
use hydrate_data::schema_set::{LinkedTypes, SchemaSet, SchemaSetBuilder};
use hydrate_data::single_object::SingleObject;
use hydrate_data::value::{Value, ValueEnum};

const TRANSFORM: u128 = 100;
const COLOR: u128 = 200;

fn transform_record() -> SchemaRecord {
    let fields = vec![
        SchemaRecordField::new("visible".to_string(), Schema::Boolean),
        SchemaRecordField::new("count".to_string(), Schema::I32),
        SchemaRecordField::new("name".to_string(), Schema::String),
        SchemaRecordField::new("color".to_string(), Schema::Enum(SchemaFingerprint(COLOR))),
        SchemaRecordField::new("opt".to_string(), Schema::Nullable(Box::new(Schema::I32))),
        SchemaRecordField::new("items".to_string(), Schema::DynamicArray(Box::new(Schema::I32))),
        SchemaRecordField::new("fixed".to_string(), Schema::StaticArray(Box::new(Schema::I32), 3)),
        SchemaRecordField::new(
            "lookup".to_string(),
            Schema::Mapping(Box::new(Schema::String), Box::new(Schema::I32)),
        ),
        SchemaRecordField::new("big".to_string(), Schema::U64),
        SchemaRecordField::new("target".to_string(), Schema::AssetRef(SchemaFingerprint(TRANSFORM))),
    ];
    SchemaRecord::new(SchemaFingerprint(TRANSFORM), "Transform".to_string(), fields)
}

fn schema_set() -> SchemaSet {
    let color = SchemaEnum::new(
        SchemaFingerprint(COLOR),
        "Color".to_string(),
        vec![
            SchemaEnumSymbol::new("Red".to_string(), vec!["Crimson".to_string()]),
            SchemaEnumSymbol::new("Green".to_string(), vec![]),
        ],
    );
    let linked = LinkedTypes {
        schemas: vec![SchemaNamedType::Record(transform_record()), SchemaNamedType::Enum(color)],
        schemas_by_name: vec![
            ("Transform".to_string(), SchemaFingerprint(TRANSFORM)),
            ("Color".to_string(), SchemaFingerprint(COLOR)),
        ],
        schemas_by_type_uuid: vec![(1, SchemaFingerprint(TRANSFORM)), (2, SchemaFingerprint(COLOR))],
    };
    let mut builder = SchemaSetBuilder::new();
    builder.add_linked_types(linked).unwrap();
    builder.build()
}


fn path(s: &str) -> PropertyPath {
    PropertyPath::default().push(s)
}

#[derive(Debug, PartialEq)]
enum Color {
    Red,
    Green,
}

impl Enum for Color {
    fn to_symbol_name(&self) -> &'static str {
        match self {
            Color::Red => "Red",
            Color::Green => "Green",
        }
    }

    fn from_symbol_name(str: &str) -> Option<Self> {
        match str {
            "Red" => Some(Color::Red),
            "Green" => Some(Color::Green),
            _ => None,
        }
    }
}

/// Knows only the first symbol, so reading `Green` finds nothing.
#[derive(Debug, PartialEq)]
enum RedOnly {
    Red,
}

impl Enum for RedOnly {
    fn to_symbol_name(&self) -> &'static str {
        "Red"
    }

    fn from_symbol_name(str: &str) -> Option<Self> {
        if str == "Red" {
            Some(RedOnly::Red)
        } else {
            None
        }
    }
}

#[test]
fn property_path_push_joins_with_dot() {
    assert_eq!(PropertyPath::default().push("a").path(), "a");
    assert_eq!(path("a").push("").path(), "a");
    assert_eq!(path("a").push("b").path(), "a.b");
    assert_eq!(PropertyPath::default().push("").path(), "");
}

#[test]
fn decimal_text_of_indices() {
    assert_eq!(usize_to_text(0), "0");
    assert_eq!(usize_to_text(7), "7");
    assert_eq!(usize_to_text(1234), "1234");
}

#[test]
fn entry_accessors_name_their_entries() {
    let fixed = StaticArrayFieldAccessor::<I32FieldAccessor>::new(path("fixed"));
    assert_eq!(fixed.entry(2).0.path(), "fixed.2");
    let items = DynamicArrayFieldAccessor::<I32FieldAccessor>::new(path("items"));
    assert_eq!(items.entry(42).0.path(), "items.00000000-0000-0000-0000-00000000002a");
    let lookup = MapFieldAccessor::<StringFieldAccessor, I32FieldAccessor>::new(path("lookup"));
    let u: u128 = 0x0123456789abcdef0123456789abcdef;
    assert_eq!(lookup.key(u).0.path(), "lookup.01234567-89ab-cdef-0123-456789abcdef");
    assert_eq!(lookup.value(u).0.path(), "lookup.01234567-89ab-cdef-0123-456789abcdef");
}

#[test]
fn scalar_accessors_write_then_read() {
    let ss = schema_set();
    let mut obj = SingleObject::new(&transform_record());
    let count = I32FieldAccessor::new(path("count"));
    let visible = BooleanFieldAccessor::new(path("visible"));
    let name = StringFieldAccessor::new(path("name"));
    let big = U64FieldAccessor::new(path("big"));
    let target = AssetRefFieldAccessor::new(path("target"));
    {
        let mut c = DataContainerRefMut::from_single_object(&mut obj, &ss);
        assert!(count.set(&mut c, 5).unwrap().is_none());
        visible.set(&mut c, true).unwrap();
        name.set(&mut c, "hero".to_string()).unwrap();
        big.set(&mut c, u64::MAX).unwrap();
        target.set(&mut c, AssetId(77)).unwrap();
        assert_eq!(count.get(c.read()).unwrap(), 5);
    }
    let r = DataContainerRef::from_single_object(&obj, &ss);
    assert_eq!(count.get(r).unwrap(), 5);
    assert!(visible.get(r).unwrap());
    assert_eq!(name.get(r).unwrap(), "hero");
    assert_eq!(big.get(r).unwrap(), u64::MAX);
    assert_eq!(target.get(r).unwrap(), AssetId(77));
}

#[test]
fn writing_the_wrong_path_fails_and_changes_nothing() {
    let ss = schema_set();
    let mut obj = SingleObject::new(&transform_record());
    let missing = I32FieldAccessor::new(path("missing"));
    let mut c = DataContainerRefMut::from_single_object(&mut obj, &ss);
    assert_eq!(missing.set(&mut c, 1).unwrap_err(), DataSetError::SchemaNotFound);
    assert_eq!(missing.get(c.read()).unwrap_err(), DataSetError::SchemaNotFound);
}

#[test]
fn enum_accessor_round_trip_and_unknown_symbol() {
    let ss = schema_set();
    let mut obj = SingleObject::new(&transform_record());
    let color = EnumFieldAccessor::<Color>::new(path("color"));
    {
        let mut c = DataContainerRefMut::from_single_object(&mut obj, &ss);
        assert_eq!(color.get(c.read()).unwrap(), Color::Red);
        color.set(&mut c, Color::Green).unwrap();
        assert_eq!(color.get(c.read()).unwrap(), Color::Green);
    }
    let red_only = EnumFieldAccessor::<RedOnly>::new(path("color"));
    let r = DataContainerRef::from_single_object(&obj, &ss);
    assert_eq!(red_only.get(r).unwrap_err(), DataSetError::UnexpectedEnumSymbol);
    match obj.get_property_override("color") {
        Some(Value::Enum(e)) => assert_eq!(e.symbol_name(), "Green"),
        other => panic!("unexpected {:?}", other),
    }
    let _ = ValueEnum::new("Green".to_string());
}

#[test]
fn nullable_accessor_gives_value_accessor_when_non_null() {
    let ss = schema_set();
    let mut obj = SingleObject::new(&transform_record());
    let opt = NullableFieldAccessor::<I32FieldAccessor>::new(path("opt"));
    assert!(opt.resolve_null(DataContainerRef::from_single_object(&obj, &ss)).unwrap().is_none());
    let mut c = DataContainerRefMut::from_single_object(&mut obj, &ss);
    let inner = opt.set_null_override(&mut c, NullOverride::SetNonNull).unwrap().unwrap();
    assert_eq!(inner.0.path(), "opt.value");
    inner.set(&mut c, 12).unwrap();
    assert_eq!(inner.get(c.read()).unwrap(), 12);
    assert_eq!(opt.resolve_null_override(c.read()).unwrap(), NullOverride::SetNonNull);
    assert!(opt.set_null_override(&mut c, NullOverride::SetNull).unwrap().is_none());
    let not_nullable = NullableFieldAccessor::<I32FieldAccessor>::new(path("count"));
    assert_eq!(
        not_nullable.set_null_override(&mut c, NullOverride::SetNull).err(),
        Some(DataSetError::InvalidSchema)
    );
}

#[test]
fn dynamic_array_accessor_adds_and_removes_entries() {
    let ss = schema_set();
    let mut obj = SingleObject::new(&transform_record());
    let items = DynamicArrayFieldAccessor::<I32FieldAccessor>::new(path("items"));
    let mut c = DataContainerRefMut::from_single_object(&mut obj, &ss);
    let e = items.add_entry(&mut c).unwrap();
    assert_eq!(items.resolve_entries(c.read()).unwrap(), vec![e]);
    items.entry(e).set(&mut c, 4).unwrap();
    assert_eq!(items.entry(e).get(c.read()).unwrap(), 4);
    assert!(items.remove_entry(&mut c, e).unwrap());
    assert!(!items.remove_entry(&mut c, e).unwrap());
    assert!(items.resolve_entries(c.read()).unwrap().is_empty());
}

#[test]
fn map_accessor_on_object_and_on_data_set() {
    let ss = schema_set();
    let mut obj = SingleObject::new(&transform_record());
    let lookup = MapFieldAccessor::<StringFieldAccessor, I32FieldAccessor>::new(path("lookup"));
    {
        let mut c = DataContainerRefMut::from_single_object(&mut obj, &ss);
        let e = lookup.add_entry(&mut c).unwrap();
        assert_eq!(lookup.resolve_entries(c.read()).unwrap(), vec![e]);
        assert!(lookup.remove_entry(&mut c, e).unwrap());
    }
    let mut ds = DataSet::new();
    ds.new_asset_with_id(
        AssetId(10),
        AssetName::new("a".to_string()),
        AssetLocation::new(AssetId(1)),
        &transform_record(),
    )
    .unwrap();
    let mut c = DataContainerRefMut::from_dataset(&mut ds, &ss, AssetId(10));
    assert_eq!(lookup.add_entry(&mut c).unwrap_err(), DataSetError::InvalidSchema);
    assert_eq!(lookup.resolve_entries(c.read()).unwrap_err(), DataSetError::InvalidSchema);
}

#[test]
fn data_set_container_reads_what_it_wrote() {
    let ss = schema_set();
    let mut ds = DataSet::new();
    ds.new_asset_with_id(
        AssetId(10),
        AssetName::new("a".to_string()),
        AssetLocation::new(AssetId(1)),
        &transform_record(),
    )
    .unwrap();
    let count = I32FieldAccessor::new(path("count"));
    {
        let mut c = DataContainerRefMut::from_dataset(&mut ds, &ss, AssetId(10));
        count.set(&mut c, 31).unwrap();
        assert_eq!(count.get(c.read()).unwrap(), 31);
    }
    let r = DataContainerRef::from_dataset(&ds, &ss, AssetId(10));
    assert_eq!(count.get(r).unwrap(), 31);
    match ds.resolve_property(&ss, AssetId(10), "count").unwrap() {
        Value::I32(x) => assert_eq!(x, 31),
        other => panic!("unexpected {:?}", other),
    }
}

#[test]
fn read_only_views_read_through_the_container() {
    let ss = schema_set();
    let mut obj = SingleObject::new(&transform_record());
    obj.set_property_override(&ss, "count", Some(Value::I32(9))).unwrap();
    obj.set_null_override(&ss, "opt", NullOverride::SetNonNull).unwrap();
    let e = obj.add_dynamic_array_entry(&ss, "items").unwrap();
    let c = DataContainerRef::from_single_object(&obj, &ss);
    assert_eq!(I32FieldRef::new(path("count"), c).get().unwrap(), 9);
    assert_eq!(EnumFieldRef::<Color>::new(path("color"), c).get().unwrap(), Color::Red);
    let opt = NullableFieldRef::<I32FieldRef>::new(path("opt"), c);
    assert_eq!(opt.resolve_null_override().unwrap(), NullOverride::SetNonNull);
    assert_eq!(opt.resolve_null().unwrap().unwrap().0.path(), "opt.value");
    let items = DynamicArrayFieldRef::<I32FieldRef>::new(path("items"), c);
    assert_eq!(items.resolve_entries().unwrap(), vec![e]);
    assert_eq!(items.entry(e).get().unwrap(), 0);
    let fixed = StaticArrayFieldRef::<I32FieldRef>::new(path("fixed"), c);
    assert_eq!(fixed.entry(1).0.path(), "fixed.1");
    assert_eq!(fixed.entry(1).get().unwrap(), 0);
}

#[test]
fn owned_container_reads_and_writes_its_object() {
    let ss = schema_set();
    let mut owned = DataContainer::from_single_object(SingleObject::new(&transform_record()), schema_set());
    owned.set_property_override("count", Some(Value::I32(4))).unwrap();
    match owned.resolve_property("count").unwrap() {
        Value::I32(x) => assert_eq!(x, 4),
        other => panic!("unexpected {:?}", other),
    }
    let count = I32FieldAccessor::new(path("count"));
    {
        let mut m = owned.to_mut();
        count.set(&mut m, 6).unwrap();
    }
    assert_eq!(count.get(owned.read()).unwrap(), 6);
    assert_eq!(owned.add_map_override("items").unwrap_err(), DataSetError::InvalidSchema);
    let obj = owned.into_inner();
    match obj.resolve_property(&ss, "count").unwrap() {
        Value::I32(x) => assert_eq!(x, 6),
        other => panic!("unexpected {:?}", other),
    }
}

#[test]
fn object_content_hash_follows_content() {
    let ss = schema_set();
    let mut a = SingleObject::new(&transform_record());
    let mut b = SingleObject::new(&transform_record());
    assert_eq!(a.content_hash(), b.content_hash());
    a.set_property_override(&ss, "count", Some(Value::I32(1))).unwrap();
    assert_ne!(a.content_hash(), b.content_hash());
    b.set_property_override(&ss, "count", Some(Value::I32(1))).unwrap();
    assert_eq!(a.hash_bytes(), b.hash_bytes());
    // fingerprint (16-byte uuid form with its length prefix) then three 8-byte xors
    assert_eq!(a.hash_bytes().len(), 8 + 16 + 8 * 3);
}

#[test]
fn object_content_hash_ignores_the_order_values_were_set_in() {
    let ss = schema_set();
    let mut a = SingleObject::new(&transform_record());
    let mut b = SingleObject::new(&transform_record());
    a.set_property_override(&ss, "count", Some(Value::I32(2))).unwrap();
    a.set_property_override(&ss, "name", Some(Value::String("n".to_string()))).unwrap();
    b.set_property_override(&ss, "name", Some(Value::String("n".to_string()))).unwrap();
    b.set_property_override(&ss, "count", Some(Value::I32(2))).unwrap();
    assert_eq!(a.content_hash(), b.content_hash());
}

#[test]
fn new_object_of_named_type_finds_records_only() {
    let ss = schema_set();
    let o = new_object_of_named_type(&ss, "Transform").unwrap();
    assert_eq!(o.schema().fingerprint(), SchemaFingerprint(TRANSFORM));
    assert_eq!(new_object_of_named_type(&ss, "Color").unwrap_err(), DataSetError::InvalidSchema);
    assert_eq!(new_object_of_named_type(&ss, "Nope").unwrap_err(), DataSetError::SchemaNotFound);
}
