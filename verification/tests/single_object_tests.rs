use hydrate_data::single_object::SingleObject;
use hydrate_data::ids::{AssetId, AssetLocation, AssetName, DataSetError, NullOverride, OverrideBehavior};
use hydrate_data::schema::{
    Schema, SchemaEnum, SchemaEnumSymbol, SchemaFingerprint, SchemaNamedType, SchemaRecord,
    SchemaRecordField,
};
use hydrate_data::schema_set::{LinkedTypes, SchemaSet, SchemaSetBuilder};
use hydrate_data::value::Value;

const TRANSFORM: u128 = 100;
const COLOR: u128 = 200;

fn transform_record() -> SchemaRecord {
    let fields = vec![
        SchemaRecordField::new("visible".to_string(), Schema::Boolean),
        SchemaRecordField::new("count".to_string(), Schema::I32),
        SchemaRecordField::new("name".to_string(), Schema::String),
        SchemaRecordField::new("color".to_string(), Schema::Enum(SchemaFingerprint(COLOR))),
        SchemaRecordField::new("opt".to_string(), Schema::Nullable(Box::new(Schema::I32))),
        SchemaRecordField::new("items".to_string(), Schema::DynamicArray(Box::new(Schema::I32))),
        SchemaRecordField::new(
            "deep".to_string(),
            Schema::Nullable(Box::new(Schema::Nullable(Box::new(Schema::I32)))),
        ),
        SchemaRecordField::new(
            "nitems".to_string(),
            Schema::DynamicArray(Box::new(Schema::Nullable(Box::new(Schema::I32)))),
        ),
    ];
    SchemaRecord::new(SchemaFingerprint(TRANSFORM), "Transform".to_string(), fields)
}

fn schema_set() -> SchemaSet {
    let color = SchemaEnum::new(
        SchemaFingerprint(COLOR),
        "Color".to_string(),
        vec![
            SchemaEnumSymbol::new("Red".to_string(), vec!["Crimson".to_string()]),
            SchemaEnumSymbol::new("Green".to_string(), vec![]),
        ],
    );
    let linked = LinkedTypes {
        schemas: vec![SchemaNamedType::Record(transform_record()), SchemaNamedType::Enum(color)],
        schemas_by_name: vec![
            ("Transform".to_string(), SchemaFingerprint(TRANSFORM)),
            ("Color".to_string(), SchemaFingerprint(COLOR)),
        ],
        schemas_by_type_uuid: vec![(1, SchemaFingerprint(TRANSFORM)), (2, SchemaFingerprint(COLOR))],
    };
    let mut builder = SchemaSetBuilder::new();
    builder.add_linked_types(linked).unwrap();
    builder.build()
}

fn as_i32(v: &Value) -> i32 {
    match v {
        Value::I32(x) => *x,
        other => panic!("not an i32: {:?}", other),
    }
}


#[test]
fn object_reads_defaults_and_writes() {
    let ss = schema_set();
    let mut obj = SingleObject::new(&transform_record());
    assert_eq!(as_i32(&obj.resolve_property(&ss, "count").unwrap()), 0);
    obj.set_property_override(&ss, "count", Some(Value::I32(3))).unwrap();
    assert_eq!(as_i32(&obj.resolve_property(&ss, "count").unwrap()), 3);
    assert!(obj.has_property_override("count"));
    obj.set_property_override(&ss, "count", None).unwrap();
    assert!(!obj.has_property_override("count"));
    assert_eq!(
        obj.set_property_override(&ss, "count", Some(Value::String("x".to_string()))).unwrap_err(),
        DataSetError::ValueDoesNotMatchSchema
    );
}

#[test]
fn object_null_overrides_and_entries() {
    let ss = schema_set();
    let mut obj = SingleObject::new(&transform_record());
    assert_eq!(obj.resolve_null_override(&ss, "opt").unwrap(), NullOverride::Unset);
    assert_eq!(as_i32(&obj.resolve_property(&ss, "opt.value").unwrap()), 0);
    assert_eq!(obj.resolve_property(&ss, "deep.value.value").unwrap_err(), DataSetError::PathParentIsNull);
    obj.set_null_override(&ss, "opt", NullOverride::SetNonNull).unwrap();
    assert_eq!(obj.get_null_override(&ss, "opt").unwrap(), NullOverride::SetNonNull);
    let e = obj.add_dynamic_array_entry(&ss, "items").unwrap();
    assert_eq!(obj.resolve_dynamic_array_entries(&ss, "items").unwrap(), vec![e]);
    assert!(obj.remove_dynamic_array_entry(&ss, "items", e).unwrap());
    assert!(obj.resolve_dynamic_array_entries(&ss, "items").unwrap().is_empty());
    assert_eq!(obj.add_map_entry(&ss, "items").unwrap_err(), DataSetError::InvalidSchema);
    let _ = AssetId(1);
    let _ = AssetLocation::null();
    let _ = AssetName::empty();
    let _ = OverrideBehavior::Replace;
}

#[test]
fn enum_value_from_string_translates_aliases() {
    let e = SchemaEnum::new(
        SchemaFingerprint(COLOR),
        "Color".to_string(),
        vec![
            SchemaEnumSymbol::new("Red".to_string(), vec!["Crimson".to_string()]),
            SchemaEnumSymbol::new("Green".to_string(), vec![]),
        ],
    );
    let name = |v: Option<Value>| match v {
        Some(Value::Enum(x)) => Some(x.symbol_name().to_string()),
        _ => None,
    };
    assert_eq!(name(Value::enum_value_from_string(&e, "Crimson")), Some("Red".to_string()));
    assert_eq!(name(Value::enum_value_from_string(&e, "Green")), Some("Green".to_string()));
    assert_eq!(name(Value::enum_value_from_string(&e, "Blue")), None);
}

#[test]
fn enum_values_compare_by_symbol_name() {
    let a = hydrate_data::value::ValueEnum::new("Red".to_string());
    let b = hydrate_data::value::ValueEnum::new("Red".to_string());
    let c = hydrate_data::value::ValueEnum::new("Green".to_string());
    assert!(a == b);
    assert!(a != c);
    assert!(hydrate_data::value::ValueEnum::new(String::new()) == hydrate_data::value::ValueEnum::default());
}
