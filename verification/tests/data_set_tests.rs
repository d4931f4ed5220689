use hydrate_data::data_set::DataSet;
use hydrate_data::ids::{AssetId, AssetLocation, AssetName, DataSetError, NullOverride, OverrideBehavior};
use hydrate_data::schema::{
    Schema, SchemaEnum, SchemaEnumSymbol, SchemaFingerprint, SchemaNamedType, SchemaRecord,
    SchemaRecordField,
};
use hydrate_data::schema_set::{LinkedTypes, SchemaSet, SchemaSetBuilder};
use hydrate_data::value::Value;

const TRANSFORM: u128 = 100;
const COLOR: u128 = 200;

fn transform_record() -> SchemaRecord {
    let fields = vec![
        SchemaRecordField::new("visible".to_string(), Schema::Boolean),
        SchemaRecordField::new("count".to_string(), Schema::I32),
        SchemaRecordField::new("name".to_string(), Schema::String),
        SchemaRecordField::new("color".to_string(), Schema::Enum(SchemaFingerprint(COLOR))),
        SchemaRecordField::new("opt".to_string(), Schema::Nullable(Box::new(Schema::I32))),
        SchemaRecordField::new("items".to_string(), Schema::DynamicArray(Box::new(Schema::I32))),
        SchemaRecordField::new(
            "deep".to_string(),
            Schema::Nullable(Box::new(Schema::Nullable(Box::new(Schema::I32)))),
        ),
        SchemaRecordField::new(
            "nitems".to_string(),
            Schema::DynamicArray(Box::new(Schema::Nullable(Box::new(Schema::I32)))),
        ),
    ];
    SchemaRecord::new(SchemaFingerprint(TRANSFORM), "Transform".to_string(), fields)
}

fn schema_set() -> SchemaSet {
    let color = SchemaEnum::new(
        SchemaFingerprint(COLOR),
        "Color".to_string(),
        vec![
            SchemaEnumSymbol::new("Red".to_string(), vec!["Crimson".to_string()]),
            SchemaEnumSymbol::new("Green".to_string(), vec![]),
        ],
    );
    let linked = LinkedTypes {
        schemas: vec![SchemaNamedType::Record(transform_record()), SchemaNamedType::Enum(color)],
        schemas_by_name: vec![
            ("Transform".to_string(), SchemaFingerprint(TRANSFORM)),
            ("Color".to_string(), SchemaFingerprint(COLOR)),
        ],
        schemas_by_type_uuid: vec![(1, SchemaFingerprint(TRANSFORM)), (2, SchemaFingerprint(COLOR))],
    };
    let mut builder = SchemaSetBuilder::new();
    builder.add_linked_types(linked).unwrap();
    builder.build()
}

fn new_asset(ds: &mut DataSet, id: u128, name: &str) -> AssetId {
    let asset_id = AssetId(id);
    ds.new_asset_with_id(
        asset_id,
        AssetName::new(name.to_string()),
        AssetLocation::new(AssetId(1)),
        &transform_record(),
    )
    .unwrap();
    asset_id
}

fn as_i32(v: &Value) -> i32 {
    match v {
        Value::I32(x) => *x,
        other => panic!("not an i32: {:?}", other),
    }
}

#[test]
fn resolve_gives_default_then_written_value() {
    let ss = schema_set();
    let mut ds = DataSet::new();
    let a = new_asset(&mut ds, 10, "a");
    assert_eq!(as_i32(&ds.resolve_property(&ss, a, "count").unwrap()), 0);
    let old = ds.set_property_override(&ss, a, "count", Some(Value::I32(7))).unwrap();
    assert!(old.is_none());
    assert_eq!(as_i32(&ds.resolve_property(&ss, a, "count").unwrap()), 7);
    let old = ds.set_property_override(&ss, a, "count", Some(Value::I32(9))).unwrap();
    assert_eq!(as_i32(&old.unwrap()), 7);
}

#[test]
fn enum_default_is_first_symbol() {
    let ss = schema_set();
    let mut ds = DataSet::new();
    let a = new_asset(&mut ds, 10, "a");
    match ds.resolve_property(&ss, a, "color").unwrap() {
        Value::Enum(e) => assert_eq!(e.symbol_name(), "Red"),
        other => panic!("unexpected {:?}", other),
    }
}

#[test]
fn write_with_wrong_kind_is_refused() {
    let ss = schema_set();
    let mut ds = DataSet::new();
    let a = new_asset(&mut ds, 10, "a");
    let r = ds.set_property_override(&ss, a, "count", Some(Value::Boolean(true)));
    assert_eq!(r.unwrap_err(), DataSetError::ValueDoesNotMatchSchema);
    let r = ds.set_property_override(&ss, a, "missing", Some(Value::I32(1)));
    assert_eq!(r.unwrap_err(), DataSetError::SchemaNotFound);
    let r = ds.set_property_override(&ss, AssetId(99), "count", Some(Value::I32(1)));
    assert_eq!(r.unwrap_err(), DataSetError::AssetNotFound);
}

#[test]
fn prototype_values_are_inherited_and_overridden() {
    let ss = schema_set();
    let mut ds = DataSet::new();
    let parent = new_asset(&mut ds, 10, "parent");
    ds.set_property_override(&ss, parent, "count", Some(Value::I32(5))).unwrap();
    let child = ds
        .new_asset_from_prototype(AssetName::new("child".to_string()), AssetLocation::new(AssetId(1)), parent)
        .unwrap();
    assert_eq!(ds.asset_prototype(child), Some(parent));
    assert_eq!(as_i32(&ds.resolve_property(&ss, child, "count").unwrap()), 5);
    ds.set_property_override(&ss, child, "count", Some(Value::I32(6))).unwrap();
    assert_eq!(as_i32(&ds.resolve_property(&ss, child, "count").unwrap()), 6);
    assert_eq!(as_i32(&ds.resolve_property(&ss, parent, "count").unwrap()), 5);
}

#[test]
fn apply_override_to_prototype_keeps_value() {
    let ss = schema_set();
    let mut ds = DataSet::new();
    let parent = new_asset(&mut ds, 10, "parent");
    let child = ds
        .new_asset_from_prototype(AssetName::new("child".to_string()), AssetLocation::new(AssetId(1)), parent)
        .unwrap();
    ds.set_property_override(&ss, child, "count", Some(Value::I32(42))).unwrap();
    ds.apply_property_override_to_prototype(&ss, child, "count").unwrap();
    assert!(!ds.has_property_override(child, "count").unwrap());
    assert_eq!(as_i32(&ds.resolve_property(&ss, parent, "count").unwrap()), 42);
    assert_eq!(as_i32(&ds.resolve_property(&ss, child, "count").unwrap()), 42);
}

#[test]
fn null_override_round_trip_and_null_parent() {
    let ss = schema_set();
    let mut ds = DataSet::new();
    let a = new_asset(&mut ds, 10, "a");
    assert_eq!(ds.get_null_override(&ss, a, "opt").unwrap(), NullOverride::Unset);
    // The nullable directly above the read value is not checked; one further up is.
    assert_eq!(as_i32(&ds.resolve_property(&ss, a, "opt.value").unwrap()), 0);
    assert_eq!(
        ds.resolve_property(&ss, a, "deep.value.value").unwrap_err(),
        DataSetError::PathParentIsNull
    );
    ds.set_null_override(&ss, a, "deep", NullOverride::SetNonNull).unwrap();
    assert_eq!(as_i32(&ds.resolve_property(&ss, a, "deep.value.value").unwrap()), 0);
    ds.set_null_override(&ss, a, "opt", NullOverride::SetNonNull).unwrap();
    assert_eq!(ds.get_null_override(&ss, a, "opt").unwrap(), NullOverride::SetNonNull);
    assert_eq!(ds.resolve_null_override(&ss, a, "opt").unwrap(), NullOverride::SetNonNull);
    assert_eq!(as_i32(&ds.resolve_property(&ss, a, "opt.value").unwrap()), 0);
    assert_eq!(ds.set_null_override(&ss, a, "count", NullOverride::SetNull).unwrap_err(), DataSetError::InvalidSchema);
}

#[test]
fn dynamic_array_entries_add_remove_and_inherit() {
    let ss = schema_set();
    let mut ds = DataSet::new();
    let parent = new_asset(&mut ds, 10, "parent");
    let e1 = ds.add_dynamic_array_override(&ss, parent, "items").unwrap();
    let child = ds
        .new_asset_from_prototype(AssetName::new("child".to_string()), AssetLocation::new(AssetId(1)), parent)
        .unwrap();
    let e2 = ds.add_dynamic_array_override(&ss, child, "items").unwrap();
    assert_ne!(e1, e2);
    assert_eq!(ds.resolve_dynamic_array(&ss, child, "items").unwrap(), vec![e1, e2]);
    assert_eq!(ds.get_override_behavior(&ss, child, "items").unwrap(), OverrideBehavior::Append);
    ds.set_override_behavior(&ss, child, "items", OverrideBehavior::Replace).unwrap();
    assert_eq!(ds.get_override_behavior(&ss, child, "items").unwrap(), OverrideBehavior::Replace);
    assert_eq!(ds.resolve_dynamic_array(&ss, child, "items").unwrap(), vec![e2]);
    assert!(ds.remove_dynamic_array_override(&ss, child, "items", e2).unwrap());
    assert!(!ds.remove_dynamic_array_override(&ss, child, "items", e2).unwrap());
    assert_eq!(ds.resolve_dynamic_array(&ss, child, "items").unwrap(), Vec::<u128>::new());
    assert_eq!(
        ds.add_dynamic_array_override(&ss, child, "count").unwrap_err(),
        DataSetError::InvalidSchema
    );
}

#[test]
fn entry_values_are_read_through_their_key() {
    let ss = schema_set();
    let mut ds = DataSet::new();
    let a = new_asset(&mut ds, 10, "a");
    let e = ds.add_dynamic_array_override(&ss, a, "items").unwrap();
    let key = uuid::Uuid::from_u128(e).to_string();
    let path = format!("items.{}", key);
    ds.set_property_override(&ss, a, &path, Some(Value::I32(3))).unwrap();
    assert_eq!(as_i32(&ds.resolve_property(&ss, a, &path).unwrap()), 3);
    let n = ds.add_dynamic_array_override(&ss, a, "nitems").unwrap();
    let known = format!("nitems.{}.value", uuid::Uuid::from_u128(n).to_string());
    assert_eq!(as_i32(&ds.resolve_property(&ss, a, &known).unwrap()), 0);
    let missing = format!("nitems.{}.value", uuid::Uuid::from_u128(n ^ 1).to_string());
    assert_eq!(
        ds.resolve_property(&ss, a, &missing).unwrap_err(),
        DataSetError::PathDynamicArrayEntryDoesNotExist
    );
}

#[test]
fn delete_undoes_new_and_reports_missing() {
    let mut ds = DataSet::new();
    let a = new_asset(&mut ds, 10, "a");
    assert!(ds.asset_name(a).is_some());
    ds.delete_asset(a).unwrap();
    assert!(ds.asset_name(a).is_none());
    assert_eq!(ds.delete_asset(a).unwrap_err(), DataSetError::AssetNotFound);
}

#[test]
fn duplicate_id_is_refused() {
    let mut ds = DataSet::new();
    new_asset(&mut ds, 10, "a");
    let r = ds.new_asset_with_id(
        AssetId(10),
        AssetName::new("b".to_string()),
        AssetLocation::new(AssetId(1)),
        &transform_record(),
    );
    assert_eq!(r.unwrap_err(), DataSetError::DuplicateAssetId);
}

#[test]
fn name_round_trip() {
    let mut ds = DataSet::new();
    let a = new_asset(&mut ds, 10, "a");
    ds.set_asset_name(a, AssetName::new("renamed".to_string())).unwrap();
    assert_eq!(ds.asset_name(a).unwrap().as_string().map(|s| s.as_str()), Some("renamed"));
}

#[test]
fn property_hash_ignores_names_and_sees_values() {
    let ss = schema_set();
    let mut ds = DataSet::new();
    let a = new_asset(&mut ds, 10, "a");
    let b = new_asset(&mut ds, 11, "b");
    ds.set_property_override(&ss, a, "count", Some(Value::I32(1))).unwrap();
    ds.set_property_override(&ss, b, "count", Some(Value::I32(1))).unwrap();
    let ha = ds.hash_properties(a).unwrap();
    let hb = ds.hash_properties(b).unwrap();
    assert_eq!(ha, hb);
    ds.set_property_override(&ss, b, "count", Some(Value::I32(2))).unwrap();
    assert_ne!(ds.hash_properties(b).unwrap(), ha);
    assert_eq!(ds.hash_properties(AssetId(99)), None);
}

#[test]
fn property_hash_ignores_the_order_values_were_set_in() {
    let ss = schema_set();
    let mut ds = DataSet::new();
    let a = new_asset(&mut ds, 1, "a");
    let b = new_asset(&mut ds, 2, "b");
    ds.set_property_override(&ss, a, "count", Some(Value::I32(3))).unwrap();
    ds.set_property_override(&ss, a, "visible", Some(Value::Boolean(true))).unwrap();
    ds.set_null_override(&ss, a, "opt", NullOverride::SetNonNull).unwrap();
    ds.set_null_override(&ss, b, "opt", NullOverride::SetNonNull).unwrap();
    ds.set_property_override(&ss, b, "visible", Some(Value::Boolean(true))).unwrap();
    ds.set_property_override(&ss, b, "count", Some(Value::I32(3))).unwrap();
    assert_eq!(ds.hash_properties(a), ds.hash_properties(b));
}

#[test]
fn cloned_schema_set_and_values_read_the_same() {
    let ss = schema_set();
    let copy = ss.clone();
    let mut ds = DataSet::new();
    let a = new_asset(&mut ds, 1, "a");
    ds.set_property_override(&copy, a, "count", Some(Value::I32(12).clone())).unwrap();
    assert_eq!(as_i32(&ds.resolve_property(&ss, a, "count").unwrap()), 12);
    assert_eq!(as_i32(&ds.resolve_property(&copy, a, "count").unwrap()), 12);
}

#[test]
fn writing_back_the_replaced_value_undoes_a_write() {
    let ss = schema_set();
    let mut ds = DataSet::new();
    let a = new_asset(&mut ds, 10, "a");
    ds.set_property_override(&ss, a, "count", Some(Value::I32(7))).unwrap();
    let old = ds.set_property_override(&ss, a, "count", Some(Value::I32(9))).unwrap();
    ds.set_property_override(&ss, a, "count", old).unwrap();
    assert_eq!(as_i32(ds.get_property_override(a, "count").unwrap().unwrap()), 7);
    let old = ds.set_property_override(&ss, a, "visible", Some(Value::Boolean(true))).unwrap();
    assert!(old.is_none());
    ds.set_property_override(&ss, a, "visible", old).unwrap();
    assert!(ds.get_property_override(a, "visible").unwrap().is_none());
}

#[test]
fn metadata_setters_keep_the_property_hash() {
    let ss = schema_set();
    let mut ds = DataSet::new();
    let a = new_asset(&mut ds, 10, "a");
    ds.set_property_override(&ss, a, "count", Some(Value::I32(3))).unwrap();
    let h = ds.hash_properties(a);
    ds.set_asset_name(a, AssetName::new("renamed".to_string())).unwrap();
    ds.set_asset_location(a, AssetLocation::new(AssetId(77))).unwrap();
    ds.set_file_reference_override(a, "assets://x.png".to_string(), AssetId(5)).unwrap();
    assert_eq!(ds.hash_properties(a), h);
}

#[test]
fn check_wf_accepts_closed_sets_and_refuses_dangling_references() {
    assert!(schema_set().check_wf());
    let dangling = SchemaRecord::new(
        SchemaFingerprint(300),
        "Broken".to_string(),
        vec![SchemaRecordField::new("other".to_string(), Schema::Record(SchemaFingerprint(999)))],
    );
    let linked = LinkedTypes {
        schemas: vec![SchemaNamedType::Record(dangling)],
        schemas_by_name: vec![("Broken".to_string(), SchemaFingerprint(300))],
        schemas_by_type_uuid: vec![(3, SchemaFingerprint(300))],
    };
    let mut builder = SchemaSetBuilder::new();
    builder.add_linked_types(linked).unwrap();
    assert!(!builder.build().check_wf());
}

#[test]
fn path_check_records_the_containers_on_the_path() {
    let ss = schema_set();
    let mut nullables: Vec<String> = vec![];
    let mut dynamic: Vec<(String, String)> = vec![];
    let mut fixed: Vec<(String, String)> = vec![];
    let mut maps: Vec<(String, String)> = vec![];
    let key = "00000000-0000-0000-0000-00000000002a";
    let path = format!("nitems.{}.value", key);
    let s = hydrate_data::property_util::property_schema_and_path_ancestors_to_check(
        &transform_record(),
        &path,
        ss.schemas(),
        &mut nullables,
        &mut dynamic,
        &mut fixed,
        &mut maps,
    )
    .unwrap();
    assert!(matches!(s, Schema::I32));
    assert!(nullables.is_empty());
    assert_eq!(dynamic, vec![("nitems".to_string(), key.to_string())]);
    assert!(fixed.is_empty());
    assert!(maps.is_empty());
    let mut nullables: Vec<String> = vec![];
    let mut dynamic: Vec<(String, String)> = vec![];
    hydrate_data::property_util::property_schema_and_path_ancestors_to_check(
        &transform_record(),
        "deep.value.value",
        ss.schemas(),
        &mut nullables,
        &mut dynamic,
        &mut fixed,
        &mut maps,
    )
    .unwrap();
    assert_eq!(nullables, vec!["deep".to_string()]);
    assert!(dynamic.is_empty());
}
