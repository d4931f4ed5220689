use hydrate_data::data_set::DataSet;
use hydrate_data::diff::{AssetDiffSet, DataSetDiffSet};
use hydrate_data::ordered_set::OrderedSet;
use hydrate_data::ids::{AssetId, AssetLocation, AssetName, DataSetError, NullOverride, OverrideBehavior};
use hydrate_data::schema::{
    Schema, SchemaEnum, SchemaEnumSymbol, SchemaFingerprint, SchemaNamedType, SchemaRecord,
    SchemaRecordField,
};
use hydrate_data::schema_set::{LinkedTypes, SchemaSet, SchemaSetBuilder};
use hydrate_data::value::{PropertyValue, Value};

const TRANSFORM: u128 = 100;
const COLOR: u128 = 200;

fn transform_record() -> SchemaRecord {
    let fields = vec![
        SchemaRecordField::new("visible".to_string(), Schema::Boolean),
        SchemaRecordField::new("count".to_string(), Schema::I32),
        SchemaRecordField::new("name".to_string(), Schema::String),
        SchemaRecordField::new("color".to_string(), Schema::Enum(SchemaFingerprint(COLOR))),
        SchemaRecordField::new("opt".to_string(), Schema::Nullable(Box::new(Schema::I32))),
        SchemaRecordField::new("items".to_string(), Schema::DynamicArray(Box::new(Schema::I32))),
        SchemaRecordField::new("weight".to_string(), Schema::F32),
    ];
    SchemaRecord::new(SchemaFingerprint(TRANSFORM), "Transform".to_string(), fields)
}

fn schema_set() -> SchemaSet {
    let color = SchemaEnum::new(
        SchemaFingerprint(COLOR),
        "Color".to_string(),
        vec![
            SchemaEnumSymbol::new("Red".to_string(), vec!["Crimson".to_string()]),
            SchemaEnumSymbol::new("Green".to_string(), vec![]),
        ],
    );
    let linked = LinkedTypes {
        schemas: vec![SchemaNamedType::Record(transform_record()), SchemaNamedType::Enum(color)],
        schemas_by_name: vec![
            ("Transform".to_string(), SchemaFingerprint(TRANSFORM)),
            ("Color".to_string(), SchemaFingerprint(COLOR)),
        ],
        schemas_by_type_uuid: vec![(1, SchemaFingerprint(TRANSFORM)), (2, SchemaFingerprint(COLOR))],
    };
    let mut builder = SchemaSetBuilder::new();
    builder.add_linked_types(linked).unwrap();
    builder.build()
}

fn new_asset(ds: &mut DataSet, id: u128, name: &str) -> AssetId {
    let asset_id = AssetId(id);
    ds.new_asset_with_id(
        asset_id,
        AssetName::new(name.to_string()),
        AssetLocation::new(AssetId(1)),
        &transform_record(),
    )
    .unwrap();
    asset_id
}

fn as_i32(v: &Value) -> i32 {
    match v {
        Value::I32(x) => *x,
        other => panic!("not an i32: {:?}", other),
    }
}


fn count_of(ds: &DataSet, ss: &SchemaSet, id: AssetId) -> i32 {
    as_i32(&ds.resolve_property(ss, id, "count").unwrap())
}

fn before_and_after(ss: &SchemaSet) -> (DataSet, DataSet) {
    let mut before = DataSet::new();
    let a = new_asset(&mut before, 10, "a");
    new_asset(&mut before, 12, "c");
    before.set_property_override(ss, a, "count", Some(Value::I32(1))).unwrap();
    let mut after = DataSet::new();
    let a2 = new_asset(&mut after, 10, "a");
    new_asset(&mut after, 11, "b");
    after.set_property_override(ss, a2, "count", Some(Value::I32(2))).unwrap();
    after.set_asset_name(a2, AssetName::new("a2".to_string())).unwrap();
    (before, after)
}

fn watched() -> OrderedSet {
    let mut w = OrderedSet::new();
    w.try_insert_at_end(10);
    w.try_insert_at_end(11);
    w.try_insert_at_end(12);
    w
}

#[test]
fn diff_then_apply_turns_before_into_after() {
    let ss = schema_set();
    let (before, after) = before_and_after(&ss);
    let diffs = DataSetDiffSet::diff_data_set(&before, &after, &watched());
    assert!(diffs.has_changes());
    let (mut target, _) = before_and_after(&ss);
    diffs.apply_diff.apply(&mut target, &ss).unwrap();
    assert_eq!(count_of(&target, &ss, AssetId(10)), 2);
    assert!(target.asset_name(AssetId(11)).is_some());
    assert!(target.asset_name(AssetId(12)).is_none());
    assert_eq!(target.asset_name(AssetId(10)).unwrap().as_string().map(|s| s.as_str()), Some("a2"));
    assert!(diffs.modified_assets.contains(&10));
    assert!(diffs.modified_assets.contains(&12));
    assert!(!diffs.modified_assets.contains(&11));
}

#[test]
fn revert_diff_turns_after_back_into_before() {
    let ss = schema_set();
    let (before, after) = before_and_after(&ss);
    let diffs = DataSetDiffSet::diff_data_set(&before, &after, &watched());
    let (_, mut target) = before_and_after(&ss);
    diffs.revert_diff.apply(&mut target, &ss).unwrap();
    assert_eq!(count_of(&target, &ss, AssetId(10)), 1);
    assert!(target.asset_name(AssetId(11)).is_none());
    assert!(target.asset_name(AssetId(12)).is_some());
}

#[test]
fn identical_sets_have_no_diff() {
    let ss = schema_set();
    let (before, _) = before_and_after(&ss);
    let (same, _) = before_and_after(&ss);
    let diffs = DataSetDiffSet::diff_data_set(&before, &same, &watched());
    assert!(!diffs.has_changes());
    assert!(diffs.modified_assets.is_empty());
    let _ = DataSetError::AssetNotFound;
    let _ = NullOverride::Unset;
    let _ = OverrideBehavior::Append;
}

fn weighted(ss: &SchemaSet, bits: u32) -> DataSet {
    let mut ds = DataSet::new();
    let a = new_asset(&mut ds, 10, "a");
    new_asset(&mut ds, 12, "c");
    ds.set_property_override(ss, a, "weight", Some(Value::F32(bits))).unwrap();
    ds
}

#[test]
fn float_properties_compare_as_numbers() {
    let zero = 0.0f32.to_bits();
    let minus_zero = (-0.0f32).to_bits();
    let nan = f32::NAN.to_bits();
    assert!(PropertyValue::are_matching_property_values(&Value::F32(zero), &Value::F32(minus_zero)));
    assert!(!PropertyValue::are_matching_property_values(&Value::F32(nan), &Value::F32(nan)));
    assert!(PropertyValue::are_matching_property_values(&Value::F64(1.5f64.to_bits()), &Value::F64(1.5f64.to_bits())));
    assert!(!PropertyValue::are_matching_property_values(&Value::F64(f64::NAN.to_bits()), &Value::F64(f64::NAN.to_bits())));
    let ss = schema_set();
    let diffs = DataSetDiffSet::diff_data_set(&weighted(&ss, zero), &weighted(&ss, minus_zero), &watched());
    assert!(!diffs.has_changes());
    let diffs = DataSetDiffSet::diff_data_set(&weighted(&ss, nan), &weighted(&ss, nan), &watched());
    assert!(diffs.has_changes());
}

#[test]
fn applying_an_asset_diff_twice_changes_nothing_more() {
    let ss = schema_set();
    let (before, after) = before_and_after(&ss);
    let mut locations = OrderedSet::new();
    let d = AssetDiffSet::diff_assets(&before, AssetId(10), &after, AssetId(10), &mut locations);
    let mut once = before.assets().get(&10).unwrap().copy_asset();
    d.apply_diff.apply(&mut once);
    let mut twice = once.copy_asset();
    d.apply_diff.apply(&mut twice);
    assert_eq!(twice.asset_name(), once.asset_name());
    assert_eq!(once.asset_name().as_string().map(|s| s.as_str()), Some("a2"));
    let count = |a: &hydrate_data::data_set::DataSetAssetInfo| as_i32(a.properties().get("count").unwrap());
    assert_eq!(count(&once), 2);
    assert_eq!(count(&twice), 2);
    assert_eq!(twice.properties().len(), once.properties().len());
}
