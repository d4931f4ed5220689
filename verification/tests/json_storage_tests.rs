use hydrate_data::data_set::{BuildInfo, DataSet, ImportInfo};
use hydrate_data::ids::{
    AssetId, AssetLocation, AssetName, DataSetError, ImportableName, ImporterId, NullOverride,
};
use hydrate_data::json_storage::{
    json_to_property_value_with_schema, load_json_properties, null_override_to_string_value,
    property_value_to_json, store_json_properties, string_to_null_override_value,
    AssetBuildInfoJson, AssetImportInfoJson, AssetJson, JsonNumber, JsonValue, MetaFile,
    MetaFileJson, RestoreAssetFromStorageImpl, SingleObjectJson,
};
use hydrate_data::ordered_set::OrderedSet;
use hydrate_data::path_reference::PathReferenceNamespaceResolver;
use hydrate_data::prop_map::{PathSet, PropertyMap};
use hydrate_data::schema::{
    Schema, SchemaEnum, SchemaEnumSymbol, SchemaFingerprint, SchemaNamedType, SchemaRecord,
    SchemaRecordField,
};
use hydrate_data::schema_set::{LinkedTypes, SchemaSet, SchemaSetBuilder};
use hydrate_data::single_object::SingleObject;
use hydrate_data::value::{Value, ValueEnum};

const TRANSFORM: u128 = 100;
const COLOR: u128 = 200;

fn transform_record() -> SchemaRecord {
    let fields = vec![
        SchemaRecordField::new("visible".to_string(), Schema::Boolean),
        SchemaRecordField::new("count".to_string(), Schema::I32),
        SchemaRecordField::new("name".to_string(), Schema::String),
        SchemaRecordField::new("color".to_string(), Schema::Enum(SchemaFingerprint(COLOR))),
        SchemaRecordField::new("opt".to_string(), Schema::Nullable(Box::new(Schema::I32))),
        SchemaRecordField::new("items".to_string(), Schema::DynamicArray(Box::new(Schema::I32))),
    ];
    SchemaRecord::new(SchemaFingerprint(TRANSFORM), "Transform".to_string(), fields)
}

fn schema_set() -> SchemaSet {
    let color = SchemaEnum::new(
        SchemaFingerprint(COLOR),
        "Color".to_string(),
        vec![
            SchemaEnumSymbol::new("Red".to_string(), vec!["Crimson".to_string()]),
            SchemaEnumSymbol::new("Green".to_string(), vec![]),
        ],
    );
    let linked = LinkedTypes {
        schemas: vec![SchemaNamedType::Record(transform_record()), SchemaNamedType::Enum(color)],
        schemas_by_name: vec![
            ("Transform".to_string(), SchemaFingerprint(TRANSFORM)),
            ("Color".to_string(), SchemaFingerprint(COLOR)),
        ],
        schemas_by_type_uuid: vec![(1, SchemaFingerprint(TRANSFORM)), (2, SchemaFingerprint(COLOR))],
    };
    let mut builder = SchemaSetBuilder::new();
    builder.add_linked_types(linked).unwrap();
    builder.build()
}


fn json_int(x: i64) -> JsonValue {
    JsonValue::Number(JsonNumber {
        as_i64: Some(x),
        as_u64: if x >= 0 { Some(x as u64) } else { None },
        as_f64_bits: Some((x as f64).to_bits()),
        as_f32_bits: Some((x as f32).to_bits()),
    })
}

fn text(s: &str) -> JsonValue {
    JsonValue::String(s.to_string())
}

struct NoNamespaces;

impl PathReferenceNamespaceResolver for NoNamespaces {
    fn namespace_root(&self, _namespace: &str) -> Option<String> {
        None
    }

    fn simplify_path(&self, _path: &str) -> Option<(String, String)> {
        None
    }

    fn canonicalize_path(&self, path: &str) -> String {
        path.to_string()
    }
}

struct Restorer {
    data_set: DataSet,
    schema_set: SchemaSet,
    resolver: NoNamespaces,
}

impl RestoreAssetFromStorageImpl for Restorer {
    type Resolver = NoNamespaces;

    fn restore_asset(
        &mut self,
        asset_id: AssetId,
        asset_name: AssetName,
        asset_location: AssetLocation,
        import_info: Option<ImportInfo>,
        build_info: BuildInfo,
        prototype: Option<AssetId>,
        schema: SchemaFingerprint,
        properties: PropertyMap<Value>,
        property_null_overrides: PropertyMap<NullOverride>,
        properties_in_replace_mode: PathSet,
        dynamic_collection_entries: PropertyMap<OrderedSet>,
    ) -> Result<(), DataSetError> {
        self.data_set.restore_asset(
            asset_id,
            asset_name,
            asset_location,
            import_info,
            build_info,
            &self.schema_set,
            prototype,
            schema,
            properties,
            property_null_overrides,
            properties_in_replace_mode,
            dynamic_collection_entries,
        )
    }

    fn namespace_resolver(&self) -> &NoNamespaces {
        &self.resolver
    }
}

const U1: &str = "00000000-0000-0000-0000-000000000001";
const U2: &str = "00000000-0000-0000-0000-000000000002";

#[test]
fn null_override_text_round_trip() {
    assert_eq!(null_override_to_string_value(NullOverride::SetNull), "SetNull");
    assert_eq!(null_override_to_string_value(NullOverride::SetNonNull), "SetNonNull");
    assert_eq!(string_to_null_override_value("SetNull"), Some(NullOverride::SetNull));
    assert_eq!(string_to_null_override_value("SetNonNull"), Some(NullOverride::SetNonNull));
    assert_eq!(string_to_null_override_value("Unset"), None);
}

#[test]
fn leaf_values_survive_json() {
    let ss = schema_set();
    let mut none: Option<Vec<Vec<u8>>> = None;
    match property_value_to_json(&Value::I32(-3), &mut none) {
        JsonValue::Number(n) => {
            assert_eq!(n.as_i64, Some(-3));
            assert_eq!(n.as_u64, None);
        }
        other => panic!("unexpected {:?}", other),
    }
    match json_to_property_value_with_schema(&ss, &Schema::I32, &json_int(-3), &none).unwrap() {
        Value::I32(x) => assert_eq!(x, -3),
        other => panic!("unexpected {:?}", other),
    }
    let j = property_value_to_json(&Value::Bytes(b"hello".to_vec()), &mut none);
    match &j {
        JsonValue::String(s) => assert_eq!(s, "aGVsbG8="),
        other => panic!("unexpected {:?}", other),
    }
    match json_to_property_value_with_schema(&ss, &Schema::Bytes, &j, &none).unwrap() {
        Value::Bytes(b) => assert_eq!(b, b"hello".to_vec()),
        other => panic!("unexpected {:?}", other),
    }
    let j = property_value_to_json(&Value::AssetRef(AssetId(42)), &mut none);
    match &j {
        JsonValue::String(s) => assert_eq!(s, "00000000-0000-0000-0000-00000000002a"),
        other => panic!("unexpected {:?}", other),
    }
    let target = Schema::AssetRef(SchemaFingerprint(TRANSFORM));
    match json_to_property_value_with_schema(&ss, &target, &j, &none).unwrap() {
        Value::AssetRef(id) => assert_eq!(id, AssetId(42)),
        other => panic!("unexpected {:?}", other),
    }
    let color = Schema::Enum(SchemaFingerprint(COLOR));
    match json_to_property_value_with_schema(&ss, &color, &text("Crimson"), &none).unwrap() {
        Value::Enum(e) => assert_eq!(e.symbol_name(), "Red"),
        other => panic!("unexpected {:?}", other),
    }
    assert!(matches!(
        json_to_property_value_with_schema(&ss, &color, &text("Blue"), &none),
        Err(DataSetError::StorageFormatError)
    ));
    assert!(matches!(
        json_to_property_value_with_schema(&ss, &Schema::Boolean, &json_int(1), &none),
        Err(DataSetError::StorageFormatError)
    ));
    let _ = ValueEnum::new("Red".to_string());
}

#[test]
fn bytes_go_to_buffers_when_there_are_some() {
    let ss = schema_set();
    let mut buffers: Option<Vec<Vec<u8>>> = Some(vec![vec![9u8]]);
    let j = property_value_to_json(&Value::Bytes(vec![1, 2, 3]), &mut buffers);
    match &j {
        JsonValue::Number(n) => assert_eq!(n.as_u64, Some(1)),
        other => panic!("unexpected {:?}", other),
    }
    assert_eq!(buffers.as_ref().unwrap()[1], vec![1, 2, 3]);
    match json_to_property_value_with_schema(&ss, &Schema::Bytes, &j, &buffers).unwrap() {
        Value::Bytes(b) => assert_eq!(b, vec![1, 2, 3]),
        other => panic!("unexpected {:?}", other),
    }
    assert!(matches!(
        json_to_property_value_with_schema(&ss, &Schema::Bytes, &json_int(5), &buffers),
        Err(DataSetError::StorageFormatError)
    ));
}

#[test]
fn load_reads_values_markers_and_entries() {
    let ss = schema_set();
    let props = vec![
        ("count".to_string(), json_int(5)),
        ("opt.null_override".to_string(), text("SetNonNull")),
        ("items".to_string(), JsonValue::Array(vec![text(U1), text(U1), text(U2)])),
        ("items.replace".to_string(), JsonValue::Bool(true)),
    ];
    let loaded = load_json_properties(&transform_record(), &ss, &props, true, &None).unwrap();
    match loaded.properties.get("count") {
        Some(Value::I32(x)) => assert_eq!(*x, 5),
        other => panic!("unexpected {:?}", other),
    }
    assert_eq!(loaded.property_null_overrides.get("opt"), Some(&NullOverride::SetNonNull));
    assert!(loaded.properties_in_replace_mode.contains("items"));
    assert_eq!(loaded.dynamic_collection_entries.get("items").unwrap().as_vec(), &vec![1u128, 2u128]);
    let without_replace = load_json_properties(&transform_record(), &ss, &props, false, &None).unwrap();
    assert!(!without_replace.properties_in_replace_mode.contains("items"));
}

#[test]
fn load_refuses_unreadable_entries() {
    let ss = schema_set();
    let bad_path = vec![("nope".to_string(), json_int(1))];
    assert_eq!(
        load_json_properties(&transform_record(), &ss, &bad_path, true, &None).err(),
        Some(DataSetError::StorageFormatError)
    );
    let bad_marker = vec![("opt.null_override".to_string(), text("Maybe"))];
    assert_eq!(
        load_json_properties(&transform_record(), &ss, &bad_marker, true, &None).err(),
        Some(DataSetError::StorageFormatError)
    );
    let bad_entry = vec![("items".to_string(), JsonValue::Array(vec![text("not-a-uuid")]))];
    assert_eq!(
        load_json_properties(&transform_record(), &ss, &bad_entry, true, &None).err(),
        Some(DataSetError::StorageFormatError)
    );
}

#[test]
fn store_lists_markers_entries_then_values() {
    let mut props: PropertyMap<Value> = PropertyMap::new();
    props.insert("count".to_string(), Value::I32(5));
    let mut nulls: PropertyMap<NullOverride> = PropertyMap::new();
    nulls.insert("opt".to_string(), NullOverride::SetNull);
    let mut replace = PathSet::new();
    replace.insert("items".to_string());
    let mut entries: PropertyMap<OrderedSet> = PropertyMap::new();
    let mut set = OrderedSet::new();
    set.try_insert_at_end(1);
    entries.insert("items".to_string(), set);
    let mut buffers: Option<Vec<Vec<u8>>> = None;
    let stored = store_json_properties(&props, &nulls, Some(&replace), &entries, &mut buffers);
    let keys: Vec<&str> = stored.iter().map(|(k, _)| k.as_str()).collect();
    assert_eq!(keys, vec!["opt.null_override", "items.replace", "items", "count"]);
    match &stored[2].1 {
        JsonValue::Array(a) => match &a[0] {
            JsonValue::String(s) => assert_eq!(s, U1),
            other => panic!("unexpected {:?}", other),
        },
        other => panic!("unexpected {:?}", other),
    }
}

#[test]
fn meta_file_round_trip() {
    let json = MetaFileJson {
        past_id_assignments: vec![("mesh".to_string(), 5), ("".to_string(), 6), ("mesh".to_string(), 7)],
    };
    let meta = json.to_meta_file();
    assert_eq!(meta.past_id_assignments.get("mesh"), Some(&AssetId(7)));
    assert_eq!(meta.past_id_assignments.get(""), Some(&AssetId(6)));
    let back = MetaFileJson::from_meta_file(&meta);
    assert_eq!(back.past_id_assignments.len(), 2);
    let empty = MetaFile::default();
    assert!(empty.past_id_assignments.is_empty());
}

#[test]
fn asset_save_then_load_gives_the_asset_back() {
    let ss = schema_set();
    let mut ds = DataSet::new();
    let id = AssetId(10);
    ds.new_asset_with_id(id, AssetName::new("hero".to_string()), AssetLocation::new(AssetId(3)), &transform_record())
        .unwrap();
    ds.set_property_override(&ss, id, "count", Some(Value::I32(8))).unwrap();
    ds.set_null_override(&ss, id, "opt", NullOverride::SetNonNull).unwrap();
    let e = ds.add_dynamic_array_override(&ss, id, "items").unwrap();
    let saved = AssetJson::save_asset(ds.assets(), id, true, Some(AssetLocation::new(AssetId(3))));
    assert_eq!(saved.id, Some(10));
    assert_eq!(saved.name, "hero");
    assert_eq!(saved.parent_dir, Some(3));
    assert_eq!(saved.schema, TRANSFORM);
    assert_eq!(saved.schema_name, "Transform");

    let mut restorer = Restorer { data_set: DataSet::new(), schema_set: schema_set(), resolver: NoNamespaces };
    let loaded_id = saved
        .load_asset(&mut restorer, &ss, None, AssetLocation::new(AssetId(1)), None)
        .unwrap();
    assert_eq!(loaded_id, id);
    let back = &restorer.data_set;
    match back.resolve_property(&ss, id, "count").unwrap() {
        Value::I32(x) => assert_eq!(x, 8),
        other => panic!("unexpected {:?}", other),
    }
    assert_eq!(back.get_null_override(&ss, id, "opt").unwrap(), NullOverride::SetNonNull);
    assert_eq!(back.resolve_dynamic_array(&ss, id, "items").unwrap(), vec![e]);
    assert_eq!(back.asset_location(id).unwrap().path_node_id(), AssetId(3));
    assert_eq!(back.asset_name(id).unwrap().as_string().map(|s| s.as_str()), Some("hero"));
}

#[test]
fn load_uses_overrides_and_reports_unknown_schema() {
    let ss = schema_set();
    let stored = AssetJson {
        id: None,
        name: String::new(),
        parent_dir: None,
        schema: 999,
        schema_name: "Transform".to_string(),
        import_info: None,
        build_info: AssetBuildInfoJson { file_reference_overrides: vec![] },
        prototype: None,
        properties: vec![],
    };
    let mut restorer = Restorer { data_set: DataSet::new(), schema_set: schema_set(), resolver: NoNamespaces };
    let id = stored
        .load_asset(&mut restorer, &ss, Some(55), AssetLocation::new(AssetId(1)), Some(AssetLocation::new(AssetId(2))))
        .unwrap();
    assert_eq!(id, AssetId(55));
    assert_eq!(restorer.data_set.asset_location(id).unwrap().path_node_id(), AssetId(2));
    let unknown = AssetJson { schema_name: "Nothing".to_string(), ..stored };
    assert_eq!(
        unknown.load_asset(&mut restorer, &ss, None, AssetLocation::new(AssetId(1)), None).unwrap_err(),
        DataSetError::SchemaNotFound
    );
}

#[test]
fn import_and_build_info_round_trip() {
    let info = ImportInfo::new(
        ImporterId(4),
        "assets://meshes/a.gltf".to_string(),
        ImportableName::new("mesh".to_string()),
        vec!["assets://textures/t.png".to_string(), "rel/b.png#x".to_string()],
    );
    let json = AssetImportInfoJson::new(&info);
    assert_eq!(json.importer_id, 4);
    assert_eq!(json.importable_name, "mesh");
    let back = json.to_import_info(&NoNamespaces).unwrap();
    assert_eq!(back.importer_id(), ImporterId(4));
    assert_eq!(back.source_file_path(), "assets://meshes/a.gltf");
    assert_eq!(back.importable_name(), Some("mesh"));
    assert_eq!(back.file_references(), &vec!["assets://textures/t.png".to_string(), "rel/b.png#x".to_string()]);
    let bad = AssetImportInfoJson { file_references: vec!["a#b://c".to_string()], ..json };
    assert_eq!(bad.to_import_info(&NoNamespaces).err(), Some(DataSetError::StorageFormatError));

    let mut build = BuildInfo::new();
    build.file_reference_overrides.insert("assets://x.png".to_string(), AssetId(9));
    let bj = AssetBuildInfoJson::new(&build);
    assert_eq!(bj.file_reference_overrides, vec![("assets://x.png".to_string(), 9)]);
    let b2 = bj.to_build_info(&NoNamespaces).unwrap();
    assert_eq!(b2.file_reference_overrides.get("assets://x.png"), Some(&AssetId(9)));
}

#[test]
fn single_object_json_round_trip() {
    let ss = schema_set();
    let mut obj = SingleObject::new(&transform_record());
    obj.set_property_override(&ss, "name", Some(Value::String("box".to_string()))).unwrap();
    obj.set_property_override(&ss, "count", Some(Value::I32(-2))).unwrap();
    let mut buffers: Option<Vec<Vec<u8>>> = None;
    let json = SingleObjectJson::new(&obj, &mut buffers);
    assert_eq!(json.schema, TRANSFORM);
    let back = json.to_single_object(&ss, &buffers).unwrap();
    match back.resolve_property(&ss, "name").unwrap() {
        Value::String(s) => assert_eq!(s, "box"),
        other => panic!("unexpected {:?}", other),
    }
    match back.resolve_property(&ss, "count").unwrap() {
        Value::I32(x) => assert_eq!(x, -2),
        other => panic!("unexpected {:?}", other),
    }
    let unknown = SingleObjectJson { schema: 1, schema_name: String::new(), properties: vec![] };
    assert_eq!(unknown.to_single_object(&ss, &None).err(), Some(DataSetError::SchemaNotFound));
}

#[test]
fn load_refuses_unparsable_references_before_restoring() {
    let ss = schema_set();
    let stored = AssetJson {
        id: Some(77),
        name: "n".to_string(),
        parent_dir: None,
        schema: TRANSFORM,
        schema_name: "Transform".to_string(),
        import_info: None,
        build_info: AssetBuildInfoJson { file_reference_overrides: vec![("a#b://c".to_string(), 1)] },
        prototype: None,
        properties: vec![],
    };
    let mut restorer = Restorer { data_set: DataSet::new(), schema_set: schema_set(), resolver: NoNamespaces };
    assert_eq!(
        stored.load_asset(&mut restorer, &ss, None, AssetLocation::new(AssetId(1)), None).unwrap_err(),
        DataSetError::StorageFormatError
    );
    assert!(restorer.data_set.asset_name(AssetId(77)).is_none());
    let prepared = stored.prepare_asset(&ss, None, AssetLocation::new(AssetId(1)), None, &NoNamespaces);
    assert!(matches!(prepared, Err(DataSetError::StorageFormatError)));
}

#[test]
fn bytes_are_stored_as_padded_standard_base64() {
    let mut none: Option<Vec<Vec<u8>>> = None;
    for (bytes, text) in [
        (vec![1u8, 2, 3, 4], "AQIDBA=="),
        (vec![0xfbu8, 0xff], "+/8="),
        (vec![], ""),
        (b"Man".to_vec(), "TWFu"),
    ] {
        match property_value_to_json(&Value::Bytes(bytes), &mut none) {
            JsonValue::String(s) => assert_eq!(s, text),
            other => panic!("unexpected {:?}", other),
        }
    }
}
