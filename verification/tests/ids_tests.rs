use hydrate_data::ids::{AssetId, AssetLocation, AssetName, ImportableName};

#[test]
fn asset_name_empty_is_empty() {
    let n = AssetName::empty();
    assert!(n.is_empty());
    assert!(n.as_string().is_none());
}

#[test]
fn asset_name_with_text() {
    let n = AssetName::new("hero".to_string());
    assert!(!n.is_empty());
    assert_eq!(n.as_string().map(|s| s.as_str()), Some("hero"));
}

#[test]
fn asset_location_null() {
    let l = AssetLocation::null();
    assert!(l.is_null());
    let l2 = AssetLocation::new(AssetId::from_u128(7));
    assert!(!l2.is_null());
    assert_eq!(l2.path_node_id().as_u128(), 7);
}

#[test]
fn importable_name_default() {
    let n = ImportableName::new_optional(None);
    assert!(n.is_default());
    assert_eq!(n.name(), None);
    let m = ImportableName::new_optional(Some("mesh".to_string()));
    assert_eq!(m.name(), Some("mesh"));
}
