use hydrate_data::ids::ImportableName;
use hydrate_data::ids::DataSetError;
use hydrate_data::path_reference::{
    absolute_path_base, AbsolutePathBase, CanonicalPathReference, PathReference,
    PathReferenceNamespaceResolver,
};

struct Assets;

impl PathReferenceNamespaceResolver for Assets {
    fn namespace_root(&self, namespace: &str) -> Option<String> {
        if namespace == "assets" {
            Some("/project/assets".to_string())
        } else {
            None
        }
    }

    fn simplify_path(&self, path: &str) -> Option<(String, String)> {
        path.strip_prefix("/project/assets/").map(|rest| ("assets".to_string(), rest.to_string()))
    }

    fn canonicalize_path(&self, path: &str) -> String {
        path.to_string()
    }
}

#[test]
fn text_round_trip() {
    let r = PathReference::from_text("assets://meshes/a.gltf#mesh");
    assert_eq!(r.namespace(), "assets");
    assert_eq!(r.path(), "meshes/a.gltf");
    assert_eq!(r.importable_name().name(), Some("mesh"));
    assert_eq!(r.to_string(), "assets://meshes/a.gltf#mesh");
    let plain = PathReference::from_text("dir/file.txt");
    assert_eq!(plain.namespace(), "");
    assert_eq!(plain.path(), "dir/file.txt");
    assert!(plain.importable_name().is_default());
    assert_eq!(plain.to_string(), "dir/file.txt");
}

#[test]
fn simplify_moves_absolute_paths_into_namespaces() {
    let abs = PathReference::new(
        String::new(),
        "/project/assets/t.png".to_string(),
        ImportableName::new(String::new()),
    );
    assert!(!abs.has_relative_path());
    let c = abs.simplify(&Assets);
    assert_eq!(c.namespace(), "assets");
    assert_eq!(c.path(), "t.png");
    assert_eq!(c.to_string(), "assets://t.png");
    let rel = PathReference::new(String::new(), "t.png".to_string(), ImportableName::new(String::new()));
    assert!(rel.has_relative_path());
    let c2 = rel.simplify(&Assets);
    assert_eq!(c2.path(), "t.png");
    assert_eq!(c2.namespace(), "");
    let outside = CanonicalPathReference::new(
        &Assets,
        String::new(),
        "/elsewhere/x".to_string(),
        ImportableName::new("n".to_string()),
    );
    assert_eq!(outside.to_string(), "/elsewhere/x#n");
    let same = CanonicalPathReference::new(
        &Assets,
        String::new(),
        "/elsewhere/x".to_string(),
        ImportableName::new("n".to_string()),
    );
    assert!(outside == same);
}

#[test]
fn text_round_trip_with_colons() {
    let r = PathReference::new(
        String::new(),
        "C:/x/a.png".to_string(),
        ImportableName::new("part:one".to_string()),
    );
    let back = PathReference::from_text(&r.to_string());
    assert_eq!(back.namespace(), "");
    assert_eq!(back.path(), "C:/x/a.png");
    assert_eq!(back.importable_name().name(), Some("part:one"));
}

#[test]
fn absolute_path_base_follows_namespace_and_relativity() {
    let rel = PathReference::from_text("textures/t.png");
    assert!(matches!(absolute_path_base(&rel, &Assets), Ok(AbsolutePathBase::SourceDirectory)));
    let abs = PathReference::from_text("/data/t.png");
    assert!(matches!(absolute_path_base(&abs, &Assets), Ok(AbsolutePathBase::Itself)));
    let ns = PathReference::from_text("assets://t.png");
    match absolute_path_base(&ns, &Assets) {
        Ok(AbsolutePathBase::NamespaceRoot(root)) => assert_eq!(root, "/project/assets"),
        other => panic!("unexpected {:?}", other),
    }
    let unknown = PathReference::from_text("other://t.png");
    assert!(matches!(absolute_path_base(&unknown, &Assets), Err(DataSetError::UnknownPathNamespace)));
}
