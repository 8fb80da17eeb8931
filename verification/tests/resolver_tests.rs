use language::resolver::ImportNameResolver;

#[test]
fn a_new_resolver_resolves_names_to_themselves() {
    let r: ImportNameResolver<u64> = ImportNameResolver::new();
    let name = "Vec".to_string();
    assert_eq!(r.resolve(&name), "Vec");
    assert_eq!(r.generic(&name), None);
    assert_eq!(r.parent, None);
    assert_eq!(r.last_id, 0);
}

#[test]
fn imports_resolve_to_their_targets() {
    let mut r: ImportNameResolver<u64> = ImportNameResolver::new();
    r.add_import("Vec".to_string(), "std::collections::Vec".to_string());
    r.add_import("Map".to_string(), "std::collections::Map".to_string());
    assert_eq!(r.resolve(&"Vec".to_string()), "std::collections::Vec");
    assert_eq!(r.resolve(&"Map".to_string()), "std::collections::Map");
    assert_eq!(r.resolve(&"Set".to_string()), "Set");
    r.add_import("Vec".to_string(), "other::Vec".to_string());
    assert_eq!(r.resolve(&"Vec".to_string()), "other::Vec");
    assert_eq!(r.resolve(&"Map".to_string()), "std::collections::Map");
}

#[test]
fn generics_give_back_their_types() {
    let mut r: ImportNameResolver<String> = ImportNameResolver::new();
    r.add_generic("T".to_string(), "u64".to_string());
    assert_eq!(r.generic(&"T".to_string()), Some("u64".to_string()));
    assert_eq!(r.generic(&"U".to_string()), None);
    r.add_generic("T".to_string(), "str".to_string());
    assert_eq!(r.generic(&"T".to_string()), Some("str".to_string()));
    // Generics and imports are kept apart.
    assert_eq!(r.resolve(&"T".to_string()), "T");
    let copy = r.clone();
    assert_eq!(copy.generic(&"T".to_string()), Some("str".to_string()));
}
