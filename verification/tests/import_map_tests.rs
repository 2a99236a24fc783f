use dino::error::AppError;
use dino::modules::{resolve_import, ImportMap};

#[test]
fn lookup_rewrites_by_prefix_and_roots_dot_targets() {
    let im = ImportMap::parse_from_json(r#"{"imports":{"react/":"./vendor/react/"}}"#).unwrap();
    let r = im.lookup("react/jsx-runtime", "/proj").unwrap();
    assert_eq!(r, "/proj/vendor/react/jsx-runtime");
    assert_eq!(im.lookup("lodash", "/proj"), None);
}

#[test]
fn longest_prefix_wins_on_nested_keys() {
    let im = ImportMap::parse_from_json(
        r#"{"imports":{"a/":"./A/","a/b/":"./AB/"}}"#,
    )
    .unwrap();
    assert_eq!(im.lookup("a/b/x", "/cwd").unwrap(), "/cwd/AB/x");
    assert_eq!(im.lookup("a/y", "/cwd").unwrap(), "/cwd/A/y");
}

#[test]
fn extension_full_specifier_matching_its_key_is_not_rewritten() {
    let im = ImportMap::parse_from_json(r#"{"imports":{"mod":"./lib/mod"}}"#).unwrap();
    assert_eq!(im.lookup("mod.js", "/cwd"), None);
    assert_eq!(im.lookup("mod", "/cwd").unwrap(), "/cwd/lib/mod");
}

#[test]
fn absolute_targets_are_kept_verbatim() {
    let im = ImportMap::parse_from_json(
        r#"{"imports":{"std/":"https://deno.land/std/"}}"#,
    )
    .unwrap();
    assert_eq!(im.lookup("std/http", "/cwd").unwrap(), "https://deno.land/std/http");
}

#[test]
fn malformed_import_maps_are_rejected() {
    assert!(matches!(
        ImportMap::parse_from_json("not json"),
        Err(AppError::ConfigParseFailed(_))
    ));
    assert!(ImportMap::parse_from_json(r#"{"imports": 42}"#).is_err());
    assert!(ImportMap::parse_from_json(r#"{"other": {}}"#).is_err());
    assert!(ImportMap::parse_from_json(r#"{"imports": {"a": 1}}"#).is_err());
    assert!(ImportMap::parse_from_json(r#"{"imports": {}}"#).is_ok());
}

#[test]
fn bundler_import_map_resolution_lands_in_vendor_tree() {
    let im = ImportMap::parse_from_json(r#"{"imports":{"react/":"./vendor/react/"}}"#).unwrap();
    let p = resolve_import(Some("/proj/main.ts"), "react/jsx-runtime", Some(&im), "/proj")
        .unwrap();
    assert_eq!(p, "/proj/vendor/react/jsx-runtime");
    assert!(!p.starts_with("react/"));
}
