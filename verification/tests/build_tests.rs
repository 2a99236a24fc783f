use dino::bundle::prepend_banner;
use dino::modules::{EsModule, ModuleMap, ModuleStatus};
use dino::strmap::StrMap;
use dino::utils::{build_artifact_paths, calc_hash_for_files, calc_project_hash,
    is_watched_change};

#[test]
fn calc_hash_for_filesshould_work() {
    let files: Vec<Vec<u8>> = vec![Vec::new(), Vec::new(), Vec::new(), Vec::new()];
    let hash = calc_hash_for_files(&files, 12);
    assert_eq!(hash, "af1349b9f5f9");
}

#[test]
fn project_hash_is_sixteen_hex_digits() {
    let files: Vec<Vec<u8>> = vec![b"let x = 1;".to_vec()];
    let hash = calc_project_hash(&files);
    assert_eq!(hash.len(), 16);
    assert!(hash.chars().all(|c| c.is_ascii_hexdigit()));
    let full = calc_hash_for_files(&Vec::new(), 100);
    assert_eq!(full.len(), 64);
    assert!(full.starts_with("af1349b9f5f9"));
}

#[test]
fn hash_depends_on_content_not_file_boundaries() {
    let split: Vec<Vec<u8>> = vec![b"ab".to_vec(), b"cd".to_vec()];
    let joined: Vec<Vec<u8>> = vec![b"abcd".to_vec()];
    assert_eq!(calc_project_hash(&split), calc_project_hash(&joined));
    let other: Vec<Vec<u8>> = vec![b"abce".to_vec()];
    assert_ne!(calc_project_hash(&joined), calc_project_hash(&other));
}

#[test]
fn build_artifacts_are_named_after_the_hash() {
    let (mjs, yml) = build_artifact_paths("deadbeef00112233");
    assert_eq!(mjs, "build/deadbeef00112233.mjs");
    assert_eq!(yml, "build/deadbeef00112233.yml");
}

#[test]
fn watcher_triggers_on_config_and_sources_only() {
    assert!(is_watched_change("proj/config.yml"));
    assert!(is_watched_change("src/main.ts"));
    assert!(is_watched_change("src/dep.js"));
    assert!(!is_watched_change("README.md"));
    assert!(!is_watched_change("notes.txt"));
}

#[test]
fn banner_is_prepended_unless_minified() {
    let out = prepend_banner("const x = 1;", false);
    assert!(out.starts_with("// dino bundle\n"));
    assert!(out.ends_with("const x = 1;"));
    assert_eq!(prepend_banner("const x = 1;", true), "const x = 1;");
}

#[test]
fn module_map_tracks_main_and_handles() {
    let mut map = ModuleMap::new();
    assert!(!map.has_pending_imports());
    map.insert("helper.js", 5, false);
    assert_eq!(map.main, None);
    map.insert("http://example.com/main.js", 6, false);
    assert_eq!(map.main, Some("http://example.com/main.js".to_string()));
    map.insert("/proj/main.ts", 7, true);
    assert_eq!(map.main, Some("http://example.com/main.js".to_string()));
    assert_eq!(map.get("helper.js"), Some(5));
    assert_eq!(map.get("absent"), None);
    assert_eq!(map.get_path(7), Some("/proj/main.ts".to_string()));
    assert_eq!(map.get_path(99), None);
}

#[test]
fn fast_forward_marks_resolved_subtrees_ready() {
    let leaf_ready = EsModule {
        path: "b".to_string(),
        status: ModuleStatus::Ready,
        dependencies: Vec::new(),
    };
    let leaf_resolving = EsModule {
        path: "c".to_string(),
        status: ModuleStatus::Resolving,
        dependencies: Vec::new(),
    };
    let root = EsModule {
        path: "a".to_string(),
        status: ModuleStatus::Resolving,
        dependencies: vec![leaf_ready, leaf_resolving],
    };
    let mut seen: StrMap<ModuleStatus> = StrMap::new();
    let root = root.fast_forward(&mut seen);
    assert_eq!(root.status, ModuleStatus::Ready);
    assert_eq!(root.dependencies[1].status, ModuleStatus::Ready);
    assert_eq!(seen.get("a"), Some(&ModuleStatus::Ready));
    assert_eq!(seen.get("c"), Some(&ModuleStatus::Ready));

    let dup = EsModule {
        path: "c".to_string(),
        status: ModuleStatus::Duplicate,
        dependencies: Vec::new(),
    };
    let dup = dup.fast_forward(&mut seen);
    assert_eq!(dup.status, ModuleStatus::Ready);
}

#[test]
fn fast_forward_waits_for_unresolved_dependencies() {
    let pending = EsModule {
        path: "slow".to_string(),
        status: ModuleStatus::Duplicate,
        dependencies: Vec::new(),
    };
    let root = EsModule {
        path: "root".to_string(),
        status: ModuleStatus::Resolving,
        dependencies: vec![pending],
    };
    let mut seen: StrMap<ModuleStatus> = StrMap::new();
    let root = root.fast_forward(&mut seen);
    assert_eq!(root.status, ModuleStatus::Resolving);
    assert_eq!(root.dependencies[0].status, ModuleStatus::Duplicate);
    assert_eq!(seen.get("root"), None);
}
