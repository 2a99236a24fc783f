use dino::error::AppError;
use dino::modules::{choose_loader, load_import, resolve_import, FsModuleLoader, LoadOutcome,
    LoaderKind, UrlLoadPlan, UrlModuleLoader};
use dino::strmap::StrMap;

fn fs_with(entries: &[(&str, &str)]) -> StrMap<String> {
    let mut m = StrMap::new();
    for (k, v) in entries {
        m.insert(k.to_string(), v.to_string());
    }
    m
}

#[test]
fn load_as_file_tries_extensions_in_order() {
    let loader = FsModuleLoader;
    let fs = fs_with(&[("src/mod.ts", "ts source"), ("src/mod.json", "{}")]);
    assert_eq!(loader.load_as_file(&fs, "src/mod").unwrap(), "ts source");
    let fs2 = fs_with(&[("src/mod", "bare file")]);
    assert_eq!(loader.load_as_file(&fs2, "src/mod").unwrap(), "bare file");
    let e = loader.load_as_file(&fs2, "src/other").unwrap_err();
    assert!(matches!(&e, AppError::ModuleNotFound(p) if p == "src/other"));
    assert_eq!(e.message(), "Module not found \"src/other\"");
}

#[test]
fn json_import_is_wrapped_as_default_export() {
    let loader = FsModuleLoader;
    let fs = fs_with(&[("data.json", r#"{"a":1}"#)]);
    let src = loader.load_as_file(&fs, "data.json").unwrap();
    assert_eq!(src, "export default JSON.parse(`{\"a\":1}`);");
    assert!(loader.is_json_import("data.json"));
    assert!(!loader.is_json_import("data.js"));
    assert_eq!(loader.wrap_json("[1]"), "export default JSON.parse(`[1]`);");
}

#[test]
fn load_as_directory_uses_index_convention() {
    let loader = FsModuleLoader;
    let fs = fs_with(&[("pkg/index.jsx", "jsx here")]);
    assert_eq!(loader.load_as_directory(&fs, "pkg").unwrap(), "jsx here");
    assert!(loader.load_as_directory(&fs, "other").is_err());
}

#[test]
fn load_applies_default_extension_and_flags_typescript() {
    let loader = FsModuleLoader;
    let fs = fs_with(&[("src/a.ts", "let x: number = 1;")]);
    let l = loader.load(&fs, "src/a.ts").unwrap();
    assert_eq!(l.path, "src/a.ts");
    assert!(l.is_typescript);
    assert_eq!(l.source, "let x: number = 1;");

    let fs2 = fs_with(&[("src/b.js", "js")]);
    let l2 = loader.load(&fs2, "src/b").unwrap();
    assert_eq!(l2.path, "src/b.js");
    assert!(!l2.is_typescript);

    let e = loader.load(&fs2, "src/missing").unwrap_err();
    assert!(matches!(&e, AppError::ModuleNotFound(p) if p == "src/missing.js"));
}

#[test]
fn fs_resolve_normalizes_and_rejects_bare_specifiers() {
    let loader = FsModuleLoader;
    assert_eq!(loader.resolve(None, "/a/b/../c.js", "/proj").unwrap(), "/a/c.js");
    assert_eq!(
        loader.resolve(Some("/proj/main.ts"), "./util.ts", "/proj").unwrap(),
        "/proj/util.ts"
    );
    assert_eq!(
        loader.resolve(Some("/proj/sub/main.ts"), "../top.ts", "/proj").unwrap(),
        "/proj/top.ts"
    );
    assert_eq!(loader.resolve(None, "./x.ts", "/cwd").unwrap(), "/cwd/x.ts");
    assert!(matches!(
        loader.resolve(None, "react", "/cwd"),
        Err(AppError::ModuleNotFound(_))
    ));
}

#[test]
fn url_resolve_uses_specifier_or_base() {
    let loader = UrlModuleLoader::default();
    assert_eq!(
        loader.resolve(None, "https://example.com/lib/mod.js").unwrap(),
        "https://example.com/lib/mod.js"
    );
    assert_eq!(
        loader.resolve(Some("https://example.com/lib/mod.js"), "./util.js").unwrap(),
        "https://example.com/lib/util.js"
    );
    assert!(loader.resolve(None, "./util.js").is_err());
    assert!(loader.resolve(Some("not a url"), "./util.js").is_err());
}

#[test]
fn cache_path_is_sha1_of_the_url() {
    let loader = UrlModuleLoader::default();
    assert_eq!(
        loader.cache_path("/cache", "abc"),
        "/cache/a9993e364706816aba3e25717850c26c9cd0d89d"
    );
}

#[test]
fn plan_load_uses_cache_unless_skipped() {
    let loader = UrlModuleLoader { skip_cache: false };
    let url = "https://example.com/m.ts";
    let file = loader.cache_path("/cache", url);
    let cache = fs_with(&[(file.as_str(), "cached source")]);
    match loader.plan_load(&cache, "/cache", url) {
        UrlLoadPlan::Cached(s) => assert_eq!(s, "cached source"),
        UrlLoadPlan::Download { .. } => panic!("expected the cached copy"),
    }
    let skipping = UrlModuleLoader { skip_cache: true };
    match skipping.plan_load(&cache, "/cache", url) {
        UrlLoadPlan::Download { cache_file, transpile } => {
            assert_eq!(cache_file, file);
            assert!(transpile);
        },
        UrlLoadPlan::Cached(_) => panic!("skip_cache must force a download"),
    }
}

#[test]
fn dispatch_table_sends_paths_to_fs_and_urls_to_url_loader() {
    assert!(matches!(choose_loader("./x.ts"), LoaderKind::Fs));
    assert!(matches!(choose_loader("../x.ts"), LoaderKind::Fs));
    assert!(matches!(choose_loader("/abs/x.ts"), LoaderKind::Fs));
    assert!(matches!(choose_loader("react"), LoaderKind::Fs));
    assert!(matches!(choose_loader("https://example.com/x"), LoaderKind::Url));
    assert!(matches!(choose_loader("http://example.com"), LoaderKind::Url));
    assert!(matches!(choose_loader("C:\\projects\\x.ts"), LoaderKind::Url));
}

#[test]
fn load_import_serves_fs_and_plans_downloads() {
    let fs = fs_with(&[("src/a.js", "js body")]);
    let cache: StrMap<String> = StrMap::new();
    match load_import(&fs, &cache, "/cache", "src/a.js", false).unwrap() {
        LoadOutcome::Loaded(l) => {
            assert_eq!(l.source, "js body");
            assert_eq!(l.path, "src/a.js");
        },
        LoadOutcome::Download { .. } => panic!("filesystem import must not download"),
    }
    match load_import(&fs, &cache, "/cache", "https://example.com/m.ts", false).unwrap() {
        LoadOutcome::Download { cache_file, transpile } => {
            assert!(cache_file.starts_with("/cache/"));
            assert!(transpile);
        },
        LoadOutcome::Loaded(_) => panic!("empty cache must force a download"),
    }
}

#[test]
fn resolve_import_dispatches_on_url_shape() {
    let p = resolve_import(Some("/proj/main.ts"), "./dep.ts", None, "/proj").unwrap();
    assert_eq!(p, "/proj/dep.ts");
    let u = resolve_import(
        Some("https://example.com/a/main.ts"),
        "./dep.ts",
        None,
        "/proj",
    )
    .unwrap();
    assert_eq!(u, "https://example.com/a/dep.ts");
    let direct = resolve_import(None, "https://example.com/x.js", None, "/proj").unwrap();
    assert_eq!(direct, "https://example.com/x.js");
}
