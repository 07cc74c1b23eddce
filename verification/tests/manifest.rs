use cargo_aged::{
    classify, collect_deps, locked_versions_from_str, locked_versions_in, manifest_dependencies,
    parse_manifest_str, parse_toml, DepKind, Dependency, Toml,
};

fn table(text: &str) -> Toml {
    parse_toml(text).unwrap()
}

#[test]
fn classifies_string_shorthand_as_registry() {
    let v = Toml::Text("1.0".to_string());
    let d = classify("serde", &v);
    assert_eq!(d.name, "serde");
    match d.kind {
        DepKind::Registry { req, pinned } => {
            assert_eq!(req, "1.0");
            assert!(!pinned);
        }
        _ => panic!("expected Registry"),
    }
}

#[test]
fn classifies_string_with_equals_pin() {
    let v = Toml::Text("=1.0.210".to_string());
    let d = classify("serde", &v);
    match d.kind {
        DepKind::Registry { req, pinned } => {
            assert_eq!(req, "=1.0.210");
            assert!(pinned);
        }
        _ => panic!("expected Registry"),
    }
}

#[test]
fn classifies_table_with_version() {
    let d = classify("chrono", &table(r#"version = "0.4""#));
    match d.kind {
        DepKind::Registry { req, pinned } => {
            assert_eq!(req, "0.4");
            assert!(!pinned);
        }
        _ => panic!("expected Registry"),
    }
}

#[test]
fn classifies_table_with_equals_pin() {
    let d = classify("serde", &table(r#"version = "=1.0.210""#));
    match d.kind {
        DepKind::Registry { pinned, .. } => assert!(pinned),
        _ => panic!("expected Registry"),
    }
}

#[test]
fn classifies_path_dependency() {
    let d = classify("local", &table(r#"path = "../local""#));
    assert!(matches!(d.kind, DepKind::Path));
}

#[test]
fn path_wins_over_version_field() {
    let d = classify(
        "local",
        &table(
            r#"path = "../local"
version = "1.0""#,
        ),
    );
    assert!(matches!(d.kind, DepKind::Path));
}

#[test]
fn classifies_git_dependency() {
    let d = classify("bar", &table(r#"git = "https://github.com/foo/bar""#));
    assert!(matches!(d.kind, DepKind::Git));
}

#[test]
fn honors_package_rename() {
    let d = classify(
        "alias",
        &table(
            r#"package = "actual-crate"
version = "1.0""#,
        ),
    );
    assert_eq!(d.name, "actual-crate");
}

#[test]
fn missing_version_yields_empty_req_unpinned() {
    let d = classify("serde", &table(r#"features = ["derive"]"#));
    match d.kind {
        DepKind::Registry { req, pinned } => {
            assert_eq!(req, "");
            assert!(!pinned);
        }
        _ => panic!("expected Registry"),
    }
}

fn dep_names(deps: &[Dependency]) -> Vec<&str> {
    let mut v: Vec<&str> = deps.iter().map(|d| d.name.as_str()).collect();
    v.sort();
    v
}

#[test]
fn parses_plain_dependencies_section() {
    let manifest = r#"
[package]
name = "x"
version = "0.1.0"

[dependencies]
serde = "1.0"
tokio = { version = "1", features = ["rt"] }
"#;
    let deps = parse_manifest_str(manifest).unwrap();
    assert_eq!(dep_names(&deps), vec!["serde", "tokio"]);
}

#[test]
fn merges_dev_and_build_dependencies() {
    let manifest = r#"
[dependencies]
a = "1"
[dev-dependencies]
b = "1"
[build-dependencies]
c = "1"
"#;
    let deps = parse_manifest_str(manifest).unwrap();
    assert_eq!(dep_names(&deps), vec!["a", "b", "c"]);
}

#[test]
fn parses_target_cfg_dependencies() {
    let manifest = r#"
[target.'cfg(unix)'.dependencies]
nix = "0.28"

[target.x86_64-pc-windows-msvc.dependencies]
winapi = "0.3"
"#;
    let deps = parse_manifest_str(manifest).unwrap();
    assert_eq!(dep_names(&deps), vec!["nix", "winapi"]);
}

#[test]
fn parses_workspace_dependencies() {
    let manifest = r#"
[workspace]
members = []
[workspace.dependencies]
shared = "2.0"
"#;
    let deps = parse_manifest_str(manifest).unwrap();
    assert_eq!(dep_names(&deps), vec!["shared"]);
}

#[test]
fn dedupes_across_sections_preferring_signals() {
    let manifest = r#"
[dependencies]
mylib = "1.0"

[dev-dependencies]
mylib = { path = "../mylib" }
"#;
    let deps = parse_manifest_str(manifest).unwrap();
    assert_eq!(deps.len(), 1);
    assert!(matches!(deps[0].kind, DepKind::Path));
}

#[test]
fn empty_manifest_yields_no_deps() {
    assert!(parse_manifest_str("").unwrap().is_empty());
    let just_package = r#"
[package]
name = "x"
version = "0.1.0"
"#;
    assert!(parse_manifest_str(just_package).unwrap().is_empty());
}

#[test]
fn invalid_toml_errors() {
    assert!(parse_manifest_str("this is not = valid ]").is_err());
}

#[test]
fn locked_versions_finds_single_entry() {
    let lock = r#"
[[package]]
name = "serde"
version = "1.0.210"
source = "registry+https://github.com/rust-lang/crates.io-index"
"#;
    assert_eq!(locked_versions_from_str(lock, "serde"), vec!["1.0.210"]);
}

#[test]
fn locked_versions_finds_multiple_entries_same_name() {
    let lock = r#"
[[package]]
name = "foo"
version = "1.0.0"

[[package]]
name = "foo"
version = "2.0.0"

[[package]]
name = "bar"
version = "0.5.0"
"#;
    let mut versions = locked_versions_from_str(lock, "foo");
    versions.sort();
    assert_eq!(versions, vec!["1.0.0", "2.0.0"]);
    assert_eq!(locked_versions_from_str(lock, "bar"), vec!["0.5.0"]);
}

#[test]
fn locked_versions_empty_for_missing_name() {
    let lock = r#"
[[package]]
name = "serde"
version = "1.0.210"
"#;
    assert!(locked_versions_from_str(lock, "tokio").is_empty());
}

#[test]
fn locked_versions_empty_for_malformed_lockfile() {
    assert!(locked_versions_from_str("garbage ]] {{", "serde").is_empty());
    assert!(locked_versions_from_str("", "serde").is_empty());
}

#[test]
fn lock_entries_of_other_shapes_are_passed_over() {
    let lock = r#"
package = [1, "serde", { name = "serde" }, { name = "serde", version = 2 }, { name = 3, version = "9" }, { name = "serde", version = "1.2" }]
"#;
    assert_eq!(locked_versions_from_str(lock, "serde"), vec!["1.2"]);
    assert!(locked_versions_from_str("package = \"serde\"", "serde").is_empty());
    assert!(locked_versions_in(&Toml::Float, "serde").is_empty());
}

#[test]
fn a_toml_document_keeps_its_shape() {
    let doc = table("b = true\na = [1, 2.5, 1979-05-27]\n[t]\nk = 'v'\n");
    let entries = match doc {
        Toml::Table(entries) => entries,
        _ => panic!("expected a table"),
    };
    let keys: Vec<&str> = entries.iter().map(|e| e.0.as_str()).collect();
    assert_eq!(keys, vec!["a", "b", "t"]);
    match &entries[0].1 {
        Toml::Array(items) => {
            assert!(matches!(items[0], Toml::Integer(1)));
            assert!(matches!(items[1], Toml::Float));
            assert!(matches!(items[2], Toml::Datetime));
        }
        _ => panic!("expected an array"),
    }
    assert!(matches!(entries[1].1, Toml::Boolean(true)));
    assert_eq!(entries[2].1.get("k").unwrap().as_str().unwrap(), "v");
    assert!(entries[2].1.get("x").is_none());
}

#[test]
fn dependencies_come_in_order_of_name() {
    let manifest = r#"
[dependencies]
zeta = "1"
Beta = "1"
[dev-dependencies]
alpha = "1"
"beta-x" = "1"
beta = "1"
"#;
    let deps = parse_manifest_str(manifest).unwrap();
    let names: Vec<&str> = deps.iter().map(|d| d.name.as_str()).collect();
    assert_eq!(names, vec!["Beta", "alpha", "beta", "beta-x", "zeta"]);
}

#[test]
fn the_first_declaration_without_a_registry_decides() {
    let manifest = r#"
[dependencies]
a = "1"
b = { path = "b" }
c = "=1"
[dev-dependencies]
a = { git = "g" }
b = { git = "g" }
c = "2"
[build-dependencies]
a = { path = "p" }
b = "3"
"#;
    let deps = parse_manifest_str(manifest).unwrap();
    assert_eq!(deps.len(), 3);
    assert!(matches!(deps[0].kind, DepKind::Git));
    assert!(matches!(deps[1].kind, DepKind::Path));
    match &deps[2].kind {
        DepKind::Registry { req, pinned } => {
            assert_eq!(req, "=1");
            assert!(*pinned);
        }
        _ => panic!("expected Registry"),
    }
}

#[test]
fn sections_of_other_shapes_are_passed_over() {
    let manifest = r#"
dependencies = 3
workspace = "w"
[target]
unix = 1
[target.windows]
dependencies = { winapi = 3 }
"#;
    let deps = parse_manifest_str(manifest).unwrap();
    assert_eq!(dep_names(&deps), vec!["winapi"]);
    match &deps[0].kind {
        DepKind::Registry { req, pinned } => {
            assert_eq!(req, "");
            assert!(!*pinned);
        }
        _ => panic!("expected Registry"),
    }
    assert!(manifest_dependencies(&Toml::Datetime).is_empty());
}

#[test]
fn a_pin_may_stand_after_white_space() {
    let d = classify("x", &Toml::Text("\u{a0} =2".to_string()));
    assert!(matches!(d.kind, DepKind::Registry { pinned: true, .. }));
    let d = classify("x", &Toml::Text(">=2".to_string()));
    assert!(matches!(d.kind, DepKind::Registry { pinned: false, .. }));
}

#[test]
fn tables_are_collected_one_after_another() {
    let mut out: Vec<Dependency> = Vec::new();
    let first = vec![("x".to_string(), Toml::Text("1".to_string()))];
    let second = vec![
        ("x".to_string(), table("git = 'g'")),
        ("w".to_string(), Toml::Boolean(false)),
    ];
    collect_deps(&first, &mut out);
    collect_deps(&second, &mut out);
    assert_eq!(dep_names(&out), vec!["w", "x"]);
    assert!(matches!(out[1].kind, DepKind::Git));
}

#[test]
fn a_manifest_error_tells_what_the_parser_says() {
    let err = parse_manifest_str("a = ").unwrap_err();
    assert_eq!(err.message(), "invalid TOML in manifest");
    let full = err.full_message();
    assert!(full.starts_with("invalid TOML in manifest: TOML parse error at line 1"));
}
