use cargo_aged::{
    cargo_home, find_config_min_age, find_config_min_age_with_home, min_age_in_config, parse_toml,
    read_config_min_age_from_file, read_config_min_age_from_str, require_min_age, resolve_min_age,
    CargoHome, ConfigDir, ConfigError, ConfigFile, ConfigSearch, FileState, ResolveError, HOME_CONFIG,
    HOME_CONFIG_LEGACY, NO_MIN_AGE, PROJECT_CONFIG, PROJECT_CONFIG_LEGACY,
};

const CFG_14: &str = "[registry]\nmin-publish-age = \"14 days\"\n";
const CFG_30: &str = "[registry]\nmin-publish-age = \"30 days\"\n";

fn file(dir: &str, name: &str, contents: Option<&str>) -> ConfigFile {
    ConfigFile {
        source: format!("{}/{}", dir, name),
        state: match contents {
            Some(text) => FileState::Text(text.to_string()),
            None => FileState::Absent,
        },
    }
}

fn project(dir: &str, modern: Option<&str>, legacy: Option<&str>) -> ConfigDir {
    ConfigDir {
        modern: file(dir, PROJECT_CONFIG, modern),
        legacy: file(dir, PROJECT_CONFIG_LEGACY, legacy),
    }
}

fn home(dir: &str, modern: Option<&str>) -> ConfigDir {
    ConfigDir {
        modern: file(dir, HOME_CONFIG, modern),
        legacy: file(dir, HOME_CONFIG_LEGACY, None),
    }
}

#[test]
fn reads_min_publish_age_from_config() {
    let cfg = r#"
[registry]
min-publish-age = "14 days"
"#;
    assert_eq!(read_config_min_age_from_str(cfg, "test").unwrap(), Some(14));
}

#[test]
fn returns_none_when_registry_section_missing() {
    let cfg = r#"
[build]
target = "x86_64-unknown-linux-gnu"
"#;
    assert_eq!(read_config_min_age_from_str(cfg, "test").unwrap(), None);
}

#[test]
fn returns_none_when_registry_present_but_key_missing() {
    let cfg = r#"
[registry]
default = "crates-io"
"#;
    assert_eq!(read_config_min_age_from_str(cfg, "test").unwrap(), None);
}

#[test]
fn errors_when_min_publish_age_is_not_string() {
    let cfg = r#"
[registry]
min-publish-age = 14
"#;
    let err = read_config_min_age_from_str(cfg, "some/path")
        .unwrap_err()
        .message();
    assert!(err.contains("must be a string"));
    assert!(err.contains("some/path"));
}

#[test]
fn errors_on_invalid_duration_string() {
    let cfg = r#"
[registry]
min-publish-age = "gibberish"
"#;
    assert!(read_config_min_age_from_str(cfg, "test").is_err());
}

#[test]
fn errors_on_invalid_toml() {
    assert!(read_config_min_age_from_str("[[[not toml", "test").is_err());
}

#[test]
fn empty_config_returns_none() {
    assert_eq!(read_config_min_age_from_str("", "test").unwrap(), None);
}

#[test]
fn find_config_in_same_directory_as_manifest() {
    let dirs = vec![project("/p", Some(CFG_14), None), project("", None, None)];
    let (days, path) = find_config_min_age_with_home(&dirs, None)
        .unwrap()
        .expect("should find config");
    assert_eq!(days, 14);
    assert!(path.ends_with(".cargo/config.toml"));
}

#[test]
fn find_config_walks_up_to_parent_directory() {
    let dirs = vec![project("/p/subdir", None, None), project("/p", Some(CFG_30), None)];
    let (days, _path) = find_config_min_age_with_home(&dirs, None)
        .unwrap()
        .expect("should find config in parent");
    assert_eq!(days, 30);
}

#[test]
fn nearest_config_wins_over_ancestor() {
    let dirs = vec![project("/p/child", Some(CFG_14), None), project("/p", Some(CFG_30), None)];
    let (days, path) = find_config_min_age_with_home(&dirs, None)
        .unwrap()
        .expect("should find nearest");
    assert_eq!(days, 14);
    assert!(path.contains("child/.cargo"));
}

#[test]
fn falls_back_to_cargo_home_when_no_project_config() {
    let dirs = vec![project("/p", None, None)];
    let (days, path) = find_config_min_age_with_home(&dirs, Some(&home("/home/c", Some(CFG_14))))
        .unwrap()
        .expect("should find in cargo home");
    assert_eq!(days, 14);
    assert!(path.starts_with("/home/c"));
}

#[test]
fn cargo_home_ignored_when_project_config_present() {
    let dirs = vec![project("/p", Some(CFG_14), None)];
    let (days, _) = find_config_min_age_with_home(&dirs, Some(&home("/home/c", Some(CFG_30))))
        .unwrap()
        .expect("project config wins");
    assert_eq!(days, 14);
}

#[test]
fn returns_none_when_no_config_anywhere() {
    let dirs = vec![project("/p", None, None)];
    let found = find_config_min_age_with_home(&dirs, Some(&home("/home/c", None))).unwrap();
    assert!(found.is_none());
}

#[test]
fn config_without_min_publish_age_is_skipped_and_walk_continues() {
    let dirs = vec![
        project(
            "/p/child",
            Some("[build]\ntarget = \"x86_64-unknown-linux-gnu\"\n"),
            None,
        ),
        project("/p", Some(CFG_14), None),
    ];
    let (days, _) = find_config_min_age_with_home(&dirs, None)
        .unwrap()
        .expect("should fall through to ancestor");
    assert_eq!(days, 14);
}

#[test]
fn also_reads_legacy_dot_cargo_config() {
    let dirs = vec![project("/p", None, Some(CFG_14))];
    let (days, path) = find_config_min_age_with_home(&dirs, None)
        .unwrap()
        .expect("should find legacy config");
    assert_eq!(days, 14);
    assert!(path.ends_with(".cargo/config"));
}

#[test]
fn resolve_min_age_uses_cli_when_provided() {
    let search = ConfigSearch {
        ancestors: vec![project("/p", Some(CFG_30), None)],
        home: None,
    };
    let (days, note) = resolve_min_age(Some(7), &search).unwrap().unwrap();
    assert_eq!(days, 7);
    assert!(note.is_none(), "CLI-sourced value should have no note");
}

#[test]
fn resolve_min_age_rejects_negative_cli_value() {
    let search = ConfigSearch {
        ancestors: vec![project("/p", None, None)],
        home: None,
    };
    let err = resolve_min_age(Some(-1), &search).unwrap_err();
    assert!(matches!(err, ResolveError::NegativeFlag(-1)));
    assert_eq!(err.full_message(), "--min-age must be non-negative, got -1");
}

#[test]
fn resolve_min_age_returns_none_when_neither_set() {
    let search = ConfigSearch {
        ancestors: vec![project("/p", None, None)],
        home: None,
    };
    assert!(resolve_min_age(None, &search).unwrap().is_none());
    assert!(NO_MIN_AGE.contains("add `[registry] min-publish-age = \"14 days\"` to"));
}

#[test]
fn a_configured_age_comes_with_its_source() {
    let search = ConfigSearch {
        ancestors: vec![project("/p", None, None)],
        home: Some(home("/home/c", Some(CFG_30))),
    };
    let (days, note) = resolve_min_age(None, &search).unwrap().unwrap();
    assert_eq!(days, 30);
    assert_eq!(
        note.unwrap(),
        "Using min-publish-age = 30 days from /home/c/config.toml ([registry].min-publish-age)"
    );
    let (days, path) = find_config_min_age(&search).unwrap().unwrap();
    assert_eq!(days, 30);
    assert_eq!(path, "/home/c/config.toml");
}

#[test]
fn the_present_name_counts_before_the_older_one() {
    let dirs = vec![project("/p", Some(CFG_14), Some(CFG_30))];
    let (days, _) = find_config_min_age_with_home(&dirs, None).unwrap().unwrap();
    assert_eq!(days, 14);
}

#[test]
fn a_file_at_fault_stops_the_search() {
    let mut near = project("/p/child", None, None);
    near.legacy.state = FileState::Unreadable("permission denied".to_string());
    let dirs = vec![near, project("/p", Some(CFG_14), None)];
    let err = find_config_min_age_with_home(&dirs, None).unwrap_err();
    assert!(matches!(err, ConfigError::Unreadable { .. }));
    assert_eq!(err.message(), "could not read /p/child/.cargo/config");
    assert_eq!(
        err.full_message(),
        "could not read /p/child/.cargo/config: permission denied"
    );

    // A file that is further away than the one that decides is not looked at.
    let mut far = project("/p", None, None);
    far.modern.state = FileState::Unreadable("permission denied".to_string());
    let dirs = vec![project("/p/child", Some(CFG_30), None), far];
    let (days, _) = find_config_min_age_with_home(&dirs, None).unwrap().unwrap();
    assert_eq!(days, 30);
}

#[test]
fn each_config_error_has_its_text() {
    let err = read_config_min_age_from_str("[registry]\nmin-publish-age = 14\n", "c").unwrap_err();
    assert_eq!(
        err.full_message(),
        "[registry].min-publish-age in c must be a string like \"14 days\""
    );
    let err =
        read_config_min_age_from_str("[registry]\nmin-publish-age = 'x days'\n", "c").unwrap_err();
    assert_eq!(err.message(), "in c ([registry].min-publish-age)");
    assert_eq!(
        err.full_message(),
        "in c ([registry].min-publish-age): invalid number \"x\": invalid digit found in string"
    );
    let err = read_config_min_age_from_str("a = ", "c").unwrap_err();
    assert_eq!(err.message(), "invalid TOML in c");
    assert!(err.full_message().starts_with("invalid TOML in c: TOML parse error at line 1"));
    let err = read_config_min_age_from_str(
        "[registry]\nmin-publish-age = '1317624576693539402 weeks'\n",
        "c",
    )
    .unwrap_err();
    assert!(matches!(err, ConfigError::Age { .. }));
    assert_eq!(
        err.full_message(),
        "in c ([registry].min-publish-age): min-publish-age is too large, got 1317624576693539402 weeks"
    );
}

#[test]
fn configs_of_other_shapes_set_nothing() {
    let config = parse_toml("registry = 3").unwrap();
    assert_eq!(min_age_in_config(&config, "c").unwrap(), None);
    let absent = file("/p", PROJECT_CONFIG, None);
    assert_eq!(read_config_min_age_from_file(&absent).unwrap(), None);
    let present = file("/p", PROJECT_CONFIG, Some("[registry]\nmin-publish-age = '2 w'\n"));
    assert_eq!(read_config_min_age_from_file(&present).unwrap(), Some(14));
}

#[test]
fn the_configured_home_goes_before_the_user_home() {
    let both = cargo_home(Some("/c".to_string()), Some("/h".to_string()));
    assert!(matches!(both, Some(CargoHome::Itself(p)) if p == "/c"));
    let user = cargo_home(None, Some("/h".to_string()));
    assert!(matches!(user, Some(CargoHome::InUserHome(p)) if p == "/h"));
    assert!(cargo_home(None, None).is_none());
}

#[test]
fn a_run_needs_a_minimum_age() {
    assert_eq!(require_min_age(None).unwrap_err(), NO_MIN_AGE);
    assert_eq!(require_min_age(Some((7, None))).unwrap(), (7, None));
    assert_eq!(
        require_min_age(Some((0, Some("n".to_string())))).unwrap(),
        (0, Some("n".to_string()))
    );
}
