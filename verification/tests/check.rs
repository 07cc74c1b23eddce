use cargo_aged::{
    classify_dep, locked_versions_from_str, parse_manifest_str, run_check, skip_without_lookup,
    stable_versions, write_status, Check, DepKind, DepStatus, Dependency, Facts, Line, LookupError,
    SkipReason, Timestamp, VersionInfo,
};
use chrono::{DateTime, Duration, Utc};

fn stamp(time: DateTime<Utc>) -> Timestamp {
    Timestamp::new(time.timestamp(), time.timestamp_subsec_nanos()).unwrap()
}

/// The time that a reply gives, which holds whole seconds.
fn iso(time: DateTime<Utc>) -> Timestamp {
    Timestamp::new(time.timestamp(), 0).unwrap()
}

fn day(n: i64) -> Timestamp {
    Timestamp::new(1_700_000_000 + n * 86_400, 0).unwrap()
}

fn facts(listed: Vec<(&str, Timestamp)>, locked: Vec<String>) -> Facts {
    Facts {
        versions: Ok(stable_versions(
            listed
                .into_iter()
                .map(|(num, created_at)| VersionInfo {
                    num: num.to_string(),
                    created_at,
                    yanked: false,
                })
                .collect(),
        )),
        locked,
    }
}

fn registry(name: &str, req: &str, pinned: bool) -> Dependency {
    Dependency {
        name: name.to_string(),
        kind: DepKind::Registry {
            req: req.to_string(),
            pinned,
        },
    }
}

fn shown(lines: &[Line]) -> Vec<String> {
    lines
        .iter()
        .map(|line| match line {
            Line::Stdout(s) => format!("out: {}", s),
            Line::Stderr(s) => format!("err: {}", s),
        })
        .collect()
}

#[test]
fn check_returns_zero_when_all_locked_versions_are_age_eligible() {
    let now = Utc::now();
    let old_a = now - Duration::days(200);
    let old_b = now - Duration::days(150);
    let manifest = r#"
[package]
name = "x"
version = "0.1.0"
[dependencies]
serde = "1.0"
tokio = "1"
"#;
    let lock = r#"
[[package]]
name = "serde"
version = "1.0.100"

[[package]]
name = "tokio"
version = "1.30.0"
"#;
    let deps = parse_manifest_str(manifest).unwrap();
    let found = vec![
        facts(vec![("1.0.100", iso(old_a))], locked_versions_from_str(lock, "serde")),
        facts(vec![("1.30.0", iso(old_b))], locked_versions_from_str(lock, "tokio")),
    ];
    let report = run_check(&deps, &found, 30, false, &stamp(now));
    assert_eq!(report.code, 0);
}

#[test]
fn check_returns_one_when_locked_version_is_too_fresh_and_eligible_exists() {
    let now = Utc::now();
    let old = now - Duration::days(200);
    let fresh = now - Duration::days(5);
    let manifest =
        "[package]\nname = \"x\"\nversion = \"0.1.0\"\n[dependencies]\nserde = \"1.0\"\n";
    let lock = "[[package]]\nname = \"serde\"\nversion = \"1.0.200\"\n";
    let deps = parse_manifest_str(manifest).unwrap();
    let found = vec![facts(
        vec![("1.0.200", iso(fresh)), ("1.0.100", iso(old))],
        locked_versions_from_str(lock, "serde"),
    )];
    let report = run_check(&deps, &found, 30, false, &stamp(now));
    assert_eq!(report.code, 1);
}

#[test]
fn check_treats_dep_with_no_eligible_replacement_as_skipped_not_fresh() {
    let now = Utc::now();
    let fresh_a = now - Duration::days(5);
    let fresh_b = now - Duration::days(10);
    let manifest =
        "[package]\nname = \"x\"\nversion = \"0.1.0\"\n[dependencies]\nnewcrate = \"0.2\"\n";
    let lock = "[[package]]\nname = \"newcrate\"\nversion = \"0.2.0\"\n";
    let deps = parse_manifest_str(manifest).unwrap();
    let found = vec![facts(
        vec![("0.2.0", iso(fresh_a)), ("0.1.0", iso(fresh_b))],
        locked_versions_from_str(lock, "newcrate"),
    )];
    let report = run_check(&deps, &found, 30, false, &stamp(now));
    assert_eq!(report.code, 0);
}

#[test]
fn classify_dep_marks_path_dep_as_skipped() {
    let dep = Dependency {
        name: "local".into(),
        kind: DepKind::Path,
    };
    let status = classify_dep(&dep, &facts(vec![], vec![]), 30, &stamp(Utc::now()));
    assert!(matches!(status, DepStatus::Skipped(SkipReason::Path)));
}

#[test]
fn classify_dep_marks_equals_pin_as_skipped() {
    let dep = registry("serde", "=1.0.210", true);
    let status = classify_dep(&dep, &facts(vec![], vec![]), 30, &stamp(Utc::now()));
    assert!(matches!(status, DepStatus::Skipped(SkipReason::Pinned(_))));
}

#[test]
fn classify_dep_marks_locked_eligible_version_as_ok() {
    let now = Utc::now();
    let old = now - Duration::days(200);
    let lock = "[[package]]\nname=\"serde\"\nversion=\"1.0.100\"\n";
    let dep = registry("serde", "1.0", false);
    let found = facts(vec![("1.0.100", iso(old))], locked_versions_from_str(lock, "serde"));
    match classify_dep(&dep, &found, 30, &stamp(now)) {
        DepStatus::Aged { version, .. } => assert_eq!(version, "1.0.100"),
        other => panic!("expected Aged, got {:?}", other),
    }
}

#[test]
fn classify_dep_marks_locked_fresh_version_with_older_eligible_as_fresh() {
    let now = Utc::now();
    let fresh = now - Duration::days(5);
    let old = now - Duration::days(200);
    let lock = "[[package]]\nname=\"serde\"\nversion=\"1.0.200\"\n";
    let dep = registry("serde", "1.0", false);
    let found = facts(
        vec![("1.0.200", iso(fresh)), ("1.0.100", iso(old))],
        locked_versions_from_str(lock, "serde"),
    );
    match classify_dep(&dep, &found, 30, &stamp(now)) {
        DepStatus::Fresh {
            locked_version,
            eligible_top,
            ..
        } => {
            assert_eq!(locked_version, "1.0.200");
            assert_eq!(eligible_top, "1.0.100");
        }
        other => panic!("expected Fresh, got {:?}", other),
    }
}

#[test]
fn each_reason_to_skip_is_found() {
    let now = day(100);
    let dep = registry("x", "1", false);
    assert!(skip_without_lookup(&dep).is_none());
    let git = Dependency {
        name: "g".into(),
        kind: DepKind::Git,
    };
    assert!(matches!(skip_without_lookup(&git), Some(SkipReason::Git)));

    let status = classify_dep(&dep, &facts(vec![], vec![]), 30, &now);
    assert!(matches!(status, DepStatus::Skipped(SkipReason::NoStable)));

    let young = facts(vec![("1", day(90)), ("2", day(71))], vec!["2".into()]);
    let status = classify_dep(&dep, &young, 30, &now);
    assert!(matches!(
        status,
        DepStatus::Skipped(SkipReason::NoEligible { newest_age: 10 })
    ));

    let failed = Facts {
        versions: Err(LookupError::NotFound),
        locked: vec![],
    };
    match classify_dep(&dep, &failed, 30, &now) {
        DepStatus::Skipped(SkipReason::LookupFailed(message)) => {
            assert_eq!(message, "crate not found on crates.io")
        }
        other => panic!("expected LookupFailed, got {:?}", other),
    }
}

#[test]
fn an_age_of_exactly_the_minimum_is_enough() {
    let dep = registry("x", "1", false);
    let found = facts(vec![("2", day(80)), ("1", day(70))], vec!["1".into()]);
    match classify_dep(&dep, &found, 30, &day(100)) {
        DepStatus::Aged { version, age, .. } => {
            assert_eq!(version, "1");
            assert_eq!(age, 30);
        }
        other => panic!("expected Aged, got {:?}", other),
    }
    match classify_dep(&dep, &found, 31, &day(101)) {
        DepStatus::Aged { age, .. } => assert_eq!(age, 31),
        other => panic!("expected Aged, got {:?}", other),
    }
    assert!(matches!(
        classify_dep(&dep, &found, 31, &day(100)),
        DepStatus::Skipped(SkipReason::NoEligible { newest_age: 20 })
    ));
}

#[test]
fn a_locked_version_that_is_not_listed_has_no_age() {
    let dep = registry("x", "1", false);
    let found = facts(vec![("1", day(10))], vec!["0.9".into(), "0.8".into()]);
    let status = classify_dep(&dep, &found, 30, &day(100));
    match &status {
        DepStatus::Fresh {
            locked_version,
            locked_age,
            locked_published,
            eligible_top,
            eligible_top_age,
            ..
        } => {
            assert_eq!(locked_version, "0.9");
            assert!(locked_age.is_none());
            assert!(locked_published.is_none());
            assert_eq!(eligible_top, "1");
            assert_eq!(*eligible_top_age, 90);
        }
        other => panic!("expected Fresh, got {:?}", other),
    }
    assert_eq!(
        shown(&write_status("x", &status, 30, true)),
        vec![
            "out:   ✓ x 0.9                    — ? days old, TOO FRESH (min-age 30)",
            "out:       would pin to x 1 (90 days old, published 2023-11-24T22:13:20+00:00)",
        ]
    );
}

#[test]
fn without_a_lock_entry_a_dependency_is_left_alone() {
    let dep = registry("x", "1", false);
    for listed in [vec![("2", day(95)), ("1", day(10))], vec![("2", day(60))]] {
        let found = facts(listed, vec![]);
        let status = classify_dep(&dep, &found, 30, &day(100));
        assert!(matches!(status, DepStatus::Skipped(SkipReason::NotLocked)));
        assert_eq!(
            shown(&write_status("x", &status, 30, true)),
            vec!["out:   ✗ x                        — not in Cargo.lock, skipping"]
        );
        let report = run_check(&vec![registry("x", "1", false)], &vec![found], 30, false, &day(100));
        assert_eq!(report.code, 0);
    }
}

#[test]
fn what_is_too_fresh_is_locked_and_young() {
    let dep = registry("x", "1", false);
    let listed = vec![("3", day(95)), ("2", day(90)), ("1", day(10))];
    match classify_dep(&dep, &facts(listed, vec!["2".into(), "3".into()]), 30, &day(100)) {
        DepStatus::Fresh {
            locked_version,
            locked_age,
            ..
        } => {
            assert_eq!(locked_version, "2");
            assert_eq!(locked_age, Some(10));
        }
        other => panic!("expected Fresh, got {:?}", other),
    }
}

#[test]
fn a_check_says_how_each_dependency_stands() {
    let now = day(100);
    let deps = vec![
        registry("aged", "1", false),
        registry("fresh", "1", false),
        registry("young", "1", false),
        registry("pin", "=1", true),
        Dependency {
            name: "here".into(),
            kind: DepKind::Path,
        },
        Dependency {
            name: "there".into(),
            kind: DepKind::Git,
        },
        registry("gone", "1", false),
        registry("none", "1", false),
    ];
    let nothing = || facts(vec![], vec![]);
    let found = vec![
        facts(vec![("1.1", day(40)), ("1.0", day(0))], vec!["1.0".into(), "1.1".into()]),
        facts(vec![("2.0", day(95)), ("1.0", day(0))], vec!["2.0".into()]),
        facts(vec![("0.1", day(99))], vec!["0.1".into()]),
        nothing(),
        nothing(),
        nothing(),
        Facts {
            versions: Err(LookupError::Http("500 Internal Server Error".into())),
            locked: vec![],
        },
        nothing(),
    ];
    let report = run_check(&deps, &found, 30, true, &now);
    assert_eq!(
        shown(&report.lines),
        vec![
            "out: Checking 8 dependencies (min-age: 30 days)...",
            "out:   = aged 1.1                 — 60 days old, already age-eligible",
            "out:       (published 2023-12-24T22:13:20+00:00)",
            "out:   ✓ fresh 2.0                — 5 days old, TOO FRESH (min-age 30)",
            "out:       (published 2024-02-17T22:13:20+00:00)",
            "out:       would pin to fresh 1.0 (100 days old, published 2023-11-14T22:13:20+00:00)",
            "out:   ✗ young                    — newest is 1 days old, no age-eligible version, skipping",
            "out:   ✗ pin                      (= =1) pinned  — skipping",
            "out:   ✗ here                     (path dep)    — skipping",
            "out:   ✗ there                    (git dep)     — skipping",
            "err:   ! gone                     crates.io lookup failed (HTTP 500 Internal Server Error) — skipping",
            "err:   ! none                     no stable release found — skipping",
            "out: Check: 1 too fresh, 1 ok, 6 skipped.",
            "err: error: 1 direct dependency(ies) violate min-age of 30 days.",
        ]
    );
    assert_eq!(report.code, 1);

    let quiet = run_check(&deps, &found, 30, false, &now);
    assert_eq!(quiet.lines.len(), 11);
    assert_eq!(quiet.code, 1);
}

#[test]
fn a_check_of_nothing_passes() {
    let report = run_check(&vec![], &vec![], 7, true, &day(0));
    assert_eq!(
        shown(&report.lines),
        vec![
            "out: Checking 0 dependencies (min-age: 7 days)...",
            "out: Check: 0 too fresh, 0 ok, 0 skipped.",
        ]
    );
    assert_eq!(report.code, 0);
}

#[test]
fn a_check_goes_through_its_dependencies() {
    let now = day(100);
    let deps = vec![registry("a", "1", false), registry("b", "1", false), registry("c", "=1", true)];
    let found = vec![
        facts(vec![("1", day(0))], vec!["1".into()]),
        facts(vec![("2", day(99)), ("1", day(0))], vec!["2".into()]),
        facts(vec![], vec![]),
    ];
    let mut step = Check::start(3, 30);
    let mut said = shown(&step.lines);
    let mut asked: Vec<usize> = vec![];
    while let Some(k) = step.check.next() {
        asked.push(k);
        step = step.check.take_facts(&deps[k], &found[k], 30, false, &now);
        said.extend(shown(&step.lines));
    }
    let end = step.check.finish(30);
    said.extend(shown(&end.lines));
    assert_eq!(asked, vec![0, 1, 2]);
    assert_eq!(end.code, 1);
    let whole = run_check(&deps, &found, 30, false, &now);
    assert_eq!(said, shown(&whole.lines));
    assert_eq!(end.code, whole.code);
    assert_eq!(said[4], "out: Check: 1 too fresh, 1 ok, 1 skipped.");
}

#[test]
fn long_labels_are_not_cut() {
    let status = DepStatus::Aged {
        version: "10.20.30-longer".into(),
        age: -1,
        published: day(0),
    };
    assert_eq!(
        shown(&write_status("näme-of-a-package", &status, 0, false)),
        vec!["out:   = näme-of-a-package 10.20.30-longer — -1 days old, already age-eligible"]
    );
    let status = DepStatus::Skipped(SkipReason::Path);
    assert_eq!(
        shown(&write_status("ünï", &status, 0, false)),
        vec!["out:   ✗ ünï                      (path dep)    — skipping"]
    );
}
