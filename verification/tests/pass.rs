use cargo_aged::{
    classify_dep, plan_dep, stable_versions, strip_subcommand, update_args, update_failure, Attempt,
    DepKind, DepStatus, Dependency, Facts, Line, LookupError, Next, Options, Pass, Plan, Progress,
    Run, RunNext, Timestamp, VersionInfo, MAX_ITERATE_PASSES, MAX_UPDATE_ATTEMPTS,
};

fn day(n: i64) -> Timestamp {
    Timestamp::new(1_700_000_000 + n * 86_400, 0).unwrap()
}

fn facts(listed: Vec<(&str, i64)>, locked: Vec<&str>) -> Facts {
    Facts {
        versions: Ok(stable_versions(
            listed
                .into_iter()
                .map(|(num, at)| VersionInfo {
                    num: num.to_string(),
                    created_at: day(at),
                    yanked: false,
                })
                .collect(),
        )),
        locked: locked.into_iter().map(|s| s.to_string()).collect(),
    }
}

fn serde() -> Dependency {
    Dependency {
        name: "serde".into(),
        kind: DepKind::Registry {
            req: "1".into(),
            pinned: false,
        },
    }
}

fn shown(lines: &[Line]) -> Vec<String> {
    lines
        .iter()
        .map(|line| match line {
            Line::Stdout(s) => format!("out: {}", s),
            Line::Stderr(s) => format!("err: {}", s),
        })
        .collect()
}

fn attempt_at(found: &Facts) -> Attempt {
    match plan_dep(&serde(), found, 30, false, false, &day(100)).plan {
        Plan::Update(attempt) => attempt,
        other => panic!("expected Update, got {:?}", other),
    }
}

#[test]
fn the_newest_version_must_be_old_enough() {
    let found = facts(vec![("1.1", 92), ("1.0", 0)], vec!["1.1"]);
    let report = plan_dep(&serde(), &found, 30, false, true, &day(100));
    assert!(matches!(report.plan, Plan::Skip));
    assert_eq!(
        shown(&report.lines),
        vec![
            "out:   ✗ serde 1.1                — 8 days old, skipping",
            "out:       (published 2024-02-14T22:13:20+00:00)",
        ]
    );
}

#[test]
fn what_is_locked_and_old_enough_stays() {
    let found = facts(vec![("1.1", 40), ("1.0", 0)], vec!["1.0"]);
    let report = plan_dep(&serde(), &found, 30, false, false, &day(100));
    assert!(matches!(report.plan, Plan::Skip));
    assert_eq!(
        shown(&report.lines),
        vec!["out:   = serde 1.0                — 100 days old, already age-eligible"]
    );
}

#[test]
fn a_dry_run_only_announces() {
    let found = facts(vec![("1.1", 40), ("1.0", 0)], vec!["0.9"]);
    let report = plan_dep(&serde(), &found, 30, true, true, &day(100));
    assert!(matches!(report.plan, Plan::WouldUpdate));
    assert_eq!(
        shown(&report.lines),
        vec![
            "out:   ✓ serde 1.1                — 60 days old, would update (dry-run)",
            "out:       (published 2023-12-24T22:13:20+00:00)",
        ]
    );
    let report = plan_dep(&serde(), &found, 30, false, false, &day(100));
    assert!(matches!(report.plan, Plan::Update(_)));
    assert_eq!(
        shown(&report.lines),
        vec!["out:   ✓ serde 1.1                — 60 days old, updating..."]
    );
}

#[test]
fn a_pass_leaves_alone_what_is_settled() {
    let found = facts(vec![("1.1", 40)], vec![]);
    let here = Dependency {
        name: "here".into(),
        kind: DepKind::Path,
    };
    let report = plan_dep(&here, &found, 30, false, true, &day(100));
    assert!(matches!(report.plan, Plan::Skip));
    assert_eq!(
        shown(&report.lines),
        vec!["out:   ✗ here                     (path dep)    — skipping"]
    );

    let report = plan_dep(&serde(), &facts(vec![], vec![]), 30, false, true, &day(100));
    assert!(matches!(report.plan, Plan::Skip));
    assert_eq!(
        shown(&report.lines),
        vec!["err:   ! serde                    no stable release found — skipping"]
    );

    let failed = Facts {
        versions: Err(LookupError::RequestFailed("http://h/serde".into())),
        locked: vec![],
    };
    let report = plan_dep(&serde(), &failed, 30, false, true, &day(100));
    assert!(matches!(report.plan, Plan::Skip));
    assert_eq!(
        shown(&report.lines),
        vec![
            "err:   ! serde                    crates.io lookup failed (request to http://h/serde failed) — skipping"
        ]
    );
}

#[test]
fn a_version_that_is_taken_at_once_is_not_announced_again() {
    let attempt = attempt_at(&facts(vec![("1.1", 40), ("1.0", 0)], vec![]));
    assert_eq!(attempt.package(), "serde");
    assert_eq!(attempt.version(), "1.1");
    let report = attempt.report(Ok(()), true);
    assert!(report.lines.is_empty());
    assert!(matches!(report.progress, Progress::Updated));
}

#[test]
fn older_versions_are_tried_in_turn() {
    let attempt = attempt_at(&facts(vec![("1.2", 50), ("1.1", 40), ("1.0", 0)], vec!["0.1"]));
    let report = attempt.report(Err("no".into()), true);
    assert_eq!(
        shown(&report.lines),
        vec![
            "err:       cargo update failed for serde 1.2: no",
            "out:     → retrying with serde 1.1 (60 days old)...",
        ]
    );
    let attempt = match report.progress {
        Progress::Again(attempt) => attempt,
        other => panic!("expected Again, got {:?}", other),
    };
    assert_eq!(attempt.version(), "1.1");
    let report = attempt.report(Ok(()), false);
    assert_eq!(shown(&report.lines), vec!["out:     ✓ pinned serde 1.1 (60 days old)"]);
    assert!(matches!(report.progress, Progress::Updated));
}

#[test]
fn an_attempt_gives_up_after_the_last_version() {
    let attempt = attempt_at(&facts(vec![("1.1", 40)], vec![]));
    let report = attempt.report(Err("no".into()), false);
    assert_eq!(
        shown(&report.lines),
        vec![
            "err:     ! no compatible age-eligible version for serde (tried all 1 eligible versions)",
            "err:       last error: no",
        ]
    );
    assert!(matches!(report.progress, Progress::GaveUp));
}

#[test]
fn only_so_many_versions_are_tried() {
    let found = facts(
        vec![("7", 7), ("6", 6), ("5", 5), ("4", 4), ("3", 3), ("2", 2), ("1", 1)],
        vec![],
    );
    let mut attempt = attempt_at(&found);
    let mut tried: Vec<String> = vec![];
    let last = loop {
        tried.push(attempt.version().to_string());
        let report = attempt.report(Err(format!("no {}", tried.len())), false);
        match report.progress {
            Progress::Again(next) => attempt = next,
            Progress::GaveUp => break report.lines,
            Progress::Updated => panic!("nothing was taken"),
        }
    };
    assert_eq!(tried, vec!["7", "6", "5", "4", "3"]);
    assert_eq!(tried.len(), MAX_UPDATE_ATTEMPTS);
    assert_eq!(
        shown(&last),
        vec![
            "err:     ! no compatible age-eligible version for serde (tried 5 of 7 eligible versions; increase MAX_UPDATE_ATTEMPTS to try more)",
            "err:       last error: no 5",
        ]
    );
}

#[test]
fn a_moved_dependency_is_not_moved_again() {
    let attempt = attempt_at(&facts(vec![("1.2", 50), ("1.1", 40)], vec!["1.3"]));
    let version = attempt.version().to_string();
    let found = facts(vec![("1.2", 50), ("1.1", 40)], vec![version.as_str()]);
    for later in [100, 101, 1000] {
        let report = plan_dep(&serde(), &found, 30, false, false, &day(later));
        assert!(matches!(report.plan, Plan::Skip));
    }
}

#[test]
fn what_would_be_moved_is_too_fresh_if_it_is_locked() {
    let found = facts(vec![("1.2", 50), ("1.1", 40)], vec!["1.3"]);
    assert_eq!(attempt_at(&found).version(), "1.2");
    match classify_dep(&serde(), &found, 30, &day(100)) {
        DepStatus::Fresh { eligible_top, .. } => assert_eq!(eligible_top, "1.2"),
        other => panic!("expected Fresh, got {:?}", other),
    }
}

fn named(name: &str) -> Dependency {
    Dependency {
        name: name.into(),
        kind: DepKind::Registry {
            req: "1".into(),
            pinned: false,
        },
    }
}

#[test]
fn a_pass_goes_through_its_dependencies() {
    let now = day(100);
    let deps = vec![named("young"), named("moved"), named("stuck")];
    let found = vec![
        facts(vec![("1", 99)], vec![]),
        facts(vec![("2", 50), ("1", 40)], vec![]),
        facts(vec![("1", 40)], vec![]),
    ];
    let step = Pass::start(3, 30);
    assert_eq!(
        shown(&step.lines),
        vec!["out: Checking 3 dependencies (min-age: 30 days)..."]
    );
    let mut pass = step.pass;
    let mut asked: Vec<String> = vec![];
    let counts = loop {
        let step = match pass.next() {
            Next::Facts(k) => {
                asked.push(format!("facts {}", k));
                pass.take_facts(&deps[k], &found[k], 30, false, false, &now)
            }
            Next::Update { name, version } => {
                asked.push(format!("{} {}", name, version));
                let answer = if name == "moved" && version == "1" {
                    Ok(())
                } else {
                    Err("no".to_string())
                };
                pass.take_answer(answer, false)
            }
            Next::End { updated, skipped } => break (updated, skipped),
        };
        pass = step.pass;
    };
    assert_eq!(
        asked,
        vec!["facts 0", "facts 1", "moved 2", "moved 1", "facts 2", "stuck 1"]
    );
    assert_eq!(counts, (1, 2));
}

#[test]
fn a_dry_pass_asks_for_no_update() {
    let found = facts(vec![("2", 50)], vec![]);
    let pass = Pass::start(1, 30).pass;
    assert!(matches!(pass.next(), Next::Facts(0)));
    let step = pass.take_facts(&serde(), &found, 30, true, false, &day(100));
    assert!(matches!(
        step.pass.next(),
        Next::End {
            updated: 1,
            skipped: 0
        }
    ));
    assert!(matches!(
        Pass::start(0, 30).pass.next(),
        Next::End {
            updated: 0,
            skipped: 0
        }
    ));
}

const PLAIN: Options = Options {
    min_age: None,
    dry_run: false,
    verbose: false,
    iterate: false,
    check: false,
};

#[test]
fn a_plain_run_makes_one_pass() {
    for options in [
        PLAIN,
        Options {
            dry_run: true,
            ..PLAIN
        },
    ] {
        let step = Run::start(&options, None);
        assert!(step.lines.is_empty());
        assert!(matches!(step.run.next(), RunNext::Pass));
        let step = step.run.take_pass(1, 2);
        assert_eq!(shown(&step.lines), vec!["out: Summary: 1 updated, 2 skipped."]);
        assert!(matches!(step.run.next(), RunNext::Exit(0)));
    }
}

#[test]
fn a_dry_run_is_not_repeated() {
    let options = Options {
        iterate: true,
        dry_run: true,
        ..PLAIN
    };
    let step = Run::start(&options, Some("from c".into()));
    assert_eq!(
        shown(&step.lines),
        vec![
            "err: note: --iterate has no effect with --dry-run; running a single pass.",
            "out: from c",
        ]
    );
    let step = step.run.take_pass(4, 0);
    assert!(matches!(step.run.next(), RunNext::Exit(0)));
}

#[test]
fn a_run_that_checks_exits_with_the_code_of_the_check() {
    for code in [0, 1] {
        let step = Run::start(&Options { check: true, ..PLAIN }, Some("from c".into()));
        assert_eq!(shown(&step.lines), vec!["out: from c"]);
        assert!(matches!(step.run.next(), RunNext::Check));
        let step = step.run.take_check(code);
        assert!(step.lines.is_empty());
        assert!(matches!(step.run.next(), RunNext::Exit(c) if c == code));
    }
}

#[test]
fn a_run_that_cannot_start_exits_with_one() {
    let step = Run::failed("no manifest");
    assert_eq!(shown(&step.lines), vec!["err: error: no manifest"]);
    assert!(matches!(step.run.next(), RunNext::Exit(1)));
}

#[test]
fn a_repeated_run_ends_once_a_pass_moves_nothing() {
    let step = Run::start(&Options { iterate: true, ..PLAIN }, Some("from c".into()));
    assert_eq!(shown(&step.lines), vec!["out: from c", "out: === Pass 1 ==="]);
    let step = step.run.take_pass(3, 1);
    assert!(matches!(step.run.next(), RunNext::Pass));
    assert_eq!(
        shown(&step.lines),
        vec!["out: Pass 1 summary: 3 updated, 1 skipped.", "out: === Pass 2 ==="]
    );
    let step = step.run.take_pass(0, 4);
    assert!(matches!(step.run.next(), RunNext::Exit(0)));
    assert_eq!(
        shown(&step.lines),
        vec![
            "out: Pass 2 summary: 0 updated, 4 skipped.",
            "out: Converged after 2 pass(es). Total updates applied: 3.",
        ]
    );
}

#[test]
fn a_repeated_run_stops_at_the_cap() {
    let mut step = Run::start(&Options { iterate: true, ..PLAIN }, None);
    let mut passes = 0;
    let code = loop {
        match step.run.next() {
            RunNext::Pass => {
                passes += 1;
                step = step.run.take_pass(usize::MAX, 0);
            }
            RunNext::Exit(code) => break code,
            RunNext::Check => panic!("this is no check"),
        }
    };
    assert_eq!(code, 0);
    assert_eq!(passes, MAX_ITERATE_PASSES);
    let total = usize::MAX as u128 * 10;
    assert_eq!(
        shown(&step.lines),
        vec![
            format!("out: Pass 10 summary: {} updated, 0 skipped.", usize::MAX),
            format!(
                "out: Stopped after 10 passes (cap reached). Total updates applied: {}.",
                total
            ),
        ]
    );
}

fn strings(texts: &[&str]) -> Vec<String> {
    texts.iter().map(|s| s.to_string()).collect()
}

#[test]
fn the_subcommand_is_left_out_of_the_arguments() {
    assert_eq!(
        strip_subcommand(strings(&["cargo-aged", "aged", "--check"])),
        strings(&["cargo-aged", "--check"])
    );
    assert_eq!(
        strip_subcommand(strings(&["cargo-aged", "--check", "aged"])),
        strings(&["cargo-aged", "--check", "aged"])
    );
    assert_eq!(
        strip_subcommand(strings(&["cargo-aged", "aged", "aged"])),
        strings(&["cargo-aged", "aged"])
    );
    assert_eq!(strip_subcommand(strings(&["aged"])), strings(&["aged"]));
    assert_eq!(strip_subcommand(vec![]), strings(&[]));
}

#[test]
fn an_update_is_asked_of_cargo() {
    assert_eq!(
        update_args("serde", "1.0.1"),
        strings(&["update", "-p", "serde", "--precise", "1.0.1", "--manifest-path"])
    );
}

#[test]
fn a_failed_update_is_told_by_its_first_line() {
    assert_eq!(
        update_failure(Some(101), "\n  error: no such version \r\nmore\n"),
        "cargo update exited with status 101: error: no such version"
    );
    assert_eq!(
        update_failure(None, "  \n\t"),
        "cargo update exited with status -1: no stderr output"
    );
    assert_eq!(
        update_failure(Some(-2), "gone"),
        "cargo update exited with status -2: gone"
    );
}
