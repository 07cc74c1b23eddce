use cargo_aged::{
    crate_url, is_stable, read_reply, stable_versions, versions_from_reply, LookupError,
    StableVersion, Timestamp, VersionInfo,
};

fn at(text: &str) -> Timestamp {
    let time = chrono::DateTime::parse_from_rfc3339(text).unwrap();
    Timestamp::new(time.timestamp(), time.timestamp_subsec_nanos()).unwrap()
}

fn info(num: &str, created_at: &str, yanked: bool) -> VersionInfo {
    VersionInfo {
        num: num.to_string(),
        created_at: at(created_at),
        yanked,
    }
}

fn fetch(listed: Vec<VersionInfo>) -> Vec<StableVersion> {
    versions_from_reply(200, Some(listed)).unwrap()
}

fn nums(versions: &[StableVersion]) -> Vec<&str> {
    versions.iter().map(|v| v.num.as_str()).collect()
}

#[test]
fn plain_release_is_stable() {
    assert!(is_stable("1.0.0"));
    assert!(is_stable("0.0.1"));
    assert!(is_stable("100.200.300"));
}

#[test]
fn build_metadata_is_still_stable() {
    assert!(is_stable("1.0.0+build.123"));
    assert!(is_stable("1.1.2+spec-1.1.0"));
}

#[test]
fn prerelease_suffix_is_not_stable() {
    assert!(!is_stable("1.0.0-alpha"));
    assert!(!is_stable("1.0.0-beta.1"));
    assert!(!is_stable("2.0.0-rc.1"));
    assert!(!is_stable("1.0.0-0.3.7"));
}

#[test]
fn prerelease_with_build_metadata_is_not_stable() {
    assert!(!is_stable("1.0.0-alpha+build.123"));
    assert!(!is_stable("1.0.0-beta+exp.sha.5114f85"));
}

#[test]
fn further_build_metadata_changes_nothing() {
    for version in ["1.0.0", "1.0.0-rc.1", "1.0.0+a", "1.0.0-rc+a-b"] {
        assert_eq!(is_stable(&format!("{}+x-y", version)), is_stable(version));
    }
}

#[test]
fn days_never_become_fewer() {
    let then = Timestamp::new(1435708799, 1_500_000_000).unwrap();
    let mut last = i64::MIN;
    for secs in [1435622399, 1435708799, 1435795198, 1435795199, 1435795200, 1435881600] {
        let days = Timestamp::new(secs, 600_000_000).unwrap().days_since(&then);
        assert!(days >= last);
        last = days;
    }
    assert_eq!(last, 2);
}

#[test]
fn an_empty_suffix_is_stable() {
    assert!(is_stable("1.0.0-"));
    assert!(is_stable("1.0.0-+b"));
    assert!(!is_stable("1.0.0--"));
    assert!(is_stable(""));
    assert!(is_stable("+-x"));
}

#[test]
fn fetch_returns_stable_versions_sorted_newest_first() {
    let versions = fetch(vec![
        info("1.0.0", "2024-01-01T00:00:00Z", false),
        info("1.0.5", "2024-03-01T00:00:00Z", false),
        info("1.0.3", "2024-02-01T00:00:00Z", false),
    ]);
    assert_eq!(nums(&versions), vec!["1.0.5", "1.0.3", "1.0.0"]);
}

#[test]
fn fetch_filters_out_yanked_versions() {
    let versions = fetch(vec![
        info("1.0.0", "2024-01-01T00:00:00Z", false),
        info("1.0.1", "2024-02-01T00:00:00Z", true),
        info("1.0.2", "2024-03-01T00:00:00Z", false),
    ]);
    assert_eq!(nums(&versions), vec!["1.0.2", "1.0.0"]);
}

#[test]
fn fetch_filters_out_prerelease_versions() {
    let versions = fetch(vec![
        info("1.0.0", "2024-01-01T00:00:00Z", false),
        info("2.0.0-alpha", "2024-02-01T00:00:00Z", false),
        info("2.0.0-rc.1", "2024-03-01T00:00:00Z", false),
        info("1.5.0", "2024-01-15T00:00:00Z", false),
    ]);
    assert_eq!(nums(&versions), vec!["1.5.0", "1.0.0"]);
}

#[test]
fn fetch_keeps_versions_with_build_metadata() {
    let versions = fetch(vec![info("1.1.2+spec-1.1.0", "2025-04-01T00:00:00Z", false)]);
    assert_eq!(versions.len(), 1);
    assert_eq!(versions[0].num, "1.1.2+spec-1.1.0");
}

#[test]
fn fetch_returns_empty_when_all_versions_are_prerelease_or_yanked() {
    let versions = fetch(vec![
        info("0.1.0-alpha", "2024-01-01T00:00:00Z", false),
        info("0.1.0-beta", "2024-01-05T00:00:00Z", false),
        info("0.1.0", "2024-01-10T00:00:00Z", true),
    ]);
    assert!(versions.is_empty());
}

#[test]
fn fetch_returns_empty_when_versions_array_is_empty() {
    assert!(fetch(vec![]).is_empty());
}

#[test]
fn fetch_errors_on_404_crate_not_found() {
    let err = versions_from_reply(404, None).unwrap_err();
    assert!(matches!(err, LookupError::NotFound));
    assert!(err.message().contains("not found"), "unexpected error: {:?}", err);
}

#[test]
fn fetch_errors_on_5xx() {
    let err = versions_from_reply(503, None)
        .unwrap_err()
        .message();
    assert!(err.contains("503") || err.contains("HTTP"), "unexpected: {}", err);
    assert_eq!(err, "HTTP 503 Service Unavailable");
}

#[test]
fn fetch_errors_on_malformed_json() {
    let err = versions_from_reply(200, None).unwrap_err().message();
    assert!(err.contains("JSON") || err.contains("invalid"), "unexpected: {}", err);
    assert_eq!(err, "invalid JSON from crates.io");
}

#[test]
fn fetch_errors_on_unexpected_json_shape() {
    assert!(versions_from_reply(200, None).is_err());
}

#[test]
fn fetch_trims_trailing_slash_from_base_url() {
    assert_eq!(crate_url("http://host/", "foo"), "http://host/foo");
    assert_eq!(crate_url("http://host//", "foo"), "http://host/foo");
    assert_eq!(crate_url("http://host", "foo"), "http://host/foo");
    assert_eq!(crate_url("/", "foo"), "/foo");
}

#[test]
fn the_status_decides_before_the_body() {
    let listed = vec![info("1.0.0", "2024-01-01T00:00:00Z", false)];
    assert!(versions_from_reply(300, Some(listed)).is_err());
    assert!(versions_from_reply(199, Some(vec![])).is_err());
    assert!(versions_from_reply(299, Some(vec![])).is_ok());
    assert!(read_reply(404, "gone", Some(vec![])).is_err());
    let err = read_reply(500, "broken", None).unwrap_err();
    assert_eq!(err.message(), "HTTP broken");
    let err = versions_from_reply(799, None).unwrap_err();
    assert_eq!(err.message(), "HTTP 799 <unknown status code>");
    let err = LookupError::RequestFailed("http://host/foo".to_string());
    assert_eq!(err.message(), "request to http://host/foo failed");
}

#[test]
fn versions_of_one_time_keep_their_order() {
    let versions = stable_versions(vec![
        info("1", "2024-01-01T00:00:00Z", false),
        info("2", "2024-01-01T00:00:00Z", false),
        info("3", "2024-01-01T00:00:00.000000001Z", false),
        info("4", "2023-12-31T23:59:59.999Z", false),
        info("5", "2024-01-01T00:00:00Z", false),
    ]);
    assert_eq!(nums(&versions), vec!["3", "1", "2", "5", "4"]);
    for i in 1..versions.len() {
        assert!(!versions[i - 1].created_at.is_before(&versions[i].created_at));
    }
}

#[test]
fn whole_days_are_cut_off_toward_zero() {
    let now = at("2024-03-01T12:00:00Z");
    assert_eq!(now.days_since(&at("2024-02-01T12:00:00Z")), 29);
    assert_eq!(now.days_since(&at("2024-02-01T12:00:00.000000001Z")), 28);
    assert_eq!(now.days_since(&at("2024-03-02T11:59:59Z")), 0);
    assert_eq!(now.days_since(&at("2024-03-02T12:00:00Z")), -1);
    assert_eq!(now.days_since(&now), 0);
}

#[test]
fn a_leap_second_counts() {
    let leap = Timestamp::new(1435708799, 1_500_000_000).unwrap();
    // 2015-06-30T23:00:00Z and 2015-07-01T23:59:59.5Z.
    let before = Timestamp::new(1435705200, 0).unwrap();
    let after = Timestamp::new(1435795199, 500_000_000).unwrap();
    assert_eq!(leap.days_since(&before), 0);
    assert_eq!(after.days_since(&leap), 0);
    let after = Timestamp::new(1435795200, 500_000_000).unwrap();
    assert_eq!(after.days_since(&leap), 1);
    assert!(before.is_before(&leap));
}

#[test]
fn timestamps_reach_as_far_as_the_calendar() {
    let first = chrono::DateTime::<chrono::Utc>::MIN_UTC.timestamp();
    let last = chrono::DateTime::<chrono::Utc>::MAX_UTC.timestamp();
    let a = Timestamp::new(first, 0).unwrap();
    let b = Timestamp::new(last, 1_999_999_999).unwrap();
    assert!(Timestamp::new(first - 1, 0).is_none());
    assert!(Timestamp::new(last + 1, 0).is_none());
    assert!(Timestamp::new(0, 1_000_000_000).is_none());
    assert!(Timestamp::new(-1, 1_000_000_000).is_some());
    assert!(Timestamp::new(59, 2_000_000_000).is_none());
    assert_eq!(b.days_since(&a), (last - first + 1) / 86_400);
    assert_eq!(a.days_since(&b), -((last - first + 1) / 86_400));
    assert_eq!(at("2024-01-01T00:00:00Z").rfc3339(), "2024-01-01T00:00:00+00:00");
    assert_eq!(at("2024-01-01T00:00:00.25Z").rfc3339(), "2024-01-01T00:00:00.250+00:00");
}
