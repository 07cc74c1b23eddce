use cargo_aged::{parse_min_publish_age, read_days, AgeError};

#[test]
fn parses_days_singular_and_plural() {
    assert_eq!(parse_min_publish_age("1 day").unwrap(), 1);
    assert_eq!(parse_min_publish_age("14 days").unwrap(), 14);
    assert_eq!(parse_min_publish_age("0 days").unwrap(), 0);
}

#[test]
fn parses_weeks_singular_and_plural() {
    assert_eq!(parse_min_publish_age("1 week").unwrap(), 7);
    assert_eq!(parse_min_publish_age("2 weeks").unwrap(), 14);
    assert_eq!(parse_min_publish_age("52 weeks").unwrap(), 364);
}

#[test]
fn parses_short_unit_forms() {
    assert_eq!(parse_min_publish_age("30 d").unwrap(), 30);
    assert_eq!(parse_min_publish_age("2 w").unwrap(), 14);
}

#[test]
fn parses_bare_integer_as_days() {
    assert_eq!(parse_min_publish_age("30").unwrap(), 30);
    assert_eq!(parse_min_publish_age("0").unwrap(), 0);
}

#[test]
fn trims_surrounding_whitespace() {
    assert_eq!(parse_min_publish_age("  14 days  ").unwrap(), 14);
    assert_eq!(parse_min_publish_age("\t7 days\n").unwrap(), 7);
}

#[test]
fn accepts_case_insensitive_units() {
    assert_eq!(parse_min_publish_age("14 DAYS").unwrap(), 14);
    assert_eq!(parse_min_publish_age("2 Weeks").unwrap(), 14);
}

#[test]
fn tolerates_multiple_spaces_between_number_and_unit() {
    assert_eq!(parse_min_publish_age("14   days").unwrap(), 14);
}

#[test]
fn rejects_empty_string() {
    assert!(parse_min_publish_age("").is_err());
    assert!(parse_min_publish_age("   ").is_err());
}

#[test]
fn rejects_negative_values() {
    assert!(parse_min_publish_age("-1").is_err());
    assert!(parse_min_publish_age("-7 days").is_err());
}

#[test]
fn rejects_unsupported_unit() {
    let err = parse_min_publish_age("6 months").unwrap_err().message();
    assert!(err.contains("months") || err.contains("unit"));
    assert!(parse_min_publish_age("1 fortnight").is_err());
    assert!(parse_min_publish_age("14 hours").is_err());
}

#[test]
fn rejects_missing_number() {
    assert!(parse_min_publish_age("days").is_err());
    assert!(parse_min_publish_age("abc days").is_err());
}

#[test]
fn rejects_missing_unit_when_not_bare_integer() {
    assert!(parse_min_publish_age("14.5").is_err());
}

#[test]
fn each_age_error_has_its_text() {
    let err = parse_min_publish_age(" \t").unwrap_err();
    assert!(matches!(err, AgeError::Empty));
    assert_eq!(err.full_message(), "empty min-publish-age value");

    let err = parse_min_publish_age("-3").unwrap_err();
    assert!(matches!(err, AgeError::Negative(-3)));
    assert_eq!(err.message(), "min-publish-age must be non-negative, got -3");
    let err = parse_min_publish_age("-9223372036854775808").unwrap_err();
    assert_eq!(
        err.message(),
        "min-publish-age must be non-negative, got -9223372036854775808"
    );

    let err = parse_min_publish_age(" so\"on ").unwrap_err();
    assert!(matches!(err, AgeError::MissingUnit(_)));
    assert_eq!(
        err.message(),
        "expected '<N> <unit>' (e.g. '14 days'), got \" so\\\"on \""
    );

    let err = parse_min_publish_age("abc days").unwrap_err();
    assert_eq!(err.message(), "invalid number \"abc\"");
    assert_eq!(
        err.full_message(),
        "invalid number \"abc\": invalid digit found in string"
    );

    let err = parse_min_publish_age("99999999999999999999 days").unwrap_err();
    assert_eq!(
        err.full_message(),
        "invalid number \"99999999999999999999\": number too large to fit in target type"
    );

    let err = parse_min_publish_age("6 MONTHS").unwrap_err();
    assert!(matches!(err, AgeError::UnsupportedUnit(_)));
    assert_eq!(
        err.full_message(),
        "unsupported unit \"months\" in min-publish-age; expected day(s) or week(s)"
    );
}

#[test]
fn accepts_a_plus_sign_and_unicode_blanks() {
    assert_eq!(parse_min_publish_age("+7").unwrap(), 7);
    assert_eq!(parse_min_publish_age("+7 d").unwrap(), 7);
    assert_eq!(parse_min_publish_age("\u{3000}3\u{2003}weeks\u{a0}").unwrap(), 21);
    // U+200B is no white space.
    assert!(parse_min_publish_age("\u{200b}3 weeks").is_err());
}

#[test]
fn units_fold_like_unicode_text() {
    // The small letter of the Kelvin sign is `k`.
    assert_eq!(parse_min_publish_age("2 wee\u{212a}s").unwrap(), 14);
    assert!(parse_min_publish_age("2 wee\u{212b}s").is_err());
}

#[test]
fn white_space_around_an_age_changes_nothing() {
    for raw in ["14 days", "3 weeks", "5"] {
        let plain = parse_min_publish_age(raw).unwrap();
        let padded = format!(" \n{}\u{2009}\t", raw);
        assert_eq!(parse_min_publish_age(&padded).unwrap(), plain);
        assert!(plain >= 0);
    }
}

#[test]
fn too_many_weeks_are_refused() {
    let err = parse_min_publish_age("1317624576693539402 weeks").unwrap_err();
    assert!(matches!(err, AgeError::TooManyWeeks(1317624576693539402)));
    assert_eq!(
        err.full_message(),
        "min-publish-age is too large, got 1317624576693539402 weeks"
    );
    assert!(parse_min_publish_age("9223372036854775807 w").is_err());
    assert_eq!(
        parse_min_publish_age("1317624576693539401 weeks").unwrap(),
        9223372036854775807
    );
    assert_eq!(
        parse_min_publish_age("1317624576693539402 days").unwrap(),
        1317624576693539402
    );
    assert!(matches!(
        parse_min_publish_age("1317624576693539402 years"),
        Err(AgeError::UnsupportedUnit(_))
    ));
}

#[test]
fn capitals_do_not_matter() {
    for raw in ["14 days", "3 WEEKS", "5 W", "6 D", "7 Day"] {
        let small = raw.to_ascii_lowercase();
        assert_eq!(
            parse_min_publish_age(raw).unwrap(),
            parse_min_publish_age(&small).unwrap()
        );
    }
    assert_eq!(parse_min_publish_age("2 WEE\u{212a}S").unwrap(), 14);
    assert!(parse_min_publish_age("2 D\u{c4}YS").is_err());
    assert!(parse_min_publish_age("2 d\u{c4}ys").is_err());
    assert_eq!(read_days("3", "weeks".into()).unwrap(), 21);
    assert_eq!(read_days("3", "d".into()).unwrap(), 3);
    assert!(matches!(
        read_days("3", "Weeks".into()),
        Err(AgeError::UnsupportedUnit(_))
    ));
}
