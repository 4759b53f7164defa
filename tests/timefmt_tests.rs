use mdbook_gitinfo::timefmt::{format_commit_datetime, render_datetime, tz_warning, Timestamp, TzMode, TzWarning};

#[test]
fn tz_mode_parsing() {
    assert_eq!(TzMode::parse(None), TzMode::Local);
    assert_eq!(TzMode::parse(Some(" UTC ")), TzMode::Utc);
    assert_eq!(TzMode::parse(Some("Source")), TzMode::Source);
    assert_eq!(TzMode::parse(Some("local")), TzMode::Local);
    assert_eq!(TzMode::parse(Some("fixed:+05:30")), TzMode::Fixed(19800));
    assert_eq!(TzMode::parse(Some("FIXED:-08:00")), TzMode::Fixed(-28800));
    assert_eq!(TzMode::parse(Some("fixed:05:30")), TzMode::Local);
    assert_eq!(TzMode::parse(Some("fixed:+24:00")), TzMode::Local);
    assert_eq!(TzMode::parse(Some("fixed:+aa:00")), TzMode::Local);
    assert_eq!(TzMode::parse(Some("mars")), TzMode::Local);
}

#[test]
fn fixed_offset_scenario() {
    let r = format_commit_datetime("2026-01-14T00:00:00+00:00", Some("fixed:+05:30"), "%Y-%m-%d", "%H:%M");
    assert_eq!(r, "2026-01-14 05:30");
}

#[test]
fn utc_and_source_modes() {
    let raw = "2026-01-14T10:00:00+02:00";
    assert_eq!(format_commit_datetime(raw, Some("utc"), "%Y-%m-%d", "%H:%M:%S"), "2026-01-14 08:00:00");
    assert_eq!(format_commit_datetime(raw, Some("source"), "%Y-%m-%d", "%H:%M %:z"), "2026-01-14 10:00 +02:00");
}

#[test]
fn unparsable_timestamp_is_unknown() {
    assert_eq!(format_commit_datetime("yesterday", Some("utc"), "%Y", "%H"), "unknown");
    assert_eq!(format_commit_datetime("", None, "%Y", "%H"), "unknown");
}

#[test]
fn empty_time_pattern_is_trimmed() {
    assert_eq!(format_commit_datetime("2026-01-14T10:00:00+00:00", Some("utc"), "%Y-%m-%d", ""), "2026-01-14");
}

#[test]
fn render_with_given_local_offset() {
    let t = Timestamp { secs: 1768348800, nanos: 0, offset: 0 };
    assert_eq!(render_datetime(&t, TzMode::Local, 3600, "%Y-%m-%d", "%H:%M"), "2026-01-14 01:00");
    assert_eq!(render_datetime(&t, TzMode::Fixed(-3600), 0, "%Y-%m-%d", "%H:%M"), "2026-01-13 23:00");
}

#[test]
fn malformed_fixed_offsets_fall_back_to_local() {
    assert_eq!(TzMode::parse(Some(" FIXED:+05:30 ")), TzMode::Fixed(19800));
    assert_eq!(TzMode::parse(Some("fixed:+05:-30")), TzMode::Local);
    assert_eq!(TzMode::parse(Some("fixed:++5:30")), TzMode::Local);
    assert_eq!(TzMode::parse(Some("fixed:+05:90")), TzMode::Local);
    assert_eq!(TzMode::parse(Some("fixed:+5:30")), TzMode::Local);
    assert_eq!(TzMode::parse(Some("fixed:+005:30")), TzMode::Local);
    assert_eq!(TzMode::parse(Some("fixed:+05:30:00")), TzMode::Local);
    assert_eq!(TzMode::parse(Some("fixed:-23:59")), TzMode::Fixed(-86340));
}

#[test]
fn timezone_warnings() {
    assert_eq!(tz_warning(None), None);
    assert_eq!(tz_warning(Some("Local")), None);
    assert_eq!(tz_warning(Some(" utc")), None);
    assert_eq!(tz_warning(Some("SOURCE")), None);
    assert_eq!(tz_warning(Some("fixed:+01:00")), None);
    assert_eq!(tz_warning(Some("fixed:+05:-30")), Some(TzWarning::InvalidFixedOffset));
    assert_eq!(tz_warning(Some("fixed:+24:00")), Some(TzWarning::InvalidFixedOffset));
    assert_eq!(tz_warning(Some("mars")), Some(TzWarning::Unrecognised));
}
