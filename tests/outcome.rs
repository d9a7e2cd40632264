use updates::{date_style, DateStyle, UpdateResult};

fn outcome(date: Option<&str>) -> UpdateResult {
    UpdateResult::new(
        "serde".to_string(),
        "1.0.150".to_string(),
        "1.0.200".to_string(),
        date.map(|d| d.to_string()),
    )
}

#[test]
fn new_parses_release_time() {
    let r = outcome(Some("2024-01-01T00:00:00Z"));
    assert_eq!(r.crate_name, "serde");
    assert_eq!(r.running_version, "1.0.150");
    assert_eq!(r.available_version, "1.0.200");
    assert_eq!(r.release_date, Some(1704067200));
}

#[test]
fn new_honours_offset() {
    let r = outcome(Some("2024-01-01T02:00:00+02:00"));
    assert_eq!(r.release_date, Some(1704067200));
}

#[test]
fn new_drops_unparsable_time() {
    assert_eq!(outcome(Some("yesterday")).release_date, None);
    assert_eq!(outcome(None).release_date, None);
}

#[test]
fn describe_without_date() {
    let r = outcome(None);
    assert_eq!(
        r.describe("3 days ago"),
        "Version 1.0.150 of serde is outdated. Version 1.0.200 is available."
    );
}

#[test]
fn describe_with_date() {
    let r = outcome(Some("2024-01-01T00:00:00Z"));
    assert_eq!(
        r.describe("3 days ago"),
        "Version 1.0.150 of serde is outdated. Version 1.0.200 was released 3 days ago."
    );
}

#[test]
fn duplicate_keeps_fields() {
    let r = outcome(Some("2024-01-01T00:00:00Z"));
    let d = r.duplicate();
    assert_eq!(d.crate_name, r.crate_name);
    assert_eq!(d.available_version, r.available_version);
    assert_eq!(d.release_date, r.release_date);
}

#[test]
fn date_styles() {
    assert_eq!(date_style(0), DateStyle::Ago(0));
    assert_eq!(date_style(3600), DateStyle::Ago(3600));
    assert_eq!(date_style(7 * 86400), DateStyle::Ago(7 * 86400));
    assert_eq!(date_style(8 * 86400 - 1), DateStyle::Ago(8 * 86400 - 1));
    assert_eq!(date_style(8 * 86400), DateStyle::Calendar);
    assert_eq!(date_style(-100), DateStyle::Ago(0));
    assert_eq!(date_style(-86399), DateStyle::Ago(0));
    assert_eq!(date_style(-86400), DateStyle::Ahead(86400));
    assert_eq!(date_style(i64::MIN), DateStyle::Ahead(1u64 << 63));
}
