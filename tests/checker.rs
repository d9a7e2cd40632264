use updates::{CheckStep, UpdateChecker, VersionInfo};

fn listed(versions: &[(&str, bool)]) -> Vec<VersionInfo> {
    versions
        .iter()
        .map(|(num, yanked)| VersionInfo {
            num: num.to_string(),
            created_at: "2024-01-01T00:00:00Z".to_string(),
            yanked: *yanked,
        })
        .collect()
}

fn fresh(versions: &[&str]) -> Option<Vec<VersionInfo>> {
    Some(listed(&versions.iter().map(|v| (*v, false)).collect::<Vec<_>>()))
}

fn newer(running: &str, fetched: Option<Vec<VersionInfo>>) -> Option<String> {
    let mut c = UpdateChecker::new(true);
    c.complete("pkg", running, 1000, fetched).map(|r| r.available_version)
}

#[test]
fn newer_release_found() {
    let mut c = UpdateChecker::new(false);
    let r = c.complete("pkg", "1.0.0", 1000, fresh(&["1.0.0", "1.2.0"])).unwrap();
    assert_eq!(r.available_version, "1.2.0");
    assert_eq!(r.running_version, "1.0.0");
    assert_eq!(r.crate_name, "pkg");
    assert_eq!(r.release_date, Some(1704067200));
}

#[test]
fn prerelease_running_sees_release() {
    assert_eq!(
        newer("1.0.0-alpha.1", fresh(&["1.0.0", "1.0.0-alpha.2", "0.9.0"])),
        Some("1.0.0".to_string())
    );
}

#[test]
fn prerelease_running_sees_prerelease() {
    assert_eq!(
        newer("1.0.0-alpha.1", fresh(&["1.0.0-alpha.2", "0.9.0"])),
        Some("1.0.0-alpha.2".to_string())
    );
}

#[test]
fn release_running_ignores_prereleases() {
    assert_eq!(newer("1.0.0", fresh(&["1.0.0", "1.1.0-beta"])), None);
}

#[test]
fn running_ahead_gets_nothing() {
    assert_eq!(newer("2.0.0", fresh(&["1.9.0"])), None);
    assert_eq!(newer("1.2.0", fresh(&["1.2.0"])), None);
}

#[test]
fn registry_failure_gets_nothing() {
    assert_eq!(newer("1.0.0", None), None);
    assert_eq!(newer("1.0.0", Some(Vec::new())), None);
}

#[test]
fn yanked_versions_are_skipped() {
    assert_eq!(newer("1.0.0", Some(listed(&[("2.0.0", true), ("1.5.0", true)]))), None);
    assert_eq!(
        newer("1.0.0", Some(listed(&[("2.0.0", true), ("1.5.0", false)]))),
        Some("1.5.0".to_string())
    );
}

#[test]
fn highest_wins_whatever_the_order() {
    assert_eq!(newer("1.0.0", fresh(&["1.1.0", "1.10.0", "1.9.0"])), Some("1.10.0".to_string()));
}

#[test]
fn first_listed_wins_among_equals() {
    assert_eq!(newer("0.9", fresh(&["1.0", "1.0.0"])), Some("1.0".to_string()));
    assert_eq!(newer("0.9", fresh(&["1.0.0", "1.0"])), Some("1.0.0".to_string()));
}

#[test]
fn unparsable_release_time_is_absent() {
    let fetched = Some(vec![VersionInfo {
        num: "2.0.0".to_string(),
        created_at: "not a date".to_string(),
        yanked: false,
    }]);
    let mut c = UpdateChecker::new(true);
    let r = c.complete("pkg", "1.0.0", 0, fetched).unwrap();
    assert_eq!(r.release_date, None);
}

#[test]
fn first_check_queries() {
    let c = UpdateChecker::new(false);
    assert!(matches!(c.check("pkg", "1.0.0", 1000), CheckStep::Query { include_prereleases: false }));
    assert!(matches!(
        c.check("pkg", "1.0.0-alpha.1", 1000),
        CheckStep::Query { include_prereleases: true }
    ));
}

fn run(c: &mut UpdateChecker, now: u64, queries: &mut u32) -> Option<String> {
    let r = match c.check("pkg", "1.0.0", now) {
        CheckStep::Cached(r) => r,
        CheckStep::Query { .. } => {
            *queries += 1;
            c.complete("pkg", "1.0.0", now, fresh(&["1.0.0", "1.2.0"]))
        }
    };
    r.map(|u| u.available_version)
}

#[test]
fn second_check_uses_cache() {
    let mut c = UpdateChecker::new(false);
    let mut queries = 0;
    let first = run(&mut c, 1000, &mut queries);
    let second = run(&mut c, 1500, &mut queries);
    assert_eq!(first, Some("1.2.0".to_string()));
    assert_eq!(second, first);
    assert_eq!(queries, 1);
    let third = run(&mut c, 4600, &mut queries);
    assert_eq!(third, first);
    assert_eq!(queries, 2);
}

#[test]
fn bypass_always_queries() {
    let mut c = UpdateChecker::new(true);
    c.complete("pkg", "1.0.0", 1000, fresh(&["1.2.0"]));
    assert!(matches!(c.check("pkg", "1.0.0", 1001), CheckStep::Query { .. }));
    assert_eq!(c.cache().snapshot().len(), 1);
}
