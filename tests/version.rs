use updates::{parse_version, standard_release};

#[test]
fn test_standard_release() {
    assert!(standard_release("1.0.0"));
    assert!(standard_release("2.4.1"));
    assert!(!standard_release("1.0.0-alpha"));
    assert!(!standard_release("2.4.1-rc1"));
    assert!(!standard_release("1.1.1-beta.1"));
}

#[test]
fn test_version_parsing() {
    assert!(parse_version("2.4.1") > parse_version("2.4.0"));
    assert!(parse_version("2.4.0") > parse_version("2.4.0-alpha"));
    assert!(parse_version("2.4.1") > parse_version("2.4.0"));
    assert!(parse_version("1.1.1") > parse_version("1.1.0"));
}

#[test]
fn test_prerelease_ordering() {
    assert!(parse_version("1.0.0") > parse_version("1.0.0-rc1"));
    assert!(parse_version("1.0.0-rc2") > parse_version("1.0.0-rc1"));
    assert!(parse_version("1.0.0-beta") < parse_version("1.0.0-rc"));
    assert!(parse_version("1.0.0-alpha") < parse_version("1.0.0-beta"));
}

#[test]
fn standard_release_edge_cases() {
    assert!(standard_release(""));
    assert!(standard_release("..."));
    assert!(standard_release("10.20.30"));
    assert!(!standard_release("1.0.0+build"));
    assert!(!standard_release("1_0"));
    assert!(!standard_release("v1.0"));
    assert!(!standard_release("1.0 "));
}

#[test]
fn release_above_its_prereleases() {
    assert!(parse_version("1.0.0") > parse_version("1.0.0-rc1"));
    assert!(parse_version("1.0.0-rc1") > parse_version("1.0.0-beta"));
    assert!(parse_version("1.0.0-beta") > parse_version("1.0.0-alpha"));
    assert!(parse_version("1.0.0-alpha") > parse_version("1.0.0-dev"));
}

#[test]
fn numeric_order_and_trailing_zeros() {
    assert!(parse_version("2.4.1") > parse_version("2.4.0"));
    assert!(parse_version("1.10.0") > parse_version("1.9.0"));
    assert_eq!(parse_version("1.0"), parse_version("1.0.0"));
    assert_eq!(parse_version("1"), parse_version("1.0.0.0"));
}

#[test]
fn pre_release_synonyms() {
    assert_eq!(parse_version("1.0-pre1"), parse_version("1.0-rc1"));
    assert_eq!(parse_version("1.0-preview1"), parse_version("1.0-rc1"));
    assert_eq!(parse_version("1.0-c1"), parse_version("1.0-rc1"));
}

#[test]
fn exact_keys() {
    assert_eq!(parse_version("1.0.0-rc1"), vec!["00000001", "*c", "00000001", "*final"]);
    assert_eq!(parse_version("1.0"), vec!["00000001", "*final"]);
    assert_eq!(parse_version("2.4.1"), vec!["00000002", "00000004", "00000001", "*final"]);
    assert_eq!(parse_version("123456789"), vec!["123456789", "*final"]);
    assert_eq!(parse_version("1.0+build"), vec!["00000001", "*build", "*final"]);
    assert_eq!(parse_version("1.0.dev3"), vec!["00000001", "*@", "00000003", "*final"]);
    assert_eq!(parse_version("1-x"), vec!["00000001", "*final-", "*x", "*final"]);
    assert_eq!(parse_version(""), vec!["*final"]);
    assert_eq!(parse_version("+_"), vec!["*final"]);
}

#[test]
fn case_is_ignored() {
    assert_eq!(parse_version("1.0.0-RC1"), parse_version("1.0.0-rc1"));
    assert_eq!(parse_version("1.0.0-Alpha"), vec!["00000001", "*a", "*final"]);
}

#[test]
fn order_is_total_on_examples() {
    let versions = ["1.0", "1.0.0", "1.0.0-rc1", "0.9", "2.0-beta", "1.0+x", ""];
    for a in versions.iter() {
        for b in versions.iter() {
            let (ka, kb) = (parse_version(a), parse_version(b));
            let n = [ka < kb, ka == kb, ka > kb].iter().filter(|x| **x).count();
            assert_eq!(n, 1);
        }
    }
}
