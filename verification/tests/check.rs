use bintray_resource::check::{
    filter_matching_versions, get_check_result, version_match_globs, CheckVersion,
};
use bintray_resource::error::ResourceError;

fn strings(items: &[&str]) -> Vec<String> {
    items.iter().map(|s| s.to_string()).collect()
}

fn version(name: &str) -> CheckVersion {
    CheckVersion { version: name.to_string(), updated: Some(format!("{}-date", name)) }
}

fn versions(names: &[&str]) -> Vec<CheckVersion> {
    names.iter().map(|n| version(n)).collect()
}

#[test]
fn first_check_reports_only_the_last_version() {
    let all = versions(&["1.0", "1.1", "2.0"]);
    assert_eq!(get_check_result(&all, true, &None), Ok(versions(&["2.0"])));
}

#[test]
fn later_check_reports_every_version() {
    let all = versions(&["1.0", "1.1", "2.0"]);
    assert_eq!(get_check_result(&all, false, &None), Ok(all.clone()));
}

#[test]
fn check_of_nothing_reports_nothing() {
    assert_eq!(get_check_result(&Vec::new(), true, &None), Ok(Vec::new()));
    assert_eq!(get_check_result(&Vec::new(), false, &None), Ok(Vec::new()));
}

#[test]
fn version_filter_selects() {
    let all = versions(&["1.0", "1.1", "2.0", "1.2-rc"]);
    let filter = Some(strings(&["1.?", "*-rc"]));
    assert_eq!(get_check_result(&all, false, &filter), Ok(versions(&["1.0", "1.1", "1.2-rc"])));
    assert_eq!(get_check_result(&all, true, &filter), Ok(versions(&["1.2-rc"])));
    let none = Some(strings(&["3.*"]));
    assert_eq!(get_check_result(&all, true, &none), Ok(Vec::new()));
}

#[test]
fn empty_version_filter_selects_nothing() {
    let all = versions(&["1.0"]);
    assert_eq!(get_check_result(&all, false, &Some(Vec::new())), Ok(Vec::new()));
}

#[test]
fn broken_version_filter_is_an_error() {
    let all = versions(&["1.0"]);
    let filter = Some(strings(&["[1"]));
    assert!(matches!(
        get_check_result(&all, false, &filter),
        Err(ResourceError::InvalidGlob { .. })
    ));
    assert_eq!(get_check_result(&Vec::new(), false, &filter), Ok(Vec::new()));
}

#[test]
fn versions_keep_their_dates_and_order() {
    let all = vec![
        CheckVersion { version: "b".to_string(), updated: None },
        CheckVersion { version: "a".to_string(), updated: Some("today".to_string()) },
    ];
    assert_eq!(filter_matching_versions(&all, &strings(&["*"])), Ok(all.clone()));
    assert_eq!(all[1].duplicate(), all[1]);
}

#[test]
fn one_version_against_globs() {
    assert_eq!(version_match_globs("1.2.3", &strings(&["2.*", "1.*"])), Ok(true));
    assert_eq!(version_match_globs("3.0", &strings(&["2.*", "1.*"])), Ok(false));
}
