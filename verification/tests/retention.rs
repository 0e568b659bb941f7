use bintray_resource::error::ResourceError;
use bintray_resource::retention::{plan_retention, retention_decisions, VersionDecision};

fn strings(items: &[&str]) -> Vec<String> {
    items.iter().map(|s| s.to_string()).collect()
}

fn decision(version: &str, delete: bool) -> VersionDecision {
    VersionDecision { version: version.to_string(), delete }
}

#[test]
fn keep_last_one_of_three() {
    let plan = plan_retention(&strings(&["v3", "v2", "v1"]), ".*", 1);
    assert_eq!(
        plan,
        Ok(vec![decision("v3", false), decision("v2", true), decision("v1", true)])
    );
}

#[test]
fn versions_are_gone_through_from_the_highest_name_down() {
    let plan = plan_retention(&strings(&["v1", "v3", "v2"]), "^v", 2);
    assert_eq!(
        plan,
        Ok(vec![decision("v3", false), decision("v2", false), decision("v1", true)])
    );
}

#[test]
fn names_compare_as_text() {
    let plan = plan_retention(&strings(&["10", "9", "1"]), r"\d", 1);
    assert_eq!(plan, Ok(vec![decision("9", false), decision("10", true), decision("1", true)]));
}

#[test]
fn versions_that_do_not_match_are_kept_and_do_not_count() {
    let plan = plan_retention(&strings(&["1.0", "beta", "0.9", "alpha"]), r"^\d", 1);
    assert_eq!(
        plan,
        Ok(vec![
            decision("beta", false),
            decision("alpha", false),
            decision("1.0", false),
            decision("0.9", true),
        ])
    );
}

#[test]
fn keeping_none_deletes_every_match() {
    let plan = plan_retention(&strings(&["a1", "b", "a2"]), "^a", 0);
    assert_eq!(plan, Ok(vec![decision("b", false), decision("a2", true), decision("a1", true)]));
}

#[test]
fn keeping_more_than_there_are_deletes_nothing() {
    let plan = plan_retention(&strings(&["a1", "a2"]), "^a", 5);
    assert_eq!(plan, Ok(vec![decision("a2", false), decision("a1", false)]));
    let plan = plan_retention(&strings(&["a1", "a2"]), "^a", u64::MAX);
    assert_eq!(plan, Ok(vec![decision("a2", false), decision("a1", false)]));
}

#[test]
fn no_versions_no_decisions() {
    assert_eq!(plan_retention(&Vec::new(), ".*", 1), Ok(Vec::new()));
}

#[test]
fn broken_retention_expression_is_an_error() {
    match plan_retention(&strings(&["v1"]), "v(", 1) {
        Err(ResourceError::InvalidRegex { pattern, reason }) => {
            assert_eq!(pattern, "v(");
            assert!(!reason.is_empty());
        }
        other => panic!("unexpected: {:?}", other),
    }
    assert!(matches!(
        plan_retention(&Vec::new(), "v(", 1),
        Err(ResourceError::InvalidRegex { .. })
    ));
}

#[test]
fn expression_matches_anywhere_in_the_name() {
    let plan = plan_retention(&strings(&["1.0-rc1", "1.0", "0.9-rc2"]), "rc", 0);
    assert_eq!(
        plan,
        Ok(vec![decision("1.0-rc1", true), decision("1.0", false), decision("0.9-rc2", true)])
    );
}

#[test]
fn decisions_count_matches_only() {
    assert_eq!(
        retention_decisions(&vec![true, false, true, true], 2),
        vec![false, false, false, true]
    );
    assert_eq!(retention_decisions(&vec![true, true], 0), vec![true, true]);
    assert_eq!(retention_decisions(&vec![false, false], 0), vec![false, false]);
    assert_eq!(retention_decisions(&Vec::new(), 3), Vec::<bool>::new());
}
