use bintray_resource::error::ResourceError;
use bintray_resource::matcher::{file_patterns, matches_any, version_patterns};

fn strings(items: &[&str]) -> Vec<String> {
    items.iter().map(|s| s.to_string()).collect()
}

#[test]
fn any_pattern_may_match() {
    let patterns = strings(&["*.deb", "*.rpm"]);
    assert_eq!(matches_any(&patterns, "app.rpm"), Ok(true));
    assert_eq!(matches_any(&patterns, "app.deb"), Ok(true));
    assert_eq!(matches_any(&patterns, "app.tar.gz"), Ok(false));
}

#[test]
fn no_pattern_matches_nothing() {
    assert_eq!(matches_any(&Vec::new(), "app.rpm"), Ok(false));
}

#[test]
fn recursive_wildcard_matches_at_any_depth() {
    let patterns = file_patterns(&None);
    assert_eq!(patterns, strings(&["**/*"]));
    assert_eq!(matches_any(&patterns, "a.txt"), Ok(true));
    assert_eq!(matches_any(&patterns, "dir/sub/a.txt"), Ok(true));
}

#[test]
fn version_filter_defaults_to_everything() {
    let patterns = version_patterns(&None);
    assert_eq!(patterns, strings(&["*"]));
    assert_eq!(matches_any(&patterns, "1.2.3"), Ok(true));
    let given = version_patterns(&Some(strings(&["1.*", "2.*"])));
    assert_eq!(given, strings(&["1.*", "2.*"]));
}

#[test]
fn empty_path_matches_no_literal_pattern() {
    let patterns = strings(&["a.txt", "dir/b.txt", "]"]);
    assert_eq!(matches_any(&patterns, ""), Ok(false));
}

#[test]
fn literal_pattern_matches_itself_only() {
    let patterns = strings(&["a.txt"]);
    assert_eq!(matches_any(&patterns, "a.txt"), Ok(true));
    assert_eq!(matches_any(&patterns, "b.txt"), Ok(false));
}

#[test]
fn broken_pattern_is_an_error() {
    let patterns = strings(&["a[", "*"]);
    match matches_any(&patterns, "x") {
        Err(ResourceError::InvalidGlob { pattern, reason }) => {
            assert_eq!(pattern, "a[");
            assert!(!reason.is_empty());
        }
        other => panic!("unexpected: {:?}", other),
    }
}

#[test]
fn broken_pattern_after_a_match_is_not_reached() {
    let patterns = strings(&["*", "a["]);
    assert_eq!(matches_any(&patterns, "x"), Ok(true));
}

#[test]
fn triple_star_is_broken() {
    let patterns = strings(&["a***b"]);
    assert!(matches!(matches_any(&patterns, "ab"), Err(ResourceError::InvalidGlob { .. })));
}
