use bintray_resource::template::expand_remote_path;

#[test]
fn version_token_is_replaced() {
    assert_eq!(
        expand_remote_path("release/$VERSION/linux", "2.0.0"),
        Ok("release/2.0.0/linux".to_string())
    );
}

#[test]
fn token_inside_a_longer_word_is_left() {
    assert_eq!(
        expand_remote_path("release/$VERSIONX/linux", "2.0.0"),
        Ok("release/$VERSIONX/linux".to_string())
    );
    assert_eq!(expand_remote_path("$VERSION_1", "2.0.0"), Ok("$VERSION_1".to_string()));
    assert_eq!(expand_remote_path("$VERSION9", "2.0.0"), Ok("$VERSION9".to_string()));
}

#[test]
fn token_before_punctuation_is_replaced() {
    assert_eq!(expand_remote_path("pkg-$VERSION-rc", "1.0"), Ok("pkg-1.0-rc".to_string()));
    assert_eq!(expand_remote_path("$VERSION.d", "1.0"), Ok("1.0.d".to_string()));
    assert_eq!(expand_remote_path("$VERSION", "1.0"), Ok("1.0".to_string()));
}

#[test]
fn every_token_is_replaced() {
    assert_eq!(
        expand_remote_path("$VERSION/app-$VERSION", "3.1"),
        Ok("3.1/app-3.1".to_string())
    );
}

#[test]
fn token_is_case_sensitive() {
    assert_eq!(expand_remote_path("a/$version", "1.0"), Ok("a/$version".to_string()));
    assert_eq!(expand_remote_path("a/$Version", "1.0"), Ok("a/$Version".to_string()));
}

#[test]
fn version_is_taken_literally() {
    assert_eq!(expand_remote_path("a/$VERSION", "$1x"), Ok("a/$1x".to_string()));
    assert_eq!(expand_remote_path("a/$VERSION", "${0}"), Ok("a/${0}".to_string()));
}

#[test]
fn expanded_path_is_normalized() {
    assert_eq!(expand_remote_path("/pkg/./$VERSION/", "1.0"), Ok("pkg/1.0".to_string()));
    assert_eq!(expand_remote_path("a/../$VERSION//b", "1.0"), Ok("1.0/b".to_string()));
    assert_eq!(expand_remote_path("", "1.0"), Ok(String::new()));
}

#[test]
fn template_without_token_is_only_normalized() {
    assert_eq!(expand_remote_path("a/b", "1.0"), Ok("a/b".to_string()));
    assert_eq!(expand_remote_path("VERSION", "1.0"), Ok("VERSION".to_string()));
}
