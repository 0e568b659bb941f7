use bintray_resource::check::CheckVersion;
use bintray_resource::error::ResourceError;
use bintray_resource::report::{
    deleted_result, get_out_result, repository_check_result, repository_out_result,
    repository_type, version_for_concourse, OutMetadata, RepositoryVersion,
};

fn entry(name: &str, value: &str) -> OutMetadata {
    OutMetadata { name: name.to_string(), value: value.to_string() }
}

#[test]
fn result_with_release_date() {
    let version = version_for_concourse("1.0", &Some("u".to_string()));
    assert_eq!(version, CheckVersion { version: "1.0".to_string(), updated: Some("u".to_string()) });
    let result = get_out_result(&version, &Some("2017-01-01".to_string()));
    assert_eq!(result.version, version);
    assert_eq!(result.metadata, vec![entry("Release date", "2017-01-01")]);
}

#[test]
fn result_without_release_date() {
    let version = version_for_concourse("1.0", &None);
    let result = get_out_result(&version, &None);
    assert_eq!(result.version, CheckVersion { version: "1.0".to_string(), updated: None });
    assert_eq!(result.metadata, Vec::new());
}

#[test]
fn result_of_a_deletion() {
    let result = deleted_result();
    assert_eq!(result.version, CheckVersion { version: "<DELETED>".to_string(), updated: None });
    assert_eq!(result.metadata, Vec::new());
}

#[test]
fn repository_version_is_its_creation_date() {
    assert_eq!(
        repository_check_result(&Some("2017".to_string())),
        vec![RepositoryVersion { created: "2017".to_string() }]
    );
    assert_eq!(repository_check_result(&None), Vec::new());
}

#[test]
fn repository_result_names_type_and_description() {
    let result =
        repository_out_result(&Some("2017".to_string()), "debian", &Some("packages".to_string()))
            .unwrap();
    assert_eq!(result.version, RepositoryVersion { created: "2017".to_string() });
    assert_eq!(result.metadata, vec![entry("Type", "debian"), entry("Desc.", "packages")]);
    let plain = repository_out_result(&Some("2017".to_string()), "rpm", &None).unwrap();
    assert_eq!(plain.metadata, vec![entry("Type", "rpm")]);
}

#[test]
fn repository_that_was_not_created_has_no_result() {
    assert_eq!(repository_out_result(&None, "debian", &None), None);
}

#[test]
fn repository_type_must_agree() {
    assert_eq!(repository_type(false, "debian", "generic"), Ok("debian".to_string()));
    assert_eq!(repository_type(true, "debian", "debian"), Ok("debian".to_string()));
    let error = repository_type(true, "debian", "rpm").unwrap_err();
    assert_eq!(
        error,
        ResourceError::RepositoryTypeMismatch {
            configured: "debian".to_string(),
            existing: "rpm".to_string(),
        }
    );
    assert_eq!(
        error.message(),
        "The repository type from the configuration (debian) doesn't match the existing repository type (rpm)"
    );
}

#[test]
fn messages_of_pattern_errors_are_their_reasons() {
    let glob = ResourceError::InvalidGlob { pattern: "[".to_string(), reason: "why".to_string() };
    assert_eq!(glob.message(), "why");
    let regex = ResourceError::InvalidRegex { pattern: "(".to_string(), reason: "so".to_string() };
    assert_eq!(regex.message(), "so");
}
