//! The failures that the library reports.

use vstd::prelude::*;
use vstd::string::StringExecFns;

verus! {

/// Why an operation could not be carried out. Every one of these is fatal to
/// the run that meets it.
#[derive(Debug, Clone, PartialEq, Eq)]
pub enum ResourceError {
    /// A glob pattern has broken syntax.
    InvalidGlob { pattern: String, reason: String },
    /// A regular expression does not compile.
    InvalidRegex { pattern: String, reason: String },
    /// No candidate file name yields a version.
    NoVersion,
    /// The repository exists with another type than the configured one.
    RepositoryTypeMismatch { configured: String, existing: String },
    /// The repository to publish to does not exist.
    RepositoryNotFound { repository: String },
    /// The package to fetch from has no version.
    NoVersions { package: String },
}

/// The text shown where no file name yields a version.
pub open spec fn no_version_text() -> Seq<char> {
    "Failed to determine version from file names"@
}

/// The text shown where the configured repository type is not the existing one.
pub open spec fn type_mismatch_text(configured: Seq<char>, existing: Seq<char>) -> Seq<char> {
    "The repository type from the configuration ("@ + configured
        + ") doesn't match the existing repository type ("@ + existing + ")"@
}

/// The text shown where the repository does not exist.
pub open spec fn repository_not_found_text(repository: Seq<char>) -> Seq<char> {
    "The repository "@ + repository + " doesn't exist"@
}

/// The text shown where the package has no version.
pub open spec fn no_versions_text(package: Seq<char>) -> Seq<char> {
    "The package "@ + package + " has no version"@
}

impl ResourceError {
    /// The text of this failure for the user.
    pub open spec fn text(self) -> Seq<char> {
        match self {
            ResourceError::InvalidGlob { pattern, reason } => reason@,
            ResourceError::InvalidRegex { pattern, reason } => reason@,
            ResourceError::NoVersion => no_version_text(),
            ResourceError::RepositoryTypeMismatch { configured, existing } => type_mismatch_text(
                configured@,
                existing@,
            ),
            ResourceError::RepositoryNotFound { repository } => repository_not_found_text(
                repository@,
            ),
            ResourceError::NoVersions { package } => no_versions_text(package@),
        }
    }

    /// The text of this failure for the user.
    pub fn message(&self) -> (r: String)
        ensures
            r@ == self.text(),
    {
        match self {
            ResourceError::InvalidGlob { pattern, reason } => reason.clone(),
            ResourceError::InvalidRegex { pattern, reason } => reason.clone(),
            ResourceError::NoVersion => String::from_str("Failed to determine version from file names"),
            ResourceError::RepositoryTypeMismatch { configured, existing } => {
                let mut r = String::from_str("The repository type from the configuration (");
                r.append(configured.as_str());
                r.append(") doesn't match the existing repository type (");
                r.append(existing.as_str());
                r.append(")");
                r
            },
            ResourceError::RepositoryNotFound { repository } => {
                let mut r = String::from_str("The repository ");
                r.append(repository.as_str());
                r.append(" doesn't exist");
                r
            },
            ResourceError::NoVersions { package } => {
                let mut r = String::from_str("The package ");
                r.append(package.as_str());
                r.append(" has no version");
                r
            },
        }
    }
}

} // verus!
