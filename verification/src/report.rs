//! What an operation reports back to the pipeline: the version that it ended
//! on, and a list of named values to show with it.

use vstd::prelude::*;
use vstd::string::StringExecFns;
use crate::check::{CheckVersion, CheckVersionView};
use crate::error::ResourceError;
use crate::fetch::deleted_marker;
use crate::text::{clone_optional, same_text};

verus! {

/// A named value to show with a version.
#[derive(Debug, Clone, PartialEq, Eq)]
pub struct OutMetadata {
    pub name: String,
    pub value: String,
}

/// The model of an `OutMetadata`.
pub struct OutMetadataView {
    pub name: Seq<char>,
    pub value: Seq<char>,
}

impl DeepView for OutMetadata {
    type V = OutMetadataView;

    open spec fn deep_view(&self) -> OutMetadataView {
        OutMetadataView { name: self.name@, value: self.value@ }
    }
}

/// What an operation on a package reports.
#[derive(Debug, Clone, PartialEq, Eq)]
pub struct OutResult {
    pub version: CheckVersion,
    pub metadata: Vec<OutMetadata>,
}

/// The version of a repository as the pipeline knows it: when it was created.
#[derive(Debug, Clone, PartialEq, Eq)]
pub struct RepositoryVersion {
    pub created: String,
}

/// What an operation on a repository reports.
#[derive(Debug, Clone, PartialEq, Eq)]
pub struct RepositoryResult {
    pub version: RepositoryVersion,
    pub metadata: Vec<OutMetadata>,
}

/// The named values of a version: its release date, where it has one.
pub open spec fn version_metadata(released: Option<Seq<char>>) -> Seq<OutMetadataView> {
    match released {
        Some(date) => seq![OutMetadataView { name: "Release date"@, value: date }],
        None => Seq::empty(),
    }
}

/// The named values of a repository: its type, and its description where it
/// has one.
pub open spec fn repository_metadata(
    kind_name: Seq<char>,
    desc: Option<Seq<char>>,
) -> Seq<OutMetadataView> {
    let first = seq![OutMetadataView { name: "Type"@, value: kind_name }];
    match desc {
        Some(text) => first.push(OutMetadataView { name: "Desc."@, value: text }),
        None => first,
    }
}

/// The version `version`, last updated at `updated`, as the pipeline knows it.
pub fn version_for_concourse(version: &str, updated: &Option<String>) -> (r: CheckVersion)
    ensures
        r.deep_view() == (CheckVersionView { version: version@, updated: updated.deep_view() }),
{
    CheckVersion { version: String::from_str(version), updated: clone_optional(updated) }
}

/// What `in` and `out` report of the version that they ended on.
pub fn get_out_result(version: &CheckVersion, released: &Option<String>) -> (r: OutResult)
    ensures
        r.version.deep_view() == version.deep_view(),
        r.metadata.deep_view() == version_metadata(released.deep_view()),
{
    let mut metadata: Vec<OutMetadata> = Vec::new();
    match released {
        Some(date) => {
            let entry = OutMetadata { name: String::from_str("Release date"), value: date.clone() };
            metadata.push(entry);
            proof {
                assert(metadata.deep_view() =~= seq![entry.deep_view()]);
            }
        },
        None => {
            proof {
                assert(metadata.deep_view() =~= Seq::<OutMetadataView>::empty());
            }
        },
    }
    OutResult { version: version.duplicate(), metadata }
}

/// What is reported once a version or a package was deleted: the name that
/// stands for a deleted version, and nothing else.
pub fn deleted_result() -> (r: OutResult)
    ensures
        r.version.deep_view() == (CheckVersionView { version: deleted_marker(), updated: None }),
        r.metadata@.len() == 0,
{
    OutResult {
        version: CheckVersion { version: String::from_str("<DELETED>"), updated: None },
        metadata: Vec::new(),
    }
}

/// What `check` reports of a repository: its version, where it was created.
pub fn repository_check_result(created: &Option<String>) -> (r: Vec<RepositoryVersion>)
    ensures
        match created {
            Some(date) => r@.len() == 1 && r@[0].created@ == date@,
            None => r@.len() == 0,
        },
{
    let mut r: Vec<RepositoryVersion> = Vec::new();
    match created {
        Some(date) => {
            r.push(RepositoryVersion { created: date.clone() });
        },
        None => {},
    }
    r
}

/// What `in` and `out` report of a repository; `None` where the repository
/// was not created yet.
pub fn repository_out_result(
    created: &Option<String>,
    kind_name: &str,
    desc: &Option<String>,
) -> (r: Option<RepositoryResult>)
    ensures
        match r {
            Some(result) => created.deep_view() == Some(result.version.created@)
                && result.metadata.deep_view() == repository_metadata(kind_name@, desc.deep_view()),
            None => created is None,
        },
{
    match created {
        None => None,
        Some(date) => {
            let mut metadata: Vec<OutMetadata> = Vec::new();
            let kind = OutMetadata {
                name: String::from_str("Type"),
                value: String::from_str(kind_name),
            };
            metadata.push(kind);
            proof {
                assert(metadata.deep_view() =~= seq![kind.deep_view()]);
            }
            match desc {
                Some(text) => {
                    let entry = OutMetadata { name: String::from_str("Desc."), value: text.clone() };
                    let ghost before = metadata.deep_view();
                    metadata.push(entry);
                    proof {
                        assert(metadata.deep_view() =~= before.push(entry.deep_view()));
                    }
                },
                None => {},
            }
            Some(RepositoryResult { version: RepositoryVersion { created: date.clone() }, metadata })
        },
    }
}

/// The type that a repository is to have: the configured one where the
/// repository does not exist yet. Where it exists, its type must be the
/// configured one.
pub fn repository_type(present: bool, configured: &str, existing: &str) -> (r: Result<
    String,
    ResourceError,
>)
    ensures
        match r {
            Ok(kind_name) => kind_name@ == configured@ && (present ==> existing@ == configured@),
            Err(e) => present && existing@ != configured@ && e is RepositoryTypeMismatch
                && e->configured@ == configured@ && e->existing@ == existing@,
        },
{
    if !present || same_text(existing, configured) {
        Ok(String::from_str(configured))
    } else {
        Err(
            ResourceError::RepositoryTypeMismatch {
                configured: String::from_str(configured),
                existing: String::from_str(existing),
            },
        )
    }
}

} // verus!
