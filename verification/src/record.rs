//! The records that the remote store keeps of a package, a version and a
//! repository: how the properties asked for change the record that is there,
//! and whether the record is then to be created, updated or left alone.

use vstd::prelude::*;
use vstd::string::StringExecFns;
use crate::error::ResourceError;
use crate::order::{sort_ascending, sorted_ascending};
use crate::text::{clone_optional, same_optional, same_optional_strings};

verus! {

/// What to do with a record on the remote store.
#[derive(Debug, Clone, Copy, PartialEq, Eq, Structural)]
pub enum RecordAction {
    /// Create the record.
    Create,
    /// Update the record.
    Update,
    /// Leave the record as it is.
    Keep,
}

/// What to do with the record of a package or a version: create it where it
/// is missing, update it where the properties asked for change it.
pub fn record_action(present: bool, changed: bool) -> (r: RecordAction)
    ensures
        r == if !present {
            RecordAction::Create
        } else if changed {
            RecordAction::Update
        } else {
            RecordAction::Keep
        },
{
    if !present {
        RecordAction::Create
    } else if changed {
        RecordAction::Update
    } else {
        RecordAction::Keep
    }
}

/// What to do with the record of a repository: nothing where the properties
/// asked for change nothing, not even where the repository is missing; else
/// update it where it is there and create it where it is not.
pub fn repository_action(present: bool, changed: bool) -> (r: RecordAction)
    ensures
        r == if !changed {
            RecordAction::Keep
        } else if present {
            RecordAction::Update
        } else {
            RecordAction::Create
        },
{
    if !changed {
        RecordAction::Keep
    } else if present {
        RecordAction::Update
    } else {
        RecordAction::Create
    }
}

/// Files are published to a repository that is there: a missing repository
/// is an error.
pub fn require_repository(present: bool, repository: &str) -> (r: Result<(), ResourceError>)
    ensures
        match r {
            Ok(_) => present,
            Err(e) => !present && e is RepositoryNotFound && e->repository@ == repository@,
        },
{
    if present {
        Ok(())
    } else {
        Err(ResourceError::RepositoryNotFound { repository: String::from_str(repository) })
    }
}

/// The value asked for, or the one that is there where none is asked for.
pub open spec fn chosen<T>(requested: Option<T>, current: Option<T>) -> Option<T> {
    if requested is Some {
        requested
    } else {
        current
    }
}

/// `list` is `of` in ascending order: both are missing, or they hold the same
/// names and `list` is sorted.
pub open spec fn is_sorted_form(list: Option<Seq<Seq<char>>>, of: Option<Seq<Seq<char>>>) -> bool {
    match (list, of) {
        (Some(sorted), Some(given)) => sorted.to_multiset() == given.to_multiset()
            && sorted_ascending(sorted),
        (None, None) => true,
        _ => false,
    }
}

/// The text asked for, or the one that is there.
pub fn text_or(requested: &Option<String>, current: &Option<String>) -> (r: Option<String>)
    ensures
        r.deep_view() == chosen(requested.deep_view(), current.deep_view()),
{
    match requested {
        Some(text) => Some(text.clone()),
        None => clone_optional(current),
    }
}

/// The switch asked for, or the one that is there.
pub fn flag_or(requested: Option<bool>, current: bool) -> (r: bool)
    ensures
        r == match requested {
            Some(flag) => flag,
            None => current,
        },
{
    match requested {
        Some(flag) => flag,
        None => current,
    }
}

/// The list asked for, or the one that is there, in ascending order.
pub fn sorted_list_or(requested: &Option<Vec<String>>, current: &Option<Vec<String>>) -> (r:
    Option<Vec<String>>)
    ensures
        is_sorted_form(r.deep_view(), chosen(requested.deep_view(), current.deep_view())),
{
    match requested {
        Some(list) => Some(sort_ascending(list)),
        None => match current {
            Some(list) => Some(sort_ascending(list)),
            None => None,
        },
    }
}

/// The record of a package.
#[derive(Debug, Clone, PartialEq, Eq)]
pub struct PackageRecord {
    pub desc: Option<String>,
    pub labels: Option<Vec<String>>,
    pub public_download_numbers: bool,
    pub public_stats: bool,
    pub licenses: Option<Vec<String>>,
    pub custom_licenses: Option<Vec<String>>,
    pub website_url: Option<String>,
    pub issue_tracker_url: Option<String>,
    pub vcs_url: Option<String>,
    pub github_repo: Option<String>,
    pub github_release_notes_file: Option<String>,
}

/// The properties asked for of a package.
#[derive(Debug, Clone, PartialEq, Eq)]
pub struct PackageProps {
    pub desc: Option<String>,
    pub labels: Option<Vec<String>>,
    pub public_download_numbers: Option<bool>,
    pub public_stats: Option<bool>,
    pub licenses: Option<Vec<String>>,
    pub custom_licenses: Option<Vec<String>>,
    pub website_url: Option<String>,
    pub issue_tracker_url: Option<String>,
    pub vcs_url: Option<String>,
    pub github_repo: Option<String>,
    pub github_release_notes_file: Option<String>,
}

/// The model of a `PackageRecord`.
pub struct PackageRecordView {
    pub desc: Option<Seq<char>>,
    pub labels: Option<Seq<Seq<char>>>,
    pub public_download_numbers: bool,
    pub public_stats: bool,
    pub licenses: Option<Seq<Seq<char>>>,
    pub custom_licenses: Option<Seq<Seq<char>>>,
    pub website_url: Option<Seq<char>>,
    pub issue_tracker_url: Option<Seq<char>>,
    pub vcs_url: Option<Seq<char>>,
    pub github_repo: Option<Seq<char>>,
    pub github_release_notes_file: Option<Seq<char>>,
}

impl DeepView for PackageRecord {
    type V = PackageRecordView;

    open spec fn deep_view(&self) -> PackageRecordView {
        PackageRecordView {
            desc: self.desc.deep_view(),
            labels: self.labels.deep_view(),
            public_download_numbers: self.public_download_numbers,
            public_stats: self.public_stats,
            licenses: self.licenses.deep_view(),
            custom_licenses: self.custom_licenses.deep_view(),
            website_url: self.website_url.deep_view(),
            issue_tracker_url: self.issue_tracker_url.deep_view(),
            vcs_url: self.vcs_url.deep_view(),
            github_repo: self.github_repo.deep_view(),
            github_release_notes_file: self.github_release_notes_file.deep_view(),
        }
    }
}

/// The record of a version, and likewise the properties asked for of one.
#[derive(Debug, Clone, PartialEq, Eq)]
pub struct VersionRecord {
    pub desc: Option<String>,
    pub released: Option<String>,
    pub vcs_tag: Option<String>,
    pub github_release_notes_file: Option<String>,
    pub github_use_tag_release_notes: Option<bool>,
}

/// The model of a `VersionRecord`.
pub struct VersionRecordView {
    pub desc: Option<Seq<char>>,
    pub released: Option<Seq<char>>,
    pub vcs_tag: Option<Seq<char>>,
    pub github_release_notes_file: Option<Seq<char>>,
    pub github_use_tag_release_notes: Option<bool>,
}

impl DeepView for VersionRecord {
    type V = VersionRecordView;

    open spec fn deep_view(&self) -> VersionRecordView {
        VersionRecordView {
            desc: self.desc.deep_view(),
            released: self.released.deep_view(),
            vcs_tag: self.vcs_tag.deep_view(),
            github_release_notes_file: self.github_release_notes_file.deep_view(),
            github_use_tag_release_notes: self.github_use_tag_release_notes,
        }
    }
}

/// The record of a repository.
#[derive(Debug, Clone, PartialEq, Eq)]
pub struct RepositoryRecord {
    pub private: bool,
    pub business_unit: Option<String>,
    pub desc: Option<String>,
    pub labels: Option<Vec<String>>,
    pub gpg_sign_metadata: bool,
    pub gpg_sign_files: bool,
    pub gpg_use_owner_key: bool,
    pub yum_metadata_depth: Option<u64>,
}

/// The properties asked for of a repository.
#[derive(Debug, Clone, PartialEq, Eq)]
pub struct RepositoryProps {
    pub private: Option<bool>,
    pub business_unit: Option<String>,
    pub desc: Option<String>,
    pub labels: Option<Vec<String>>,
    pub gpg_sign_metadata: Option<bool>,
    pub gpg_sign_files: Option<bool>,
    pub gpg_use_owner_key: Option<bool>,
    pub yum_metadata_depth: Option<u64>,
}

/// The model of a `RepositoryRecord`.
pub struct RepositoryRecordView {
    pub private: bool,
    pub business_unit: Option<Seq<char>>,
    pub desc: Option<Seq<char>>,
    pub labels: Option<Seq<Seq<char>>>,
    pub gpg_sign_metadata: bool,
    pub gpg_sign_files: bool,
    pub gpg_use_owner_key: bool,
    pub yum_metadata_depth: Option<u64>,
}

impl DeepView for RepositoryRecord {
    type V = RepositoryRecordView;

    open spec fn deep_view(&self) -> RepositoryRecordView {
        RepositoryRecordView {
            private: self.private,
            business_unit: self.business_unit.deep_view(),
            desc: self.desc.deep_view(),
            labels: self.labels.deep_view(),
            gpg_sign_metadata: self.gpg_sign_metadata,
            gpg_sign_files: self.gpg_sign_files,
            gpg_use_owner_key: self.gpg_use_owner_key,
            yum_metadata_depth: self.yum_metadata_depth,
        }
    }
}

/// The record of a package once the properties asked for are applied: each
/// property asked for replaces what is there, and the lists come out in
/// ascending order, also those that were not asked for.
pub fn update_package(current: &PackageRecord, props: &PackageProps) -> (r: PackageRecord)
    ensures
        r.desc.deep_view() == chosen(props.desc.deep_view(), current.desc.deep_view()),
        is_sorted_form(
            r.labels.deep_view(),
            chosen(props.labels.deep_view(), current.labels.deep_view()),
        ),
        r.public_download_numbers == match props.public_download_numbers {
            Some(flag) => flag,
            None => current.public_download_numbers,
        },
        r.public_stats == match props.public_stats {
            Some(flag) => flag,
            None => current.public_stats,
        },
        is_sorted_form(
            r.licenses.deep_view(),
            chosen(props.licenses.deep_view(), current.licenses.deep_view()),
        ),
        is_sorted_form(
            r.custom_licenses.deep_view(),
            chosen(props.custom_licenses.deep_view(), current.custom_licenses.deep_view()),
        ),
        r.website_url.deep_view() == chosen(
            props.website_url.deep_view(),
            current.website_url.deep_view(),
        ),
        r.issue_tracker_url.deep_view() == chosen(
            props.issue_tracker_url.deep_view(),
            current.issue_tracker_url.deep_view(),
        ),
        r.vcs_url.deep_view() == chosen(props.vcs_url.deep_view(), current.vcs_url.deep_view()),
        r.github_repo.deep_view() == chosen(
            props.github_repo.deep_view(),
            current.github_repo.deep_view(),
        ),
        r.github_release_notes_file.deep_view() == chosen(
            props.github_release_notes_file.deep_view(),
            current.github_release_notes_file.deep_view(),
        ),
{
    PackageRecord {
        desc: text_or(&props.desc, &current.desc),
        labels: sorted_list_or(&props.labels, &current.labels),
        public_download_numbers: flag_or(
            props.public_download_numbers,
            current.public_download_numbers,
        ),
        public_stats: flag_or(props.public_stats, current.public_stats),
        licenses: sorted_list_or(&props.licenses, &current.licenses),
        custom_licenses: sorted_list_or(&props.custom_licenses, &current.custom_licenses),
        website_url: text_or(&props.website_url, &current.website_url),
        issue_tracker_url: text_or(&props.issue_tracker_url, &current.issue_tracker_url),
        vcs_url: text_or(&props.vcs_url, &current.vcs_url),
        github_repo: text_or(&props.github_repo, &current.github_repo),
        github_release_notes_file: text_or(
            &props.github_release_notes_file,
            &current.github_release_notes_file,
        ),
    }
}

/// Whether two package records hold the same.
pub fn same_package(a: &PackageRecord, b: &PackageRecord) -> (r: bool)
    ensures
        r == (a.deep_view() == b.deep_view()),
{
    same_optional(&a.desc, &b.desc) && same_optional_strings(&a.labels, &b.labels)
        && a.public_download_numbers == b.public_download_numbers && a.public_stats
        == b.public_stats && same_optional_strings(
        &a.licenses,
        &b.licenses,
    ) && same_optional_strings(&a.custom_licenses, &b.custom_licenses) && same_optional(
        &a.website_url,
        &b.website_url,
    ) && same_optional(&a.issue_tracker_url, &b.issue_tracker_url) && same_optional(
        &a.vcs_url,
        &b.vcs_url,
    ) && same_optional(&a.github_repo, &b.github_repo) && same_optional(
        &a.github_release_notes_file,
        &b.github_release_notes_file,
    )
}

/// The record of a version once the properties asked for are applied: each
/// property asked for replaces what is there.
pub fn update_version(current: &VersionRecord, props: &VersionRecord) -> (r: VersionRecord)
    ensures
        r.deep_view() == (VersionRecordView {
            desc: chosen(props.desc.deep_view(), current.desc.deep_view()),
            released: chosen(props.released.deep_view(), current.released.deep_view()),
            vcs_tag: chosen(props.vcs_tag.deep_view(), current.vcs_tag.deep_view()),
            github_release_notes_file: chosen(
                props.github_release_notes_file.deep_view(),
                current.github_release_notes_file.deep_view(),
            ),
            github_use_tag_release_notes: chosen(
                props.github_use_tag_release_notes,
                current.github_use_tag_release_notes,
            ),
        }),
{
    VersionRecord {
        desc: text_or(&props.desc, &current.desc),
        released: text_or(&props.released, &current.released),
        vcs_tag: text_or(&props.vcs_tag, &current.vcs_tag),
        github_release_notes_file: text_or(
            &props.github_release_notes_file,
            &current.github_release_notes_file,
        ),
        github_use_tag_release_notes: match props.github_use_tag_release_notes {
            Some(flag) => Some(flag),
            None => current.github_use_tag_release_notes,
        },
    }
}

/// Whether two version records hold the same.
pub fn same_version(a: &VersionRecord, b: &VersionRecord) -> (r: bool)
    ensures
        r == (a.deep_view() == b.deep_view()),
{
    let flags = match a.github_use_tag_release_notes {
        Some(x) => match b.github_use_tag_release_notes {
            Some(y) => x == y,
            None => false,
        },
        None => b.github_use_tag_release_notes.is_none(),
    };
    same_optional(&a.desc, &b.desc) && same_optional(&a.released, &b.released) && same_optional(
        &a.vcs_tag,
        &b.vcs_tag,
    ) && same_optional(&a.github_release_notes_file, &b.github_release_notes_file) && flags
}

/// The record of a repository once the properties asked for are applied:
/// each property asked for replaces what is there, and the labels come out in
/// ascending order, also where none were asked for.
pub fn update_repository(current: &RepositoryRecord, props: &RepositoryProps) -> (r:
    RepositoryRecord)
    ensures
        r.private == match props.private {
            Some(flag) => flag,
            None => current.private,
        },
        r.business_unit.deep_view() == chosen(
            props.business_unit.deep_view(),
            current.business_unit.deep_view(),
        ),
        r.desc.deep_view() == chosen(props.desc.deep_view(), current.desc.deep_view()),
        is_sorted_form(
            r.labels.deep_view(),
            chosen(props.labels.deep_view(), current.labels.deep_view()),
        ),
        r.gpg_sign_metadata == match props.gpg_sign_metadata {
            Some(flag) => flag,
            None => current.gpg_sign_metadata,
        },
        r.gpg_sign_files == match props.gpg_sign_files {
            Some(flag) => flag,
            None => current.gpg_sign_files,
        },
        r.gpg_use_owner_key == match props.gpg_use_owner_key {
            Some(flag) => flag,
            None => current.gpg_use_owner_key,
        },
        r.yum_metadata_depth == chosen(props.yum_metadata_depth, current.yum_metadata_depth),
{
    RepositoryRecord {
        private: flag_or(props.private, current.private),
        business_unit: text_or(&props.business_unit, &current.business_unit),
        desc: text_or(&props.desc, &current.desc),
        labels: sorted_list_or(&props.labels, &current.labels),
        gpg_sign_metadata: flag_or(props.gpg_sign_metadata, current.gpg_sign_metadata),
        gpg_sign_files: flag_or(props.gpg_sign_files, current.gpg_sign_files),
        gpg_use_owner_key: flag_or(props.gpg_use_owner_key, current.gpg_use_owner_key),
        yum_metadata_depth: match props.yum_metadata_depth {
            Some(depth) => Some(depth),
            None => current.yum_metadata_depth,
        },
    }
}

/// Whether two repository records hold the same.
pub fn same_repository(a: &RepositoryRecord, b: &RepositoryRecord) -> (r: bool)
    ensures
        r == (a.deep_view() == b.deep_view()),
{
    let depth = match a.yum_metadata_depth {
        Some(x) => match b.yum_metadata_depth {
            Some(y) => x == y,
            None => false,
        },
        None => b.yum_metadata_depth.is_none(),
    };
    a.private == b.private && same_optional(&a.business_unit, &b.business_unit) && same_optional(
        &a.desc,
        &b.desc,
    ) && same_optional_strings(&a.labels, &b.labels) && a.gpg_sign_metadata == b.gpg_sign_metadata
        && a.gpg_sign_files == b.gpg_sign_files && a.gpg_use_owner_key == b.gpg_use_owner_key
        && depth
}

} // verus!
