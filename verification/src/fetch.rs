//! The `in` operation: which files of a remote version to download, and to
//! which local paths.

use vstd::prelude::*;
use vstd::string::StringExecFns;
use crate::error::ResourceError;
use crate::matcher::{
    any_file_pattern,
    effective_patterns,
    file_patterns,
    is_invalid_glob,
    keep_accepted,
    lemma_keep_accepted_error,
    match_outcome,
    matches_any,
};
use crate::path::{relative_path, relative_to};
use crate::text::same_text;

verus! {

/// One file to download: where it is, and where it goes.
#[derive(Debug, Clone, PartialEq, Eq)]
pub struct Download {
    /// The remote path, as the listing has it.
    pub remote: String,
    /// The local path: the remote path made relative to the remote path prefix.
    pub local: String,
}

/// The model of a `Download`.
pub struct DownloadView {
    pub remote: Seq<char>,
    pub local: Seq<char>,
}

impl DeepView for Download {
    type V = DownloadView;

    open spec fn deep_view(&self) -> DownloadView {
        DownloadView { remote: self.remote@, local: self.local@ }
    }
}

/// The name that stands for a version or a package that was deleted.
pub open spec fn deleted_marker() -> Seq<char> {
    "<DELETED>"@
}

/// What matching the remote path `path` against `patterns` comes to: it is
/// matched by its path relative to `prefix`, and does not match where it does
/// not lie under `prefix`.
pub open spec fn file_outcome(
    path: Seq<char>,
    prefix: Seq<char>,
    patterns: Seq<Seq<char>>,
) -> Result<bool, int> {
    match relative_to(path, prefix) {
        Some(relative) => match_outcome(patterns, relative),
        None => Ok(false),
    }
}

/// The download that the remote path `path` would be.
pub open spec fn download_of(path: Seq<char>, prefix: Seq<char>) -> DownloadView {
    DownloadView {
        remote: path,
        local: match relative_to(path, prefix) {
            Some(relative) => relative,
            None => Seq::empty(),
        },
    }
}

/// The downloads among `listing`: its files that lie under `prefix` and whose
/// relative path one of `patterns` matches, in their order.
pub open spec fn downloads(
    listing: Seq<Seq<char>>,
    prefix: Seq<char>,
    patterns: Seq<Seq<char>>,
) -> Result<Seq<DownloadView>, int> {
    keep_accepted(
        listing.map_values(|path: Seq<char>| download_of(path, prefix)),
        listing.map_values(|path: Seq<char>| file_outcome(path, prefix, patterns)),
    )
}

/// Whether `version` is the name that stands for a deleted version, which
/// there is nothing to fetch for.
pub fn is_deleted_marker(version: &str) -> (r: bool)
    ensures
        r == (version@ == deleted_marker()),
{
    same_text(version, "<DELETED>")
}

/// The version to fetch where the pipeline names none: the latest version of
/// the package. A package without any version is an error.
pub fn latest_or_error(latest: Option<String>, package: &str) -> (r: Result<String, ResourceError>)
    ensures
        match r {
            Ok(version) => latest == Some(version),
            Err(e) => latest is None && e is NoVersions && e->package@ == package@,
        },
{
    match latest {
        Some(version) => Ok(version),
        None => Err(ResourceError::NoVersions { package: String::from_str(package) }),
    }
}

/// The path of the remote file `path` relative to `remote_path`, or `None`
/// where it does not lie under it.
pub fn filename_relative_to(path: &str, remote_path: &str) -> (r: Option<String>)
    ensures
        r.deep_view() == relative_to(path@, remote_path@),
{
    relative_path(path, remote_path)
}

/// Whether the remote file `path` lies under `remote_path` and one of `globs`
/// matches its relative path.
pub fn does_file_match_globs(path: &str, remote_path: &str, globs: &Vec<String>) -> (r: Result<
    bool,
    ResourceError,
>)
    ensures
        match r {
            Ok(b) => file_outcome(path@, remote_path@, globs.deep_view()) == Ok::<bool, int>(b),
            Err(e) => file_outcome(path@, remote_path@, globs.deep_view()) matches Err(i) && 0 <= i
                < globs.len() && is_invalid_glob(e, globs.deep_view()[i]),
        },
{
    match filename_relative_to(path, remote_path) {
        Some(filename) => matches_any(globs, filename.as_str()),
        None => Ok(false),
    }
}

/// The files of `listing` to download.
///
/// A file is downloaded where it lies under `remote_path` and the filter
/// matches its path relative to it (every such file where there is no
/// filter); it goes to that relative path.
pub fn select_downloads(
    listing: &Vec<String>,
    remote_path: &str,
    filter: &Option<Vec<String>>,
) -> (r: Result<Vec<Download>, ResourceError>)
    ensures
        match r {
            Ok(chosen) => downloads(
                listing.deep_view(),
                remote_path@,
                effective_patterns(filter.deep_view(), any_file_pattern()),
            ) == Ok::<Seq<DownloadView>, int>(chosen.deep_view()),
            Err(e) => downloads(
                listing.deep_view(),
                remote_path@,
                effective_patterns(filter.deep_view(), any_file_pattern()),
            ) matches Err(i) && 0 <= i < effective_patterns(
                filter.deep_view(),
                any_file_pattern(),
            ).len() && is_invalid_glob(
                e,
                effective_patterns(filter.deep_view(), any_file_pattern())[i],
            ),
        },
{
    let globs = file_patterns(filter);
    let ghost patterns = globs.deep_view();
    let ghost paths = listing.deep_view();
    let ghost items = paths.map_values(|path: Seq<char>| download_of(path, remote_path@));
    let ghost outcomes = paths.map_values(
        |path: Seq<char>| file_outcome(path, remote_path@, patterns),
    );
    let mut chosen: Vec<Download> = Vec::new();
    let mut i: usize = 0;
    proof {
        assert(items.take(0) =~= Seq::<DownloadView>::empty());
        assert(chosen.deep_view() =~= Seq::<DownloadView>::empty());
    }
    while i < listing.len()
        invariant
            i <= listing.len(),
            patterns == globs.deep_view(),
            patterns == effective_patterns(filter.deep_view(), any_file_pattern()),
            paths == listing.deep_view(),
            items == paths.map_values(|path: Seq<char>| download_of(path, remote_path@)),
            outcomes == paths.map_values(
                |path: Seq<char>| file_outcome(path, remote_path@, patterns),
            ),
            keep_accepted(items.take(i as int), outcomes.take(i as int)) == Ok::<
                Seq<DownloadView>,
                int,
            >(chosen.deep_view()),
        decreases listing.len() - i,
    {
        let ghost before = chosen.deep_view();
        proof {
            assert(items.take(i + 1).drop_last() =~= items.take(i as int));
            assert(outcomes.take(i + 1).drop_last() =~= outcomes.take(i as int));
            assert(paths[i as int] == listing[i as int]@);
            assert(items.take(i + 1).last() == download_of(listing[i as int]@, remote_path@));
            assert(outcomes.take(i + 1).last() == file_outcome(
                listing[i as int]@,
                remote_path@,
                patterns,
            ));
        }
        match filename_relative_to(listing[i].as_str(), remote_path) {
            None => {},
            Some(filename) => {
                match matches_any(&globs, filename.as_str()) {
                    Ok(true) => {
                        let download = Download { remote: listing[i].clone(), local: filename };
                        chosen.push(download);
                        proof {
                            assert(chosen.deep_view() =~= before.push(download.deep_view()));
                        }
                    },
                    Ok(false) => {},
                    Err(e) => {
                        proof {
                            lemma_keep_accepted_error(items, outcomes, i + 1);
                        }
                        return Err(e);
                    },
                }
            },
        }
        i = i + 1;
    }
    proof {
        assert(items.take(i as int) =~= items);
        assert(outcomes.take(i as int) =~= outcomes);
    }
    Ok(chosen)
}

} // verus!
