//! The parameters of a run once they are read: texts and lists that may come
//! from a file, the switches of `out` with their defaults, and which of its
//! operations `out` is to carry out.

use vstd::prelude::*;
use crate::text::{clone_strings, trim, trimmed, trimmed_lines, trimmed_lines_of};

verus! {

/// A text that is given itself, or as the contents of a file.
#[derive(Debug, Clone, PartialEq, Eq)]
pub enum TextSource {
    /// The text.
    Literal(String),
    /// The contents of the file that holds the text.
    FileContents(String),
}

/// A list of texts that is given itself, as a single text, or as the contents
/// of a file with one text on each line.
#[derive(Debug, Clone, PartialEq, Eq)]
pub enum ListSource {
    /// The list.
    List(Vec<String>),
    /// The only text of the list.
    Single(String),
    /// The contents of the file that holds the list.
    FileContents(String),
}

/// The text that `source` gives: a literal as it is, file contents trimmed.
pub open spec fn text_of(source: TextSource) -> Seq<char> {
    match source {
        TextSource::Literal(text) => text@,
        TextSource::FileContents(contents) => trimmed(contents@),
    }
}

/// The list that `source` gives: a list as it is, a single text alone, and of
/// file contents every line, trimmed.
pub open spec fn list_of(source: ListSource) -> Seq<Seq<char>> {
    match source {
        ListSource::List(list) => list.deep_view(),
        ListSource::Single(text) => seq![text@],
        ListSource::FileContents(contents) => trimmed_lines(contents@),
    }
}

/// The text that `input` gives.
pub fn from_string_or_file(input: &TextSource) -> (r: String)
    ensures
        r@ == text_of(*input),
{
    match input {
        TextSource::Literal(text) => text.clone(),
        TextSource::FileContents(contents) => trim(contents.as_str()),
    }
}

/// The list that `input` gives.
pub fn from_string_vec_or_file(input: &ListSource) -> (r: Vec<String>)
    ensures
        r.deep_view() == list_of(*input),
{
    match input {
        ListSource::List(list) => clone_strings(list),
        ListSource::Single(text) => {
            let mut r: Vec<String> = Vec::new();
            r.push(text.clone());
            proof {
                assert(r.deep_view() =~= seq![text@]);
            }
            r
        },
        ListSource::FileContents(contents) => trimmed_lines_of(contents.as_str()),
    }
}

/// The switches of `out`.
#[derive(Debug, Clone, Copy, PartialEq, Eq, Structural)]
pub struct OutOptions {
    /// Whether the uploaded files are published.
    pub publish: bool,
    /// Whether an upload may replace a remote file of the same path.
    pub override_existing: bool,
    /// Whether the uploaded files are shown in the download list.
    pub show_in_download_list: bool,
    /// Whether remote files that the run does not upload are left alone.
    pub keep_existing_files: bool,
}

/// The switches of `out`, each with its default where it is not given:
/// publish, override and show in the download list unless told otherwise,
/// and keep existing files only when told so.
pub fn out_options(
    publish: Option<bool>,
    override_existing: Option<bool>,
    show_in_download_list: Option<bool>,
    keep_existing_files: Option<bool>,
) -> (r: OutOptions)
    ensures
        r.publish == (publish != Some(false)),
        r.override_existing == (override_existing != Some(false)),
        r.show_in_download_list == (show_in_download_list != Some(false)),
        r.keep_existing_files == (keep_existing_files == Some(true)),
{
    OutOptions {
        publish: match publish {
            Some(v) => v,
            None => true,
        },
        override_existing: match override_existing {
            Some(v) => v,
            None => true,
        },
        show_in_download_list: match show_in_download_list {
            Some(v) => v,
            None => true,
        },
        keep_existing_files: match keep_existing_files {
            Some(v) => v,
            None => false,
        },
    }
}

/// What `out` is to do.
#[derive(Debug, Clone, Copy, PartialEq, Eq, Structural)]
pub enum OutOperation {
    /// Upload the files and publish the version.
    Publish,
    /// Delete versions of the package, by the retention policy.
    PruneVersions,
    /// Delete the package.
    DeletePackage,
}

/// What `out` is to do: delete the package where that is asked for, else
/// delete versions where that is asked for, else publish.
pub fn out_operation(delete_package: Option<bool>, delete_version: Option<bool>) -> (r:
    OutOperation)
    ensures
        r == if delete_package == Some(true) {
            OutOperation::DeletePackage
        } else if delete_version == Some(true) {
            OutOperation::PruneVersions
        } else {
            OutOperation::Publish
        },
{
    let package = match delete_package {
        Some(v) => v,
        None => false,
    };
    let version = match delete_version {
        Some(v) => v,
        None => false,
    };
    if package {
        OutOperation::DeletePackage
    } else if version {
        OutOperation::PruneVersions
    } else {
        OutOperation::Publish
    }
}

/// How many matching versions the retention policy keeps: the number given,
/// or none.
pub fn keep_last_n(given: Option<u64>) -> (r: u64)
    ensures
        r == match given {
            Some(n) => n,
            None => 0,
        },
{
    match given {
        Some(n) => n,
        None => 0,
    }
}

} // verus!
