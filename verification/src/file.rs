use vstd::prelude::*;

verus! {

/// Why a file could not be read, as far as the classification goes.
#[derive(Debug, PartialEq, Eq, Structural, Clone, Copy)]
pub enum ReadFailure {
    /// Nothing is at the path.
    NotFound,
    /// A component of the path that should be a directory is none.
    NotADirectory,
    /// The user may not read the file.
    PermissionDenied,
    /// The path leads to a directory.
    IsADirectory,
    /// Anything else.
    Other,
}

/// A failure of reading that is handed on as it came: its kind and its own words.
/// Two of them are equal when they are of the same kind.
#[derive(Debug, Clone)]
pub struct PublicError {
    pub kind: ReadFailure,
    pub message: String,
}

impl PartialEq for PublicError {
    fn eq(&self, other: &Self) -> (equal: bool) {
        self.kind == other.kind
    }
}

impl vstd::std_specs::cmp::PartialEqSpecImpl for PublicError {
    open spec fn obeys_eq_spec() -> bool {
        true
    }

    open spec fn eq_spec(&self, other: &Self) -> bool {
        self.kind == other.kind
    }
}

/// Why the source file could not be had.
#[derive(Debug, PartialEq)]
pub enum FileError {
    FileNotFound { file_name: String, path: String },
    FilePathMalformed { path: String },
    IsADirectory { path: String },
    NotEnoughPermission,
    UnexpectedError(PublicError),
}

/// A `FileError` with its texts as sequences of characters.
pub ghost enum FileErrorView {
    FileNotFound { file_name: Seq<char>, path: Seq<char> },
    FilePathMalformed { path: Seq<char> },
    IsADirectory { path: Seq<char> },
    NotEnoughPermission,
    UnexpectedError { kind: ReadFailure, message: Seq<char> },
}

impl View for FileError {
    type V = FileErrorView;

    open spec fn view(&self) -> FileErrorView {
        match self {
            FileError::FileNotFound { file_name, path } => FileErrorView::FileNotFound {
                file_name: file_name@,
                path: path@,
            },
            FileError::FilePathMalformed { path } => FileErrorView::FilePathMalformed {
                path: path@,
            },
            FileError::IsADirectory { path } => FileErrorView::IsADirectory { path: path@ },
            FileError::NotEnoughPermission => FileErrorView::NotEnoughPermission,
            FileError::UnexpectedError(cause) => FileErrorView::UnexpectedError {
                kind: cause.kind,
                message: cause.message@,
            },
        }
    }
}

/// The error that a failed read of `path` is reported as. `file_name` is the last
/// component of the path, where it has one, and `parent` the path without it. A
/// missing file is reported with both; where the path names no file, the failure
/// is handed on as it came.
pub open spec fn classified(
    kind: ReadFailure,
    message: Seq<char>,
    path: Seq<char>,
    file_name: Option<Seq<char>>,
    parent: Option<Seq<char>>,
) -> FileErrorView {
    match kind {
        ReadFailure::NotFound => match file_name {
            Some(file_name) => FileErrorView::FileNotFound {
                file_name,
                path: match parent {
                    Some(parent) => parent,
                    None => Seq::empty(),
                },
            },
            None => FileErrorView::UnexpectedError { kind, message },
        },
        ReadFailure::NotADirectory => FileErrorView::FilePathMalformed { path },
        ReadFailure::PermissionDenied => FileErrorView::NotEnoughPermission,
        ReadFailure::IsADirectory => FileErrorView::IsADirectory { path },
        ReadFailure::Other => FileErrorView::UnexpectedError { kind, message },
    }
}

/// `Path::file_name` of std on a path given as text: the last component of the
/// path as text, or nothing where the path ends in `..` or has no component.
/// Nothing is claimed of which text comes back.
#[verifier::external_body]
fn get_file_name_string(path: &str) -> (file_name: Option<String>) {
    std::path::Path::new(path).file_name().map(|name| name.to_string_lossy().to_string())
}

/// `Path::parent` of std on a path given as text: the path without its last
/// component as text, or nothing where the path is a root or empty. Nothing is
/// claimed of which text comes back.
#[verifier::external_body]
fn get_ancestor_path(path: &str) -> (parent: Option<String>) {
    std::path::Path::new(path).parent().map(|parent| parent.to_string_lossy().to_string())
}

/// Classifies a failed read of `path`, given the last component of the path and
/// the path without it.
pub fn file_error(
    failure: PublicError,
    path: &str,
    file_name: Option<String>,
    parent: Option<String>,
) -> (error: FileError)
    ensures
        error@ == classified(
            failure.kind,
            failure.message@,
            path@,
            match file_name {
                Some(file_name) => Some(file_name@),
                None => None,
            },
            match parent {
                Some(parent) => Some(parent@),
                None => None,
            },
        ),
{
    match failure.kind {
        ReadFailure::NotFound => match file_name {
            Some(file_name) => FileError::FileNotFound {
                file_name,
                path: match parent {
                    Some(parent) => parent,
                    None => String::new(),
                },
            },
            None => FileError::UnexpectedError(failure),
        },
        ReadFailure::NotADirectory => FileError::FilePathMalformed { path: path.to_owned() },
        ReadFailure::PermissionDenied => FileError::NotEnoughPermission,
        ReadFailure::IsADirectory => FileError::IsADirectory { path: path.to_owned() },
        ReadFailure::Other => FileError::UnexpectedError(failure),
    }
}

/// Classifies a failed read of `path`. The last component of the path and the
/// path without it are taken from the path as std splits it.
pub fn classify_read_failure(failure: PublicError, path: &str) -> (error: FileError)
    ensures
        exists|file_name: Option<Seq<char>>, parent: Option<Seq<char>>|
            error@ == #[trigger] classified(
                failure.kind,
                failure.message@,
                path@,
                file_name,
                parent,
            ),
{
    let file_name = get_file_name_string(path);
    let parent = get_ancestor_path(path);
    file_error(failure, path, file_name, parent)
}

} // verus!
