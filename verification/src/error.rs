use vstd::prelude::*;

verus! {

/// Why a path operation was rejected.
#[derive(Clone, Copy, Debug, PartialEq, Eq, Structural)]
pub enum PathError {
    /// The path that was joined onto an anchored path is absolute.
    JoinAbsolute,
    /// The path holds a byte that no path may hold here (NUL, newline, `|`, `"` or `'`).
    InvalidChar,
    /// The path is not absolute although an absolute path was required.
    NotAbsolute,
    /// The path is not in normal form (it holds `.`, `..`, an empty
    /// component, or a trailing separator).
    NotNormalized,
    /// Resolving the path would escape the anchor directory.
    Escape,
}

/// The kind of a failed file operation, reduced to a closed set.
#[derive(Clone, Copy, Debug, PartialEq, Eq, Structural)]
pub enum IoKind {
    NotFound,
    PermissionDenied,
    OutsideBounds,
    NotADirectory,
    Other,
}

/// Everything that can go wrong in this crate.
#[derive(Clone, Debug)]
pub enum Error {
    /// Failed to determine the named directory (for example the user home).
    LocateDir(String),
    /// A directory that the environment builder needs was never set.
    MissingDir(String),
    /// A directory handed to the environment builder is not usable.
    InvalidDir(String, PathError),
    /// The configuration tree could not be loaded.
    ParseError(String),
    /// Walking a directory tree failed; the payload is the walker's message.
    WalkDir(String),
    /// Joining a relative path onto an anchored path failed.
    JoinPath(PathError),
    /// The given path does not have the expected base as a prefix
    /// (base bytes, path bytes).
    PathNotBasedOn(Vec<u8>, Vec<u8>),
    /// A file name could not be extracted from the path.
    GetFileName(Vec<u8>),
    /// The file name is not a valid dotfile: it must start with `.`.
    FileNameNotDotfile(Vec<u8>),
    /// An HTTP call failed (url, message).
    HttpRequest(String, String),
    /// The body of an HTTP response could not be decoded (url, message).
    HttpRequestJson(String, String),
    /// A shell command failed (command, message).
    ShellCommandFailed(String, String),
    /// Output of an external tool did not match its expected grammar.
    UnsupportedFormat(String),
    /// The package names a source kind that resolution does not support.
    UnsupportedPackageSource(String),
    /// The HTTP transport itself reported an error.
    CurlError(String),
}

pub type Result<T, E = Error> = core::result::Result<T, E>;

} // verus!
