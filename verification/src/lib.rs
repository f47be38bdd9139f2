use vstd::prelude::*;

pub mod downloads;
pub mod plan;
pub mod posts;
pub mod text;
pub mod urlparse;

verus! {

/// The failure taxonomy of a run.
///
/// `InvalidInput` is the only recoverable error: a caller re-prompts for a
/// new thread URL. Every other variant aborts the whole run.
#[derive(Clone, Copy, Debug, PartialEq, Eq, Structural)]
pub enum RunError {
    /// The supplied string does not have the accepted thread-URL shape.
    InvalidInput,
    /// The caller-supplied output directory does not exist or is not a directory.
    InvalidOutputPath,
    /// A transport-level failure (DNS, connection, timeout) on either endpoint.
    NetworkError,
    /// The metadata payload does not conform to the expected schema.
    DecodeError,
    /// A directory or file could not be created or written.
    FilesystemError,
}

impl RunError {
    /// Whether this error aborts the whole run; only a malformed URL is
    /// recoverable (by prompting again).
    pub fn is_fatal(&self) -> (r: bool)
        ensures
            r == (*self != RunError::InvalidInput),
    {
        !matches!(self, RunError::InvalidInput)
    }
}

/// Where a run writes its files: the caller-supplied directory, or the
/// process's working directory when none was supplied.
#[derive(Clone, Copy, Debug, PartialEq, Eq, Structural)]
pub enum OutputRoot {
    /// The directory the caller supplied.
    Supplied,
    /// The process's current working directory.
    CurrentDir,
}

/// Resolves the output root before any network activity: a caller-supplied
/// path is used only when it names an existing directory, and a supplied
/// path that does not is fatal; with no supplied path the working directory
/// is used.
pub fn resolve_output_root(supplied: bool, supplied_is_dir: bool) -> (r: Result<
    OutputRoot,
    RunError,
>)
    ensures
        match r {
            Ok(root) => (root == OutputRoot::Supplied <==> supplied) && (supplied
                ==> supplied_is_dir),
            Err(e) => e == RunError::InvalidOutputPath && supplied && !supplied_is_dir,
        },
{
    if supplied {
        if supplied_is_dir {
            Ok(OutputRoot::Supplied)
        } else {
            Err(RunError::InvalidOutputPath)
        }
    } else {
        Ok(OutputRoot::CurrentDir)
    }
}

} // verus!
