//! Error types for the shell's filesystem core.

use vstd::prelude::*;

use crate::strutil::concat_str;

verus! {

/// Top-level error: either an internal invariant violation, or a typed
/// filesystem or session failure.
#[derive(Debug, PartialEq)]
pub enum ShellError {
    Internal(String),
    FileSystem(FileSystemError),
    Session(SessionError),
    ShellNotActive,
}

/// Failures of path-addressed filesystem operations.  Each carries the
/// offending path or name so callers can format a shell-style message.
#[derive(Debug, PartialEq)]
pub enum FileSystemError {
    /// The entry in the file system already exists.  As on Linux, even a
    /// directory reports "File exists".
    EntryAlreadyExists(String),
    NotADirectory(String),
    UserAlreadyExists(String),
    DirectoryNotFound(String),
    IncorrectPath,
    EntryNotFound(String),
    FailedToGetParent,
}

/// Failures of session-level operations.
#[derive(Debug, PartialEq)]
pub enum SessionError {
    UserNotFound,
    NoPreviousWorkingDirectory,
    PreviousWorkingDirectoryDoesNotExist,
}

impl FileSystemError {
    /// The shell-style message for this error.
    pub fn message(&self) -> (r: String)
        ensures
            match self {
                FileSystemError::EntryAlreadyExists(n) => r@ == n@ + ": File exists"@,
                FileSystemError::NotADirectory(n) => r@ == "'"@ + n@ + "': Not a directory"@,
                FileSystemError::UserAlreadyExists(n) => r@ == "User already exists: "@ + n@,
                FileSystemError::DirectoryNotFound(_) => r@ == "Directory not found"@,
                FileSystemError::IncorrectPath => r@ == "Incorrect path"@,
                FileSystemError::EntryNotFound(n) => r@ == "Entry not found: "@ + n@,
                FileSystemError::FailedToGetParent => r@ == "Failed to get parent directory"@,
            },
    {
        match self {
            FileSystemError::EntryAlreadyExists(n) => concat_str(n.as_str(), ": File exists"),
            FileSystemError::NotADirectory(n) => {
                let head = concat_str("'", n.as_str());
                concat_str(head.as_str(), "': Not a directory")
            },
            FileSystemError::UserAlreadyExists(n) => concat_str("User already exists: ", n.as_str()),
            FileSystemError::DirectoryNotFound(_) => "Directory not found".to_owned(),
            FileSystemError::IncorrectPath => "Incorrect path".to_owned(),
            FileSystemError::EntryNotFound(n) => concat_str("Entry not found: ", n.as_str()),
            FileSystemError::FailedToGetParent => "Failed to get parent directory".to_owned(),
        }
    }
}

impl SessionError {
    /// The shell-style message for this error.
    pub fn message(&self) -> (r: String)
        ensures
            match self {
                SessionError::UserNotFound => r@ == "User not found"@,
                SessionError::NoPreviousWorkingDirectory => r@ == "No previous working directory"@,
                SessionError::PreviousWorkingDirectoryDoesNotExist => r@
                    == "Previous working directory does not exist"@,
            },
    {
        match self {
            SessionError::UserNotFound => "User not found".to_owned(),
            SessionError::NoPreviousWorkingDirectory => "No previous working directory".to_owned(),
            SessionError::PreviousWorkingDirectoryDoesNotExist => {
                "Previous working directory does not exist".to_owned()
            },
        }
    }
}

impl ShellError {
    /// The shell-style message for this error.  Filesystem and session
    /// errors pass their own message through unchanged.
    pub fn message(&self) -> (r: String)
        ensures
            match self {
                ShellError::Internal(m) => r@ == "Internal error: "@ + m@,
                ShellError::FileSystem(e) => r@ == e.message_spec(),
                ShellError::Session(e) => r@ == e.message_spec(),
                ShellError::ShellNotActive => r@ == "Shell is not active"@,
            },
    {
        match self {
            ShellError::Internal(m) => concat_str("Internal error: ", m.as_str()),
            ShellError::FileSystem(e) => e.message(),
            ShellError::Session(e) => e.message(),
            ShellError::ShellNotActive => "Shell is not active".to_owned(),
        }
    }
}

impl FileSystemError {
    /// What [`FileSystemError::message`] returns, as a specification.
    pub open spec fn message_spec(&self) -> Seq<char> {
        match self {
            FileSystemError::EntryAlreadyExists(n) => n@ + ": File exists"@,
            FileSystemError::NotADirectory(n) => "'"@ + n@ + "': Not a directory"@,
            FileSystemError::UserAlreadyExists(n) => "User already exists: "@ + n@,
            FileSystemError::DirectoryNotFound(_) => "Directory not found"@,
            FileSystemError::IncorrectPath => "Incorrect path"@,
            FileSystemError::EntryNotFound(n) => "Entry not found: "@ + n@,
            FileSystemError::FailedToGetParent => "Failed to get parent directory"@,
        }
    }
}

impl SessionError {
    /// What [`SessionError::message`] returns, as a specification.
    pub open spec fn message_spec(&self) -> Seq<char> {
        match self {
            SessionError::UserNotFound => "User not found"@,
            SessionError::NoPreviousWorkingDirectory => "No previous working directory"@,
            SessionError::PreviousWorkingDirectoryDoesNotExist => {
                "Previous working directory does not exist"@
            },
        }
    }
}

} // verus!
