//! The errors of the library, and the exit status they may carry.
use vstd::prelude::*;

verus! {

/// How a process ended: the exit code it returned, or none when it was
/// ended by a signal.
#[derive(Debug, Clone, Copy, PartialEq, Eq)]
pub struct ExitStatus {
    pub code: Option<i32>,
}

impl ExitStatus {
    /// A process succeeded when it returned the exit code zero.
    pub open spec fn is_success(self) -> bool {
        self.code == Some(0i32)
    }

    /// Whether the process returned the exit code zero.
    pub fn success(&self) -> (ok: bool)
        ensures
            ok == self.is_success(),
    {
        match self.code {
            Some(code) => code == 0,
            None => false,
        }
    }

    /// Whether the process returned exactly this exit code.
    pub fn has_code(&self, wanted: i32) -> (same: bool)
        ensures
            same == (self.code == Some(wanted)),
    {
        match self.code {
            Some(code) => code == wanted,
            None => false,
        }
    }
}

/// Why a process could not be started: the error code of the operating
/// system, where it gave one, and the error in words.
#[derive(Debug, Clone, PartialEq, Eq)]
pub struct SpawnFailure {
    pub os_code: Option<i32>,
    pub message: String,
}

/// What can go wrong when git is asked about a work tree, or when a path is
/// brought into the work tree.
#[derive(Debug, Clone, PartialEq, Eq)]
pub enum GitToolingError {
    /// The path is not inside a work tree.
    NotAGitRepository { path: Vec<u8> },
    /// A `..` of the path leads above the point where it starts.
    PathEscapesRepository { path: Vec<u8> },
    /// The path is absolute or empty where a relative one is required.
    NonRelativePath { path: Vec<u8> },
    /// Git ran and did not return the exit code zero.
    GitCommand { command: String, status: ExitStatus, stderr: String },
    /// What git wrote is not UTF-8; `valid_up_to` bytes of it are.
    GitOutputUtf8 { command: String, valid_up_to: usize },
    /// Git could not be started.
    Io { os_code: Option<i32>, message: String },
}

/// The mathematical value of a [`GitToolingError`].
pub ghost enum ErrorView {
    NotAGitRepository { path: Seq<u8> },
    PathEscapesRepository { path: Seq<u8> },
    NonRelativePath { path: Seq<u8> },
    GitCommand { command: Seq<char>, status: ExitStatus, stderr: Seq<char> },
    GitOutputUtf8 { command: Seq<char>, valid_up_to: usize },
    Io { os_code: Option<i32>, message: Seq<char> },
}

impl View for GitToolingError {
    type V = ErrorView;

    open spec fn view(&self) -> ErrorView {
        match self {
            GitToolingError::NotAGitRepository { path } => ErrorView::NotAGitRepository {
                path: path@,
            },
            GitToolingError::PathEscapesRepository { path } => ErrorView::PathEscapesRepository {
                path: path@,
            },
            GitToolingError::NonRelativePath { path } => ErrorView::NonRelativePath { path: path@ },
            GitToolingError::GitCommand { command, status, stderr } => ErrorView::GitCommand {
                command: command@,
                status: *status,
                stderr: stderr@,
            },
            GitToolingError::GitOutputUtf8 { command, valid_up_to } => ErrorView::GitOutputUtf8 {
                command: command@,
                valid_up_to: *valid_up_to,
            },
            GitToolingError::Io { os_code, message } => ErrorView::Io {
                os_code: *os_code,
                message: message@,
            },
        }
    }
}

} // verus!
