//! The failure cases of spawning a detached child, each naming the stage
//! that failed.

use vstd::prelude::*;

verus! {

/// Why a spawn did not return a process identifier.
///
/// Every failure is terminal for the one call: nothing is retried. The
/// `detail` fields carry the underlying operating-system error text; they
/// are diagnostic only and no contract speaks of them.
#[derive(Debug)]
pub enum SpawnError {
    /// A path handed in was not valid text.
    InvalidPath,
    /// The launching shell could not be started at all.
    ShellLaunchFailure { detail: String },
    /// The launching shell ran but exited with a failure status; `stderr`
    /// holds what it wrote to its error stream, `status` its exit code
    /// where the system reported one.
    ShellFailure { status: Option<i32>, stderr: String },
    /// The line read back from the shell was not an unsigned number;
    /// `raw` holds that line with surrounding whitespace removed.
    PidParseFailure { raw: String },
    /// The output file could not be opened for appending.
    OutputOpenFailure { detail: String },
    /// The child process could not be created.
    SpawnFailure { detail: String },
    /// The input file could not be read.
    InputReadFailure { detail: String },
    /// Writing the input to the child's standard input failed; the child
    /// was already created and is left to the caller's liveness checks.
    StdinWriteFailure { detail: String },
}

} // verus!
