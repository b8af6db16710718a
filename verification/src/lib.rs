//! Launching a long-running child process so that it survives its parent,
//! with its input piped from a file and its output appended to a file.
//!
//! The POSIX mechanism composes one shell command line that pipes the input
//! file into the target binary, backgrounds it immune to hangups, and echoes
//! the backgrounded process identifier; the identifier line is then parsed
//! back into a number. Everything that composes, escapes, validates or
//! parses text lives here and is verified; the process and file handling
//! around it is the caller's.

pub mod command;
pub mod errors;
pub mod escape;
pub mod pid;
pub mod shell;
