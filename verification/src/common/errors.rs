//! Common error types used across modules.

use vstd::prelude::*;

verus! {

/// Errors relating to file reading and writing.
#[derive(Clone, Debug)]
pub enum FileError {
    /// Failed to open a file at the given path.
    Open(String),
    /// Failed to read from a file at the given path.
    Read(String),
    /// Failed to create a file at the given path.
    Create(String),
    /// Failed to write to a file at the given path.
    Write(String),
}

/// Errors relating to directory reading and writing.
#[derive(Clone, Debug)]
pub enum DirError {
    /// Failed to create a new directory at the given path.
    Create(String),
}

/// A plain rendering of an error and the chain of errors that caused
/// it, one message per line.
#[derive(Debug)]
pub struct PrettyErrorFormatter {
    /// The messages of the error and its causes, outermost first.
    pub lines: Vec<&'static str>,
}

/// An error that can print itself and its causes as a stack of
/// messages.
pub trait PrettyError {
    /// A formatter holding this error's message stack.
    fn stack(&self) -> PrettyErrorFormatter;
}

impl FileError {
    /// A short description of this error.
    pub fn message(&self) -> (m: &'static str)
        ensures
            self is Open ==> m@ == "failed to open file"@,
            self is Read ==> m@ == "failed to read from file"@,
            self is Create ==> m@ == "failed to create file"@,
            self is Write ==> m@ == "failed to write to file"@,
    {
        match self {
            FileError::Open(_) => "failed to open file",
            FileError::Read(_) => "failed to read from file",
            FileError::Create(_) => "failed to create file",
            FileError::Write(_) => "failed to write to file",
        }
    }
}

impl DirError {
    /// A short description of this error.
    pub fn message(&self) -> (m: &'static str)
        ensures
            m@ == "failed to create directory"@,
    {
        "failed to create directory"
    }
}

impl PrettyError for FileError {
    fn stack(&self) -> PrettyErrorFormatter {
        let mut lines: Vec<&'static str> = Vec::new();
        lines.push(self.message());
        PrettyErrorFormatter { lines }
    }
}

impl PrettyError for DirError {
    fn stack(&self) -> PrettyErrorFormatter {
        let mut lines: Vec<&'static str> = Vec::new();
        lines.push(self.message());
        PrettyErrorFormatter { lines }
    }
}

} // verus!
