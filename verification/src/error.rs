//! The failures that a collection run can meet.

use vstd::prelude::*;

verus! {

#[derive(Debug, Clone, Copy, PartialEq, Eq, Structural)]
pub enum CollectError {
    /// The file's extension is not one of the supported source kinds.
    UnsupportedExtension,
    /// A directory could not be listed; its subtree contributes nothing.
    DirectoryReadFailure,
    /// A file could not be read to its end; what was read before is kept.
    FileReadFailure,
    /// The project path has no final segment to name the project by.
    InvalidProjectPath,
    /// The report file could not be written.
    OutputWriteFailure,
    /// The format selector is not a known one.
    UnsupportedFormat,
}

impl CollectError {
    /// Whether a run goes on after this failure.
    pub open spec fn is_contained(self) -> bool {
        self != CollectError::InvalidProjectPath && self != CollectError::OutputWriteFailure
    }

    /// Whether a run goes on after this failure: all but a bad project path
    /// and a report that cannot be written are contained.
    pub fn contained(&self) -> (r: bool)
        ensures
            r == self.is_contained(),
    {
        match self {
            CollectError::InvalidProjectPath => false,
            CollectError::OutputWriteFailure => false,
            _ => true,
        }
    }

    /// A sentence for the log.
    pub fn message(&self) -> (s: &'static str)
        ensures
            s@ == match self {
                CollectError::UnsupportedExtension => "File extension not recognized or not supported"@,
                CollectError::DirectoryReadFailure => "Can not read directory"@,
                CollectError::FileReadFailure => "Reading file failed"@,
                CollectError::InvalidProjectPath => "Can not get project name from path"@,
                CollectError::OutputWriteFailure => "Can not write result file"@,
                CollectError::UnsupportedFormat => "Result file format not supported"@,
            },
    {
        match self {
            CollectError::UnsupportedExtension => "File extension not recognized or not supported",
            CollectError::DirectoryReadFailure => "Can not read directory",
            CollectError::FileReadFailure => "Reading file failed",
            CollectError::InvalidProjectPath => "Can not get project name from path",
            CollectError::OutputWriteFailure => "Can not write result file",
            CollectError::UnsupportedFormat => "Result file format not supported",
        }
    }
}

} // verus!
