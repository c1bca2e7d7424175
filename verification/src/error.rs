//! The failures that analysis and placement report.

use vstd::prelude::*;
use vstd::string::*;
use crate::text::{concat2, concat3};

verus! {

/// What went wrong.
#[derive(Clone, Copy, Debug, PartialEq, Eq, Structural)]
pub enum ErrorKind {
    /// The file to inspect does not exist.
    SourceNotFound,
    /// The inspection tool could not be started.
    ToolUnavailable,
    /// The inspection tool failed in a way that is not a known "not a
    /// dynamically linked binary" answer.
    ExtractionFailed,
    /// A library could not be found under any search directory.
    LibraryNotFound,
    /// A path that must have a directory part has none.
    NoParent,
    /// A destination directory could not be created.
    PlacementConflict,
    /// Metadata of a path could not be read.
    Metadata,
    /// Permissions of a path could not be set.
    Permissions,
    /// A symbolic link could not be created.
    Symlink,
    /// Any other file-system operation failed.
    IoFailure,
    /// An answer did not fit the request it was given for.
    Protocol,
}

/// A failure, with the path or library name it concerns.
#[derive(Clone, Debug)]
pub struct Error {
    /// What went wrong.
    pub kind: ErrorKind,
    /// The path or library name concerned.
    pub subject: String,
    /// What the tool or the system said; for a symbolic link, its target.
    pub detail: String,
}

/// The text that `Error::message` gives for a failure.
pub open spec fn message_text(kind: ErrorKind, subject: Seq<char>, detail: Seq<char>) -> Seq<char> {
    match kind {
        ErrorKind::SourceNotFound => "File does not exist: "@ + subject,
        ErrorKind::ToolUnavailable => "readelf command not found - install binutils"@,
        ErrorKind::ExtractionFailed => "readelf failed on "@ + subject + ": "@ + detail,
        ErrorKind::LibraryNotFound => "Could not find library '"@ + subject
            + "' in source (searched lib64, lib, extra paths)"@,
        ErrorKind::NoParent => "Library path has no parent: "@ + subject,
        ErrorKind::PlacementConflict => "Failed to create directory "@ + subject + ": "@ + detail,
        ErrorKind::Metadata => "Failed to read metadata: "@ + subject,
        ErrorKind::Permissions => "Failed to set permissions: "@ + subject,
        ErrorKind::Symlink => "Failed to create symlink "@ + subject + " -> "@ + detail,
        ErrorKind::IoFailure => "I/O failure on "@ + subject + ": "@ + detail,
        ErrorKind::Protocol => "Unexpected answer while working on "@ + subject,
    }
}

impl Error {
    /// A failure of the given kind.
    pub fn new(kind: ErrorKind, subject: &str, detail: &str) -> (e: Error)
        ensures
            e.kind == kind,
            e.subject@ == subject@,
            e.detail@ == detail@,
    {
        Error { kind, subject: String::from_str(subject), detail: String::from_str(detail) }
    }

    /// Whether this failure has the given kind, subject and detail.
    pub open spec fn is(&self, kind: ErrorKind, subject: Seq<char>, detail: Seq<char>) -> bool {
        &&& self.kind == kind
        &&& self.subject@ == subject
        &&& self.detail@ == detail
    }

    /// The failure in words, always naming its subject where it has one.
    pub fn message(&self) -> (text: String)
        ensures
            text@ == message_text(self.kind, self.subject@, self.detail@),
    {
        let subject = self.subject.as_str();
        let detail = self.detail.as_str();
        match self.kind {
            ErrorKind::SourceNotFound => concat2("File does not exist: ", subject),
            ErrorKind::ToolUnavailable => String::from_str(
                "readelf command not found - install binutils",
            ),
            ErrorKind::ExtractionFailed => {
                let head = concat3("readelf failed on ", subject, ": ");
                concat2(head.as_str(), detail)
            },
            ErrorKind::LibraryNotFound => concat3(
                "Could not find library '",
                subject,
                "' in source (searched lib64, lib, extra paths)",
            ),
            ErrorKind::NoParent => concat2("Library path has no parent: ", subject),
            ErrorKind::PlacementConflict => {
                let head = concat3("Failed to create directory ", subject, ": ");
                concat2(head.as_str(), detail)
            },
            ErrorKind::Metadata => concat2("Failed to read metadata: ", subject),
            ErrorKind::Permissions => concat2("Failed to set permissions: ", subject),
            ErrorKind::Symlink => {
                let head = concat3("Failed to create symlink ", subject, " -> ");
                concat2(head.as_str(), detail)
            },
            ErrorKind::IoFailure => {
                let head = concat3("I/O failure on ", subject, ": ");
                concat2(head.as_str(), detail)
            },
            ErrorKind::Protocol => concat2("Unexpected answer while working on ", subject),
        }
    }
}

} // verus!
