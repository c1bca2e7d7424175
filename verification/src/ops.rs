//! The questions and actions that a job hands out, and the answers it takes.
//!
//! A job never touches the disk. It asks for one operation at a time; whoever
//! drives it performs the operation and comes back with the answer.

use vstd::prelude::*;
use vstd::string::*;
use crate::error::{Error, ErrorKind};
use crate::text::texts;
use crate::tree::{PathInfo, ToolRun};

verus! {

/// One file-system operation to perform.
#[derive(Debug)]
pub enum Request {
    /// Report what is at a path. Answered with `Answer::Info`; never fails.
    Stat(String),
    /// Read where a symbolic link points. Answered with `Answer::Target`.
    ReadLink(String),
    /// List the names in a directory. Answered with `Answer::Names`.
    ReadDir(String),
    /// Create a directory and every missing directory above it.
    CreateDirAll(String),
    /// Copy the contents of `from` to `to`, replacing what is there.
    CopyFile { from: String, to: String },
    /// Remove the file or symbolic link at a path.
    RemoveFile(String),
    /// Create a symbolic link at `link` that points at `target`, as written.
    Symlink { target: String, link: String },
    /// Replace the permission bits of a path.
    SetMode { path: String, mode: u32 },
    /// Run the inspection tool on a file. Answered with `Answer::Run`; a tool
    /// that cannot be started is an answer, not a failure.
    Inspect(String),
}

/// A request, by the texts of its paths.
pub enum Op {
    Stat(Seq<char>),
    ReadLink(Seq<char>),
    ReadDir(Seq<char>),
    CreateDirAll(Seq<char>),
    CopyFile { from: Seq<char>, to: Seq<char> },
    RemoveFile(Seq<char>),
    Symlink { target: Seq<char>, link: Seq<char> },
    SetMode { path: Seq<char>, mode: u32 },
    Inspect(Seq<char>),
}

impl View for Request {
    type V = Op;

    open spec fn view(&self) -> Op {
        match self {
            Request::Stat(path) => Op::Stat(path@),
            Request::ReadLink(path) => Op::ReadLink(path@),
            Request::ReadDir(path) => Op::ReadDir(path@),
            Request::CreateDirAll(path) => Op::CreateDirAll(path@),
            Request::CopyFile { from, to } => Op::CopyFile { from: from@, to: to@ },
            Request::RemoveFile(path) => Op::RemoveFile(path@),
            Request::Symlink { target, link } => Op::Symlink { target: target@, link: link@ },
            Request::SetMode { path, mode } => Op::SetMode { path: path@, mode: *mode },
            Request::Inspect(path) => Op::Inspect(path@),
        }
    }
}

/// What came of one request.
#[derive(Debug)]
pub enum Answer {
    /// What is at the path.
    Info(PathInfo),
    /// Where the symbolic link points, as written in it.
    Target(String),
    /// The names in the directory.
    Names(Vec<String>),
    /// The action was carried out.
    Done,
    /// How the run of the inspection tool ended.
    Run(ToolRun),
    /// The operation failed; what the system said.
    Failed(String),
}

/// An answer, by the texts it carries.
pub enum Reply {
    Info(PathInfo),
    Target(Seq<char>),
    Names(Seq<Seq<char>>),
    Done,
    Run(ToolRun),
    Failed(Seq<char>),
}

impl View for Answer {
    type V = Reply;

    open spec fn view(&self) -> Reply {
        match self {
            Answer::Info(info) => Reply::Info(*info),
            Answer::Target(target) => Reply::Target(target@),
            Answer::Names(names) => Reply::Names(texts(names@)),
            Answer::Done => Reply::Done,
            Answer::Run(run) => Reply::Run(*run),
            Answer::Failed(detail) => Reply::Failed(detail@),
        }
    }
}

/// What a job wants next: an operation, or nothing more.
#[derive(Debug)]
pub enum Step<T> {
    /// Perform this and come back with the answer.
    Ask(Request),
    /// The job is over, with this result.
    Finished(Result<T, Error>),
}

/// A step, by the texts it carries.
pub enum Turn<T> {
    Ask(Op),
    Done(T),
    Failed(ErrorKind, Seq<char>, Seq<char>),
}

impl<T> View for Step<T> {
    type V = Turn<T>;

    open spec fn view(&self) -> Turn<T> {
        match self {
            Step::Ask(request) => Turn::Ask(request@),
            Step::Finished(Ok(value)) => Turn::Done(*value),
            Step::Finished(Err(e)) => Turn::Failed(e.kind, e.subject@, e.detail@),
        }
    }
}

/// A step of a job that ends with a list of names, by the texts it carries.
pub open spec fn names_turn(step: Step<Vec<String>>) -> Turn<Seq<Seq<char>>> {
    match step {
        Step::Ask(request) => Turn::Ask(request@),
        Step::Finished(Ok(names)) => Turn::Done(texts(names@)),
        Step::Finished(Err(e)) => Turn::Failed(e.kind, e.subject@, e.detail@),
    }
}

/// The step that ends a job with a failure.
pub(crate) fn fail<T>(kind: ErrorKind, subject: &str, detail: &str) -> (step: Step<T>)
    ensures
        step@ == Turn::<T>::Failed(kind, subject@, detail@),
{
    Step::Finished(Err(Error::new(kind, subject, detail)))
}

/// The step that asks what is at `path`.
pub(crate) fn ask_stat<T>(path: &str) -> (step: Step<T>)
    ensures
        step@ == Turn::<T>::Ask(Op::Stat(path@)),
{
    Step::Ask(Request::Stat(String::from_str(path)))
}

/// The step that asks for a copy of `from` at `to`.
pub(crate) fn ask_copy<T>(from: &str, to: &str) -> (step: Step<T>)
    ensures
        step@ == Turn::<T>::Ask(Op::CopyFile { from: from@, to: to@ }),
{
    Step::Ask(Request::CopyFile { from: String::from_str(from), to: String::from_str(to) })
}

/// The step that asks for a symbolic link at `link` to `target`.
pub(crate) fn ask_symlink<T>(target: &str, link: &str) -> (step: Step<T>)
    ensures
        step@ == Turn::<T>::Ask(Op::Symlink { target: target@, link: link@ }),
{
    Step::Ask(Request::Symlink { target: String::from_str(target), link: String::from_str(link) })
}

} // verus!
