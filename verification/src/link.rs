//! Two small jobs: a symbolic link made only where nothing is in its place,
//! and a file made executable.

use vstd::prelude::*;
use vstd::string::*;
use crate::error::ErrorKind;
use crate::ops::{ask_stat, ask_symlink, fail, Answer, Op, Reply, Request, Step, Turn};

verus! {

/// How far a small job has come.
#[derive(Clone, Copy, Debug, PartialEq, Eq, Structural)]
pub enum Progress {
    /// Nothing was asked yet.
    Start,
    /// Asked what is at the path.
    Checking,
    /// Asked for the action.
    Acting,
    /// Over.
    Finished,
}

/// The permission bits of an executable: all for the owner, read and
/// execute for the group and for others.
pub const EXECUTABLE_MODE: u32 = 0o755;

/// A symbolic link to make unless something is in its place.
pub struct LinkJob {
    target: String,
    link: String,
    progress: Progress,
}

/// A link job, by the texts it holds.
pub struct LinkJobView {
    pub target: Seq<char>,
    pub link: Seq<char>,
    pub progress: Progress,
}

impl View for LinkJob {
    type V = LinkJobView;

    closed spec fn view(&self) -> LinkJobView {
        LinkJobView { target: self.target@, link: self.link@, progress: self.progress }
    }
}

impl LinkJobView {
    /// The job at `progress`.
    pub open spec fn at(self, progress: Progress) -> LinkJobView {
        LinkJobView { progress, ..self }
    }

    /// The first step: ask what is at the place of the link.
    pub open spec fn first(self) -> (LinkJobView, Turn<bool>) {
        if self.progress == Progress::Start {
            (self.at(Progress::Checking), Turn::Ask(Op::Stat(self.link)))
        } else {
            (self.at(Progress::Finished), Turn::Failed(ErrorKind::Protocol, self.link, ""@))
        }
    }

    /// The job after `reply`, and what it wants next. It ends with whether
    /// the link was made: not where a file, a directory or a symbolic link,
    /// dangling or not, is in its place.
    pub open spec fn after(self, reply: Reply) -> (LinkJobView, Turn<bool>) {
        match (self.progress, reply) {
            (Progress::Checking, Reply::Info(info)) => {
                if info.present() {
                    (self.at(Progress::Finished), Turn::Done(false))
                } else {
                    (
                        self.at(Progress::Acting),
                        Turn::Ask(Op::Symlink { target: self.target, link: self.link }),
                    )
                }
            },
            (Progress::Acting, Reply::Done) => (self.at(Progress::Finished), Turn::Done(true)),
            (Progress::Acting, Reply::Failed(_)) => (
                self.at(Progress::Finished),
                Turn::Failed(ErrorKind::Symlink, self.link, self.target),
            ),
            _ => (self.at(Progress::Finished), Turn::Failed(ErrorKind::Protocol, self.link, ""@)),
        }
    }
}

/// Starts the making of a symbolic link at `link` that points at `target`,
/// unless something is at `link`.
///
/// The job ends with `true` where it made the link and `false` where it found
/// the place taken.
pub fn create_symlink_if_missing(target: &str, link: &str) -> (job: LinkJob)
    ensures
        job@ == (LinkJobView { target: target@, link: link@, progress: Progress::Start }),
{
    LinkJob {
        target: String::from_str(target),
        link: String::from_str(link),
        progress: Progress::Start,
    }
}

impl LinkJob {
    /// The first step of the job.
    pub fn begin(&mut self) -> (step: Step<bool>)
        ensures
            (final(self)@, step@) == old(self)@.first(),
    {
        if self.progress == Progress::Start {
            self.progress = Progress::Checking;
            ask_stat(self.link.as_str())
        } else {
            self.progress = Progress::Finished;
            fail(ErrorKind::Protocol, self.link.as_str(), "")
        }
    }

    /// Continues the job with the answer to the request made last.
    pub fn advance(&mut self, answer: &Answer) -> (step: Step<bool>)
        ensures
            (final(self)@, step@) == old(self)@.after(answer@),
    {
        let progress = self.progress;
        match answer {
            Answer::Info(info) => {
                if progress == Progress::Checking {
                    if info.is_present() {
                        self.progress = Progress::Finished;
                        Step::Finished(Ok(false))
                    } else {
                        self.progress = Progress::Acting;
                        ask_symlink(self.target.as_str(), self.link.as_str())
                    }
                } else {
                    self.progress = Progress::Finished;
                    fail(ErrorKind::Protocol, self.link.as_str(), "")
                }
            },
            Answer::Done => {
                self.progress = Progress::Finished;
                if progress == Progress::Acting {
                    Step::Finished(Ok(true))
                } else {
                    fail(ErrorKind::Protocol, self.link.as_str(), "")
                }
            },
            Answer::Failed(_) => {
                self.progress = Progress::Finished;
                if progress == Progress::Acting {
                    fail(ErrorKind::Symlink, self.link.as_str(), self.target.as_str())
                } else {
                    fail(ErrorKind::Protocol, self.link.as_str(), "")
                }
            },
            _ => {
                self.progress = Progress::Finished;
                fail(ErrorKind::Protocol, self.link.as_str(), "")
            },
        }
    }
}

/// A file to make executable.
pub struct ModeJob {
    path: String,
    progress: Progress,
}

/// A mode job, by the texts it holds.
pub struct ModeJobView {
    pub path: Seq<char>,
    pub progress: Progress,
}

impl View for ModeJob {
    type V = ModeJobView;

    closed spec fn view(&self) -> ModeJobView {
        ModeJobView { path: self.path@, progress: self.progress }
    }
}

impl ModeJobView {
    /// The job at `progress`.
    pub open spec fn at(self, progress: Progress) -> ModeJobView {
        ModeJobView { progress, ..self }
    }

    /// The first step: ask what is at the path.
    pub open spec fn first(self) -> (ModeJobView, Turn<()>) {
        if self.progress == Progress::Start {
            (self.at(Progress::Checking), Turn::Ask(Op::Stat(self.path)))
        } else {
            (self.at(Progress::Finished), Turn::Failed(ErrorKind::Protocol, self.path, ""@))
        }
    }

    /// The job after `reply`, and what it wants next. The permission bits
    /// asked for are `EXECUTABLE_MODE`, whatever the bits of the file were.
    pub open spec fn after(self, reply: Reply) -> (ModeJobView, Turn<()>) {
        match (self.progress, reply) {
            (Progress::Checking, Reply::Info(info)) => {
                if info.exists {
                    (
                        self.at(Progress::Acting),
                        Turn::Ask(Op::SetMode { path: self.path, mode: EXECUTABLE_MODE }),
                    )
                } else {
                    (self.at(Progress::Finished), Turn::Failed(ErrorKind::Metadata, self.path, ""@))
                }
            },
            (Progress::Acting, Reply::Done) => (self.at(Progress::Finished), Turn::Done(())),
            (Progress::Acting, Reply::Failed(detail)) => (
                self.at(Progress::Finished),
                Turn::Failed(ErrorKind::Permissions, self.path, detail),
            ),
            _ => (self.at(Progress::Finished), Turn::Failed(ErrorKind::Protocol, self.path, ""@)),
        }
    }
}

/// Starts the job that makes the file at `path` executable.
pub fn make_executable(path: &str) -> (job: ModeJob)
    ensures
        job@ == (ModeJobView { path: path@, progress: Progress::Start }),
{
    ModeJob { path: String::from_str(path), progress: Progress::Start }
}

impl ModeJob {
    /// The first step of the job.
    pub fn begin(&mut self) -> (step: Step<()>)
        ensures
            (final(self)@, step@) == old(self)@.first(),
    {
        if self.progress == Progress::Start {
            self.progress = Progress::Checking;
            ask_stat(self.path.as_str())
        } else {
            self.progress = Progress::Finished;
            fail(ErrorKind::Protocol, self.path.as_str(), "")
        }
    }

    /// Continues the job with the answer to the request made last.
    pub fn advance(&mut self, answer: &Answer) -> (step: Step<()>)
        ensures
            (final(self)@, step@) == old(self)@.after(answer@),
    {
        let progress = self.progress;
        match answer {
            Answer::Info(info) => {
                if progress == Progress::Checking {
                    if info.exists {
                        self.progress = Progress::Acting;
                        Step::Ask(Request::SetMode { path: self.path.clone(), mode: EXECUTABLE_MODE })
                    } else {
                        self.progress = Progress::Finished;
                        fail(ErrorKind::Metadata, self.path.as_str(), "")
                    }
                } else {
                    self.progress = Progress::Finished;
                    fail(ErrorKind::Protocol, self.path.as_str(), "")
                }
            },
            Answer::Done => {
                self.progress = Progress::Finished;
                if progress == Progress::Acting {
                    Step::Finished(Ok(()))
                } else {
                    fail(ErrorKind::Protocol, self.path.as_str(), "")
                }
            },
            Answer::Failed(detail) => {
                self.progress = Progress::Finished;
                if progress == Progress::Acting {
                    fail(ErrorKind::Permissions, self.path.as_str(), detail.as_str())
                } else {
                    fail(ErrorKind::Protocol, self.path.as_str(), "")
                }
            },
            _ => {
                self.progress = Progress::Finished;
                fail(ErrorKind::Protocol, self.path.as_str(), "")
            },
        }
    }
}

} // verus!
