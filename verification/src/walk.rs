//! The walk over what binaries need, one request at a time.
//!
//! The walk takes up one file after the other: it asks whether the file is
//! there and how the inspection tool fares on it, takes note of each library
//! that the file needs, and asks where each new one is found, so as to take
//! that file up in turn.

use vstd::prelude::*;
use vstd::string::*;
use crate::analyze::{read_tool_run, run_outcome};
use crate::error::ErrorKind;
use crate::ops::{names_turn, Answer, Op, Reply, Request, Step, Turn};
use crate::paths::{candidates, candidates_in, library_dirs, library_search_dirs};
use crate::text::{has_text, owned, strs, texts};

verus! {

/// How far a walk has come.
#[derive(Clone, Copy, Debug, PartialEq, Eq, Structural)]
pub enum WalkStage {
    /// Nothing was asked yet.
    Start,
    /// Asked what is at the file in turn.
    Checking,
    /// Asked for a run of the tool on the file in turn.
    Inspecting,
    /// Asked what is at a candidate for the library in turn.
    Searching,
    /// Over.
    Finished,
}

/// A walk over what binaries need.
pub struct ClosureJob {
    root: String,
    dirs: Vec<String>,
    names: Vec<String>,
    pending: Vec<String>,
    done: Vec<String>,
    path: String,
    deps: Vec<String>,
    next_dep: usize,
    cands: Vec<String>,
    next_cand: usize,
    stage: WalkStage,
}

/// A walk, by the texts it holds.
pub struct JobView {
    /// The root of the source tree.
    pub root: Seq<char>,
    /// The directories searched for a library, in order.
    pub dirs: Seq<Seq<char>>,
    /// The library names met so far.
    pub names: Seq<Seq<char>>,
    /// The paths still to take up; the last one comes first.
    pub pending: Seq<Seq<char>>,
    /// The paths taken up so far.
    pub done: Seq<Seq<char>>,
    /// The file in turn.
    pub path: Seq<char>,
    /// What the file in turn needs.
    pub deps: Seq<Seq<char>>,
    /// How many of `deps` were dealt with.
    pub next_dep: int,
    /// Where the library in turn is looked for.
    pub cands: Seq<Seq<char>>,
    /// Which of `cands` was asked about last.
    pub next_cand: int,
    pub stage: WalkStage,
}

impl View for ClosureJob {
    type V = JobView;

    closed spec fn view(&self) -> JobView {
        JobView {
            root: self.root@,
            dirs: texts(self.dirs@),
            names: texts(self.names@),
            pending: texts(self.pending@),
            done: texts(self.done@),
            path: self.path@,
            deps: texts(self.deps@),
            next_dep: self.next_dep as int,
            cands: texts(self.cands@),
            next_cand: self.next_cand as int,
            stage: self.stage,
        }
    }
}

impl JobView {
    /// The walk over, with a failure.
    pub open spec fn failed(self, kind: ErrorKind, subject: Seq<char>, detail: Seq<char>) -> (
        JobView,
        Turn<Seq<Seq<char>>>,
    ) {
        (JobView { stage: WalkStage::Finished, ..self }, Turn::Failed(kind, subject, detail))
    }

    /// The walk at `stage`, waiting for `op`.
    pub open spec fn asking(self, stage: WalkStage, op: Op) -> (JobView, Turn<Seq<Seq<char>>>) {
        (JobView { stage, ..self }, Turn::Ask(op))
    }

    /// Takes up the next file: the waiting path put last that was not taken
    /// up before, which counts as taken up from now on. Where no such path
    /// waits, the walk is over, with the names met.
    pub open spec fn next_file(self) -> (JobView, Turn<Seq<Seq<char>>>)
        decreases self.pending.len(),
    {
        if self.pending.len() == 0 {
            (JobView { stage: WalkStage::Finished, ..self }, Turn::Done(self.names))
        } else {
            let path = self.pending.last();
            let rest = JobView { pending: self.pending.drop_last(), ..self };
            if self.done.contains(path) {
                rest.next_file()
            } else {
                JobView { done: self.done.push(path), path, ..rest }.asking(
                    WalkStage::Checking,
                    Op::Stat(path),
                )
            }
        }
    }

    /// Goes on with what the file in turn needs: a name met before is passed
    /// over; a new name is taken note of and looked for. After the last name,
    /// the next file is taken up.
    pub open spec fn next_name(self) -> (JobView, Turn<Seq<Seq<char>>>)
        decreases self.deps.len() - self.next_dep,
    {
        if self.next_dep < 0 || self.next_dep >= self.deps.len() {
            self.next_file()
        } else {
            let name = self.deps[self.next_dep];
            let cands = candidates(self.root, self.dirs, name);
            if self.names.contains(name) {
                JobView { next_dep: self.next_dep + 1, ..self }.next_name()
            } else if cands.len() == 0 {
                JobView {
                    names: self.names.push(name),
                    next_dep: self.next_dep + 1,
                    ..self
                }.next_name()
            } else {
                JobView { names: self.names.push(name), cands, next_cand: 0, ..self }.asking(
                    WalkStage::Searching,
                    Op::Stat(cands[0]),
                )
            }
        }
    }

    /// The first step: take up the first file.
    pub open spec fn first(self) -> (JobView, Turn<Seq<Seq<char>>>) {
        if self.stage == WalkStage::Start {
            self.next_file()
        } else {
            self.failed(ErrorKind::Protocol, self.path, ""@)
        }
    }

    /// The walk after `reply`, and what it wants next.
    ///
    /// A file that is not there fails the walk with `SourceNotFound`. A run
    /// of the tool is read as `run_outcome` says: its failure fails the walk,
    /// and what it needs is gone through name by name. A library is looked
    /// for in each candidate in turn; where it is found, a symbolic link to
    /// nowhere too, that path is put to wait, and where it is found nowhere,
    /// its name stays among the names met and nothing is put to wait.
    pub open spec fn after(self, reply: Reply) -> (JobView, Turn<Seq<Seq<char>>>) {
        match (self.stage, reply) {
            (WalkStage::Checking, Reply::Info(info)) => {
                if info.exists {
                    self.asking(WalkStage::Inspecting, Op::Inspect(self.path))
                } else {
                    self.failed(ErrorKind::SourceNotFound, self.path, ""@)
                }
            },
            (WalkStage::Inspecting, Reply::Run(run)) => {
                match run_outcome(self.path, run) {
                    Ok(needed) => JobView { deps: needed, next_dep: 0, ..self }.next_name(),
                    Err((kind, subject, detail)) => self.failed(kind, subject, detail),
                }
            },
            (WalkStage::Searching, Reply::Info(info)) => {
                if !(0 <= self.next_dep < self.deps.len() && 0 <= self.next_cand
                    < self.cands.len()) {
                    self.failed(ErrorKind::Protocol, self.path, ""@)
                } else if info.present() {
                    JobView {
                        pending: self.pending.push(self.cands[self.next_cand]),
                        next_dep: self.next_dep + 1,
                        ..self
                    }.next_name()
                } else if self.next_cand + 1 < self.cands.len() {
                    JobView { next_cand: self.next_cand + 1, ..self }.asking(
                        WalkStage::Searching,
                        Op::Stat(self.cands[self.next_cand + 1]),
                    )
                } else {
                    JobView { next_dep: self.next_dep + 1, ..self }.next_name()
                }
            },
            _ => self.failed(ErrorKind::Protocol, self.path, ""@),
        }
    }
}

/// A walk of which nothing was asked yet.
pub open spec fn start_of(root: Seq<char>, seeds: Seq<Seq<char>>, extra: Seq<Seq<char>>) -> JobView {
    JobView {
        root,
        dirs: library_dirs(extra),
        names: Seq::empty(),
        pending: seeds,
        done: Seq::empty(),
        path: Seq::empty(),
        deps: Seq::empty(),
        next_dep: 0,
        cands: Seq::empty(),
        next_cand: 0,
        stage: WalkStage::Start,
    }
}

/// Copies of the strings of `items`.
fn copies(items: &Vec<String>) -> (out: Vec<String>)
    ensures
        texts(out@) == texts(items@),
{
    let mut out: Vec<String> = Vec::new();
    let mut i: usize = 0;
    while i < items.len()
        invariant
            i <= items.len(),
            out@.len() == i,
            forall|k: int| 0 <= k < i ==> out@[k]@ == items@[k]@,
        decreases items.len() - i,
    {
        out.push(items[i].clone());
        i += 1;
    }
    assert(texts(out@) =~= texts(items@));
    out
}

impl ClosureJob {
    /// Starts the walk over what the binaries at `binary_paths` need, with
    /// libraries looked for under `source_root` as `find_library` does.
    ///
    /// The walk is carried on with `begin` and then `advance`, once for each
    /// answer; `JobView::after` says what it asks for in each situation. It
    /// ends with the names of all the libraries needed.
    pub fn start(source_root: &str, binary_paths: &[&str], extra_lib_paths: &[&str]) -> (job:
        ClosureJob)
        ensures
            job@ == start_of(source_root@, strs(binary_paths@), strs(extra_lib_paths@)),
    {
        ClosureJob::starting_with(source_root, owned(binary_paths), extra_lib_paths)
    }

    /// Starts the walk with the paths of `pending` waiting.
    pub(crate) fn starting_with(
        source_root: &str,
        pending: Vec<String>,
        extra_lib_paths: &[&str],
    ) -> (job: ClosureJob)
        ensures
            job@ == start_of(source_root@, texts(pending@), strs(extra_lib_paths@)),
    {
        let job = ClosureJob {
            root: String::from_str(source_root),
            dirs: library_search_dirs(extra_lib_paths),
            names: Vec::new(),
            pending,
            done: Vec::new(),
            path: String::new(),
            deps: Vec::new(),
            next_dep: 0,
            cands: Vec::new(),
            next_cand: 0,
            stage: WalkStage::Start,
        };
        assert(job@.names =~= Seq::<Seq<char>>::empty());
        assert(job@.done =~= Seq::<Seq<char>>::empty());
        assert(job@.deps =~= Seq::<Seq<char>>::empty());
        assert(job@.cands =~= Seq::<Seq<char>>::empty());
        job
    }

    /// Whether the walk is over.
    pub fn is_finished(&self) -> (yes: bool)
        ensures
            yes == (self@.stage == WalkStage::Finished),
    {
        self.stage == WalkStage::Finished
    }

    /// Ends the walk with a failure that concerns the file in turn.
    fn end_failed(&mut self, kind: ErrorKind) -> (step: Step<Vec<String>>)
        ensures
            (final(self)@, names_turn(step)) == old(self)@.failed(kind, old(self)@.path, ""@),
    {
        self.stage = WalkStage::Finished;
        crate::ops::fail(kind, self.path.as_str(), "")
    }

    /// Takes up the next file, or ends the walk.
    fn next_file(&mut self) -> (step: Step<Vec<String>>)
        ensures
            (final(self)@, names_turn(step)) == old(self)@.next_file(),
    {
        loop
            invariant
                self@.next_file() == old(self)@.next_file(),
            decreases self.pending@.len(),
        {
            let ghost before = self@;
            match self.pending.pop() {
                None => {
                    assert(before.pending.len() == 0);
                    self.stage = WalkStage::Finished;
                    return Step::Finished(Ok(copies(&self.names)));
                },
                Some(path) => {
                    assert(self@.pending =~= before.pending.drop_last());
                    assert(before.pending.last() == path@);
                    if !has_text(&self.done, path.as_str()) {
                        let ghost taken = path@;
                        self.done.push(path.clone());
                        assert(self@.done =~= before.done.push(taken));
                        self.stage = WalkStage::Checking;
                        let request = Request::Stat(path.clone());
                        self.path = path;
                        return Step::Ask(request);
                    }
                },
            }
        }
    }

    /// Goes on with what the file in turn needs.
    fn next_name(&mut self) -> (step: Step<Vec<String>>)
        ensures
            (final(self)@, names_turn(step)) == old(self)@.next_name(),
    {
        while self.next_dep < self.deps.len()
            invariant
                self@.next_name() == old(self)@.next_name(),
            decreases self.deps@.len() - self.next_dep,
        {
            let ghost before = self@;
            let name = self.deps[self.next_dep].clone();
            assert(name@ == before.deps[before.next_dep]);
            if has_text(&self.names, name.as_str()) {
                self.next_dep = self.next_dep + 1;
            } else {
                let cands = candidates_in(self.root.as_str(), &self.dirs, name.as_str());
                self.names.push(name);
                assert(self@.names =~= before.names.push(before.deps[before.next_dep]));
                if cands.len() == 0 {
                    self.next_dep = self.next_dep + 1;
                } else {
                    let request = Request::Stat(cands[0].clone());
                    self.cands = cands;
                    self.next_cand = 0;
                    self.stage = WalkStage::Searching;
                    return Step::Ask(request);
                }
            }
        }
        self.next_file()
    }

    /// The first step of the walk.
    pub fn begin(&mut self) -> (step: Step<Vec<String>>)
        ensures
            (final(self)@, names_turn(step)) == old(self)@.first(),
    {
        if self.stage == WalkStage::Start {
            self.next_file()
        } else {
            self.end_failed(ErrorKind::Protocol)
        }
    }

    /// Continues the walk with the answer to the request made last.
    pub fn advance(&mut self, answer: &Answer) -> (step: Step<Vec<String>>)
        ensures
            (final(self)@, names_turn(step)) == old(self)@.after(answer@),
    {
        let stage = self.stage;
        match answer {
            Answer::Info(info) => {
                match stage {
                    WalkStage::Checking => {
                        if info.exists {
                            self.stage = WalkStage::Inspecting;
                            Step::Ask(Request::Inspect(self.path.clone()))
                        } else {
                            self.end_failed(ErrorKind::SourceNotFound)
                        }
                    },
                    WalkStage::Searching => {
                        if self.next_dep >= self.deps.len() || self.next_cand >= self.cands.len() {
                            self.end_failed(ErrorKind::Protocol)
                        } else if info.is_present() {
                            let ghost before = self@;
                            let found = self.cands[self.next_cand].clone();
                            let ghost at = found@;
                            self.pending.push(found);
                            assert(self@.pending =~= before.pending.push(at));
                            self.next_dep = self.next_dep + 1;
                            self.next_name()
                        } else if self.next_cand < self.cands.len() - 1 {
                            self.next_cand = self.next_cand + 1;
                            Step::Ask(Request::Stat(self.cands[self.next_cand].clone()))
                        } else {
                            self.next_dep = self.next_dep + 1;
                            self.next_name()
                        }
                    },
                    _ => self.end_failed(ErrorKind::Protocol),
                }
            },
            Answer::Run(run) => {
                match stage {
                    WalkStage::Inspecting => {
                        match read_tool_run(self.path.as_str(), run) {
                            Ok(needed) => {
                                self.deps = needed;
                                self.next_dep = 0;
                                self.next_name()
                            },
                            Err(e) => {
                                self.stage = WalkStage::Finished;
                                Step::Finished(Err(e))
                            },
                        }
                    },
                    _ => self.end_failed(ErrorKind::Protocol),
                }
            },
            _ => self.end_failed(ErrorKind::Protocol),
        }
    }
}

} // verus!
