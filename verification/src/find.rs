//! The search for one file among its candidates, one question at a time.

use vstd::prelude::*;
use vstd::string::*;
use crate::error::ErrorKind;
use crate::ops::{Answer, Op, Reply, Request, Step, Turn};
use crate::paths::{
    binary_candidates, binary_dirs, candidates, first_hit, hit, lemma_first_hit_at,
    lemma_first_hit_none, library_candidates, library_dirs, sbin_candidates, sbin_dirs,
};
use crate::text::{strs, texts};
use crate::tree::SourceTree;

verus! {

/// How far a search has come.
#[derive(Clone, Copy, Debug, PartialEq, Eq, Structural)]
pub enum FindStage {
    /// Nothing was asked yet.
    Start,
    /// Asked what is at the candidate in turn.
    Searching,
    /// Over.
    Finished,
}

/// The search for one file among its candidates.
pub struct FindJob {
    candidates: Vec<String>,
    index: usize,
    links_count: bool,
    stage: FindStage,
}

/// A search, by the texts it holds.
pub struct FindView {
    /// Where the file is looked for, in order of precedence.
    pub candidates: Seq<Seq<char>>,
    /// The candidate in turn.
    pub index: int,
    /// Whether a symbolic link to nowhere counts as found.
    pub links_count: bool,
    pub stage: FindStage,
}

impl View for FindJob {
    type V = FindView;

    closed spec fn view(&self) -> FindView {
        FindView {
            candidates: texts(self.candidates@),
            index: self.index as int,
            links_count: self.links_count,
            stage: self.stage,
        }
    }
}

/// A step of a search, by the texts it carries.
pub open spec fn found_turn(step: Step<Option<String>>) -> Turn<Option<Seq<char>>> {
    match step {
        Step::Ask(request) => Turn::Ask(request@),
        Step::Finished(Ok(Some(path))) => Turn::Done(Some(path@)),
        Step::Finished(Ok(None)) => Turn::Done(None),
        Step::Finished(Err(e)) => Turn::Failed(e.kind, e.subject@, e.detail@),
    }
}

impl FindView {
    /// The search over, with an outcome.
    pub open spec fn over(self, turn: Turn<Option<Seq<char>>>) -> (
        FindView,
        Turn<Option<Seq<char>>>,
    ) {
        (FindView { stage: FindStage::Finished, ..self }, turn)
    }

    /// The first step: ask about the first candidate, if there is one.
    pub open spec fn first(self) -> (FindView, Turn<Option<Seq<char>>>) {
        if self.stage != FindStage::Start {
            self.over(Turn::Failed(ErrorKind::Protocol, ""@, ""@))
        } else if self.candidates.len() == 0 {
            self.over(Turn::Done(None))
        } else {
            (
                FindView { stage: FindStage::Searching, index: 0, ..self },
                Turn::Ask(Op::Stat(self.candidates[0])),
            )
        }
    }

    /// The search after `reply`, and what it wants next: it ends at the first
    /// candidate that is reported there, and with nothing after the last.
    pub open spec fn after(self, reply: Reply) -> (FindView, Turn<Option<Seq<char>>>) {
        match reply {
            Reply::Info(info) => {
                if self.stage != FindStage::Searching || !(0 <= self.index
                    < self.candidates.len()) {
                    self.over(Turn::Failed(ErrorKind::Protocol, ""@, ""@))
                } else if info.exists || (self.links_count && info.is_symlink) {
                    self.over(Turn::Done(Some(self.candidates[self.index])))
                } else if self.index + 1 < self.candidates.len() {
                    (
                        FindView { index: self.index + 1, ..self },
                        Turn::Ask(Op::Stat(self.candidates[self.index + 1])),
                    )
                } else {
                    self.over(Turn::Done(None))
                }
            },
            _ => self.over(Turn::Failed(ErrorKind::Protocol, ""@, ""@)),
        }
    }
}

/// A search of which nothing was asked yet.
pub open spec fn search_of(candidates: Seq<Seq<char>>, links_count: bool) -> FindView {
    FindView { candidates, index: 0, links_count, stage: FindStage::Start }
}

impl FindJob {
    /// The search for a library in the standard library directories of
    /// `source_root`, the service manager's private ones, and then
    /// `extra_paths`, in that order. A symbolic link to nowhere counts.
    pub fn for_library(source_root: &str, lib_name: &str, extra_paths: &[&str]) -> (job: FindJob)
        ensures
            job@ == search_of(
                candidates(source_root@, library_dirs(strs(extra_paths@)), lib_name@),
                true,
            ),
    {
        FindJob {
            candidates: library_candidates(source_root, lib_name, extra_paths),
            index: 0,
            links_count: true,
            stage: FindStage::Start,
        }
    }

    /// The search for a binary in `usr/bin`, `bin`, `usr/sbin`, `sbin` under
    /// `source_root`, in that order.
    pub fn for_binary(source_root: &str, binary: &str) -> (job: FindJob)
        ensures
            job@ == search_of(candidates(source_root@, binary_dirs(), binary@), false),
    {
        FindJob {
            candidates: binary_candidates(source_root, binary),
            index: 0,
            links_count: false,
            stage: FindStage::Start,
        }
    }

    /// The search for a binary in `usr/sbin`, `sbin`, `usr/bin`, `bin` under
    /// `source_root`, in that order.
    pub fn for_sbin_binary(source_root: &str, binary: &str) -> (job: FindJob)
        ensures
            job@ == search_of(candidates(source_root@, sbin_dirs(), binary@), false),
    {
        FindJob {
            candidates: sbin_candidates(source_root, binary),
            index: 0,
            links_count: false,
            stage: FindStage::Start,
        }
    }

    /// Ends the search with a failure.
    fn end_failed(&mut self) -> (step: Step<Option<String>>)
        ensures
            (final(self)@, found_turn(step)) == old(self)@.over(
                Turn::Failed(ErrorKind::Protocol, ""@, ""@),
            ),
    {
        self.stage = FindStage::Finished;
        crate::ops::fail(ErrorKind::Protocol, "", "")
    }

    /// The first step of the search.
    pub fn begin(&mut self) -> (step: Step<Option<String>>)
        ensures
            (final(self)@, found_turn(step)) == old(self)@.first(),
    {
        if self.stage != FindStage::Start {
            self.end_failed()
        } else if self.candidates.len() == 0 {
            self.stage = FindStage::Finished;
            Step::Finished(Ok(None))
        } else {
            self.stage = FindStage::Searching;
            self.index = 0;
            Step::Ask(Request::Stat(self.candidates[0].clone()))
        }
    }

    /// Continues the search with the answer to the request made last.
    pub fn advance(&mut self, answer: &Answer) -> (step: Step<Option<String>>)
        ensures
            (final(self)@, found_turn(step)) == old(self)@.after(answer@),
    {
        match answer {
            Answer::Info(info) => {
                if self.stage != FindStage::Searching || self.index >= self.candidates.len() {
                    self.end_failed()
                } else if info.exists || (self.links_count && info.is_symlink) {
                    self.stage = FindStage::Finished;
                    Step::Finished(Ok(Some(self.candidates[self.index].clone())))
                } else if self.index < self.candidates.len() - 1 {
                    self.index = self.index + 1;
                    Step::Ask(Request::Stat(self.candidates[self.index].clone()))
                } else {
                    self.stage = FindStage::Finished;
                    Step::Finished(Ok(None))
                }
            },
            _ => self.end_failed(),
        }
    }
}

/// Carries a search of which nothing was asked yet to its end, answered from
/// `tree`: the first candidate that the tree has.
pub(crate) fn find_in(tree: &SourceTree, search: FindJob) -> (out: Option<String>)
    requires
        search@.stage == FindStage::Start,
    ensures
        out matches Some(path) ==> first_hit(tree, search@.candidates, search@.links_count)
            == Some(path@),
        out is None ==> first_hit(tree, search@.candidates, search@.links_count) is None,
{
    let ghost paths = search@.candidates;
    let ghost links = search@.links_count;
    let mut job = search;
    proof {
        if paths.len() == 0 {
            lemma_first_hit_none(tree, paths, links);
        }
    }
    let mut step = job.begin();
    loop
        invariant
            paths == search@.candidates,
            links == search@.links_count,
            job@.candidates == paths,
            job@.links_count == links,
            match job@.stage {
                FindStage::Start => false,
                FindStage::Searching => {
                    &&& 0 <= job@.index < paths.len()
                    &&& found_turn(step) == Turn::<Option<Seq<char>>>::Ask(
                        Op::Stat(paths[job@.index]),
                    )
                    &&& forall|j: int| 0 <= j < job@.index ==> !hit(tree, #[trigger] paths[j], links)
                },
                FindStage::Finished => found_turn(step) == Turn::<Option<Seq<char>>>::Done(
                    first_hit(tree, paths, links),
                ),
            },
        decreases
                (if job@.stage == FindStage::Finished {
                    0int
                } else {
                    1int
                }),
                paths.len() - job@.index,
    {
        let request = match step {
            Step::Finished(Ok(found)) => {
                return found;
            },
            Step::Finished(Err(_)) => {
                return None;
            },
            Step::Ask(request) => request,
        };
        let info = match &request {
            Request::Stat(path) => tree.stat(path.as_str()),
            _ => crate::tree::PathInfo::missing(),
        };
        proof {
            let at = job@.index;
            if hit(tree, paths[at], links) {
                lemma_first_hit_at(tree, paths, links, at);
            } else if at + 1 >= paths.len() {
                lemma_first_hit_none(tree, paths, links);
            }
        }
        step = job.advance(&Answer::Info(info));
    }
}

} // verus!
