//! Placing one library, with the file a symbolic link stands for, in a
//! destination tree.

use vstd::prelude::*;
use vstd::string::*;
use crate::error::ErrorKind;
use crate::ops::{ask_copy, ask_stat, ask_symlink, fail, Answer, Op, Reply, Request, Step, Turn};
use crate::paths::{
    candidates, file_name, file_name_of, first_hit, hit, join, joined, lemma_first_hit,
    lemma_joined_is_under,
    library_candidates, library_dirs, library_search_dirs, parent, parent_of, strip_root,
    without_root,
};
use crate::text::{
    chars_of, concat3, contains, has_substring, occurs_at, owned, strs, texts,
};
use crate::tree::{PathInfo, SourceTree};

verus! {

/// The search directory `dir` with a separator before and after it, so that
/// each of its components stands between two separators.
pub open spec fn fenced(dir: Seq<char>) -> Seq<char> {
    "/"@ + dir + "/"@
}

/// Whether the search directory `dir` is, or lies under, the directory
/// `private` of a 64-bit or generic library directory: whether `lib64` or
/// `lib` and then `private` are components of it in a row.
pub open spec fn in_private_dir(dir: Seq<char>, private: Seq<char>) -> bool {
    contains(fenced(dir), "/lib64/"@ + private + "/"@) || contains(
        fenced(dir),
        "/lib/"@ + private + "/"@,
    )
}

/// Whether `lib64` is a component of the search directory `dir`.
pub open spec fn is_wide(dir: Seq<char>) -> bool {
    contains(fenced(dir), "/lib64/"@)
}

/// The first of `privates` that the search directory `dir` lies in, if any.
pub open spec fn private_dir(dir: Seq<char>, privates: Seq<Seq<char>>) -> Option<Seq<char>>
    decreases privates.len(),
{
    if privates.len() == 0 {
        None
    } else if in_private_dir(dir, privates[0]) {
        Some(privates[0])
    } else {
        private_dir(dir, privates.drop_first())
    }
}

/// The directory that a library found in the search directory `dir` goes to.
///
/// Only the search directory decides, never the root of the source tree or
/// the name of the library. Found in a private directory, the library goes to
/// the directory of the same name under the 64-bit library directory, also
/// where it was found under the generic one. Otherwise it goes to the 64-bit
/// library directory if `lib64` is a component of `dir`, and to the generic
/// one if not.
pub open spec fn destination_dir(
    dir: Seq<char>,
    dest_root: Seq<char>,
    lib64: Seq<char>,
    lib: Seq<char>,
    privates: Seq<Seq<char>>,
) -> Seq<char> {
    match private_dir(dir, privates) {
        Some(private) => joined(joined(dest_root, lib64), private),
        None => if is_wide(dir) {
            joined(dest_root, lib64)
        } else {
            joined(dest_root, lib)
        },
    }
}

/// The file that a symbolic link at `src` with target `target` stands for: a
/// relative target is taken from the directory of the link, an absolute one
/// from `source_root`, without its leading separators.
pub open spec fn link_source(source_root: Seq<char>, src: Seq<char>, target: Seq<char>) -> Option<
    Seq<char>,
> {
    if target.len() > 0 && target[0] == '/' {
        Some(joined(source_root, without_root(target)))
    } else {
        match parent_of(src) {
            Some(dir) => Some(joined(dir, target)),
            None => None,
        }
    }
}

/// The name under which the file behind a link with target `target` is kept,
/// and at which the link made in the destination points: the last component
/// of the target, so that the link is relative and leads to the file beside
/// it. A target without a last component is taken as it is.
pub open spec fn target_name(target: Seq<char>) -> Seq<char> {
    match file_name_of(target) {
        Some(name) => name,
        None => target,
    }
}

/// Where the file behind a link is kept: beside the link at `dest`.
pub open spec fn target_destination(dest: Seq<char>, target: Seq<char>) -> Option<Seq<char>> {
    match parent_of(dest) {
        Some(dir) => Some(joined(dir, target_name(target))),
        None => None,
    }
}

/// How far a placement has come.
#[derive(Clone, Copy, Debug, PartialEq, Eq, Structural)]
pub enum Stage {
    /// Nothing was asked yet.
    Start,
    /// Asked what is at the candidate in turn.
    Searching,
    /// Asked for the private destination directory.
    MakingDir,
    /// Asked what is at the destination.
    CheckingDest,
    /// Asked where the source link points.
    ReadingLink,
    /// Asked what is at the file the link stands for.
    CheckingTarget,
    /// Asked what is at the place for that file.
    CheckingTargetDest,
    /// Asked for a copy of that file.
    CopyingTarget,
    /// Asked once more what is at the destination.
    RecheckingDest,
    /// Asked for the link.
    Linking,
    /// Asked for a plain copy of the source.
    CopyingPlain,
    /// Over.
    Finished,
}

/// The placement of one library.
pub struct Placement {
    source_root: String,
    lib_name: String,
    dest_root: String,
    lib64: String,
    lib: String,
    dirs: Vec<String>,
    candidates: Vec<String>,
    private_dirs: Vec<String>,
    stage: Stage,
    index: usize,
    src_is_symlink: bool,
    link_target: String,
}

/// A placement, by the texts it holds.
pub struct PlacementView {
    pub source_root: Seq<char>,
    pub lib_name: Seq<char>,
    pub dest_root: Seq<char>,
    pub lib64: Seq<char>,
    pub lib: Seq<char>,
    /// The directories searched, in order.
    pub dirs: Seq<Seq<char>>,
    /// Where the library is looked for: its name under each of `dirs`.
    pub candidates: Seq<Seq<char>>,
    pub private_dirs: Seq<Seq<char>>,
    pub stage: Stage,
    pub index: int,
    pub src_is_symlink: bool,
    pub link_target: Seq<char>,
}

impl PlacementView {
    /// The candidate in turn; once found, where the library is.
    pub open spec fn src(self) -> Seq<char> {
        self.candidates[self.index]
    }

    /// The search directory in turn; once found, the one that has the library.
    pub open spec fn found_in(self) -> Seq<char> {
        self.dirs[self.index]
    }

    /// The directory that the library goes to.
    pub open spec fn dest_dir(self) -> Seq<char> {
        destination_dir(self.found_in(), self.dest_root, self.lib64, self.lib, self.private_dirs)
    }

    /// The path that the library goes to.
    pub open spec fn dest(self) -> Seq<char> {
        joined(self.dest_dir(), self.lib_name)
    }

    /// The same placement at another stage.
    pub open spec fn at(self, stage: Stage) -> PlacementView {
        PlacementView { stage, ..self }
    }

    /// The placement over, with a failure.
    pub open spec fn failed(self, kind: ErrorKind, subject: Seq<char>, detail: Seq<char>) -> (
        PlacementView,
        Turn<()>,
    ) {
        (self.at(Stage::Finished), Turn::Failed(kind, subject, detail))
    }

    /// The placement over, the library in place.
    pub open spec fn done(self) -> (PlacementView, Turn<()>) {
        (self.at(Stage::Finished), Turn::Done(()))
    }

    /// The placement at `stage`, waiting for `op`.
    pub open spec fn asking(self, stage: Stage, op: Op) -> (PlacementView, Turn<()>) {
        (self.at(stage), Turn::Ask(op))
    }

    /// What follows once the library is found at the candidate in turn.
    pub open spec fn found(self) -> (PlacementView, Turn<()>) {
        if private_dir(self.found_in(), self.private_dirs) is Some {
            self.asking(Stage::MakingDir, Op::CreateDirAll(self.dest_dir()))
        } else {
            self.asking(Stage::CheckingDest, Op::Stat(self.dest()))
        }
    }

    /// The first step: ask what is at the first candidate.
    pub open spec fn first(self) -> (PlacementView, Turn<()>) {
        if self.stage == Stage::Start && self.candidates.len() > 0 {
            self.asking(Stage::Searching, Op::Stat(self.candidates[0]))
        } else {
            self.failed(ErrorKind::Protocol, self.lib_name, ""@)
        }
    }

    /// The placement after its first step and then each of `replies` in
    /// turn, and what it wants then.
    pub open spec fn run(self, replies: Seq<Reply>) -> (PlacementView, Turn<()>)
        decreases replies.len(),
    {
        if replies.len() == 0 {
            self.first()
        } else {
            self.run(replies.drop_last()).0.after(replies.last())
        }
    }

    /// The placement after `reply`, and what it wants next.
    pub open spec fn after(self, reply: Reply) -> (PlacementView, Turn<()>) {
        match (self.stage, reply) {
            (Stage::Searching, Reply::Info(info)) => {
                if info.present() {
                    PlacementView { src_is_symlink: info.is_symlink, ..self }.found()
                } else if self.index < self.candidates.len() - 1 {
                    PlacementView { index: self.index + 1, ..self }.asking(
                        Stage::Searching,
                        Op::Stat(self.candidates[self.index + 1]),
                    )
                } else {
                    self.failed(ErrorKind::LibraryNotFound, self.lib_name, ""@)
                }
            },
            (Stage::MakingDir, Reply::Done) => self.asking(
                Stage::CheckingDest,
                Op::Stat(self.dest()),
            ),
            (Stage::MakingDir, Reply::Failed(detail)) => self.failed(
                ErrorKind::PlacementConflict,
                self.dest_dir(),
                detail,
            ),
            (Stage::CheckingDest, Reply::Info(info)) => {
                if info.exists {
                    self.done()
                } else if self.src_is_symlink {
                    self.asking(Stage::ReadingLink, Op::ReadLink(self.src()))
                } else {
                    self.asking(
                        Stage::CopyingPlain,
                        Op::CopyFile { from: self.src(), to: self.dest() },
                    )
                }
            },
            (Stage::ReadingLink, Reply::Target(target)) => {
                match link_source(self.source_root, self.src(), target) {
                    Some(actual) => PlacementView { link_target: target, ..self }.asking(
                        Stage::CheckingTarget,
                        Op::Stat(actual),
                    ),
                    None => self.failed(ErrorKind::NoParent, self.src(), ""@),
                }
            },
            (Stage::ReadingLink, Reply::Failed(detail)) => self.failed(
                ErrorKind::IoFailure,
                self.src(),
                detail,
            ),
            (Stage::CheckingTarget, Reply::Info(info)) => {
                if !info.exists {
                    self.asking(
                        Stage::CopyingPlain,
                        Op::CopyFile { from: self.src(), to: self.dest() },
                    )
                } else {
                    match target_destination(self.dest(), self.link_target) {
                        Some(place) => self.asking(Stage::CheckingTargetDest, Op::Stat(place)),
                        None => self.failed(ErrorKind::NoParent, self.dest(), ""@),
                    }
                }
            },
            (Stage::CheckingTargetDest, Reply::Info(info)) => {
                if info.exists {
                    self.asking(Stage::RecheckingDest, Op::Stat(self.dest()))
                } else {
                    match (
                        link_source(self.source_root, self.src(), self.link_target),
                        target_destination(self.dest(), self.link_target),
                    ) {
                        (Some(actual), Some(place)) => self.asking(
                            Stage::CopyingTarget,
                            Op::CopyFile { from: actual, to: place },
                        ),
                        _ => self.failed(ErrorKind::Protocol, self.lib_name, ""@),
                    }
                }
            },
            (Stage::CopyingTarget, Reply::Done) => self.asking(
                Stage::RecheckingDest,
                Op::Stat(self.dest()),
            ),
            (Stage::CopyingTarget, Reply::Failed(detail)) => self.failed(
                ErrorKind::IoFailure,
                match target_destination(self.dest(), self.link_target) {
                    Some(place) => place,
                    None => self.dest(),
                },
                detail,
            ),
            (Stage::RecheckingDest, Reply::Info(info)) => {
                if info.exists {
                    self.done()
                } else {
                    self.asking(
                        Stage::Linking,
                        Op::Symlink { target: target_name(self.link_target), link: self.dest() },
                    )
                }
            },
            (Stage::Linking, Reply::Done) => self.done(),
            (Stage::Linking, Reply::Failed(detail)) => self.failed(
                ErrorKind::IoFailure,
                self.dest(),
                detail,
            ),
            (Stage::CopyingPlain, Reply::Done) => self.done(),
            (Stage::CopyingPlain, Reply::Failed(detail)) => self.failed(
                ErrorKind::IoFailure,
                self.dest(),
                detail,
            ),
            _ => self.failed(ErrorKind::Protocol, self.lib_name, ""@),
        }
    }
}

/// The first of `privates` that the search directory `dir` lies in, if any.
pub fn find_private_dir(dir: &str, privates: &Vec<String>) -> (out: Option<usize>)
    ensures
        out matches Some(i) ==> i < privates.len() && private_dir(dir@, texts(privates@)) == Some(
            privates@[i as int]@,
        ),
        out is None ==> private_dir(dir@, texts(privates@)) is None,
{
    let hay = chars_of(concat3("/", dir, "/").as_str());
    let ghost all = texts(privates@);
    let mut i: usize = 0;
    assert(all.subrange(0, all.len() as int) =~= all);
    while i < privates.len()
        invariant
            i <= privates.len(),
            hay@ == fenced(dir@),
            all == texts(privates@),
            private_dir(dir@, all) == private_dir(dir@, all.subrange(i as int, all.len() as int)),
        decreases privates.len() - i,
    {
        let ghost rest = all.subrange(i as int, all.len() as int);
        assert(rest[0] == privates@[i as int]@);
        let wide = chars_of(concat3("/lib64/", privates[i].as_str(), "/").as_str());
        let narrow = chars_of(concat3("/lib/", privates[i].as_str(), "/").as_str());
        if has_substring(&hay, &wide) || has_substring(&hay, &narrow) {
            return Some(i);
        }
        assert(rest.drop_first() =~= all.subrange(i + 1, all.len() as int));
        i += 1;
    }
    None
}

/// The directory that a library found in the search directory `dir` goes to.
pub fn library_destination_dir(
    dir: &str,
    dest_root: &str,
    dest_lib64_path: &str,
    dest_lib_path: &str,
    private_lib_dirs: &Vec<String>,
) -> (out: String)
    ensures
        out@ == destination_dir(
            dir@,
            dest_root@,
            dest_lib64_path@,
            dest_lib_path@,
            texts(private_lib_dirs@),
        ),
{
    match find_private_dir(dir, private_lib_dirs) {
        Some(i) => {
            let wide = join(dest_root, dest_lib64_path);
            join(wide.as_str(), private_lib_dirs[i].as_str())
        },
        None => {
            let hay = chars_of(concat3("/", dir, "/").as_str());
            let marker = chars_of("/lib64/");
            if has_substring(&hay, &marker) {
                join(dest_root, dest_lib64_path)
            } else {
                join(dest_root, dest_lib_path)
            }
        },
    }
}

/// The name under which the file behind a link with target `target` is kept.
pub fn name_of_target(target: &str) -> (out: String)
    ensures
        out@ == target_name(target@),
{
    match file_name(target) {
        Some(name) => name,
        None => String::from_str(target),
    }
}

/// The file that a symbolic link at `src` with target `target` stands for.
pub fn resolve_link(source_root: &str, src: &str, target: &str) -> (out: Option<String>)
    ensures
        out matches Some(path) ==> link_source(source_root@, src@, target@) == Some(path@),
        out is None ==> link_source(source_root@, src@, target@) is None,
{
    let t = chars_of(target);
    if t.len() > 0 && t[0] == '/' {
        let rest = strip_root(target);
        Some(join(source_root, rest.as_str()))
    } else {
        match parent(src) {
            Some(dir) => Some(join(dir.as_str(), target)),
            None => None,
        }
    }
}

/// Where the file behind a link with target `target` is kept, the link being at `dest`.
pub fn place_for_target(dest: &str, target: &str) -> (out: Option<String>)
    ensures
        out matches Some(path) ==> target_destination(dest@, target@) == Some(path@),
        out is None ==> target_destination(dest@, target@) is None,
{
    match parent(dest) {
        Some(dir) => Some(join(dir.as_str(), name_of_target(target).as_str())),
        None => None,
    }
}

impl View for Placement {
    type V = PlacementView;

    closed spec fn view(&self) -> PlacementView {
        PlacementView {
            source_root: self.source_root@,
            lib_name: self.lib_name@,
            dest_root: self.dest_root@,
            lib64: self.lib64@,
            lib: self.lib@,
            dirs: texts(self.dirs@),
            candidates: texts(self.candidates@),
            private_dirs: texts(self.private_dirs@),
            stage: self.stage,
            index: self.index as int,
            src_is_symlink: self.src_is_symlink,
            link_target: self.link_target@,
        }
    }
}

/// Starts the placement of library `lib_name` of the tree at `source_root`
/// in the tree at `dest_root`.
///
/// `dest_lib64_path` and `dest_lib_path` name the 64-bit and the generic
/// library directory of the destination; `private_lib_dirs` names the
/// directories whose libraries stay in a directory of their own.
///
/// The placement is carried on with `begin` and then `advance`, once for each
/// answer; `PlacementView::after` says what it asks for in each situation.
pub fn copy_library_to(
    source_root: &str,
    lib_name: &str,
    dest_root: &str,
    dest_lib64_path: &str,
    dest_lib_path: &str,
    extra_lib_paths: &[&str],
    private_lib_dirs: &[&str],
) -> (job: Placement)
    ensures
        job@ == (PlacementView {
            source_root: source_root@,
            lib_name: lib_name@,
            dest_root: dest_root@,
            lib64: dest_lib64_path@,
            lib: dest_lib_path@,
            dirs: library_dirs(strs(extra_lib_paths@)),
            candidates: candidates(
                source_root@,
                library_dirs(strs(extra_lib_paths@)),
                lib_name@,
            ),
            private_dirs: strs(private_lib_dirs@),
            stage: Stage::Start,
            index: 0,
            src_is_symlink: false,
            link_target: Seq::empty(),
        }),
{
    let found = library_candidates(source_root, lib_name, extra_lib_paths);
    assert(texts(found@).len() == library_dirs(strs(extra_lib_paths@)).len());
    assert(found@.len() >= 6);
    let dirs = library_search_dirs(extra_lib_paths);
    assert(texts(dirs@).len() == texts(found@).len());
    Placement {
        source_root: String::from_str(source_root),
        lib_name: String::from_str(lib_name),
        dest_root: String::from_str(dest_root),
        lib64: String::from_str(dest_lib64_path),
        lib: String::from_str(dest_lib_path),
        dirs,
        candidates: found,
        private_dirs: owned(private_lib_dirs),
        stage: Stage::Start,
        index: 0,
        src_is_symlink: false,
        link_target: String::new(),
    }
}

impl Placement {
    #[verifier::type_invariant]
    spec fn well_formed(&self) -> bool {
        self.index < self.candidates@.len() && self.dirs@.len() == self.candidates@.len()
    }

    /// Where the library goes.
    fn dest(&self) -> (out: String)
        ensures
            out@ == self@.dest(),
    {
        proof {
            use_type_invariant(self);
        }
        let dir = library_destination_dir(
            self.dirs[self.index].as_str(),
            self.dest_root.as_str(),
            self.lib64.as_str(),
            self.lib.as_str(),
            &self.private_dirs,
        );
        join(dir.as_str(), self.lib_name.as_str())
    }

    /// Whether the placement is over.
    pub fn is_finished(&self) -> (yes: bool)
        ensures
            yes == (self@.stage == Stage::Finished),
    {
        self.stage == Stage::Finished
    }

    /// The first step of the placement.
    pub fn begin(&mut self) -> (step: Step<()>)
        ensures
            (final(self)@, step@) == old(self)@.first(),
    {
        proof {
            use_type_invariant(&*self);
        }
        if self.stage == Stage::Start {
            self.stage = Stage::Searching;
            ask_stat(self.candidates[0].as_str())
        } else {
            self.stage = Stage::Finished;
            fail(ErrorKind::Protocol, self.lib_name.as_str(), "")
        }
    }

    /// Ends the placement with a failure.
    fn end_failed(&mut self, kind: ErrorKind, subject: &str, detail: &str) -> (step: Step<()>)
        ensures
            (final(self)@, step@) == old(self)@.failed(kind, subject@, detail@),
    {
        proof {
            use_type_invariant(&*self);
        }
        self.stage = Stage::Finished;
        fail(kind, subject, detail)
    }

    /// Ends the placement, the library in place.
    fn end_done(&mut self) -> (step: Step<()>)
        ensures
            (final(self)@, step@) == old(self)@.done(),
    {
        proof {
            use_type_invariant(&*self);
        }
        self.stage = Stage::Finished;
        Step::Finished(Ok(()))
    }

    /// Asks for a plain copy of the source to the destination.
    fn ask_plain_copy(&mut self) -> (step: Step<()>)
        ensures
            (final(self)@, step@) == old(self)@.asking(
                Stage::CopyingPlain,
                Op::CopyFile { from: old(self)@.src(), to: old(self)@.dest() },
            ),
    {
        proof {
            use_type_invariant(&*self);
        }
        let dest = self.dest();
        self.stage = Stage::CopyingPlain;
        ask_copy(self.candidates[self.index].as_str(), dest.as_str())
    }

    /// Asks what is at the destination.
    fn ask_dest(&mut self, stage: Stage) -> (step: Step<()>)
        ensures
            (final(self)@, step@) == old(self)@.asking(stage, Op::Stat(old(self)@.dest())),
    {
        proof {
            use_type_invariant(&*self);
        }
        let dest = self.dest();
        self.stage = stage;
        ask_stat(dest.as_str())
    }

    /// Continues once the library is found at the candidate in turn.
    fn on_found(&mut self) -> (step: Step<()>)
        ensures
            (final(self)@, step@) == old(self)@.found(),
    {
        proof {
            use_type_invariant(&*self);
        }
        let found_in = self.dirs[self.index].as_str();
        match find_private_dir(found_in, &self.private_dirs) {
            Some(_) => {
                let dir = library_destination_dir(
                    found_in,
                    self.dest_root.as_str(),
                    self.lib64.as_str(),
                    self.lib.as_str(),
                    &self.private_dirs,
                );
                self.stage = Stage::MakingDir;
                Step::Ask(Request::CreateDirAll(dir))
            },
            None => self.ask_dest(Stage::CheckingDest),
        }
    }

    /// Continues the placement with the answer to the request made last.
    ///
    /// The library is looked for in each candidate in turn. Found in a private
    /// directory, that directory is created in the destination first. A
    /// destination that exists ends the placement at once: nothing is copied
    /// twice. A symbolic link whose file exists has that file copied beside
    /// the destination, unless it is there, and is then made anew as a link
    /// to the name of that file, never to an absolute path; anything else is
    /// copied as it is. An answer that does not fit the request ends the
    /// placement with a failure.
    pub fn advance(&mut self, answer: &Answer) -> (step: Step<()>)
        ensures
            (final(self)@, step@) == old(self)@.after(answer@),
    {
        proof {
            use_type_invariant(&*self);
        }
        let stage = self.stage;
        match answer {
            Answer::Info(info) => {
                match stage {
                    Stage::Searching => {
                        if info.is_present() {
                            self.src_is_symlink = info.is_symlink;
                            self.on_found()
                        } else if self.index < self.candidates.len() - 1 {
                            self.index = self.index + 1;
                            ask_stat(self.candidates[self.index].as_str())
                        } else {
                            let name = self.lib_name.clone();
                            self.end_failed(ErrorKind::LibraryNotFound, name.as_str(), "")
                        }
                    },
                    Stage::CheckingDest => {
                        if info.exists {
                            self.end_done()
                        } else if self.src_is_symlink {
                            self.stage = Stage::ReadingLink;
                            Step::Ask(Request::ReadLink(self.candidates[self.index].clone()))
                        } else {
                            self.ask_plain_copy()
                        }
                    },
                    Stage::CheckingTarget => {
                        if !info.exists {
                            self.ask_plain_copy()
                        } else {
                            let dest = self.dest();
                            match place_for_target(dest.as_str(), self.link_target.as_str()) {
                                Some(place) => {
                                    self.stage = Stage::CheckingTargetDest;
                                    ask_stat(place.as_str())
                                },
                                None => self.end_failed(ErrorKind::NoParent, dest.as_str(), ""),
                            }
                        }
                    },
                    Stage::CheckingTargetDest => {
                        if info.exists {
                            self.ask_dest(Stage::RecheckingDest)
                        } else {
                            let dest = self.dest();
                            let actual = resolve_link(
                                self.source_root.as_str(),
                                self.candidates[self.index].as_str(),
                                self.link_target.as_str(),
                            );
                            let place = place_for_target(dest.as_str(), self.link_target.as_str());
                            match (actual, place) {
                                (Some(from), Some(to)) => {
                                    self.stage = Stage::CopyingTarget;
                                    ask_copy(from.as_str(), to.as_str())
                                },
                                _ => {
                                    let name = self.lib_name.clone();
                                    self.end_failed(ErrorKind::Protocol, name.as_str(), "")
                                },
                            }
                        }
                    },
                    Stage::RecheckingDest => {
                        if info.exists {
                            self.end_done()
                        } else {
                            let dest = self.dest();
                            self.stage = Stage::Linking;
                            let name = name_of_target(self.link_target.as_str());
                            ask_symlink(name.as_str(), dest.as_str())
                        }
                    },
                    _ => {
                        let name = self.lib_name.clone();
                        self.end_failed(ErrorKind::Protocol, name.as_str(), "")
                    },
                }
            },
            Answer::Target(target) => {
                match stage {
                    Stage::ReadingLink => {
                        let src = self.candidates[self.index].clone();
                        match resolve_link(
                            self.source_root.as_str(),
                            src.as_str(),
                            target.as_str(),
                        ) {
                            Some(actual) => {
                                self.link_target = target.clone();
                                self.stage = Stage::CheckingTarget;
                                ask_stat(actual.as_str())
                            },
                            None => self.end_failed(ErrorKind::NoParent, src.as_str(), ""),
                        }
                    },
                    _ => {
                        let name = self.lib_name.clone();
                        self.end_failed(ErrorKind::Protocol, name.as_str(), "")
                    },
                }
            },
            Answer::Done => {
                match stage {
                    Stage::MakingDir => self.ask_dest(Stage::CheckingDest),
                    Stage::CopyingTarget => self.ask_dest(Stage::RecheckingDest),
                    Stage::Linking => self.end_done(),
                    Stage::CopyingPlain => self.end_done(),
                    _ => {
                        let name = self.lib_name.clone();
                        self.end_failed(ErrorKind::Protocol, name.as_str(), "")
                    },
                }
            },
            Answer::Failed(detail) => {
                match stage {
                    Stage::MakingDir => {
                        let dir = library_destination_dir(
                            self.dirs[self.index].as_str(),
                            self.dest_root.as_str(),
                            self.lib64.as_str(),
                            self.lib.as_str(),
                            &self.private_dirs,
                        );
                        self.end_failed(ErrorKind::PlacementConflict, dir.as_str(), detail.as_str())
                    },
                    Stage::ReadingLink => {
                        let src = self.candidates[self.index].clone();
                        self.end_failed(ErrorKind::IoFailure, src.as_str(), detail.as_str())
                    },
                    Stage::CopyingTarget => {
                        let dest = self.dest();
                        match place_for_target(dest.as_str(), self.link_target.as_str()) {
                            Some(place) => self.end_failed(
                                ErrorKind::IoFailure,
                                place.as_str(),
                                detail.as_str(),
                            ),
                            None => self.end_failed(
                                ErrorKind::IoFailure,
                                dest.as_str(),
                                detail.as_str(),
                            ),
                        }
                    },
                    Stage::Linking | Stage::CopyingPlain => {
                        let dest = self.dest();
                        self.end_failed(ErrorKind::IoFailure, dest.as_str(), detail.as_str())
                    },
                    _ => {
                        let name = self.lib_name.clone();
                        self.end_failed(ErrorKind::Protocol, name.as_str(), "")
                    },
                }
            },
            _ => {
                let name = self.lib_name.clone();
                self.end_failed(ErrorKind::Protocol, name.as_str(), "")
            },
        }
    }
}

/// Whether `turn` asks for something that changes the destination tree
/// beyond the making of a directory.
pub open spec fn writes<T>(turn: Turn<T>) -> bool {
    match turn {
        Turn::Ask(Op::CopyFile { .. }) => true,
        Turn::Ask(Op::Symlink { .. }) => true,
        Turn::Ask(Op::RemoveFile(_)) => true,
        Turn::Ask(Op::SetMode { .. }) => true,
        _ => false,
    }
}

/// A library whose destination exists is left as it is: the placement ends
/// with success at once and asks for nothing more. Placing a library a second
/// time therefore copies nothing and links nothing.
pub proof fn lemma_existing_destination_is_kept(placement: PlacementView, info: PathInfo)
    requires
        placement.stage == Stage::CheckingDest,
        info.exists,
    ensures
        placement.after(Reply::Info(info)) == placement.done(),
{
}

/// Until the destination was looked at, a placement writes nothing: whatever
/// the answers, it only asks what is at a path or for the private directory.
pub proof fn lemma_nothing_written_before_the_check(placement: PlacementView, reply: Reply)
    requires
        placement.stage == Stage::Start || placement.stage == Stage::Searching || placement.stage
            == Stage::MakingDir,
    ensures
        !writes(placement.first().1),
        !writes(placement.after(reply).1),
        placement.after(reply).0.stage == Stage::Searching || placement.after(reply).0.stage
            == Stage::MakingDir || placement.after(reply).0.stage == Stage::CheckingDest
            || placement.after(reply).0.stage == Stage::Finished,
        !(placement.after(reply).1 is Done),
{
}

/// Whether `reply` says that something is at the path asked about.
pub open spec fn says_exists(reply: Reply) -> bool {
    match reply {
        Reply::Info(info) => info.exists,
        _ => false,
    }
}

/// A placement that finds its destination there writes nothing, from its
/// first step to its last: whatever the other answers are, it asks only what
/// is at a path or for the private directory, and it does not fail unless an
/// answer fails or does not fit. So a library that was placed, and whose
/// destination is there, is placed again without any change.
pub proof fn lemma_placed_library_is_left_alone(placement: PlacementView, replies: Seq<Reply>)
    requires
        placement.stage == Stage::Start,
        forall|n: int|
            0 <= n < replies.len() && placement.run(replies.take(n)).0.stage
                == Stage::CheckingDest ==> says_exists(#[trigger] replies[n]),
    ensures
        !writes(placement.run(replies).1),
        ({
            let stage = placement.run(replies).0.stage;
            stage == Stage::Searching || stage == Stage::MakingDir || stage == Stage::CheckingDest
                || stage == Stage::Finished
        }),
    decreases replies.len(),
{
    if replies.len() > 0 {
        let before = replies.drop_last();
        assert forall|n: int|
            0 <= n < before.len() && placement.run(before.take(n)).0.stage
                == Stage::CheckingDest implies says_exists(#[trigger] before[n]) by {
            assert(before.take(n) =~= replies.take(n));
            assert(before[n] == replies[n]);
        }
        lemma_placed_library_is_left_alone(placement, before);
        assert(replies.take(replies.len() - 1) =~= before);
        let state = placement.run(before).0;
        if state.stage == Stage::CheckingDest {
            assert(says_exists(replies[replies.len() - 1]));
        }
    }
}

/// A placement ends with success only when the destination is there: it was
/// reported to exist, or the copy to it was made, or the link at it was made.
/// This is why a library that was placed is found in place the next time.
pub proof fn lemma_success_leaves_the_destination(placement: PlacementView, reply: Reply)
    requires
        placement.after(reply).1 is Done,
    ensures
        ({
            ||| (placement.stage == Stage::CheckingDest || placement.stage
                == Stage::RecheckingDest) && says_exists(reply)
            ||| (placement.stage == Stage::CopyingPlain || placement.stage == Stage::Linking)
                && reply == Reply::Done
        }),
{
}

/// What a placement writes, it writes at its destination: the only directory
/// it asks for is the one that the library goes to, it copies to the
/// destination or to the place of the file behind the link, beside it, it
/// makes a link at the destination only, and it removes nothing.
pub proof fn lemma_writes_are_at_the_destination(placement: PlacementView, reply: Reply)
    ensures
        ({
            let (next, turn) = placement.after(reply);
            match turn {
                Turn::Ask(Op::CreateDirAll(dir)) => dir == next.dest_dir(),
                Turn::Ask(Op::CopyFile { from, to }) => to == next.dest() || Some(to)
                    == target_destination(next.dest(), next.link_target),
                Turn::Ask(Op::Symlink { target, link }) => link == next.dest() && target
                    == target_name(next.link_target),
                Turn::Ask(Op::RemoveFile(_)) => false,
                Turn::Ask(Op::SetMode { .. }) => false,
                _ => true,
            }
        }),
{
}

/// Whether `path` is relative: empty, or not beginning with a separator.
pub open spec fn relative(path: Seq<char>) -> bool {
    path.len() == 0 || path[0] != '/'
}

/// With relative names for the library directories, the private directories
/// and the library, the directory that a library goes to and its destination
/// lie under the root of the destination.
pub proof fn lemma_destination_is_under_the_root(
    dir: Seq<char>,
    name: Seq<char>,
    dest_root: Seq<char>,
    lib64: Seq<char>,
    lib: Seq<char>,
    privates: Seq<Seq<char>>,
)
    requires
        relative(name),
        relative(lib64),
        relative(lib),
        forall|i: int| 0 <= i < privates.len() ==> relative(#[trigger] privates[i]),
    ensures
        dest_root.is_prefix_of(destination_dir(dir, dest_root, lib64, lib, privates)),
        dest_root.is_prefix_of(joined(destination_dir(dir, dest_root, lib64, lib, privates), name)),
{
    let to = destination_dir(dir, dest_root, lib64, lib, privates);
    lemma_joined_is_under(dest_root, lib64);
    lemma_joined_is_under(dest_root, lib);
    lemma_private_dir_is_one_of(dir, privates);
    match private_dir(dir, privates) {
        Some(private) => {
            lemma_joined_is_under(joined(dest_root, lib64), private);
            assert(dest_root.is_prefix_of(to)) by {
                assert(to.subrange(0, dest_root.len() as int) =~= joined(dest_root, lib64).subrange(
                    0,
                    dest_root.len() as int,
                ));
            }
        },
        None => {},
    }
    lemma_joined_is_under(to, name);
    assert(joined(to, name).subrange(0, dest_root.len() as int) =~= to.subrange(
        0,
        dest_root.len() as int,
    ));
}

/// The private directory that a search directory lies in is one of those declared.
proof fn lemma_private_dir_is_one_of(dir: Seq<char>, privates: Seq<Seq<char>>)
    ensures
        private_dir(dir, privates) matches Some(private) ==> exists|i: int|
            0 <= i < privates.len() && #[trigger] privates[i] == private,
    decreases privates.len(),
{
    if privates.len() > 0 {
        if in_private_dir(dir, privates[0]) {
            assert(privates[0] == private_dir(dir, privates)->Some_0);
        } else {
            let rest = privates.drop_first();
            lemma_private_dir_is_one_of(dir, rest);
            if private_dir(dir, rest) is Some {
                let i = choose|i: int|
                    0 <= i < rest.len() && #[trigger] rest[i] == private_dir(dir, rest)->Some_0;
                assert(privates[i + 1] == rest[i]);
            }
        }
    }
}

/// A library that is a symbolic link to a file that exists arrives as both:
/// the file is copied beside the destination under its own name, and the
/// link is made anew at the destination and points at that name, so that it
/// is relative and leads to the copy, whatever path the source link held.
///
/// The answers are: nothing is at the destination; the link points at
/// `target`; the file behind it exists; nothing is at the place for that
/// file; the copy is done; still nothing is at the destination; the link is
/// made.
pub proof fn lemma_link_round_trip(
    placement: PlacementView,
    target: Seq<char>,
    absent: PathInfo,
    there: PathInfo,
)
    requires
        placement.stage == Stage::CheckingDest,
        placement.src_is_symlink,
        !absent.exists,
        there.exists,
        link_source(placement.source_root, placement.src(), target) is Some,
        target_destination(placement.dest(), target) is Some,
    ensures
        ({
            let actual = link_source(placement.source_root, placement.src(), target)->Some_0;
            let place = target_destination(placement.dest(), target)->Some_0;
            let (p1, t1) = placement.after(Reply::Info(absent));
            let (p2, t2) = p1.after(Reply::Target(target));
            let (p3, t3) = p2.after(Reply::Info(there));
            let (p4, t4) = p3.after(Reply::Info(absent));
            let (p5, t5) = p4.after(Reply::Done);
            let (p6, t6) = p5.after(Reply::Info(absent));
            let (p7, t7) = p6.after(Reply::Done);
            &&& t1 == Turn::<()>::Ask(Op::ReadLink(placement.src()))
            &&& t2 == Turn::<()>::Ask(Op::Stat(actual))
            &&& t3 == Turn::<()>::Ask(Op::Stat(place))
            &&& t4 == Turn::<()>::Ask(Op::CopyFile { from: actual, to: place })
            &&& t5 == Turn::<()>::Ask(Op::Stat(placement.dest()))
            &&& t6 == Turn::<()>::Ask(
                Op::Symlink { target: target_name(target), link: placement.dest() },
            )
            &&& place == joined(parent_of(placement.dest())->Some_0, target_name(target))
            &&& t7 == Turn::<()>::Done(())
            &&& p7.stage == Stage::Finished
        }),
{
}

/// The file behind a link whose target is a bare name is kept under that
/// name in the directory of the link, and the link made points at that
/// name: such a link arrives with its target as it was written.
pub proof fn lemma_bare_target_stays_beside(dest: Seq<char>, target: Seq<char>)
    requires
        parent_of(dest) is Some,
        target.len() > 0,
        forall|i: int| 0 <= i < target.len() ==> target[i] != '/',
        target != ".."@,
        target != "."@,
    ensures
        file_name_of(target) == Some(target),
        target_name(target) == target,
        target_destination(dest, target) == Some(joined(parent_of(dest)->Some_0, target)),
{
    lemma_trimmed_len_no_sep(target);
    lemma_last_sep_none(target, target.len() as int);
    assert(target.subrange(0, target.len() as int) =~= target);
}

/// A path without separators keeps its length when trimmed.
proof fn lemma_trimmed_len_no_sep(path: Seq<char>)
    requires
        forall|i: int| 0 <= i < path.len() ==> path[i] != '/',
    ensures
        crate::paths::trimmed_len(path) == path.len(),
{
}

/// A path without separators has no last separator.
proof fn lemma_last_sep_none(path: Seq<char>, end: int)
    requires
        0 <= end <= path.len(),
        forall|i: int| 0 <= i < path.len() ==> path[i] != '/',
    ensures
        crate::paths::last_sep(path, end) == -1,
    decreases end,
{
    if end > 0 {
        lemma_last_sep_none(path, end - 1);
    }
}

/// What a tree answers when asked about the first `n` of `paths` in turn.
pub open spec fn probes(tree: &SourceTree, paths: Seq<Seq<char>>, n: int) -> Seq<Reply> {
    Seq::new(n as nat, |k: int| Reply::Info(tree.info(paths[k])))
}

/// While the tree has the library at none of the candidates asked about, the
/// placement asks about the next one.
proof fn lemma_search_goes_on(placement: PlacementView, tree: &SourceTree, n: int)
    requires
        placement.stage == Stage::Start,
        placement.index == 0,
        0 <= n < placement.candidates.len(),
        forall|k: int| 0 <= k < n ==> !hit(tree, #[trigger] placement.candidates[k], true),
    ensures
        placement.run(probes(tree, placement.candidates, n)) == (PlacementView {
            index: n,
            ..placement
        }).asking(Stage::Searching, Op::Stat(placement.candidates[n])),
    decreases n,
{
    if n > 0 {
        lemma_search_goes_on(placement, tree, n - 1);
        let replies = probes(tree, placement.candidates, n);
        assert(replies.drop_last() =~= probes(tree, placement.candidates, n - 1));
        assert(replies.last() == Reply::Info(tree.info(placement.candidates[n - 1])));
        assert(!hit(tree, placement.candidates[n - 1], true));
    }
}

/// A placement looks for its library as `find_library` does: asked of a tree,
/// its questions end at the first candidate where the tree has the library,
/// and it goes on from there; where the tree has the library nowhere, it
/// fails with `LibraryNotFound` for that library.
pub proof fn lemma_search_is_find_library(placement: PlacementView, tree: &SourceTree)
    requires
        placement.stage == Stage::Start,
        placement.index == 0,
        placement.candidates.len() > 0,
    ensures
        match first_hit(tree, placement.candidates, true) {
            Some(path) => exists|i: int|
                #![trigger placement.candidates[i]]
                0 <= i < placement.candidates.len() && placement.candidates[i] == path
                    && placement.run(probes(tree, placement.candidates, i + 1)) == (PlacementView {
                    index: i,
                    src_is_symlink: tree.info(path).is_symlink,
                    ..placement.at(Stage::Searching)
                }).found(),
            None => placement.run(
                probes(tree, placement.candidates, placement.candidates.len() as int),
            ) == (PlacementView { index: placement.candidates.len() - 1, ..placement }).failed(
                ErrorKind::LibraryNotFound,
                placement.lib_name,
                ""@,
            ),
        },
{
    let paths = placement.candidates;
    lemma_first_hit(tree, paths, true);
    match first_hit(tree, paths, true) {
        Some(path) => {
            let i = choose|i: int|
                0 <= i < paths.len() && paths[i] == path && hit(tree, path, true) && forall|
                    j: int,
                | 0 <= j < i ==> !hit(tree, #[trigger] paths[j], true);
            lemma_search_goes_on(placement, tree, i);
            let replies = probes(tree, paths, i + 1);
            assert(replies.drop_last() =~= probes(tree, paths, i));
            assert(replies.last() == Reply::Info(tree.info(paths[i])));
        },
        None => {
            let n = paths.len() as int;
            lemma_search_goes_on(placement, tree, n - 1);
            let replies = probes(tree, paths, n);
            assert(replies.drop_last() =~= probes(tree, paths, n - 1));
            assert(replies.last() == Reply::Info(tree.info(paths[n - 1])));
            assert(!hit(tree, paths[n - 1], true));
        },
    }
}

/// Of the four standard library directories, the two named `lib64` are
/// 64-bit and the two named `lib` are not. So a library found under `usr/lib`
/// or `lib` goes to the generic library directory of the destination, and one
/// found under `usr/lib64` or `lib64` to the 64-bit one, whatever the root of
/// the source tree and the name of the library are, as long as none of them is
/// declared private.
pub proof fn lemma_standard_directories_are_mirrored(
    dest_root: Seq<char>,
    lib64: Seq<char>,
    lib: Seq<char>,
)
    ensures
        destination_dir("usr/lib64"@, dest_root, lib64, lib, Seq::empty()) == joined(
            dest_root,
            lib64,
        ),
        destination_dir("lib64"@, dest_root, lib64, lib, Seq::empty()) == joined(dest_root, lib64),
        destination_dir("usr/lib"@, dest_root, lib64, lib, Seq::empty()) == joined(dest_root, lib),
        destination_dir("lib"@, dest_root, lib64, lib, Seq::empty()) == joined(dest_root, lib),
{
    reveal_strlit("/");
    reveal_strlit("/lib64/");
    reveal_strlit("usr/lib64");
    reveal_strlit("lib64");
    reveal_strlit("usr/lib");
    reveal_strlit("lib");
    let marker = "/lib64/"@;
    let a = fenced("usr/lib64"@);
    assert(a.subrange(4, 11) =~= marker);
    assert(occurs_at(a, marker, 4));
    let b = fenced("lib64"@);
    assert(b.subrange(0, 7) =~= marker);
    assert(occurs_at(b, marker, 0));
    let c = fenced("usr/lib"@);
    assert forall|i: int| !occurs_at(c, marker, i) by {
        if 0 <= i && i + 7 <= c.len() {
            assert(c.subrange(i, i + 7)[1] == c[i + 1]);
            assert(marker[1] == 'l');
        }
    }
    let d = fenced("lib"@);
    assert forall|i: int| !occurs_at(d, marker, i) by {}
}

} // verus!
