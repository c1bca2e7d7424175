//! Mirroring a directory tree, symbolic links kept as links.

use vstd::prelude::*;
use vstd::string::*;
use crate::error::ErrorKind;
use crate::ops::{ask_copy, ask_stat, ask_symlink, fail, Answer, Op, Reply, Request, Step, Turn};
use crate::paths::{join, joined};
use crate::text::texts;
use crate::tree::PathInfo;

verus! {

/// How far the copy of a tree has come.
#[derive(Clone, Copy, Debug, PartialEq, Eq, Structural)]
pub enum CopyStage {
    /// Nothing was asked yet.
    Start,
    /// Asked what the source is.
    Entering,
    /// Asked for the destination directory.
    MakingDir,
    /// Asked for the names in the source directory.
    Listing,
    /// Asked what the entry in turn is.
    Classifying,
    /// Asked where the entry, a symbolic link, points.
    ReadingLink,
    /// Asked what is at the destination of the link.
    CheckingDest,
    /// Asked for the removal of what is at the destination of the link.
    Removing,
    /// Asked for the link.
    Linking,
    /// Asked for a copy of the entry, a file.
    Copying,
    /// Asked what the copy is.
    Measuring,
    /// Over.
    Finished,
}

/// A directory that is being copied: its names, and how many were taken up.
pub struct Frame {
    src: String,
    dst: String,
    names: Vec<String>,
    next: usize,
}

/// A frame, by the texts it holds.
pub struct FrameView {
    pub src: Seq<char>,
    pub dst: Seq<char>,
    pub names: Seq<Seq<char>>,
    pub next: int,
}

impl View for Frame {
    type V = FrameView;

    closed spec fn view(&self) -> FrameView {
        FrameView {
            src: self.src@,
            dst: self.dst@,
            names: texts(self.names@),
            next: self.next as int,
        }
    }
}

/// The views of a stack of frames.
pub closed spec fn frame_views(frames: Seq<Frame>) -> Seq<FrameView> {
    Seq::new(frames.len(), |i: int| frames[i]@)
}

/// The copy of one directory tree.
pub struct TreeCopy {
    overwrite: bool,
    frames: Vec<Frame>,
    stage: CopyStage,
    src: String,
    dst: String,
    target: String,
    total: u64,
}

/// The copy of a tree, by the texts it holds.
pub struct TreeCopyView {
    /// Whether what is at the destination of a link is replaced.
    pub overwrite: bool,
    /// The directories entered and not yet left, outermost first.
    pub frames: Seq<FrameView>,
    pub stage: CopyStage,
    /// The source path at hand.
    pub src: Seq<char>,
    /// The destination path at hand.
    pub dst: Seq<char>,
    /// The target of the link at hand.
    pub target: Seq<char>,
    /// The bytes of the files copied so far.
    pub total: int,
}

impl View for TreeCopy {
    type V = TreeCopyView;

    closed spec fn view(&self) -> TreeCopyView {
        TreeCopyView {
            overwrite: self.overwrite,
            frames: frame_views(self.frames@),
            stage: self.stage,
            src: self.src@,
            dst: self.dst@,
            target: self.target@,
            total: self.total as int,
        }
    }
}

impl TreeCopyView {
    /// The copy over, with a failure.
    pub open spec fn failed(self, kind: ErrorKind, subject: Seq<char>, detail: Seq<char>) -> (
        TreeCopyView,
        Turn<u64>,
    ) {
        (TreeCopyView { stage: CopyStage::Finished, ..self }, Turn::Failed(kind, subject, detail))
    }

    /// The copy at `stage`, waiting for `op`.
    pub open spec fn asking(self, stage: CopyStage, op: Op) -> (TreeCopyView, Turn<u64>) {
        (TreeCopyView { stage, ..self }, Turn::Ask(op))
    }

    /// What follows once the entry at hand is dealt with: the next entry of
    /// the innermost directory that has one, or the end with the bytes copied.
    pub open spec fn resume(self) -> (TreeCopyView, Turn<u64>)
        decreases self.frames.len(),
    {
        if self.frames.len() == 0 {
            (
                TreeCopyView { stage: CopyStage::Finished, ..self },
                Turn::Done(self.total as u64),
            )
        } else {
            let top = self.frames.last();
            if 0 <= top.next < top.names.len() {
                let name = top.names[top.next];
                TreeCopyView {
                    frames: self.frames.update(
                        self.frames.len() - 1,
                        FrameView { next: top.next + 1, ..top },
                    ),
                    src: joined(top.src, name),
                    dst: joined(top.dst, name),
                    ..self
                }.asking(CopyStage::Classifying, Op::Stat(joined(top.src, name)))
            } else {
                TreeCopyView { frames: self.frames.drop_last(), ..self }.resume()
            }
        }
    }

    /// The first step: ask what the source is.
    pub open spec fn first(self) -> (TreeCopyView, Turn<u64>) {
        if self.stage == CopyStage::Start {
            self.asking(CopyStage::Entering, Op::Stat(self.src))
        } else {
            self.failed(ErrorKind::Protocol, self.src, ""@)
        }
    }

    /// The copy after its first step and then each of `replies` in turn, and
    /// what it wants then.
    pub open spec fn run(self, replies: Seq<Reply>) -> (TreeCopyView, Turn<u64>)
        decreases replies.len(),
    {
        if replies.len() == 0 {
            self.first()
        } else {
            self.run(replies.drop_last()).0.after(replies.last())
        }
    }

    /// The bytes that `reply` adds: the size of the copy that it reports.
    pub open spec fn counted(self, reply: Reply) -> int {
        match reply {
            Reply::Info(info) => if self.stage == CopyStage::Measuring && info.exists {
                info.len as int
            } else {
                0
            },
            _ => 0,
        }
    }

    /// The bytes that `replies` add over a whole run: the sizes of the
    /// copies of files, and nothing for links and directories.
    pub open spec fn bytes_counted(self, replies: Seq<Reply>) -> int
        decreases replies.len(),
    {
        if replies.len() == 0 {
            0
        } else {
            self.bytes_counted(replies.drop_last()) + self.run(replies.drop_last()).0.counted(
                replies.last(),
            )
        }
    }

    /// Whether `reply` can be taken: the bytes copied stay within `u64`.
    pub open spec fn fits(self, reply: Reply) -> bool {
        match reply {
            Reply::Info(info) => self.stage == CopyStage::Measuring && info.exists ==> self.total
                + info.len <= u64::MAX,
            _ => true,
        }
    }

    /// The copy after `reply`, and what it wants next.
    pub open spec fn after(self, reply: Reply) -> (TreeCopyView, Turn<u64>) {
        match (self.stage, reply) {
            (CopyStage::Entering, Reply::Info(info)) => {
                if info.is_dir {
                    self.asking(CopyStage::MakingDir, Op::CreateDirAll(self.dst))
                } else {
                    self.resume()
                }
            },
            (CopyStage::MakingDir, Reply::Done) => self.asking(
                CopyStage::Listing,
                Op::ReadDir(self.src),
            ),
            (CopyStage::Listing, Reply::Names(names)) => TreeCopyView {
                frames: self.frames.push(
                    FrameView { src: self.src, dst: self.dst, names, next: 0 },
                ),
                ..self
            }.resume(),
            (CopyStage::Classifying, Reply::Info(info)) => {
                if info.is_symlink {
                    self.asking(CopyStage::ReadingLink, Op::ReadLink(self.src))
                } else if info.is_dir {
                    self.asking(CopyStage::MakingDir, Op::CreateDirAll(self.dst))
                } else {
                    self.asking(CopyStage::Copying, Op::CopyFile { from: self.src, to: self.dst })
                }
            },
            (CopyStage::ReadingLink, Reply::Target(target)) => TreeCopyView {
                target,
                ..self
            }.asking(CopyStage::CheckingDest, Op::Stat(self.dst)),
            (CopyStage::CheckingDest, Reply::Info(info)) => {
                if !info.present() {
                    self.asking(
                        CopyStage::Linking,
                        Op::Symlink { target: self.target, link: self.dst },
                    )
                } else if self.overwrite {
                    self.asking(CopyStage::Removing, Op::RemoveFile(self.dst))
                } else {
                    self.resume()
                }
            },
            (CopyStage::Removing, Reply::Done) => self.asking(
                CopyStage::Linking,
                Op::Symlink { target: self.target, link: self.dst },
            ),
            (CopyStage::Linking, Reply::Done) => self.resume(),
            (CopyStage::Copying, Reply::Done) => self.asking(
                CopyStage::Measuring,
                Op::Stat(self.dst),
            ),
            (CopyStage::Measuring, Reply::Info(info)) => TreeCopyView {
                total: if info.exists {
                    self.total + info.len
                } else {
                    self.total
                },
                ..self
            }.resume(),
            (CopyStage::MakingDir, Reply::Failed(detail)) => self.failed(
                ErrorKind::IoFailure,
                self.dst,
                detail,
            ),
            (CopyStage::Listing, Reply::Failed(detail)) => self.failed(
                ErrorKind::IoFailure,
                self.src,
                detail,
            ),
            (CopyStage::ReadingLink, Reply::Failed(detail)) => self.failed(
                ErrorKind::IoFailure,
                self.src,
                detail,
            ),
            (CopyStage::Removing, Reply::Failed(detail)) => self.failed(
                ErrorKind::IoFailure,
                self.dst,
                detail,
            ),
            (CopyStage::Linking, Reply::Failed(detail)) => self.failed(
                ErrorKind::IoFailure,
                self.dst,
                detail,
            ),
            (CopyStage::Copying, Reply::Failed(detail)) => self.failed(
                ErrorKind::IoFailure,
                self.dst,
                detail,
            ),
            _ => self.failed(ErrorKind::Protocol, self.src, ""@),
        }
    }
}

/// Starts the copy of the tree at `src` to `dst`. What is at the destination
/// of a symbolic link stays as it is.
///
/// The copy is carried on with `begin` and then `advance`, once for each
/// answer; `TreeCopyView::after` says what it asks for in each situation. It
/// ends with the bytes of the files that were copied.
pub fn copy_dir_recursive(src: &str, dst: &str) -> (job: TreeCopy)
    ensures
        job@ == start_of(src@, dst@, false),
{
    copy_dir_recursive_impl(src, dst, false)
}

/// Starts the copy of the tree at `src` to `dst`. What is at the destination
/// of a symbolic link is removed, and the link made anew.
///
/// The copy is carried on as that of `copy_dir_recursive`, and ends with the
/// bytes of the files that were copied.
pub fn copy_dir_recursive_overwrite(src: &str, dst: &str) -> (job: TreeCopy)
    ensures
        job@ == start_of(src@, dst@, true),
{
    copy_dir_recursive_impl(src, dst, true)
}

/// A copy of which nothing was asked yet.
pub open spec fn start_of(src: Seq<char>, dst: Seq<char>, overwrite: bool) -> TreeCopyView {
    TreeCopyView {
        overwrite,
        frames: Seq::empty(),
        stage: CopyStage::Start,
        src,
        dst,
        target: Seq::empty(),
        total: 0,
    }
}

/// Starts the copy of the tree at `src` to `dst` under the given policy.
pub fn copy_dir_recursive_impl(src: &str, dst: &str, overwrite: bool) -> (job: TreeCopy)
    ensures
        job@ == start_of(src@, dst@, overwrite),
{
    let job = TreeCopy {
        overwrite,
        frames: Vec::new(),
        stage: CopyStage::Start,
        src: String::from_str(src),
        dst: String::from_str(dst),
        target: String::new(),
        total: 0,
    };
    assert(job@.frames =~= Seq::empty());
    job
}

impl Frame {
    #[verifier::type_invariant]
    spec fn well_formed(&self) -> bool {
        self.next <= self.names@.len()
    }
}

impl TreeCopy {
    /// Whether the copy is over.
    pub fn is_finished(&self) -> (yes: bool)
        ensures
            yes == (self@.stage == CopyStage::Finished),
    {
        self.stage == CopyStage::Finished
    }

    /// Whether `answer` can be taken: the bytes copied stay within `u64`.
    pub fn accepts(&self, answer: &Answer) -> (yes: bool)
        ensures
            yes == self@.fits(answer@),
    {
        match answer {
            Answer::Info(info) => {
                !(self.stage == CopyStage::Measuring && info.exists) || info.len <= u64::MAX
                    - self.total
            },
            _ => true,
        }
    }

    /// Ends the copy with a failure.
    fn end_failed(&mut self, kind: ErrorKind, subject: &str, detail: &str) -> (step: Step<u64>)
        ensures
            (final(self)@, step@) == old(self)@.failed(kind, subject@, detail@),
    {
        self.stage = CopyStage::Finished;
        fail(kind, subject, detail)
    }

    /// Ends the copy with a failure that concerns the source at hand.
    fn fail_src(&mut self, kind: ErrorKind, detail: &str) -> (step: Step<u64>)
        ensures
            (final(self)@, step@) == old(self)@.failed(kind, old(self)@.src, detail@),
    {
        let subject = self.src.clone();
        self.end_failed(kind, subject.as_str(), detail)
    }

    /// Ends the copy with a failure that concerns the destination at hand.
    fn fail_dst(&mut self, kind: ErrorKind, detail: &str) -> (step: Step<u64>)
        ensures
            (final(self)@, step@) == old(self)@.failed(kind, old(self)@.dst, detail@),
    {
        let subject = self.dst.clone();
        self.end_failed(kind, subject.as_str(), detail)
    }

    /// Moves to `stage` with the request `request`.
    fn ask(&mut self, stage: CopyStage, request: Request) -> (step: Step<u64>)
        ensures
            (final(self)@, step@) == old(self)@.asking(stage, request@),
    {
        self.stage = stage;
        Step::Ask(request)
    }

    /// Asks for the link at hand.
    fn ask_link(&mut self) -> (step: Step<u64>)
        ensures
            (final(self)@, step@) == old(self)@.asking(
                CopyStage::Linking,
                Op::Symlink { target: old(self)@.target, link: old(self)@.dst },
            ),
    {
        let request = Request::Symlink { target: self.target.clone(), link: self.dst.clone() };
        self.ask(CopyStage::Linking, request)
    }

    /// Takes up the next entry, or ends the copy.
    fn resume(&mut self) -> (step: Step<u64>)
        ensures
            (final(self)@, step@) == old(self)@.resume(),
    {
        loop
            invariant
                self@.resume() == old(self)@.resume(),
            decreases self.frames@.len(),
        {
            let ghost before = self@;
            match self.frames.pop() {
                None => {
                    assert(before.frames.len() == 0);
                    self.stage = CopyStage::Finished;
                    return Step::Finished(Ok(self.total));
                },
                Some(top) => {
                    let ghost rest = self@;
                    assert(rest.frames =~= before.frames.drop_last());
                    assert(before.frames.last() == top@);
                    proof {
                        use_type_invariant(&top);
                    }
                    if top.next < top.names.len() {
                        let mut top = top;
                        let src = join(top.src.as_str(), top.names[top.next].as_str());
                        let dst = join(top.dst.as_str(), top.names[top.next].as_str());
                        top.next = top.next + 1;
                        let ghost moved = top@;
                        self.frames.push(top);
                        self.src = src;
                        self.dst = dst;
                        self.stage = CopyStage::Classifying;
                        assert(self@.frames =~= before.frames.update(
                            before.frames.len() - 1,
                            moved,
                        ));
                        return ask_stat(self.src.as_str());
                    }
                },
            }
        }
    }

    /// The first step of the copy.
    pub fn begin(&mut self) -> (step: Step<u64>)
        ensures
            (final(self)@, step@) == old(self)@.first(),
    {
        if self.stage == CopyStage::Start {
            let request = Request::Stat(self.src.clone());
            self.ask(CopyStage::Entering, request)
        } else {
            self.fail_src(ErrorKind::Protocol, "")
        }
    }

    /// Continues the copy with the answer to the request made last.
    ///
    /// A source that is no directory ends the copy with nothing copied. Each
    /// directory is created in the destination and its entries are taken in
    /// the order given. A symbolic link, whatever it points at, a directory
    /// too, is made anew with its target as written, where nothing is at its
    /// destination or the policy is to overwrite, in which case what is there
    /// is removed first. A directory that is no link is entered. A file is
    /// copied whatever is at its destination, and the size of the copy is
    /// added to the bytes copied. An operation that fails, and an answer
    /// that does not fit the request, end the copy with a failure.
    pub fn advance(&mut self, answer: &Answer) -> (step: Step<u64>)
        requires
            old(self)@.fits(answer@),
        ensures
            (final(self)@, step@) == old(self)@.after(answer@),
    {
        let stage = self.stage;
        match answer {
            Answer::Info(info) => {
                match stage {
                    CopyStage::Entering => {
                        if info.is_dir {
                            let request = Request::CreateDirAll(self.dst.clone());
                            self.ask(CopyStage::MakingDir, request)
                        } else {
                            self.resume()
                        }
                    },
                    CopyStage::Classifying => {
                        if info.is_symlink {
                            let request = Request::ReadLink(self.src.clone());
                            self.ask(CopyStage::ReadingLink, request)
                        } else if info.is_dir {
                            let request = Request::CreateDirAll(self.dst.clone());
                            self.ask(CopyStage::MakingDir, request)
                        } else {
                            let request = Request::CopyFile {
                                from: self.src.clone(),
                                to: self.dst.clone(),
                            };
                            self.ask(CopyStage::Copying, request)
                        }
                    },
                    CopyStage::CheckingDest => {
                        if !info.is_present() {
                            self.ask_link()
                        } else if self.overwrite {
                            let request = Request::RemoveFile(self.dst.clone());
                            self.ask(CopyStage::Removing, request)
                        } else {
                            self.resume()
                        }
                    },
                    CopyStage::Measuring => {
                        if info.exists {
                            self.total = self.total + info.len;
                        }
                        self.resume()
                    },
                    _ => self.fail_src(ErrorKind::Protocol, ""),
                }
            },
            Answer::Target(target) => {
                match stage {
                    CopyStage::ReadingLink => {
                        self.target = target.clone();
                        let request = Request::Stat(self.dst.clone());
                        self.ask(CopyStage::CheckingDest, request)
                    },
                    _ => self.fail_src(ErrorKind::Protocol, ""),
                }
            },
            Answer::Names(names) => {
                match stage {
                    CopyStage::Listing => {
                        let mut listed: Vec<String> = Vec::new();
                        let mut i: usize = 0;
                        while i < names.len()
                            invariant
                                i <= names.len(),
                                listed@.len() == i,
                                forall|k: int| 0 <= k < i ==> listed@[k]@ == names@[k]@,
                            decreases names.len() - i,
                        {
                            listed.push(names[i].clone());
                            i += 1;
                        }
                        assert(texts(listed@) =~= texts(names@));
                        let ghost before = self@;
                        let frame = Frame {
                            src: self.src.clone(),
                            dst: self.dst.clone(),
                            names: listed,
                            next: 0,
                        };
                        let ghost pushed = frame@;
                        self.frames.push(frame);
                        assert(self@.frames =~= before.frames.push(pushed));
                        self.resume()
                    },
                    _ => self.fail_src(ErrorKind::Protocol, ""),
                }
            },
            Answer::Done => {
                match stage {
                    CopyStage::MakingDir => {
                        let request = Request::ReadDir(self.src.clone());
                        self.ask(CopyStage::Listing, request)
                    },
                    CopyStage::Removing => self.ask_link(),
                    CopyStage::Linking => self.resume(),
                    CopyStage::Copying => {
                        let request = Request::Stat(self.dst.clone());
                        self.ask(CopyStage::Measuring, request)
                    },
                    _ => self.fail_src(ErrorKind::Protocol, ""),
                }
            },
            Answer::Failed(detail) => {
                match stage {
                    CopyStage::MakingDir | CopyStage::Removing | CopyStage::Linking
                    | CopyStage::Copying => self.fail_dst(ErrorKind::IoFailure, detail.as_str()),
                    CopyStage::Listing | CopyStage::ReadingLink => self.fail_src(
                        ErrorKind::IoFailure,
                        detail.as_str(),
                    ),
                    _ => self.fail_src(ErrorKind::Protocol, ""),
                }
            },
            Answer::Run(_) => self.fail_src(ErrorKind::Protocol, ""),
        }
    }
}

/// Taking up the next entry never touches the tree: it asks what the entry
/// is, or ends the copy with the bytes copied.
pub proof fn lemma_resume_only_looks(copy: TreeCopyView)
    ensures
        copy.resume().1 is Done || (copy.resume().1 matches Turn::Ask(op) && op is Stat),
        copy.resume().1 matches Turn::Done(bytes) ==> bytes == copy.total as u64,
        copy.resume().0.total == copy.total,
        copy.resume().0.overwrite == copy.overwrite,
        copy.resume().0.stage == CopyStage::Classifying || copy.resume().0.stage
            == CopyStage::Finished,
    decreases copy.frames.len(),
{
    if copy.frames.len() > 0 {
        let top = copy.frames.last();
        if !(0 <= top.next < top.names.len()) {
            lemma_resume_only_looks(TreeCopyView { frames: copy.frames.drop_last(), ..copy });
        }
    }
}

/// Under the policy that preserves, a symbolic link of the source whose
/// destination is taken, by a file or by a link to anywhere, leaves that
/// destination as it is: nothing is removed and no link is made, and the copy
/// goes on with the next entry.
pub proof fn lemma_preserve_keeps_destination(copy: TreeCopyView, target: Seq<char>, info: PathInfo)
    requires
        copy.stage == CopyStage::ReadingLink,
        !copy.overwrite,
        info.present(),
    ensures
        ({
            let (c1, t1) = copy.after(Reply::Target(target));
            let (c2, t2) = c1.after(Reply::Info(info));
            &&& t1 == Turn::<u64>::Ask(Op::Stat(copy.dst))
            &&& (c2, t2) == c1.resume()
            &&& t2 is Done || (t2 matches Turn::Ask(op) && op is Stat)
        }),
{
    lemma_resume_only_looks(copy.after(Reply::Target(target)).0);
}

/// Under the policy that overwrites, a symbolic link of the source whose
/// destination is taken has that destination removed and the link made anew
/// with the target that the source link has.
pub proof fn lemma_overwrite_replaces_destination(
    copy: TreeCopyView,
    target: Seq<char>,
    info: PathInfo,
)
    requires
        copy.stage == CopyStage::ReadingLink,
        copy.overwrite,
        info.present(),
    ensures
        ({
            let (c1, t1) = copy.after(Reply::Target(target));
            let (c2, t2) = c1.after(Reply::Info(info));
            let (c3, t3) = c2.after(Reply::Done);
            let (c4, t4) = c3.after(Reply::Done);
            &&& t1 == Turn::<u64>::Ask(Op::Stat(copy.dst))
            &&& t2 == Turn::<u64>::Ask(Op::RemoveFile(copy.dst))
            &&& t3 == Turn::<u64>::Ask(Op::Symlink { target, link: copy.dst })
            &&& (c4, t4) == c3.resume()
        }),
{
}

/// Under either policy, a symbolic link of the source whose destination is
/// free is made there with the target that the source link has.
pub proof fn lemma_free_destination_gets_link(copy: TreeCopyView, target: Seq<char>, info: PathInfo)
    requires
        copy.stage == CopyStage::ReadingLink,
        !info.present(),
    ensures
        ({
            let (c1, t1) = copy.after(Reply::Target(target));
            let (c2, t2) = c1.after(Reply::Info(info));
            t2 == Turn::<u64>::Ask(Op::Symlink { target, link: copy.dst })
        }),
{
}

/// What every step of a copy keeps to: the policy stays; the bytes copied
/// grow by the size of a copy that is reported and by nothing else; a removal
/// is asked for only under the policy that overwrites, for the destination of
/// a link that was found taken; and a link is asked for only at a destination
/// that was just reported free or was just cleared.
pub proof fn lemma_step_keeps_the_rules(copy: TreeCopyView, reply: Reply)
    ensures
        copy.after(reply).0.overwrite == copy.overwrite,
        copy.after(reply).0.total == copy.total + copy.counted(reply),
        copy.after(reply).1 matches Turn::Done(bytes) ==> bytes == (copy.total + copy.counted(
            reply,
        )) as u64,
        removes(copy.after(reply).1) ==> copy.overwrite && copy.stage == CopyStage::CheckingDest,
        copy.after(reply).0.stage == CopyStage::Removing ==> removes(copy.after(reply).1),
        links_over(copy.after(reply).1, reply) ==> copy.stage == CopyStage::Removing,
{
    match (copy.stage, reply) {
        (CopyStage::Entering, Reply::Info(info)) => {
            lemma_resume_only_looks(copy);
        },
        (CopyStage::Listing, Reply::Names(names)) => {
            lemma_resume_only_looks(
                TreeCopyView {
                    frames: copy.frames.push(
                        FrameView { src: copy.src, dst: copy.dst, names, next: 0 },
                    ),
                    ..copy
                },
            );
        },
        (CopyStage::CheckingDest, Reply::Info(info)) => {
            lemma_resume_only_looks(copy);
        },
        (CopyStage::Linking, Reply::Done) => {
            lemma_resume_only_looks(copy);
        },
        (CopyStage::Measuring, Reply::Info(info)) => {
            lemma_resume_only_looks(
                TreeCopyView {
                    total: if info.exists {
                        copy.total + info.len
                    } else {
                        copy.total
                    },
                    ..copy
                },
            );
        },
        _ => {},
    }
}

/// Whether `turn` asks for a removal.
pub open spec fn removes(turn: Turn<u64>) -> bool {
    match turn {
        Turn::Ask(Op::RemoveFile(_)) => true,
        _ => false,
    }
}

/// Whether `turn` asks for a link at a destination that `last` did not just
/// report as free.
pub open spec fn links_over(turn: Turn<u64>, last: Reply) -> bool {
    match turn {
        Turn::Ask(Op::Symlink { .. }) => match last {
            Reply::Info(info) => info.present(),
            _ => true,
        },
        _ => false,
    }
}

/// A symbolic link stays a link: whatever it points at, a directory too, the
/// copy asks where it points and never enters it. A directory that is no
/// link is made in the destination, and a file is copied whatever is at its
/// destination.
pub proof fn lemma_entries_by_kind(copy: TreeCopyView, info: PathInfo)
    requires
        copy.stage == CopyStage::Classifying,
    ensures
        info.is_symlink ==> copy.after(Reply::Info(info)).1 == Turn::<u64>::Ask(
            Op::ReadLink(copy.src),
        ),
        !info.is_symlink && info.is_dir ==> copy.after(Reply::Info(info)).1 == Turn::<u64>::Ask(
            Op::CreateDirAll(copy.dst),
        ),
        !info.is_symlink && !info.is_dir ==> copy.after(Reply::Info(info)).1 == Turn::<u64>::Ask(
            Op::CopyFile { from: copy.src, to: copy.dst },
        ),
{
}

/// The bytes that a copy ends with are the sizes of the copies of files that
/// were reported to it, and nothing else: links and directories add nothing.
pub proof fn lemma_total_counts_copies(copy: TreeCopyView, replies: Seq<Reply>)
    ensures
        copy.run(replies).0.total == copy.total + copy.bytes_counted(replies),
        copy.run(replies).1 matches Turn::Done(bytes) ==> bytes == (copy.total
            + copy.bytes_counted(replies)) as u64,
    decreases replies.len(),
{
    if replies.len() > 0 {
        lemma_total_counts_copies(copy, replies.drop_last());
        lemma_step_keeps_the_rules(copy.run(replies.drop_last()).0, replies.last());
    }
}

/// Under the policy that preserves, a copy never asks for a removal, and asks
/// for a link only at a destination that was just reported free: what is at
/// the destination of a link stays as it is, whatever the source holds.
pub proof fn lemma_preserve_never_replaces(copy: TreeCopyView, replies: Seq<Reply>)
    requires
        copy.stage == CopyStage::Start,
        !copy.overwrite,
    ensures
        !removes(copy.run(replies).1),
        replies.len() > 0 ==> !links_over(copy.run(replies).1, replies.last()),
        replies.len() == 0 ==> copy.run(replies).1 == Turn::<u64>::Ask(Op::Stat(copy.src)),
        copy.run(replies).0.stage != CopyStage::Removing,
        !copy.run(replies).0.overwrite,
    decreases replies.len(),
{
    if replies.len() > 0 {
        lemma_preserve_never_replaces(copy, replies.drop_last());
        lemma_step_keeps_the_rules(copy.run(replies.drop_last()).0, replies.last());
    }
}

} // verus!
