//! A record of what was observed in a source tree.
//!
//! The tree is keyed by path exactly as written. A path that was never
//! recorded counts as missing; recording a path again replaces what was known
//! of it.

use vstd::prelude::*;
use vstd::string::*;

verus! {

/// What the file system reports for one path.
#[derive(Clone, Copy, Debug, PartialEq, Eq, Structural)]
pub struct PathInfo {
    /// Something is there once symbolic links are followed.
    pub exists: bool,
    /// Following symbolic links ends at a directory.
    pub is_dir: bool,
    /// The path itself is a symbolic link, dangling or not.
    pub is_symlink: bool,
    /// Size in bytes of what following symbolic links ends at.
    pub len: u64,
}

impl PathInfo {
    /// Either something is there, or the path is a symbolic link to nowhere.
    pub open spec fn present(self) -> bool {
        self.exists || self.is_symlink
    }

    /// What is reported for a path where nothing is.
    pub open spec fn nothing() -> PathInfo {
        PathInfo { exists: false, is_dir: false, is_symlink: false, len: 0 }
    }

    /// What is reported for a path where nothing is.
    pub fn missing() -> (info: PathInfo)
        ensures
            info == PathInfo::nothing(),
    {
        PathInfo { exists: false, is_dir: false, is_symlink: false, len: 0 }
    }

    /// What is reported for a regular file of `len` bytes.
    pub fn file(len: u64) -> (info: PathInfo)
        ensures
            info == (PathInfo { exists: true, is_dir: false, is_symlink: false, len }),
    {
        PathInfo { exists: true, is_dir: false, is_symlink: false, len }
    }

    /// What is reported for a directory.
    pub fn directory() -> (info: PathInfo)
        ensures
            info == (PathInfo { exists: true, is_dir: true, is_symlink: false, len: 0 }),
    {
        PathInfo { exists: true, is_dir: true, is_symlink: false, len: 0 }
    }

    /// What is reported for a symbolic link; `target` says what following it finds.
    pub fn link_to(target: PathInfo) -> (info: PathInfo)
        ensures
            info == (PathInfo {
                exists: target.exists,
                is_dir: target.is_dir,
                is_symlink: true,
                len: target.len,
            }),
    {
        PathInfo { exists: target.exists, is_dir: target.is_dir, is_symlink: true, len: target.len }
    }

    /// Either something is there, or the path is a symbolic link to nowhere.
    pub fn is_present(&self) -> (yes: bool)
        ensures
            yes == self.present(),
    {
        self.exists || self.is_symlink
    }
}

/// How one run of the inspection tool on a file ended.
#[derive(Clone, Debug)]
pub enum ToolRun {
    /// The tool could not be started.
    NotStarted,
    /// The tool ran and exited.
    Exited { success: bool, stdout: String, stderr: String },
}

impl ToolRun {
    /// Whether two runs ended alike: both did not start, or both exited
    /// alike and printed the same.
    pub open spec fn alike(self, other: ToolRun) -> bool {
        match (self, other) {
            (ToolRun::NotStarted, ToolRun::NotStarted) => true,
            (
                ToolRun::Exited { success, stdout, stderr },
                ToolRun::Exited { success: other_success, stdout: other_stdout, stderr: other_stderr },
            ) => success == other_success && stdout@ == other_stdout@ && stderr@ == other_stderr@,
            _ => false,
        }
    }

    /// A copy of this run.
    pub fn copy(&self) -> (out: ToolRun)
        ensures
            out.alike(*self),
    {
        match self {
            ToolRun::NotStarted => ToolRun::NotStarted,
            ToolRun::Exited { success, stdout, stderr } => ToolRun::Exited {
                success: *success,
                stdout: stdout.clone(),
                stderr: stderr.clone(),
            },
        }
    }
}

/// What is known of one path of the source tree.
pub struct SourceFile {
    /// The path, as written.
    pub path: String,
    /// What the file system reports for it.
    pub info: PathInfo,
    /// How the inspection tool fared on it.
    pub run: ToolRun,
}

/// The entry recorded last for `path`, if any.
pub open spec fn lookup(files: Seq<SourceFile>, path: Seq<char>) -> Option<SourceFile>
    decreases files.len(),
{
    if files.len() == 0 {
        None
    } else if files.last().path@ == path {
        Some(files.last())
    } else {
        lookup(files.drop_last(), path)
    }
}

/// What is known of a source tree.
pub struct SourceTree {
    pub files: Vec<SourceFile>,
}

impl SourceTree {
    /// What the tree reports for `path`.
    pub open spec fn info(&self, path: Seq<char>) -> PathInfo {
        match lookup(self.files@, path) {
            Some(file) => file.info,
            None => PathInfo::nothing(),
        }
    }

    /// How the inspection tool fared on `path`; not started where nothing is recorded.
    pub open spec fn run(&self, path: Seq<char>) -> ToolRun {
        match lookup(self.files@, path) {
            Some(file) => file.run,
            None => ToolRun::NotStarted,
        }
    }

    /// The paths that the tree has a record of.
    pub open spec fn known(&self) -> Set<Seq<char>> {
        Set::new(|path: Seq<char>| lookup(self.files@, path) is Some)
    }

    /// A tree of which nothing is known: every path is missing.
    pub fn new() -> (tree: SourceTree)
        ensures
            tree.files@.len() == 0,
            forall|path: Seq<char>| tree.info(path) == PathInfo::nothing(),
    {
        SourceTree { files: Vec::new() }
    }

    /// Records what is known of `path`, in place of anything recorded before.
    pub fn record(&mut self, path: &str, info: PathInfo, run: ToolRun)
        ensures
            final(self).files@.len() == old(self).files@.len() + 1,
            final(self).info(path@) == info,
            final(self).run(path@) == run,
            forall|other: Seq<char>|
                other != path@ ==> lookup(final(self).files@, other) == lookup(
                    old(self).files@,
                    other,
                ),
    {
        let ghost before = self.files@;
        self.files.push(SourceFile { path: String::from_str(path), info, run });
        proof {
            assert(self.files@.drop_last() =~= before);
        }
    }

    /// Records a dynamically linked binary of `len` bytes whose dynamic
    /// section the tool printed as `dump`.
    pub fn add_binary(&mut self, path: &str, len: u64, dump: &str)
        ensures
            final(self).files@.len() == old(self).files@.len() + 1,
            final(self).info(path@) == (PathInfo {
                exists: true,
                is_dir: false,
                is_symlink: false,
                len,
            }),
            final(self).run(path@) matches ToolRun::Exited { success, stdout, stderr } && success
                && stdout@ == dump@ && stderr@ == ""@,
            forall|other: Seq<char>|
                other != path@ ==> lookup(final(self).files@, other) == lookup(
                    old(self).files@,
                    other,
                ),
    {
        let run = ToolRun::Exited {
            success: true,
            stdout: String::from_str(dump),
            stderr: String::from_str(""),
        };
        self.record(path, PathInfo::file(len), run);
    }

    /// Records a file of `len` bytes that is no binary: the tool fails on it
    /// and says that it is not an ELF file.
    pub fn add_plain(&mut self, path: &str, len: u64)
        ensures
            final(self).files@.len() == old(self).files@.len() + 1,
            final(self).info(path@) == (PathInfo {
                exists: true,
                is_dir: false,
                is_symlink: false,
                len,
            }),
            final(self).run(path@) matches ToolRun::Exited { success, stdout, stderr } && !success
                && stdout@ == ""@ && stderr@ == "readelf: Error: Not an ELF file"@,
            forall|other: Seq<char>|
                other != path@ ==> lookup(final(self).files@, other) == lookup(
                    old(self).files@,
                    other,
                ),
    {
        let run = ToolRun::Exited {
            success: false,
            stdout: String::from_str(""),
            stderr: String::from_str("readelf: Error: Not an ELF file"),
        };
        self.record(path, PathInfo::file(len), run);
    }

    /// The entry recorded last for `path`, if any.
    pub fn find(&self, path: &str) -> (found: Option<&SourceFile>)
        ensures
            found matches Some(file) ==> lookup(self.files@, path@) == Some(*file),
            found is None ==> lookup(self.files@, path@) is None,
    {
        let wanted = String::from_str(path);
        let mut n: usize = self.files.len();
        assert(self.files@.subrange(0, n as int) =~= self.files@);
        while n > 0
            invariant
                n <= self.files.len(),
                wanted@ == path@,
                lookup(self.files@, path@) == lookup(self.files@.subrange(0, n as int), path@),
            decreases n,
        {
            if self.files[n - 1].path == wanted {
                return Some(&self.files[n - 1]);
            }
            assert(self.files@.subrange(0, n as int).drop_last() =~= self.files@.subrange(
                0,
                n - 1,
            ));
            n -= 1;
        }
        None
    }

    /// What the tree reports for `path`.
    pub fn stat(&self, path: &str) -> (info: PathInfo)
        ensures
            info == self.info(path@),
    {
        match self.find(path) {
            Some(file) => file.info,
            None => PathInfo::missing(),
        }
    }
}

} // verus!
