use leviso_elf::copy::{copy_dir_recursive, copy_dir_recursive_overwrite, TreeCopy};
use leviso_elf::error::{Error, ErrorKind};
use leviso_elf::link::{create_symlink_if_missing, make_executable, LinkJob, ModeJob};
use leviso_elf::ops::{Answer, Request, Step};
use leviso_elf::paths::{join, parent};
use leviso_elf::place::{
    copy_library_to, library_destination_dir, name_of_target, place_for_target, resolve_link,
    Placement,
};
use leviso_elf::tree::PathInfo;
use std::collections::BTreeMap;

/// What one path of the in-memory tree holds.
#[derive(Clone, Debug, PartialEq)]
enum Node {
    File(String),
    Dir,
    Link(String),
}

/// An in-memory tree that carries out requests, and keeps a log of those
/// that change it.
#[derive(Clone, Debug, PartialEq)]
struct World {
    nodes: BTreeMap<String, Node>,
    modes: BTreeMap<String, u32>,
    writes: Vec<String>,
    refuse: Option<String>,
}

impl World {
    fn new() -> World {
        let mut nodes = BTreeMap::new();
        nodes.insert(String::from("/"), Node::Dir);
        World { nodes, modes: BTreeMap::new(), writes: Vec::new(), refuse: None }
    }

    fn create_dir_all(&mut self, path: &str) {
        let mut at = String::from(path);
        loop {
            self.nodes.entry(at.clone()).or_insert(Node::Dir);
            match parent(&at) {
                Some(up) if !up.is_empty() && up != at => at = up,
                _ => break,
            }
        }
    }

    fn write(&mut self, path: &str, content: &str) {
        if let Some(dir) = parent(path) {
            self.create_dir_all(&dir);
        }
        self.nodes.insert(String::from(path), Node::File(String::from(content)));
    }

    fn symlink(&mut self, target: &str, link: &str) {
        if let Some(dir) = parent(link) {
            self.create_dir_all(&dir);
        }
        self.nodes.insert(String::from(link), Node::Link(String::from(target)));
    }

    fn resolve(&self, path: &str) -> Option<String> {
        let mut at = String::from(path);
        for _ in 0..16 {
            match self.nodes.get(&at) {
                Some(Node::Link(target)) => {
                    let dir = parent(&at).unwrap_or_default();
                    at = join(&dir, target);
                }
                Some(_) => return Some(at),
                None => return None,
            }
        }
        None
    }

    fn stat(&self, path: &str) -> PathInfo {
        let is_symlink = matches!(self.nodes.get(path), Some(Node::Link(_)));
        let end = self.resolve(path).and_then(|at| self.nodes.get(&at).cloned());
        match end {
            Some(Node::File(content)) => {
                PathInfo { exists: true, is_dir: false, is_symlink, len: content.len() as u64 }
            }
            Some(_) => PathInfo { exists: true, is_dir: true, is_symlink, len: 0 },
            None => PathInfo { exists: false, is_dir: false, is_symlink, len: 0 },
        }
    }

    fn read(&self, path: &str) -> Option<String> {
        match self.resolve(path).and_then(|at| self.nodes.get(&at).cloned()) {
            Some(Node::File(content)) => Some(content),
            _ => None,
        }
    }

    fn read_link(&self, path: &str) -> Option<String> {
        match self.nodes.get(path) {
            Some(Node::Link(target)) => Some(target.clone()),
            _ => None,
        }
    }

    fn has_dir(&self, path: &str) -> bool {
        self.stat(path).is_dir
    }

    fn perform(&mut self, request: &Request) -> Answer {
        let text = format!("{:?}", request);
        if let Some(refused) = &self.refuse {
            if text.starts_with(refused.as_str()) {
                return Answer::Failed(String::from("Permission denied (os error 13)"));
            }
        }
        match request {
            Request::Stat(path) => Answer::Info(self.stat(path)),
            Request::ReadLink(path) => match self.read_link(path) {
                Some(target) => Answer::Target(target),
                None => Answer::Failed(String::from("Invalid argument (os error 22)")),
            },
            Request::ReadDir(path) => {
                let prefix = format!("{}/", path);
                let names = self
                    .nodes
                    .keys()
                    .filter_map(|key| key.strip_prefix(prefix.as_str()))
                    .filter(|rest| !rest.is_empty() && !rest.contains('/'))
                    .map(String::from)
                    .collect();
                Answer::Names(names)
            }
            Request::CreateDirAll(path) => {
                self.writes.push(text);
                self.create_dir_all(path);
                Answer::Done
            }
            Request::CopyFile { from, to } => {
                self.writes.push(text);
                let dir = parent(to).unwrap_or_default();
                match self.read(from) {
                    Some(content) if self.has_dir(&dir) => {
                        let at = match self.read_link(to) {
                            Some(target) => join(&dir, &target),
                            None => to.clone(),
                        };
                        self.nodes.insert(at, Node::File(content));
                        Answer::Done
                    }
                    _ => Answer::Failed(String::from("No such file or directory (os error 2)")),
                }
            }
            Request::RemoveFile(path) => {
                self.writes.push(text);
                match self.nodes.get(path) {
                    Some(Node::File(_)) | Some(Node::Link(_)) => {
                        self.nodes.remove(path);
                        Answer::Done
                    }
                    _ => Answer::Failed(String::from("No such file or directory (os error 2)")),
                }
            }
            Request::Symlink { target, link } => {
                self.writes.push(text);
                if self.nodes.contains_key(link) {
                    Answer::Failed(String::from("File exists (os error 17)"))
                } else {
                    self.nodes.insert(link.clone(), Node::Link(target.clone()));
                    Answer::Done
                }
            }
            Request::SetMode { path, mode } => {
                self.writes.push(text);
                self.modes.insert(path.clone(), *mode);
                Answer::Done
            }
            Request::Inspect(_) => Answer::Run(leviso_elf::tree::ToolRun::NotStarted),
        }
    }
}

fn run_copy(world: &mut World, mut job: TreeCopy) -> Result<u64, Error> {
    let mut step = job.begin();
    loop {
        match step {
            Step::Ask(request) => {
                let answer = world.perform(&request);
                assert!(job.accepts(&answer));
                step = job.advance(&answer);
            }
            Step::Finished(result) => {
                assert!(job.is_finished());
                return result;
            }
        }
    }
}

fn run_place(world: &mut World, mut job: Placement) -> Result<(), Error> {
    let mut step = job.begin();
    loop {
        match step {
            Step::Ask(request) => step = job.advance(&world.perform(&request)),
            Step::Finished(result) => {
                assert!(job.is_finished());
                return result;
            }
        }
    }
}

fn run_link(world: &mut World, mut job: LinkJob) -> Result<bool, Error> {
    let mut step = job.begin();
    loop {
        match step {
            Step::Ask(request) => step = job.advance(&world.perform(&request)),
            Step::Finished(result) => return result,
        }
    }
}

fn run_mode(world: &mut World, mut job: ModeJob) -> Result<(), Error> {
    let mut step = job.begin();
    loop {
        match step {
            Step::Ask(request) => step = job.advance(&world.perform(&request)),
            Step::Finished(result) => return result,
        }
    }
}

fn place(world: &mut World, lib_name: &str, private: &[&str]) -> Result<(), Error> {
    let job = copy_library_to("/src", lib_name, "/dst", "lib64", "lib", &["opt/extra"], private);
    run_place(world, job)
}

fn world_with_dest() -> World {
    let mut world = World::new();
    world.create_dir_all("/dst/lib64");
    world.create_dir_all("/dst/lib");
    world
}

#[test]
fn test_copy_dir_recursive() {
    let mut world = World::new();
    let base = "/tmp/base";

    let src = join(base, "src_dir");
    world.create_dir_all(&join(&src, "subdir"));
    world.write(&join(&src, "file1.txt"), "content1");
    world.write(&join(&src, "subdir/file2.txt"), "content2");

    let dst = join(base, "dst_dir");
    run_copy(&mut world, copy_dir_recursive(&src, &dst)).expect("copy_dir_recursive should succeed");

    assert!(world.stat(&join(&dst, "file1.txt")).exists);
    assert!(world.stat(&join(&dst, "subdir/file2.txt")).exists);
    assert_eq!(world.read(&join(&dst, "file1.txt")).unwrap(), "content1");
    assert_eq!(world.read(&join(&dst, "subdir/file2.txt")).unwrap(), "content2");
}

#[test]
fn test_make_executable() {
    let mut world = World::new();
    let file_path = "/tmp/base/test_exec";
    world.write(file_path, "test");

    run_mode(&mut world, make_executable(file_path)).expect("make_executable should succeed");

    let mode = world.modes[file_path];
    assert_eq!(mode & 0o111, 0o111, "File should be executable");
    assert_eq!(mode, 0o755);
}

#[test]
fn test_create_symlink_if_missing() {
    let mut world = World::new();
    world.create_dir_all("/tmp/base");
    let target = "/tmp/base/target";
    let link = "/tmp/base/link";

    let created = run_link(&mut world, create_symlink_if_missing(target, link)).unwrap();
    assert!(created, "First call should create symlink");
    assert!(world.stat(link).is_symlink);

    let created = run_link(&mut world, create_symlink_if_missing(target, link)).unwrap();
    assert!(!created, "Second call should not recreate symlink");
}

#[test]
fn test_copy_dir_recursive_skips_existing_symlinks() {
    let mut world = World::new();

    world.write("/tmp/base/src/file.txt", "content");
    world.symlink("file.txt", "/tmp/base/src/link");

    world.create_dir_all("/tmp/base/dst");
    world.symlink("other.txt", "/tmp/base/dst/link");

    run_copy(&mut world, copy_dir_recursive("/tmp/base/src", "/tmp/base/dst")).unwrap();

    assert_eq!(world.read_link("/tmp/base/dst/link").unwrap(), "other.txt");
}

#[test]
fn test_copy_dir_recursive_overwrite_replaces_symlinks() {
    let mut world = World::new();

    world.write("/tmp/base/src/file.txt", "content");
    world.symlink("file.txt", "/tmp/base/src/link");

    world.create_dir_all("/tmp/base/dst");
    world.symlink("other.txt", "/tmp/base/dst/link");

    run_copy(&mut world, copy_dir_recursive_overwrite("/tmp/base/src", "/tmp/base/dst")).unwrap();

    assert_eq!(world.read_link("/tmp/base/dst/link").unwrap(), "file.txt");
}

#[test]
fn copy_counts_the_bytes_of_files_only() {
    let mut world = World::new();
    world.write("/s/a", "12345");
    world.write("/s/d/b", "123");
    world.write("/s/d/e/c", "");
    world.symlink("a", "/s/l");
    let total = run_copy(&mut world, copy_dir_recursive("/s", "/t")).unwrap();
    assert_eq!(total, 8);
    assert_eq!(world.read_link("/t/l").unwrap(), "a");
    assert_eq!(world.read("/t/d/e/c").unwrap(), "");
}

#[test]
fn copy_of_what_is_no_directory_copies_nothing() {
    let mut world = World::new();
    world.write("/s/a", "12345");
    let before = world.clone();
    assert_eq!(run_copy(&mut world, copy_dir_recursive("/s/a", "/t")).unwrap(), 0);
    assert_eq!(run_copy(&mut world, copy_dir_recursive("/nowhere", "/t")).unwrap(), 0);
    assert_eq!(world, before);
}

#[test]
fn copy_overwrites_files_under_either_policy() {
    for overwrite in [false, true] {
        let mut world = World::new();
        world.write("/s/a", "new");
        world.write("/t/a", "old content");
        let job = if overwrite {
            copy_dir_recursive_overwrite("/s", "/t")
        } else {
            copy_dir_recursive("/s", "/t")
        };
        assert_eq!(run_copy(&mut world, job).unwrap(), 3);
        assert_eq!(world.read("/t/a").unwrap(), "new");
    }
}

#[test]
fn copy_keeps_a_file_in_the_place_of_a_link_unless_told_to_overwrite() {
    let mut world = World::new();
    world.write("/s/a", "x");
    world.symlink("a", "/s/l");
    world.write("/t/l", "mine");
    run_copy(&mut world, copy_dir_recursive("/s", "/t")).unwrap();
    assert_eq!(world.read("/t/l").unwrap(), "mine");
    assert!(!world.stat("/t/l").is_symlink);
    run_copy(&mut world, copy_dir_recursive_overwrite("/s", "/t")).unwrap();
    assert_eq!(world.read_link("/t/l").unwrap(), "a");
}

#[test]
fn copy_makes_dangling_links_anew() {
    let mut world = World::new();
    world.create_dir_all("/s");
    world.symlink("../gone", "/s/l");
    assert_eq!(run_copy(&mut world, copy_dir_recursive("/s", "/t")).unwrap(), 0);
    assert_eq!(world.read_link("/t/l").unwrap(), "../gone");
}

#[test]
fn link_to_a_directory_stays_a_link() {
    let mut job = copy_dir_recursive("/s", "/t");
    assert!(matches!(job.begin(), Step::Ask(Request::Stat(path)) if path == "/s"));
    let dir = Answer::Info(PathInfo::directory());
    assert!(matches!(job.advance(&dir), Step::Ask(Request::CreateDirAll(path)) if path == "/t"));
    assert!(matches!(job.advance(&Answer::Done), Step::Ask(Request::ReadDir(path)) if path == "/s"));
    let names = Answer::Names(vec![String::from("alias")]);
    assert!(matches!(job.advance(&names), Step::Ask(Request::Stat(path)) if path == "/s/alias"));
    let link_to_dir = Answer::Info(PathInfo::link_to(PathInfo::directory()));
    assert!(matches!(
        job.advance(&link_to_dir),
        Step::Ask(Request::ReadLink(path)) if path == "/s/alias"
    ));
    let target = Answer::Target(String::from("real"));
    assert!(matches!(job.advance(&target), Step::Ask(Request::Stat(path)) if path == "/t/alias"));
    assert!(matches!(
        job.advance(&Answer::Info(PathInfo::missing())),
        Step::Ask(Request::Symlink { target, link }) if target == "real" && link == "/t/alias"
    ));
    assert!(matches!(job.advance(&Answer::Done), Step::Finished(Ok(0))));
}

#[test]
fn files_behind_a_link_to_a_directory_count_once() {
    for overwrite in [false, true] {
        let mut world = World::new();
        world.write("/s/d/f", "x");
        world.symlink("d", "/s/dl");
        let job = if overwrite {
            copy_dir_recursive_overwrite("/s", "/t")
        } else {
            copy_dir_recursive("/s", "/t")
        };
        assert_eq!(run_copy(&mut world, job).unwrap(), 1);
        assert_eq!(world.read("/t/d/f").unwrap(), "x");
        assert_eq!(world.read_link("/t/dl").unwrap(), "d");
        assert!(!world.nodes.contains_key("/t/dl/f"));
    }
}

#[test]
fn copy_stops_at_the_first_failure_and_names_the_path() {
    let mut world = World::new();
    world.write("/s/a", "x");
    world.refuse = Some(String::from("CopyFile"));
    let e = run_copy(&mut world, copy_dir_recursive("/s", "/t")).unwrap_err();
    assert_eq!(e.kind, ErrorKind::IoFailure);
    assert_eq!(e.subject, "/t/a");
    assert_eq!(e.message(), "I/O failure on /t/a: Permission denied (os error 13)");
}

#[test]
fn copy_twice_gives_the_same_tree() {
    let mut world = World::new();
    world.write("/s/a", "12345");
    world.write("/s/d/b", "123");
    world.symlink("a", "/s/l");
    run_copy(&mut world, copy_dir_recursive("/s", "/t")).unwrap();
    let once = world.nodes.clone();
    run_copy(&mut world, copy_dir_recursive("/s", "/t")).unwrap();
    assert_eq!(world.nodes, once);
}

#[test]
fn job_fails_on_an_answer_that_does_not_fit() {
    let mut job = copy_dir_recursive("/s", "/t");
    match job.begin() {
        Step::Ask(Request::Stat(path)) => assert_eq!(path, "/s"),
        other => panic!("unexpected step {:?}", other),
    }
    match job.advance(&Answer::Done) {
        Step::Finished(Err(e)) => assert_eq!(e.kind, ErrorKind::Protocol),
        other => panic!("unexpected step {:?}", other),
    }
    assert!(job.is_finished());
    match job.begin() {
        Step::Finished(Err(e)) => assert_eq!(e.kind, ErrorKind::Protocol),
        other => panic!("unexpected step {:?}", other),
    }
}

#[test]
fn size_that_would_overflow_is_not_accepted() {
    let mut world = World::new();
    world.write("/s/a", "x");
    world.write("/s/b", "y");
    let mut job = copy_dir_recursive("/s", "/t");
    let mut step = job.begin();
    let mut sized = 0;
    loop {
        match step {
            Step::Ask(request) => {
                let mut answer = world.perform(&request);
                if let (Request::Stat(path), Answer::Info(info)) = (&request, &mut answer) {
                    if path.starts_with("/t/") {
                        info.len = u64::MAX;
                        sized += 1;
                    }
                }
                if sized == 2 {
                    assert!(!job.accepts(&answer));
                    break;
                }
                assert!(job.accepts(&answer));
                step = job.advance(&answer);
            }
            Step::Finished(_) => panic!("the copy should not have ended"),
        }
    }
}

#[test]
fn library_from_the_wide_directory_goes_to_the_wide_directory() {
    let mut world = world_with_dest();
    world.write("/src/usr/lib64/libc.so.6", "libc");
    place(&mut world, "libc.so.6", &[]).unwrap();
    assert_eq!(world.read("/dst/lib64/libc.so.6").unwrap(), "libc");
    assert!(!world.stat("/dst/lib/libc.so.6").exists);
}

#[test]
fn library_from_the_generic_directory_goes_to_the_generic_directory() {
    let mut world = world_with_dest();
    world.write("/src/usr/lib/libm.so.6", "libm");
    place(&mut world, "libm.so.6", &[]).unwrap();
    assert_eq!(world.read("/dst/lib/libm.so.6").unwrap(), "libm");
    assert!(!world.stat("/dst/lib64/libm.so.6").exists);
}

#[test]
fn library_from_an_extra_directory_goes_to_the_generic_directory() {
    let mut world = world_with_dest();
    world.write("/src/opt/extra/libx.so", "x");
    place(&mut world, "libx.so", &[]).unwrap();
    assert_eq!(world.read("/dst/lib/libx.so").unwrap(), "x");
}

#[test]
fn private_library_keeps_its_directory_under_the_wide_one() {
    let mut world = world_with_dest();
    world.write("/src/usr/lib/systemd/libshared.so", "shared");
    place(&mut world, "libshared.so", &["openrc", "systemd"]).unwrap();
    assert_eq!(world.read("/dst/lib64/systemd/libshared.so").unwrap(), "shared");
    assert!(world.stat("/dst/lib64/systemd").is_dir);
    assert!(!world.stat("/dst/lib/systemd").exists);
}

#[test]
fn private_directory_that_is_not_declared_is_flattened() {
    let mut world = world_with_dest();
    world.write("/src/usr/lib64/systemd/libshared.so", "shared");
    place(&mut world, "libshared.so", &[]).unwrap();
    assert_eq!(world.read("/dst/lib64/libshared.so").unwrap(), "shared");
}

#[test]
fn library_that_is_not_found_is_an_error_that_names_it() {
    let mut world = world_with_dest();
    let before = world.clone();
    let e = place(&mut world, "libnone.so", &[]).unwrap_err();
    assert_eq!(e.kind, ErrorKind::LibraryNotFound);
    assert_eq!(e.subject, "libnone.so");
    assert_eq!(
        e.message(),
        "Could not find library 'libnone.so' in source (searched lib64, lib, extra paths)"
    );
    assert_eq!(world, before);
}

#[test]
fn placing_twice_changes_nothing_the_second_time() {
    let mut world = world_with_dest();
    world.write("/src/usr/lib64/libfoo.so.1", "foo");
    world.symlink("libfoo.so.1", "/src/usr/lib64/libfoo.so");
    place(&mut world, "libfoo.so", &[]).unwrap();
    let once = world.clone();
    place(&mut world, "libfoo.so", &[]).unwrap();
    assert_eq!(world, once);
    assert_eq!(once.writes.len(), 2);
}

#[test]
fn link_whose_target_leads_elsewhere_points_at_the_copy_beside_it() {
    let mut world = world_with_dest();
    world.write("/src/usr/lib64/real/libfoo.so.1", "foo");
    world.symlink("real/libfoo.so.1", "/src/usr/lib64/libfoo.so");
    place(&mut world, "libfoo.so", &[]).unwrap();
    assert_eq!(world.nodes["/dst/lib64/libfoo.so.1"], Node::File(String::from("foo")));
    assert_eq!(world.read_link("/dst/lib64/libfoo.so").unwrap(), "libfoo.so.1");
    assert_eq!(world.read("/dst/lib64/libfoo.so").unwrap(), "foo");
    let once = world.clone();
    place(&mut world, "libfoo.so", &[]).unwrap();
    assert_eq!(world, once);
}

#[test]
fn link_arrives_with_its_file_and_its_target_as_written() {
    let mut world = world_with_dest();
    world.write("/src/usr/lib64/libfoo.so.1", "foo content");
    world.symlink("libfoo.so.1", "/src/usr/lib64/libfoo.so");
    place(&mut world, "libfoo.so", &[]).unwrap();
    assert_eq!(world.nodes["/dst/lib64/libfoo.so.1"], Node::File(String::from("foo content")));
    assert_eq!(world.read_link("/dst/lib64/libfoo.so").unwrap(), "libfoo.so.1");
    assert_eq!(world.read("/dst/lib64/libfoo.so").unwrap(), "foo content");
}

#[test]
fn link_with_an_absolute_target_is_read_under_the_source_root() {
    let mut world = world_with_dest();
    world.write("/src/usr/lib/real/libbar.so.2", "bar");
    world.symlink("/usr/lib/real/libbar.so.2", "/src/lib/libbar.so");
    place(&mut world, "libbar.so", &[]).unwrap();
    assert_eq!(world.nodes["/dst/lib/libbar.so.2"], Node::File(String::from("bar")));
    assert_eq!(world.read_link("/dst/lib/libbar.so").unwrap(), "libbar.so.2");
    let once = world.clone();
    place(&mut world, "libbar.so", &[]).unwrap();
    assert_eq!(world, once);
}

#[test]
fn absolute_link_in_the_wide_directory_arrives_as_a_relative_link() {
    let mut world = world_with_dest();
    world.write("/src/usr/lib64/libfoo.so.1", "foo");
    world.symlink("/usr/lib64/libfoo.so.1", "/src/usr/lib64/libfoo.so");
    place(&mut world, "libfoo.so", &[]).unwrap();
    assert_eq!(world.nodes["/dst/lib64/libfoo.so.1"], Node::File(String::from("foo")));
    assert_eq!(world.read_link("/dst/lib64/libfoo.so").unwrap(), "libfoo.so.1");
}

#[test]
fn root_whose_name_holds_lib64_does_not_decide_the_directory() {
    let mut world = World::new();
    world.create_dir_all("/dest/lib64");
    world.create_dir_all("/dest/lib");
    world.write("/t/lib64img/usr/lib/libq.so", "q");
    let job = copy_library_to("/t/lib64img", "libq.so", "/dest", "lib64", "lib", &[], &[]);
    run_place(&mut world, job).unwrap();
    assert_eq!(world.read("/dest/lib/libq.so").unwrap(), "q");
    assert!(!world.stat("/dest/lib64/libq.so").exists);
}

#[test]
fn library_named_like_a_private_directory_is_not_private() {
    let mut world = world_with_dest();
    world.write("/src/usr/lib/systemd-foo.so", "f");
    place(&mut world, "systemd-foo.so", &["systemd"]).unwrap();
    assert_eq!(world.read("/dst/lib/systemd-foo.so").unwrap(), "f");
    assert!(!world.stat("/dst/lib64/systemd").exists);
}

#[test]
fn private_library_from_an_extra_directory_keeps_its_directory() {
    let mut world = world_with_dest();
    world.write("/src/usr/lib/openrc/librc.so", "rc");
    let job =
        copy_library_to("/src", "librc.so", "/dst", "lib64", "lib", &["usr/lib/openrc"], &["openrc"]);
    run_place(&mut world, job).unwrap();
    assert_eq!(world.read("/dst/lib64/openrc/librc.so").unwrap(), "rc");
}

#[test]
fn file_behind_a_link_that_is_there_is_not_copied_again() {
    let mut world = world_with_dest();
    world.write("/src/usr/lib64/libfoo.so.1", "new");
    world.symlink("libfoo.so.1", "/src/usr/lib64/libfoo.so");
    world.write("/dst/lib64/libfoo.so.1", "old");
    place(&mut world, "libfoo.so", &[]).unwrap();
    assert_eq!(world.read("/dst/lib64/libfoo.so.1").unwrap(), "old");
    assert_eq!(world.read_link("/dst/lib64/libfoo.so").unwrap(), "libfoo.so.1");
}

#[test]
fn link_named_like_its_file_arrives_as_the_file() {
    // the copy of the file takes the place of the link
    let mut world = world_with_dest();
    world.write("/src/usr/lib64/real/libsame.so", "same");
    world.symlink("real/libsame.so", "/src/usr/lib64/libsame.so");
    place(&mut world, "libsame.so", &[]).unwrap();
    assert_eq!(world.nodes["/dst/lib64/libsame.so"], Node::File(String::from("same")));
}

#[test]
fn failure_to_make_the_private_directory_is_a_placement_conflict() {
    let mut world = world_with_dest();
    world.write("/src/usr/lib/systemd/libshared.so", "shared");
    world.refuse = Some(String::from("CreateDirAll"));
    let e = place(&mut world, "libshared.so", &["systemd"]).unwrap_err();
    assert_eq!(e.kind, ErrorKind::PlacementConflict);
    assert_eq!(e.subject, "/dst/lib64/systemd");
}

#[test]
fn failure_to_copy_names_the_destination() {
    let mut world = World::new();
    world.write("/src/lib/liba.so", "a");
    let e = place(&mut world, "liba.so", &[]).unwrap_err();
    assert_eq!(e.kind, ErrorKind::IoFailure);
    assert_eq!(e.subject, "/dst/lib/liba.so");
    assert_eq!(e.detail, "No such file or directory (os error 2)");
}

#[test]
fn link_without_a_directory_part_is_an_error() {
    let mut job = copy_library_to("", "/", "/dst", "lib64", "lib", &[], &[]);
    let link = PathInfo::link_to(PathInfo::missing());
    assert!(matches!(job.begin(), Step::Ask(Request::Stat(path)) if path == "/"));
    assert!(matches!(job.advance(&Answer::Info(link)), Step::Ask(Request::Stat(path)) if path == "/"));
    assert!(matches!(
        job.advance(&Answer::Info(PathInfo::missing())),
        Step::Ask(Request::ReadLink(path)) if path == "/"
    ));
    match job.advance(&Answer::Target(String::from("x"))) {
        Step::Finished(Err(e)) => {
            assert_eq!(e.kind, ErrorKind::NoParent);
            assert_eq!(e.subject, "/");
        }
        other => panic!("unexpected step {:?}", other),
    }
}

#[test]
fn destination_directory_follows_the_search_directory() {
    let private = vec![String::from("systemd")];
    let dir = |found_in: &str| library_destination_dir(found_in, "/d", "usr/lib64", "usr/lib", &private);
    assert_eq!(dir("usr/lib64"), "/d/usr/lib64");
    assert_eq!(dir("lib64"), "/d/usr/lib64");
    assert_eq!(dir("usr/lib"), "/d/usr/lib");
    assert_eq!(dir("lib"), "/d/usr/lib");
    assert_eq!(dir("usr/lib/systemd"), "/d/usr/lib64/systemd");
    assert_eq!(dir("usr/lib64/systemd"), "/d/usr/lib64/systemd");
    assert_eq!(dir("usr/lib64/systemd/sub"), "/d/usr/lib64/systemd");
    assert_eq!(dir("usr/libexec/systemd"), "/d/usr/lib");
    assert_eq!(dir("usr/lib/systemd-extra"), "/d/usr/lib");
    assert_eq!(dir("opt/lib64img/lib"), "/d/usr/lib");
    assert_eq!(dir("opt/mylib64"), "/d/usr/lib");
}

#[test]
fn link_targets_resolve_beside_the_link_or_under_the_root() {
    assert_eq!(resolve_link("/s", "/s/lib/liba.so", "liba.so.1").unwrap(), "/s/lib/liba.so.1");
    assert_eq!(resolve_link("/s", "/s/lib/liba.so", "../x/liba.so.1").unwrap(), "/s/lib/../x/liba.so.1");
    assert_eq!(resolve_link("/s", "/s/lib/liba.so", "//usr/liba.so.1").unwrap(), "/s/usr/liba.so.1");
    assert!(resolve_link("/s", "/", "liba.so.1").is_none());
    assert_eq!(place_for_target("/d/lib/liba.so", "../x/liba.so.1").unwrap(), "/d/lib/liba.so.1");
    assert_eq!(place_for_target("/d/lib/liba.so", "..").unwrap(), "/d/lib/..");
    assert!(place_for_target("/", "liba.so.1").is_none());
    assert_eq!(name_of_target("/usr/lib64/libfoo.so.1"), "libfoo.so.1");
    assert_eq!(name_of_target("../x/liba.so.1"), "liba.so.1");
    assert_eq!(name_of_target("liba.so.1"), "liba.so.1");
    assert_eq!(name_of_target(".."), "..");
}

#[test]
fn symlink_is_not_made_over_a_dangling_link() {
    let mut world = World::new();
    world.symlink("nowhere", "/etc/link");
    let before = world.clone();
    assert!(!run_link(&mut world, create_symlink_if_missing("/target", "/etc/link")).unwrap());
    assert_eq!(world, before);
}

#[test]
fn symlink_that_cannot_be_made_names_link_and_target() {
    let mut world = World::new();
    world.refuse = Some(String::from("Symlink"));
    let e = run_link(&mut world, create_symlink_if_missing("/target", "/etc/link")).unwrap_err();
    assert_eq!(e.kind, ErrorKind::Symlink);
    assert_eq!(e.message(), "Failed to create symlink /etc/link -> /target");
}

#[test]
fn missing_file_cannot_be_made_executable() {
    let mut world = World::new();
    let e = run_mode(&mut world, make_executable("/bin/none")).unwrap_err();
    assert_eq!(e.kind, ErrorKind::Metadata);
    assert_eq!(e.message(), "Failed to read metadata: /bin/none");
    assert!(world.modes.is_empty());
}

#[test]
fn mode_that_cannot_be_set_is_an_error() {
    let mut world = World::new();
    world.write("/bin/tool", "x");
    world.refuse = Some(String::from("SetMode"));
    let e = run_mode(&mut world, make_executable("/bin/tool")).unwrap_err();
    assert_eq!(e.kind, ErrorKind::Permissions);
    assert_eq!(e.message(), "Failed to set permissions: /bin/tool");
}
