use leviso_elf::analyze::{
    get_library_dependencies, parse_readelf_output, read_tool_run, InspectJob,
};
use leviso_elf::closure::{get_all_dependencies, get_closure};
use leviso_elf::error::{Error, ErrorKind};
use leviso_elf::text::{str_contains, trim};
use leviso_elf::ops::{Answer, Request, Step};
use leviso_elf::tree::{PathInfo, SourceTree, ToolRun};
use leviso_elf::walk::ClosureJob;

fn dump(names: &[&str]) -> String {
    let mut out = String::from("\nDynamic section at offset 0x2d0e0 contains 28 entries:\n");
    out.push_str("  Tag        Type                         Name/Value\n");
    for name in names {
        out.push_str(&format!(
            " 0x0000000000000001 (NEEDED)             Shared library: [{}]\n",
            name
        ));
    }
    out.push_str(" 0x000000000000000c (INIT)               0x5000\n");
    out
}

fn failed_run(stderr: &str) -> ToolRun {
    ToolRun::Exited { success: false, stdout: String::new(), stderr: String::from(stderr) }
}

fn sorted(mut names: Vec<String>) -> Vec<String> {
    names.sort();
    names
}

#[test]
fn test_parse_readelf_output() {
    let output = r#"
Dynamic section at offset 0x2d0e0 contains 28 entries:
  Tag        Type                         Name/Value
 0x0000000000000001 (NEEDED)             Shared library: [libtinfo.so.6]
 0x0000000000000001 (NEEDED)             Shared library: [libc.so.6]
 0x000000000000000c (INIT)               0x5000
"#;
    let libs = parse_readelf_output(output).unwrap();
    assert_eq!(libs, vec!["libtinfo.so.6", "libc.so.6"]);
}

#[test]
fn test_parse_readelf_empty() {
    let output = "not an ELF file";
    let libs = parse_readelf_output(output).unwrap();
    assert!(libs.is_empty());
}

#[test]
fn test_get_deps_of_real_binary() {
    let mut tree = SourceTree::new();
    tree.add_binary("/bin/sh", 125_688, &dump(&["libc.so.6"]));
    let deps = get_library_dependencies(&tree, "/bin/sh").unwrap();
    assert!(
        deps.iter().any(|d| d.contains("libc")),
        "Expected libc dependency in /bin/sh, got: {:?}",
        deps
    );
}

#[test]
fn test_nonexistent_binary() {
    let tree = SourceTree::new();
    let result = get_library_dependencies(&tree, "/nonexistent/path/to/binary");
    assert!(result.is_err(), "Expected error for nonexistent file");
    let err_msg = result.unwrap_err().message();
    assert!(
        err_msg.contains("does not exist"),
        "Expected 'does not exist' in error message, got: {}",
        err_msg
    );
}

#[test]
fn test_non_elf_file() {
    let mut tree = SourceTree::new();
    tree.record(
        "/etc/passwd",
        PathInfo::file(1_024),
        failed_run("readelf: Error: Not an ELF file - it has the wrong magic bytes at the start\n"),
    );
    let deps = get_library_dependencies(&tree, "/etc/passwd").unwrap();
    assert!(deps.is_empty(), "Expected empty deps for non-ELF file, got: {:?}", deps);
}

#[test]
fn test_directory_not_file() {
    let mut tree = SourceTree::new();
    tree.record(
        "/tmp",
        PathInfo::directory(),
        failed_run("readelf: Error: '/tmp' is not an ordinary file\n"),
    );
    let result = get_library_dependencies(&tree, "/tmp");
    match result {
        Ok(deps) => assert!(deps.is_empty()),
        Err(_) => {}
    }
}

#[test]
fn missing_path_names_the_path() {
    let tree = SourceTree::new();
    let e = get_library_dependencies(&tree, "/gone/bin").unwrap_err();
    assert_eq!(e.kind, ErrorKind::SourceNotFound);
    assert_eq!(e.subject, "/gone/bin");
    assert_eq!(e.message(), "File does not exist: /gone/bin");
}

#[test]
fn dangling_link_is_a_missing_source() {
    let mut tree = SourceTree::new();
    tree.record("/r/lib/liba.so", PathInfo::link_to(PathInfo::missing()), ToolRun::NotStarted);
    let e = get_library_dependencies(&tree, "/r/lib/liba.so").unwrap_err();
    assert_eq!(e.kind, ErrorKind::SourceNotFound);
}

#[test]
fn unknown_tool_failure_is_an_error_with_trimmed_text() {
    let mut tree = SourceTree::new();
    tree.record("/r/bin/odd", PathInfo::file(10), failed_run("  readelf: Error: truncated \n\n"));
    let e = get_library_dependencies(&tree, "/r/bin/odd").unwrap_err();
    assert_eq!(e.kind, ErrorKind::ExtractionFailed);
    assert_eq!(e.subject, "/r/bin/odd");
    assert_eq!(e.detail, "readelf: Error: truncated");
    assert_eq!(e.message(), "readelf failed on /r/bin/odd: readelf: Error: truncated");
}

#[test]
fn each_known_signature_means_no_dependencies() {
    for said in ["Not an ELF file", "x: not a dynamic executable", "File format not recognized"] {
        let out = read_tool_run("/r/f", &failed_run(said)).unwrap();
        assert!(out.is_empty());
    }
    assert!(read_tool_run("/r/f", &failed_run("not an elf file")).is_err());
}

#[test]
fn tool_that_did_not_start_is_its_own_error() {
    let e = read_tool_run("/r/f", &ToolRun::NotStarted).unwrap_err();
    assert_eq!(e.kind, ErrorKind::ToolUnavailable);
    assert_eq!(e.message(), "readelf command not found - install binutils");
}

#[test]
fn successful_run_ignores_what_was_said_on_stderr() {
    let run = ToolRun::Exited {
        success: true,
        stdout: dump(&["liba.so"]),
        stderr: String::from("readelf: Warning: odd"),
    };
    assert_eq!(read_tool_run("/r/f", &run).unwrap(), vec!["liba.so"]);
}

#[test]
fn line_with_one_marker_only_gives_nothing() {
    let only_needed = " 0x01 (NEEDED)  [libc.so.6]\n";
    let only_shared = " 0x01 Shared library: [libc.so.6]\n";
    assert!(parse_readelf_output(only_needed).unwrap().is_empty());
    assert!(parse_readelf_output(only_shared).unwrap().is_empty());
    let both = " 0x01 (NEEDED) Shared library: [libc.so.6]";
    assert_eq!(parse_readelf_output(both).unwrap(), vec!["libc.so.6"]);
}

#[test]
fn line_without_bracket_pair_is_skipped() {
    let text = "(NEEDED) Shared library: libc.so.6\n(NEEDED) Shared library: [libm.so.6\n\
                (NEEDED) Shared library: libz]\n(NEEDED) Shared library: [libok.so]\n";
    assert_eq!(parse_readelf_output(text).unwrap(), vec!["libok.so"]);
}

#[test]
fn closing_bracket_is_the_first_after_the_opening_one() {
    let text = "] (NEEDED) Shared library: [liba.so] [libb.so]";
    assert_eq!(parse_readelf_output(text).unwrap(), vec!["liba.so"]);
    let empty = "(NEEDED) Shared library: []";
    assert_eq!(parse_readelf_output(empty).unwrap(), vec![""]);
}

#[test]
fn duplicates_and_order_are_kept() {
    let text = dump(&["libb.so", "liba.so", "libb.so"]);
    assert_eq!(parse_readelf_output(&text).unwrap(), vec!["libb.so", "liba.so", "libb.so"]);
}

#[test]
fn carriage_returns_do_not_change_the_names() {
    let text = "x\r\n (NEEDED) Shared library: [libc.so.6]\r\n";
    assert_eq!(parse_readelf_output(text).unwrap(), vec!["libc.so.6"]);
}

#[test]
fn names_may_hold_any_characters() {
    let text = "(NEEDED) Shared library: [libé.so.6]";
    assert_eq!(parse_readelf_output(text).unwrap(), vec!["libé.so.6"]);
}

#[test]
fn closure_of_a_chain_holds_every_name_once() {
    let mut tree = SourceTree::new();
    tree.add_binary("/r/bin/app", 10, &dump(&["liba.so", "libb.so"]));
    tree.add_binary("/r/usr/lib64/liba.so", 10, &dump(&["libc.so", "libb.so"]));
    tree.add_binary("/r/lib/libb.so", 10, &dump(&["libc.so"]));
    tree.add_binary("/r/opt/libc.so", 10, &dump(&["libd.so"]));
    let all = get_all_dependencies(&tree, "/r", "/r/bin/app", &["opt"]).unwrap();
    assert_eq!(sorted(all), vec!["liba.so", "libb.so", "libc.so", "libd.so"]);
}

#[test]
fn closure_of_a_cycle_ends() {
    let mut tree = SourceTree::new();
    tree.add_binary("/r/lib64/libA.so", 10, &dump(&["libB.so"]));
    tree.add_binary("/r/lib64/libB.so", 10, &dump(&["libA.so"]));
    let all = get_all_dependencies(&tree, "/r", "/r/lib64/libA.so", &[]).unwrap();
    assert_eq!(sorted(all), vec!["libA.so", "libB.so"]);
}

#[test]
fn library_that_is_not_found_stays_in_the_closure() {
    let mut tree = SourceTree::new();
    tree.add_binary("/r/bin/app", 10, &dump(&["libmissing.so", "liba.so"]));
    tree.add_binary("/r/lib/liba.so", 10, &dump(&[]));
    let all = get_all_dependencies(&tree, "/r", "/r/bin/app", &[]).unwrap();
    assert_eq!(sorted(all), vec!["liba.so", "libmissing.so"]);
}

#[test]
fn library_outside_the_search_directories_is_not_followed() {
    let mut tree = SourceTree::new();
    tree.add_binary("/r/bin/app", 10, &dump(&["liba.so"]));
    tree.add_binary("/r/opt/liba.so", 10, &dump(&["libhidden.so"]));
    let all = get_all_dependencies(&tree, "/r", "/r/bin/app", &[]).unwrap();
    assert_eq!(all, vec!["liba.so"]);
    let all = get_all_dependencies(&tree, "/r", "/r/bin/app", &["opt"]).unwrap();
    assert_eq!(sorted(all), vec!["liba.so", "libhidden.so"]);
}

#[test]
fn one_bad_file_fails_the_whole_closure() {
    let mut tree = SourceTree::new();
    tree.add_binary("/r/bin/app", 10, &dump(&["liba.so"]));
    tree.record("/r/lib/liba.so", PathInfo::file(3), failed_run("readelf: Error: broken"));
    let e = get_all_dependencies(&tree, "/r", "/r/bin/app", &[]).unwrap_err();
    assert_eq!(e.kind, ErrorKind::ExtractionFailed);
    assert_eq!(e.subject, "/r/lib/liba.so");
}

#[test]
fn closure_of_a_missing_binary_fails() {
    let tree = SourceTree::new();
    let e = get_all_dependencies(&tree, "/r", "/r/bin/app", &[]).unwrap_err();
    assert_eq!(e.kind, ErrorKind::SourceNotFound);
    assert_eq!(e.subject, "/r/bin/app");
}

#[test]
fn closure_of_a_plain_file_is_empty() {
    let mut tree = SourceTree::new();
    tree.add_plain("/r/etc/passwd", 100);
    let all = get_all_dependencies(&tree, "/r", "/r/etc/passwd", &[]).unwrap();
    assert!(all.is_empty());
}

#[test]
fn closure_of_several_binaries_is_the_union() {
    let mut tree = SourceTree::new();
    tree.add_binary("/r/bin/one", 10, &dump(&["liba.so"]));
    tree.add_binary("/r/bin/two", 10, &dump(&["libb.so", "liba.so"]));
    tree.add_binary("/r/lib/liba.so", 10, &dump(&["libc.so"]));
    tree.add_binary("/r/lib/libb.so", 10, &dump(&[]));
    let all = get_closure(&tree, "/r", &["/r/bin/one", "/r/bin/two"], &[]).unwrap();
    assert_eq!(sorted(all), vec!["liba.so", "libb.so", "libc.so"]);
    assert!(get_closure(&tree, "/r", &[], &[]).unwrap().is_empty());
    let e = get_closure(&tree, "/r", &["/r/bin/one", "/r/bin/none"], &[]).unwrap_err();
    assert_eq!(e.subject, "/r/bin/none");
}

fn exited(names: &[&str]) -> Answer {
    Answer::Run(ToolRun::Exited { success: true, stdout: dump(names), stderr: String::new() })
}

fn asks_stat(step: &Step<Vec<String>>, wanted: &str) -> bool {
    matches!(step, Step::Ask(Request::Stat(path)) if path == wanted)
}

fn asks_inspect(step: &Step<Vec<String>>, wanted: &str) -> bool {
    matches!(step, Step::Ask(Request::Inspect(path)) if path == wanted)
}

#[test]
fn inspection_asks_for_the_tool_only_where_the_file_is() {
    let mut job = InspectJob::of("/r/bin/app");
    assert!(asks_stat(&job.begin(), "/r/bin/app"));
    assert!(asks_inspect(&job.advance(&Answer::Info(PathInfo::file(9))), "/r/bin/app"));
    match job.advance(&exited(&["libc.so.6", "libm.so.6"])) {
        Step::Finished(Ok(names)) => assert_eq!(names, vec!["libc.so.6", "libm.so.6"]),
        other => panic!("unexpected step {:?}", other),
    }
    let mut job = InspectJob::of("/r/bin/none");
    assert!(asks_stat(&job.begin(), "/r/bin/none"));
    match job.advance(&Answer::Info(PathInfo::missing())) {
        Step::Finished(Err(e)) => {
            assert_eq!(e.kind, ErrorKind::SourceNotFound);
            assert_eq!(e.message(), "File does not exist: /r/bin/none");
        }
        other => panic!("unexpected step {:?}", other),
    }
    let mut job = InspectJob::of("/r/bin/app");
    assert!(asks_stat(&job.begin(), "/r/bin/app"));
    assert!(asks_inspect(&job.advance(&Answer::Info(PathInfo::file(9))), "/r/bin/app"));
    match job.advance(&Answer::Run(ToolRun::NotStarted)) {
        Step::Finished(Err(e)) => assert_eq!(e.kind, ErrorKind::ToolUnavailable),
        other => panic!("unexpected step {:?}", other),
    }
}

#[test]
fn walk_inspects_each_file_once_and_looks_for_each_name_once() {
    let there = Answer::Info(PathInfo::file(1));
    let gone = Answer::Info(PathInfo::missing());
    let mut job = ClosureJob::start("/r", &["/r/bin/app"], &[]);
    assert!(asks_stat(&job.begin(), "/r/bin/app"));
    assert!(asks_inspect(&job.advance(&there), "/r/bin/app"));
    // liba.so is needed twice and looked for once, in the order of the search
    assert!(asks_stat(&job.advance(&exited(&["liba.so", "liba.so"])), "/r/usr/lib64/liba.so"));
    assert!(asks_stat(&job.advance(&gone), "/r/lib64/liba.so"));
    assert!(asks_stat(&job.advance(&there), "/r/lib64/liba.so"));
    assert!(asks_inspect(&job.advance(&there), "/r/lib64/liba.so"));
    // liba.so needs itself and libgone.so, which is found nowhere
    let mut step = job.advance(&exited(&["liba.so", "libgone.so"]));
    for dir in ["usr/lib64", "lib64", "usr/lib", "lib", "usr/lib64/systemd", "usr/lib/systemd"] {
        assert!(asks_stat(&step, &format!("/r/{}/libgone.so", dir)));
        step = job.advance(&gone);
    }
    match step {
        Step::Finished(Ok(names)) => assert_eq!(names, vec!["liba.so", "libgone.so"]),
        other => panic!("unexpected step {:?}", other),
    }
    assert!(job.is_finished());
}

#[test]
fn walk_fails_on_a_file_that_is_gone_and_on_an_answer_that_does_not_fit() {
    let mut job = ClosureJob::start("/r", &["/r/bin/app"], &[]);
    assert!(asks_stat(&job.begin(), "/r/bin/app"));
    match job.advance(&Answer::Info(PathInfo::missing())) {
        Step::Finished(Err(e)) => {
            assert_eq!(e.kind, ErrorKind::SourceNotFound);
            assert_eq!(e.subject, "/r/bin/app");
        }
        other => panic!("unexpected step {:?}", other),
    }
    let mut job = ClosureJob::start("/r", &["/r/bin/app"], &[]);
    assert!(asks_stat(&job.begin(), "/r/bin/app"));
    match job.advance(&Answer::Done) {
        Step::Finished(Err(e)) => assert_eq!(e.kind, ErrorKind::Protocol),
        other => panic!("unexpected step {:?}", other),
    }
    let mut job = ClosureJob::start("/r", &[], &[]);
    assert!(matches!(job.begin(), Step::Finished(Ok(names)) if names.is_empty()));
}

#[test]
fn trim_drops_white_space_at_both_ends_only() {
    assert_eq!(trim("  a b \t\r\n"), "a b");
    assert_eq!(trim("\u{a0}\u{3000}x\u{2003}"), "x");
    assert_eq!(trim(" \n "), "");
    assert_eq!(trim(""), "");
    assert_eq!(trim("x"), "x");
    assert_eq!(trim("\u{200b}x"), "\u{200b}x");
}

#[test]
fn substring_search_finds_any_position() {
    assert!(str_contains("abcabd", "abd"));
    assert!(str_contains("abc", ""));
    assert!(str_contains("", ""));
    assert!(!str_contains("abc", "abcd"));
    assert!(!str_contains("abcabc", "acb"));
}

#[test]
fn every_failure_has_its_message() {
    let cases = [
        (ErrorKind::SourceNotFound, "File does not exist: P"),
        (ErrorKind::ToolUnavailable, "readelf command not found - install binutils"),
        (ErrorKind::ExtractionFailed, "readelf failed on P: D"),
        (
            ErrorKind::LibraryNotFound,
            "Could not find library 'P' in source (searched lib64, lib, extra paths)",
        ),
        (ErrorKind::NoParent, "Library path has no parent: P"),
        (ErrorKind::PlacementConflict, "Failed to create directory P: D"),
        (ErrorKind::Metadata, "Failed to read metadata: P"),
        (ErrorKind::Permissions, "Failed to set permissions: P"),
        (ErrorKind::Symlink, "Failed to create symlink P -> D"),
        (ErrorKind::IoFailure, "I/O failure on P: D"),
        (ErrorKind::Protocol, "Unexpected answer while working on P"),
    ];
    for (kind, text) in cases {
        assert_eq!(Error::new(kind, "P", "D").message(), text);
    }
}
