//! Slash-separated paths and the fixed search orders for libraries and binaries.
//!
//! A path is a string; nothing is normalised. The candidate lists are the
//! contract: a name is looked for in each directory in turn, and the first
//! place where the tree has it wins.

use vstd::prelude::*;
use vstd::string::*;
use crate::text::{chars_of, concat2, concat3, slice_of, strs, texts};
use crate::find::{find_in, FindJob};
use crate::tree::SourceTree;

verus! {

/// `rel` placed under `base`: an absolute `rel` stands alone, otherwise the two
/// are put together with exactly one separator between them.
pub open spec fn joined(base: Seq<char>, rel: Seq<char>) -> Seq<char> {
    if rel.len() > 0 && rel[0] == '/' {
        rel
    } else if base.len() > 0 && base.last() != '/' {
        base + "/"@ + rel
    } else {
        base + rel
    }
}

/// The length of `s` without what counts for nothing at its end: trailing
/// separators, and `.` components behind a separator.
pub open spec fn trimmed_len(s: Seq<char>) -> int
    decreases s.len(),
{
    if s.len() > 0 && s.last() == '/' {
        trimmed_len(s.drop_last())
    } else if s.len() > 1 && s.last() == '.' && s[s.len() - 2] == '/' {
        trimmed_len(s.drop_last())
    } else {
        s.len() as int
    }
}

/// Position of the last separator before `end`, or -1 when there is none.
pub open spec fn last_sep(s: Seq<char>, end: int) -> int
    decreases end,
{
    if end <= 0 || end > s.len() {
        -1
    } else if s[end - 1] == '/' {
        end - 1
    } else {
        last_sep(s, end - 1)
    }
}

/// The last component of `path`, as `std::path::Path::file_name` gives it on
/// Unix: what follows the last separator, trailing separators and trailing
/// `.` components aside. A path without any component, the path `.`, and one
/// that ends in `..`, has none.
pub open spec fn file_name_of(path: Seq<char>) -> Option<Seq<char>> {
    let end = trimmed_len(path);
    let name = path.subrange(last_sep(path, end) + 1, end);
    if end == 0 || name == ".."@ || name == "."@ {
        None
    } else {
        Some(name)
    }
}

/// The directory part of `path`, as `std::path::Path::parent` gives it on
/// Unix: what precedes the last component, without trailing separators and
/// trailing `.` components; `/` for a component directly under the root and
/// the empty path for a bare name. A path without any component has none.
pub open spec fn parent_of(path: Seq<char>) -> Option<Seq<char>> {
    let end = trimmed_len(path);
    let cut = last_sep(path, end);
    if end == 0 {
        None
    } else if cut < 0 {
        Some(Seq::<char>::empty())
    } else if trimmed_len(path.subrange(0, cut)) == 0 {
        Some("/"@)
    } else {
        Some(path.subrange(0, trimmed_len(path.subrange(0, cut))))
    }
}

/// `path` without its leading separators.
pub open spec fn without_root(path: Seq<char>) -> Seq<char>
    decreases path.len(),
{
    if path.len() > 0 && path[0] == '/' {
        without_root(path.drop_first())
    } else {
        path
    }
}

/// A relative path placed under `base` begins with `base`.
pub proof fn lemma_joined_is_under(base: Seq<char>, rel: Seq<char>)
    requires
        rel.len() == 0 || rel[0] != '/',
    ensures
        base.is_prefix_of(joined(base, rel)),
{
    let whole = joined(base, rel);
    assert(whole.subrange(0, base.len() as int) =~= base);
}

/// `rel` placed under `base`.
pub fn join(base: &str, rel: &str) -> (out: String)
    ensures
        out@ == joined(base@, rel@),
{
    let b = chars_of(base);
    let r = chars_of(rel);
    if r.len() > 0 && r[0] == '/' {
        String::from_str(rel)
    } else if b.len() > 0 && b[b.len() - 1] != '/' {
        concat3(base, "/", rel)
    } else {
        concat2(base, rel)
    }
}

/// The length of `s[..end]` without what counts for nothing at its end.
fn trim_end(s: &Vec<char>, end: usize) -> (n: usize)
    requires
        end <= s.len(),
    ensures
        n == trimmed_len(s@.subrange(0, end as int)),
        n <= end,
{
    let mut n: usize = end;
    while n > 0 && (s[n - 1] == '/' || (n > 1 && s[n - 1] == '.' && s[n - 2] == '/'))
        invariant
            n <= end <= s.len(),
            trimmed_len(s@.subrange(0, end as int)) == trimmed_len(s@.subrange(0, n as int)),
        decreases n,
    {
        assert(s@.subrange(0, n as int).drop_last() =~= s@.subrange(0, n - 1));
        n -= 1;
    }
    n
}

/// Position after the last separator before `end`; 0 when there is none.
fn after_last_sep(s: &Vec<char>, end: usize) -> (n: usize)
    requires
        end <= s.len(),
    ensures
        n == last_sep(s@, end as int) + 1,
        n <= end,
{
    let mut n: usize = end;
    while n > 0 && s[n - 1] != '/'
        invariant
            n <= end <= s.len(),
            last_sep(s@, end as int) == last_sep(s@, n as int),
        decreases n,
    {
        n -= 1;
    }
    n
}

/// The last component of `path`, if it has one.
pub fn file_name(path: &str) -> (out: Option<String>)
    ensures
        out matches Some(name) ==> file_name_of(path@) == Some(name@),
        out is None ==> file_name_of(path@) is None,
{
    let s = chars_of(path);
    assert(s@.subrange(0, s@.len() as int) =~= s@);
    let end = trim_end(&s, s.len());
    if end == 0 {
        return None;
    }
    let start = after_last_sep(&s, end);
    proof {
        reveal_strlit("..");
        reveal_strlit(".");
    }
    if end - start == 2 && s[start] == '.' && s[start + 1] == '.' {
        assert(s@.subrange(start as int, end as int) =~= ".."@);
        return None;
    }
    if end - start == 1 && s[start] == '.' {
        assert(s@.subrange(start as int, end as int) =~= "."@);
        return None;
    }
    assert(s@.subrange(start as int, end as int) != ".."@ && s@.subrange(
        start as int,
        end as int,
    ) != "."@) by {
        let name = s@.subrange(start as int, end as int);
        if name.len() == 2 {
            assert(name[0] == s@[start as int] && name[1] == s@[start + 1]);
        }
        if name.len() == 1 {
            assert(name[0] == s@[start as int]);
        }
    }
    Some(slice_of(path, start, end))
}

/// The directory part of `path`, if it has one.
pub fn parent(path: &str) -> (out: Option<String>)
    ensures
        out matches Some(dir) ==> parent_of(path@) == Some(dir@),
        out is None ==> parent_of(path@) is None,
{
    let s = chars_of(path);
    assert(s@.subrange(0, s@.len() as int) =~= s@);
    let end = trim_end(&s, s.len());
    if end == 0 {
        return None;
    }
    let start = after_last_sep(&s, end);
    if start == 0 {
        let out = String::new();
        return Some(out);
    }
    let keep = trim_end(&s, start - 1);
    if keep == 0 {
        Some(String::from_str("/"))
    } else {
        Some(slice_of(path, 0, keep))
    }
}

/// `path` without its leading separators.
pub fn strip_root(path: &str) -> (out: String)
    ensures
        out@ == without_root(path@),
{
    let s = chars_of(path);
    let mut n: usize = 0;
    assert(s@.subrange(0, s@.len() as int) =~= s@);
    while n < s.len() && s[n] == '/'
        invariant
            n <= s.len(),
            without_root(s@) == without_root(s@.subrange(n as int, s@.len() as int)),
        decreases s.len() - n,
    {
        assert(s@.subrange(n as int, s@.len() as int).drop_first() =~= s@.subrange(
            n + 1,
            s@.len() as int,
        ));
        n += 1;
    }
    slice_of(path, n, s.len())
}

/// `name` in directory `dir` of the tree rooted at `root`.
pub open spec fn under(root: Seq<char>, dir: Seq<char>, name: Seq<char>) -> Seq<char> {
    joined(joined(root, dir), name)
}

/// Where `name` is looked for, given the directories to search in order.
pub open spec fn candidates(root: Seq<char>, dirs: Seq<Seq<char>>, name: Seq<char>) -> Seq<
    Seq<char>,
> {
    Seq::new(dirs.len(), |i: int| under(root, dirs[i], name))
}

/// The directories searched for a library: the 64-bit and generic library
/// directories, the service manager's private ones, then the caller's own.
pub open spec fn library_dirs(extra: Seq<Seq<char>>) -> Seq<Seq<char>> {
    seq![
        "usr/lib64"@,
        "lib64"@,
        "usr/lib"@,
        "lib"@,
        "usr/lib64/systemd"@,
        "usr/lib/systemd"@,
    ] + extra
}

/// The directories searched for a binary.
pub open spec fn binary_dirs() -> Seq<Seq<char>> {
    seq!["usr/bin"@, "bin"@, "usr/sbin"@, "sbin"@]
}

/// The directories searched for a system-administration binary.
pub open spec fn sbin_dirs() -> Seq<Seq<char>> {
    seq!["usr/sbin"@, "sbin"@, "usr/bin"@, "bin"@]
}

/// Whether `path` counts as found: something is there, or, where
/// `links_count`, the path is at least a symbolic link.
pub open spec fn hit(tree: &SourceTree, path: Seq<char>, links_count: bool) -> bool {
    tree.info(path).exists || (links_count && tree.info(path).is_symlink)
}

/// The first of `paths` that counts as found.
pub open spec fn first_hit(tree: &SourceTree, paths: Seq<Seq<char>>, links_count: bool) -> Option<
    Seq<char>,
>
    decreases paths.len(),
{
    if paths.len() == 0 {
        None
    } else if hit(tree, paths[0], links_count) {
        Some(paths[0])
    } else {
        first_hit(tree, paths.drop_first(), links_count)
    }
}

/// Where a library is found in `tree`, if anywhere.
pub open spec fn library_at(
    tree: &SourceTree,
    root: Seq<char>,
    name: Seq<char>,
    extra: Seq<Seq<char>>,
) -> Option<Seq<char>> {
    first_hit(tree, candidates(root, library_dirs(extra), name), true)
}

/// `first_hit` is the earliest path that counts as found: nothing before it
/// does, and it is `None` exactly when no path does.
pub proof fn lemma_first_hit(tree: &SourceTree, paths: Seq<Seq<char>>, links_count: bool)
    ensures
        match first_hit(tree, paths, links_count) {
            Some(path) => exists|i: int|
                0 <= i < paths.len() && paths[i] == path && hit(tree, path, links_count) && forall|
                    j: int,
                | 0 <= j < i ==> !hit(tree, #[trigger] paths[j], links_count),
            None => forall|j: int|
                0 <= j < paths.len() ==> !hit(tree, #[trigger] paths[j], links_count),
        },
    decreases paths.len(),
{
    if paths.len() > 0 && !hit(tree, paths[0], links_count) {
        let rest = paths.drop_first();
        lemma_first_hit(tree, rest, links_count);
        match first_hit(tree, rest, links_count) {
            Some(path) => {
                let i = choose|i: int|
                    0 <= i < rest.len() && rest[i] == path && hit(tree, path, links_count)
                        && forall|j: int|
                        0 <= j < i ==> !hit(tree, #[trigger] rest[j], links_count);
                assert forall|j: int| 0 <= j < i + 1 implies !hit(
                    tree,
                    #[trigger] paths[j],
                    links_count,
                ) by {
                    if j > 0 {
                        assert(paths[j] == rest[j - 1]);
                    }
                }
                assert(paths[i + 1] == path);
            },
            None => {
                assert forall|j: int| 0 <= j < paths.len() implies !hit(
                    tree,
                    #[trigger] paths[j],
                    links_count,
                ) by {
                    if j > 0 {
                        assert(paths[j] == rest[j - 1]);
                    }
                }
            },
        }
    } else if paths.len() > 0 {
        assert(paths[0] == paths[0]);
    }
}

/// A path that counts as found, with none before it that does, is the first hit.
pub proof fn lemma_first_hit_at(tree: &SourceTree, paths: Seq<Seq<char>>, links_count: bool, i: int)
    requires
        0 <= i < paths.len(),
        hit(tree, paths[i], links_count),
        forall|j: int| 0 <= j < i ==> !hit(tree, #[trigger] paths[j], links_count),
    ensures
        first_hit(tree, paths, links_count) == Some(paths[i]),
    decreases i,
{
    if i > 0 {
        assert(!hit(tree, paths[0], links_count));
        let rest = paths.drop_first();
        assert forall|j: int| 0 <= j < i - 1 implies !hit(tree, #[trigger] rest[j], links_count) by {
            assert(rest[j] == paths[j + 1]);
        }
        assert(rest[i - 1] == paths[i]);
        lemma_first_hit_at(tree, rest, links_count, i - 1);
    }
}

/// Where no path counts as found, there is no first hit.
pub proof fn lemma_first_hit_none(tree: &SourceTree, paths: Seq<Seq<char>>, links_count: bool)
    requires
        forall|j: int| 0 <= j < paths.len() ==> !hit(tree, #[trigger] paths[j], links_count),
    ensures
        first_hit(tree, paths, links_count) is None,
    decreases paths.len(),
{
    if paths.len() > 0 {
        assert(!hit(tree, paths[0], links_count));
        let rest = paths.drop_first();
        assert forall|j: int| 0 <= j < rest.len() implies !hit(tree, #[trigger] rest[j], links_count) by {
            assert(rest[j] == paths[j + 1]);
        }
        lemma_first_hit_none(tree, rest, links_count);
    }
}

/// The standard library directories win: a library that the tree has in one
/// of the six fixed directories is found in one of them, whatever the search
/// directories of the caller hold.
pub proof fn lemma_standard_directories_win(
    tree: &SourceTree,
    root: Seq<char>,
    name: Seq<char>,
    extra: Seq<Seq<char>>,
    k: int,
)
    requires
        0 <= k < 6,
        hit(tree, candidates(root, library_dirs(extra), name)[k], true),
    ensures
        exists|i: int|
            0 <= i <= k && library_at(tree, root, name, extra) == Some(
                #[trigger] candidates(root, library_dirs(extra), name)[i],
            ),
{
    let paths = candidates(root, library_dirs(extra), name);
    lemma_first_hit(tree, paths, true);
    assert(hit(tree, paths[k], true));
    let path = first_hit(tree, paths, true)->Some_0;
    let i = choose|i: int|
        0 <= i < paths.len() && paths[i] == path && hit(tree, path, true) && forall|j: int|
            0 <= j < i ==> !hit(tree, #[trigger] paths[j], true);
    assert(i <= k);
    assert(library_at(tree, root, name, extra) == Some(paths[i]));
}

/// `name` in directory `dir` of the tree rooted at `root`.
pub(crate) fn place_under(root: &str, dir: &str, name: &str) -> (out: String)
    ensures
        out@ == under(root@, dir@, name@),
{
    let d = join(root, dir);
    join(d.as_str(), name)
}

/// The directories searched for a library, in order of precedence.
pub fn library_search_dirs(extra_paths: &[&str]) -> (out: Vec<String>)
    ensures
        texts(out@) == library_dirs(strs(extra_paths@)),
{
    let mut out: Vec<String> = Vec::new();
    out.push(String::from_str("usr/lib64"));
    out.push(String::from_str("lib64"));
    out.push(String::from_str("usr/lib"));
    out.push(String::from_str("lib"));
    out.push(String::from_str("usr/lib64/systemd"));
    out.push(String::from_str("usr/lib/systemd"));
    let ghost dirs = library_dirs(strs(extra_paths@));
    let mut i: usize = 0;
    while i < extra_paths.len()
        invariant
            i <= extra_paths.len(),
            dirs == library_dirs(strs(extra_paths@)),
            out@.len() == 6 + i,
            forall|k: int| 0 <= k < out@.len() ==> out@[k]@ == dirs[k],
        decreases extra_paths.len() - i,
    {
        out.push(String::from_str(extra_paths[i]));
        i += 1;
    }
    assert(texts(out@) =~= dirs);
    out
}

/// Where a library is looked for, in order of precedence: the fixed library
/// directories under `source_root`, then each of `extra_paths`.
pub fn library_candidates(source_root: &str, lib_name: &str, extra_paths: &[&str]) -> (out: Vec<
    String,
>)
    ensures
        texts(out@) == candidates(source_root@, library_dirs(strs(extra_paths@)), lib_name@),
{
    let mut out: Vec<String> = Vec::new();
    out.push(place_under(source_root, "usr/lib64", lib_name));
    out.push(place_under(source_root, "lib64", lib_name));
    out.push(place_under(source_root, "usr/lib", lib_name));
    out.push(place_under(source_root, "lib", lib_name));
    out.push(place_under(source_root, "usr/lib64/systemd", lib_name));
    out.push(place_under(source_root, "usr/lib/systemd", lib_name));
    let ghost dirs = library_dirs(strs(extra_paths@));
    let mut i: usize = 0;
    while i < extra_paths.len()
        invariant
            i <= extra_paths.len(),
            dirs == library_dirs(strs(extra_paths@)),
            out@.len() == 6 + i,
            forall|k: int| 0 <= k < out@.len() ==> out@[k]@ == under(source_root@, dirs[k], lib_name@),
        decreases extra_paths.len() - i,
    {
        out.push(place_under(source_root, extra_paths[i], lib_name));
        i += 1;
    }
    assert(texts(out@) =~= candidates(source_root@, dirs, lib_name@));
    out
}

/// Where `name` is looked for, given the directories to search in order.
pub fn candidates_in(source_root: &str, dirs: &Vec<String>, name: &str) -> (out: Vec<String>)
    ensures
        texts(out@) == candidates(source_root@, texts(dirs@), name@),
{
    let mut out: Vec<String> = Vec::new();
    let mut i: usize = 0;
    while i < dirs.len()
        invariant
            i <= dirs.len(),
            out@.len() == i,
            forall|k: int|
                0 <= k < i ==> out@[k]@ == under(source_root@, texts(dirs@)[k], name@),
        decreases dirs.len() - i,
    {
        out.push(place_under(source_root, dirs[i].as_str(), name));
        i += 1;
    }
    assert(texts(out@) =~= candidates(source_root@, texts(dirs@), name@));
    out
}

/// Where a binary is looked for, in order of precedence.
pub fn binary_candidates(source_root: &str, binary: &str) -> (out: Vec<String>)
    ensures
        texts(out@) == candidates(source_root@, binary_dirs(), binary@),
{
    let mut out: Vec<String> = Vec::new();
    out.push(place_under(source_root, "usr/bin", binary));
    out.push(place_under(source_root, "bin", binary));
    out.push(place_under(source_root, "usr/sbin", binary));
    out.push(place_under(source_root, "sbin", binary));
    assert(texts(out@) =~= candidates(source_root@, binary_dirs(), binary@));
    out
}

/// Where a system-administration binary is looked for, in order of precedence.
pub fn sbin_candidates(source_root: &str, binary: &str) -> (out: Vec<String>)
    ensures
        texts(out@) == candidates(source_root@, sbin_dirs(), binary@),
{
    let mut out: Vec<String> = Vec::new();
    out.push(place_under(source_root, "usr/sbin", binary));
    out.push(place_under(source_root, "sbin", binary));
    out.push(place_under(source_root, "usr/bin", binary));
    out.push(place_under(source_root, "bin", binary));
    assert(texts(out@) =~= candidates(source_root@, sbin_dirs(), binary@));
    out
}

/// Finds a library in the standard library directories of `source_root`, the
/// service manager's private ones, and then `extra_paths`, in that order.
///
/// A symbolic link counts as found even when it points nowhere. `None` means
/// that the tree has the library in none of these places.
pub fn find_library(
    tree: &SourceTree,
    source_root: &str,
    lib_name: &str,
    extra_paths: &[&str],
) -> (out: Option<String>)
    ensures
        out matches Some(path) ==> library_at(tree, source_root@, lib_name@, strs(extra_paths@))
            == Some(path@),
        out is None ==> library_at(tree, source_root@, lib_name@, strs(extra_paths@)) is None,
{
    find_in(tree, FindJob::for_library(source_root, lib_name, extra_paths))
}

/// Finds a binary in `usr/bin`, `bin`, `usr/sbin`, `sbin` under `source_root`,
/// in that order. Only a path where something is counts as found.
pub fn find_binary(tree: &SourceTree, source_root: &str, binary: &str) -> (out: Option<String>)
    ensures
        out matches Some(path) ==> first_hit(
            tree,
            candidates(source_root@, binary_dirs(), binary@),
            false,
        ) == Some(path@),
        out is None ==> first_hit(tree, candidates(source_root@, binary_dirs(), binary@), false)
            is None,
{
    find_in(tree, FindJob::for_binary(source_root, binary))
}

/// Finds a binary in `usr/sbin`, `sbin`, `usr/bin`, `bin` under `source_root`,
/// in that order. Only a path where something is counts as found.
pub fn find_sbin_binary(tree: &SourceTree, source_root: &str, binary: &str) -> (out: Option<
    String,
>)
    ensures
        out matches Some(path) ==> first_hit(
            tree,
            candidates(source_root@, sbin_dirs(), binary@),
            false,
        ) == Some(path@),
        out is None ==> first_hit(tree, candidates(source_root@, sbin_dirs(), binary@), false)
            is None,
{
    find_in(tree, FindJob::for_sbin_binary(source_root, binary))
}

} // verus!
