//! The libraries that binaries need, directly or through other libraries:
//! what the closure is, and that the walk of `ClosureJob` over a recorded tree
//! computes it.

use vstd::prelude::*;
use vstd::string::*;
use vstd::seq_lib::*;
use vstd::set_lib::*;
use crate::analyze::{dependencies, fails_with, gives, run_outcome};
use crate::error::Error;
use crate::ops::{names_turn, Answer, Op, Reply, Request, Step, Turn};
use crate::paths::{
    candidates, hit, lemma_first_hit_at, lemma_first_hit_none, library_at, library_dirs,
};
use crate::walk::{ClosureJob, JobView, WalkStage};
use crate::text::{strs, texts};
use crate::tree::{lookup, SourceFile, SourceTree, ToolRun};

verus! {

/// The lists of a walk, by their texts.
pub struct WalkView {
    /// The library names met so far, each once.
    pub names: Seq<Seq<char>>,
    /// The paths still to inspect; the last one is taken up first.
    pub pending: Seq<Seq<char>>,
    /// The paths taken up so far, each once.
    pub done: Seq<Seq<char>>,
}

impl WalkView {
    /// No name was met twice, and no path taken up twice.
    pub open spec fn distinct(self) -> bool {
        self.names.no_duplicates() && self.done.no_duplicates()
    }

    /// Whether `path` is waiting or was taken up.
    pub open spec fn knows(self, path: Seq<char>) -> bool {
        self.pending.contains(path) || self.done.contains(path)
    }
}

/// What a walk is made over: the root of the source tree, the search
/// directories of the caller, and the binaries that it starts at.
pub struct Search {
    pub root: Seq<char>,
    pub extra: Seq<Seq<char>>,
    pub seeds: Seq<Seq<char>>,
}

/// The file at `path` needs the library `name`.
pub open spec fn needs(tree: &SourceTree, path: Seq<char>, name: Seq<char>) -> bool {
    match dependencies(tree, path) {
        Ok(names) => names.contains(name),
        Err(_) => false,
    }
}

/// The library `via` is found in the tree, and its file needs `name`.
pub open spec fn needs_through(
    tree: &SourceTree,
    search: Search,
    via: Seq<char>,
    name: Seq<char>,
) -> bool {
    match library_at(tree, search.root, via, search.extra) {
        Some(path) => needs(tree, path, name),
        None => false,
    }
}

/// One of the binaries that the walk starts at needs the library `name`.
pub open spec fn needs_at_start(tree: &SourceTree, search: Search, name: Seq<char>) -> bool {
    exists|i: int| 0 <= i < search.seeds.len() && needs(tree, #[trigger] search.seeds[i], name)
}

/// One of the binaries needs `name` through at most `steps` libraries in a row.
pub open spec fn reached(tree: &SourceTree, search: Search, name: Seq<char>, steps: nat) -> bool
    decreases steps,
{
    needs_at_start(tree, search, name) || (steps > 0 && exists|via: Seq<char>|
        #![trigger needs_through(tree, search, via, name)]
        reached(tree, search, via, (steps - 1) as nat) && needs_through(tree, search, via, name))
}

/// One of the binaries needs `name`, directly or through any chain of libraries.
pub open spec fn in_closure(tree: &SourceTree, search: Search, name: Seq<char>) -> bool {
    exists|steps: nat| reached(tree, search, name, steps)
}

/// `path` is one of the binaries, or where a library that one of them needs
/// is found.
pub open spec fn visited(tree: &SourceTree, search: Search, path: Seq<char>) -> bool {
    search.seeds.contains(path) || exists|via: Seq<char>|
        #![trigger in_closure(tree, search, via)]
        in_closure(tree, search, via) && library_at(tree, search.root, via, search.extra) == Some(
            path,
        )
}

/// Every dependency of `path` is among `names`.
pub open spec fn settled(tree: &SourceTree, names: Seq<Seq<char>>, path: Seq<char>) -> bool {
    match dependencies(tree, path) {
        Ok(needed) => forall|i: int| 0 <= i < needed.len() ==> names.contains(#[trigger] needed[i]),
        Err(_) => false,
    }
}

/// The names, the waiting paths and the paths taken up of a walk.
pub open spec fn walk_of(job: JobView) -> WalkView {
    WalkView { names: job.names, pending: job.pending, done: job.done }
}

/// What holds of a walk between two files: `on_course`, but that the walk
/// need not know yet where the library `sought` is found, if one is sought.
pub open spec fn steady(
    tree: &SourceTree,
    search: Search,
    walk: WalkView,
    sought: Option<Seq<char>>,
) -> bool {
    &&& walk.distinct()
    &&& forall|i: int|
        0 <= i < walk.names.len() ==> in_closure(tree, search, #[trigger] walk.names[i])
    &&& forall|path: Seq<char>| #[trigger] walk.knows(path) ==> visited(tree, search, path)
    &&& forall|i: int| 0 <= i < search.seeds.len() ==> walk.knows(#[trigger] search.seeds[i])
    &&& forall|i: int|
        0 <= i < walk.names.len() ==> sought == Some(walk.names[i]) || (#[trigger] library_at(
            tree,
            search.root,
            walk.names[i],
            search.extra,
        ) matches Some(path) ==> walk.knows(path))
}

/// What holds of a walk between two files, when no library is sought: it
/// met only names that the binaries need and knows only paths that belong to
/// the walk, it knows each binary, and it knows where each name that it met
/// is found.
pub open spec fn on_course(tree: &SourceTree, search: Search, walk: WalkView) -> bool {
    steady(tree, search, walk, None)
}

/// A dependency of a path of the walk is needed by one of the binaries.
pub proof fn lemma_dependency_in_closure(
    tree: &SourceTree,
    search: Search,
    path: Seq<char>,
    name: Seq<char>,
)
    requires
        visited(tree, search, path),
        needs(tree, path, name),
    ensures
        in_closure(tree, search, name),
{
    if needs_at_start(tree, search, name) {
        assert(reached(tree, search, name, 0));
    } else {
        if search.seeds.contains(path) {
            let i = choose|i: int| 0 <= i < search.seeds.len() && search.seeds[i] == path;
            assert(needs(tree, search.seeds[i], name));
        }
        let via = choose|via: Seq<char>|
            #![trigger in_closure(tree, search, via)]
            in_closure(tree, search, via) && library_at(tree, search.root, via, search.extra)
                == Some(path);
        let steps = choose|steps: nat| reached(tree, search, via, steps);
        assert(needs_through(tree, search, via, name));
        assert(reached(tree, search, name, steps + 1));
    }
}

/// A path that the tree has a record of is the path of one of its files.
proof fn lemma_lookup_names_a_file(files: Seq<SourceFile>, path: Seq<char>)
    requires
        lookup(files, path) is Some,
    ensures
        exists|i: int| 0 <= i < files.len() && #[trigger] files[i].path@ == path,
    decreases files.len(),
{
    if files.last().path@ == path {
        assert(files[files.len() - 1].path@ == path);
    } else {
        lemma_lookup_names_a_file(files.drop_last(), path);
        let i = choose|i: int|
            0 <= i < files.drop_last().len() && #[trigger] files.drop_last()[i].path@ == path;
        assert(files[i].path@ == path);
    }
}

/// Distinct paths that the tree has a record of are no more than its files.
proof fn lemma_recorded_paths_bounded(tree: &SourceTree, paths: Seq<Seq<char>>)
    requires
        paths.no_duplicates(),
        forall|i: int| 0 <= i < paths.len() ==> lookup(tree.files@, #[trigger] paths[i]) is Some,
    ensures
        paths.len() <= tree.files@.len(),
{
    broadcast use seq_to_set_is_finite;

    let all = Seq::new(tree.files@.len(), |i: int| tree.files@[i].path@);
    assert forall|path: Seq<char>| paths.to_set().contains(path) implies all.to_set().contains(
        path,
    ) by {
        let i = choose|i: int| 0 <= i < paths.len() && paths[i] == path;
        assert(lookup(tree.files@, paths[i]) is Some);
        lemma_lookup_names_a_file(tree.files@, path);
        let k = choose|k: int| 0 <= k < tree.files@.len() && #[trigger] tree.files@[k].path@ == path;
        assert(all[k] == path);
    }
    paths.unique_seq_to_set();
    all.lemma_cardinality_of_set();
    lemma_len_subset(paths.to_set(), all.to_set());
}

/// Once no path waits and every path taken up is settled, the walk has met
/// every name that the binaries need.
proof fn lemma_nothing_missed(
    tree: &SourceTree,
    search: Search,
    walk: WalkView,
    name: Seq<char>,
    steps: nat,
)
    requires
        on_course(tree, search, walk),
        walk.pending.len() == 0,
        forall|i: int| 0 <= i < walk.done.len() ==> settled(tree, walk.names, #[trigger] walk.done[i]),
        reached(tree, search, name, steps),
    ensures
        walk.names.contains(name),
    decreases steps,
{
    if needs_at_start(tree, search, name) {
        let s = choose|s: int|
            0 <= s < search.seeds.len() && needs(tree, #[trigger] search.seeds[s], name);
        let seed = search.seeds[s];
        assert(walk.knows(seed));
        let i = choose|i: int| 0 <= i < walk.done.len() && walk.done[i] == seed;
        assert(settled(tree, walk.names, walk.done[i]));
        let needed = dependencies(tree, seed)->Ok_0;
        let k = choose|k: int| 0 <= k < needed.len() && needed[k] == name;
        assert(walk.names.contains(needed[k]));
    } else {
        let via = choose|via: Seq<char>|
            #![trigger needs_through(tree, search, via, name)]
            reached(tree, search, via, (steps - 1) as nat) && needs_through(
                tree,
                search,
                via,
                name,
            );
        lemma_nothing_missed(tree, search, walk, via, (steps - 1) as nat);
        let n = choose|n: int| 0 <= n < walk.names.len() && walk.names[n] == via;
        let path = library_at(tree, search.root, walk.names[n], search.extra)->Some_0;
        assert(walk.knows(path));
        let i = choose|i: int| 0 <= i < walk.done.len() && walk.done[i] == path;
        assert(settled(tree, walk.names, walk.done[i]));
        let needed = dependencies(tree, path)->Ok_0;
        let k = choose|k: int| 0 <= k < needed.len() && needed[k] == name;
        assert(walk.names.contains(needed[k]));
    }
}

/// Whether `out` is the closure over `search`: each library that one of the
/// binaries needs, directly or through other libraries, once and no other
/// name, every file of the walk having been inspected; or the failure of one
/// file of the walk.
pub open spec fn is_closure(tree: &SourceTree, search: Search, out: Result<Vec<String>, Error>) -> bool {
    match out {
        Ok(libs) => {
            &&& texts(libs@).no_duplicates()
            &&& forall|name: Seq<char>|
                texts(libs@).contains(name) <==> in_closure(tree, search, name)
            &&& forall|path: Seq<char>|
                visited(tree, search, path) ==> dependencies(tree, path) is Ok
        },
        Err(e) => exists|path: Seq<char>|
            #![trigger visited(tree, search, path)]
            visited(tree, search, path) && fails_with(dependencies(tree, path), e),
    }
}

/// All the libraries that the binary at `binary_path` needs, directly or
/// through other libraries, each once.
///
/// The walk is that of `ClosureJob`, answered from `tree`. Starting at the
/// binary, every file is inspected once; each name that it needs is looked
/// for as `find_library` does, and where the tree has it, that file is
/// inspected in turn. A library that the tree does not have is part of the
/// result all the same. One file that cannot be inspected fails the whole
/// computation, with the failure of that file.
pub fn get_all_dependencies(
    tree: &SourceTree,
    source_root: &str,
    binary_path: &str,
    extra_lib_paths: &[&str],
) -> (out: Result<Vec<String>, Error>)
    ensures
        is_closure(
            tree,
            Search { root: source_root@, extra: strs(extra_lib_paths@), seeds: seq![binary_path@] },
            out,
        ),
{
    let ghost search = Search {
        root: source_root@,
        extra: strs(extra_lib_paths@),
        seeds: seq![binary_path@],
    };
    let mut pending: Vec<String> = Vec::new();
    pending.push(String::from_str(binary_path));
    assert(texts(pending@) =~= search.seeds);
    let job = ClosureJob::starting_with(source_root, pending, extra_lib_paths);
    walk_over(tree, job, Ghost(search))
}

/// All the libraries that the binaries at `binary_paths` need, directly or
/// through other libraries, each once: what `get_all_dependencies` gives for
/// one binary, for several at a time.
pub fn get_closure(
    tree: &SourceTree,
    source_root: &str,
    binary_paths: &[&str],
    extra_lib_paths: &[&str],
) -> (out: Result<Vec<String>, Error>)
    ensures
        is_closure(
            tree,
            Search {
                root: source_root@,
                extra: strs(extra_lib_paths@),
                seeds: strs(binary_paths@),
            },
            out,
        ),
{
    let ghost search = Search {
        root: source_root@,
        extra: strs(extra_lib_paths@),
        seeds: strs(binary_paths@),
    };
    let job = ClosureJob::start(source_root, binary_paths, extra_lib_paths);
    walk_over(tree, job, Ghost(search))
}

/// Whether `turn` ends a walk as the closure over `search` asks: with each
/// library needed, once, every file of the walk having been inspected; or
/// with the failure of one file of the walk.
pub open spec fn closure_turn(tree: &SourceTree, search: Search, turn: Turn<Seq<Seq<char>>>) -> bool {
    match turn {
        Turn::Done(names) => {
            &&& names.no_duplicates()
            &&& forall|name: Seq<char>| names.contains(name) <==> in_closure(tree, search, name)
            &&& forall|path: Seq<char>|
                visited(tree, search, path) ==> dependencies(tree, path) is Ok
        },
        Turn::Failed(kind, subject, detail) => exists|path: Seq<char>|
            #![trigger visited(tree, search, path)]
            visited(tree, search, path) && dependencies(tree, path) is Err && dependencies(
                tree,
                path,
            )->Err_0 == (kind, subject, detail),
        Turn::Ask(_) => false,
    }
}

/// The paths of `done` before `upto` are settled and recorded in the tree.
pub open spec fn dealt_with(
    tree: &SourceTree,
    names: Seq<Seq<char>>,
    done: Seq<Seq<char>>,
    upto: int,
) -> bool {
    forall|i: int|
        0 <= i < upto ==> settled(tree, names, #[trigger] done[i]) && lookup(tree.files@, done[i])
            is Some
}

/// What holds of a walk over a tree that waits for an answer, or is over.
pub open spec fn in_order(
    tree: &SourceTree,
    search: Search,
    job: JobView,
    turn: Turn<Seq<Seq<char>>>,
) -> bool {
    let walk = walk_of(job);
    &&& search.root == job.root
    &&& job.dirs == library_dirs(search.extra)
    &&& match job.stage {
        WalkStage::Start => false,
        WalkStage::Finished => closure_turn(tree, search, turn),
        WalkStage::Checking => {
            &&& turn == Turn::<Seq<Seq<char>>>::Ask(Op::Stat(job.path))
            &&& steady(tree, search, walk, None)
            &&& job.done.len() > 0
            &&& job.done.last() == job.path
            &&& dealt_with(tree, job.names, job.done, job.done.len() - 1)
        },
        WalkStage::Inspecting => {
            &&& turn == Turn::<Seq<Seq<char>>>::Ask(Op::Inspect(job.path))
            &&& steady(tree, search, walk, None)
            &&& job.done.len() > 0
            &&& job.done.last() == job.path
            &&& dealt_with(tree, job.names, job.done, job.done.len() - 1)
            &&& tree.info(job.path).exists
        },
        WalkStage::Searching => {
            &&& 0 <= job.next_dep < job.deps.len()
            &&& 0 <= job.next_cand < job.cands.len()
            &&& turn == Turn::<Seq<Seq<char>>>::Ask(Op::Stat(job.cands[job.next_cand]))
            &&& steady(tree, search, walk, Some(job.deps[job.next_dep]))
            &&& job.done.len() > 0
            &&& job.done.last() == job.path
            &&& dealt_with(tree, job.names, job.done, job.done.len() - 1)
            &&& tree.info(job.path).exists
            &&& gives(dependencies(tree, job.path), job.deps)
            &&& forall|k: int| 0 <= k <= job.next_dep ==> job.names.contains(#[trigger] job.deps[k])
            &&& job.cands == candidates(job.root, job.dirs, job.deps[job.next_dep])
            &&& forall|c: int| 0 <= c < job.next_cand ==> !hit(tree, #[trigger] job.cands[c], true)
        },
    }
}

/// How far a walk over a tree is from its end, the first measure: the files
/// of the tree that were not taken up.
pub open spec fn files_left(tree: &SourceTree, job: JobView) -> int {
    tree.files@.len() + 1 - job.done.len()
}

/// The second measure: what is still to ask about the file in turn.
pub open spec fn asks_left(job: JobView) -> int {
    match job.stage {
        WalkStage::Checking => 2,
        WalkStage::Inspecting => 1,
        _ => 0,
    }
}

/// Whether the walk `after` is nearer to its end than the walk `before`.
pub open spec fn nearer(tree: &SourceTree, before: JobView, after: JobView) -> bool {
    ||| after.stage == WalkStage::Finished
    ||| 0 <= files_left(tree, after) < files_left(tree, before)
    ||| files_left(tree, after) == files_left(tree, before) && 0 <= asks_left(after) < asks_left(
        before,
    )
    ||| files_left(tree, after) == files_left(tree, before) && asks_left(after) == asks_left(before)
        && after.deps.len() == before.deps.len() && 0 <= after.deps.len() - after.next_dep
        < before.deps.len() - before.next_dep
    ||| files_left(tree, after) == files_left(tree, before) && asks_left(after) == asks_left(before)
        && after.deps.len() == before.deps.len() && after.next_dep == before.next_dep
        && after.cands.len() == before.cands.len() && 0 <= after.cands.len() - after.next_cand
        < before.cands.len() - before.next_cand
}

/// A walk that is steady, with no path waiting and every path taken up dealt
/// with, has met exactly what the binaries need.
proof fn lemma_walk_is_complete(tree: &SourceTree, search: Search, walk: WalkView)
    requires
        steady(tree, search, walk, None),
        walk.pending.len() == 0,
        dealt_with(tree, walk.names, walk.done, walk.done.len() as int),
    ensures
        closure_turn(tree, search, Turn::Done(walk.names)),
{
    assert(on_course(tree, search, walk));
    assert forall|name: Seq<char>| in_closure(tree, search, name) implies walk.names.contains(
        name,
    ) by {
        let steps = choose|steps: nat| reached(tree, search, name, steps);
        lemma_nothing_missed(tree, search, walk, name, steps);
    }
    assert forall|path: Seq<char>| visited(tree, search, path) implies dependencies(
        tree,
        path,
    ) is Ok by {
        if search.seeds.contains(path) {
            let s = choose|s: int| 0 <= s < search.seeds.len() && search.seeds[s] == path;
            assert(walk.knows(search.seeds[s]));
        } else {
            let via = choose|via: Seq<char>|
                #![trigger in_closure(tree, search, via)]
                in_closure(tree, search, via) && library_at(tree, search.root, via, search.extra)
                    == Some(path);
            let n = choose|n: int| 0 <= n < walk.names.len() && walk.names[n] == via;
            assert(library_at(tree, search.root, walk.names[n], search.extra) == Some(path));
        }
        assert(walk.knows(path));
        let i = choose|i: int| 0 <= i < walk.done.len() && walk.done[i] == path;
        assert(settled(tree, walk.names, walk.done[i]));
    }
    assert forall|name: Seq<char>| walk.names.contains(name) implies in_closure(
        tree,
        search,
        name,
    ) by {
        let n = choose|n: int| 0 <= n < walk.names.len() && walk.names[n] == name;
        assert(in_closure(tree, search, walk.names[n]));
    }
}

/// Taking up the next file keeps a walk over a tree in order and brings it
/// nearer to its end.
proof fn lemma_next_file_in_order(tree: &SourceTree, search: Search, job: JobView)
    requires
        search.root == job.root,
        job.dirs == library_dirs(search.extra),
        steady(tree, search, walk_of(job), None),
        dealt_with(tree, job.names, job.done, job.done.len() as int),
    ensures
        in_order(tree, search, job.next_file().0, job.next_file().1),
        job.next_file().0.stage == WalkStage::Finished || (job.next_file().0.stage
            == WalkStage::Checking && job.next_file().0.done.len() == job.done.len() + 1
            && job.done.len() <= tree.files@.len()),
    decreases job.pending.len(),
{
    let walk = walk_of(job);
    if job.pending.len() == 0 {
        lemma_walk_is_complete(tree, search, walk);
    } else {
        let path = job.pending.last();
        let rest = JobView { pending: job.pending.drop_last(), ..job };
        assert(walk.knows(path)) by {
            assert(job.pending[job.pending.len() - 1] == path);
        }
        assert forall|other: Seq<char>| walk_of(rest).knows(other) implies walk.knows(other) by {
            if rest.pending.contains(other) {
                let i = choose|i: int| 0 <= i < rest.pending.len() && rest.pending[i] == other;
                assert(job.pending[i] == other);
            }
        }
        assert forall|other: Seq<char>| walk.knows(other) implies walk_of(rest).knows(other)
            || other == path by {
            if job.pending.contains(other) {
                let i = choose|i: int| 0 <= i < job.pending.len() && job.pending[i] == other;
                if i < rest.pending.len() {
                    assert(rest.pending[i] == other);
                }
            }
        }
        if job.done.contains(path) {
            assert(walk_of(rest).knows(path));
            assert forall|other: Seq<char>| walk.knows(other) implies walk_of(rest).knows(
                other,
            ) by {}
            assert forall|other: Seq<char>| #[trigger] walk_of(rest).knows(other) implies visited(
                tree,
                search,
                other,
            ) by {
                assert(walk.knows(other));
            }
            assert forall|i: int| 0 <= i < rest.names.len() implies (#[trigger] library_at(
                tree,
                search.root,
                rest.names[i],
                search.extra,
            ) matches Some(at) ==> walk_of(rest).knows(at)) by {
                let at = library_at(tree, search.root, job.names[i], search.extra);
                if at is Some {
                    assert(walk.knows(at->Some_0));
                }
            }
            assert forall|i: int| 0 <= i < search.seeds.len() implies walk_of(rest).knows(
                #[trigger] search.seeds[i],
            ) by {
                assert(walk.knows(search.seeds[i]));
            }
            lemma_next_file_in_order(tree, search, rest);
        } else {
            let taken = JobView { done: job.done.push(path), path, ..rest };
            let after = walk_of(taken);
            assert forall|other: Seq<char>| after.knows(other) implies walk.knows(other) by {
                if after.done.contains(other) {
                    let i = choose|i: int| 0 <= i < after.done.len() && after.done[i] == other;
                    if i < job.done.len() {
                        assert(job.done[i] == other);
                    }
                } else {
                    assert(walk_of(rest).knows(other));
                }
            }
            assert forall|other: Seq<char>| walk.knows(other) implies after.knows(other) by {
                if other == path {
                    assert(after.done[job.done.len() as int] == path);
                } else if walk_of(rest).knows(other) {
                    if job.done.contains(other) {
                        let i = choose|i: int| 0 <= i < job.done.len() && job.done[i] == other;
                        assert(after.done[i] == other);
                    }
                }
            }
            assert forall|other: Seq<char>| #[trigger] after.knows(other) implies visited(
                tree,
                search,
                other,
            ) by {
                assert(walk.knows(other));
            }
            assert(after.done.no_duplicates()) by {
                assert forall|i: int, k: int|
                    0 <= i < after.done.len() && 0 <= k < after.done.len() && i
                        != k implies after.done[i] != after.done[k] by {
                    if i == job.done.len() {
                        assert(job.done[k] == after.done[k]);
                    } else if k == job.done.len() {
                        assert(job.done[i] == after.done[i]);
                    }
                }
            }
            assert forall|i: int| 0 <= i < after.names.len() implies (#[trigger] library_at(
                tree,
                search.root,
                after.names[i],
                search.extra,
            ) matches Some(at) ==> after.knows(at)) by {
                let at = library_at(tree, search.root, job.names[i], search.extra);
                if at is Some {
                    assert(walk.knows(at->Some_0));
                }
            }
            assert forall|i: int| 0 <= i < search.seeds.len() implies after.knows(
                #[trigger] search.seeds[i],
            ) by {
                assert(walk.knows(search.seeds[i]));
            }
            assert(dealt_with(tree, taken.names, taken.done, taken.done.len() - 1)) by {
                assert forall|i: int| 0 <= i < taken.done.len() - 1 implies settled(
                    tree,
                    taken.names,
                    #[trigger] taken.done[i],
                ) && lookup(tree.files@, taken.done[i]) is Some by {
                    assert(taken.done[i] == job.done[i]);
                }
            }
            lemma_recorded_paths_bounded(tree, job.done);
        }
    }
}

/// Names that a list held are held after one more was put last.
proof fn lemma_pushed_keeps(list: Seq<Seq<char>>, last: Seq<char>)
    ensures
        list.push(last).contains(last),
        forall|other: Seq<char>| list.contains(other) ==> list.push(last).contains(other),
        forall|other: Seq<char>|
            list.push(last).contains(other) ==> list.contains(other) || other == last,
        list.no_duplicates() && !list.contains(last) ==> list.push(last).no_duplicates(),
{
    let longer = list.push(last);
    assert(longer[list.len() as int] == last);
    assert forall|other: Seq<char>| list.contains(other) implies longer.contains(other) by {
        let i = choose|i: int| 0 <= i < list.len() && list[i] == other;
        assert(longer[i] == other);
    }
    assert forall|other: Seq<char>| longer.contains(other) implies list.contains(other) || other
        == last by {
        let i = choose|i: int| 0 <= i < longer.len() && longer[i] == other;
        if i < list.len() {
            assert(list[i] == other);
        }
    }
    if list.no_duplicates() && !list.contains(last) {
        assert forall|i: int, k: int|
            0 <= i < longer.len() && 0 <= k < longer.len() && i != k implies longer[i]
            != longer[k] by {
            if i == list.len() {
                assert(list[k] == longer[k]);
            } else if k == list.len() {
                assert(list[i] == longer[i]);
            }
        }
    }
}

/// Going on with what the file in turn needs keeps a walk over a tree in
/// order and brings it nearer to its end.
proof fn lemma_next_name_in_order(tree: &SourceTree, search: Search, job: JobView)
    requires
        search.root == job.root,
        job.dirs == library_dirs(search.extra),
        steady(tree, search, walk_of(job), None),
        job.done.len() > 0,
        job.done.last() == job.path,
        dealt_with(tree, job.names, job.done, job.done.len() - 1),
        tree.info(job.path).exists,
        gives(dependencies(tree, job.path), job.deps),
        0 <= job.next_dep <= job.deps.len(),
        forall|k: int| 0 <= k < job.next_dep ==> job.names.contains(#[trigger] job.deps[k]),
    ensures
        in_order(tree, search, job.next_name().0, job.next_name().1),
        ({
            let next = job.next_name().0;
            ||| next.stage == WalkStage::Finished
            ||| next.stage == WalkStage::Checking && next.done.len() == job.done.len() + 1
                && job.done.len() <= tree.files@.len()
            ||| next.stage == WalkStage::Searching && next.done == job.done && next.deps
                == job.deps && job.next_dep <= next.next_dep < next.deps.len() && next.next_cand
                == 0 && next.cands.len() > 0
        }),
    decreases job.deps.len() - job.next_dep,
{
    let walk = walk_of(job);
    if job.next_dep >= job.deps.len() {
        assert(settled(tree, job.names, job.path));
        assert(dealt_with(tree, job.names, job.done, job.done.len() as int)) by {
            assert forall|i: int| 0 <= i < job.done.len() implies settled(
                tree,
                job.names,
                #[trigger] job.done[i],
            ) && lookup(tree.files@, job.done[i]) is Some by {
                if i == job.done.len() - 1 {
                    assert(job.done[i] == job.path);
                }
            }
        }
        lemma_next_file_in_order(tree, search, job);
    } else {
        let name = job.deps[job.next_dep];
        if job.names.contains(name) {
            let later = JobView { next_dep: job.next_dep + 1, ..job };
            assert forall|k: int| 0 <= k < later.next_dep implies later.names.contains(
                #[trigger] later.deps[k],
            ) by {}
            lemma_next_name_in_order(tree, search, later);
        } else {
            let cands = candidates(job.root, job.dirs, name);
            assert(cands.len() == library_dirs(search.extra).len());
            assert(cands.len() >= 6);
            let sought = JobView { names: job.names.push(name), cands, next_cand: 0, ..job };
            let after = walk_of(sought);
            lemma_pushed_keeps(job.names, name);
            assert(walk.knows(job.path)) by {
                assert(job.done[job.done.len() - 1] == job.path);
            }
            assert(needs(tree, job.path, name)) by {
                assert(job.deps[job.next_dep] == name);
            }
            lemma_dependency_in_closure(tree, search, job.path, name);
            assert forall|i: int| 0 <= i < after.names.len() implies in_closure(
                tree,
                search,
                #[trigger] after.names[i],
            ) by {
                if i < job.names.len() {
                    assert(after.names[i] == job.names[i]);
                }
            }
            assert forall|other: Seq<char>| #[trigger] after.knows(other) implies visited(
                tree,
                search,
                other,
            ) by {
                assert(walk.knows(other));
            }
            assert forall|i: int| 0 <= i < search.seeds.len() implies after.knows(
                #[trigger] search.seeds[i],
            ) by {
                assert(walk.knows(search.seeds[i]));
            }
            assert forall|i: int| 0 <= i < after.names.len() implies Some(name) == Some(
                after.names[i],
            ) || (#[trigger] library_at(tree, search.root, after.names[i], search.extra)
                matches Some(at) ==> after.knows(at)) by {
                if i < job.names.len() {
                    assert(after.names[i] == job.names[i]);
                    let at = library_at(tree, search.root, job.names[i], search.extra);
                    if at is Some {
                        assert(walk.knows(at->Some_0));
                    }
                }
            }
            assert(dealt_with(tree, sought.names, sought.done, sought.done.len() - 1)) by {
                assert forall|i: int| 0 <= i < sought.done.len() - 1 implies settled(
                    tree,
                    sought.names,
                    #[trigger] sought.done[i],
                ) && lookup(tree.files@, sought.done[i]) is Some by {
                    assert(settled(tree, job.names, job.done[i]));
                }
            }
            assert forall|k: int| 0 <= k <= sought.next_dep implies sought.names.contains(
                #[trigger] sought.deps[k],
            ) by {
                if k < job.next_dep {
                    assert(job.names.contains(job.deps[k]));
                }
            }
        }
    }
}

/// Whether `reply` is what the tree answers to what a walk asked last.
pub open spec fn answers(tree: &SourceTree, job: JobView, reply: Reply) -> bool {
    match job.stage {
        WalkStage::Checking => reply == Reply::Info(tree.info(job.path)),
        WalkStage::Inspecting => match reply {
            Reply::Run(run) => run_outcome(job.path, run) == run_outcome(
                job.path,
                tree.run(job.path),
            ),
            _ => false,
        },
        WalkStage::Searching => reply == Reply::Info(tree.info(job.cands[job.next_cand])),
        _ => true,
    }
}

/// Each answer of the tree keeps a walk over it in order and brings it nearer
/// to its end.
proof fn lemma_step_in_order(
    tree: &SourceTree,
    search: Search,
    job: JobView,
    turn: Turn<Seq<Seq<char>>>,
    reply: Reply,
)
    requires
        in_order(tree, search, job, turn),
        job.stage != WalkStage::Finished,
        answers(tree, job, reply),
        job.done.len() <= tree.files@.len() + 1,
        job.stage != WalkStage::Checking ==> job.done.len() <= tree.files@.len(),
    ensures
        in_order(tree, search, job.after(reply).0, job.after(reply).1),
        nearer(tree, job, job.after(reply).0),
        job.after(reply).0.stage == WalkStage::Finished || job.after(reply).0.done.len()
            <= tree.files@.len() + 1,
        job.after(reply).0.stage == WalkStage::Finished || job.after(reply).0.stage
            == WalkStage::Checking || job.after(reply).0.done.len() <= tree.files@.len(),
{
    let walk = walk_of(job);
    assert(walk.knows(job.path)) by {
        assert(job.done[job.done.len() - 1] == job.path);
    }
    match job.stage {
        WalkStage::Checking => {
            if tree.info(job.path).exists {
                assert(lookup(tree.files@, job.path) is Some);
                assert forall|i: int| 0 <= i < job.done.len() implies lookup(
                    tree.files@,
                    #[trigger] job.done[i],
                ) is Some by {
                    if i == job.done.len() - 1 {
                        assert(job.done[i] == job.path);
                    }
                }
                lemma_recorded_paths_bounded(tree, job.done);
            } else {
                assert(visited(tree, search, job.path));
            }
        },
        WalkStage::Inspecting => {
            let run = reply->Run_0;
            match run_outcome(job.path, run) {
                Ok(needed) => {
                    let read = JobView { deps: needed, next_dep: 0, ..job };
                    lemma_next_name_in_order(tree, search, read);
                },
                Err(_) => {
                    assert(visited(tree, search, job.path));
                },
            }
        },
        WalkStage::Searching => {
            let name = job.deps[job.next_dep];
            let at = job.cands[job.next_cand];
            let n = choose|n: int| 0 <= n < job.names.len() && job.names[n] == name;
            assert(job.names.contains(job.deps[job.next_dep]));
            if tree.info(at).present() {
                lemma_first_hit_at(tree, job.cands, true, job.next_cand);
                assert(library_at(tree, search.root, name, search.extra) == Some(at));
                let found = JobView {
                    pending: job.pending.push(at),
                    next_dep: job.next_dep + 1,
                    ..job
                };
                let after = walk_of(found);
                lemma_pushed_keeps(job.pending, at);
                assert(in_closure(tree, search, job.names[n]));
                assert(visited(tree, search, at));
                assert forall|other: Seq<char>| #[trigger] after.knows(other) implies visited(
                    tree,
                    search,
                    other,
                ) by {
                    if other != at {
                        assert(walk.knows(other));
                    }
                }
                assert forall|i: int| 0 <= i < search.seeds.len() implies after.knows(
                    #[trigger] search.seeds[i],
                ) by {
                    assert(walk.knows(search.seeds[i]));
                }
                assert forall|i: int| 0 <= i < after.names.len() implies (#[trigger] library_at(
                    tree,
                    search.root,
                    after.names[i],
                    search.extra,
                ) matches Some(place) ==> after.knows(place)) by {
                    let place = library_at(tree, search.root, job.names[i], search.extra);
                    if job.names[i] != name && place is Some {
                        assert(walk.knows(place->Some_0));
                    }
                }
                lemma_next_name_in_order(tree, search, found);
            } else if job.next_cand + 1 < job.cands.len() {
                assert(!hit(tree, at, true));
            } else {
                assert(!hit(tree, at, true));
                lemma_first_hit_none(tree, job.cands, true);
                assert(library_at(tree, search.root, name, search.extra) is None);
                let missed = JobView { next_dep: job.next_dep + 1, ..job };
                assert forall|i: int| 0 <= i < walk.names.len() implies (#[trigger] library_at(
                    tree,
                    search.root,
                    walk.names[i],
                    search.extra,
                ) matches Some(place) ==> walk.knows(place)) by {}
                lemma_next_name_in_order(tree, search, missed);
            }
        },
        _ => {},
    }
}

/// What the tree answers to `request`.
fn answer_from(tree: &SourceTree, request: &Request) -> (answer: Answer)
    ensures
        match request@ {
            Op::Stat(path) => answer@ == Reply::Info(tree.info(path)),
            Op::Inspect(path) => match answer@ {
                Reply::Run(run) => run_outcome(path, run) == run_outcome(path, tree.run(path)),
                _ => false,
            },
            _ => true,
        },
{
    match request {
        Request::Stat(path) => Answer::Info(tree.stat(path.as_str())),
        Request::Inspect(path) => match tree.find(path.as_str()) {
            Some(file) => Answer::Run(file.run.copy()),
            None => Answer::Run(ToolRun::NotStarted),
        },
        _ => Answer::Done,
    }
}

/// Carries a walk of which nothing was asked yet to its end over `tree`.
fn walk_over(tree: &SourceTree, job: ClosureJob, Ghost(search): Ghost<Search>) -> (out: Result<
    Vec<String>,
    Error,
>)
    requires
        job@ == crate::walk::start_of(search.root, search.seeds, search.extra),
    ensures
        is_closure(tree, search, out),
{
    let mut job = job;
    proof {
        let start = job@;
        let walk = walk_of(start);
        assert forall|path: Seq<char>| #[trigger] walk.knows(path) implies visited(
            tree,
            search,
            path,
        ) by {}
        assert forall|i: int| 0 <= i < search.seeds.len() implies walk.knows(
            #[trigger] search.seeds[i],
        ) by {
            assert(walk.pending[i] == search.seeds[i]);
        }
        lemma_next_file_in_order(tree, search, start);
    }
    let mut step = job.begin();
    loop
        invariant
            in_order(tree, search, job@, names_turn(step)),
            job@.stage == WalkStage::Finished || job@.done.len() <= tree.files@.len() + 1,
            job@.stage == WalkStage::Finished || job@.stage == WalkStage::Checking
                || job@.done.len() <= tree.files@.len(),
        decreases
                (if job@.stage == WalkStage::Finished {
                    0int
                } else {
                    1int
                }),
                files_left(tree, job@),
                asks_left(job@),
                job@.deps.len() - job@.next_dep,
                job@.cands.len() - job@.next_cand,
    {
        let request = match step {
            Step::Finished(out) => {
                return out;
            },
            Step::Ask(request) => request,
        };
        let answer = answer_from(tree, &request);
        proof {
            lemma_step_in_order(tree, search, job@, Turn::Ask(request@), answer@);
        }
        step = job.advance(&answer);
    }
}

} // verus!
