//! Reading the dynamic section of a binary as `readelf -d` prints it.

use vstd::prelude::*;
use vstd::string::*;
use crate::error::{Error, ErrorKind};
use crate::ops::{names_turn, Answer, Op, Reply, Request, Step, Turn};
use crate::text::{
    chars_of, contains, find_from, has_substring, index_from, lemma_index_from,
    lemma_index_from_is, lemma_index_from_none, lemma_index_from_shift, occurs_at, slice_of,
    str_contains, texts, trim, trimmed,
};
use crate::tree::{SourceTree, ToolRun};

verus! {

/// The tool that prints the dynamic section of a binary.
pub const INSPECTION_TOOL: &'static str = "readelf";

/// The argument that makes the tool print the dynamic section of the file
/// named after it.
pub const INSPECTION_FLAG: &'static str = "-d";

/// The library that one line of the dump records as needed.
///
/// A line counts only if it holds both the marker of a needed entry and the
/// marker of a shared library. Its name is what stands strictly between the
/// first `[` and the first `]` after it.
pub open spec fn needed_name(line: Seq<char>) -> Option<Seq<char>> {
    let open = index_from(line, '[', 0);
    let close = index_from(line, ']', open + 1);
    if contains(line, "(NEEDED)"@) && contains(line, "Shared library:"@) && close < line.len() {
        Some(line.subrange(open + 1, close))
    } else {
        None
    }
}

/// The needed libraries recorded in `text` from position `from` on, a line
/// being what stands between two line feeds. The names come in the order of
/// their lines, and a name recorded twice comes twice.
pub open spec fn needed_names(text: Seq<char>, from: int) -> Seq<Seq<char>>
    decreases text.len() + 1 - from,
    via needed_names_decreases
{
    if from < 0 || from >= text.len() {
        Seq::empty()
    } else {
        let end = index_from(text, '\n', from);
        let rest = needed_names(text, end + 1);
        match needed_name(text.subrange(from, end)) {
            Some(name) => seq![name] + rest,
            None => rest,
        }
    }
}

#[via_fn]
proof fn needed_names_decreases(text: Seq<char>, from: int) {
    if 0 <= from < text.len() {
        lemma_index_from(text, '\n', from);
    }
}

/// The characters of `s` from `from` up to, not including, `to`.
fn sub_vec(s: &Vec<char>, from: usize, to: usize) -> (out: Vec<char>)
    requires
        from <= to <= s.len(),
    ensures
        out@ == s@.subrange(from as int, to as int),
{
    let mut out: Vec<char> = Vec::new();
    let mut i: usize = from;
    while i < to
        invariant
            from <= i <= to <= s.len(),
            out@ == s@.subrange(from as int, i as int),
        decreases to - i,
    {
        out.push(s[i]);
        assert(s@.subrange(from as int, i as int).push(s@[i as int]) =~= s@.subrange(
            from as int,
            i + 1,
        ));
        i += 1;
    }
    out
}

/// Reads the needed libraries out of the dump of a dynamic section.
///
/// Lines that record no needed library are passed over; nothing makes the
/// reading fail.
pub fn parse_readelf_output(output: &str) -> (out: Result<Vec<String>, Error>)
    ensures
        out matches Ok(names) && texts(names@) == needed_names(output@, 0),
{
    let text = chars_of(output);
    let needed = chars_of("(NEEDED)");
    let shared = chars_of("Shared library:");
    let mut libs: Vec<String> = Vec::new();
    let mut from: usize = 0;
    assert(texts(libs@) + needed_names(text@, 0) =~= needed_names(text@, 0));
    while from < text.len()
        invariant
            text@ == output@,
            needed@ == "(NEEDED)"@,
            shared@ == "Shared library:"@,
            needed_names(text@, 0) == texts(libs@) + needed_names(text@, from as int),
        decreases text.len() - from,
    {
        let end = find_from(&text, '\n', from);
        let line = sub_vec(&text, from, end);
        let ghost before = texts(libs@);
        if has_substring(&line, &needed) && has_substring(&line, &shared) {
            let open = find_from(&line, '[', 0);
            if open < line.len() {
                let close = find_from(&line, ']', open + 1);
                if close < line.len() {
                    let name = slice_of(output, from + open + 1, from + close);
                    assert(name@ =~= line@.subrange(open + 1, close as int));
                    libs.push(name);
                    assert(texts(libs@) =~= before + seq![name@]);
                }
            }
        }
        assert(texts(libs@) + needed_names(text@, end + 1) =~= before + needed_names(
            text@,
            from as int,
        ));
        if end == text.len() {
            from = end;
        } else {
            from = end + 1;
        }
    }
    Ok(libs)
}

/// Whether what the tool said on failing means only that the file is no
/// dynamically linked binary.
pub open spec fn not_dynamic(stderr: Seq<char>) -> bool {
    ||| contains(stderr, "Not an ELF file"@)
    ||| contains(stderr, "not a dynamic executable"@)
    ||| contains(stderr, "File format not recognized"@)
}

/// The outcome of an inspection: the needed libraries, or the kind, subject
/// and detail of a failure.
pub type Outcome = Result<Seq<Seq<char>>, (ErrorKind, Seq<char>, Seq<char>)>;

/// What one run of the tool on `path` says of its dependencies.
///
/// A run that succeeded gives what its output records. A run that failed
/// because the file is no dynamically linked binary gives no dependencies,
/// and is no failure. Any other failed run is a failure that carries what the
/// tool said; a tool that could not be started is a failure of its own.
pub open spec fn run_outcome(path: Seq<char>, run: ToolRun) -> Outcome {
    match run {
        ToolRun::NotStarted => Err((ErrorKind::ToolUnavailable, path, ""@)),
        ToolRun::Exited { success, stdout, stderr } => {
            if success {
                Ok(needed_names(stdout@, 0))
            } else if not_dynamic(stderr@) {
                Ok(Seq::empty())
            } else {
                Err((ErrorKind::ExtractionFailed, path, trimmed(stderr@)))
            }
        },
    }
}

/// The direct dependencies of `path` in `tree`. A path where nothing is
/// is a failure, never a file without dependencies.
pub open spec fn dependencies(tree: &SourceTree, path: Seq<char>) -> Outcome {
    if tree.info(path).exists {
        run_outcome(path, tree.run(path))
    } else {
        Err((ErrorKind::SourceNotFound, path, ""@))
    }
}

/// Whether `outcome` is the success with the libraries `names`.
pub open spec fn gives(outcome: Outcome, names: Seq<Seq<char>>) -> bool {
    outcome == Ok::<Seq<Seq<char>>, (ErrorKind, Seq<char>, Seq<char>)>(names)
}

/// Whether `outcome` is the failure `e`.
pub open spec fn fails_with(outcome: Outcome, e: Error) -> bool {
    outcome == Err::<Seq<Seq<char>>, (ErrorKind, Seq<char>, Seq<char>)>(
        (e.kind, e.subject@, e.detail@),
    )
}

/// Whether `out` is the outcome `expected`.
pub open spec fn agrees(out: Result<Vec<String>, Error>, expected: Outcome) -> bool {
    match out {
        Ok(names) => gives(expected, texts(names@)),
        Err(e) => fails_with(expected, e),
    }
}

/// Reads the dependencies of `binary_path` off one run of the tool on it.
pub fn read_tool_run(binary_path: &str, run: &ToolRun) -> (out: Result<Vec<String>, Error>)
    ensures
        agrees(out, run_outcome(binary_path@, *run)),
{
    match run {
        ToolRun::NotStarted => Err(Error::new(ErrorKind::ToolUnavailable, binary_path, "")),
        ToolRun::Exited { success, stdout, stderr } => {
            if *success {
                parse_readelf_output(stdout.as_str())
            } else if str_contains(stderr.as_str(), "Not an ELF file") || str_contains(
                stderr.as_str(),
                "not a dynamic executable",
            ) || str_contains(stderr.as_str(), "File format not recognized") {
                let none: Vec<String> = Vec::new();
                assert(texts(none@) =~= Seq::<Seq<char>>::empty());
                Ok(none)
            } else {
                let said = trim(stderr.as_str());
                Err(Error::new(ErrorKind::ExtractionFailed, binary_path, said.as_str()))
            }
        },
    }
}

/// How far the inspection of one file has come.
#[derive(Clone, Copy, Debug, PartialEq, Eq, Structural)]
pub enum InspectStage {
    /// Nothing was asked yet.
    Start,
    /// Asked what is at the file.
    Checking,
    /// Asked for a run of the tool on the file.
    Inspecting,
    /// Over.
    Finished,
}

/// The inspection of one file.
pub struct InspectJob {
    path: String,
    stage: InspectStage,
}

/// An inspection, by the texts it holds.
pub struct InspectView {
    pub path: Seq<char>,
    pub stage: InspectStage,
}

impl View for InspectJob {
    type V = InspectView;

    closed spec fn view(&self) -> InspectView {
        InspectView { path: self.path@, stage: self.stage }
    }
}

impl InspectView {
    /// The inspection over, with an outcome.
    pub open spec fn over(self, turn: Turn<Seq<Seq<char>>>) -> (InspectView, Turn<Seq<Seq<char>>>) {
        (InspectView { stage: InspectStage::Finished, ..self }, turn)
    }

    /// The first step: ask what is at the file.
    pub open spec fn first(self) -> (InspectView, Turn<Seq<Seq<char>>>) {
        if self.stage == InspectStage::Start {
            (InspectView { stage: InspectStage::Checking, ..self }, Turn::Ask(Op::Stat(self.path)))
        } else {
            self.over(Turn::Failed(ErrorKind::Protocol, self.path, ""@))
        }
    }

    /// The inspection after `reply`, and what it wants next. A file that is
    /// not there fails it with `SourceNotFound`, before the tool is asked
    /// for; a run of the tool is read as `run_outcome` says.
    pub open spec fn after(self, reply: Reply) -> (InspectView, Turn<Seq<Seq<char>>>) {
        match (self.stage, reply) {
            (InspectStage::Checking, Reply::Info(info)) => {
                if info.exists {
                    (
                        InspectView { stage: InspectStage::Inspecting, ..self },
                        Turn::Ask(Op::Inspect(self.path)),
                    )
                } else {
                    self.over(Turn::Failed(ErrorKind::SourceNotFound, self.path, ""@))
                }
            },
            (InspectStage::Inspecting, Reply::Run(run)) => match run_outcome(self.path, run) {
                Ok(needed) => self.over(Turn::Done(needed)),
                Err((kind, subject, detail)) => self.over(Turn::Failed(kind, subject, detail)),
            },
            _ => self.over(Turn::Failed(ErrorKind::Protocol, self.path, ""@)),
        }
    }
}

impl InspectJob {
    /// Starts the inspection of the file at `binary_path`. It is carried on
    /// with `begin` and then `advance`, once for each answer, and ends with
    /// the libraries that the file needs, in the order of the dump.
    pub fn of(binary_path: &str) -> (job: InspectJob)
        ensures
            job@ == (InspectView { path: binary_path@, stage: InspectStage::Start }),
    {
        InspectJob { path: String::from_str(binary_path), stage: InspectStage::Start }
    }

    /// Ends the inspection with a failure that concerns the file.
    fn end_failed(&mut self, kind: ErrorKind) -> (step: Step<Vec<String>>)
        ensures
            (final(self)@, names_turn(step)) == old(self)@.over(
                Turn::Failed(kind, old(self)@.path, ""@),
            ),
    {
        self.stage = InspectStage::Finished;
        Step::Finished(Err(Error::new(kind, self.path.as_str(), "")))
    }

    /// The first step of the inspection.
    pub fn begin(&mut self) -> (step: Step<Vec<String>>)
        ensures
            (final(self)@, names_turn(step)) == old(self)@.first(),
    {
        if self.stage == InspectStage::Start {
            self.stage = InspectStage::Checking;
            Step::Ask(Request::Stat(self.path.clone()))
        } else {
            self.end_failed(ErrorKind::Protocol)
        }
    }

    /// Continues the inspection with the answer to the request made last.
    pub fn advance(&mut self, answer: &Answer) -> (step: Step<Vec<String>>)
        ensures
            (final(self)@, names_turn(step)) == old(self)@.after(answer@),
    {
        let stage = self.stage;
        match answer {
            Answer::Info(info) => {
                if stage == InspectStage::Checking {
                    if info.exists {
                        self.stage = InspectStage::Inspecting;
                        Step::Ask(Request::Inspect(self.path.clone()))
                    } else {
                        self.end_failed(ErrorKind::SourceNotFound)
                    }
                } else {
                    self.end_failed(ErrorKind::Protocol)
                }
            },
            Answer::Run(run) => {
                if stage == InspectStage::Inspecting {
                    self.stage = InspectStage::Finished;
                    Step::Finished(read_tool_run(self.path.as_str(), run))
                } else {
                    self.end_failed(ErrorKind::Protocol)
                }
            },
            _ => self.end_failed(ErrorKind::Protocol),
        }
    }
}

/// The libraries that the binary at `binary_path` needs, as the tree records
/// them, in the order of the dump: what the inspection of the file ends with
/// when it is answered from `tree`.
///
/// A path where nothing is fails with `SourceNotFound`. A file that is no
/// dynamically linked binary has no dependencies.
pub fn get_library_dependencies(tree: &SourceTree, binary_path: &str) -> (out: Result<
    Vec<String>,
    Error,
>)
    ensures
        agrees(out, dependencies(tree, binary_path@)),
{
    let mut job = InspectJob::of(binary_path);
    let asked = job.begin();
    let checked = job.advance(&Answer::Info(tree.stat(binary_path)));
    match checked {
        Step::Finished(out) => out,
        Step::Ask(_) => {
            let run = match tree.find(binary_path) {
                Some(file) => file.run.copy(),
                None => ToolRun::NotStarted,
            };
            match job.advance(&Answer::Run(run)) {
                Step::Finished(out) => out,
                Step::Ask(_) => Err(Error::new(ErrorKind::Protocol, binary_path, "")),
            }
        },
    }
}

/// What one line adds to the needed libraries: its name, or nothing.
pub open spec fn line_names(line: Seq<char>) -> Seq<Seq<char>> {
    match needed_name(line) {
        Some(name) => seq![name],
        None => Seq::empty(),
    }
}

/// A line that lacks the marker of a needed entry, or the marker of a shared
/// library, records nothing, whatever else it holds.
pub proof fn lemma_one_marker_is_not_enough(line: Seq<char>)
    requires
        !contains(line, "(NEEDED)"@) || !contains(line, "Shared library:"@),
    ensures
        needed_name(line) is None,
{
}

/// A line without a `[`, or without a `]` after its first `[`, records nothing.
pub proof fn lemma_no_brackets_no_name(line: Seq<char>)
    requires
        (forall|i: int| 0 <= i < line.len() ==> line[i] != '[') || (forall|i: int|
            index_from(line, '[', 0) < i < line.len() ==> line[i] != ']'),
    ensures
        needed_name(line) is None,
{
    let open = index_from(line, '[', 0);
    lemma_index_from(line, '[', 0);
    if forall|i: int| 0 <= i < line.len() ==> line[i] != '[' {
        assert(open == line.len());
    } else {
        lemma_index_from_none(line, ']', open + 1);
    }
}

/// A line with both markers yields exactly what its first bracket pair
/// holds: `head`, `[`, `name`, `]` and `tail` in a row give `name`, where
/// `head` has no `[` and `name` no `]`.
pub proof fn lemma_bracketed_name(head: Seq<char>, name: Seq<char>, tail: Seq<char>)
    requires
        contains(head + seq!['['] + name + seq![']'] + tail, "(NEEDED)"@),
        contains(head + seq!['['] + name + seq![']'] + tail, "Shared library:"@),
        forall|i: int| 0 <= i < head.len() ==> head[i] != '[',
        forall|i: int| 0 <= i < name.len() ==> name[i] != ']',
    ensures
        needed_name(head + seq!['['] + name + seq![']'] + tail) == Some(name),
{
    let line = head + seq!['['] + name + seq![']'] + tail;
    let open = head.len() as int;
    let close = open + 1 + name.len();
    assert(line[open] == '[');
    assert(line[close] == ']');
    assert forall|j: int| 0 <= j < open implies line[j] != '[' by {
        assert(line[j] == head[j]);
    }
    lemma_index_from_is(line, '[', 0, open);
    assert forall|j: int| open + 1 <= j < close implies line[j] != ']' by {
        assert(line[j] == name[j - open - 1]);
    }
    lemma_index_from_is(line, ']', open + 1, close);
    assert(line.subrange(open + 1, close) =~= name);
}

/// Reading behind a prefix that ends a line is reading what follows it.
proof fn lemma_names_shift(prefix: Seq<char>, rest: Seq<char>, from: int)
    requires
        0 <= from,
    ensures
        needed_names(prefix + rest, prefix.len() + from) == needed_names(rest, from),
    decreases rest.len() + 1 - from,
{
    let text = prefix + rest;
    if from < rest.len() {
        lemma_index_from_shift(prefix, rest, '\n', from);
        lemma_index_from(rest, '\n', from);
        let end = index_from(rest, '\n', from);
        assert(text.subrange(prefix.len() + from, prefix.len() + end) =~= rest.subrange(from, end));
        lemma_names_shift(prefix, rest, end + 1);
    }
}

/// The dump is read line by line: the needed libraries of a first line and
/// the text after its line feed are those of the line, then those of the text.
pub proof fn lemma_names_line_by_line(line: Seq<char>, rest: Seq<char>)
    requires
        forall|i: int| 0 <= i < line.len() ==> line[i] != '\n',
    ensures
        needed_names(line + seq!['\n'] + rest, 0) == line_names(line) + needed_names(rest, 0),
{
    let head = line + seq!['\n'];
    let text = head + rest;
    let end = line.len() as int;
    assert(text[end] == '\n');
    assert forall|j: int| 0 <= j < end implies text[j] != '\n' by {
        assert(text[j] == line[j]);
    }
    lemma_index_from_is(text, '\n', 0, end);
    assert(text.subrange(0, end) =~= line);
    lemma_names_shift(head, rest, 0);
}

/// A text without a line feed is one line.
pub proof fn lemma_names_of_one_line(line: Seq<char>)
    requires
        forall|i: int| 0 <= i < line.len() ==> line[i] != '\n',
    ensures
        needed_names(line, 0) == line_names(line),
{
    if line.len() > 0 {
        lemma_index_from_none(line, '\n', 0);
        assert(line.subrange(0, line.len() as int) =~= line);
        assert(needed_names(line, line.len() as int + 1) =~= Seq::<Seq<char>>::empty());
        assert(line_names(line) + Seq::<Seq<char>>::empty() =~= line_names(line));
    } else {
        assert(needed_name(line) is None) by {
            lemma_no_brackets_no_name(line);
        }
    }
}

/// Searching a text with one more character at its end, which is not the
/// character looked for, finds what it found before.
proof fn lemma_index_from_push(s: Seq<char>, c: char, last: char, from: int)
    requires
        last != c,
        0 <= from <= s.len(),
    ensures
        index_from(s.push(last), c, from) == if index_from(s, c, from) < s.len() {
            index_from(s, c, from)
        } else {
            s.len() as int + 1
        },
    decreases s.len() - from,
{
    if from < s.len() {
        assert(s.push(last)[from] == s[from]);
        if s[from] != c {
            lemma_index_from_push(s, c, last, from + 1);
        }
    } else {
        assert(index_from(s.push(last), c, from + 1) == s.len() + 1);
    }
}

/// A marker that does not hold `last` occurs in a text with `last` at its end
/// exactly if it occurs in the text.
proof fn lemma_contains_push(line: Seq<char>, marker: Seq<char>, last: char)
    requires
        marker.len() > 0,
        forall|k: int| 0 <= k < marker.len() ==> marker[k] != last,
    ensures
        contains(line.push(last), marker) == contains(line, marker),
{
    let longer = line.push(last);
    if contains(line, marker) {
        let i = choose|i: int| occurs_at(line, marker, i);
        assert(longer.subrange(i, i + marker.len()) =~= line.subrange(i, i + marker.len()));
        assert(occurs_at(longer, marker, i));
    }
    if contains(longer, marker) {
        let i = choose|i: int| occurs_at(longer, marker, i);
        if i + marker.len() > line.len() {
            let k = line.len() - i;
            assert(longer.subrange(i, i + marker.len())[k] == last);
            assert(marker[k] == last);
        }
        assert(longer.subrange(i, i + marker.len()) =~= line.subrange(i, i + marker.len()));
        assert(occurs_at(line, marker, i));
    }
}

/// A carriage return at the end of a line changes nothing: with it, the line
/// records what it records without it. So it makes no difference whether
/// lines end in a line feed alone or in a carriage return and a line feed.
pub proof fn lemma_carriage_return_changes_nothing(line: Seq<char>)
    ensures
        needed_name(line.push('\r')) == needed_name(line),
{
    let longer = line.push('\r');
    reveal_strlit("(NEEDED)");
    reveal_strlit("Shared library:");
    lemma_contains_push(line, "(NEEDED)"@, '\r');
    lemma_contains_push(line, "Shared library:"@, '\r');
    lemma_index_from(line, '[', 0);
    lemma_index_from_push(line, '[', '\r', 0);
    let open = index_from(line, '[', 0);
    if open < line.len() {
        lemma_index_from(line, ']', open + 1);
        lemma_index_from_push(line, ']', '\r', open + 1);
        let close = index_from(line, ']', open + 1);
        if close < line.len() {
            assert(longer.subrange(open + 1, close) =~= line.subrange(open + 1, close));
        }
    }
}

/// A path where nothing is fails with `SourceNotFound` for that very path,
/// and the message of the failure names it. This is never the success with
/// no dependencies.
pub proof fn lemma_missing_path_is_a_failure(tree: &SourceTree, path: Seq<char>)
    requires
        !tree.info(path).exists,
    ensures
        dependencies(tree, path) is Err,
        dependencies(tree, path)->Err_0 == (ErrorKind::SourceNotFound, path, ""@),
        crate::error::message_text(ErrorKind::SourceNotFound, path, ""@)
            == "File does not exist: "@ + path,
{
}

/// A file that exists and on which the tool failed by saying that it is no
/// dynamically linked binary has no dependencies, and that is a success.
pub proof fn lemma_plain_file_has_no_dependencies(tree: &SourceTree, path: Seq<char>)
    requires
        tree.info(path).exists,
        tree.run(path) matches ToolRun::Exited { success, stdout, stderr } && !success
            && not_dynamic(stderr@),
    ensures
        gives(dependencies(tree, path), Seq::empty()),
{
}

} // verus!
