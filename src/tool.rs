//! Decisions around the external programs: where they run, and what a chain of
//! formatters makes of a document.

use vstd::prelude::*;
use crate::config::PicklsFormatterConfig;
use crate::diagnostic::{Position, Range};
use crate::error::PicklsError;
use crate::text::{replace_text, replaced};

verus! {

/// What `Path::parent` gives for `p`.
pub uninterp spec fn parent_of(p: Seq<char>) -> Option<Seq<char>>;

/// Relies on `Path::parent`: the path without its final component, if it has one;
/// that is a part of `p`, so shorter.
#[verifier::external_body]
fn parent_path(p: &str) -> (r: Option<String>)
    ensures
        opt_text(r) == parent_of(p@),
        r is Some ==> r->Some_0@.len() < p@.len(),
{
    match std::path::Path::new(p).parent() {
        Some(q) => Some(q.to_string_lossy().into_owned()),
        None => None,
    }
}

pub open spec fn opt_text(o: Option<String>) -> Option<Seq<char>> {
    match o {
        Some(s) => Some(s@),
        None => None,
    }
}

pub open spec fn texts(v: Seq<String>) -> Seq<Seq<char>> {
    v.map_values(|s: String| s@)
}

/// The ancestors of `p`, nearest first.
pub open spec fn ancestors_of(p: Seq<char>) -> Seq<Seq<char>>
    decreases p.len(),
{
    match parent_of(p) {
        Some(q) => if q.len() < p.len() {
            seq![q] + ancestors_of(q)
        } else {
            seq![]
        },
        None => seq![],
    }
}

/// The directories above `filename`, nearest first.
pub fn ancestors(filename: &str) -> (r: Vec<String>)
    ensures
        texts(r@) == ancestors_of(filename@),
{
    let mut r: Vec<String> = Vec::new();
    let mut current = String::from_str(filename);
    loop
        invariant
            ancestors_of(filename@) == texts(r@) + ancestors_of(current@),
        decreases current@.len(),
    {
        match parent_path(current.as_str()) {
            Some(q) => {
                let ghost before = r@;
                r.push(q.clone());
                assert(texts(r@) == texts(before) + seq![q@]);
                assert(ancestors_of(current@) == seq![q@] + ancestors_of(q@));
                current = q;
            },
            None => {
                assert(ancestors_of(current@) == Seq::<Seq<char>>::empty());
                assert(texts(r@) + Seq::<Seq<char>>::empty() == texts(r@));
                return r;
            },
        }
    }
}

/// A program's arguments with `$filename` replaced by the document's path and then,
/// where a temporary copy of the text is given, `$tmpfilename` by its path.
pub open spec fn substituted(arg: Seq<char>, filename: Seq<char>, tmpfilename: Option<Seq<char>>) -> Seq<char> {
    let a = replaced(arg, "$filename"@, filename);
    match tmpfilename {
        Some(t) => replaced(a, "$tmpfilename"@, t),
        None => a,
    }
}

/// Fills in the arguments of a linter or formatter (see [`substituted`]).
pub fn substitute_args(args: &Vec<String>, filename: &str, tmpfilename: &Option<String>) -> (r: Vec<String>)
    ensures
        r@.len() == args@.len(),
        forall|i: int|
            0 <= i < r@.len() ==> (#[trigger] r@[i])@ == substituted(
                args@[i]@,
                filename@,
                opt_text(*tmpfilename),
            ),
{
    let mut r: Vec<String> = Vec::new();
    let mut i: usize = 0;
    while i < args.len()
        invariant
            i <= args.len(),
            r@.len() == i,
            forall|k: int|
                0 <= k < i ==> (#[trigger] r@[k])@ == substituted(args@[k]@, filename@, opt_text(*tmpfilename)),
        decreases args.len() - i,
    {
        proof {
            reveal_strlit("$filename");
            reveal_strlit("$tmpfilename");
        }
        let a = replace_text(args[i].as_str(), "$filename", filename);
        let b = match tmpfilename {
            Some(t) => replace_text(a.as_str(), "$tmpfilename", t.as_str()),
            None => a,
        };
        r.push(b);
        i = i + 1;
    }
    r
}

/// The first ancestor that is a workspace folder or holds a root marker.
pub open spec fn first_root(
    ancestors: Seq<Seq<char>>,
    folders: Seq<Seq<char>>,
    has_marker: Seq<bool>,
    n: int,
) -> Option<int>
    decreases n,
{
    if n <= 0 {
        None
    } else {
        match first_root(ancestors, folders, has_marker, n - 1) {
            Some(i) => Some(i),
            None => if folders.contains(ancestors[n - 1]) || has_marker[n - 1] {
                Some(n - 1)
            } else {
                None
            },
        }
    }
}

/// The directory a program runs in for `filename`: with no root markers, the file's
/// directory; else the nearest ancestor that is a workspace folder or holds a
/// marker (`has_marker[i]` says whether `ancestors[i]` does), falling back to the
/// file's directory. Fails only for a file without a directory.
pub open spec fn root_dir_of(
    filename: Seq<char>,
    folders: Seq<Seq<char>>,
    markers_given: bool,
    has_marker: Seq<bool>,
) -> Option<Seq<char>> {
    let a = ancestors_of(filename);
    match (if markers_given { first_root(a, folders, has_marker, a.len() as int) } else { None }) {
        Some(i) => Some(a[i]),
        None => parent_of(filename),
    }
}

fn contains_text(v: &Vec<String>, s: &String) -> (r: bool)
    ensures
        r == texts(v@).contains(s@),
{
    let mut i: usize = 0;
    while i < v.len()
        invariant
            i <= v.len(),
            forall|k: int| 0 <= k < i ==> v@[k]@ != s@,
        decreases v.len() - i,
    {
        if v[i] == *s {
            assert(texts(v@)[i as int] == s@);
            return true;
        }
        i = i + 1;
    }
    assert(!texts(v@).contains(s@)) by {
        if texts(v@).contains(s@) {
            let k = choose|k: int| 0 <= k < texts(v@).len() && texts(v@)[k] == s@;
            assert(v@[k]@ == s@);
        }
    }
    false
}

/// Chooses the directory a linter or formatter runs in (see [`root_dir_of`]);
/// `has_marker[i]` says whether the `i`-th directory above `filename`, nearest
/// first (see [`ancestors`]), holds a root marker. A list of the wrong length is
/// an error.
pub fn get_root_dir(
    filename: &str,
    folders: &Vec<String>,
    root_markers: &Vec<String>,
    has_marker: &Vec<bool>,
) -> (r: Result<String, PicklsError>)
    ensures
        has_marker@.len() != ancestors_of(filename@).len() ==> r is Err,
        has_marker@.len() == ancestors_of(filename@).len() ==> match root_dir_of(
            filename@,
            texts(folders@),
            root_markers@.len() > 0,
            has_marker@,
        ) {
            Some(d) => r is Ok && r->Ok_0@ == d,
            None => r is Err,
        },
{
    let above = ancestors(filename);
    let ancestors = &above;
    if has_marker.len() != ancestors.len() {
        return Err(PicklsError::new(String::from_str("one marker flag is needed per directory")));
    }
    let ghost a = texts(ancestors@);
    if root_markers.len() > 0 {
        let mut i: usize = 0;
        while i < ancestors.len()
            invariant
                i <= ancestors.len() == has_marker@.len(),
                a == texts(ancestors@),
                a == ancestors_of(filename@),
                root_markers@.len() > 0,
                first_root(a, texts(folders@), has_marker@, i as int) is None,
            decreases ancestors.len() - i,
        {
            if has_marker[i] || contains_text(folders, &ancestors[i]) {
                assert(first_root(a, texts(folders@), has_marker@, i + 1) == Some(i as int));
                proof {
                    lemma_first_root_stays(a, texts(folders@), has_marker@, i + 1, a.len() as int);
                }
                let d = ancestors[i].clone();
                assert(a[i as int] == d@);
                assert(a.len() == ancestors@.len());
                assert(first_root(a, texts(folders@), has_marker@, a.len() as int) == Some(i as int));
                assert(root_dir_of(filename@, texts(folders@), true, has_marker@) == Some(d@));
                return Ok(d);
            }
            i = i + 1;
        }
    }
    match parent_path(filename) {
        Some(p) => Ok(p),
        None => Err(PicklsError::new(String::from_str("path has no basedir"))),
    }
}

proof fn lemma_first_root_stays(
    a: Seq<Seq<char>>,
    folders: Seq<Seq<char>>,
    has_marker: Seq<bool>,
    i: int,
    n: int,
)
    requires
        0 <= i <= n,
        first_root(a, folders, has_marker, i) is Some,
    ensures
        first_root(a, folders, has_marker, n) == first_root(a, folders, has_marker, i),
    decreases n - i,
{
    if i < n {
        lemma_first_root_stays(a, folders, has_marker, i, n - 1);
    }
}

/// An edit that replaces text of a document.
#[derive(Clone, Debug)]
pub struct TextEdit {
    pub range: Range,
    pub new_text: String,
}

/// The range that stands for a whole document; editors clamp it to the document's end.
pub open spec fn whole_document() -> Range {
    Range {
        start: Position { line: 0, character: 0 },
        end: Position { line: u32::MAX, character: u32::MAX },
    }
}

/// An edit that replaces the whole document with `text`.
pub fn full_document_edit(text: String) -> (r: TextEdit)
    ensures
        r.range == whole_document(),
        r.new_text == text,
{
    TextEdit {
        range: Range {
            start: Position { line: 0, character: 0 },
            end: Position { line: 0xffff_ffff, character: 0xffff_ffff },
        },
        new_text: text,
    }
}

/// What came of running one formatter.
#[derive(Clone, Debug)]
pub struct FormatterRun {
    /// What it wrote to its standard output.
    pub stdout: String,
    /// How many bytes it wrote to its error output.
    pub stderr_len: usize,
    /// Whether both of its outputs could be read.
    pub read_ok: bool,
    /// Whether it exited with success.
    pub exit_success: bool,
}

/// Whether a formatter run counts as a success: its outputs were read, it wrote no
/// error output where that means failure, and it exited with success.
pub open spec fn run_succeeds(config: PicklsFormatterConfig, run: FormatterRun) -> bool {
    &&& run.read_ok
    &&& !(config.stderr_indicates_error && run.stderr_len != 0)
    &&& run.exit_success
}

/// The formatted text of a run, or the failure.
pub fn formatter_result(config: &PicklsFormatterConfig, run: FormatterRun) -> (r: Result<
    String,
    PicklsError,
>)
    ensures
        r is Ok <==> run_succeeds(*config, run),
        r is Ok ==> r->Ok_0 == run.stdout,
{
    if !run.read_ok {
        return Err(PicklsError::new(String::from_str("Failed to format file")));
    }
    if config.stderr_indicates_error && run.stderr_len != 0 {
        return Err(PicklsError::new(String::from_str("Failed to format file")));
    }
    if run.exit_success {
        Ok(run.stdout)
    } else {
        Err(PicklsError::new(String::from_str("Failed to format file")))
    }
}

/// A chain of formatters run in order on a document: each one's output is the next
/// one's input. The first failure ends the chain, and the document stays as it was.
pub struct FormatChain {
    count: usize,
    done: usize,
    text: String,
    failed: bool,
}

impl FormatChain {
    /// How many formatters the chain has.
    pub closed spec fn count(&self) -> nat {
        self.count as nat
    }

    /// How many have run successfully.
    pub closed spec fn done(&self) -> nat {
        self.done as nat
    }

    /// The text so far.
    pub closed spec fn text(&self) -> String {
        self.text
    }

    /// Whether a formatter has failed.
    pub closed spec fn failed(&self) -> bool {
        self.failed
    }

    pub open spec fn wf(&self) -> bool {
        self.done() <= self.count()
    }

    /// A chain of `count` formatters to run on `text`.
    pub fn new(count: usize, text: String) -> (r: Self)
        ensures
            r.wf(),
            r.count() == count,
            r.done() == 0,
            r.text() == text,
            !r.failed(),
    {
        FormatChain { count, done: 0, text, failed: false }
    }

    /// Which formatter runs next, if one does.
    pub fn next_formatter(&self) -> (r: Option<usize>)
        requires
            self.wf(),
        ensures
            r == if !self.failed() && self.done() < self.count() {
                Some(self.done() as usize)
            } else {
                None
            },
    {
        if !self.failed && self.done < self.count {
            Some(self.done)
        } else {
            None
        }
    }

    /// The text to give the next formatter.
    pub fn input(&self) -> (r: &String)
        ensures
            *r == self.text(),
    {
        &self.text
    }

    /// Records what came of running the next formatter, whose settings are `config`.
    pub fn record(&mut self, config: &PicklsFormatterConfig, run: FormatterRun)
        requires
            old(self).wf(),
            !old(self).failed(),
            old(self).done() < old(self).count(),
        ensures
            final(self).wf(),
            final(self).count() == old(self).count(),
            run_succeeds(*config, run) ==> {
                &&& !final(self).failed()
                &&& final(self).done() == old(self).done() + 1
                &&& final(self).text() == run.stdout
            },
            !run_succeeds(*config, run) ==> {
                &&& final(self).failed()
                &&& final(self).done() == old(self).done()
                &&& final(self).text() == old(self).text()
            },
    {
        match formatter_result(config, run) {
            Ok(t) => {
                self.text = t;
                self.done = self.done + 1;
            },
            Err(_) => {
                self.failed = true;
            },
        }
    }

    /// The outcome of the chain once no formatter is left to run: one edit that
    /// replaces the whole document with the last output, or the failure.
    pub fn finish(self) -> (r: Result<Vec<TextEdit>, PicklsError>)
        requires
            self.wf(),
            self.failed() || self.done() == self.count(),
        ensures
            self.failed() ==> r is Err,
            !self.failed() ==> r is Ok && r->Ok_0@.len() == 1 && r->Ok_0@[0].range == whole_document()
                && r->Ok_0@[0].new_text == self.text(),
    {
        if self.failed {
            Err(PicklsError::new(String::from_str("formatter error")))
        } else {
            Ok(vec![full_document_edit(self.text)])
        }
    }
}

} // verus!
