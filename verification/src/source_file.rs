//! Source files: which kind a path is, by its extension, and which of a
//! file's lines are comments, marked or not.

use crate::comment::{Comment, CommentLine, CommentLineView, CommentView};
use crate::error::CollectError;
use crate::path::{
    after_last_slash, extension_start, last_dot, lemma_last_dot, lemma_stem_of_extended,
    path_extension,
};
use crate::text::{skip_spaces, skip_spaces_back, strip_prefix, to_chars, trim, trim_start};
use vstd::prelude::*;

verus! {

#[derive(Debug, Clone, Copy, PartialEq, Eq, Structural)]
pub enum SourceFileType {
    Rust,
    ShellScript,
    C,
    Cpp,
    Python,
}

/// A file that the classifier accepted, with its kind.
#[derive(Debug, PartialEq, Eq)]
pub struct SourceFile {
    path: String,
    source_type: SourceFileType,
}

/// What a `SourceFile` holds, as plain values.
pub struct SourceFileView {
    pub path: Seq<char>,
    pub source_type: SourceFileType,
}

impl View for SourceFile {
    type V = SourceFileView;

    closed spec fn view(&self) -> SourceFileView {
        SourceFileView { path: self.path@, source_type: self.source_type }
    }
}

impl DeepView for SourceFile {
    type V = SourceFileView;

    open spec fn deep_view(&self) -> SourceFileView {
        self@
    }
}

/// The kind of source that bears the extension `e`, case counting.
pub open spec fn kind_of(e: Seq<char>) -> Option<SourceFileType> {
    if e == "rs"@ {
        Some(SourceFileType::Rust)
    } else if e == "sh"@ {
        Some(SourceFileType::ShellScript)
    } else if e == "py"@ {
        Some(SourceFileType::Python)
    } else if e == "c"@ || e == "h"@ {
        Some(SourceFileType::C)
    } else if e == "cpp"@ || e == "hpp"@ {
        Some(SourceFileType::Cpp)
    } else {
        None
    }
}

/// The kind of the file at `path`: decided by the extension of its final
/// segment. A path without an extension has no kind, and neither has one
/// whose extension is not in the table.
pub open spec fn classify(path: Seq<char>) -> Option<SourceFileType> {
    match path_extension(path) {
        Some(e) => kind_of(e),
        None => None,
    }
}

impl SourceFileType {
    /// The text that opens a line comment in this kind of source.
    pub open spec fn symbol(self) -> Seq<char> {
        match self {
            SourceFileType::Rust | SourceFileType::C | SourceFileType::Cpp => "//"@,
            SourceFileType::ShellScript | SourceFileType::Python => "#"@,
        }
    }

    pub fn comment_symbol(&self) -> (s: &'static str)
        ensures
            s@ == self.symbol(),
    {
        match self {
            SourceFileType::Rust | SourceFileType::C | SourceFileType::Cpp => "//",
            SourceFileType::ShellScript | SourceFileType::Python => "#",
        }
    }

    /// Classifies `path` by its extension.
    pub fn try_from(path: &str) -> (r: Result<SourceFileType, CollectError>)
        ensures
            r == match classify(path@) {
                Some(kind) => Ok::<SourceFileType, CollectError>(kind),
                None => Err(CollectError::UnsupportedExtension),
            },
    {
        let v = to_chars(path);
        let from = match extension_start(&v) {
            Some(from) => from,
            None => {
                return Err(CollectError::UnsupportedExtension);
            },
        };
        if ends_as(&v, from, "rs") {
            Ok(SourceFileType::Rust)
        } else if ends_as(&v, from, "sh") {
            Ok(SourceFileType::ShellScript)
        } else if ends_as(&v, from, "py") {
            Ok(SourceFileType::Python)
        } else if ends_as(&v, from, "c") || ends_as(&v, from, "h") {
            Ok(SourceFileType::C)
        } else if ends_as(&v, from, "cpp") || ends_as(&v, from, "hpp") {
            Ok(SourceFileType::Cpp)
        } else {
            Err(CollectError::UnsupportedExtension)
        }
    }
}

/// Whether `v` from index `from` on is `text`.
fn ends_as(v: &Vec<char>, from: usize, text: &str) -> (r: bool)
    requires
        from <= v@.len(),
    ensures
        r == (v@.subrange(from as int, v@.len() as int) == text@),
{
    let end = strip_prefix(v, from, v.len(), text);
    proof {
        let tail = v@.subrange(from as int, v@.len() as int);
        if text@.is_prefix_of(tail) && text@.len() == tail.len() {
            assert(tail.subrange(0, text@.len() as int) =~= tail);
        }
        if tail == text@ {
            assert(text@.subrange(0, text@.len() as int) =~= text@);
        }
    }
    match end {
        Some(i) => i == v.len(),
        None => false,
    }
}

/// What is left of a comment line once the comment symbol and the white space
/// around it are gone; `None` for a line that is no comment.
pub open spec fn comment_body(symbol: Seq<char>, line: Seq<char>) -> Option<Seq<char>> {
    let t = trim(line);
    if symbol.is_prefix_of(t) {
        Some(trim_start(t.skip(symbol.len() as int)))
    } else {
        None
    }
}

/// The index of the first marker, at or after `k`, that `body` begins with.
pub open spec fn first_marker_from(body: Seq<char>, markers: Seq<Seq<char>>, k: int) -> Option<int>
    decreases markers.len() - k,
{
    if k < 0 || k >= markers.len() {
        None
    } else if markers[k].is_prefix_of(body) {
        Some(k)
    } else {
        first_marker_from(body, markers, k + 1)
    }
}

/// The index of the first marker that `body` begins with.
pub open spec fn first_marker(body: Seq<char>, markers: Seq<Seq<char>>) -> Option<int> {
    first_marker_from(body, markers, 0)
}

/// The text that follows `marker` in `body`: without the marker, without
/// the colon right after it where there is one, and trimmed.
pub open spec fn after_marker(body: Seq<char>, marker: Seq<char>) -> Seq<char> {
    let rest = body.skip(marker.len() as int);
    if rest.len() > 0 && rest[0] == ':' {
        trim(rest.drop_first())
    } else {
        trim(rest)
    }
}

/// What one line of a source file contributes: nothing unless it is a
/// comment; a marked record where the comment begins with a marker; else an
/// unmarked one, which may continue the record before it.
pub open spec fn scan_line(
    kind: SourceFileType,
    markers: Seq<Seq<char>>,
    source: Seq<char>,
    line: Seq<char>,
    line_num: u32,
) -> Option<CommentLineView> {
    match comment_body(kind.symbol(), line) {
        None => None,
        Some(body) => Some(
            match first_marker(body, markers) {
                Some(k) => CommentLineView {
                    comment: CommentView {
                        content: after_marker(body, markers[k]),
                        source,
                        line_num,
                    },
                    marker: Some(markers[k]),
                },
                None => CommentLineView {
                    comment: CommentView { content: body, source, line_num },
                    marker: None,
                },
            },
        ),
    }
}

/// The records of all of a file's lines, in line order. Lines are numbered
/// from 1; a line whose number does not fit in `u32` is not scanned.
pub open spec fn scan_lines(
    kind: SourceFileType,
    markers: Seq<Seq<char>>,
    source: Seq<char>,
    lines: Seq<Seq<char>>,
) -> Seq<CommentLineView>
    decreases lines.len(),
{
    if lines.len() == 0 {
        Seq::empty()
    } else {
        let before = scan_lines(kind, markers, source, lines.drop_last());
        if lines.len() > u32::MAX {
            before
        } else {
            match scan_line(kind, markers, source, lines.last(), lines.len() as u32) {
                Some(record) => before.push(record),
                None => before,
            }
        }
    }
}

impl SourceFile {
    /// Accepts `path` as a source file if its extension is a supported one.
    pub fn try_from(path: String) -> (r: Result<SourceFile, CollectError>)
        ensures
            match classify(path@) {
                Some(kind) => r is Ok && r->Ok_0@ == (SourceFileView {
                    path: path@,
                    source_type: kind,
                }),
                None => r == Err::<SourceFile, CollectError>(CollectError::UnsupportedExtension),
            },
    {
        match SourceFileType::try_from(path.as_str()) {
            Ok(source_type) => Ok(SourceFile { path, source_type }),
            Err(e) => Err(e),
        }
    }

    pub fn path(&self) -> (s: &str)
        ensures
            s@ == self@.path,
    {
        self.path.as_str()
    }

    pub fn source_type(&self) -> (t: SourceFileType)
        ensures
            t == self@.source_type,
    {
        self.source_type
    }

    /// Whether `line`, which the caller has trimmed, is a comment in this
    /// file's language.
    pub fn is_comment(&self, line: &str) -> (r: bool)
        ensures
            r == self@.source_type.symbol().is_prefix_of(line@),
    {
        let v = to_chars(line);
        assert(v@.subrange(0, v@.len() as int) =~= v@);
        strip_prefix(&v, 0, v.len(), self.source_type.comment_symbol()).is_some()
    }

    /// Scans one line, which stands at `line_num` in this file.
    pub fn scan_line(&self, line: &str, line_num: u32, markers: &Vec<String>) -> (r: Option<
        CommentLine,
    >)
        ensures
            r.deep_view() == scan_line(
                self@.source_type,
                markers.deep_view(),
                self@.path,
                line@,
                line_num,
            ),
            !self@.source_type.symbol().is_prefix_of(trim(line@)) ==> r is None,
    {
        let v = to_chars(line);
        let n = v.len();
        let a = skip_spaces(&v, 0, n);
        let b = skip_spaces_back(&v, a, n);
        proof {
            assert(v@.subrange(0, n as int) =~= v@);
        }
        let after_symbol = match strip_prefix(&v, a, b, self.source_type.comment_symbol()) {
            None => {
                return None;
            },
            Some(i) => i,
        };
        let c = skip_spaces(&v, after_symbol, b);
        let ghost body = v@.subrange(c as int, b as int);
        proof {
            let t = v@.subrange(a as int, b as int);
            assert(t.skip(self@.source_type.symbol().len() as int) =~= v@.subrange(
                after_symbol as int,
                b as int,
            ));
            assert(comment_body(self@.source_type.symbol(), line@) == Some(body));
        }
        let mut k: usize = 0;
        while k < markers.len()
            invariant
                k <= markers.len(),
                a <= c <= b <= n,
                n == v@.len(),
                v@ == line@,
                body == v@.subrange(c as int, b as int),
                comment_body(self@.source_type.symbol(), line@) == Some(body),
                first_marker(body, markers.deep_view()) == first_marker_from(
                    body,
                    markers.deep_view(),
                    k as int,
                ),
            decreases markers.len() - k,
        {
            if let Some(after) = strip_prefix(&v, c, b, markers[k].as_str()) {
                let from = if after < b && v[after] == ':' {
                    after + 1
                } else {
                    after
                };
                let d = skip_spaces(&v, from, b);
                let e = skip_spaces_back(&v, d, b);
                proof {
                    let rest = body.skip(markers[k as int]@.len() as int);
                    assert(rest =~= v@.subrange(after as int, b as int));
                    if after < b && v[after as int] == ':' {
                        assert(rest.drop_first() =~= v@.subrange(from as int, b as int));
                    }
                    assert(v@.subrange(d as int, e as int) == after_marker(
                        body,
                        markers[k as int]@,
                    ));
                    assert(line@.subrange(d as int, e as int) == v@.subrange(d as int, e as int));
                }
                let comment = Comment::new(line.substring_char(d, e), self.path.as_str(), line_num);
                return Some(CommentLine::new(comment, Some(markers[k].clone())));
            }
            k = k + 1;
        }
        let comment = Comment::new(line.substring_char(c, b), self.path.as_str(), line_num);
        Some(CommentLine::new(comment, None))
    }

    /// The comment lines among `lines`, which are this file's lines from
    /// its first on: each with its number, and marked where it begins with
    /// one of `markers`.
    pub fn get_comments(&self, lines: &Vec<String>, markers: &Vec<String>) -> (r: Vec<CommentLine>)
        ensures
            r.deep_view() == scan_lines(
                self@.source_type,
                markers.deep_view(),
                self@.path,
                lines.deep_view(),
            ),
    {
        let mut found: Vec<CommentLine> = Vec::new();
        let mut i: usize = 0;
        assert(lines.deep_view().take(0) =~= Seq::<Seq<char>>::empty());
        assert(found.deep_view() =~= Seq::<CommentLineView>::empty());
        while i < lines.len() && i < u32::MAX as usize
            invariant
                i <= lines.len(),
                i <= u32::MAX,
                found.deep_view() == scan_lines(
                    self@.source_type,
                    markers.deep_view(),
                    self@.path,
                    lines.deep_view().take(i as int),
                ),
            decreases lines.len() - i,
        {
            let line_num: u32 = (i + 1) as u32;
            let record = self.scan_line(lines[i].as_str(), line_num, markers);
            proof {
                let upto = lines.deep_view().take(i as int + 1);
                assert(upto.drop_last() =~= lines.deep_view().take(i as int));
                assert(upto.last() == lines[i as int]@);
            }
            let ghost before = found.deep_view();
            if let Some(record) = record {
                found.push(record);
                assert(found.deep_view() =~= before.push(record.deep_view()));
            }
            i = i + 1;
        }
        proof {
            lemma_scan_lines_limit(
                self@.source_type,
                markers.deep_view(),
                self@.path,
                lines.deep_view(),
                i as int,
            );
        }
        found
    }
}

/// The name `stem`, a `.` and `ext` make a file name whose extension is
/// `ext`, in whatever directory the file lies.
pub proof fn lemma_extension_of_named(dir: Seq<char>, stem: Seq<char>, ext: Seq<char>)
    requires
        stem.len() > 0,
        !stem.contains('/'),
        !ext.contains('/'),
        !ext.contains('.'),
    ensures
        path_extension(dir + seq!['/'] + stem + seq!['.'] + ext) == Some(ext),
{
    let name = stem + seq!['.'] + ext;
    let path = dir + seq!['/'] + stem + seq!['.'] + ext;
    assert(path =~= (dir + seq!['/']) + name);
    assert forall|i: int| 0 <= i < name.len() implies name[i] != '/' by {
        if i < stem.len() {
            assert(name[i] == stem[i]);
        } else if i > stem.len() {
            assert(name[i] == ext[i - stem.len() - 1]);
        }
    }
    lemma_after_last_slash_of_joined(dir + seq!['/'], name);
    lemma_stem_of_extended(stem, ext);
    lemma_last_dot(name);
    assert(name[stem.len() as int] == '.');
    assert(name.contains('.'));
    let i = last_dot(name)->0;
    assert(name.take(i) == stem);
    assert(name.take(i).len() == i);
    assert(name.skip(i + 1) =~= ext);
}

/// The text after the last `/` of a path that ends in `/` and a name is the
/// name.
proof fn lemma_after_last_slash_of_joined(front: Seq<char>, name: Seq<char>)
    requires
        front.len() > 0,
        front.last() == '/',
        forall|i: int| 0 <= i < name.len() ==> name[i] != '/',
    ensures
        after_last_slash(front + name) == name,
    decreases name.len(),
{
    let whole = front + name;
    if name.len() == 0 {
        assert(whole =~= front);
    } else {
        let init = name.drop_last();
        assert(whole.last() == name.last());
        assert(name[name.len() - 1] != '/');
        assert(whole.drop_last() =~= front + init);
        assert forall|i: int| 0 <= i < init.len() implies init[i] != '/' by {
            assert(init[i] == name[i]);
        }
        lemma_after_last_slash_of_joined(front, init);
        assert(init.push(name.last()) =~= name);
    }
}

/// Each supported extension gives its kind, in whatever directory the file
/// lies and whatever its name is before the extension. A file without an
/// extension is refused, and so is one with any other extension: a name
/// that is only a `.` and letters, such as `.rs`, has no extension.
pub proof fn lemma_classify_by_extension(path: Seq<char>, dir: Seq<char>, stem: Seq<char>)
    requires
        stem.len() > 0,
        !stem.contains('/'),
    ensures
        classify(dir + seq!['/'] + stem + seq!['.'] + "rs"@) == Some(SourceFileType::Rust),
        classify(dir + seq!['/'] + stem + seq!['.'] + "sh"@) == Some(SourceFileType::ShellScript),
        classify(dir + seq!['/'] + stem + seq!['.'] + "py"@) == Some(SourceFileType::Python),
        classify(dir + seq!['/'] + stem + seq!['.'] + "c"@) == Some(SourceFileType::C),
        classify(dir + seq!['/'] + stem + seq!['.'] + "h"@) == Some(SourceFileType::C),
        classify(dir + seq!['/'] + stem + seq!['.'] + "cpp"@) == Some(SourceFileType::Cpp),
        classify(dir + seq!['/'] + stem + seq!['.'] + "hpp"@) == Some(SourceFileType::Cpp),
        path_extension(path) is None ==> classify(path) is None,
        path_extension(path) is Some && kind_of(path_extension(path)->0) is None ==> classify(path)
            is None,
        last_dot(after_last_slash(path)) == Some(0int) ==> classify(path) is None,
{
    reveal_strlit("rs");
    reveal_strlit("sh");
    reveal_strlit("py");
    reveal_strlit("c");
    reveal_strlit("h");
    reveal_strlit("cpp");
    reveal_strlit("hpp");
    lemma_extension_of_named(dir, stem, "rs"@);
    lemma_extension_of_named(dir, stem, "sh"@);
    lemma_extension_of_named(dir, stem, "py"@);
    lemma_extension_of_named(dir, stem, "c"@);
    lemma_extension_of_named(dir, stem, "h"@);
    lemma_extension_of_named(dir, stem, "cpp"@);
    lemma_extension_of_named(dir, stem, "hpp"@);
}

/// Every record of a scan stands for a comment line: its line number is
/// that of a line of the file, and that line begins, once trimmed, with the
/// comment symbol.
pub proof fn lemma_records_are_comments(
    kind: SourceFileType,
    markers: Seq<Seq<char>>,
    source: Seq<char>,
    lines: Seq<Seq<char>>,
)
    ensures
        forall|k: int|
            0 <= k < scan_lines(kind, markers, source, lines).len() ==> {
                let n = (#[trigger] scan_lines(kind, markers, source, lines)[k]).comment.line_num;
                &&& 1 <= n <= lines.len()
                &&& kind.symbol().is_prefix_of(trim(lines[n - 1]))
            },
    decreases lines.len(),
{
    if lines.len() > 0 {
        let init = lines.drop_last();
        lemma_records_are_comments(kind, markers, source, init);
        let before = scan_lines(kind, markers, source, init);
        let all = scan_lines(kind, markers, source, lines);
        assert forall|k: int| 0 <= k < all.len() implies {
            let n = (#[trigger] all[k]).comment.line_num;
            &&& 1 <= n <= lines.len()
            &&& kind.symbol().is_prefix_of(trim(lines[n - 1]))
        } by {
            if k < before.len() {
                assert(all[k] == before[k]);
                let n = before[k].comment.line_num;
                assert(init[n - 1] == lines[n - 1]);
            }
        }
    }
}

/// A line that does not begin, once trimmed, with the comment symbol gives
/// no record: no record of the scan bears its line number.
pub proof fn lemma_no_comment_no_record(
    kind: SourceFileType,
    markers: Seq<Seq<char>>,
    source: Seq<char>,
    lines: Seq<Seq<char>>,
    i: int,
)
    requires
        0 <= i < lines.len(),
        !kind.symbol().is_prefix_of(trim(lines[i])),
    ensures
        forall|k: int|
            0 <= k < scan_lines(kind, markers, source, lines).len() ==> (#[trigger] scan_lines(
                kind,
                markers,
                source,
                lines,
            )[k]).comment.line_num != i + 1,
{
    lemma_records_are_comments(kind, markers, source, lines);
}

/// Lines past the last `u32` line number add nothing to a scan.
pub proof fn lemma_scan_lines_limit(
    kind: SourceFileType,
    markers: Seq<Seq<char>>,
    source: Seq<char>,
    lines: Seq<Seq<char>>,
    i: int,
)
    requires
        0 <= i <= lines.len(),
        i == lines.len() || i >= u32::MAX,
    ensures
        scan_lines(kind, markers, source, lines) == scan_lines(kind, markers, source, lines.take(i)),
    decreases lines.len(),
{
    if i == lines.len() {
        assert(lines.take(i) =~= lines);
    } else {
        assert(lines.drop_last().take(i) =~= lines.take(i));
        lemma_scan_lines_limit(kind, markers, source, lines.drop_last(), i);
    }
}

} // verus!
