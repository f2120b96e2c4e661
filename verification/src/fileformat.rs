//! The report formats: how a title and a list of comments become the text
//! of the result file.

use crate::comment::{Comment, CommentView};
use crate::error::CollectError;
use crate::text::{decimal, find, first_occurrence, hex_digit, hex_digit_char, push_decimal, same_text, to_chars};
use vstd::prelude::*;

verus! {

#[derive(Debug, Clone, Copy, PartialEq, Eq, Structural)]
pub enum FileFormat {
    Raw,
    Markdown,
    Json,
}

/// The lower-case form of a text, as `str::to_lowercase` of std gives it.
pub uninterp spec fn lowercase(s: Seq<char>) -> Seq<char>;

/// Calls `str::to_lowercase` of std, which maps each character to its
/// Unicode lower-case form. The result is known only by its name.
#[verifier::external_body]
fn to_lowercase(s: &str) -> (r: String)
    ensures
        r@ == lowercase(s@),
{
    s.to_lowercase()
}

/// The format that a selector names. A selector is matched as it stands,
/// letter for letter.
pub open spec fn select(selector: Seq<char>) -> Option<FileFormat> {
    if selector == "raw"@ || selector == "txt"@ {
        Some(FileFormat::Raw)
    } else if selector == "markdown"@ || selector == "md"@ {
        Some(FileFormat::Markdown)
    } else if selector == "json"@ {
        Some(FileFormat::Json)
    } else {
        None
    }
}

/// One comment in the plain text report.
pub open spec fn raw_line(c: CommentView) -> Seq<char> {
    "- "@ + c.source + ":"@ + decimal(c.line_num as nat) + " - "@ + c.content + "\n"@
}

/// The comments of the plain text report, one line each.
pub open spec fn raw_lines(comments: Seq<CommentView>) -> Seq<char>
    decreases comments.len(),
{
    if comments.len() == 0 {
        Seq::empty()
    } else {
        raw_lines(comments.drop_last()) + raw_line(comments.last())
    }
}

/// The text of a Markdown link to `source`: the path from the first place
/// where the title stands in it, or the word `file` if the title does not
/// stand in it.
pub open spec fn markdown_label(title: Seq<char>, source: Seq<char>) -> Seq<char> {
    match first_occurrence(source, title) {
        Some(at) => source.skip(at),
        None => "file"@,
    }
}

/// One comment in the Markdown report.
pub open spec fn markdown_line(title: Seq<char>, c: CommentView) -> Seq<char> {
    "* ["@ + markdown_label(title, c.source) + "]("@ + c.source + "):"@ + decimal(
        c.line_num as nat,
    ) + " - "@ + c.content + " \n"@
}

/// The comments of the Markdown report, one list item each.
pub open spec fn markdown_lines(title: Seq<char>, comments: Seq<CommentView>) -> Seq<char>
    decreases comments.len(),
{
    if comments.len() == 0 {
        Seq::empty()
    } else {
        markdown_lines(title, comments.drop_last()) + markdown_line(title, comments.last())
    }
}

/// What stands for `c` inside a JSON string: a quote, a backslash and the
/// control characters are escaped, every other character stands for itself.
pub open spec fn json_escape_char(c: char) -> Seq<char> {
    if c == '"' {
        "\\\""@
    } else if c == '\\' {
        "\\\\"@
    } else if c == '\n' {
        "\\n"@
    } else if c == '\r' {
        "\\r"@
    } else if c == '\t' {
        "\\t"@
    } else if (c as u32) < 0x20 {
        "\\u00"@ + seq![hex_digit((c as u32 / 16) as nat), hex_digit((c as u32 % 16) as nat)]
    } else {
        seq![c]
    }
}

/// `s` as it stands inside a JSON string.
pub open spec fn json_escape(s: Seq<char>) -> Seq<char>
    decreases s.len(),
{
    if s.len() == 0 {
        Seq::empty()
    } else {
        json_escape(s.drop_last()) + json_escape_char(s.last())
    }
}

/// One comment in the JSON report: an object of three strings.
pub open spec fn json_object(c: CommentView) -> Seq<char> {
    "{\"file\": \""@ + json_escape(c.source) + "\", \"line\": \""@ + decimal(c.line_num as nat)
        + "\", \"comment\": \""@ + json_escape(c.content) + "\"}"@
}

/// The comments of the JSON report, with a comma between two of them.
pub open spec fn json_objects(comments: Seq<CommentView>) -> Seq<char>
    decreases comments.len(),
{
    if comments.len() == 0 {
        Seq::empty()
    } else if comments.len() == 1 {
        json_object(comments[0])
    } else {
        json_objects(comments.drop_last()) + ","@ + json_object(comments.last())
    }
}

/// Whether `c` is a digit or one of the letters `a` to `f`.
pub open spec fn is_hex(c: char) -> bool {
    ('0' <= c && c <= '9') || ('a' <= c && c <= 'f')
}

/// Whether `s` may stand between the quotes of a JSON string: no quote and
/// no control character stands in it bare, and every backslash opens one of
/// the escapes that JSON knows.
pub open spec fn is_json_string_body(s: Seq<char>) -> bool
    decreases s.len(),
{
    if s.len() == 0 {
        true
    } else if s[0] == '\\' {
        if s.len() >= 2 && (s[1] == '"' || s[1] == '\\' || s[1] == '/' || s[1] == 'b' || s[1] == 'f'
            || s[1] == 'n' || s[1] == 'r' || s[1] == 't') {
            is_json_string_body(s.skip(2))
        } else if s.len() >= 6 && s[1] == 'u' && is_hex(s[2]) && is_hex(s[3]) && is_hex(s[4])
            && is_hex(s[5]) {
            is_json_string_body(s.skip(6))
        } else {
            false
        }
    } else {
        s[0] != '"' && (s[0] as u32) >= 0x20 && is_json_string_body(s.drop_first())
    }
}

/// Two texts that may stand in a JSON string may stand there one after the
/// other.
pub proof fn lemma_json_string_body_concat(a: Seq<char>, b: Seq<char>)
    requires
        is_json_string_body(a),
        is_json_string_body(b),
    ensures
        is_json_string_body(a + b),
    decreases a.len(),
{
    let ab = a + b;
    if a.len() == 0 {
        assert(ab =~= b);
    } else if a[0] == '\\' {
        assert(ab[0] == a[0]);
        assert(ab[1] == a[1]);
        if a[1] == '"' || a[1] == '\\' || a[1] == '/' || a[1] == 'b' || a[1] == 'f' || a[1] == 'n'
            || a[1] == 'r' || a[1] == 't' {
            lemma_json_string_body_concat(a.skip(2), b);
            assert(ab.skip(2) =~= a.skip(2) + b);
        } else {
            assert(ab[2] == a[2] && ab[3] == a[3] && ab[4] == a[4] && ab[5] == a[5]);
            lemma_json_string_body_concat(a.skip(6), b);
            assert(ab.skip(6) =~= a.skip(6) + b);
        }
    } else {
        assert(ab[0] == a[0]);
        lemma_json_string_body_concat(a.drop_first(), b);
        assert(ab.drop_first() =~= a.drop_first() + b);
    }
}

/// What stands for one character may stand in a JSON string.
pub proof fn lemma_json_escape_char(c: char)
    ensures
        is_json_string_body(json_escape_char(c)),
{
    reveal_strlit("\\\"");
    reveal_strlit("\\\\");
    reveal_strlit("\\n");
    reveal_strlit("\\r");
    reveal_strlit("\\t");
    reveal_strlit("\\u00");
    let e = json_escape_char(c);
    let empty = Seq::<char>::empty();
    assert(is_json_string_body(empty));
    if c == '"' || c == '\\' || c == '\n' || c == '\r' || c == '\t' {
        assert(e.len() == 2);
        assert(e.skip(2) =~= empty);
    } else if (c as u32) < 0x20 {
        assert(e.len() == 6);
        assert(e[0] == '\\' && e[1] == 'u' && e[2] == '0' && e[3] == '0');
        assert(is_hex(e[4]) && is_hex(e[5]));
        assert(e.skip(6) =~= empty);
    } else {
        assert(e.len() == 1);
        assert(e.drop_first() =~= empty);
    }
}

/// An escaped text may stand in a JSON string, whatever the text was.
pub proof fn lemma_json_escape(s: Seq<char>)
    ensures
        is_json_string_body(json_escape(s)),
    decreases s.len(),
{
    if s.len() > 0 {
        lemma_json_escape(s.drop_last());
        lemma_json_escape_char(s.last());
        lemma_json_string_body_concat(json_escape(s.drop_last()), json_escape_char(s.last()));
    }
}

impl FileFormat {
    /// The extension of the result file.
    pub open spec fn ext(self) -> Seq<char> {
        match self {
            FileFormat::Raw => "txt"@,
            FileFormat::Markdown => "md"@,
            FileFormat::Json => "json"@,
        }
    }

    /// The whole report: a heading made of the title, then the comments.
    pub open spec fn render(self, title: Seq<char>, comments: Seq<CommentView>) -> Seq<char> {
        match self {
            FileFormat::Raw => title + ":\n"@ + raw_lines(comments),
            FileFormat::Markdown => "# "@ + title + "\n\n"@ + markdown_lines(title, comments),
            FileFormat::Json => "{\""@ + json_escape(title) + "\":["@ + json_objects(comments)
                + " ]}"@,
        }
    }

    pub fn extension(&self) -> (s: &'static str)
        ensures
            s@ == self.ext(),
    {
        match self {
            FileFormat::Raw => "txt",
            FileFormat::Markdown => "md",
            FileFormat::Json => "json",
        }
    }

    pub fn as_str(&self) -> (s: &'static str)
        ensures
            s@ == match self {
                FileFormat::Raw => "Raw"@,
                FileFormat::Markdown => "Markdown"@,
                FileFormat::Json => "Json"@,
            },
    {
        match self {
            FileFormat::Raw => "Raw",
            FileFormat::Markdown => "Markdown",
            FileFormat::Json => "Json",
        }
    }

    /// The format that `selector` names, letter for letter.
    pub fn from_selector(selector: &str) -> (r: Result<FileFormat, CollectError>)
        ensures
            r == match select(selector@) {
                Some(format) => Ok::<FileFormat, CollectError>(format),
                None => Err(CollectError::UnsupportedFormat),
            },
    {
        if same_text(selector, "raw") || same_text(selector, "txt") {
            Ok(FileFormat::Raw)
        } else if same_text(selector, "markdown") || same_text(selector, "md") {
            Ok(FileFormat::Markdown)
        } else if same_text(selector, "json") {
            Ok(FileFormat::Json)
        } else {
            Err(CollectError::UnsupportedFormat)
        }
    }

    /// The format that `format` names once it is put in lower case.
    pub fn parse(format: &str) -> (r: Result<FileFormat, CollectError>)
        ensures
            r == match select(lowercase(format@)) {
                Some(format) => Ok::<FileFormat, CollectError>(format),
                None => Err(CollectError::UnsupportedFormat),
            },
    {
        let lower = to_lowercase(format);
        FileFormat::from_selector(lower.as_str())
    }

    /// The format that `format` names once it is put in lower case; the
    /// plain text format where it names none.
    pub fn from(format: &str) -> (r: FileFormat)
        ensures
            r == match select(lowercase(format@)) {
                Some(format) => format,
                None => FileFormat::Raw,
            },
    {
        match FileFormat::parse(format) {
            Ok(format) => format,
            Err(_) => FileFormat::Raw,
        }
    }

    /// Renders the report for the project named `header`.
    pub fn format_comments(&self, header: &str, comments: &[Comment]) -> (r: String)
        ensures
            r@ == self.render(header@, comments.deep_view()),
    {
        match self {
            FileFormat::Raw => format_comments_raw(header, comments),
            FileFormat::Markdown => format_comments_markdown(header, comments),
            FileFormat::Json => format_comments_json(header, comments),
        }
    }
}

impl Default for FileFormat {
    fn default() -> (r: FileFormat)
        ensures
            r == FileFormat::Raw,
    {
        FileFormat::Raw
    }
}

pub fn format_comments_raw(header: &str, comments: &[Comment]) -> (r: String)
    ensures
        r@ == FileFormat::Raw.render(header@, comments.deep_view()),
{
    let ghost all = comments.deep_view();
    let mut out = header.to_owned();
    out.append(":\n");
    let mut i: usize = 0;
    assert(all.take(0) =~= Seq::<CommentView>::empty());
    while i < comments.len()
        invariant
            i <= comments.len(),
            all == comments.deep_view(),
            out@ == header@ + ":\n"@ + raw_lines(all.take(i as int)),
        decreases comments.len() - i,
    {
        let c = &comments[i];
        let ghost before = out@;
        out.append("- ");
        out.append(c.source());
        out.append(":");
        push_decimal(&mut out, c.line_num());
        out.append(" - ");
        out.append(c.content());
        out.append("\n");
        proof {
            let upto = all.take(i as int + 1);
            assert(upto.drop_last() =~= all.take(i as int));
            assert(upto.last() == c@);
            assert(out@ =~= before + raw_line(c@));
            assert(out@ =~= header@ + ":\n"@ + raw_lines(upto));
        }
        i = i + 1;
    }
    assert(all.take(all.len() as int) =~= all);
    out
}

pub fn format_comments_markdown(header: &str, comments: &[Comment]) -> (r: String)
    ensures
        r@ == FileFormat::Markdown.render(header@, comments.deep_view()),
{
    let ghost all = comments.deep_view();
    let mut out = "# ".to_owned();
    out.append(header);
    out.append("\n\n");
    let mut i: usize = 0;
    assert(all.take(0) =~= Seq::<CommentView>::empty());
    while i < comments.len()
        invariant
            i <= comments.len(),
            all == comments.deep_view(),
            out@ == "# "@ + header@ + "\n\n"@ + markdown_lines(header@, all.take(i as int)),
        decreases comments.len() - i,
    {
        let c = &comments[i];
        let ghost before = out@;
        let source = c.source();
        let path = to_chars(source);
        out.append("* [");
        match find(&path, header) {
            Some(at) => {
                out.append(source.substring_char(at, path.len()));
            },
            None => {
                out.append("file");
            },
        }
        out.append("](");
        out.append(source);
        out.append("):");
        push_decimal(&mut out, c.line_num());
        out.append(" - ");
        out.append(c.content());
        out.append(" \n");
        proof {
            let upto = all.take(i as int + 1);
            assert(upto.drop_last() =~= all.take(i as int));
            assert(upto.last() == c@);
            assert(out@ =~= before + markdown_line(header@, c@));
            assert(out@ =~= "# "@ + header@ + "\n\n"@ + markdown_lines(header@, upto));
        }
        i = i + 1;
    }
    assert(all.take(all.len() as int) =~= all);
    out
}

/// Appends `s` to `out` as it stands inside a JSON string.
pub fn push_json_escaped(out: &mut String, s: &str)
    ensures
        final(out)@ == old(out)@ + json_escape(s@),
{
    assert(s@.take(0) =~= Seq::<char>::empty());
    assert(out@ =~= old(out)@ + json_escape(s@.take(0)));
    for c in it: s.chars()
        invariant
            it.seq() == s@,
            out@ == old(out)@ + json_escape(s@.take(it.index() as int)),
    {
        let ghost before = out@;
        let code: u32 = c as u32;
        if c == '"' {
            out.append("\\\"");
        } else if c == '\\' {
            out.append("\\\\");
        } else if c == '\n' {
            out.append("\\n");
        } else if c == '\r' {
            out.append("\\r");
        } else if c == '\t' {
            out.append("\\t");
        } else if code < 0x20 {
            out.append("\\u00");
            out.push(hex_digit_char(code / 16));
            out.push(hex_digit_char(code % 16));
        } else {
            out.push(c);
        }
        proof {
            let upto = s@.take(it.index() as int + 1);
            assert(upto.drop_last() =~= s@.take(it.index() as int));
            assert(upto.last() == c);
            assert(out@ =~= before + json_escape_char(c));
            assert(out@ =~= old(out)@ + json_escape(upto));
        }
    }
    assert(s@.take(s@.len() as int) =~= s@);
}

pub fn format_comments_json(header: &str, comments: &[Comment]) -> (r: String)
    ensures
        r@ == FileFormat::Json.render(header@, comments.deep_view()),
{
    let ghost all = comments.deep_view();
    let mut out = "{\"".to_owned();
    push_json_escaped(&mut out, header);
    out.append("\":[");
    let ghost head = out@;
    let mut i: usize = 0;
    assert(all.take(0) =~= Seq::<CommentView>::empty());
    assert(out@ =~= head + json_objects(all.take(0)));
    while i < comments.len()
        invariant
            i <= comments.len(),
            all == comments.deep_view(),
            head == "{\""@ + json_escape(header@) + "\":["@,
            out@ == head + json_objects(all.take(i as int)),
        decreases comments.len() - i,
    {
        let c = &comments[i];
        if i > 0 {
            out.append(",");
        }
        let ghost before = out@;
        out.append("{\"file\": \"");
        push_json_escaped(&mut out, c.source());
        out.append("\", \"line\": \"");
        push_decimal(&mut out, c.line_num());
        out.append("\", \"comment\": \"");
        push_json_escaped(&mut out, c.content());
        out.append("\"}");
        proof {
            let upto = all.take(i as int + 1);
            assert(upto.drop_last() =~= all.take(i as int));
            assert(upto.last() == c@);
            assert(out@ =~= before + json_object(c@));
            if i == 0 {
                assert(upto[0] == c@);
                assert(json_objects(upto) == json_object(c@));
                assert(json_objects(all.take(0)) =~= Seq::<char>::empty());
            }
            assert(out@ =~= head + json_objects(upto));
        }
        i = i + 1;
    }
    out.append(" ]}");
    assert(all.take(all.len() as int) =~= all);
    out
}

} // verus!
