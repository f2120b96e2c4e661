//! Comment records: one per comment line as it is scanned, and one per entry
//! of the report once continuation lines have been merged.

use vstd::prelude::*;

verus! {

/// One entry of the report: its text, the file it stands in and the
/// 1-based number of the line where it begins.
#[derive(Debug)]
pub struct Comment {
    content: String,
    source: String,
    line_num: u32,
}

/// What a `Comment` holds, as plain values.
pub struct CommentView {
    pub content: Seq<char>,
    pub source: Seq<char>,
    pub line_num: u32,
}

impl View for Comment {
    type V = CommentView;

    closed spec fn view(&self) -> CommentView {
        CommentView { content: self.content@, source: self.source@, line_num: self.line_num }
    }
}

impl DeepView for Comment {
    type V = CommentView;

    open spec fn deep_view(&self) -> CommentView {
        self@
    }
}

impl CommentView {
    /// This entry with `line` added to its text after one space.
    pub open spec fn extended(self, line: Seq<char>) -> CommentView {
        CommentView { content: self.content + seq![' '] + line, ..self }
    }
}

impl Comment {
    pub fn new(comment: &str, source: &str, line_num: u32) -> (c: Comment)
        ensures
            c@ == (CommentView { content: comment@, source: source@, line_num }),
    {
        Comment { content: comment.to_owned(), source: source.to_owned(), line_num }
    }

    pub fn content(&self) -> (s: &str)
        ensures
            s@ == self@.content,
    {
        self.content.as_str()
    }

    pub fn source(&self) -> (s: &str)
        ensures
            s@ == self@.source,
    {
        self.source.as_str()
    }

    pub fn line_num(&self) -> (n: u32)
        ensures
            n == self@.line_num,
    {
        self.line_num
    }

    /// Adds a continuation line to the text, after a single space.
    pub fn content_append(&mut self, line: &str)
        ensures
            final(self)@ == old(self)@.extended(line@),
    {
        proof {
            reveal_strlit(" ");
        }
        self.content.append(" ");
        self.content.append(line);
        assert(" "@ =~= seq![' ']);
    }
}

/// One comment line as the scanner reports it: the text after the comment
/// symbol, and the marker that the text began with, if it began with one.
/// With a marker, the text is what follows the marker.
#[derive(Debug)]
pub struct CommentLine {
    comment: Comment,
    marker: Option<String>,
}

/// What a `CommentLine` holds, as plain values.
pub struct CommentLineView {
    pub comment: CommentView,
    pub marker: Option<Seq<char>>,
}

impl View for CommentLine {
    type V = CommentLineView;

    closed spec fn view(&self) -> CommentLineView {
        CommentLineView {
            comment: self.comment@,
            marker: match self.marker {
                Some(m) => Some(m@),
                None => None,
            },
        }
    }
}

impl DeepView for CommentLine {
    type V = CommentLineView;

    open spec fn deep_view(&self) -> CommentLineView {
        self@
    }
}

impl CommentLineView {
    /// This record with `line` added to its text after one space.
    pub open spec fn extended(self, line: Seq<char>) -> CommentLineView {
        CommentLineView { comment: self.comment.extended(line), ..self }
    }
}

impl CommentLine {
    pub fn new(comment: Comment, marker: Option<String>) -> (l: CommentLine)
        ensures
            l@ == (CommentLineView { comment: comment@, marker: marker.deep_view() }),
    {
        CommentLine { comment, marker }
    }

    pub fn comment(&self) -> (c: &Comment)
        ensures
            c@ == self@.comment,
    {
        &self.comment
    }

    /// The marker that the comment began with; `None` for a plain comment.
    pub fn marker(&self) -> (m: Option<&str>)
        ensures
            m.deep_view() == self@.marker,
    {
        match &self.marker {
            Some(m) => Some(m.as_str()),
            None => None,
        }
    }

    /// The marker as it is stored.
    pub fn marker_text(&self) -> (m: &Option<String>)
        ensures
            m.deep_view() == self@.marker,
    {
        &self.marker
    }

    pub fn is_marked(&self) -> (r: bool)
        ensures
            r == self@.marker is Some,
    {
        self.marker.is_some()
    }

    /// Adds a continuation line to the text, after a single space.
    pub fn content_append(&mut self, line: &str)
        ensures
            final(self)@ == old(self)@.extended(line@),
    {
        self.comment.content_append(line);
    }

    /// Gives up the record for its comment.
    pub fn into_comment(self) -> (c: Comment)
        ensures
            c@ == self@.comment,
    {
        self.comment
    }
}

} // verus!
