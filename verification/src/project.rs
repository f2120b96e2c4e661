//! One run over a project: remove the old result file, walk the tree, read
//! each source file, collect its comments, write the report. The run itself
//! reads and writes nothing. It says which step comes next, takes what the
//! step gave, and decides what follows; the caller does the steps.

use crate::aggregator::{accept_entries, accepted, aggregate, aggregate_lines};
use crate::comment::{Comment, CommentView};
use crate::error::CollectError;
use crate::fileformat::FileFormat;
use crate::source_file::{scan_lines, SourceFile, SourceFileView};
use crate::walker::{
    lemma_feed_keeps_root, lemma_feed_without_reports, without_reports, Entry, EntryView, Walker, WalkerView,
};
use vstd::prelude::*;

verus! {

/// A project with the comments collected from it.
#[derive(Debug)]
pub struct Project {
    pub name: String,
    pub result_file: String,
    pub comments: Vec<Comment>,
}

impl Project {
    /// The text of the project's report in `format`.
    pub fn render(&self, format: &FileFormat) -> (r: String)
        ensures
            r@ == format.render(self.name@, self.comments.deep_view()),
    {
        format.format_comments(self.name.as_str(), self.comments.as_slice())
    }
}

/// A failure that did not end the run, with the path it happened at.
#[derive(Debug)]
pub struct Notice {
    pub error: CollectError,
    pub path: String,
}

/// What a `Notice` holds, as plain values.
pub struct NoticeView {
    pub error: CollectError,
    pub path: Seq<char>,
}

impl View for Notice {
    type V = NoticeView;

    open spec fn view(&self) -> NoticeView {
        NoticeView { error: self.error, path: self.path@ }
    }
}

impl DeepView for Notice {
    type V = NoticeView;

    open spec fn deep_view(&self) -> NoticeView {
        self@
    }
}

/// What the caller is to do next.
#[derive(Debug)]
pub enum Action {
    /// Delete the file at this path if there is one; a failure to do so
    /// does not matter.
    RemoveFile(String),
    /// List the directory at this path.
    ReadDir(String),
    /// Read the lines of the file at this path.
    ReadFile(String),
    /// Create the file at the first path afresh, with the second text as
    /// its content.
    WriteFile(String, String),
    /// Nothing: the run is over, with this failure if it failed.
    Finish(Option<CollectError>),
}

/// What an `Action` holds, as plain values.
pub enum ActionView {
    RemoveFile(Seq<char>),
    ReadDir(Seq<char>),
    ReadFile(Seq<char>),
    WriteFile(Seq<char>, Seq<char>),
    Finish(Option<CollectError>),
}

impl View for Action {
    type V = ActionView;

    open spec fn view(&self) -> ActionView {
        match self {
            Action::RemoveFile(path) => ActionView::RemoveFile(path@),
            Action::ReadDir(path) => ActionView::ReadDir(path@),
            Action::ReadFile(path) => ActionView::ReadFile(path@),
            Action::WriteFile(path, content) => ActionView::WriteFile(path@, content@),
            Action::Finish(failure) => ActionView::Finish(*failure),
        }
    }
}

/// What came of the step that the caller was asked for.
#[derive(Debug)]
pub enum Event {
    /// The step was done and gave nothing back.
    Done,
    /// The step failed.
    Failed,
    /// The entries of the directory, in the order in which it gave them.
    Listing(Vec<Entry>),
    /// All lines of the file, from the first on.
    Lines(Vec<String>),
    /// The lines of the file up to the one that could not be read.
    Truncated(Vec<String>),
}

/// What an `Event` holds, as plain values.
pub enum EventView {
    Done,
    Failed,
    Listing(Seq<EntryView>),
    Lines(Seq<Seq<char>>),
    Truncated(Seq<Seq<char>>),
}

impl View for Event {
    type V = EventView;

    open spec fn view(&self) -> EventView {
        match self {
            Event::Done => EventView::Done,
            Event::Failed => EventView::Failed,
            Event::Listing(entries) => EventView::Listing(entries.deep_view()),
            Event::Lines(lines) => EventView::Lines(lines.deep_view()),
            Event::Truncated(lines) => EventView::Truncated(lines.deep_view()),
        }
    }
}

/// The entries of the report that one file gives: its comment lines are
/// scanned, continuation lines are merged, and the entries that began with
/// one of the markers are kept.
pub open spec fn file_comments(
    file: SourceFileView,
    markers: Seq<Seq<char>>,
    lines: Seq<Seq<char>>,
) -> Seq<CommentView> {
    accepted(aggregate(scan_lines(file.source_type, markers, file.path, lines)), markers)
}

/// The entries of the report that `file` gives, `lines` being its lines.
pub fn collect_file_comments(file: &SourceFile, markers: &Vec<String>, lines: &Vec<String>) -> (r:
    Vec<Comment>)
    ensures
        r.deep_view() == file_comments(file@, markers.deep_view(), lines.deep_view()),
{
    let records = file.get_comments(lines, markers);
    let entries = aggregate_lines(records);
    accept_entries(entries, markers)
}

/// The state of a run over one project.
pub struct ProjectRunView {
    pub name: Seq<char>,
    pub result_file: Seq<char>,
    pub format: FileFormat,
    pub markers: Seq<Seq<char>>,
    /// Whether the old result file is out of the way.
    pub removed: bool,
    pub walker: WalkerView,
    /// How many of the files found have been read.
    pub next: nat,
    /// The entries collected so far: file by file in the order of the walk,
    /// line by line within a file.
    pub comments: Seq<CommentView>,
    /// Whether the writing of the report has been tried.
    pub closed: bool,
    pub failure: Option<CollectError>,
    /// The failures that did not end the run.
    pub notices: Seq<NoticeView>,
}

impl ProjectRunView {
    /// The step that the run asks for in this state. First the old result
    /// file goes; then the tree is walked, directory by directory; then the
    /// files found are read, one by one; then the report is written.
    pub open spec fn action(self) -> ActionView {
        if !self.removed {
            ActionView::RemoveFile(self.result_file)
        } else if self.walker.awaiting is Some {
            ActionView::ReadDir(self.walker.awaiting->0)
        } else if self.next < self.walker.found.len() {
            ActionView::ReadFile(self.walker.found[self.next as int].path)
        } else if !self.closed {
            ActionView::WriteFile(self.result_file, self.format.render(self.name, self.comments))
        } else {
            ActionView::Finish(self.failure)
        }
    }

    /// This state with one more notice.
    pub open spec fn noting(self, error: CollectError, path: Seq<char>) -> ProjectRunView {
        ProjectRunView { notices: self.notices.push(NoticeView { error, path }), ..self }
    }

    /// This state after the file in turn has given `lines`.
    pub open spec fn reading(self, lines: Seq<Seq<char>>) -> ProjectRunView {
        ProjectRunView {
            comments: self.comments + file_comments(
                self.walker.found[self.next as int],
                self.markers,
                lines,
            ),
            next: self.next + 1,
            ..self
        }
    }

    /// The state after `event` has answered the step that this state asks
    /// for. An event that is no answer to that step changes nothing.
    ///
    /// Whether the old result file could be removed does not matter. A
    /// directory that cannot be listed and a file that cannot be read are
    /// noted and contribute nothing; of a file that breaks off, the lines
    /// before the break count. Only a report that cannot be written makes
    /// the run fail.
    pub open spec fn step(self, event: EventView) -> ProjectRunView {
        match self.action() {
            ActionView::RemoveFile(_) => match event {
                EventView::Done | EventView::Failed => ProjectRunView { removed: true, ..self },
                _ => self,
            },
            ActionView::ReadDir(dir) => match event {
                EventView::Listing(entries) => ProjectRunView {
                    walker: self.walker.feed(Some(entries)),
                    ..self
                },
                EventView::Failed => (ProjectRunView {
                    walker: self.walker.feed(None),
                    ..self
                }).noting(CollectError::DirectoryReadFailure, dir),
                _ => self,
            },
            ActionView::ReadFile(path) => match event {
                EventView::Lines(lines) => self.reading(lines),
                EventView::Truncated(lines) => self.reading(lines).noting(
                    CollectError::FileReadFailure,
                    path,
                ),
                EventView::Failed => (ProjectRunView {
                    next: self.next + 1,
                    ..self
                }).noting(CollectError::FileReadFailure, path),
                _ => self,
            },
            ActionView::WriteFile(_, _) => match event {
                EventView::Done => ProjectRunView { closed: true, ..self },
                EventView::Failed => ProjectRunView {
                    closed: true,
                    failure: Some(CollectError::OutputWriteFailure),
                    ..self
                },
                _ => self,
            },
            ActionView::Finish(_) => self,
        }
    }
}

/// `event` without the reports in its listing, if it is a listing.
pub open spec fn event_without_reports(event: EventView, result_name: Seq<char>) -> EventView {
    match event {
        EventView::Listing(entries) => EventView::Listing(without_reports(entries, result_name)),
        _ => event,
    }
}

/// `events`, each without the reports in its listing.
pub open spec fn events_without_reports(
    events: Seq<EventView>,
    result_name: Seq<char>,
) -> Seq<EventView> {
    Seq::new(events.len(), |k: int| event_without_reports(events[k], result_name))
}

impl ProjectRunView {
    /// The state after all of `events`, each taken as the answer to the
    /// step that the state before it asked for.
    pub open spec fn after(self, events: Seq<EventView>) -> ProjectRunView
        decreases events.len(),
    {
        if events.len() == 0 {
            self
        } else {
            self.after(events.drop_last()).step(events.last())
        }
    }

    /// This state as it would be had no listing held a report.
    pub open spec fn without_reports(self) -> ProjectRunView {
        ProjectRunView { walker: self.walker.without_reports(), ..self }
    }
}

/// One step of a run, with and without reports in the listings: the run
/// asks for the same step, and it goes on alike.
pub proof fn lemma_step_without_reports(s: ProjectRunView, event: EventView)
    ensures
        s.without_reports().action() == s.action(),
        s.without_reports().step(event_without_reports(event, s.walker.result_name)) == s.step(
            event,
        ).without_reports(),
        s.step(event).walker.result_name == s.walker.result_name,
{
    match s.action() {
        ActionView::ReadDir(_) => {
            match event {
                EventView::Listing(entries) => {
                    lemma_feed_without_reports(s.walker, Some(entries));
                },
                EventView::Failed => {
                    lemma_feed_without_reports(s.walker, None);
                },
                _ => {},
            }
        },
        _ => {},
    }
}

/// A whole run, with and without reports in the listings: at every point
/// the two runs ask for the same step, so that in the end they write the
/// same report to the same file.
pub proof fn lemma_run_without_reports(s: ProjectRunView, events: Seq<EventView>)
    ensures
        s.without_reports().after(events_without_reports(events, s.walker.result_name)) == s.after(
            events,
        ).without_reports(),
        s.without_reports().after(
            events_without_reports(events, s.walker.result_name),
        ).action() == s.after(events).action(),
        s.after(events).walker.result_name == s.walker.result_name,
    decreases events.len(),
{
    let name = s.walker.result_name;
    let cleaned = events_without_reports(events, name);
    if events.len() == 0 {
        lemma_step_without_reports(s, EventView::Done);
    } else {
        let init = events.drop_last();
        lemma_run_without_reports(s, init);
        assert(cleaned.drop_last() =~= events_without_reports(init, name));
        assert(cleaned.last() == event_without_reports(events.last(), name));
        let before = s.after(init);
        lemma_step_without_reports(before, events.last());
        lemma_step_without_reports(s.after(events), EventView::Done);
    }
}

/// A step of a run keeps the directory of the project.
pub proof fn lemma_step_keeps_root(run: ProjectRunView, event: EventView)
    ensures
        run.step(event).walker.root == run.walker.root,
{
    match run.action() {
        ActionView::ReadDir(_) => {
            match event {
                EventView::Listing(entries) => {
                    lemma_feed_keeps_root(run.walker, Some(entries));
                },
                EventView::Failed => {
                    lemma_feed_keeps_root(run.walker, None);
                },
                _ => {},
            }
        },
        _ => {},
    }
}

/// A directory that cannot be listed is noted with its path, and nothing
/// else is noted for it.
pub proof fn lemma_failed_listing_is_noted(s: ProjectRunView, dir: Seq<char>)
    requires
        s.action() == ActionView::ReadDir(dir),
    ensures
        s.step(EventView::Failed).notices == s.notices.push(
            NoticeView { error: CollectError::DirectoryReadFailure, path: dir },
        ),
{
}

/// A step that goes well notes nothing: a listing, the lines of a whole
/// file, and a step that was done.
pub proof fn lemma_good_step_notes_nothing(s: ProjectRunView, event: EventView)
    requires
        event is Done || event is Listing || event is Lines,
    ensures
        s.step(event).notices == s.notices,
        s.step(event).failure == s.failure,
{
}

/// What a run has noted stays noted, in its place.
pub proof fn lemma_notices_stay(s: ProjectRunView, events: Seq<EventView>)
    ensures
        s.notices.is_prefix_of(s.after(events).notices),
    decreases events.len(),
{
    if events.len() == 0 {
        assert(s.notices.subrange(0, s.notices.len() as int) =~= s.notices);
    } else {
        lemma_notices_stay(s, events.drop_last());
        let before = s.after(events.drop_last());
        let then = before.step(events.last());
        assert(before.notices.is_prefix_of(then.notices)) by {
            assert(before.notices.subrange(0, before.notices.len() as int) =~= before.notices);
            if then.notices != before.notices {
                assert(then.notices.drop_last() =~= before.notices);
                assert(then.notices.subrange(0, before.notices.len() as int)
                    =~= before.notices);
            }
        }
        assert(then.notices.subrange(0, s.notices.len() as int) =~= before.notices.subrange(
            0,
            s.notices.len() as int,
        ));
    }
}

/// A run over one project.
pub struct ProjectRun {
    project: Project,
    format: FileFormat,
    markers: Vec<String>,
    removed: bool,
    walker: Walker,
    next: usize,
    closed: bool,
    failure: Option<CollectError>,
    notices: Vec<Notice>,
}

impl View for ProjectRun {
    type V = ProjectRunView;

    closed spec fn view(&self) -> ProjectRunView {
        ProjectRunView {
            name: self.project.name@,
            result_file: self.project.result_file@,
            format: self.format,
            markers: self.markers.deep_view(),
            removed: self.removed,
            walker: self.walker@,
            next: self.next as nat,
            comments: self.project.comments.deep_view(),
            closed: self.closed,
            failure: self.failure,
            notices: self.notices.deep_view(),
        }
    }
}

impl ProjectRun {
    /// What holds of every run: its walk is well formed.
    pub closed spec fn wf(&self) -> bool {
        self.walker.wf()
    }

    /// The walk of this run.
    pub closed spec fn walk(&self) -> Walker {
        self.walker
    }

    /// The walk of a run is well formed, and it is the walk that the run's
    /// state shows.
    pub proof fn lemma_walk(&self)
        requires
            self.wf(),
        ensures
            self.walk().wf(),
            self.walk()@ == self@.walker,
    {
    }

    /// Begins a run over the project `name` in the directory `root`. The
    /// report goes to `result_file`, in `format`; comments that begin with
    /// one of `markers` are collected; entries named in `ignore` are
    /// skipped, and so is a file named `result_name` before its extension.
    pub fn new(
        name: String,
        root: &str,
        result_file: String,
        result_name: &str,
        format: FileFormat,
        markers: Vec<String>,
        ignore: Vec<String>,
    ) -> (run: ProjectRun)
        ensures
            run.wf(),
            run@ == (ProjectRunView {
                name: name@,
                result_file: result_file@,
                format,
                markers: markers.deep_view(),
                removed: false,
                walker: WalkerView::start(root@, ignore.deep_view(), result_name@),
                next: 0,
                comments: Seq::empty(),
                closed: false,
                failure: None,
                notices: Seq::empty(),
            }),
    {
        let run = ProjectRun {
            project: Project { name, result_file, comments: Vec::new() },
            format,
            markers,
            removed: false,
            walker: Walker::new(root, ignore, result_name),
            next: 0,
            closed: false,
            failure: None,
            notices: Vec::new(),
        };
        assert(run@.comments =~= Seq::<CommentView>::empty());
        assert(run@.notices =~= Seq::<NoticeView>::empty());
        run
    }

    /// The step that the run asks for.
    pub fn action(&self) -> (action: Action)
        ensures
            action@ == self@.action(),
    {
        if !self.removed {
            return Action::RemoveFile(self.project.result_file.clone());
        }
        if let Some(dir) = self.walker.awaiting() {
            return Action::ReadDir(dir.to_owned());
        }
        let found = self.walker.found();
        if self.next < found.len() {
            let file = &found[self.next];
            assert(found.deep_view()[self.next as int] == file@);
            return Action::ReadFile(file.path().to_owned());
        }
        if !self.closed {
            return Action::WriteFile(
                self.project.result_file.clone(),
                self.project.render(&self.format),
            );
        }
        Action::Finish(self.failure)
    }

    /// Whether the run is over.
    pub fn is_finished(&self) -> (r: bool)
        ensures
            r == self@.action() is Finish,
    {
        self.removed && self.walker.awaiting().is_none() && self.next >= self.walker.found().len()
            && self.closed
    }

    /// The project with the comments collected so far.
    pub fn project(&self) -> (p: &Project)
        ensures
            p.name@ == self@.name,
            p.result_file@ == self@.result_file,
            p.comments.deep_view() == self@.comments,
    {
        &self.project
    }

    /// The failures that did not end the run, in the order in which they
    /// came.
    pub fn notices(&self) -> (n: &Vec<Notice>)
        ensures
            n.deep_view() == self@.notices,
    {
        &self.notices
    }

    /// The directory of the project.
    pub fn root(&self) -> (r: &str)
        ensures
            r@ == self@.walker.root,
    {
        self.walker.root()
    }

    /// The failure that ended the run, if it has ended and failed.
    pub fn failure(&self) -> (f: Option<CollectError>)
        ensures
            f == self@.failure,
    {
        self.failure
    }

    /// Ends the run and hands out its notices.
    pub fn into_notices(self) -> (n: Vec<Notice>)
        ensures
            n.deep_view() == self@.notices,
    {
        self.notices
    }

    /// The source files found so far.
    pub fn files(&self) -> (f: &Vec<SourceFile>)
        ensures
            f.deep_view() == self@.walker.found,
    {
        self.walker.found()
    }

    fn note(&mut self, error: CollectError, path: String)
        ensures
            final(self)@ == old(self)@.noting(error, path@),
            final(self).walker == old(self).walker,
    {
        let ghost before = self.notices.deep_view();
        let notice = Notice { error, path };
        self.notices.push(notice);
        assert(self.notices.deep_view() =~= before.push(notice@));
    }

    fn read(&mut self, lines: &Vec<String>)
        requires
            old(self)@.next < old(self)@.walker.found.len(),
        ensures
            final(self)@ == old(self)@.reading(lines.deep_view()),
            final(self).walker == old(self).walker,
    {
        let found = self.walker.found();
        assert(found.deep_view().len() == found.len());
        let file = &found[self.next];
        assert(found.deep_view()[self.next as int] == file@);
        let mut comments = collect_file_comments(file, &self.markers, lines);
        let ghost before = self.project.comments.deep_view();
        let ghost added = comments.deep_view();
        self.project.comments.append(&mut comments);
        assert(self.project.comments.deep_view() =~= before + added);
        self.next = self.next + 1;
    }

    /// Takes `event` as the answer to the step that the run asked for, and
    /// gives the step that it asks for then.
    pub fn advance(&mut self, event: Event) -> (action: Action)
        requires
            old(self).wf(),
        ensures
            final(self).wf(),
            final(self)@ == old(self)@.step(event@),
            action@ == final(self)@.action(),
    {
        self.apply(event);
        self.action()
    }

    /// Takes `event` as the answer to the step that the run asked for.
    pub fn apply(&mut self, event: Event)
        requires
            old(self).wf(),
        ensures
            final(self).wf(),
            final(self)@ == old(self)@.step(event@),
    {
        if !self.removed {
            match event {
                Event::Done | Event::Failed => {
                    self.removed = true;
                },
                _ => {},
            }
        } else if self.walker.awaiting().is_some() {
            match event {
                Event::Listing(entries) => {
                    self.walker.feed(Some(entries));
                },
                Event::Failed => {
                    let dir = match self.walker.awaiting() {
                        Some(dir) => dir.to_owned(),
                        None => String::new(),
                    };
                    self.walker.feed(None);
                    self.note(CollectError::DirectoryReadFailure, dir);
                },
                _ => {},
            }
        } else if self.next < self.walker.found().len() {
            match event {
                Event::Lines(lines) => {
                    self.read(&lines);
                },
                Event::Truncated(lines) => {
                    let path = self.current_path();
                    self.read(&lines);
                    self.note(CollectError::FileReadFailure, path);
                },
                Event::Failed => {
                    let path = self.current_path();
                    self.next = self.next + 1;
                    self.note(CollectError::FileReadFailure, path);
                },
                _ => {},
            }
        } else if !self.closed {
            match event {
                Event::Done => {
                    self.closed = true;
                },
                Event::Failed => {
                    self.closed = true;
                    self.failure = Some(CollectError::OutputWriteFailure);
                },
                _ => {},
            }
        }
    }

    fn current_path(&self) -> (path: String)
        requires
            self@.next < self@.walker.found.len(),
        ensures
            path@ == self@.walker.found[self@.next as int].path,
    {
        let found = self.walker.found();
        let file = &found[self.next];
        assert(found.deep_view()[self.next as int] == file@);
        file.path().to_owned()
    }
}

} // verus!
