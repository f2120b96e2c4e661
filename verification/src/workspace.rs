//! A run over workspaces. A workspace is a directory whose immediate
//! subdirectories are projects: the workspaces are listed, then each project
//! gets a run of its own, one after the other. A project that fails is
//! noted, and the run goes on with the next.

use crate::collector::{TodoCollector, TodoCollectorView};
use crate::error::CollectError;
use crate::path::{final_segment, join, join_path};
use crate::project::{
    lemma_step_keeps_root, Action, ActionView, Event, EventView, Notice, NoticeView, ProjectRun,
    ProjectRunView,
};
use crate::walker::{Entry, EntryView};
use vstd::prelude::*;

verus! {

/// The paths of the directories among the entries of `workspace`, in the
/// order of the entries.
pub open spec fn project_paths(workspace: Seq<char>, entries: Seq<EntryView>) -> Seq<Seq<char>>
    decreases entries.len(),
{
    if entries.len() == 0 {
        Seq::empty()
    } else {
        let before = project_paths(workspace, entries.drop_last());
        if entries.last().is_dir {
            before.push(join(workspace, entries.last().name))
        } else {
            before
        }
    }
}

/// The paths of the projects of `workspace`, whose listing is `entries`:
/// its immediate subdirectories.
pub fn project_dirs(workspace: &str, entries: &Vec<Entry>) -> (dirs: Vec<String>)
    ensures
        dirs.deep_view() == project_paths(workspace@, entries.deep_view()),
{
    let mut dirs: Vec<String> = Vec::new();
    let mut i: usize = 0;
    assert(entries.deep_view().take(0) =~= Seq::<EntryView>::empty());
    assert(dirs.deep_view() =~= Seq::<Seq<char>>::empty());
    while i < entries.len()
        invariant
            i <= entries.len(),
            dirs.deep_view() == project_paths(workspace@, entries.deep_view().take(i as int)),
        decreases entries.len() - i,
    {
        let entry = &entries[i];
        proof {
            let upto = entries.deep_view().take(i as int + 1);
            assert(upto.drop_last() =~= entries.deep_view().take(i as int));
            assert(upto.last() == entry@);
        }
        if entry.is_dir {
            let ghost before = dirs.deep_view();
            let path = join_path(workspace, entry.name.as_str());
            dirs.push(path);
            assert(dirs.deep_view() =~= before.push(path@));
        }
        i = i + 1;
    }
    assert(entries.deep_view().take(entries.len() as int) =~= entries.deep_view());
    dirs
}

/// The state of a run over workspaces.
pub struct WorkspaceRunView {
    pub collector: TodoCollectorView,
    pub workspaces: Seq<Seq<char>>,
    /// How many of the workspaces have been listed.
    pub listed: nat,
    /// The projects of the workspaces listed so far.
    pub projects: Seq<Seq<char>>,
    /// How many of the projects have been begun.
    pub started: nat,
    /// The run over the project in turn.
    pub current: Option<ProjectRunView>,
    /// The failures so far; none of them ends the run.
    pub notices: Seq<NoticeView>,
}

impl WorkspaceRunView {
    /// The state in which a run over `workspaces` begins.
    pub open spec fn start(
        collector: TodoCollectorView,
        workspaces: Seq<Seq<char>>,
    ) -> WorkspaceRunView {
        WorkspaceRunView {
            collector,
            workspaces,
            listed: 0,
            projects: Seq::empty(),
            started: 0,
            current: None,
            notices: Seq::empty(),
        }
    }

    /// The step that the run asks for: the listing of the next workspace
    /// while one is left, then what the project in turn asks for. With no
    /// project left the run is over, and it never fails.
    pub open spec fn action(self) -> ActionView {
        if self.listed < self.workspaces.len() {
            ActionView::ReadDir(self.workspaces[self.listed as int])
        } else {
            match self.current {
                Some(run) => run.action(),
                None => ActionView::Finish(None),
            }
        }
    }

    /// This state with one more notice.
    pub open spec fn noting(self, error: CollectError, path: Seq<char>) -> WorkspaceRunView {
        WorkspaceRunView { notices: self.notices.push(NoticeView { error, path }), ..self }
    }

    /// This state once the finished run `run` is put away: its notices are
    /// kept, and its failure, if it failed, is noted with the project's
    /// path.
    pub open spec fn closing(self, run: ProjectRunView) -> WorkspaceRunView {
        let kept = WorkspaceRunView { current: None, notices: self.notices + run.notices, ..self };
        match run.failure {
            Some(error) => kept.noting(error, run.walker.root),
            None => kept,
        }
    }

    /// Once all workspaces are listed: puts away a project's run that is
    /// over, and begins the run of the next project that can be begun. A
    /// project whose path gives no name is noted and passed over.
    pub open spec fn proceed(self) -> WorkspaceRunView
        decreases self.projects.len() - self.started, (if self.current is Some { 1int } else { 0int }),
    {
        if self.listed < self.workspaces.len() {
            self
        } else {
            match self.current {
                Some(run) => if run.action() is Finish {
                    self.closing(run).proceed()
                } else {
                    self
                },
                None => if self.started < self.projects.len() {
                    let path = self.projects[self.started as int];
                    let next = WorkspaceRunView { started: self.started + 1, ..self };
                    match final_segment(path) {
                        Some(name) => WorkspaceRunView {
                            current: Some(self.collector.run(path, name)),
                            ..next
                        },
                        None => next.noting(CollectError::InvalidProjectPath, path).proceed(),
                    }
                } else {
                    self
                },
            }
        }
    }

    /// The state after `event` has answered the step that this state asks
    /// for. While workspaces are listed, a listing adds its directories to
    /// the projects, and a workspace that cannot be listed is noted and adds
    /// none. After that the event goes to the run of the project in turn.
    /// An event that is no answer to the step changes nothing.
    pub open spec fn step(self, event: EventView) -> WorkspaceRunView {
        if self.listed < self.workspaces.len() {
            let workspace = self.workspaces[self.listed as int];
            let next = WorkspaceRunView { listed: self.listed + 1, ..self };
            match event {
                EventView::Listing(entries) => (WorkspaceRunView {
                    projects: self.projects + project_paths(workspace, entries),
                    ..next
                }).proceed(),
                EventView::Failed => next.noting(
                    CollectError::DirectoryReadFailure,
                    workspace,
                ).proceed(),
                _ => self,
            }
        } else {
            match self.current {
                Some(run) => (WorkspaceRunView {
                    current: Some(run.step(event)),
                    ..self
                }).proceed(),
                None => self,
            }
        }
    }
}

impl WorkspaceRunView {
    /// The state after all of `events`, each taken as the answer to the
    /// step that the state before it asked for.
    pub open spec fn after(self, events: Seq<EventView>) -> WorkspaceRunView
        decreases events.len(),
    {
        if events.len() == 0 {
            self
        } else {
            self.after(events.drop_last()).step(events.last())
        }
    }
}

/// Whether `path` is the path of a directory among the entries of
/// `workspace`.
pub open spec fn is_directory_of(
    workspace: Seq<char>,
    entries: Seq<EntryView>,
    path: Seq<char>,
) -> bool {
    exists|j: int|
        0 <= j < entries.len() && (#[trigger] entries[j]).is_dir && path == join(
            workspace,
            entries[j].name,
        )
}

/// Every project of a workspace is one of its immediate subdirectories, and
/// every immediate subdirectory is a project: plain files give none, and
/// nothing below the first level does.
pub proof fn lemma_projects_are_the_directories(workspace: Seq<char>, entries: Seq<EntryView>)
    ensures
        forall|k: int|
            0 <= k < project_paths(workspace, entries).len() ==> is_directory_of(
                workspace,
                entries,
                #[trigger] project_paths(workspace, entries)[k],
            ),
        forall|j: int|
            0 <= j < entries.len() && (#[trigger] entries[j]).is_dir ==> project_paths(
                workspace,
                entries,
            ).contains(join(workspace, entries[j].name)),
    decreases entries.len(),
{
    if entries.len() > 0 {
        let init = entries.drop_last();
        let last = entries.last();
        lemma_projects_are_the_directories(workspace, init);
        let before = project_paths(workspace, init);
        let all = project_paths(workspace, entries);
        assert forall|k: int| 0 <= k < all.len() implies is_directory_of(
            workspace,
            entries,
            #[trigger] all[k],
        ) by {
            if k < before.len() {
                assert(all[k] == before[k]);
                assert(is_directory_of(workspace, init, before[k]));
                let j = choose|j: int|
                    0 <= j < init.len() && (#[trigger] init[j]).is_dir && before[k] == join(
                        workspace,
                        init[j].name,
                    );
                assert(entries[j] == init[j]);
            } else {
                assert(entries[entries.len() - 1] == last);
            }
        }
        assert forall|j: int| 0 <= j < entries.len() && (#[trigger] entries[j]).is_dir implies all.contains(
            join(workspace, entries[j].name),
        ) by {
            if j < init.len() {
                assert(entries[j] == init[j]);
                let path = join(workspace, init[j].name);
                assert(before.contains(path));
                let k = choose|k: int| 0 <= k < before.len() && before[k] == path;
                assert(all[k] == path);
            } else {
                assert(all[all.len() - 1] == join(workspace, last.name));
            }
        }
    }
}

/// The run of a project in a workspace begins as the run of that project
/// alone begins.
pub proof fn lemma_project_begins_as_alone(w: WorkspaceRunView)
    requires
        w.listed >= w.workspaces.len(),
        w.current is None,
        w.started < w.projects.len(),
        final_segment(w.projects[w.started as int]) is Some,
    ensures
        w.proceed() == (WorkspaceRunView {
            started: w.started + 1,
            current: Some(
                w.collector.run(
                    w.projects[w.started as int],
                    final_segment(w.projects[w.started as int])->0,
                ),
            ),
            ..w
        }),
{
}

/// The run of a project in a workspace goes as the run of that project
/// alone goes. While the project's run is not over, the workspace run asks
/// for the steps that the project's run asks for, and takes each answer as
/// the project's run takes it: so the report that it has written for the
/// project is the one that the project's run alone writes, whichever other
/// projects the workspace holds and whatever becomes of them.
pub proof fn lemma_project_runs_as_alone(
    w: WorkspaceRunView,
    run: ProjectRunView,
    events: Seq<EventView>,
)
    requires
        w.listed >= w.workspaces.len(),
        w.current == Some(run),
        forall|k: int|
            0 <= k <= events.len() ==> !(#[trigger] run.after(events.take(k)).action() is Finish),
    ensures
        w.after(events) == (WorkspaceRunView { current: Some(run.after(events)), ..w }),
        w.after(events).action() == run.after(events).action(),
    decreases events.len(),
{
    if events.len() > 0 {
        let init = events.drop_last();
        assert forall|k: int| 0 <= k <= init.len() implies !(#[trigger] run.after(
            init.take(k),
        ).action() is Finish) by {
            assert(init.take(k) =~= events.take(k));
        }
        lemma_project_runs_as_alone(w, run, init);
        assert(events.take(events.len() as int) =~= events);
        assert(!(run.after(events).action() is Finish));
    }
}

/// Putting a finished run away, and beginning the next, keeps what was
/// noted before.
pub proof fn lemma_proceed_keeps_notices(w: WorkspaceRunView)
    ensures
        w.notices.is_prefix_of(w.proceed().notices),
    decreases w.projects.len() - w.started, (if w.current is Some { 1int } else { 0int }),
{
    assert(w.notices.subrange(0, w.notices.len() as int) =~= w.notices);
    if w.listed < w.workspaces.len() {
    } else {
        match w.current {
            Some(run) => {
                if run.action() is Finish {
                    let next = w.closing(run);
                    lemma_proceed_keeps_notices(next);
                    assert(next.notices.subrange(0, w.notices.len() as int) =~= w.notices);
                    assert(next.proceed().notices.subrange(0, w.notices.len() as int)
                        =~= next.notices.subrange(0, w.notices.len() as int));
                }
            },
            None => {
                if w.started < w.projects.len() {
                    let path = w.projects[w.started as int];
                    if final_segment(path) is None {
                        let next = (WorkspaceRunView {
                            started: w.started + 1,
                            ..w
                        }).noting(CollectError::InvalidProjectPath, path);
                        lemma_proceed_keeps_notices(next);
                        assert(next.notices.subrange(0, w.notices.len() as int) =~= w.notices);
                        assert(next.proceed().notices.subrange(0, w.notices.len() as int)
                            =~= next.notices.subrange(0, w.notices.len() as int));
                    }
                }
            },
        }
    }
}

/// When the run of a project ends, what it noted and how it failed is in
/// the notices of the workspace run from then on: a project whose directory
/// could not be listed, or whose report could not be written, leaves its
/// record. A project that noted nothing and did not fail leaves none.
pub proof fn lemma_finished_project_is_recorded(
    w: WorkspaceRunView,
    run: ProjectRunView,
    event: EventView,
)
    requires
        w.listed >= w.workspaces.len(),
        w.current == Some(run),
        run.step(event).action() is Finish,
    ensures
        (w.notices + run.step(event).notices).is_prefix_of(w.step(event).notices),
        run.step(event).failure is Some ==> w.step(event).notices.contains(
            NoticeView { error: run.step(event).failure->0, path: run.walker.root },
        ),
        run.step(event).notices.len() == 0 && run.step(event).failure is None ==> (
        WorkspaceRunView { current: Some(run.step(event)), ..w }).closing(
            run.step(event),
        ).notices == w.notices,
{
    let done = run.step(event);
    let held = WorkspaceRunView { current: Some(done), ..w };
    let closed = held.closing(done);
    let kept = w.notices + done.notices;
    lemma_proceed_keeps_notices(closed);
    assert(closed.notices.subrange(0, kept.len() as int) =~= kept);
    assert(closed.proceed().notices.subrange(0, kept.len() as int) =~= closed.notices.subrange(
        0,
        kept.len() as int,
    ));
    lemma_step_keeps_root(run, event);
    if done.failure is Some {
        let notice = NoticeView { error: done.failure->0, path: run.walker.root };
        assert(closed.notices[closed.notices.len() - 1] == notice);
        assert(closed.proceed().notices[closed.notices.len() - 1] == closed.notices.subrange(
            0,
            closed.notices.len() as int,
        )[closed.notices.len() - 1]);
    }
    if done.notices.len() == 0 && done.failure is None {
        assert(w.notices + done.notices =~= w.notices);
    }
}

/// What a workspace run has noted stays noted, in its place, to the end.
pub proof fn lemma_notices_are_kept(w: WorkspaceRunView, events: Seq<EventView>)
    ensures
        w.notices.is_prefix_of(w.after(events).notices),
    decreases events.len(),
{
    assert(w.notices.subrange(0, w.notices.len() as int) =~= w.notices);
    if events.len() > 0 {
        lemma_notices_are_kept(w, events.drop_last());
        let before = w.after(events.drop_last());
        lemma_step_keeps_notices(before, events.last());
        let then = before.step(events.last());
        assert(then.notices.subrange(0, w.notices.len() as int) =~= before.notices.subrange(
            0,
            w.notices.len() as int,
        ));
    }
}

/// One step keeps what was noted before.
pub proof fn lemma_step_keeps_notices(w: WorkspaceRunView, event: EventView)
    ensures
        w.notices.is_prefix_of(w.step(event).notices),
{
    let n = w.notices.len() as int;
    assert(w.notices.subrange(0, n) =~= w.notices);
    if w.listed < w.workspaces.len() {
        let workspace = w.workspaces[w.listed as int];
        let next = WorkspaceRunView { listed: w.listed + 1, ..w };
        match event {
            EventView::Listing(entries) => {
                let fed = WorkspaceRunView {
                    projects: w.projects + project_paths(workspace, entries),
                    ..next
                };
                lemma_proceed_keeps_notices(fed);
            },
            EventView::Failed => {
                let noted = next.noting(CollectError::DirectoryReadFailure, workspace);
                lemma_proceed_keeps_notices(noted);
                assert(noted.notices.subrange(0, n) =~= w.notices);
                assert(noted.proceed().notices.subrange(0, n) =~= noted.notices.subrange(0, n));
            },
            _ => {},
        }
    } else {
        match w.current {
            Some(run) => {
                let held = WorkspaceRunView { current: Some(run.step(event)), ..w };
                lemma_proceed_keeps_notices(held);
            },
            None => {},
        }
    }
}

/// A run over workspaces.
pub struct WorkspaceRun {
    collector: TodoCollector,
    workspaces: Vec<String>,
    listed: usize,
    projects: Vec<String>,
    started: usize,
    current: Option<ProjectRun>,
    notices: Vec<Notice>,
}

impl View for WorkspaceRun {
    type V = WorkspaceRunView;

    closed spec fn view(&self) -> WorkspaceRunView {
        WorkspaceRunView {
            collector: self.collector@,
            workspaces: self.workspaces.deep_view(),
            listed: self.listed as nat,
            projects: self.projects.deep_view(),
            started: self.started as nat,
            current: match self.current {
                Some(run) => Some(run@),
                None => None,
            },
            notices: self.notices.deep_view(),
        }
    }
}

impl WorkspaceRun {
    /// What holds of every run over workspaces: the run of the project in
    /// turn is well formed.
    pub closed spec fn wf(&self) -> bool {
        &&& self.inv()
        &&& self.current is Some ==> !(self.current->0@.action() is Finish)
    }

    /// What holds between the steps too: the run of the project in turn is
    /// well formed, and there is none while workspaces are listed.
    spec fn inv(&self) -> bool {
        self.current is Some ==> self.current->0.wf() && self.listed >= self.workspaces@.len()
    }

    /// A run over workspaces never ends in failure: when it asks for
    /// nothing more, it asks so without a failure, whatever became of its
    /// projects.
    pub proof fn lemma_never_fails(&self)
        requires
            self.wf(),
        ensures
            self@.action() is Finish ==> self@.action() == ActionView::Finish(None),
    {
    }

    /// Begins a run over `workspaces` with the settings of `collector`.
    pub fn new(collector: TodoCollector, workspaces: Vec<String>) -> (run: WorkspaceRun)
        ensures
            run.wf(),
            run@ == WorkspaceRunView::start(collector@, workspaces.deep_view()).proceed(),
    {
        let mut run = WorkspaceRun {
            collector,
            workspaces,
            listed: 0,
            projects: Vec::new(),
            started: 0,
            current: None,
            notices: Vec::new(),
        };
        assert(run@.projects =~= Seq::<Seq<char>>::empty());
        assert(run@.notices =~= Seq::<NoticeView>::empty());
        run.proceed();
        run
    }

    /// The step that the run asks for.
    pub fn action(&self) -> (action: Action)
        ensures
            action@ == self@.action(),
    {
        if self.listed < self.workspaces.len() {
            assert(self.workspaces.deep_view()[self.listed as int] == self.workspaces[self.listed as int]@);
            return Action::ReadDir(self.workspaces[self.listed].clone());
        }
        match &self.current {
            Some(run) => run.action(),
            None => Action::Finish(None),
        }
    }

    /// The failures so far, in the order in which they came.
    pub fn notices(&self) -> (n: &Vec<Notice>)
        ensures
            n.deep_view() == self@.notices,
    {
        &self.notices
    }

    /// The paths of the projects of the workspaces listed so far.
    pub fn projects(&self) -> (p: &Vec<String>)
        ensures
            p.deep_view() == self@.projects,
    {
        &self.projects
    }

    fn note(&mut self, error: CollectError, path: String)
        ensures
            final(self)@ == old(self)@.noting(error, path@),
            final(self).current == old(self).current,
            final(self).listed == old(self).listed,
            final(self).workspaces == old(self).workspaces,
            final(self).projects == old(self).projects,
            final(self).started == old(self).started,
    {
        let ghost before = self.notices.deep_view();
        let notice = Notice { error, path };
        self.notices.push(notice);
        assert(self.notices.deep_view() =~= before.push(notice@));
    }

    /// Puts away the finished run `run`.
    fn close(&mut self, run: ProjectRun)
        requires
            old(self).inv(),
        ensures
            final(self).inv(),
            final(self).current is None,
            final(self).listed == old(self).listed,
            final(self).workspaces == old(self).workspaces,
            final(self).projects == old(self).projects,
            final(self).started == old(self).started,
            final(self)@ == (WorkspaceRunView { current: Some(run@), ..old(self)@ }).closing(run@),
    {
        let failure = run.failure();
        let root = run.root().to_owned();
        let mut notices = run.into_notices();
        let ghost before = self.notices.deep_view();
        let ghost added = notices.deep_view();
        self.current = None;
        self.notices.append(&mut notices);
        assert(self.notices.deep_view() =~= before + added);
        match failure {
            Some(error) => {
                self.note(error, root);
            },
            None => {},
        }
    }

    fn proceed(&mut self)
        requires
            old(self).inv(),
        ensures
            final(self).wf(),
            final(self)@ == old(self)@.proceed(),
    {
        if self.listed < self.workspaces.len() {
            return ;
        }
        loop
            invariant_except_break
                self@.proceed() == old(self)@.proceed(),
            invariant
                self.inv(),
                self.listed >= self.workspaces.len(),
                self.projects@.len() == self.projects.deep_view().len(),
                self.workspaces@.len() == self.workspaces.deep_view().len(),
            ensures
                self.wf(),
                self@ == old(self)@.proceed(),
            decreases self.projects.len() - self.started, (if self.current is Some { 1int } else { 0int }),
        {
            let ghost before = self@;
            match self.current.take() {
                Some(run) => {
                    if run.is_finished() {
                        proof {
                            assert((WorkspaceRunView { current: Some(run@), ..self@ }) == before);
                        }
                        self.close(run);
                    } else {
                        self.current = Some(run);
                        assert(self@ == before);
                        break ;
                    }
                },
                None => {
                    assert(self@ == before);
                    if self.started < self.projects.len() {
                        let path = &self.projects[self.started];
                        assert(self.projects.deep_view()[self.started as int] == path@);
                        match self.collector.collect_from_project(path.as_str()) {
                            Ok(run) => {
                                self.current = Some(run);
                                self.started = self.started + 1;
                                break ;
                            },
                            Err(_) => {
                                let path = path.clone();
                                self.started = self.started + 1;
                                self.note(CollectError::InvalidProjectPath, path);
                            },
                        }
                    } else {
                        break ;
                    }
                },
            }
        }
    }

    /// Takes `event` as the answer to the step that the run asked for, and
    /// gives the step that it asks for then.
    pub fn advance(&mut self, event: Event) -> (action: Action)
        requires
            old(self).wf(),
        ensures
            final(self).wf(),
            final(self)@ == old(self)@.step(event@),
            action@ == final(self)@.action(),
    {
        if self.listed < self.workspaces.len() {
            assert(self.workspaces.deep_view()[self.listed as int] == self.workspaces[self.listed as int]@);
            match event {
                Event::Listing(entries) => {
                    let mut dirs = project_dirs(self.workspaces[self.listed].as_str(), &entries);
                    let ghost old_projects = self.projects.deep_view();
                    let ghost added = dirs.deep_view();
                    self.projects.append(&mut dirs);
                    assert(self.projects.deep_view() =~= old_projects + added);
                    self.listed = self.listed + 1;
                    self.proceed();
                },
                Event::Failed => {
                    let workspace = self.workspaces[self.listed].clone();
                    self.listed = self.listed + 1;
                    self.note(CollectError::DirectoryReadFailure, workspace);
                    self.proceed();
                },
                _ => {},
            }
        } else {
            match self.current.take() {
                Some(run) => {
                    let mut run = run;
                    run.apply(event);
                    self.current = Some(run);
                    self.proceed();
                },
                None => {},
            }
        }
        self.action()
    }
}

} // verus!
