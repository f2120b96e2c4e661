//! The collector: the settings of a collection, and the start of a run.

use crate::aggregator::{accept_entries, accepted, aggregate, aggregate_lines};
use crate::comment::{Comment, CommentLine};
use crate::error::CollectError;
use crate::fileformat::{lowercase, select, FileFormat};
use crate::path::{final_segment, join, join_path, lemma_stem_of_extended, project_name};
use crate::project::{
    events_without_reports, lemma_run_without_reports, ActionView, EventView, ProjectRun,
    ProjectRunView,
};
use crate::text::{clone_texts, contains_text};
use crate::walker::{is_report, outcome, EntryView, WalkerView};
use vstd::prelude::*;

verus! {

/// Settings of a collection: the markers that a comment must begin with, the
/// names that the walk skips, and the name and the format of the result file.
#[derive(Debug)]
pub struct TodoCollector {
    prefixes: Vec<String>,
    ignore: Vec<String>,
    result_name: String,
    result_format: FileFormat,
}

/// What a `TodoCollector` holds, as plain values.
pub struct TodoCollectorView {
    pub prefixes: Seq<Seq<char>>,
    pub ignore: Seq<Seq<char>>,
    pub result_name: Seq<char>,
    pub result_format: FileFormat,
}

/// `list` with `entry` at its end, unless `entry` is empty or already in the
/// list.
pub open spec fn with_entry(list: Seq<Seq<char>>, entry: Seq<char>) -> Seq<Seq<char>> {
    if entry.len() == 0 || list.contains(entry) {
        list
    } else {
        list.push(entry)
    }
}

/// `list` with the names that are always skipped.
pub open spec fn with_fixed_ignores(list: Seq<Seq<char>>) -> Seq<Seq<char>> {
    with_entry(
        with_entry(with_entry(with_entry(list, ".vscode"@), ".git"@), ".gitignore"@),
        ".gitmodules"@,
    )
}

/// The name of the result file: the configured name, a dot and the
/// extension of the format.
pub open spec fn result_file_name(name: Seq<char>, format: FileFormat) -> Seq<char> {
    name + seq!['.'] + format.ext()
}

impl TodoCollectorView {
    /// The settings that a collector begins with.
    pub open spec fn initial() -> TodoCollectorView {
        TodoCollectorView {
            prefixes: seq!["TODO"@],
            ignore: Seq::empty(),
            result_name: "TODO"@,
            result_format: FileFormat::Raw,
        }
    }

    /// What holds of the settings at all times: there is a marker, and the
    /// result file has a name.
    pub open spec fn wf(self) -> bool {
        &&& self.prefixes.len() > 0
        &&& self.result_name.len() > 0
    }

    /// The names that a walk with these settings skips: those of the
    /// ignore list, and the fixed names whatever the list holds.
    pub open spec fn walk_ignore(self) -> Seq<Seq<char>> {
        with_fixed_ignores(self.ignore)
    }

    /// The path of the result file of the project in `project_dir`.
    pub open spec fn result_file_path(self, project_dir: Seq<char>) -> Seq<char> {
        join(project_dir, result_file_name(self.result_name, self.result_format))
    }

    /// The state in which a run over the project in `path`, which is named
    /// `name`, begins. Its walk skips the fixed names besides those of the
    /// ignore list.
    pub open spec fn run(self, path: Seq<char>, name: Seq<char>) -> ProjectRunView {
        ProjectRunView {
            name,
            result_file: self.result_file_path(path),
            format: self.result_format,
            markers: self.prefixes,
            removed: false,
            walker: WalkerView::start(path, self.walk_ignore(), self.result_name),
            next: 0,
            comments: Seq::empty(),
            closed: false,
            failure: None,
            notices: Seq::empty(),
        }
    }
}

impl View for TodoCollector {
    type V = TodoCollectorView;

    closed spec fn view(&self) -> TodoCollectorView {
        TodoCollectorView {
            prefixes: self.prefixes.deep_view(),
            ignore: self.ignore.deep_view(),
            result_name: self.result_name@,
            result_format: self.result_format,
        }
    }
}

/// `entry` is in `list` once it has been added, if it is not empty.
pub proof fn lemma_with_entry_contains(list: Seq<Seq<char>>, entry: Seq<char>)
    ensures
        entry.len() > 0 ==> with_entry(list, entry).contains(entry),
        forall|other: Seq<char>| list.contains(other) ==> with_entry(list, entry).contains(other),
{
    if entry.len() > 0 && !list.contains(entry) {
        assert(list.push(entry)[list.len() as int] == entry);
    }
    assert forall|other: Seq<char>| list.contains(other) implies with_entry(list, entry).contains(
        other,
    ) by {
        let i = choose|i: int| 0 <= i < list.len() && list[i] == other;
        assert(with_entry(list, entry)[i] == other);
    }
}

/// Adding an entry keeps a list free of repetitions.
pub proof fn lemma_with_entry_distinct(list: Seq<Seq<char>>, entry: Seq<char>)
    requires
        list.no_duplicates(),
    ensures
        with_entry(list, entry).no_duplicates(),
{
}

/// Whatever the list, the fixed names are in it once they have been added.
pub proof fn lemma_fixed_ignores(list: Seq<Seq<char>>)
    ensures
        with_fixed_ignores(list).contains(".vscode"@),
        with_fixed_ignores(list).contains(".git"@),
        with_fixed_ignores(list).contains(".gitignore"@),
        with_fixed_ignores(list).contains(".gitmodules"@),
        forall|other: Seq<char>| list.contains(other) ==> with_fixed_ignores(list).contains(other),
{
    reveal_strlit(".vscode");
    reveal_strlit(".git");
    reveal_strlit(".gitignore");
    reveal_strlit(".gitmodules");
    let a = with_entry(list, ".vscode"@);
    let b = with_entry(a, ".git"@);
    let c = with_entry(b, ".gitignore"@);
    lemma_with_entry_contains(list, ".vscode"@);
    lemma_with_entry_contains(a, ".git"@);
    lemma_with_entry_contains(b, ".gitignore"@);
    lemma_with_entry_contains(c, ".gitmodules"@);
}

/// The result file is no source: whatever the settings and wherever it
/// lies in the tree, the walk skips a file that bears the name of the result
/// file. So the report that an earlier run left does not show in a later
/// one.
pub proof fn lemma_result_file_is_skipped(c: TodoCollectorView, dir: Seq<char>)
    ensures
        outcome(
            dir,
            EntryView { name: result_file_name(c.result_name, c.result_format), is_dir: false },
            c.walk_ignore(),
            c.result_name,
        ) is Skip,
{
    reveal_strlit("txt");
    reveal_strlit("md");
    reveal_strlit("json");
    let ext = c.result_format.ext();
    assert forall|i: int| 0 <= i < ext.len() implies ext[i] != '.' by {}
    lemma_stem_of_extended(c.result_name, ext);
}

/// The walk of a run skips the fixed names, whatever the ignore list of the
/// settings holds, and it skips every name of that list.
pub proof fn lemma_run_ignores_fixed_names(c: TodoCollectorView, path: Seq<char>, name: Seq<char>)
    ensures
        c.run(path, name).walker.ignore.contains(".vscode"@),
        c.run(path, name).walker.ignore.contains(".git"@),
        c.run(path, name).walker.ignore.contains(".gitignore"@),
        c.run(path, name).walker.ignore.contains(".gitmodules"@),
        forall|other: Seq<char>|
            c.ignore.contains(other) ==> c.run(path, name).walker.ignore.contains(other),
{
    lemma_fixed_ignores(c.ignore);
}

/// A run begins by asking that the result file of the run before it be
/// removed.
pub proof fn lemma_run_begins_with_removal(c: TodoCollectorView, path: Seq<char>, name: Seq<char>)
    ensures
        c.run(path, name).action() == ActionView::RemoveFile(c.result_file_path(path)),
{
}

/// The file that a run writes is a report to the walk of any later run with
/// the same settings.
pub proof fn lemma_result_file_is_report(c: TodoCollectorView)
    ensures
        is_report(
            EntryView { name: result_file_name(c.result_name, c.result_format), is_dir: false },
            c.result_name,
        ),
{
    reveal_strlit("txt");
    reveal_strlit("md");
    reveal_strlit("json");
    let ext = c.result_format.ext();
    assert forall|i: int| 0 <= i < ext.len() implies ext[i] != '.' by {}
    lemma_stem_of_extended(c.result_name, ext);
}

/// Running twice gives the same report. Let a run over a project be
/// answered by `first`, and a later run with the same settings by `second`,
/// which differs from `first` only in that its listings may also hold
/// reports, such as the one that the first run wrote. Then the later run
/// asks for the same steps as the first did: it begins by removing the old
/// report, and it ends by writing the same text to the same file.
pub proof fn lemma_second_run_gives_the_same_report(
    c: TodoCollectorView,
    path: Seq<char>,
    name: Seq<char>,
    first: Seq<EventView>,
    second: Seq<EventView>,
)
    requires
        first == events_without_reports(second, c.result_name),
    ensures
        c.run(path, name).after(first).action() == c.run(path, name).after(second).action(),
        c.run(path, name).action() == ActionView::RemoveFile(c.result_file_path(path)),
{
    let start = c.run(path, name);
    assert(start.without_reports().walker.stack =~= start.walker.stack);
    assert(start.without_reports() == start);
    lemma_run_without_reports(start, second);
}

/// Adds `entry` to `list` unless it is empty or already there.
fn add_entry(list: &mut Vec<String>, entry: &str)
    ensures
        final(list).deep_view() == with_entry(old(list).deep_view(), entry@),
{
    let entry = entry.to_owned();
    if entry.as_str().unicode_len() == 0 || contains_text(list, &entry) {
        return ;
    }
    let ghost before = list.deep_view();
    list.push(entry);
    assert(list.deep_view() =~= before.push(entry@));
}

impl TodoCollector {
    pub fn new() -> (c: TodoCollector)
        ensures
            c@ == TodoCollectorView::initial(),
            c@.wf(),
    {
        let mut prefixes: Vec<String> = Vec::new();
        prefixes.push("TODO".to_owned());
        let c = TodoCollector {
            prefixes,
            ignore: Vec::new(),
            result_name: "TODO".to_owned(),
            result_format: FileFormat::Raw,
        };
        proof {
            assert(c@.ignore =~= Seq::<Seq<char>>::empty());
            assert(c@.prefixes =~= seq!["TODO"@]);
            reveal_strlit("TODO");
        }
        c
    }

    /// Replaces the markers, unless `prefixes` is empty.
    pub fn set_prefixes(&mut self, prefixes: Vec<String>)
        ensures
            old(self)@.wf() ==> final(self)@.wf(),
            final(self)@ == (TodoCollectorView {
                prefixes: if prefixes@.len() > 0 {
                    prefixes.deep_view()
                } else {
                    old(self)@.prefixes
                },
                ..old(self)@
            }),
    {
        if prefixes.len() > 0 {
            self.prefixes = prefixes;
        }
    }

    /// Adds a marker, unless it is empty or already one.
    pub fn add_prefix(&mut self, prefix: &str)
        ensures
            old(self)@.wf() ==> final(self)@.wf(),
            final(self)@ == (TodoCollectorView {
                prefixes: with_entry(old(self)@.prefixes, prefix@),
                ..old(self)@
            }),
    {
        add_entry(&mut self.prefixes, prefix);
    }

    /// Names the result file, unless `name` is empty.
    pub fn set_result_file_name(&mut self, name: &str)
        ensures
            old(self)@.wf() ==> final(self)@.wf(),
            final(self)@ == (TodoCollectorView {
                result_name: if name@.len() > 0 {
                    name@
                } else {
                    old(self)@.result_name
                },
                ..old(self)@
            }),
    {
        if name.unicode_len() > 0 {
            self.result_name = name.to_owned();
        }
    }

    /// Chooses the format by its selector, whatever the case of its
    /// letters; a selector that names no format chooses plain text.
    pub fn set_result_file_format(&mut self, format: &str)
        ensures
            old(self)@.wf() ==> final(self)@.wf(),
            final(self)@ == (TodoCollectorView {
                result_format: match select(lowercase(format@)) {
                    Some(format) => format,
                    None => FileFormat::Raw,
                },
                ..old(self)@
            }),
    {
        self.result_format = FileFormat::from(format);
    }

    /// Replaces the names to skip by `ignored`, as it is given.
    pub fn set_ignore(&mut self, ignored: Vec<String>)
        ensures
            old(self)@.wf() ==> final(self)@.wf(),
            final(self)@ == (TodoCollectorView { ignore: ignored.deep_view(), ..old(self)@ }),
    {
        self.ignore = ignored;
    }

    /// Adds a name to skip, unless it is empty or already one.
    pub fn add_ignore(&mut self, ignore: &str)
        ensures
            old(self)@.wf() ==> final(self)@.wf(),
            final(self)@ == (TodoCollectorView {
                ignore: with_entry(old(self)@.ignore, ignore@),
                ..old(self)@
            }),
    {
        add_entry(&mut self.ignore, ignore);
    }

    pub fn prefixes(&self) -> (p: &Vec<String>)
        ensures
            p.deep_view() == self@.prefixes,
    {
        &self.prefixes
    }

    pub fn ignore(&self) -> (i: &Vec<String>)
        ensures
            i.deep_view() == self@.ignore,
    {
        &self.ignore
    }

    pub fn result_file_name(&self) -> (n: &str)
        ensures
            n@ == self@.result_name,
    {
        self.result_name.as_str()
    }

    pub fn result_file_format(&self) -> (f: FileFormat)
        ensures
            f == self@.result_format,
    {
        self.result_format
    }

    /// The path of the result file of the project in `project_dir`.
    pub fn get_result_file_path(&self, project_dir: &str) -> (path: String)
        ensures
            path@ == self@.result_file_path(project_dir@),
    {
        let mut name = self.result_name.clone();
        name.push('.');
        name.append(self.result_format.extension());
        join_path(project_dir, name.as_str())
    }

    /// The entries of the report that the comment lines of one file give:
    /// continuation lines are merged, and the entries that began with one
    /// of the markers are kept.
    pub fn comments_filter(&self, comments: Vec<CommentLine>) -> (kept: Vec<Comment>)
        ensures
            kept.deep_view() == accepted(aggregate(comments.deep_view()), self@.prefixes),
    {
        let entries = aggregate_lines(comments);
        accept_entries(entries, &self.prefixes)
    }

    /// Begins a run over the project in the directory `path`. The project
    /// is named by the final segment of `path`; a path without one is
    /// refused.
    pub fn collect_from_project(&self, path: &str) -> (r: Result<ProjectRun, CollectError>)
        ensures
            match final_segment(path@) {
                Some(name) => r is Ok && r->Ok_0.wf() && r->Ok_0@ == self@.run(path@, name),
                None => r is Err && r->Err_0 == CollectError::InvalidProjectPath,
            },
    {
        let name = match project_name(path) {
            Ok(name) => name,
            Err(e) => {
                return Err(e);
            },
        };
        let result_file = self.get_result_file_path(path);
        Ok(
            ProjectRun::new(
                name,
                path,
                result_file,
                self.result_name.as_str(),
                self.result_format,
                clone_texts(&self.prefixes),
                self.walk_ignore(),
            ),
        )
    }

    /// The names that a walk with these settings skips: those of the
    /// ignore list, and the fixed names whatever the list holds.
    pub fn walk_ignore(&self) -> (names: Vec<String>)
        ensures
            names.deep_view() == self@.walk_ignore(),
    {
        let mut names = clone_texts(&self.ignore);
        add_entry(&mut names, ".vscode");
        add_entry(&mut names, ".git");
        add_entry(&mut names, ".gitignore");
        add_entry(&mut names, ".gitmodules");
        names
    }
}

} // verus!
