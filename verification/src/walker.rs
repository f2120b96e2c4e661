//! The directory walk, as a machine that never touches the file system: it
//! names the directory it wants listed, takes the listing, and decides for
//! each entry whether to skip it, to descend into it, or to keep it as a
//! source file. The caller reads the directories.

use crate::path::{has_stem, join, join_path, stem};
use crate::source_file::{classify, SourceFile, SourceFileView};
use crate::text::contains_text;
use vstd::prelude::*;

verus! {

/// One entry of a directory listing: its name, which is the final segment of
/// its path, and whether it is a directory.
#[derive(Debug)]
pub struct Entry {
    pub name: String,
    pub is_dir: bool,
}

/// What an `Entry` holds, as plain values.
pub struct EntryView {
    pub name: Seq<char>,
    pub is_dir: bool,
}

impl View for Entry {
    type V = EntryView;

    open spec fn view(&self) -> EntryView {
        EntryView { name: self.name@, is_dir: self.is_dir }
    }
}

impl DeepView for Entry {
    type V = EntryView;

    open spec fn deep_view(&self) -> EntryView {
        self@
    }
}

impl Entry {
    pub fn new(name: &str, is_dir: bool) -> (e: Entry)
        ensures
            e@ == (EntryView { name: name@, is_dir }),
    {
        Entry { name: name.to_owned(), is_dir }
    }
}

/// What the walk does with one entry.
pub enum Outcome {
    /// The entry contributes nothing.
    Skip,
    /// The entry is a directory to list, at this path.
    Enter(Seq<char>),
    /// The entry is a source file.
    Keep(SourceFileView),
}

/// What the walk does with the entry `e` of the directory `dir`. An entry
/// whose name is in the ignore list is skipped, file or directory, so that
/// nothing below an ignored directory is ever listed. Another directory is
/// entered. A file is skipped if its name without the extension is the name
/// of the result file, and kept if the classifier accepts its path.
pub open spec fn outcome(
    dir: Seq<char>,
    e: EntryView,
    ignore: Seq<Seq<char>>,
    result_name: Seq<char>,
) -> Outcome {
    if ignore.contains(e.name) {
        Outcome::Skip
    } else if e.is_dir {
        Outcome::Enter(join(dir, e.name))
    } else if stem(e.name) == result_name {
        Outcome::Skip
    } else {
        match classify(join(dir, e.name)) {
            Some(kind) => Outcome::Keep(
                SourceFileView { path: join(dir, e.name), source_type: kind },
            ),
            None => Outcome::Skip,
        }
    }
}

/// Where the scan of one listing stops: the entries not yet looked at, the
/// files found so far, and the directory to enter, if the scan stopped at
/// one.
pub struct Scan {
    pub rest: Seq<EntryView>,
    pub found: Seq<SourceFileView>,
    pub enter: Option<Seq<char>>,
}

/// Scans the entries `rest` of `dir` in order, up to and including the
/// first directory to enter, or to the end.
pub open spec fn scan_entries(
    dir: Seq<char>,
    rest: Seq<EntryView>,
    ignore: Seq<Seq<char>>,
    result_name: Seq<char>,
    found: Seq<SourceFileView>,
) -> Scan
    decreases rest.len(),
{
    if rest.len() == 0 {
        Scan { rest, found, enter: None }
    } else {
        match outcome(dir, rest[0], ignore, result_name) {
            Outcome::Skip => scan_entries(dir, rest.drop_first(), ignore, result_name, found),
            Outcome::Enter(path) => Scan { rest: rest.drop_first(), found, enter: Some(path) },
            Outcome::Keep(file) => scan_entries(
                dir,
                rest.drop_first(),
                ignore,
                result_name,
                found.push(file),
            ),
        }
    }
}

/// An entry that is skipped leaves no trace: with it or without it, a
/// listing gives the same files and stops at the same directory.
pub proof fn lemma_skipped_entry(
    dir: Seq<char>,
    head: Seq<EntryView>,
    e: EntryView,
    tail: Seq<EntryView>,
    ignore: Seq<Seq<char>>,
    result_name: Seq<char>,
    found: Seq<SourceFileView>,
)
    requires
        outcome(dir, e, ignore, result_name) is Skip,
    ensures
        scan_entries(dir, head.push(e) + tail, ignore, result_name, found).found == scan_entries(
            dir,
            head + tail,
            ignore,
            result_name,
            found,
        ).found,
        scan_entries(dir, head.push(e) + tail, ignore, result_name, found).enter == scan_entries(
            dir,
            head + tail,
            ignore,
            result_name,
            found,
        ).enter,
    decreases head.len(),
{
    let with = head.push(e) + tail;
    let without = head + tail;
    if head.len() == 0 {
        assert(with[0] == e);
        assert(with.drop_first() =~= tail);
        assert(without =~= tail);
    } else {
        let first = head[0];
        assert(with[0] == first);
        assert(without[0] == first);
        assert(with.drop_first() =~= head.drop_first().push(e) + tail);
        assert(without.drop_first() =~= head.drop_first() + tail);
        match outcome(dir, first, ignore, result_name) {
            Outcome::Skip => {
                lemma_skipped_entry(dir, head.drop_first(), e, tail, ignore, result_name, found);
            },
            Outcome::Enter(_) => {},
            Outcome::Keep(file) => {
                lemma_skipped_entry(
                    dir,
                    head.drop_first(),
                    e,
                    tail,
                    ignore,
                    result_name,
                    found.push(file),
                );
            },
        }
    }
}

/// After a listing has been taken, the walk either waits for the next
/// directory or is over.
pub proof fn lemma_settled(w: WalkerView)
    ensures
        w.settle().awaiting is Some || w.settle().finished(),
    decreases w.stack.len(),
{
    if w.awaiting is Some || w.stack.len() == 0 {
    } else {
        let top = w.stack.last();
        let scan = scan_entries(top.dir, top.rest, w.ignore, w.result_name, w.found);
        if scan.enter is None {
            lemma_settled(WalkerView { stack: w.stack.drop_last(), found: scan.found, ..w });
        }
    }
}

/// A directory whose listing is being scanned.
pub struct FrameView {
    pub dir: Seq<char>,
    pub rest: Seq<EntryView>,
}

/// The state of a walk.
pub struct WalkerView {
    pub root: Seq<char>,
    pub ignore: Seq<Seq<char>>,
    pub result_name: Seq<char>,
    /// The directories that are being scanned, the innermost last.
    pub stack: Seq<FrameView>,
    /// The directory whose listing the walk waits for.
    pub awaiting: Option<Seq<char>>,
    /// The source files found so far, in the order of the walk.
    pub found: Seq<SourceFileView>,
}

impl WalkerView {
    /// The state in which a walk of `root` begins: it waits for the listing
    /// of the root.
    pub open spec fn start(
        root: Seq<char>,
        ignore: Seq<Seq<char>>,
        result_name: Seq<char>,
    ) -> WalkerView {
        WalkerView {
            root,
            ignore,
            result_name,
            stack: Seq::empty(),
            awaiting: Some(root),
            found: Seq::empty(),
        }
    }

    /// The walk is over: no listing is awaited and none is left to scan.
    pub open spec fn finished(self) -> bool {
        self.awaiting is None && self.stack.len() == 0
    }

    /// Goes on with the scan, depth first, until a directory has to be
    /// listed or nothing is left.
    pub open spec fn settle(self) -> WalkerView
        decreases self.stack.len(),
    {
        if self.awaiting is Some || self.stack.len() == 0 {
            self
        } else {
            let top = self.stack.last();
            let scan = scan_entries(top.dir, top.rest, self.ignore, self.result_name, self.found);
            if scan.enter is Some {
                WalkerView {
                    stack: self.stack.drop_last().push(FrameView { dir: top.dir, rest: scan.rest }),
                    awaiting: scan.enter,
                    found: scan.found,
                    ..self
                }
            } else {
                (WalkerView { stack: self.stack.drop_last(), found: scan.found, ..self }).settle()
            }
        }
    }

    /// The state after the listing of the awaited directory has come:
    /// `None` stands for a directory that could not be read, which
    /// contributes nothing. Without an awaited directory nothing changes.
    pub open spec fn feed(self, listing: Option<Seq<EntryView>>) -> WalkerView {
        match self.awaiting {
            None => self,
            Some(dir) => match listing {
                None => (WalkerView { awaiting: None, ..self }).settle(),
                Some(entries) => (WalkerView {
                    awaiting: None,
                    stack: self.stack.push(FrameView { dir, rest: entries }),
                    ..self
                }).settle(),
            },
        }
    }
}

/// Whether the walk takes the entry for a report: a file that is named
/// `result_name` before its extension.
pub open spec fn is_report(e: EntryView, result_name: Seq<char>) -> bool {
    !e.is_dir && stem(e.name) == result_name
}

/// `entries` without the reports among them.
pub open spec fn without_reports(entries: Seq<EntryView>, result_name: Seq<char>) -> Seq<EntryView>
    decreases entries.len(),
{
    if entries.len() == 0 {
        entries
    } else if is_report(entries[0], result_name) {
        without_reports(entries.drop_first(), result_name)
    } else {
        seq![entries[0]] + without_reports(entries.drop_first(), result_name)
    }
}

/// The frame `f` without the reports among its entries.
pub open spec fn frame_without_reports(f: FrameView, result_name: Seq<char>) -> FrameView {
    FrameView { dir: f.dir, rest: without_reports(f.rest, result_name) }
}

impl WalkerView {
    /// This state of the walk as it would be had no listing held a report.
    pub open spec fn without_reports(self) -> WalkerView {
        WalkerView {
            stack: Seq::new(
                self.stack.len(),
                |k: int| frame_without_reports(self.stack[k], self.result_name),
            ),
            ..self
        }
    }
}

/// Reports in a listing change nothing of what its scan finds, nor of where
/// it stops; what is left to scan differs by the reports alone.
pub proof fn lemma_scan_without_reports(
    dir: Seq<char>,
    rest: Seq<EntryView>,
    ignore: Seq<Seq<char>>,
    result_name: Seq<char>,
    found: Seq<SourceFileView>,
)
    ensures
        ({
            let with = scan_entries(dir, rest, ignore, result_name, found);
            let without = scan_entries(
                dir,
                without_reports(rest, result_name),
                ignore,
                result_name,
                found,
            );
            &&& without.found == with.found
            &&& without.enter == with.enter
            &&& without.rest == without_reports(with.rest, result_name)
        }),
    decreases rest.len(),
{
    if rest.len() > 0 {
        let first = rest[0];
        let tail = rest.drop_first();
        let cleaned_tail = without_reports(tail, result_name);
        if is_report(first, result_name) {
            lemma_scan_without_reports(dir, tail, ignore, result_name, found);
        } else {
            let cleaned = seq![first] + cleaned_tail;
            assert(cleaned[0] == first);
            assert(cleaned.drop_first() =~= cleaned_tail);
            match outcome(dir, first, ignore, result_name) {
                Outcome::Skip => {
                    lemma_scan_without_reports(dir, tail, ignore, result_name, found);
                },
                Outcome::Enter(_) => {},
                Outcome::Keep(file) => {
                    lemma_scan_without_reports(dir, tail, ignore, result_name, found.push(file));
                },
            }
        }
    }
}

/// Going on with the scan keeps what the walk was begun with.
pub proof fn lemma_settle_keeps_settings(w: WalkerView)
    ensures
        w.settle().root == w.root,
        w.settle().ignore == w.ignore,
        w.settle().result_name == w.result_name,
    decreases w.stack.len(),
{
    if w.awaiting is Some || w.stack.len() == 0 {
    } else {
        let top = w.stack.last();
        let scan = scan_entries(top.dir, top.rest, w.ignore, w.result_name, w.found);
        if scan.enter is None {
            lemma_settle_keeps_settings(
                WalkerView { stack: w.stack.drop_last(), found: scan.found, ..w },
            );
        }
    }
}

/// A listing keeps the directory where the walk began.
pub proof fn lemma_feed_keeps_root(w: WalkerView, listing: Option<Seq<EntryView>>)
    ensures
        w.feed(listing).root == w.root,
{
    match w.awaiting {
        None => {},
        Some(dir) => {
            match listing {
                None => {
                    lemma_settle_keeps_settings(WalkerView { awaiting: None, ..w });
                },
                Some(entries) => {
                    lemma_settle_keeps_settings(
                        WalkerView {
                            awaiting: None,
                            stack: w.stack.push(FrameView { dir, rest: entries }),
                            ..w
                        },
                    );
                },
            }
        },
    }
}

/// Reports in the listings change nothing of how the scan goes on.
pub proof fn lemma_settle_without_reports(w: WalkerView)
    ensures
        w.without_reports().settle() == w.settle().without_reports(),
    decreases w.stack.len(),
{
    let c = w.without_reports();
    if w.awaiting is Some || w.stack.len() == 0 {
    } else {
        let top = w.stack.last();
        let scan = scan_entries(top.dir, top.rest, w.ignore, w.result_name, w.found);
        lemma_scan_without_reports(top.dir, top.rest, w.ignore, w.result_name, w.found);
        assert(c.stack.last() == frame_without_reports(top, w.result_name));
        if scan.enter is Some {
            let next = WalkerView {
                stack: w.stack.drop_last().push(FrameView { dir: top.dir, rest: scan.rest }),
                awaiting: scan.enter,
                found: scan.found,
                ..w
            };
            assert(c.settle().stack =~= next.without_reports().stack);
        } else {
            let next = WalkerView { stack: w.stack.drop_last(), found: scan.found, ..w };
            let c_next = WalkerView { stack: c.stack.drop_last(), found: scan.found, ..c };
            assert(c_next.stack =~= next.without_reports().stack);
            assert(c_next == next.without_reports());
            lemma_settle_without_reports(next);
        }
    }
}

/// Reports in a listing change nothing of what the walk finds or asks for:
/// the walk that is fed a listing with reports is, but for the reports left
/// to scan, the walk that is fed the listing without them.
pub proof fn lemma_feed_without_reports(w: WalkerView, listing: Option<Seq<EntryView>>)
    ensures
        w.without_reports().feed(
            match listing {
                Some(entries) => Some(without_reports(entries, w.result_name)),
                None => None,
            },
        ) == w.feed(listing).without_reports(),
        w.feed(listing).result_name == w.result_name,
        w.without_reports().awaiting == w.awaiting,
        w.without_reports().found == w.found,
{
    let c = w.without_reports();
    match w.awaiting {
        None => {},
        Some(dir) => {
            match listing {
                None => {
                    let next = WalkerView { awaiting: None, ..w };
                    assert((WalkerView { awaiting: None, ..c }).stack
                        =~= next.without_reports().stack);
                    assert((WalkerView { awaiting: None, ..c }) == next.without_reports());
                    lemma_settle_without_reports(next);
                    lemma_settle_keeps_settings(next);
                },
                Some(entries) => {
                    let next = WalkerView {
                        awaiting: None,
                        stack: w.stack.push(FrameView { dir, rest: entries }),
                        ..w
                    };
                    let c_next = WalkerView {
                        awaiting: None,
                        stack: c.stack.push(
                            FrameView { dir, rest: without_reports(entries, w.result_name) },
                        ),
                        ..c
                    };
                    assert(c_next.stack =~= next.without_reports().stack);
                    assert(c_next == next.without_reports());
                    lemma_settle_without_reports(next);
                    lemma_settle_keeps_settings(next);
                },
            }
        },
    }
}

/// The path that the names of `trail` lead to, one below the other, from
/// `root`.
pub open spec fn descend(root: Seq<char>, trail: Seq<Seq<char>>) -> Seq<char>
    decreases trail.len(),
{
    if trail.len() == 0 {
        root
    } else {
        join(descend(root, trail.drop_last()), trail.last())
    }
}

/// No name of `trail` is in the ignore list.
pub open spec fn clean(trail: Seq<Seq<char>>, ignore: Seq<Seq<char>>) -> bool {
    forall|j: int| 0 <= j < trail.len() ==> !ignore.contains(#[trigger] trail[j])
}

struct Frame {
    dir: String,
    entries: Vec<Entry>,
    next: usize,
    trail: Ghost<Seq<Seq<char>>>,
}

impl Frame {
    spec fn view(&self) -> FrameView {
        FrameView { dir: self.dir@, rest: self.entries.deep_view().skip(self.next as int) }
    }

    spec fn wf(&self, root: Seq<char>, ignore: Seq<Seq<char>>) -> bool {
        &&& self.next <= self.entries@.len()
        &&& self.dir@ == descend(root, self.trail@)
        &&& clean(self.trail@, ignore)
    }
}

/// A walk of a directory tree.
pub struct Walker {
    root: String,
    ignore: Vec<String>,
    result_name: String,
    stack: Vec<Frame>,
    awaiting: Option<String>,
    found: Vec<SourceFile>,
    awaiting_trail: Ghost<Seq<Seq<char>>>,
    trails: Ghost<Seq<Seq<Seq<char>>>>,
}

impl View for Walker {
    type V = WalkerView;

    closed spec fn view(&self) -> WalkerView {
        WalkerView {
            root: self.root@,
            ignore: self.ignore.deep_view(),
            result_name: self.result_name@,
            stack: Seq::new(self.stack@.len(), |k: int| self.stack@[k].view()),
            awaiting: self.awaiting.deep_view(),
            found: self.found.deep_view(),
        }
    }
}

impl Walker {
    /// What holds of every walk: each directory in scanning, the awaited
    /// one and each file found lie below the root along the names of a
    /// trail, and no name of a trail is in the ignore list.
    pub closed spec fn wf(&self) -> bool {
        &&& self.trails@.len() == self.found@.len()
        &&& forall|i: int|
            0 <= i < self.found@.len() ==> {
                &&& (#[trigger] self.found@[i])@.path == descend(self.root@, self.trails@[i])
                &&& self.trails@[i].len() > 0
                &&& clean(self.trails@[i], self.ignore.deep_view())
            }
        &&& forall|k: int|
            0 <= k < self.stack@.len() ==> (#[trigger] self.stack@[k]).wf(
                self.root@,
                self.ignore.deep_view(),
            )
        &&& self.awaiting is Some ==> {
            &&& self.awaiting->0@ == descend(self.root@, self.awaiting_trail@)
            &&& clean(self.awaiting_trail@, self.ignore.deep_view())
        }
    }

    /// The names that lead from the root to the `i`-th file found.
    pub closed spec fn trail(&self, i: int) -> Seq<Seq<char>> {
        self.trails@[i]
    }

    /// A file is found only along names that the ignore list does not hold:
    /// what lies in an ignored directory, at whatever depth, and what bears
    /// an ignored name itself, is never among the files found.
    pub proof fn lemma_found_is_clean(&self, i: int)
        requires
            self.wf(),
            0 <= i < self@.found.len(),
        ensures
            self.trail(i).len() > 0,
            self@.found[i].path == descend(self@.root, self.trail(i)),
            forall|j: int|
                0 <= j < self.trail(i).len() ==> !self@.ignore.contains(#[trigger] self.trail(i)[j]),
    {
        assert(self.found@[i]@.path == descend(self.root@, self.trails@[i]));
    }

    /// Begins a walk of the tree under `root`. Entries named in `ignore`
    /// are skipped, and so are files that are named `result_name` before
    /// their extension.
    pub fn new(root: &str, ignore: Vec<String>, result_name: &str) -> (w: Walker)
        ensures
            w.wf(),
            w@ == WalkerView::start(root@, ignore.deep_view(), result_name@),
    {
        let w = Walker {
            root: root.to_owned(),
            ignore,
            result_name: result_name.to_owned(),
            stack: Vec::new(),
            awaiting: Some(root.to_owned()),
            found: Vec::new(),
            awaiting_trail: Ghost(Seq::empty()),
            trails: Ghost(Seq::empty()),
        };
        assert(w@.stack =~= Seq::<FrameView>::empty());
        assert(w@.found =~= Seq::<SourceFileView>::empty());
        w
    }

    /// The directory where the walk began.
    pub fn root(&self) -> (r: &str)
        ensures
            r@ == self@.root,
    {
        self.root.as_str()
    }

    /// The directory to list next; `None` once the walk is over.
    pub fn awaiting(&self) -> (dir: Option<&str>)
        ensures
            dir.deep_view() == self@.awaiting,
    {
        match &self.awaiting {
            Some(dir) => Some(dir.as_str()),
            None => None,
        }
    }

    /// Whether the walk is over.
    pub fn is_finished(&self) -> (r: bool)
        ensures
            r == self@.finished(),
    {
        self.awaiting.is_none() && self.stack.len() == 0
    }

    /// The source files found so far, in the order of the walk.
    pub fn found(&self) -> (files: &Vec<SourceFile>)
        ensures
            files.deep_view() == self@.found,
    {
        &self.found
    }

    /// Ends the walk and hands out the source files found.
    pub fn into_found(self) -> (files: Vec<SourceFile>)
        ensures
            files.deep_view() == self@.found,
    {
        self.found
    }

    /// Scans the entries of `frame` up to the first directory to enter.
    fn scan(&mut self, frame: &mut Frame) -> (enter: Option<String>)
        requires
            old(self).wf(),
            old(self).awaiting is None,
            old(frame).wf(old(self).root@, old(self).ignore.deep_view()),
        ensures
            final(self).wf(),
            final(frame).wf(final(self).root@, final(self).ignore.deep_view()),
            final(self).awaiting is None,
            final(self).root == old(self).root,
            final(self).ignore == old(self).ignore,
            final(self).result_name == old(self).result_name,
            final(self).stack == old(self).stack,
            final(frame).dir == old(frame).dir,
            ({
                let scan = scan_entries(
                    old(frame).view().dir,
                    old(frame).view().rest,
                    old(self)@.ignore,
                    old(self)@.result_name,
                    old(self)@.found,
                );
                &&& final(frame).view().rest == scan.rest
                &&& final(self)@.found == scan.found
                &&& enter.deep_view() == scan.enter
            }),
            enter is Some ==> {
                &&& enter->0@ == descend(final(self).root@, final(self).awaiting_trail@)
                &&& clean(final(self).awaiting_trail@, final(self).ignore.deep_view())
            },
    {
        let ghost goal = scan_entries(
            frame.view().dir,
            frame.view().rest,
            self@.ignore,
            self@.result_name,
            self@.found,
        );
        while frame.next < frame.entries.len()
            invariant
                self.wf(),
                frame.wf(self.root@, self.ignore.deep_view()),
                self.awaiting is None,
                self.root == old(self).root,
                self.ignore == old(self).ignore,
                self.result_name == old(self).result_name,
                self.stack == old(self).stack,
                frame.dir == old(frame).dir,
                frame.entries == old(frame).entries,
                goal == scan_entries(
                    old(frame).view().dir,
                    old(frame).view().rest,
                    old(self)@.ignore,
                    old(self)@.result_name,
                    old(self)@.found,
                ),
                goal == scan_entries(
                    frame.view().dir,
                    frame.view().rest,
                    self@.ignore,
                    self@.result_name,
                    self@.found,
                ),
            decreases frame.entries.len() - frame.next,
        {
            let ghost rest = frame.view().rest;
            let ghost found = self@.found;
            let entry = &frame.entries[frame.next];
            proof {
                assert(rest[0] == entry@);
                assert(rest.drop_first() =~= frame.entries.deep_view().skip(frame.next as int + 1));
            }
            frame.next = frame.next + 1;
            if !contains_text(&self.ignore, &entry.name) {
                let path = join_path(frame.dir.as_str(), entry.name.as_str());
                let ghost trail = frame.trail@.push(entry.name@);
                proof {
                    assert(trail.drop_last() =~= frame.trail@);
                    assert(descend(self.root@, trail) == path@);
                    assert(clean(trail, self.ignore.deep_view()));
                }
                if entry.is_dir {
                    self.awaiting_trail = Ghost(trail);
                    proof {
                        assert(frame.view().rest == rest.drop_first());
                        assert(outcome(frame.dir@, rest[0], self@.ignore, self@.result_name)
                            == Outcome::Enter(path@));
                    }
                    return Some(path);
                }
                if !has_stem(entry.name.as_str(), self.result_name.as_str()) {
                    match SourceFile::try_from(path) {
                        Ok(file) => {
                            self.found.push(file);
                            self.trails = Ghost(self.trails@.push(trail));
                            proof {
                                assert(self@.found =~= found.push(file@));
                            }
                        },
                        Err(_) => {},
                    }
                }
            }
        }
        None
    }

    /// Goes on with the scan until a directory has to be listed or nothing
    /// is left.
    fn settle(&mut self)
        requires
            old(self).wf(),
            old(self).awaiting is None,
        ensures
            final(self).wf(),
            final(self)@ == old(self)@.settle(),
    {
        loop
            invariant_except_break
                self.awaiting is None,
                self@.settle() == old(self)@.settle(),
            invariant
                self.wf(),
            ensures
                self.wf(),
                self@ == old(self)@.settle(),
            decreases self.stack.len(),
        {
            let ghost before = self@;
            let ghost stack = self.stack@;
            match self.stack.pop() {
                None => {
                    break ;
                },
                Some(frame) => {
                    let mut frame = frame;
                    proof {
                        assert(frame == stack[stack.len() - 1]);
                        assert(frame.view() == before.stack.last());
                        assert(self@.stack =~= before.stack.drop_last());
                    }
                    let ghost top = frame.view();
                    match self.scan(&mut frame) {
                        Some(path) => {
                            self.stack.push(frame);
                            self.awaiting = Some(path);
                            proof {
                                assert(self@.stack =~= before.stack.drop_last().push(
                                    FrameView { dir: top.dir, rest: frame.view().rest },
                                ));
                            }
                            break ;
                        },
                        None => {
                            proof {
                                assert(self@.stack =~= before.stack.drop_last());
                            }
                        },
                    }
                },
            }
        }
    }

    /// Takes the listing of the awaited directory, in the order in which
    /// the directory gave its entries; `None` for a directory that could
    /// not be read. Then goes on until the next directory has to be listed
    /// or the walk is over.
    pub fn feed(&mut self, listing: Option<Vec<Entry>>)
        requires
            old(self).wf(),
        ensures
            final(self).wf(),
            final(self)@ == old(self)@.feed(listing.deep_view()),
    {
        let ghost before = self@;
        let dir = match self.awaiting.take() {
            None => {
                assert(self@ == before);
                return ;
            },
            Some(dir) => dir,
        };
        match listing {
            None => {
                proof {
                    assert(self@ == (WalkerView { awaiting: None, ..before }));
                }
            },
            Some(entries) => {
                let frame = Frame { dir, entries, next: 0, trail: Ghost(self.awaiting_trail@) };
                proof {
                    assert(frame.view().rest =~= entries.deep_view());
                }
                self.stack.push(frame);
                proof {
                    assert(self@.stack =~= before.stack.push(
                        FrameView { dir: dir@, rest: entries.deep_view() },
                    ));
                }
            },
        }
        self.settle();
    }
}

} // verus!
