//! Merging of continuation lines: a comment without a marker that stands on
//! the line right after an accepted one belongs to the same entry.

use crate::comment::{Comment, CommentLine, CommentLineView, CommentView};
use crate::text::contains_text;
use vstd::prelude::*;

verus! {

/// How far the merging of one file's comment lines has come: the entries so
/// far, and the number of the last line that went into one of them.
pub struct Merged {
    pub entries: Seq<CommentLineView>,
    pub last_line: int,
}

/// The state after one more comment line. A marked line opens an entry. An
/// unmarked line goes into the last entry if there is one and the line
/// follows the last accepted line directly; otherwise it is dropped.
pub open spec fn merge_step(state: Merged, line: CommentLineView) -> Merged {
    if line.marker is Some {
        Merged { entries: state.entries.push(line), last_line: line.comment.line_num as int }
    } else if state.entries.len() > 0 && line.comment.line_num == state.last_line + 1 {
        Merged {
            entries: state.entries.update(
                state.entries.len() - 1,
                state.entries.last().extended(line.comment.content),
            ),
            last_line: line.comment.line_num as int,
        }
    } else {
        state
    }
}

/// The state after all of `lines`, taken in order.
pub open spec fn merge(lines: Seq<CommentLineView>) -> Merged
    decreases lines.len(),
{
    if lines.len() == 0 {
        Merged { entries: Seq::empty(), last_line: 0 }
    } else {
        merge_step(merge(lines.drop_last()), lines.last())
    }
}

/// The entries that one file's comment lines make.
pub open spec fn aggregate(lines: Seq<CommentLineView>) -> Seq<CommentLineView> {
    merge(lines).entries
}

/// The comments of those entries whose marker is one of `markers`.
pub open spec fn accepted(entries: Seq<CommentLineView>, markers: Seq<Seq<char>>) -> Seq<CommentView>
    decreases entries.len(),
{
    if entries.len() == 0 {
        Seq::empty()
    } else {
        let before = accepted(entries.drop_last(), markers);
        let entry = entries.last();
        if entry.marker is Some && markers.contains(entry.marker->0) {
            before.push(entry.comment)
        } else {
            before
        }
    }
}

/// A marked line always opens an entry of its own, whatever came before.
pub proof fn lemma_marked_line_opens_entry(before: Seq<CommentLineView>, line: CommentLineView)
    requires
        line.marker is Some,
    ensures
        aggregate(before.push(line)) == aggregate(before).push(line),
{
    assert(before.push(line).drop_last() =~= before);
}

/// The continuation law. Let a marked line stand at some line number and
/// let an unmarked comment line come next in the file's comment lines. If
/// its line number is the next one, its text goes into the entry of the
/// marked line, after one space. If it is any other, the line is dropped
/// and the entry stays as it was.
pub proof fn lemma_continuation(
    before: Seq<CommentLineView>,
    marked: CommentLineView,
    unmarked: CommentLineView,
)
    requires
        marked.marker is Some,
        unmarked.marker is None,
    ensures
        unmarked.comment.line_num == marked.comment.line_num + 1 ==> aggregate(
            before.push(marked).push(unmarked),
        ) == aggregate(before).push(marked.extended(unmarked.comment.content)),
        unmarked.comment.line_num != marked.comment.line_num + 1 ==> aggregate(
            before.push(marked).push(unmarked),
        ) == aggregate(before).push(marked),
{
    let one = before.push(marked);
    let two = one.push(unmarked);
    assert(one.drop_last() =~= before);
    assert(two.drop_last() =~= one);
    let entries = aggregate(before).push(marked);
    assert(merge(one).entries == entries);
    assert(merge(one).last_line == marked.comment.line_num);
    if unmarked.comment.line_num == marked.comment.line_num + 1 {
        assert(entries.update(entries.len() - 1, entries.last().extended(unmarked.comment.content))
            =~= aggregate(before).push(marked.extended(unmarked.comment.content)));
    }
}

/// Every entry began with a marked line: merging keeps the marker, the
/// source and the line number of the line that opened the entry.
pub proof fn lemma_entries_are_marked(lines: Seq<CommentLineView>)
    ensures
        forall|k: int|
            0 <= k < aggregate(lines).len() ==> (#[trigger] aggregate(lines)[k]).marker is Some,
        aggregate(lines).len() <= lines.len(),
    decreases lines.len(),
{
    if lines.len() > 0 {
        lemma_entries_are_marked(lines.drop_last());
        let before = merge(lines.drop_last());
        assert forall|k: int| 0 <= k < aggregate(lines).len() implies (#[trigger] aggregate(
            lines,
        )[k]).marker is Some by {
            if k < before.entries.len() {
                let e = before.entries[k];
                assert(e.marker is Some);
            }
        }
    }
}

/// Every comment that is kept comes from an entry whose marker is one of
/// the configured markers.
pub proof fn lemma_accepted_are_configured(entries: Seq<CommentLineView>, markers: Seq<Seq<char>>)
    ensures
        forall|k: int|
            0 <= k < accepted(entries, markers).len() ==> exists|j: int|
                0 <= j < entries.len() && (#[trigger] entries[j]).comment == (#[trigger] accepted(
                    entries,
                    markers,
                )[k]) && entries[j].marker is Some && markers.contains(entries[j].marker->0),
    decreases entries.len(),
{
    if entries.len() > 0 {
        let init = entries.drop_last();
        lemma_accepted_are_configured(init, markers);
        let before = accepted(init, markers);
        assert forall|k: int| 0 <= k < accepted(entries, markers).len() implies exists|j: int|
            0 <= j < entries.len() && (#[trigger] entries[j]).comment == (#[trigger] accepted(
                entries,
                markers,
            )[k]) && entries[j].marker is Some && markers.contains(entries[j].marker->0) by {
            if k < before.len() {
                let j = choose|j: int|
                    0 <= j < init.len() && (#[trigger] init[j]).comment == before[k]
                        && init[j].marker is Some && markers.contains(init[j].marker->0);
                assert(entries[j] == init[j]);
                assert(accepted(entries, markers)[k] == before[k]);
            } else {
                assert(entries[entries.len() - 1] == entries.last());
            }
        }
    }
}

/// Merges the comment lines of one file, given in line order, into entries.
pub fn aggregate_lines(lines: Vec<CommentLine>) -> (entries: Vec<CommentLine>)
    ensures
        entries.deep_view() == aggregate(lines.deep_view()),
{
    let ghost all = lines.deep_view();
    let mut entries: Vec<CommentLine> = Vec::new();
    let mut last_line: u32 = 0;
    assert(all.take(0) =~= Seq::<CommentLineView>::empty());
    assert(entries.deep_view() =~= Seq::<CommentLineView>::empty());
    for line in it: lines
        invariant
            it.seq().len() == all.len(),
            forall|i: int| 0 <= i < all.len() ==> (#[trigger] it.seq()[i])@ == all[i],
            merge(all.take(it.index() as int)) == (Merged {
                entries: entries.deep_view(),
                last_line: last_line as int,
            }),
    {
        proof {
            let upto = all.take(it.index() as int + 1);
            assert(upto.drop_last() =~= all.take(it.index() as int));
            assert(upto.last() == line@);
        }
        let ghost before = entries.deep_view();
        let line_num = line.comment().line_num();
        if line.is_marked() {
            entries.push(line);
            last_line = line_num;
            assert(entries.deep_view() =~= before.push(line@));
        } else if entries.len() > 0 && line_num > 0 && line_num - 1 == last_line {
            let last = entries.len() - 1;
            entries[last].content_append(line.comment().content());
            last_line = line_num;
            assert(entries.deep_view() =~= before.update(
                last as int,
                before[last as int].extended(line@.comment.content),
            ));
        }
    }
    assert(all.take(all.len() as int) =~= all);
    entries
}

/// Keeps the comments of those entries whose marker is one of `markers`.
pub fn accept_entries(entries: Vec<CommentLine>, markers: &Vec<String>) -> (kept: Vec<Comment>)
    ensures
        kept.deep_view() == accepted(entries.deep_view(), markers.deep_view()),
{
    let ghost all = entries.deep_view();
    let mut kept: Vec<Comment> = Vec::new();
    assert(all.take(0) =~= Seq::<CommentLineView>::empty());
    assert(kept.deep_view() =~= Seq::<CommentView>::empty());
    for entry in it: entries
        invariant
            it.seq().len() == all.len(),
            forall|i: int| 0 <= i < all.len() ==> (#[trigger] it.seq()[i])@ == all[i],
            kept.deep_view() == accepted(all.take(it.index() as int), markers.deep_view()),
    {
        proof {
            let upto = all.take(it.index() as int + 1);
            assert(upto.drop_last() =~= all.take(it.index() as int));
            assert(upto.last() == entry@);
        }
        let ghost before = kept.deep_view();
        let keep = match &entry.marker_text() {
            Some(marker) => contains_text(markers, marker),
            None => false,
        };
        if keep {
            let comment = entry.into_comment();
            kept.push(comment);
            assert(kept.deep_view() =~= before.push(comment@));
        }
    }
    assert(all.take(all.len() as int) =~= all);
    kept
}

} // verus!
