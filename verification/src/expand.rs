//! Environment variables in configured paths: a path such as
//! `$HOME/projects` is expanded before it is used.

use crate::text::to_chars;
use vstd::prelude::*;

verus! {

/// Whether every `$` of `s` is its last character or stands before an ASCII
/// character. Only such a text is handed to the expansion.
pub open spec fn is_expandable(s: Seq<char>) -> bool {
    forall|i: int|
        0 <= i < s.len() && #[trigger] s[i] == '$' ==> i + 1 == s.len() || (s[i + 1] as u32) < 128
}

/// The text that stands before the first `$` of `s`; all of `s` where it
/// holds none.
pub open spec fn before_variable(s: Seq<char>) -> Seq<char>
    decreases s.len(),
{
    if s.len() == 0 || s[0] == '$' {
        Seq::empty()
    } else {
        seq![s[0]] + before_variable(s.drop_first())
    }
}

/// Calls `shellexpand::env`, which replaces `$VAR` and `${VAR}` in `input`
/// by the values that the process environment holds, and fails where it
/// holds none for a variable: `None` stands for the failure. What comes
/// back depends on the environment; all that is claimed is that an
/// expansion begins with the text that stood before the first `$`, which the
/// function copies before it looks at any variable. The function cuts the
/// text two bytes after a `$` that a letter or digit follows, so a `$` before
/// a character of more than one byte is kept away from it.
#[verifier::external_body]
fn expand_env(input: &str) -> (r: Option<String>)
    requires
        is_expandable(input@),
    ensures
        r is Some ==> before_variable(input@).is_prefix_of(r->0@),
{
    match shellexpand::env(input) {
        Ok(expanded) => Some(expanded.into_owned()),
        Err(_) => None,
    }
}

/// Whether `input` holds a `$`.
pub fn has_variable(input: &str) -> (r: bool)
    ensures
        r == input@.contains('$'),
{
    let v = to_chars(input);
    let mut i: usize = 0;
    while i < v.len()
        invariant
            i <= v.len(),
            v@ == input@,
            forall|j: int| 0 <= j < i ==> v@[j] != '$',
        decreases v.len() - i,
    {
        if v[i] == '$' {
            assert(input@[i as int] == '$');
            return true;
        }
        i = i + 1;
    }
    false
}

/// Whether every `$` of `input` is its last character or stands before an
/// ASCII character.
pub fn can_expand(input: &str) -> (r: bool)
    ensures
        r == is_expandable(input@),
{
    let v = to_chars(input);
    let mut i: usize = 0;
    while i < v.len()
        invariant
            i <= v.len(),
            v@ == input@,
            forall|j: int|
                0 <= j < i && #[trigger] v@[j] == '$' ==> j + 1 == v@.len() || (v@[j + 1] as u32)
                    < 128,
        decreases v.len() - i,
    {
        if v[i] == '$' && i + 1 < v.len() && v[i + 1] as u32 >= 128 {
            assert(input@[i as int] == '$');
            return false;
        }
        i = i + 1;
    }
    true
}

/// What stands for a path after an attempt to expand it: the expansion, or
/// the empty text where the expansion failed.
pub fn expansion_or_empty(outcome: Option<String>) -> (r: String)
    ensures
        r@ == match outcome {
            Some(expanded) => expanded@,
            None => Seq::<char>::empty(),
        },
{
    match outcome {
        Some(expanded) => expanded,
        None => String::new(),
    }
}

/// A text without `$` is all that stands before its first `$`.
pub proof fn lemma_before_variable(s: Seq<char>)
    ensures
        !s.contains('$') ==> before_variable(s) == s,
    decreases s.len(),
{
    if s.len() > 0 && !s.contains('$') {
        assert(s[0] != '$');
        let rest = s.drop_first();
        assert forall|i: int| 0 <= i < rest.len() implies rest[i] != '$' by {
            assert(rest[i] == s[i + 1]);
        }
        lemma_before_variable(rest);
        assert(seq![s[0]] + rest =~= s);
    }
}

/// `input` with its environment variables expanded. A text without `$` is
/// handed back as it is. A text that cannot be expanded becomes empty: one
/// in which a `$` stands before a character that is not ASCII, and one whose
/// expansion fails. An expansion begins with what stood before the first
/// `$`.
pub fn swap_env(input: &str) -> (r: String)
    ensures
        !input@.contains('$') ==> r@ == input@,
        input@.contains('$') && !is_expandable(input@) ==> r@.len() == 0,
        r@.len() == 0 || before_variable(input@).is_prefix_of(r@),
{
    if !has_variable(input) {
        proof {
            lemma_before_variable(input@);
        }
        input.to_owned()
    } else if !can_expand(input) {
        String::new()
    } else {
        expansion_or_empty(expand_env(input))
    }
}

/// The texts of `list` that are not empty, in their order.
pub open spec fn non_empty(list: Seq<Seq<char>>) -> Seq<Seq<char>>
    decreases list.len(),
{
    if list.len() == 0 {
        Seq::empty()
    } else if list.last().len() == 0 {
        non_empty(list.drop_last())
    } else {
        non_empty(list.drop_last()).push(list.last())
    }
}

/// Drops the empty texts from `list`.
pub fn keep_non_empty(list: Vec<String>) -> (kept: Vec<String>)
    ensures
        kept.deep_view() == non_empty(list.deep_view()),
{
    let ghost all = list.deep_view();
    let mut kept: Vec<String> = Vec::new();
    assert(all.take(0) =~= Seq::<Seq<char>>::empty());
    assert(kept.deep_view() =~= Seq::<Seq<char>>::empty());
    for text in it: list
        invariant
            it.seq().len() == all.len(),
            forall|i: int| 0 <= i < all.len() ==> (#[trigger] it.seq()[i])@ == all[i],
            kept.deep_view() == non_empty(all.take(it.index() as int)),
    {
        proof {
            let upto = all.take(it.index() as int + 1);
            assert(upto.drop_last() =~= all.take(it.index() as int));
            assert(upto.last() == text@);
        }
        if text.as_str().unicode_len() > 0 {
            let ghost before = kept.deep_view();
            kept.push(text);
            assert(kept.deep_view() =~= before.push(text@));
        }
    }
    assert(all.take(all.len() as int) =~= all);
    kept
}

/// Whether `expanded` may be what the expansion makes of `path`: the path
/// itself where it holds no `$`; nothing where a `$` of it stands before a
/// character that is not ASCII; and else nothing, or a text that begins
/// with what stands before the first `$` of the path.
pub open spec fn is_expansion_of(path: Seq<char>, expanded: Seq<char>) -> bool {
    &&& !path.contains('$') ==> expanded == path
    &&& path.contains('$') && !is_expandable(path) ==> expanded.len() == 0
    &&& expanded.len() == 0 || before_variable(path).is_prefix_of(expanded)
}

/// Whether `expanded` holds, in the same order, an expansion of each of
/// `paths`.
pub open spec fn are_expansions_of(paths: Seq<Seq<char>>, expanded: Seq<Seq<char>>) -> bool {
    &&& expanded.len() == paths.len()
    &&& forall|i: int| 0 <= i < paths.len() ==> is_expansion_of(paths[i], #[trigger] expanded[i])
}

/// Each of `paths` with its environment variables expanded, in the same
/// order.
pub fn swap_env_all(paths: &Vec<String>) -> (expanded: Vec<String>)
    ensures
        are_expansions_of(paths.deep_view(), expanded.deep_view()),
{
    let mut expanded: Vec<String> = Vec::new();
    let mut i: usize = 0;
    while i < paths.len()
        invariant
            i <= paths.len(),
            expanded@.len() == i,
            forall|j: int|
                0 <= j < i ==> is_expansion_of(paths[j]@, (#[trigger] expanded[j])@),
        decreases paths.len() - i,
    {
        expanded.push(swap_env(paths[i].as_str()));
        i = i + 1;
    }
    assert forall|j: int| 0 <= j < paths.deep_view().len() implies is_expansion_of(
        paths.deep_view()[j],
        #[trigger] expanded.deep_view()[j],
    ) by {
        assert(expanded.deep_view()[j] == expanded[j]@);
    }
    expanded
}

/// The workspaces to run over: the configured paths with their environment
/// variables expanded, without those that came out empty. Where no path
/// holds a `$`, these are the paths that are not empty.
pub fn expand_workspaces(paths: &Vec<String>) -> (workspaces: Vec<String>)
    ensures
        exists|expanded: Seq<Seq<char>>|
            are_expansions_of(paths.deep_view(), expanded) && workspaces.deep_view() == non_empty(
                expanded,
            ),
        forall|i: int| 0 <= i < workspaces@.len() ==> (#[trigger] workspaces[i])@.len() > 0,
        (forall|i: int| 0 <= i < paths@.len() ==> !(#[trigger] paths[i])@.contains('$'))
            ==> workspaces.deep_view() == non_empty(paths.deep_view()),
{
    let expanded = swap_env_all(paths);
    let ghost e = expanded.deep_view();
    proof {
        lemma_non_empty(e);
        if forall|i: int| 0 <= i < paths@.len() ==> !(#[trigger] paths[i])@.contains('$') {
            assert forall|i: int| 0 <= i < e.len() implies e[i] == paths.deep_view()[i] by {
                assert(paths.deep_view()[i] == paths[i]@);
                assert(is_expansion_of(paths.deep_view()[i], e[i]));
            }
            assert(e =~= paths.deep_view());
        }
    }
    let workspaces = keep_non_empty(expanded);
    proof {
        assert(are_expansions_of(paths.deep_view(), e) && workspaces.deep_view() == non_empty(e));
        assert forall|i: int| 0 <= i < workspaces@.len() implies (#[trigger] workspaces[i])@.len()
            > 0 by {
            assert(workspaces.deep_view()[i] == workspaces[i]@);
        }
    }
    workspaces
}

/// None of the texts that `non_empty` keeps is empty.
pub proof fn lemma_non_empty(list: Seq<Seq<char>>)
    ensures
        forall|i: int| 0 <= i < non_empty(list).len() ==> (#[trigger] non_empty(list)[i]).len() > 0,
    decreases list.len(),
{
    if list.len() > 0 {
        lemma_non_empty(list.drop_last());
        let before = non_empty(list.drop_last());
        assert forall|i: int| 0 <= i < non_empty(list).len() implies (#[trigger] non_empty(
            list,
        )[i]).len() > 0 by {
            if i < before.len() {
                assert(non_empty(list)[i] == before[i]);
            }
        }
    }
}

} // verus!
