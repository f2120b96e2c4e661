//! Paths as text: segments separated by `/`. The rules here name a project
//! by its directory, place the result file in it, and tell the result file
//! from the sources.

use crate::error::CollectError;
use crate::text::{strip_prefix, to_chars};
use vstd::prelude::*;

verus! {

/// `p` without what a path may end in and still name the same place: `/`
/// and `/.`, any number of times.
pub open spec fn strip_trailing(p: Seq<char>) -> Seq<char>
    decreases p.len(),
{
    if p.len() > 0 && p.last() == '/' {
        strip_trailing(p.drop_last())
    } else if p.len() >= 2 && p.last() == '.' && p[p.len() - 2] == '/' {
        strip_trailing(p.drop_last())
    } else {
        p
    }
}

/// The text that follows the last `/` of `p`; all of `p` where it has none.
pub open spec fn after_last_slash(p: Seq<char>) -> Seq<char>
    decreases p.len(),
{
    if p.len() == 0 || p.last() == '/' {
        Seq::empty()
    } else {
        after_last_slash(p.drop_last()).push(p.last())
    }
}

/// The final segment of a path: the name of the file or directory that it
/// leads to. A path that is empty, is the root, or ends in `.` or `..` after
/// its last `/` has none.
pub open spec fn final_segment(p: Seq<char>) -> Option<Seq<char>> {
    let name = after_last_slash(strip_trailing(p));
    if name.len() == 0 || name == seq!['.'] || name == seq!['.', '.'] {
        None
    } else {
        Some(name)
    }
}

/// The path of the directory that holds what `p` leads to.
pub open spec fn parent(p: Seq<char>) -> Seq<char> {
    let s = strip_trailing(p);
    s.take(s.len() - after_last_slash(s).len())
}

/// The name of the directory that holds what `p` leads to; empty where
/// there is no such name.
pub open spec fn title(p: Seq<char>) -> Seq<char> {
    match final_segment(parent(p)) {
        Some(name) => name,
        None => Seq::empty(),
    }
}

/// The path of the entry `name` of the directory `dir`.
pub open spec fn join(dir: Seq<char>, name: Seq<char>) -> Seq<char> {
    if dir.len() == 0 || dir.last() == '/' {
        dir + name
    } else {
        dir + seq!['/'] + name
    }
}

/// The index of the last `.` in `name`.
pub open spec fn last_dot(name: Seq<char>) -> Option<int>
    decreases name.len(),
{
    if name.len() == 0 {
        None
    } else if name.last() == '.' {
        Some(name.len() - 1)
    } else {
        last_dot(name.drop_last())
    }
}

/// A file name without its extension: the text before its last `.`; all of
/// it where it has none.
pub open spec fn stem(name: Seq<char>) -> Seq<char> {
    match last_dot(name) {
        Some(i) => name.take(i),
        None => name,
    }
}

/// The extension of a file name: the text after its last `.`. A name
/// without a `.` has none, and neither has a name whose only `.` is its
/// first character.
pub open spec fn extension(name: Seq<char>) -> Option<Seq<char>> {
    match last_dot(name) {
        Some(i) => if i > 0 {
            Some(name.skip(i + 1))
        } else {
            None
        },
        None => None,
    }
}

/// The extension of the file that `p` leads to: that of the text after the
/// last `/` of `p`.
pub open spec fn path_extension(p: Seq<char>) -> Option<Seq<char>> {
    extension(after_last_slash(p))
}

/// Where an extension without a `.` is added to a name after a `.`, the
/// name is the stem of what results.
pub proof fn lemma_stem_of_extended(name: Seq<char>, extension: Seq<char>)
    requires
        !extension.contains('.'),
    ensures
        stem(name + seq!['.'] + extension) == name,
    decreases extension.len(),
{
    let whole = name + seq!['.'] + extension;
    if extension.len() == 0 {
        assert(whole.last() == '.');
        assert(whole.take(whole.len() - 1) =~= name);
    } else {
        let shorter = extension.drop_last();
        assert(whole.last() == extension.last());
        assert(extension[extension.len() - 1] != '.');
        assert(whole.drop_last() =~= name + seq!['.'] + shorter);
        assert forall|i: int| 0 <= i < shorter.len() implies shorter[i] != '.' by {
            assert(shorter[i] == extension[i]);
        }
        lemma_stem_of_extended(name, shorter);
        assert(last_dot(whole) == last_dot(whole.drop_last()));
        let inner = name + seq!['.'] + shorter;
        lemma_last_dot(inner);
        assert(inner[name.len() as int] == '.');
        assert(inner.contains('.'));
        let i = last_dot(inner)->0;
        assert(inner.take(i) == name);
        assert(inner.take(i).len() == i);
        assert(whole.take(name.len() as int) =~= name);
    }
}

/// `last_dot` gives the index of a `.`, if the text holds one at all.
pub proof fn lemma_last_dot(s: Seq<char>)
    ensures
        match last_dot(s) {
            Some(i) => 0 <= i < s.len() && s[i] == '.',
            None => !s.contains('.'),
        },
    decreases s.len(),
{
    if s.len() > 0 && s.last() != '.' {
        let init = s.drop_last();
        lemma_last_dot(init);
        match last_dot(init) {
            Some(i) => {
                assert(s[i] == init[i]);
            },
            None => {
                assert forall|j: int| 0 <= j < s.len() implies s[j] != '.' by {
                    if j < init.len() {
                        assert(init[j] == s[j]);
                        assert(init.contains(init[j]));
                    }
                }
            },
        }
    }
}

/// The length of `strip_trailing(v)`, which is a prefix of `v`.
fn stripped_len(v: &Vec<char>) -> (end: usize)
    ensures
        end <= v@.len(),
        v@.take(end as int) == strip_trailing(v@),
{
    let mut end: usize = v.len();
    assert(v@.take(end as int) =~= v@);
    loop
        invariant
            end <= v@.len(),
            strip_trailing(v@.take(end as int)) == strip_trailing(v@),
        ensures
            end <= v@.len(),
            v@.take(end as int) == strip_trailing(v@),
        decreases end,
    {
        let ghost p = v@.take(end as int);
        if end > 0 && v[end - 1] == '/' {
            assert(p.drop_last() =~= v@.take(end as int - 1));
            end = end - 1;
        } else if end >= 2 && v[end - 1] == '.' && v[end - 2] == '/' {
            assert(p.drop_last() =~= v@.take(end as int - 1));
            end = end - 1;
        } else {
            break ;
        }
    }
    end
}

/// Where the text after the last `/` of `v[..end]` begins.
fn name_start(v: &Vec<char>, end: usize) -> (start: usize)
    requires
        end <= v@.len(),
    ensures
        start <= end,
        v@.subrange(start as int, end as int) == after_last_slash(v@.take(end as int)),
{
    let mut start: usize = end;
    let ghost name = after_last_slash(v@.take(end as int));
    proof {
        lemma_after_last_slash_suffix(v@.take(end as int));
    }
    while start > 0 && v[start - 1] != '/'
        invariant
            start <= end <= v@.len(),
            name == after_last_slash(v@.take(end as int)),
            name.len() <= end,
            end - start <= name.len(),
            v@.subrange(end - name.len(), end as int) == name,
            forall|i: int| start <= i < end ==> v@[i] != '/',
        decreases start,
    {
        proof {
            lemma_after_last_slash_covers(v@.take(end as int), start as int - 1);
        }
        start = start - 1;
    }
    proof {
        if end - start < name.len() {
            // the character right before `start` would belong to the name
            lemma_after_last_slash_no_slash(v@.take(end as int));
            assert(name[name.len() - (end - start) - 1] == v@[start as int - 1]);
        }
    }
    start
}

/// The text after the last `/` is the end of the path.
pub proof fn lemma_after_last_slash_suffix(p: Seq<char>)
    ensures
        after_last_slash(p).len() <= p.len(),
        p.subrange(p.len() - after_last_slash(p).len(), p.len() as int) == after_last_slash(p),
    decreases p.len(),
{
    if p.len() == 0 || p.last() == '/' {
        assert(p.subrange(p.len() as int, p.len() as int) =~= Seq::<char>::empty());
    } else {
        let q = p.drop_last();
        lemma_after_last_slash_suffix(q);
        let n = after_last_slash(q);
        assert(p.subrange(p.len() - n.len() - 1, p.len() as int) =~= q.subrange(
            q.len() - n.len(),
            q.len() as int,
        ).push(p.last()));
    }
}

/// The text after the last `/` holds no `/`.
pub proof fn lemma_after_last_slash_no_slash(p: Seq<char>)
    ensures
        forall|i: int| 0 <= i < after_last_slash(p).len() ==> after_last_slash(p)[i] != '/',
    decreases p.len(),
{
    if p.len() == 0 || p.last() == '/' {
    } else {
        lemma_after_last_slash_no_slash(p.drop_last());
        let before = after_last_slash(p.drop_last());
        assert forall|i: int| 0 <= i < after_last_slash(p).len() implies after_last_slash(p)[i]
            != '/' by {
            if i < before.len() {
                assert(after_last_slash(p)[i] == before[i]);
            }
        }
    }
}

/// Where no `/` stands from index `k` on, the text after the last `/`
/// begins at or before `k`.
pub proof fn lemma_after_last_slash_covers(p: Seq<char>, k: int)
    requires
        0 <= k <= p.len(),
        forall|i: int| k <= i < p.len() ==> p[i] != '/',
    ensures
        p.len() - k <= after_last_slash(p).len(),
    decreases p.len(),
{
    if k < p.len() {
        lemma_after_last_slash_covers(p.drop_last(), k);
    }
}

/// Where the extension of the path `v` begins, if it has one.
pub fn extension_start(v: &Vec<char>) -> (r: Option<usize>)
    ensures
        match path_extension(v@) {
            Some(e) => r is Some && r->0 <= v@.len() && v@.subrange(
                r->0 as int,
                v@.len() as int,
            ) == e,
            None => r is None,
        },
{
    let end = v.len();
    assert(v@.take(end as int) =~= v@);
    let start = name_start(v, end);
    let ghost name = v@.subrange(start as int, end as int);
    let mut cut: usize = end;
    let mut dot: bool = false;
    assert(name.take(cut - start) =~= name);
    while cut > start && !dot
        invariant
            start <= cut <= end,
            end == v@.len(),
            name == v@.subrange(start as int, end as int),
            !dot ==> last_dot(name.take(cut - start)) == last_dot(name),
            dot ==> last_dot(name) == Some(cut - start),
            dot ==> cut < end,
        decreases cut + (if dot { 0int } else { 1int }),
    {
        let ghost p = name.take(cut - start);
        assert(p.drop_last() =~= name.take(cut - start - 1));
        assert(p.last() == v@[cut - 1]);
        cut = cut - 1;
        if v[cut] == '.' {
            dot = true;
        }
    }
    if dot && cut > start {
        assert(name.skip(cut - start + 1) =~= v@.subrange(cut as int + 1, end as int));
        Some(cut + 1)
    } else {
        proof {
            if !dot {
                assert(name.take(0) =~= Seq::<char>::empty());
            }
        }
        None
    }
}

/// The name of the project in the directory `path`: its final segment.
pub fn project_name(path: &str) -> (r: Result<String, CollectError>)
    ensures
        match final_segment(path@) {
            Some(name) => r is Ok && r->Ok_0@ == name,
            None => r == Err::<String, CollectError>(CollectError::InvalidProjectPath),
        },
{
    let v = to_chars(path);
    let end = stripped_len(&v);
    let start = name_start(&v, end);
    let ghost name = v@.subrange(start as int, end as int);
    if end == start {
        return Err(CollectError::InvalidProjectPath);
    }
    if end - start == 1 && v[start] == '.' {
        assert(name =~= seq!['.']);
        return Err(CollectError::InvalidProjectPath);
    }
    if end - start == 2 && v[start] == '.' && v[start + 1] == '.' {
        assert(name =~= seq!['.', '.']);
        return Err(CollectError::InvalidProjectPath);
    }
    proof {
        if name == seq!['.'] {
            assert(seq!['.'].len() == 1 && seq!['.'][0] == '.');
        }
        if name == seq!['.', '.'] {
            assert(seq!['.', '.'].len() == 2 && seq!['.', '.'][0] == '.' && seq!['.', '.'][1]
                == '.');
        }
    }
    Ok(path.substring_char(start, end).to_owned())
}

/// The title of the report at `path`: the name of the directory that holds
/// it, or nothing where that directory has no name.
pub fn title_from_path(path: &str) -> (r: String)
    ensures
        r@ == title(path@),
{
    let v = to_chars(path);
    let end = stripped_len(&v);
    let start = name_start(&v, end);
    proof {
        assert(v@.take(end as int).take(start as int) =~= v@.subrange(0, start as int));
    }
    match project_name(path.substring_char(0, start)) {
        Ok(name) => name,
        Err(_) => String::new(),
    }
}

/// The path of the entry `name` of the directory `dir`.
pub fn join_path(dir: &str, name: &str) -> (r: String)
    ensures
        r@ == join(dir@, name@),
{
    let v = to_chars(dir);
    let mut out = dir.to_owned();
    if v.len() > 0 && v[v.len() - 1] != '/' {
        out.push('/');
    }
    out.append(name);
    assert(out@ =~= join(dir@, name@));
    out
}

/// Whether `name`, without its extension, is `base`.
pub fn has_stem(name: &str, base: &str) -> (r: bool)
    ensures
        r == (stem(name@) == base@),
{
    let v = to_chars(name);
    let mut cut: usize = v.len();
    let mut dot: bool = false;
    assert(v@.take(cut as int) =~= v@);
    while cut > 0 && !dot
        invariant
            cut <= v@.len(),
            !dot ==> last_dot(v@.take(cut as int)) == last_dot(v@),
            dot ==> last_dot(v@) == Some(cut as int),
        decreases cut + (if dot { 0int } else { 1int }),
    {
        let ghost p = v@.take(cut as int);
        assert(p.drop_last() =~= v@.take(cut as int - 1));
        cut = cut - 1;
        if v[cut] == '.' {
            dot = true;
        }
    }
    if !dot {
        cut = v.len();
    }
    assert(v@.subrange(0, cut as int) =~= stem(v@));
    match strip_prefix(&v, 0, cut, base) {
        Some(end) => {
            proof {
                if end == cut {
                    assert(stem(v@).subrange(0, base@.len() as int) =~= stem(v@));
                }
            }
            end == cut
        },
        None => {
            proof {
                if stem(v@) == base@ {
                    assert(base@.subrange(0, base@.len() as int) =~= base@);
                }
            }
            false
        },
    }
}

} // verus!
