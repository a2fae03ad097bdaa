//! Paths as texts, with slashes between the names.

use vstd::prelude::*;
use crate::text::{
    chars_of, find_char, find_char_bounds, find_char_is, join, same_text, split, split_on, text_of,
    text_opt, texts,
};

verus! {

/// The names along a path, without empty ones and without `.`.
pub open spec fn path_parts(path: Seq<char>) -> Seq<Seq<char>> {
    split_on(path, '/').filter(|p: Seq<char>| p.len() > 0 && p != "."@)
}

/// What is left of `path` behind `root`; `None` where it does not lie beneath it.
pub open spec fn beneath(path: Seq<Seq<char>>, root: Seq<Seq<char>>) -> Option<Seq<Seq<char>>> {
    if root.len() <= path.len() && path.take(root.len() as int) == root {
        Some(path.skip(root.len() as int))
    } else {
        None
    }
}

/// Whether a path starts at the root.
pub open spec fn is_absolute(path: Seq<char>) -> bool {
    path.len() > 0 && path[0] == '/'
}

/// Whether a path is another one, or leads on from it.
pub open spec fn lies_within(path: Seq<char>, root: Seq<char>) -> bool {
    is_absolute(path) == is_absolute(root) && beneath(path_parts(path), path_parts(root)) is Some
}

/// The names along a path.
pub fn parts_of(path: &str) -> (out: Vec<String>)
    ensures
        texts(out@) == path_parts(path@),
{
    let all = split(path, '/');
    let ghost names = texts(all@);
    let ghost keep = |p: Seq<char>| p.len() > 0 && p != "."@;
    let mut parts: Vec<String> = Vec::new();
    let mut i: usize = 0;
    proof {
        reveal(Seq::filter);
        assert(names.take(0).filter(keep) =~= Seq::<Seq<char>>::empty());
        assert(texts(parts@) =~= Seq::<Seq<char>>::empty());
    }
    while i < all.len()
        invariant
            i <= all@.len(),
            names == texts(all@),
            keep == (|p: Seq<char>| p.len() > 0 && p != "."@),
            texts(parts@) == names.take(i as int).filter(keep),
        decreases all@.len() - i,
    {
        let ghost before = parts@;
        proof {
            reveal(Seq::filter);
            assert(names[i as int] == all@[i as int]@);
            assert(names.take(i + 1).drop_last() =~= names.take(i as int));
            assert(names.take(i + 1).last() == names[i as int]);
        }
        if !all[i].as_str().is_empty() && !same_text(&all[i], ".") {
            parts.push(all[i].clone());
            assert(texts(parts@) =~= texts(before).push(names[i as int]));
        }
        i = i + 1;
    }
    assert(names.take(i as int) =~= names);
    parts
}

/// Whether a path starts at the root.
pub fn starts_at_root(path: &str) -> (out: bool)
    ensures
        out == is_absolute(path@),
{
    let chars = chars_of(path);
    chars.len() > 0 && chars[0] == '/'
}

/// Whether a path is another one, or leads on from it.
pub fn is_within(path: &str, root: &str) -> (out: bool)
    ensures
        out == lies_within(path@, root@),
{
    let inner = parts_of(path);
    let outer = parts_of(root);
    let ghost a = texts(inner@);
    let ghost b = texts(outer@);
    assert(a.len() == inner@.len() && b.len() == outer@.len());
    if starts_at_root(path) != starts_at_root(root) || outer.len() > inner.len() {
        return false;
    }
    let mut i: usize = 0;
    while i < outer.len()
        invariant
            i <= outer@.len() <= inner@.len(),
            a == texts(inner@),
            b == texts(outer@),
            a == path_parts(path@),
            b == path_parts(root@),
            forall|j: int| 0 <= j < i ==> a[j] == b[j],
        decreases outer@.len() - i,
    {
        if !same_text(&inner[i], &outer[i]) {
            proof {
                assert(a[i as int] != b[i as int]);
                assert(a.take(b.len() as int)[i as int] == a[i as int]);
            }
            return false;
        }
        i = i + 1;
    }
    assert(a.take(b.len() as int) =~= b);
    true
}

/// A path that leads on from another: an absolute one stands for itself.
pub open spec fn path_join(dir: Seq<char>, path: Seq<char>) -> Seq<char> {
    if is_absolute(path) || dir.len() == 0 {
        path
    } else if dir.last() == '/' {
        dir + path
    } else {
        dir + "/"@ + path
    }
}

/// A path that leads on from another.
pub fn join_paths(dir: &str, path: &str) -> (out: String)
    ensures
        out@ == path_join(dir@, path@),
{
    let chars = chars_of(dir);
    if starts_at_root(path) || chars.len() == 0 {
        return path.to_owned();
    }
    if chars[chars.len() - 1] == '/' {
        join(dir, path)
    } else {
        let start = join(dir, "/");
        join(&start, path)
    }
}

/// How much of a path comes before its names: the root, or the `.` that the path starts with.
pub open spec fn lead_of(path: Seq<char>) -> int {
    if path.len() > 0 && path[0] == '/' {
        1
    } else if path.len() > 0 && path[0] == '.' && (path.len() == 1 || path[1] == '/') {
        1
    } else {
        0
    }
}

/// Where the last name of a path begins.
pub open spec fn last_start(path: Seq<char>, lead: int) -> int
    decreases path.len(),
{
    if path.len() == 0 || path.len() <= lead || path.last() == '/' {
        path.len() as int
    } else {
        last_start(path.drop_last(), lead)
    }
}

/// A path without its last name and the slash before it.
pub open spec fn shortened(path: Seq<char>, lead: int) -> Seq<char> {
    let start = last_start(path, lead);
    path.take(
        if start > lead {
            start - 1
        } else {
            start
        },
    )
}

/// The last name of a path.
pub open spec fn last_name(path: Seq<char>, lead: int) -> Seq<char> {
    path.skip(last_start(path, lead))
}

proof fn last_start_bounds(path: Seq<char>, lead: int)
    requires
        0 <= lead <= path.len(),
    ensures
        lead <= last_start(path, lead) <= path.len(),
    decreases path.len(),
{
    if path.len() > lead && path.last() != '/' {
        last_start_bounds(path.drop_last(), lead);
    }
}

proof fn last_start_shrinks(path: Seq<char>, lead: int)
    requires
        0 <= lead < path.len(),
    ensures
        shortened(path, lead).len() < path.len(),
        lead <= shortened(path, lead).len(),
{
    last_start_bounds(path, lead);
    if path.last() != '/' {
        last_start_bounds(path.drop_last(), lead);
    }
}

/// A path without what names nothing at its end: slashes, and `.`.
pub open spec fn without_idle_end(path: Seq<char>, lead: int) -> Seq<char>
    decreases path.len(),
    via idle_end_shrinks
{
    if 0 <= lead < path.len() && (last_name(path, lead).len() == 0 || last_name(path, lead) == "."@) {
        without_idle_end(shortened(path, lead), lead)
    } else {
        path
    }
}

#[via_fn]
proof fn idle_end_shrinks(path: Seq<char>, lead: int) {
    if 0 <= lead < path.len() {
        last_start_shrinks(path, lead);
    }
}

/// The directory that a path stands in: the path without its last name. The root has none, and
/// neither has an empty path.
pub open spec fn parent_of(path: Seq<char>) -> Option<Seq<char>> {
    let lead = lead_of(path);
    let named = without_idle_end(path, lead);
    if named.len() > lead {
        Some(without_idle_end(shortened(named, lead), lead))
    } else if lead == 1 && path[0] == '.' {
        Some(Seq::empty())
    } else {
        None
    }
}

fn start_of_last(chars: &Vec<char>, end: usize, lead: usize) -> (out: usize)
    requires
        lead <= end <= chars@.len(),
    ensures
        out == last_start(chars@.take(end as int), lead as int),
        lead <= out <= end,
{
    let mut at: usize = end;
    let ghost whole = chars@.take(end as int);
    while at > lead && chars[at - 1] != '/'
        invariant
            lead <= at <= end <= chars@.len(),
            last_start(whole, lead as int) == last_start(chars@.take(at as int), lead as int),
        decreases at,
    {
        assert(chars@.take(at as int).drop_last() =~= chars@.take(at - 1));
        at = at - 1;
    }
    at
}

fn cut(chars: &Vec<char>, end: usize, lead: usize) -> (out: usize)
    requires
        lead < end <= chars@.len(),
    ensures
        lead <= out < end,
        chars@.take(out as int) == shortened(chars@.take(end as int), lead as int),
{
    let start = start_of_last(chars, end, lead);
    proof {
        last_start_shrinks(chars@.take(end as int), lead as int);
    }
    let out: usize = if start > lead {
        start - 1
    } else {
        start
    };
    assert(chars@.take(end as int).take(out as int) =~= chars@.take(out as int));
    out
}

fn cut_idle(chars: &Vec<char>, from: usize, lead: usize) -> (out: usize)
    requires
        lead <= from <= chars@.len(),
    ensures
        lead <= out <= from,
        chars@.take(out as int) == without_idle_end(chars@.take(from as int), lead as int),
{
    let mut end: usize = from;
    proof {
        reveal_strlit(".");
    }
    while end > lead
        invariant
            lead <= end <= from <= chars@.len(),
            without_idle_end(chars@.take(from as int), lead as int) == without_idle_end(
                chars@.take(end as int),
                lead as int,
            ),
            "."@ == seq!['.'],
        decreases end,
    {
        let start = start_of_last(chars, end, lead);
        let ghost name = last_name(chars@.take(end as int), lead as int);
        assert(name =~= chars@.subrange(start as int, end as int));
        let idle = start == end || (end - start == 1 && chars[start] == '.');
        proof {
            if idle && start < end {
                assert(name =~= "."@);
            }
            if !idle && name == "."@ {
                assert(name[0] == chars@[start as int]);
            }
        }
        if !idle {
            return end;
        }
        end = cut(chars, end, lead);
    }
    end
}

/// The directory that a path stands in.
pub fn parent_path(path: &str) -> (out: Option<String>)
    ensures
        text_opt(out) == parent_of(path@),
{
    let chars = chars_of(path);
    let count = chars.len();
    let lead: usize = if count > 0 && chars[0] == '/' {
        1
    } else if count > 0 && chars[0] == '.' && (count == 1 || chars[1] == '/') {
        1
    } else {
        0
    };
    assert(chars@.take(count as int) =~= path@);
    let end = cut_idle(&chars, count, lead);
    if end > lead {
        let shorter = cut(&chars, end, lead);
        let last = cut_idle(&chars, shorter, lead);
        assert(chars@.subrange(0, last as int) =~= chars@.take(last as int));
        Some(text_of(&chars, 0, last))
    } else if lead == 1 && chars[0] == '.' {
        let none = String::new();
        assert(none@ =~= Seq::<char>::empty());
        Some(none)
    } else {
        None
    }
}

/// Whether two paths lead along the same names.
pub open spec fn is_same_path(a: Seq<char>, b: Seq<char>) -> bool {
    is_absolute(a) == is_absolute(b) && path_parts(a) == path_parts(b)
}

/// Whether two paths lead along the same names.
pub fn same_path(a: &str, b: &str) -> (out: bool)
    ensures
        out == is_same_path(a@, b@),
{
    let there = is_within(a, b);
    let back = is_within(b, a);
    proof {
        let left = path_parts(a@);
        let right = path_parts(b@);
        if there && back {
            assert(left.take(right.len() as int) =~= left);
        }
        if left == right {
            assert(left.take(right.len() as int) =~= right);
        }
    }
    there && back
}

/// The fields of two texts with a separator between them are those of the first and of the second.
pub proof fn split_of_joined(a: Seq<char>, b: Seq<char>, sep: char)
    ensures
        split_on(a.push(sep) + b, sep) == split_on(a, sep) + split_on(b, sep),
    decreases a.len(),
{
    let whole = a.push(sep) + b;
    find_char_bounds(a, sep);
    find_char_bounds(whole, sep);
    let i = find_char(a, sep);
    if i >= a.len() {
        assert forall|j: int| 0 <= j < a.len() implies #[trigger] whole[j] != sep by {
            assert(whole[j] == a[j]);
            no_char_before(a, sep, j);
        }
        assert(whole[a.len() as int] == sep);
        find_char_is(whole, sep, a.len() as int);
        assert(whole.take(a.len() as int) =~= a);
        assert(whole.skip(a.len() as int + 1) =~= b);
    } else {
        assert forall|j: int| 0 <= j < i implies #[trigger] whole[j] != sep by {
            assert(whole[j] == a[j]);
            no_char_before(a, sep, j);
        }
        assert(whole[i] == a[i]);
        find_char_is(whole, sep, i);
        assert(whole.take(i) =~= a.take(i));
        let rest = a.skip(i + 1);
        assert(whole.skip(i + 1) =~= rest.push(sep) + b);
        split_of_joined(rest, b, sep);
        assert(seq![a.take(i)] + (split_on(rest, sep) + split_on(b, sep)) =~= (seq![a.take(i)]
            + split_on(rest, sep)) + split_on(b, sep));
    }
}

proof fn no_char_before(s: Seq<char>, c: char, j: int)
    requires
        0 <= j < s.len(),
        j < find_char(s, c),
    ensures
        s[j] != c,
    decreases s.len(),
{
    if j > 0 {
        no_char_before(s.drop_first(), c, j - 1);
    }
}

/// A plain name leads one step on from a directory.
pub proof fn plain_name_leads_on(dir: Seq<char>, name: Seq<char>)
    requires
        name.len() > 0,
        !name.contains('/'),
        name != "."@,
    ensures
        path_parts(path_join(dir, name)) == path_parts(dir).push(name),
        is_absolute(path_join(dir, name)) == is_absolute(dir),
{
    let keep = |p: Seq<char>| p.len() > 0 && p != "."@;
    assert(!is_absolute(name)) by {
        if name[0] == '/' {
            assert(name.contains('/'));
        }
    }
    find_char_bounds(name, '/');
    assert(split_on(name, '/') == seq![name]) by {
        if find_char(name, '/') < name.len() {
            assert(name.contains(name[find_char(name, '/')]));
        }
    }
    assert(seq![name].filter(keep) =~= seq![name]) by {
        reveal(Seq::filter);
        assert(seq![name].drop_last() =~= Seq::<Seq<char>>::empty());
        assert(Seq::<Seq<char>>::empty().filter(keep) =~= Seq::<Seq<char>>::empty());
        assert(seq![name].filter(keep) =~= Seq::<Seq<char>>::empty().push(name));
    }
    reveal_strlit("/");
    if dir.len() == 0 {
        assert(dir =~= Seq::<char>::empty());
        find_char_bounds(dir, '/');
        assert(split_on(dir, '/') =~= seq![dir]);
        assert(path_parts(dir) =~= Seq::<Seq<char>>::empty()) by {
            reveal(Seq::filter);
            assert(seq![dir].drop_last() =~= Seq::<Seq<char>>::empty());
            assert(Seq::<Seq<char>>::empty().filter(keep) =~= Seq::<Seq<char>>::empty());
        }
        assert(path_parts(dir).push(name) =~= seq![name]);
    } else {
        let before = if dir.last() == '/' {
            dir.drop_last()
        } else {
            dir
        };
        let whole = path_join(dir, name);
        assert(whole =~= before.push('/') + name);
        split_of_joined(before, name, '/');
        Seq::filter_distributes_over_add(split_on(before, '/'), seq![name], keep);
        assert(path_parts(whole) =~= path_parts(before).push(name));
        if dir.last() == '/' {
            let none = Seq::<char>::empty();
            assert(dir =~= before.push('/') + none);
            split_of_joined(before, none, '/');
            find_char_bounds(none, '/');
            assert(split_on(none, '/') =~= seq![none]);
            Seq::filter_distributes_over_add(split_on(before, '/'), seq![none], keep);
            assert(seq![none].filter(keep) =~= Seq::<Seq<char>>::empty()) by {
                reveal(Seq::filter);
                assert(seq![none].drop_last() =~= Seq::<Seq<char>>::empty());
                assert(Seq::<Seq<char>>::empty().filter(keep) =~= Seq::<Seq<char>>::empty());
            }
            assert(path_parts(dir) =~= path_parts(before));
        }
        assert(whole[0] == dir[0]);
    }
}

/// What a plain name leads to from a directory lies where the directory lies.
pub proof fn plain_name_stays_within(root: Seq<char>, dir: Seq<char>, name: Seq<char>)
    requires
        lies_within(dir, root),
        name.len() > 0,
        !name.contains('/'),
        name != "."@,
    ensures
        lies_within(path_join(dir, name), root),
{
    plain_name_leads_on(dir, name);
    let parts = path_parts(dir);
    let outer = path_parts(root);
    assert(parts.push(name).take(outer.len() as int) =~= parts.take(outer.len() as int));
}

proof fn last_start_after_name(dir: Seq<char>, name: Seq<char>, lead: int)
    requires
        !name.contains('/'),
        lead <= dir.len() + 1,
    ensures
        last_start(dir + "/"@ + name, lead) == dir.len() + 1,
    decreases name.len(),
{
    reveal_strlit("/");
    let all = dir + "/"@ + name;
    if name.len() > 0 {
        assert(all.last() == name.last());
        assert(name.contains(name.last()));
        assert(all.drop_last() =~= dir + "/"@ + name.drop_last());
        assert(!name.drop_last().contains('/')) by {
            if name.drop_last().contains('/') {
                let i = choose|i: int|
                    0 <= i < name.drop_last().len() && name.drop_last()[i] == '/';
                assert(name[i] == '/');
            }
        }
        last_start_after_name(dir, name.drop_last(), lead);
    } else {
        assert(all.last() == '/');
    }
}

proof fn last_start_is_after_a_slash(path: Seq<char>, lead: int)
    requires
        0 <= lead <= path.len(),
    ensures
        lead <= last_start(path, lead) <= path.len(),
        last_start(path, lead) > lead ==> path[last_start(path, lead) - 1] == '/',
    decreases path.len(),
{
    if path.len() > lead && path.last() != '/' {
        last_start_is_after_a_slash(path.drop_last(), lead);
    }
}

/// The directory of a name in a directory is that directory.
pub proof fn name_stands_in_its_directory(dir: Seq<char>, name: Seq<char>)
    requires
        dir.len() > 0,
        dir.last() != '/',
        dir.last() == '.' && dir.len() > 1 ==> dir[dir.len() - 2] != '/',
        name.len() > 0,
        !name.contains('/'),
        name != "."@,
    ensures
        parent_of(dir + "/"@ + name) == Some(dir),
        parent_of("/"@ + name) == Some("/"@),
        parent_of(name) == Some(Seq::<char>::empty()),
        parent_of("/"@) is None,
        parent_of(Seq::empty()) is None,
{
    reveal_strlit("/");
    reveal_strlit(".");
    let path = dir + "/"@ + name;
    let lead = lead_of(path);
    assert(path[0] == dir[0]);
    assert(path[1] == if dir.len() == 1 { '/' } else { dir[1] });
    last_start_after_name(dir, name, lead);
    assert(last_name(path, lead) =~= name);
    assert(without_idle_end(path, lead) == path);
    assert(shortened(path, lead) =~= dir);
    if dir.len() > lead {
        last_start_is_after_a_slash(dir, lead);
        let last = last_name(dir, lead);
        let start = last_start(dir, lead);
        if start == dir.len() {
            assert(false);
        }
        assert(last.len() > 0);
        if last == "."@ {
            assert(last[0] == '.');
            assert(start == dir.len() - 1);
            assert(dir.last() == '.');
            if start > lead {
                assert(false);
            } else {
                if lead == 0 {
                    assert(dir.len() == 1);
                    assert(path[0] == '.');
                    assert(lead_of(path) == 1);
                    assert(false);
                } else {
                    assert(dir.len() == 2);
                    assert(dir[0] == '/' || dir[0] == '.');
                    assert(dir[1] == '.');
                    assert(false);
                }
            }
        }
        assert(without_idle_end(dir, lead) == dir);
    }
    let none = Seq::<char>::empty();
    let top = "/"@ + name;
    assert(top =~= none + "/"@ + name);
    last_start_after_name(none, name, 1);
    assert(last_name(top, 1) =~= name);
    assert(lead_of(top) == 1);
    assert(without_idle_end(top, 1) == top);
    assert(shortened(top, 1) =~= "/"@);
    assert(without_idle_end("/"@, 1) == "/"@);
    plain_name_is_last(name);
}

proof fn plain_name_is_last(name: Seq<char>)
    requires
        name.len() > 0,
        !name.contains('/'),
        name != "."@,
    ensures
        parent_of(name) == Some(Seq::<char>::empty()),
{
    reveal_strlit(".");
    assert(name.contains(name[0]));
    if name.len() > 1 {
        assert(name.contains(name[1]));
    } else {
        assert(name =~= seq![name[0]]);
        assert("."@ =~= seq!['.']);
    }
    assert(lead_of(name) == 0);
    last_start_is_after_a_slash(name, 0);
    let start = last_start(name, 0);
    if start > 0 {
        assert(name.contains(name[start - 1]));
    }
    assert(last_name(name, 0) =~= name);
    assert(without_idle_end(name, 0) == name);
    assert(shortened(name, 0) =~= Seq::<char>::empty());
    assert(without_idle_end(Seq::<char>::empty(), 0) == Seq::<char>::empty());
}

/// The names of a path are those between its slashes, without empty ones and without dots.
pub proof fn names_of_a_path(path: Seq<char>, i: int)
    requires
        0 <= i < path_parts(path).len(),
    ensures
        path_parts(path)[i].len() > 0,
        path_parts(path)[i] != "."@,
        split_on(path, '/').contains(path_parts(path)[i]),
{
    let keep = |p: Seq<char>| p.len() > 0 && p != "."@;
    broadcast use {Seq::lemma_filter_pred, Seq::lemma_filter_contains_rev};

    let parts = split_on(path, '/').filter(keep);
    assert(keep(parts[i]));
    assert(parts.contains(parts[i]));
}

/// A path lies within its own directories and within no other: what lies within begins with all of the
/// names of that directory, and is absolute where that is.
pub proof fn within_means_beneath(path: Seq<char>, root: Seq<char>)
    ensures
        lies_within(path, path),
        lies_within(path, root) ==> path_parts(root).len() <= path_parts(path).len(),
        lies_within(path, root) ==> forall|i: int|
            0 <= i < path_parts(root).len() ==> #[trigger] path_parts(path)[i] == path_parts(
                root,
            )[i],
        lies_within(path, root) ==> ((path.len() > 0 && path[0] == '/') <==> (root.len() > 0
            && root[0] == '/')),
        is_same_path(path, root) <==> lies_within(path, root) && lies_within(root, path),
{
    let a = path_parts(path);
    let b = path_parts(root);
    assert(a.take(a.len() as int) =~= a);
    assert(b.take(b.len() as int) =~= b);
    if lies_within(path, root) {
        assert forall|i: int| 0 <= i < b.len() implies #[trigger] a[i] == b[i] by {
            assert(a.take(b.len() as int)[i] == a[i]);
        }
    }
}

/// A path that begins at the root stands for itself wherever it is taken from.
pub proof fn absolute_paths_stand_alone(dir: Seq<char>, path: Seq<char>)
    ensures
        path.len() > 0 && path[0] == '/' ==> path_join(dir, path) == path,
        path.len() == 0 || path[0] != '/' ==> dir.len() > 0 && dir.last() != '/' ==> path_join(
            dir,
            path,
        ) == dir + "/"@ + path,
{
}

}
