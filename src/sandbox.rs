use vstd::prelude::*;

use crate::text::{chars_of, same_chars};

verus! {

/// The pieces of `s` between occurrences of `sep`; there is always at least one.
pub open spec fn split_on(s: Seq<char>, sep: char) -> Seq<Seq<char>>
    decreases s.len(),
{
    if s.len() == 0 {
        seq![Seq::<char>::empty()]
    } else {
        let rest = split_on(s.drop_last(), sep);
        if s.last() == sep {
            rest.push(Seq::<char>::empty())
        } else {
            rest.update(rest.len() - 1, rest.last().push(s.last()))
        }
    }
}

pub proof fn lemma_split_nonempty(s: Seq<char>, sep: char)
    ensures
        split_on(s, sep).len() >= 1,
    decreases s.len(),
{
    if s.len() > 0 {
        lemma_split_nonempty(s.drop_last(), sep);
    }
}

pub open spec fn is_parent_segment(seg: Seq<char>) -> bool {
    seg == seq!['.', '.']
}

/// How many `..` segments `segs` holds.
pub open spec fn parent_count(segs: Seq<Seq<char>>) -> nat
    decreases segs.len(),
{
    if segs.len() == 0 {
        0
    } else {
        parent_count(segs.drop_last()) + if is_parent_segment(segs.last()) {
            1nat
        } else {
            0nat
        }
    }
}

pub proof fn lemma_parent_count_bound(segs: Seq<Seq<char>>)
    ensures
        parent_count(segs) <= segs.len(),
    decreases segs.len(),
{
    if segs.len() > 0 {
        lemma_parent_count_bound(segs.drop_last());
    }
}

/// The segments that survive the traversal budget: all of them when the path
/// holds no `..`, else as many leading segments as there are `..` segments.
pub open spec fn kept_prefix(segs: Seq<Seq<char>>) -> Seq<Seq<char>> {
    let n = parent_count(segs);
    if n == 0 {
        segs
    } else {
        segs.take(n as int)
    }
}

/// The prefix is rooted at `""` (absolute) or `"."` (relative to the server root),
/// its second segment is `home` and its third the owner's name.
pub open spec fn prefix_in_home(pre: Seq<Seq<char>>, owner: Seq<char>) -> bool {
    &&& owner.len() > 0
    &&& pre.len() >= 3
    &&& (pre[0] == Seq::<char>::empty() || pre[0] == seq!['.'])
    &&& pre[1] == seq!['h', 'o', 'm', 'e']
    &&& pre[2] == owner
}

/// One step of resolving a path segment by segment from the root: empty and
/// `.` segments stay, `..` leaves the current directory (and escapes the root
/// when there is none), any other segment enters a directory.
pub open spec fn resolve_step(dirs: Seq<Seq<char>>, seg: Seq<char>) -> Option<Seq<Seq<char>>> {
    if seg == Seq::<char>::empty() || seg == seq!['.'] {
        Some(dirs)
    } else if is_parent_segment(seg) {
        if dirs.len() == 0 {
            None
        } else {
            Some(dirs.drop_last())
        }
    } else {
        Some(dirs.push(seg))
    }
}

/// The directories that `segs` lead to from the root, or `None` when a `..`
/// climbs above the root.
pub open spec fn resolve(segs: Seq<Seq<char>>) -> Option<Seq<Seq<char>>>
    decreases segs.len(),
{
    if segs.len() == 0 {
        Some(Seq::empty())
    } else {
        match resolve(segs.drop_last()) {
            Some(dirs) => resolve_step(dirs, segs.last()),
            None => None,
        }
    }
}

/// Whether `segs`, resolved from the root, end inside `home/<owner>`.
pub open spec fn resolves_in_home(segs: Seq<Seq<char>>, owner: Seq<char>) -> bool {
    match resolve(segs) {
        Some(dirs) => dirs.len() >= 2 && dirs[0] == seq!['h', 'o', 'm', 'e'] && dirs[1] == owner,
        None => false,
    }
}

/// Whether `path` is accepted for the home directory of `owner`: its kept
/// prefix names the owner's home, and the whole path, resolved segment by
/// segment, ends inside that home.
pub open spec fn path_accepted(path: Seq<char>, owner: Seq<char>) -> bool {
    &&& prefix_in_home(kept_prefix(split_on(path, '/')), owner)
    &&& resolves_in_home(split_on(path, '/'), owner)
}

/// A logical path that was checked to stay inside its owner's home directory.
pub struct SandboxedPath {
    path: String,
    owner: Ghost<Seq<char>>,
}

impl View for SandboxedPath {
    type V = Seq<char>;

    closed spec fn view(&self) -> Seq<char> {
        self.path@
    }
}

impl SandboxedPath {
    pub closed spec fn owner(&self) -> Seq<char> {
        self.owner@
    }

    pub fn as_str(&self) -> (r: &str)
        ensures
            r@ == self@,
    {
        self.path.as_str()
    }
}

/// Splits `s` on `/` into character vectors.
pub fn split_slash(s: &str) -> (r: Vec<Vec<char>>)
    ensures
        r@.map_values(|v: Vec<char>| v@) == split_on(s@, '/'),
{
    split_chars(s, '/')
}

/// Splits `s` on `sep` into character vectors.
pub fn split_chars(s: &str, sep: char) -> (r: Vec<Vec<char>>)
    ensures
        r@.map_values(|v: Vec<char>| v@) == split_on(s@, sep),
{
    split_vec(&chars_of(s), sep)
}

/// Splits the characters `cs` on `sep`.
pub fn split_vec(cs: &Vec<char>, sep: char) -> (r: Vec<Vec<char>>)
    ensures
        r@.map_values(|v: Vec<char>| v@) == split_on(cs@, sep),
{
    let mut done: Vec<Vec<char>> = Vec::new();
    let mut cur: Vec<char> = Vec::new();
    let mut i: usize = 0;
    while i < cs.len()
        invariant
            i <= cs.len(),
            done@.map_values(|v: Vec<char>| v@).push(cur@) == split_on(cs@.take(i as int), sep),
        decreases cs.len() - i,
    {
        let c = cs[i];
        proof {
            let t = cs@.take(i as int + 1);
            assert(t.drop_last() =~= cs@.take(i as int));
            assert(t.last() == c);
        }
        let ghost before = done@.map_values(|v: Vec<char>| v@);
        if c == sep {
            let finished = cur;
            cur = Vec::new();
            done.push(finished);
            assert(done@.map_values(|v: Vec<char>| v@) =~= before.push(finished@));
            assert(done@.map_values(|v: Vec<char>| v@).push(cur@) =~= before.push(finished@).push(
                Seq::<char>::empty(),
            ));
        } else {
            let ghost old_cur = cur@;
            cur.push(c);
            assert(before.push(cur@) =~= before.push(old_cur).update(before.len() as int, old_cur.push(c)));
        }
        i = i + 1;
    }
    assert(cs@.take(cs.len() as int) =~= cs@);
    let ghost before = done@.map_values(|v: Vec<char>| v@);
    done.push(cur);
    assert(done@.map_values(|v: Vec<char>| v@) =~= before.push(cur@));
    done
}


spec fn seg_views(segs: Seq<Vec<char>>) -> Seq<Seq<char>> {
    segs.map_values(|v: Vec<char>| v@)
}

fn is_parent(seg: &Vec<char>) -> (r: bool)
    ensures
        r == is_parent_segment(seg@),
{
    if seg.len() == 2 && seg[0] == '.' && seg[1] == '.' {
        assert(seg@ =~= seq!['.', '.']);
        true
    } else {
        false
    }
}

fn count_parents(segs: &Vec<Vec<char>>) -> (n: usize)
    ensures
        n == parent_count(seg_views(segs@)),
{
    let mut n: usize = 0;
    let mut i: usize = 0;
    while i < segs.len()
        invariant
            i <= segs.len(),
            n == parent_count(seg_views(segs@).take(i as int)),
            n <= i,
        decreases segs.len() - i,
    {
        proof {
            assert(seg_views(segs@).take(i as int + 1).drop_last() =~= seg_views(segs@).take(i as int));
        }
        if is_parent(&segs[i]) {
            n = n + 1;
        }
        i = i + 1;
    }
    assert(seg_views(segs@).take(segs.len() as int) =~= seg_views(segs@));
    n
}

fn is_root_segment(seg: &Vec<char>) -> (r: bool)
    ensures
        r == (seg@ == Seq::<char>::empty() || seg@ == seq!['.']),
{
    if seg.len() == 0 {
        assert(seg@ =~= Seq::<char>::empty());
        true
    } else if seg.len() == 1 && seg[0] == '.' {
        assert(seg@ =~= seq!['.']);
        true
    } else {
        false
    }
}

fn is_home_segment(seg: &Vec<char>) -> (r: bool)
    ensures
        r == (seg@ == seq!['h', 'o', 'm', 'e']),
{
    if seg.len() == 4 && seg[0] == 'h' && seg[1] == 'o' && seg[2] == 'm' && seg[3] == 'e' {
        assert(seg@ =~= seq!['h', 'o', 'm', 'e']);
        true
    } else {
        false
    }
}

/// Whether the segments of a path, cut to the traversal budget, lead into the
/// home directory of `owner`.
fn segments_in_home(segs: &Vec<Vec<char>>, owner: &Vec<char>) -> (r: bool)
    ensures
        r == prefix_in_home(kept_prefix(seg_views(segs@)), owner@),
{
    let n = count_parents(segs);
    proof {
        lemma_parent_count_bound(seg_views(segs@));
    }
    let kept: usize = if n == 0 {
        segs.len()
    } else {
        n
    };
    let ghost pre = kept_prefix(seg_views(segs@));
    assert(pre.len() == kept);
    if owner.len() == 0 || kept < 3 {
        return false;
    }
    assert(pre[0] == segs@[0]@ && pre[1] == segs@[1]@ && pre[2] == segs@[2]@);
    is_root_segment(&segs[0]) && is_home_segment(&segs[1]) && same_chars(&segs[2], owner)
}

proof fn lemma_resolve_escape_stays(segs: Seq<Seq<char>>, i: int)
    requires
        0 <= i <= segs.len(),
        resolve(segs.take(i)) is None,
    ensures
        resolve(segs) is None,
    decreases segs.len(),
{
    if i == segs.len() {
        assert(segs.take(i) =~= segs);
    } else {
        assert(segs.drop_last().take(i) =~= segs.take(i));
        lemma_resolve_escape_stays(segs.drop_last(), i);
    }
}

/// Whether `segs`, resolved segment by segment from the root, end inside the
/// home directory of `owner`.
fn segments_resolve_in_home(segs: &Vec<Vec<char>>, owner: &Vec<char>) -> (r: bool)
    ensures
        r == resolves_in_home(seg_views(segs@), owner@),
{
    let ghost sv = seg_views(segs@);
    let mut dirs: Vec<Vec<char>> = Vec::new();
    let mut i: usize = 0;
    assert(sv.take(0) =~= Seq::<Seq<char>>::empty());
    while i < segs.len()
        invariant
            i <= segs.len(),
            sv == seg_views(segs@),
            resolve(sv.take(i as int)) == Some(seg_views(dirs@)),
        decreases segs.len() - i,
    {
        let seg = &segs[i];
        assert(sv.take(i + 1).drop_last() =~= sv.take(i as int));
        assert(sv.take(i + 1).last() == seg@);
        let ghost before = seg_views(dirs@);
        assert(resolve(sv.take(i + 1)) == resolve_step(before, seg@));
        if is_root_segment(seg) {
            assert(resolve_step(before, seg@) == Some(before));
        } else if is_parent(seg) {
            if dirs.len() == 0 {
                proof {
                    lemma_resolve_escape_stays(sv, i + 1);
                }
                return false;
            }
            dirs.pop();
            assert(seg_views(dirs@) =~= before.drop_last());
            assert(resolve_step(before, seg@) == Some(before.drop_last()));
        } else {
            let copy = seg.clone();
            assert(copy@ == seg@);
            dirs.push(copy);
            assert(seg_views(dirs@) =~= before.push(seg@));
            assert(resolve_step(before, seg@) == Some(before.push(seg@)));
        }
        i = i + 1;
    }
    assert(sv.take(segs.len() as int) =~= sv);
    if dirs.len() < 2 {
        return false;
    }
    assert(seg_views(dirs@)[0] == dirs@[0]@ && seg_views(dirs@)[1] == dirs@[1]@);
    is_home_segment(&dirs[0]) && same_chars(&dirs[1], owner)
}

/// Checks `raw` against the home directory of `owner` before any use of the
/// filesystem; `None` is a sandbox violation.
pub fn validate(raw: &str, owner: &str) -> (r: Option<SandboxedPath>)
    ensures
        r is Some <==> path_accepted(raw@, owner@),
        r is Some ==> r->0@ == raw@ && r->0.owner() == owner@,
{
    let segs = split_slash(raw);
    let owner_chars = chars_of(owner);
    assert(seg_views(segs@) == split_on(raw@, '/'));
    if segments_in_home(&segs, &owner_chars) && segments_resolve_in_home(&segs, &owner_chars) {
        Some(SandboxedPath { path: raw.to_owned(), owner: Ghost(owner@) })
    } else {
        None
    }
}

/// Whether `path` stays in the home directory named by its own third segment.
pub fn inhome(path: String) -> (r: bool)
    ensures
        r == (split_on(path@, '/').len() >= 3 && path_accepted(
            path@,
            split_on(path@, '/')[2],
        )),
{
    let segs = split_slash(path.as_str());
    assert(seg_views(segs@) == split_on(path@, '/'));
    if segs.len() < 3 {
        return false;
    }
    let owner = segs[2].clone();
    assert(owner@ == split_on(path@, '/')[2]);
    segments_in_home(&segs, &owner) && segments_resolve_in_home(&segs, &owner)
}

/// For a path that, resolved segment by segment, stays inside the owner's home,
/// acceptance is decided by its kept prefix alone: the owner's name must stand
/// there as the third segment, after `home`.
pub proof fn lemma_accepted_by_prefix(path: Seq<char>, owner: Seq<char>)
    requires
        resolves_in_home(split_on(path, '/'), owner),
    ensures
        path_accepted(path, owner) <==> prefix_in_home(kept_prefix(split_on(path, '/')), owner),
{
}

/// An accepted path, resolved segment by segment from the root, ends inside
/// `home/<owner>`.
pub proof fn lemma_accepted_stays_home(path: Seq<char>, owner: Seq<char>)
    requires
        path_accepted(path, owner),
    ensures
        resolve(split_on(path, '/')) is Some,
        resolve(split_on(path, '/'))->0.len() >= 2,
        resolve(split_on(path, '/'))->0[0] == seq!['h', 'o', 'm', 'e'],
        resolve(split_on(path, '/'))->0[1] == owner,
{
}

/// A path whose `..` segments number one or two keeps at most two segments,
/// so it never reaches the owner's segment and is refused.
pub proof fn lemma_traversal_erases_owner(path: Seq<char>, owner: Seq<char>)
    requires
        1 <= parent_count(split_on(path, '/')) <= 2,
    ensures
        !path_accepted(path, owner),
{
    lemma_parent_count_bound(split_on(path, '/'));
}


proof fn lemma_no_parent_segments(segs: Seq<Seq<char>>)
    requires
        parent_count(segs) == 0,
    ensures
        forall|i: int| 0 <= i < segs.len() ==> !is_parent_segment(#[trigger] segs[i]),
    decreases segs.len(),
{
    if segs.len() > 0 {
        lemma_no_parent_segments(segs.drop_last());
        assert forall|i: int| 0 <= i < segs.len() implies !is_parent_segment(#[trigger] segs[i]) by {
            if i < segs.len() - 1 {
                assert(segs[i] == segs.drop_last()[i]);
            }
        }
    }
}

/// `a` is a leading part of `b`.
pub open spec fn is_prefix_of(a: Seq<Seq<char>>, b: Seq<Seq<char>>) -> bool {
    a.len() <= b.len() && forall|i: int| 0 <= i < a.len() ==> #[trigger] a[i] == b[i]
}

proof fn lemma_resolve_grows(segs: Seq<Seq<char>>, j: int)
    requires
        forall|i: int| 0 <= i < segs.len() ==> !is_parent_segment(#[trigger] segs[i]),
        0 <= j <= segs.len(),
    ensures
        resolve(segs) is Some,
        resolve(segs.take(j)) is Some,
        is_prefix_of(resolve(segs.take(j))->0, resolve(segs)->0),
    decreases segs.len(),
{
    if segs.len() == 0 {
        assert(segs.take(j) =~= segs);
    } else {
        let d = segs.drop_last();
        assert forall|i: int| 0 <= i < d.len() implies !is_parent_segment(#[trigger] d[i]) by {
            assert(d[i] == segs[i]);
        }
        let jj = if j == segs.len() { d.len() as int } else { j };
        lemma_resolve_grows(d, jj);
        assert(!is_parent_segment(segs.last()));
        let prev = resolve(d)->0;
        let cur = resolve(segs)->0;
        assert(is_prefix_of(prev, cur));
        if j == segs.len() {
            assert(segs.take(j) =~= segs);
        } else {
            assert(d.take(j) =~= segs.take(j));
        }
    }
}

/// For a path without `..` segments, acceptance is the plain reading: the path
/// starts at the root (`""` or `"."`), then `home`, then the owner's name.
/// (An owner called `.` names no home directory and is left out.)
pub proof fn lemma_accepted_without_traversal(path: Seq<char>, owner: Seq<char>)
    requires
        parent_count(split_on(path, '/')) == 0,
        owner != seq!['.'],
    ensures
        path_accepted(path, owner) <==> prefix_in_home(split_on(path, '/'), owner),
{
    let segs = split_on(path, '/');
    if prefix_in_home(segs, owner) {
        lemma_no_parent_segments(segs);
        lemma_resolve_grows(segs, 3);
        assert(segs.take(3).drop_last() =~= segs.take(2));
        assert(segs.take(2).drop_last() =~= segs.take(1));
        assert(segs.take(1).drop_last() =~= segs.take(0));
        assert(resolve(segs.take(0)) == Some(Seq::<Seq<char>>::empty()));
        assert(resolve(segs.take(1)) == Some(Seq::<Seq<char>>::empty()));
        assert(seq!['h', 'o', 'm', 'e'] != Seq::<char>::empty()) by {
            assert(seq!['h', 'o', 'm', 'e'].len() == 4);
        }
        assert(seq!['h', 'o', 'm', 'e'] != seq!['.']) by {
            assert(seq!['h', 'o', 'm', 'e'].len() == 4);
        }
        assert(!is_parent_segment(segs[1]));
        assert(!is_parent_segment(segs[2]));
        assert(owner != Seq::<char>::empty()) by {
            assert(owner.len() > 0);
        }
        assert(resolve(segs.take(2)) == Some(seq![seq!['h', 'o', 'm', 'e']]));
        assert(resolve(segs.take(3)) == Some(seq![seq!['h', 'o', 'm', 'e'], owner]));
        let full = resolve(segs)->0;
        assert(full[0] == seq!['h', 'o', 'm', 'e'] && full[1] == owner) by {
            let p = resolve(segs.take(3))->0;
            assert(p[0] == full[0]);
            assert(p[1] == full[1]);
        }
    }
}

} // verus!
