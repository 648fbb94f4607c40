//! The planner that walks several registered source roots as one sequence and
//! gives each visited entry its destination under the root it belongs to.

use crate::text::{chars_of, push_char, push_range, push_str, str_eq};
use vstd::prelude::*;

verus! {

/// A registered source root, the destination root it maps to, and the data
/// that travels with each of its entries.
#[derive(Debug)]
pub struct Source<T> {
    pub path: String,
    pub target: String,
    pub data: T,
}

/// `path` relative to `root`, component-wise: `root` itself gives the empty
/// path, `root/rest` gives `rest`, anything else nothing.
pub open spec fn strip_root(path: Seq<char>, root: Seq<char>) -> Option<Seq<char>> {
    if path == root {
        Some(Seq::empty())
    } else if root.len() > 0 && root.last() == '/' && path.len() > root.len()
        && path.subrange(0, root.len() as int) == root {
        Some(path.subrange(root.len() as int, path.len() as int))
    } else if path.len() > root.len() + 1 && path.subrange(0, root.len() as int) == root
        && path[root.len() as int] == '/' {
        Some(path.subrange(root.len() as int + 1, path.len() as int))
    } else {
        None
    }
}

/// `base` joined with `rel`; the empty `rel` gives `base` itself.
pub open spec fn join_path(base: Seq<char>, rel: Seq<char>) -> Seq<char> {
    if rel.len() == 0 {
        base
    } else if base.len() > 0 && base.last() == '/' {
        base + rel
    } else {
        base.push('/') + rel
    }
}

fn starts_with_at(p: &Vec<char>, r: &Vec<char>) -> (b: bool)
    ensures
        b == (p@.len() >= r@.len() && p@.subrange(0, r@.len() as int) == r@),
{
    if p.len() < r.len() {
        return false;
    }
    let mut k: usize = 0;
    while k < r.len()
        invariant
            p@.len() >= r@.len(),
            k <= r@.len(),
            forall|j: int| 0 <= j < k ==> p@[j] == r@[j],
        decreases r@.len() - k,
    {
        if p[k] != r[k] {
            assert(p@.subrange(0, r@.len() as int)[k as int] != r@[k as int]);
            return false;
        }
        k += 1;
    }
    assert(p@.subrange(0, r@.len() as int) =~= r@);
    true
}

/// The path of `path` relative to `root`, as `strip_root` gives it.
pub fn strip_root_exec(path: &str, root: &str) -> (r: Option<String>)
    ensures
        match strip_root(path@, root@) {
            None => r is None,
            Some(rel) => r matches Some(x) && x@ == rel,
        },
{
    let p = chars_of(path);
    let q = chars_of(root);
    let pre = starts_with_at(&p, &q);
    assert(p@ == q@ ==> p@.subrange(0, q@.len() as int) =~= q@);
    if pre && p.len() == q.len() {
        assert(p@ =~= q@) by {
            assert(p@.subrange(0, q@.len() as int) =~= p@);
        }
        return Some(String::new());
    }
    if pre && p.len() > q.len() && q.len() > 0 && q[q.len() - 1] == '/' {
        let mut s = String::new();
        push_range(&mut s, &p, q.len(), p.len());
        assert(s@ =~= p@.subrange(q@.len() as int, p@.len() as int));
        return Some(s);
    }
    if pre && p.len() > q.len() + 1 && p[q.len()] == '/' {
        let mut s = String::new();
        push_range(&mut s, &p, q.len() + 1, p.len());
        assert(s@ =~= p@.subrange(q@.len() as int + 1, p@.len() as int));
        return Some(s);
    }
    None
}

/// `base` joined with `rel`, as `join_path` gives it.
pub fn join_path_exec(base: &str, rel: &str) -> (r: String)
    ensures
        r@ == join_path(base@, rel@),
{
    let b = chars_of(base);
    let rl = chars_of(rel);
    let mut s = String::new();
    push_str(&mut s, base);
    if rl.len() == 0 {
        return s;
    }
    if !(b.len() > 0 && b[b.len() - 1] == '/') {
        push_char(&mut s, '/');
    }
    push_str(&mut s, rel);
    s
}

/// Each source as (source root, destination root).
pub open spec fn roots_view<T>(sources: Seq<Source<T>>) -> Seq<(Seq<char>, Seq<char>)> {
    sources.map_values(|s: Source<T>| (s.path@, s.target@))
}

/// Registered roots in order, with the index one past the root being walked.
#[derive(Debug)]
pub struct Planner<T> {
    pub sources: Vec<Source<T>>,
    pub current: usize,
}

impl<T> Planner<T> {
    pub open spec fn wf(&self) -> bool {
        self.current <= self.sources@.len()
    }

    pub fn new() -> (r: Planner<T>)
        ensures
            r.wf(),
            r.sources@.len() == 0,
            r.current == 0,
    {
        Planner { sources: Vec::new(), current: 0 }
    }

    /// Registers a source root after those already registered.
    pub fn add(&mut self, src: String, target: String, data: T)
        requires
            old(self).wf(),
        ensures
            final(self).wf(),
            final(self).current == old(self).current,
            final(self).sources@.len() == old(self).sources@.len() + 1,
            forall|i: int| 0 <= i < old(self).sources@.len() ==> final(self).sources@[i] == old(self).sources@[i],
            final(self).sources@.last().path@ == src@,
            final(self).sources@.last().target@ == target@,
            final(self).sources@.last().data == data,
    {
        self.sources.push(Source { path: src, target, data });
    }

    /// The root that a visit at `depth` falls in: a visit at depth 0 starts
    /// the next root, while there is one.
    pub open spec fn next_current(&self, depth: usize) -> usize {
        if depth == 0 && self.current < self.sources@.len() {
            (self.current + 1) as usize
        } else {
            self.current
        }
    }

    /// The root index and destination of the entry at `path`, visited at
    /// `depth`; nothing where no root was entered yet or `path` does not lie
    /// under the current root.
    pub fn dest_for(&mut self, path: &str, depth: usize) -> (r: Option<(usize, String)>)
        requires
            old(self).wf(),
        ensures
            final(self).wf(),
            final(self).sources == old(self).sources,
            final(self).current == old(self).next_current(depth),
            plan_step(roots_view(old(self).sources@), old(self).current as int, depth as int, path@) == (
                final(self).current as int,
                match r {
                    None => None,
                    Some(x) => Some((x.0 as int, x.1@)),
                },
            ),
            ({
                let c = final(self).current as int;
                if c == 0 {
                    r is None
                } else {
                    let src = final(self).sources@[c - 1];
                    match strip_root(path@, src.path@) {
                        None => r is None,
                        Some(rel) => r matches Some(x) && x.0 == c - 1 && x.1@ == join_path(src.target@, rel),
                    }
                }
            }),
    {
        if depth == 0 && self.current < self.sources.len() {
            self.current = self.current + 1;
        }
        if self.current == 0 {
            return None;
        }
        let idx = self.current - 1;
        let src = &self.sources[idx];
        match strip_root_exec(path, src.path.as_str()) {
            None => None,
            Some(rel) => Some((idx, join_path_exec(src.target.as_str(), rel.as_str()))),
        }
    }
}

/// What the planner gives one visit at `depth` of `path` when the root being
/// walked is `cur` (one past its index): the next root index, and the
/// visit's root and destination.
pub open spec fn plan_step(roots: Seq<(Seq<char>, Seq<char>)>, cur: int, depth: int, path: Seq<char>) -> (
    int,
    Option<(int, Seq<char>)>,
) {
    let c = if depth == 0 && cur < roots.len() {
        cur + 1
    } else {
        cur
    };
    (c, if c <= 0 {
        None
    } else {
        match strip_root(path, roots[c - 1].0) {
            None => None,
            Some(rel) => Some((c - 1, join_path(roots[c - 1].1, rel))),
        }
    })
}

/// What the planner gives each visit of a walk from visit `j` on, starting
/// with root `cur`. Each root is given as (source root, destination root).
pub open spec fn plan_walk(
    roots: Seq<(Seq<char>, Seq<char>)>,
    cur: int,
    visits: Seq<(int, Seq<char>)>,
    j: int,
) -> Seq<Option<(int, Seq<char>)>>
    decreases visits.len() - j,
{
    if j < 0 || j >= visits.len() {
        Seq::empty()
    } else {
        let (c, out) = plan_step(roots, cur, visits[j].0, visits[j].1);
        seq![out] + plan_walk(roots, c, visits, j + 1)
    }
}

/// Whether `visits` walks the roots one after another in registration order:
/// visit `i` belongs to root `owner[i]` at relative path `rels[i]`, a root's
/// first visit is its top (depth 0) and every later visit lies deeper.
pub open spec fn walks_roots_in_order(
    roots: Seq<(Seq<char>, Seq<char>)>,
    visits: Seq<(int, Seq<char>)>,
    owner: Seq<int>,
    rels: Seq<Seq<char>>,
) -> bool {
    &&& owner.len() == visits.len() && rels.len() == visits.len()
    &&& visits.len() > 0 ==> owner[0] == 0
    &&& forall|i: int| 0 <= i < visits.len() ==> 0 <= #[trigger] owner[i] < roots.len()
    &&& forall|i: int|
        0 < i < visits.len() ==> (#[trigger] owner[i] == owner[i - 1] || owner[i] == owner[i - 1] + 1)
    &&& forall|i: int|
        0 <= i < visits.len() ==> ((#[trigger] visits[i]).0 == 0 <==> (i == 0 || owner[i] != owner[i - 1]))
    &&& forall|i: int| 0 <= i < visits.len() ==> (#[trigger] visits[i]).0 >= 0
    &&& forall|i: int|
        0 <= i < visits.len() ==> strip_root((#[trigger] visits[i]).1, roots[owner[i]].0) == Some(rels[i])
}

/// One walk over several roots, visited one after another in the order they
/// were registered, gives every entry the root it belongs to and the
/// destination `destination-of-that-root / relative-path`.
pub proof fn lemma_walk_destinations(
    roots: Seq<(Seq<char>, Seq<char>)>,
    visits: Seq<(int, Seq<char>)>,
    owner: Seq<int>,
    rels: Seq<Seq<char>>,
)
    requires
        walks_roots_in_order(roots, visits, owner, rels),
    ensures
        plan_walk(roots, 0, visits, 0).len() == visits.len(),
        forall|i: int|
            0 <= i < visits.len() ==> #[trigger] plan_walk(roots, 0, visits, 0)[i] == Some(
                (owner[i], join_path(roots[owner[i]].1, rels[i])),
            ),
{
    lemma_walk_from(roots, visits, owner, rels, 0, 0);
    assert forall|i: int| 0 <= i < visits.len() implies #[trigger] plan_walk(roots, 0, visits, 0)[i] == Some(
        (owner[i], join_path(roots[owner[i]].1, rels[i])),
    ) by {
        assert(plan_walk(roots, 0, visits, 0)[i - 0] == Some((owner[i], join_path(roots[owner[i]].1, rels[i]))));
    }
}

proof fn lemma_walk_from(
    roots: Seq<(Seq<char>, Seq<char>)>,
    visits: Seq<(int, Seq<char>)>,
    owner: Seq<int>,
    rels: Seq<Seq<char>>,
    j: int,
    cur: int,
)
    requires
        walks_roots_in_order(roots, visits, owner, rels),
        0 <= j <= visits.len(),
        cur == if j == 0 {
            0
        } else {
            owner[j - 1] + 1
        },
    ensures
        plan_walk(roots, cur, visits, j).len() == visits.len() - j,
        forall|i: int|
            j <= i < visits.len() ==> #[trigger] plan_walk(roots, cur, visits, j)[i - j] == Some(
                (owner[i], join_path(roots[owner[i]].1, rels[i])),
            ),
    decreases visits.len() - j,
{
    if j < visits.len() {
        let (c, out) = plan_step(roots, cur, visits[j].0, visits[j].1);
        assert(c == owner[j] + 1) by {
            if j > 0 {
                assert(owner[j] == owner[j - 1] || owner[j] == owner[j - 1] + 1);
            }
        }
        lemma_walk_from(roots, visits, owner, rels, j + 1, c);
        let rest = plan_walk(roots, c, visits, j + 1);
        assert(plan_walk(roots, cur, visits, j) == seq![out] + rest);
        assert forall|i: int| j <= i < visits.len() implies #[trigger] plan_walk(roots, cur, visits, j)[i - j] == Some(
            (owner[i], join_path(roots[owner[i]].1, rels[i])),
        ) by {
            if i > j {
                assert(plan_walk(roots, cur, visits, j)[i - j] == rest[i - (j + 1)]);
            }
        }
    }
}

/// The name `cur` as a component: none where it is empty, or where it is
/// `.` after the start of the path (`started`).
pub open spec fn name_component(cur: Seq<char>, started: bool) -> Seq<Seq<char>> {
    if cur.len() == 0 || (started && cur == "."@) {
        Seq::empty()
    } else {
        seq![cur]
    }
}

/// The names of `s` from position `i` on, `cur` being the name read so far
/// and `started` whether the path already has a component before it.
pub open spec fn names_from(s: Seq<char>, i: int, cur: Seq<char>, started: bool) -> Seq<Seq<char>>
    decreases s.len() - i,
{
    if i < 0 || i >= s.len() {
        name_component(cur, started)
    } else if s[i] == '/' {
        name_component(cur, started) + names_from(s, i + 1, Seq::empty(), started || cur.len() > 0)
    } else {
        names_from(s, i + 1, cur.push(s[i]), started)
    }
}

/// The components of a path: the root `/` of an absolute path, then its
/// names; a `.` counts only as the first component of a relative path.
pub open spec fn components(s: Seq<char>) -> Seq<Seq<char>> {
    let abs = s.len() > 0 && s[0] == '/';
    (if abs {
        seq![seq!['/']]
    } else {
        Seq::empty()
    }) + names_from(s, 0, Seq::empty(), abs)
}

/// The components joined back into a path.
pub open spec fn join_all(cs: Seq<Seq<char>>) -> Seq<char>
    decreases cs.len(),
{
    if cs.len() == 0 {
        Seq::empty()
    } else if cs.len() == 1 {
        cs[0]
    } else {
        join_path(join_all(cs.drop_last()), cs.last())
    }
}

fn push_name(r: &mut Vec<String>, cur: String, started: bool)
    ensures
        final(r)@.map_values(|c: String| c@) == old(r)@.map_values(|c: String| c@) + name_component(cur@, started),
{
    let ghost before = r@.map_values(|c: String| c@);
    if cur.as_str().is_empty() || (started && str_eq(cur.as_str(), ".")) {
        assert(before + Seq::<Seq<char>>::empty() =~= before);
    } else {
        let ghost c = cur@;
        r.push(cur);
        assert(r@.map_values(|c: String| c@) =~= before + seq![c]);
    }
}

fn components_exec(path: &str) -> (r: Vec<String>)
    ensures
        r@.map_values(|c: String| c@) == components(path@),
{
    let s = chars_of(path);
    let mut r: Vec<String> = Vec::new();
    let ghost empty = Seq::<char>::empty();
    let abs = s.len() > 0 && s[0] == '/';
    if abs {
        let mut root = String::new();
        push_char(&mut root, '/');
        r.push(root);
    }
    let ghost head = r@.map_values(|c: String| c@);
    assert(head =~= (if abs {
        seq![seq!['/']]
    } else {
        Seq::<Seq<char>>::empty()
    }));
    let mut cur = String::new();
    let mut started = abs;
    let mut i: usize = 0;
    while i < s.len()
        invariant
            s@ == path@,
            i <= s@.len(),
            head + names_from(s@, 0, empty, abs) == r@.map_values(|c: String| c@) + names_from(
                s@,
                i as int,
                cur@,
                started,
            ),
        decreases s@.len() - i,
    {
        if s[i] == '/' {
            let ghost before = r@.map_values(|c: String| c@);
            let ghost c = cur@;
            let ghost st = started;
            let next_started = started || !cur.as_str().is_empty();
            push_name(&mut r, cur, started);
            assert(before + (name_component(c, st) + names_from(s@, i + 1, empty, next_started)) =~= (before
                + name_component(c, st)) + names_from(s@, i + 1, empty, next_started));
            cur = String::new();
            started = next_started;
        } else {
            push_char(&mut cur, s[i]);
        }
        i += 1;
    }
    push_name(&mut r, cur, started);
    r
}

/// The last `size` components of `path` joined into a path; nothing where
/// `size` is zero or the path has fewer components.
pub fn path_tail(path: &str, size: usize) -> (r: Option<String>)
    ensures
        ({
            let cs = components(path@);
            if size == 0 || cs.len() < size {
                r is None
            } else {
                r matches Some(t) && t@ == join_all(cs.subrange(cs.len() - size, cs.len() as int))
            }
        }),
{
    let cs = components_exec(path);
    let ghost view = cs@.map_values(|c: String| c@);
    if size == 0 || cs.len() < size {
        return None;
    }
    let start = cs.len() - size;
    let mut t = String::new();
    push_str(&mut t, cs[start].as_str());
    let mut k = start + 1;
    assert(view.subrange(start as int, start + 1) =~= seq![view[start as int]]);
    while k < cs.len()
        invariant
            start < k <= cs@.len(),
            view == cs@.map_values(|c: String| c@),
            t@ == join_all(view.subrange(start as int, k as int)),
        decreases cs@.len() - k,
    {
        let joined = join_path_exec(t.as_str(), cs[k].as_str());
        proof {
            let sub = view.subrange(start as int, k + 1);
            assert(sub.drop_last() =~= view.subrange(start as int, k as int));
            assert(sub.last() == view[k as int]);
        }
        t = joined;
        k += 1;
    }
    Some(t)
}

} // verus!
