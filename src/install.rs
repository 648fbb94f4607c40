//! Installing and removing bundles: which bundles a run covers, and which of
//! their actions the planner walks, under which operation.

use crate::config::{find_bundle, Bundle, BundleItem, Config};
use crate::diag::names_view;
use crate::file_ops::{CopyOp, CopyOpResult, Decision, LinkOp, LinkOpResult, PathState, RemoveOp, RemoveOpResult};
use crate::planner::{Planner, Source};
use crate::text::str_eq;
use vstd::prelude::*;

verus! {

/// The operation applied to the entries of one registered root.
#[derive(Clone, Copy, Debug, PartialEq, Eq)]
pub enum Op {
    Copy,
    Link,
    Remove,
}

/// The roots that one item registers when installing (`up`) or removing:
/// a copy or a link registers its source and destination, other items
/// nothing; on removal every registered root is removed.
pub open spec fn item_root(item: BundleItem, up: bool) -> Option<(Seq<char>, Seq<char>, Op)> {
    match item {
        BundleItem::Copy { source, target, .. } => Some((source@, target@, if up { Op::Copy } else { Op::Remove })),
        BundleItem::Link { source, target, .. } => Some((source@, target@, if up { Op::Link } else { Op::Remove })),
        _ => None,
    }
}

/// The roots registered for the items of bundle `b`, in order, each tagged
/// with the bundle's index.
pub open spec fn bundle_roots(items: Seq<BundleItem>, b: int, up: bool) -> Seq<(Seq<char>, Seq<char>, (int, Op))>
    decreases items.len(),
{
    if items.len() == 0 {
        Seq::empty()
    } else {
        bundle_roots(items.drop_last(), b, up) + match item_root(items.last(), up) {
            Some((s, t, op)) => seq![(s, t, (b, op))],
            None => Seq::empty(),
        }
    }
}

/// The roots registered for the selected bundles, in order.
pub open spec fn selection_roots(bundles: Seq<Bundle>, sel: Seq<usize>, up: bool) -> Seq<(Seq<char>, Seq<char>, (int, Op))>
    decreases sel.len(),
{
    if sel.len() == 0 {
        Seq::empty()
    } else {
        selection_roots(bundles, sel.drop_last(), up) + if sel.last() < bundles.len() {
            bundle_roots(bundles[sel.last() as int].items@, sel.last() as int, up)
        } else {
            Seq::empty()
        }
    }
}

/// `s` with every repeated element after its first occurrence left out.
pub open spec fn first_occurrences(s: Seq<Seq<char>>) -> Seq<Seq<char>>
    decreases s.len(),
{
    if s.len() == 0 {
        Seq::empty()
    } else if first_occurrences(s.drop_last()).contains(s.last()) {
        first_occurrences(s.drop_last())
    } else {
        first_occurrences(s.drop_last()).push(s.last())
    }
}

/// What to do with one visited entry.
#[derive(Clone, Debug, PartialEq, Eq)]
pub enum EntryDecision {
    /// Nothing: a directory is never removed on its own.
    Skip,
    Copy(Decision<CopyOpResult>),
    Link(Decision<LinkOpResult>),
    Remove(Decision<RemoveOpResult>),
}

/// The decision for an entry of a root registered with `op`, `is_dir`
/// telling whether it is a directory and `dst` what its destination is. A
/// destination exists when it is a file or a directory; one that cannot be
/// read counts as missing.
pub fn decide_entry(cp: &CopyOp, ln: &LinkOp, rm: &RemoveOp, op: Op, is_dir: bool, dst: &PathState) -> (r: EntryDecision)
    ensures
        r == match op {
            Op::Copy => EntryDecision::Copy(cp.decision(is_dir, dst_exists(*dst))),
            Op::Link => EntryDecision::Link(ln.decision(is_dir, dst_exists(*dst))),
            Op::Remove => if is_dir {
                EntryDecision::Skip
            } else {
                EntryDecision::Remove(rm.decision(*dst))
            },
        },
{
    let exists = match dst {
        PathState::Dir | PathState::File => true,
        _ => false,
    };
    match op {
        Op::Copy => EntryDecision::Copy(cp.decide(is_dir, exists)),
        Op::Link => EntryDecision::Link(ln.decide(is_dir, exists)),
        Op::Remove => if is_dir {
            EntryDecision::Skip
        } else {
            EntryDecision::Remove(rm.decide(dst))
        },
    }
}

/// Whether a destination in state `s` exists.
pub open spec fn dst_exists(s: PathState) -> bool {
    s is Dir || s is File
}

/// The registered roots of a planner as (source, destination, data).
pub open spec fn planner_roots(sources: Seq<Source<(usize, Op)>>) -> Seq<(Seq<char>, Seq<char>, (int, Op))> {
    sources.map_values(|s: Source<(usize, Op)>| (s.path@, s.target@, (s.data.0 as int, s.data.1)))
}

impl Config {
    /// The bundles a run covers: all, in order, where `names` is empty, else
    /// the bundle of each name in turn, a repeated name counted once. A name
    /// without a bundle is returned as the error.
    pub fn selected_bundles(&self, names: &Vec<String>) -> (r: Result<Vec<usize>, String>)
        ensures
            match r {
                Ok(sel) => if names@.len() == 0 {
                    sel@.len() == self.bundles@.len() && forall|i: int| 0 <= i < sel@.len() ==> #[trigger] sel@[i] == i
                } else {
                    sel@.len() == first_occurrences(names_view(names@)).len() && forall|i: int|
                        0 <= i < sel@.len() ==> sel@[i] < self.bundles@.len() && self.bundles@[#[trigger] sel@[i] as int].name@
                            == first_occurrences(names_view(names@))[i]
                },
                Err(missing) => exists|i: int|
                    0 <= i < names@.len() && names@[i]@ == missing@ && forall|j: int|
                        0 <= j < self.bundles@.len() ==> (#[trigger] self.bundles@[j]).name@ != missing@,
            },
    {
        let mut sel: Vec<usize> = Vec::new();
        if names.len() == 0 {
            let mut i: usize = 0;
            while i < self.bundles.len()
                invariant
                    i <= self.bundles@.len(),
                    sel@.len() == i,
                    forall|j: int| 0 <= j < i ==> #[trigger] sel@[j] == j,
                decreases self.bundles@.len() - i,
            {
                sel.push(i);
                i += 1;
            }
            return Ok(sel);
        }
        let ghost nv = names_view(names@);
        let mut k: usize = 0;
        while k < names.len()
            invariant
                k <= names@.len(),
                names@.len() > 0,
                nv == names_view(names@),
                sel@.len() == first_occurrences(nv.subrange(0, k as int)).len(),
                forall|i: int|
                    0 <= i < sel@.len() ==> sel@[i] < self.bundles@.len() && self.bundles@[#[trigger] sel@[i] as int].name@
                        == first_occurrences(nv.subrange(0, k as int))[i],
            decreases names@.len() - k,
        {
            let ghost pre = first_occurrences(nv.subrange(0, k as int));
            proof {
                let nxt = nv.subrange(0, k + 1);
                assert(nxt.drop_last() =~= nv.subrange(0, k as int));
                assert(nxt.last() == names@[k as int]@);
            }
            let mut seen = false;
            let mut j: usize = 0;
            while j < sel.len()
                invariant
                    j <= sel@.len(),
                    k < names@.len(),
                    sel@.len() == pre.len(),
                    forall|i: int|
                        0 <= i < sel@.len() ==> sel@[i] < self.bundles@.len() && self.bundles@[#[trigger] sel@[i] as int].name@
                            == pre[i],
                    seen == exists|i: int| 0 <= i < j && pre[i] == names@[k as int]@,
                decreases sel@.len() - j,
            {
                if str_eq(self.bundles[sel[j]].name.as_str(), names[k].as_str()) {
                    seen = true;
                }
                j += 1;
            }
            assert(seen == pre.contains(names@[k as int]@));
            if !seen {
                match find_bundle(&self.bundles, names[k].as_str()) {
                    Some(b) => {
                        let ghost old_sel = sel@;
                        sel.push(b);
                        assert forall|i: int| 0 <= i < sel@.len() implies sel@[i] < self.bundles@.len()
                            && self.bundles@[#[trigger] sel@[i] as int].name@ == first_occurrences(nv.subrange(0, k + 1))[i] by {
                            if i < old_sel.len() {
                                assert(sel@[i] == old_sel[i]);
                            }
                        }
                    },
                    None => return Err(names[k].clone()),
                }
            }
            k += 1;
        }
        assert(nv.subrange(0, names@.len() as int) =~= nv);
        Ok(sel)
    }

    /// A planner holding the roots of the selected bundles' copies and links,
    /// in order, each tagged with its bundle and its operation.
    pub fn planner_for(&self, sel: &Vec<usize>, up: bool) -> (r: Planner<(usize, Op)>)
        ensures
            r.wf(),
            r.current == 0,
            planner_roots(r.sources@) == selection_roots(self.bundles@, sel@, up),
    {
        let mut p: Planner<(usize, Op)> = Planner::new();
        let mut k: usize = 0;
        assert(planner_roots(p.sources@) =~= selection_roots(self.bundles@, sel@.subrange(0, 0), up));
        while k < sel.len()
            invariant
                k <= sel@.len(),
                p.wf(),
                p.current == 0,
                planner_roots(p.sources@) == selection_roots(self.bundles@, sel@.subrange(0, k as int), up),
            decreases sel@.len() - k,
        {
            let b = sel[k];
            proof {
                let sub = sel@.subrange(0, k + 1);
                assert(sub.drop_last() =~= sel@.subrange(0, k as int));
                assert(sub.last() == b);
            }
            if b < self.bundles.len() {
                let items = &self.bundles[b].items;
                let ghost base = planner_roots(p.sources@);
                let mut j: usize = 0;
                assert(base + bundle_roots(items@.subrange(0, 0), b as int, up) =~= base);
                while j < items.len()
                    invariant
                        j <= items@.len(),
                        p.wf(),
                        p.current == 0,
                        planner_roots(p.sources@) == base + bundle_roots(items@.subrange(0, j as int), b as int, up),
                    decreases items@.len() - j,
                {
                    let ghost before = p.sources@;
                    proof {
                        let sub = items@.subrange(0, j + 1);
                        assert(sub.drop_last() =~= items@.subrange(0, j as int));
                        assert(sub.last() == items@[j as int]);
                    }
                    match &items[j] {
                        BundleItem::Copy { source, target, .. } => {
                            let op = if up { Op::Copy } else { Op::Remove };
                            p.add(source.clone(), target.clone(), (b, op));
                            assert(p.sources@ =~= before.push(p.sources@.last()));
                            assert(planner_roots(p.sources@) =~= planner_roots(before).push(
                                (source@, target@, (b as int, op)),
                            ));
                        },
                        BundleItem::Link { source, target, .. } => {
                            let op = if up { Op::Link } else { Op::Remove };
                            p.add(source.clone(), target.clone(), (b, op));
                            assert(p.sources@ =~= before.push(p.sources@.last()));
                            assert(planner_roots(p.sources@) =~= planner_roots(before).push(
                                (source@, target@, (b as int, op)),
                            ));
                        },
                        _ => {
                            assert(bundle_roots(items@.subrange(0, j + 1), b as int, up) =~= bundle_roots(
                                items@.subrange(0, j as int),
                                b as int,
                                up,
                            ) + Seq::empty());
                        },
                    }
                    j += 1;
                }
                assert(items@.subrange(0, items@.len() as int) =~= items@);
            } else {
                assert(planner_roots(p.sources@) =~= planner_roots(p.sources@) + Seq::empty());
            }
            k += 1;
        }
        assert(sel@.subrange(0, sel@.len() as int) =~= sel@);
        p
    }
}

} // verus!
