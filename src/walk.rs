//! Discovery of the manifests that a root manifest includes, and the
//! reduction of the discovered list to the last occurrence of each path.
use std::collections::VecDeque;
use vstd::prelude::*;
use vstd::string::StringExecFns;

use crate::bom::BomError;
use crate::seqs::{lemma_strs_push, strs};

verus! {

/// The most rounds the inclusion walk may take before it is taken for a cycle.
pub const MAX_ITERATION: usize = 100;

/// The first occurrence of each element of `s`, in order, leaving out what
/// `seen` already holds.
pub open spec fn first_occurrences(s: Seq<Seq<char>>, seen: Seq<Seq<char>>) -> Seq<Seq<char>>
    decreases s.len(),
{
    if s.len() == 0 {
        Seq::empty()
    } else if seen.contains(s[0]) {
        first_occurrences(s.drop_first(), seen)
    } else {
        seq![s[0]] + first_occurrences(s.drop_first(), seen.push(s[0]))
    }
}

/// The last occurrence of each element of `s`, in the order of those last
/// occurrences.
pub open spec fn last_occurrences(s: Seq<Seq<char>>) -> Seq<Seq<char>> {
    first_occurrences(s.reverse(), Seq::empty()).reverse()
}

/// Whether `v` holds a string equal to `x`.
pub fn contains_str(v: &Vec<String>, x: &String) -> (r: bool)
    ensures
        r == strs(v@).contains(x@),
{
    let mut i: usize = 0;
    while i < v.len()
        invariant
            i <= v.len(),
            forall|j: int| 0 <= j < i ==> strs(v@)[j] != x@,
        decreases v.len() - i,
    {
        if v[i] == *x {
            assert(strs(v@)[i as int] == x@);
            return true;
        }
        i = i + 1;
    }
    false
}

/// The first occurrence of each string of `raw`, in order, leaving out those
/// equal to one of `excludes`.
pub fn remove_redundant_items_in_vec(raw: &Vec<String>, excludes: &Vec<String>) -> (r: Vec<
    String,
>)
    ensures
        strs(r@) == first_occurrences(strs(raw@), strs(excludes@)),
{
    let mut exists: Vec<String> = Vec::new();
    let mut k: usize = 0;
    while k < excludes.len()
        invariant
            k <= excludes.len(),
            strs(exists@) =~= strs(excludes@).subrange(0, k as int),
        decreases excludes.len() - k,
    {
        proof {
            lemma_strs_push(exists@, excludes@[k as int]);
        }
        exists.push(excludes[k].clone());
        k = k + 1;
    }
    assert(strs(excludes@).subrange(0, k as int) =~= strs(excludes@));
    let mut res: Vec<String> = Vec::new();
    assert(strs(res@) + first_occurrences(strs(raw@), strs(exists@)) =~= first_occurrences(
        strs(raw@),
        strs(excludes@),
    ));
    let ghost all = strs(raw@);
    let n = raw.len();
    let mut i: usize = 0;
    assert(all.subrange(0, n as int) =~= all);
    while i < n
        invariant
            i <= n,
            n == raw.len(),
            all == strs(raw@),
            strs(res@) + first_occurrences(all.subrange(i as int, n as int), strs(exists@))
                == first_occurrences(all, strs(excludes@)),
        decreases n - i,
    {
        let item = &raw[i];
        assert(all.subrange(i as int, n as int).drop_first() =~= all.subrange(i + 1, n as int));
        assert(all.subrange(i as int, n as int)[0] == item@);
        if !contains_str(&exists, item) {
            proof {
                lemma_strs_push(exists@, *item);
                lemma_strs_push(res@, *item);
                assert(strs(res@).push(item@) + first_occurrences(
                    all.subrange(i + 1, n as int),
                    strs(exists@).push(item@),
                ) =~= strs(res@) + (seq![item@] + first_occurrences(
                    all.subrange(i + 1, n as int),
                    strs(exists@).push(item@),
                )));
            }
            exists.push(item.clone());
            res.push(item.clone());
        }
        i = i + 1;
    }
    assert(first_occurrences(all.subrange(n as int, n as int), strs(exists@)) =~= Seq::empty());
    assert(strs(res@) =~= strs(res@) + Seq::<Seq<char>>::empty());
    res
}

/// `v` in reverse order.
pub fn reversed(v: &Vec<String>) -> (r: Vec<String>)
    ensures
        strs(r@) == strs(v@).reverse(),
{
    let mut r: Vec<String> = Vec::new();
    let mut i: usize = v.len();
    while i > 0
        invariant
            i <= v.len(),
            strs(r@) =~= strs(v@).subrange(i as int, v.len() as int).reverse(),
        decreases i,
    {
        i = i - 1;
        proof {
            lemma_strs_push(r@, v@[i as int]);
        }
        r.push(v[i].clone());
    }
    r
}

/// The last occurrence of each string of `raw`, in the order of those last
/// occurrences: for `[A, B, A, C]`, `[B, A, C]`.
pub fn keep_last_occurrences(raw: &Vec<String>) -> (r: Vec<String>)
    ensures
        strs(r@) == last_occurrences(strs(raw@)),
{
    let rev = reversed(raw);
    let none: Vec<String> = Vec::new();
    assert(strs(none@) =~= Seq::empty());
    let kept = remove_redundant_items_in_vec(&rev, &none);
    reversed(&kept)
}

/// What the inclusion walk asks for next.
pub enum WalkStep {
    /// Read this manifest and hand its resolved includes to `add_includes`.
    Load(String),
    /// Every manifest was read: these are the ones to process, in order.
    Finished(Vec<String>),
    /// The walk ran out of rounds with manifests still queued.
    Refused(BomError),
}

/// A breadth-first walk over the inclusion graph. Each manifest is recorded
/// when it is queued, so a manifest included twice is recorded twice.
pub struct IncludeWalk {
    queue: VecDeque<String>,
    sorted_boms: Vec<String>,
    rounds: usize,
}

impl IncludeWalk {
    pub closed spec fn wf(self) -> bool {
        self.rounds <= MAX_ITERATION
    }

    /// The manifests queued but not read yet.
    pub closed spec fn pending(self) -> Seq<Seq<char>> {
        strs(self.queue@)
    }

    /// Every manifest recorded so far, in the order in which it was queued.
    pub closed spec fn visited(self) -> Seq<Seq<char>> {
        strs(self.sorted_boms@)
    }

    /// How many manifests were read so far.
    pub closed spec fn rounds_taken(self) -> nat {
        self.rounds as nat
    }

    /// A walk that starts at `bom_file`.
    pub fn new(bom_file: &str) -> (r: IncludeWalk)
        ensures
            r.wf(),
            r.pending() == seq![bom_file@],
            r.visited() == seq![bom_file@],
            r.rounds_taken() == 0,
    {
        let mut queue: VecDeque<String> = VecDeque::new();
        queue.push_back(String::from_str(bom_file));
        let mut sorted_boms: Vec<String> = Vec::new();
        sorted_boms.push(String::from_str(bom_file));
        let r = IncludeWalk { queue, sorted_boms, rounds: 0 };
        assert(r.pending() =~= seq![bom_file@]);
        assert(r.visited() =~= seq![bom_file@]);
        r
    }

    /// The next thing to do: finish when nothing is queued, with the last
    /// occurrence of each recorded manifest; refuse when the bound on rounds is
    /// spent; else read the manifest at the head of the queue.
    pub fn next_bom(&mut self) -> (r: WalkStep)
        requires
            old(self).wf(),
        ensures
            final(self).wf(),
            final(self).visited() == old(self).visited(),
            old(self).pending().len() == 0 ==> match r {
                WalkStep::Finished(v) => strs(v@) == last_occurrences(old(self).visited()),
                _ => false,
            },
            old(self).pending().len() > 0 && old(self).rounds_taken() >= MAX_ITERATION ==> r
                == WalkStep::Refused(BomError::IncludeCycle),
            old(self).pending().len() > 0 && old(self).rounds_taken() < MAX_ITERATION ==> match r {
                WalkStep::Load(p) => {
                    &&& p@ == old(self).pending()[0]
                    &&& final(self).pending() == old(self).pending().drop_first()
                    &&& final(self).rounds_taken() == old(self).rounds_taken() + 1
                },
                _ => false,
            },
            old(self).pending().len() == 0 || old(self).rounds_taken() >= MAX_ITERATION
                ==> final(self).pending() == old(self).pending() && final(self).rounds_taken()
                == old(self).rounds_taken(),
    {
        if self.queue.len() == 0 {
            WalkStep::Finished(keep_last_occurrences(&self.sorted_boms))
        } else if self.rounds >= MAX_ITERATION {
            WalkStep::Refused(BomError::IncludeCycle)
        } else {
            let ghost q0 = self.queue@;
            // The queue is not empty here, so `pop_front` gives an item.
            let current = match self.queue.pop_front() {
                Some(c) => c,
                None => String::new(),
            };
            self.rounds = self.rounds + 1;
            assert(strs(self.queue@) =~= strs(q0).drop_first());
            WalkStep::Load(current)
        }
    }

    /// Queues and records the resolved includes of the manifest just read.
    pub fn add_includes(&mut self, includes: Vec<String>)
        requires
            old(self).wf(),
        ensures
            final(self).wf(),
            final(self).pending() == old(self).pending() + strs(includes@),
            final(self).visited() == old(self).visited() + strs(includes@),
            final(self).rounds_taken() == old(self).rounds_taken(),
    {
        let mut i: usize = 0;
        while i < includes.len()
            invariant
                i <= includes.len(),
                self.wf(),
                self.rounds == old(self).rounds,
                self.pending() =~= old(self).pending() + strs(includes@).subrange(0, i as int),
                self.visited() =~= old(self).visited() + strs(includes@).subrange(0, i as int),
            decreases includes.len() - i,
        {
            proof {
                lemma_strs_push(self.queue@, includes@[i as int]);
                lemma_strs_push(self.sorted_boms@, includes@[i as int]);
            }
            let ghost p0 = self.pending();
            self.queue.push_back(includes[i].clone());
            self.sorted_boms.push(includes[i].clone());
            assert(self.pending() =~= p0.push(includes@[i as int]@));
            i = i + 1;
        }
        assert(strs(includes@).subrange(0, i as int) =~= strs(includes@));
    }
}

/// Where the walk ends when each manifest `q` that it reads is found to
/// include `includes(q)`, in the steps of `next_bom` and `add_includes`:
/// `Some` of the manifests to process, or `None` where it is refused.
pub open spec fn walk_outcome(
    includes: spec_fn(Seq<char>) -> Seq<Seq<char>>,
    pending: Seq<Seq<char>>,
    visited: Seq<Seq<char>>,
    rounds: nat,
) -> Option<Seq<Seq<char>>>
    decreases MAX_ITERATION - rounds,
{
    if pending.len() == 0 {
        Some(last_occurrences(visited))
    } else if rounds >= MAX_ITERATION {
        None
    } else {
        let found = includes(pending[0]);
        walk_outcome(includes, pending.drop_first() + found, visited + found, rounds + 1)
    }
}

/// A walk that has queued one manifest of a cycle is refused: where each
/// manifest of `cycle` includes, directly, another one of `cycle` (or itself),
/// and one of them is pending, the walk never finishes.
pub proof fn lemma_cycle_is_refused(
    includes: spec_fn(Seq<char>) -> Seq<Seq<char>>,
    cycle: Set<Seq<char>>,
    pending: Seq<Seq<char>>,
    visited: Seq<Seq<char>>,
    rounds: nat,
)
    requires
        forall|q: Seq<char>|
            #[trigger] cycle.contains(q) ==> exists|k: int|
                0 <= k < includes(q).len() && cycle.contains(#[trigger] includes(q)[k]),
        exists|k: int| 0 <= k < pending.len() && cycle.contains(#[trigger] pending[k]),
    ensures
        walk_outcome(includes, pending, visited, rounds) is None,
    decreases MAX_ITERATION - rounds,
{
    let k0 = choose|k: int| 0 <= k < pending.len() && cycle.contains(#[trigger] pending[k]);
    if rounds < MAX_ITERATION {
        let found = includes(pending[0]);
        let next = pending.drop_first() + found;
        if k0 == 0 {
            let k1 = choose|k: int| 0 <= k < found.len() && cycle.contains(#[trigger] found[k]);
            assert(next[pending.len() - 1 + k1] == found[k1]);
            assert(cycle.contains(next[pending.len() - 1 + k1]));
        } else {
            assert(next[k0 - 1] == pending[k0]);
            assert(cycle.contains(next[k0 - 1]));
        }
        lemma_cycle_is_refused(includes, cycle, next, visited + found, rounds + 1);
    }
}

/// A manifest that includes itself is refused as soon as it is queued.
pub proof fn lemma_self_inclusion_is_refused(
    includes: spec_fn(Seq<char>) -> Seq<Seq<char>>,
    root: Seq<char>,
)
    requires
        includes(root).contains(root),
    ensures
        walk_outcome(includes, seq![root], seq![root], 0) is None,
{
    let cycle = set![root];
    assert forall|q: Seq<char>| #[trigger] cycle.contains(q) implies exists|k: int|
        0 <= k < includes(q).len() && cycle.contains(#[trigger] includes(q)[k]) by {
        let k = choose|k: int| 0 <= k < includes(root).len() && #[trigger] includes(root)[k] == root;
        assert(cycle.contains(includes(q)[k]));
    }
    assert(cycle.contains(seq![root][0]));
    lemma_cycle_is_refused(includes, cycle, seq![root], seq![root], 0);
}

/// The elements of `s` at the places after which `s` holds no equal element
/// and that `seen` does not hold, in order.
pub open spec fn last_kept(s: Seq<Seq<char>>, seen: Seq<Seq<char>>) -> Seq<Seq<char>>
    decreases s.len(),
{
    if s.len() == 0 {
        Seq::empty()
    } else if s.drop_first().contains(s[0]) || seen.contains(s[0]) {
        last_kept(s.drop_first(), seen)
    } else {
        seq![s[0]] + last_kept(s.drop_first(), seen)
    }
}

proof fn lemma_last_kept_push_seen(t: Seq<Seq<char>>, x: Seq<char>, seen: Seq<Seq<char>>)
    requires
        seen.contains(x),
    ensures
        last_kept(t.push(x), seen) == last_kept(t, seen),
    decreases t.len(),
{
    if t.len() == 0 {
        let tp = t.push(x);
        assert(tp.drop_first() =~= Seq::<Seq<char>>::empty());
        assert(tp[0] == x);
        assert(last_kept(tp.drop_first(), seen) =~= Seq::<Seq<char>>::empty());
        assert(last_kept(t, seen) =~= Seq::<Seq<char>>::empty());
    } else {
        let tp = t.push(x);
        assert(tp.drop_first() =~= t.drop_first().push(x));
        assert(tp[0] == t[0]);
        assert(tp.drop_first().contains(t[0]) || seen.contains(t[0]) <==> t.drop_first().contains(
            t[0],
        ) || seen.contains(t[0])) by {
            if tp.drop_first().contains(t[0]) {
                let k = choose|k: int| 0 <= k < tp.drop_first().len() && tp.drop_first()[k] == t[0];
                if k < t.drop_first().len() {
                    assert(t.drop_first()[k] == t[0]);
                }
            }
            if t.drop_first().contains(t[0]) {
                let k = choose|k: int| 0 <= k < t.drop_first().len() && t.drop_first()[k] == t[0];
                assert(tp.drop_first()[k] == t[0]);
            }
        }
        lemma_last_kept_push_seen(t.drop_first(), x, seen);
    }
}

proof fn lemma_last_kept_push_new(t: Seq<Seq<char>>, x: Seq<char>, seen: Seq<Seq<char>>)
    requires
        !seen.contains(x),
    ensures
        last_kept(t.push(x), seen) == last_kept(t, seen.push(x)).push(x),
    decreases t.len(),
{
    let tp = t.push(x);
    if t.len() == 0 {
        assert(tp.drop_first() =~= Seq::<Seq<char>>::empty());
        assert(tp[0] == x);
        assert(!tp.drop_first().contains(x));
        assert(last_kept(tp.drop_first(), seen) =~= Seq::<Seq<char>>::empty());
        assert(last_kept(tp, seen) =~= seq![x]);
        assert(last_kept(t, seen.push(x)) =~= Seq::<Seq<char>>::empty());
        assert(seq![x] =~= Seq::<Seq<char>>::empty().push(x));
    } else {
        assert(tp.drop_first() =~= t.drop_first().push(x));
        assert(tp[0] == t[0]);
        assert(tp.drop_first().contains(t[0]) || seen.contains(t[0]) <==> t.drop_first().contains(
            t[0],
        ) || seen.push(x).contains(t[0])) by {
            if tp.drop_first().contains(t[0]) {
                let k = choose|k: int| 0 <= k < tp.drop_first().len() && tp.drop_first()[k] == t[0];
                if k < t.drop_first().len() {
                    assert(t.drop_first()[k] == t[0]);
                } else {
                    assert(seen.push(x)[seen.len() as int] == t[0]);
                }
            }
            if t.drop_first().contains(t[0]) {
                let k = choose|k: int| 0 <= k < t.drop_first().len() && t.drop_first()[k] == t[0];
                assert(tp.drop_first()[k] == t[0]);
            }
            if seen.push(x).contains(t[0]) {
                let k = choose|k: int| 0 <= k < seen.push(x).len() && seen.push(x)[k] == t[0];
                if k < seen.len() {
                    assert(seen[k] == t[0]);
                } else {
                    assert(tp.drop_first()[t.len() - 1] == t[0]);
                }
            }
            if seen.contains(t[0]) {
                let k = choose|k: int| 0 <= k < seen.len() && seen[k] == t[0];
                assert(seen.push(x)[k] == t[0]);
            }
        }
        lemma_last_kept_push_new(t.drop_first(), x, seen);
        let rest = last_kept(t.drop_first(), seen.push(x));
        assert(seq![t[0]] + rest.push(x) =~= (seq![t[0]] + rest).push(x));
    }
}

proof fn lemma_first_occurrences_reversed(s: Seq<Seq<char>>, seen: Seq<Seq<char>>)
    ensures
        first_occurrences(s.reverse(), seen).reverse() == last_kept(s, seen),
    decreases s.len(),
{
    if s.len() == 0 {
        assert(s.reverse() =~= Seq::<Seq<char>>::empty());
        assert(first_occurrences(s.reverse(), seen).reverse() =~= Seq::<Seq<char>>::empty());
    } else {
        let t = s.drop_last();
        let x = s.last();
        assert(s =~= t.push(x));
        let r = s.reverse();
        assert(r[0] == x);
        assert(r.drop_first() =~= t.reverse());
        if seen.contains(x) {
            lemma_first_occurrences_reversed(t, seen);
            lemma_last_kept_push_seen(t, x, seen);
        } else {
            lemma_first_occurrences_reversed(t, seen.push(x));
            lemma_last_kept_push_new(t, x, seen);
            let rest = first_occurrences(t.reverse(), seen.push(x));
            assert((seq![x] + rest).reverse() =~= rest.reverse().push(x));
        }
    }
}

/// Last-wins reduction, by place: `last_occurrences` keeps exactly the
/// elements of `s` that have no equal element after them, in their order in `s`.
pub proof fn lemma_last_occurrences_by_place(s: Seq<Seq<char>>)
    ensures
        last_occurrences(s) == last_kept(s, Seq::empty()),
{
    lemma_first_occurrences_reversed(s, Seq::empty());
}

/// Where a walk in state `w` ends when each manifest `q` read from then on is
/// found to include `includes(q)`.
pub open spec fn outcome_of(w: IncludeWalk, includes: spec_fn(Seq<char>) -> Seq<Seq<char>>) -> Option<
    Seq<Seq<char>>,
> {
    walk_outcome(includes, w.pending(), w.visited(), w.rounds_taken())
}

/// One round of the walk keeps where it ends: from `before`, `next_bom` gives
/// `Load(p)` and leaves `loaded`; handing `includes(p)` to `add_includes` then
/// leaves `after`, whose outcome is that of `before`.
pub proof fn lemma_walk_round(
    includes: spec_fn(Seq<char>) -> Seq<Seq<char>>,
    before: IncludeWalk,
    p: Seq<char>,
    loaded: IncludeWalk,
    after: IncludeWalk,
)
    requires
        before.pending().len() > 0,
        before.rounds_taken() < MAX_ITERATION,
        p == before.pending()[0],
        loaded.pending() == before.pending().drop_first(),
        loaded.visited() == before.visited(),
        loaded.rounds_taken() == before.rounds_taken() + 1,
        after.pending() == loaded.pending() + includes(p),
        after.visited() == loaded.visited() + includes(p),
        after.rounds_taken() == loaded.rounds_taken(),
    ensures
        outcome_of(after, includes) == outcome_of(before, includes),
{
}

/// A walk ends as `next_bom` says: with nothing pending it finishes with the
/// last occurrence of each recorded manifest, that is, the recorded manifests
/// that are not recorded again later, in order; with manifests pending and no
/// rounds left it is refused.
pub proof fn lemma_walk_end(includes: spec_fn(Seq<char>) -> Seq<Seq<char>>, w: IncludeWalk)
    ensures
        w.pending().len() == 0 ==> outcome_of(w, includes) == Some(last_occurrences(w.visited())),
        w.pending().len() == 0 ==> outcome_of(w, includes) == Some(
            last_kept(w.visited(), Seq::empty()),
        ),
        w.pending().len() > 0 && w.rounds_taken() >= MAX_ITERATION ==> outcome_of(
            w,
            includes,
        ) is None,
{
    lemma_last_occurrences_by_place(w.visited());
}

} // verus!
