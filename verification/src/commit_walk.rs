//! The walk over a commit DAG from its heads: depth first, each commit at
//! most once, stopping at the depth limit of the query. The caller loads
//! each block the walk asks for and hands it back; a commit whose block does
//! not load, or that the field filter leaves out, is skipped together with
//! its parents.

use vstd::prelude::*;
use crate::commits::{Block, delta_field_name, passes_field_filter, should_traverse};
use crate::text::{chars_of, contains_name, opt_view, views};
use crate::collection_setup::{last_segment, last_segment_of};
use crate::outside::{cid_parses, lossy_text, parses_as_cid, utf8_lossy};

verus! {

/// Whether a commit at `depth` lies within the depth limit `max`: the heads
/// always do; below them, only depths under the limit.
pub open spec fn within_limit(depth: u64, max: Option<u64>) -> bool {
    depth == 0 || match max {
        None => true,
        Some(m) => depth < m,
    }
}

/// The state of a walk, as values: the heads and how many of them were
/// taken, the commits still to visit (the last is next) with their depths,
/// the commits visited, the depth limit, and the depth of the commit being
/// loaded.
pub struct WalkView {
    pub heads: Seq<Seq<char>>,
    pub next_head: int,
    pub stack: Seq<(Seq<char>, u64)>,
    pub visited: Seq<Seq<char>>,
    pub max_depth: Option<u64>,
    pub current: Option<u64>,
}

/// The next commit of the walk and the state after it is taken: the top of
/// the stack unless it was visited already (then it is dropped); with the
/// stack empty, the next head not visited yet starts a new stack at depth 0;
/// when nothing is left, none.
pub open spec fn next_step(v: WalkView) -> (WalkView, Option<(Seq<char>, u64)>)
    decreases v.heads.len() - v.next_head, v.stack.len(),
{
    if v.stack.len() > 0 {
        let top = v.stack.last();
        let rest = WalkView { stack: v.stack.drop_last(), ..v };
        if v.visited.contains(top.0) {
            next_step(rest)
        } else {
            (WalkView { visited: v.visited.push(top.0), current: Some(top.1), ..rest }, Some(top))
        }
    } else if v.next_head < v.heads.len() {
        let h = v.heads[v.next_head];
        let stack = if v.visited.contains(h) { Seq::empty() } else { seq![(h, 0u64)] };
        next_step(WalkView { next_head: v.next_head + 1, stack, ..v })
    } else {
        (WalkView { current: None, ..v }, None)
    }
}

/// The parents of `block` as stack entries at `depth`, in order.
pub open spec fn parent_entries(block: Block, depth: u64) -> Seq<(Seq<char>, u64)> {
    match block.heads {
        Some(hs) => views(hs@).map_values(|c: Seq<char>| (c, depth)),
        None => Seq::empty(),
    }
}

/// Whether `block` passes the field filter `filter`.
pub open spec fn filter_passes(filter: Option<String>, block: Block) -> bool {
    match filter {
        None => true,
        Some(f) => delta_field_name(block.delta) == Some(f@),
    }
}

/// A depth-first walk over a commit DAG from a list of heads.
pub struct HeadsWalk {
    heads: Vec<String>,
    next_head: usize,
    stack: Vec<(String, u64)>,
    visited: Vec<String>,
    max_depth: Option<u64>,
    current: Option<u64>,
}

impl View for HeadsWalk {
    type V = WalkView;

    closed spec fn view(&self) -> WalkView {
        WalkView {
            heads: views(self.heads@),
            next_head: self.next_head as int,
            stack: self.stack@.map_values(|e: (String, u64)| (e.0@, e.1)),
            visited: views(self.visited@),
            max_depth: self.max_depth,
            current: self.current,
        }
    }
}

/// Whether commit `c` waits on the stack.
pub open spec fn pending(stack: Seq<(Seq<char>, u64)>, c: Seq<char>) -> bool {
    exists|j: int| 0 <= j < stack.len() && (#[trigger] stack[j]).0 == c
}

/// Whether a walk's state is consistent: every head taken so far was
/// visited or waits on the stack, no commit is visited twice, and every
/// pending depth is within the limit and no deeper than the number of
/// commits visited so far.
pub open spec fn walk_ok(v: WalkView) -> bool {
    &&& 0 <= v.next_head <= v.heads.len()
    &&& forall|k: int| 0 <= k < v.next_head ==> v.visited.contains(#[trigger] v.heads[k]) || pending(v.stack, v.heads[k])
    &&& v.visited.no_duplicates()
    &&& forall|k: int| 0 <= k < v.stack.len() ==> (#[trigger] v.stack[k]).1 <= v.visited.len()
        && within_limit(v.stack[k].1, v.max_depth)
    &&& v.current matches Some(d) ==> d < v.visited.len() && within_limit(d, v.max_depth)
}

/// The states the walk passes through while looking for its next commit
/// are consistent.
proof fn lemma_step_states_ok(v: WalkView)
    requires
        walk_ok(v),
    ensures
        v.stack.len() > 0 && v.visited.contains(v.stack.last().0) ==> walk_ok(WalkView { stack: v.stack.drop_last(), ..v }),
        v.stack.len() == 0 && v.next_head < v.heads.len() ==> walk_ok(WalkView {
            next_head: v.next_head + 1,
            stack: if v.visited.contains(v.heads[v.next_head]) { Seq::empty() } else { seq![(v.heads[v.next_head], 0u64)] },
            ..v
        }),
{
    if v.stack.len() > 0 && v.visited.contains(v.stack.last().0) {
        let rest = WalkView { stack: v.stack.drop_last(), ..v };
        assert forall|k: int| 0 <= k < rest.stack.len() implies (#[trigger] rest.stack[k]).1 <= rest.visited.len()
            && within_limit(rest.stack[k].1, rest.max_depth) by {
            assert(rest.stack[k] == v.stack[k]);
        }
        assert forall|k: int| 0 <= k < rest.next_head implies rest.visited.contains(#[trigger] rest.heads[k])
            || pending(rest.stack, rest.heads[k]) by {
            if !v.visited.contains(v.heads[k]) {
                let j = choose|j: int| 0 <= j < v.stack.len() && (#[trigger] v.stack[j]).0 == v.heads[k];
                assert(j != v.stack.len() - 1);
                assert(rest.stack[j] == v.stack[j]);
            }
        }
    }
    if v.stack.len() == 0 && v.next_head < v.heads.len() {
        let h = v.heads[v.next_head];
        let stack = if v.visited.contains(h) { Seq::empty() } else { seq![(h, 0u64)] };
        let w = WalkView { next_head: v.next_head + 1, stack, ..v };
        assert forall|k: int| 0 <= k < w.next_head implies w.visited.contains(#[trigger] w.heads[k])
            || pending(w.stack, w.heads[k]) by {
            if k == v.next_head && !v.visited.contains(h) {
                assert(w.stack[0].0 == h);
            } else if k < v.next_head && !v.visited.contains(v.heads[k]) {
                let j = choose|j: int| 0 <= j < v.stack.len() && (#[trigger] v.stack[j]).0 == v.heads[k];
            }
        }
    }
}

proof fn lemma_next_step(v: WalkView)
    requires
        walk_ok(v),
    ensures
        walk_ok(next_step(v).0),
        next_step(v).0.heads == v.heads,
        next_step(v).0.max_depth == v.max_depth,
        match next_step(v).1 {
            Some((c, d)) => !v.visited.contains(c) && next_step(v).0.visited == v.visited.push(c)
                && next_step(v).0.current == Some(d) && within_limit(d, v.max_depth),
            None => next_step(v).0.visited == v.visited && next_step(v).0.current is None
                && next_step(v).0.stack.len() == 0 && next_step(v).0.next_head == v.heads.len()
                && forall|k: int| 0 <= k < v.heads.len() ==> v.visited.contains(#[trigger] v.heads[k]),
        },
    decreases v.heads.len() - v.next_head, v.stack.len(),
{
    if v.stack.len() > 0 {
        let top = v.stack.last();
        let rest = WalkView { stack: v.stack.drop_last(), ..v };
        assert forall|k: int| 0 <= k < rest.stack.len() implies (#[trigger] rest.stack[k]).1 <= rest.visited.len()
            && within_limit(rest.stack[k].1, rest.max_depth) by {
            assert(rest.stack[k] == v.stack[k]);
        }
        if v.visited.contains(top.0) {
            lemma_step_states_ok(v);
            lemma_next_step(rest);
        } else {
            let w = WalkView { visited: v.visited.push(top.0), current: Some(top.1), ..rest };
            assert(v.stack[v.stack.len() - 1] == top);
            assert forall|a: int, b: int| 0 <= a < w.visited.len() && 0 <= b < w.visited.len() && a != b
                implies w.visited[a] != w.visited[b] by {
                if a == w.visited.len() - 1 {
                    assert(w.visited[b] == v.visited[b]);
                } else if b == w.visited.len() - 1 {
                    assert(w.visited[a] == v.visited[a]);
                }
            }
            assert forall|k: int| 0 <= k < w.stack.len() implies (#[trigger] w.stack[k]).1 <= w.visited.len()
                && within_limit(w.stack[k].1, w.max_depth) by {
                assert(w.stack[k] == v.stack[k]);
            }
            assert forall|k: int| 0 <= k < w.next_head implies w.visited.contains(#[trigger] w.heads[k])
                || pending(w.stack, w.heads[k]) by {
                if v.visited.contains(v.heads[k]) {
                    let j = choose|j: int| 0 <= j < v.visited.len() && v.visited[j] == v.heads[k];
                    assert(w.visited[j] == v.heads[k]);
                } else {
                    let j = choose|j: int| 0 <= j < v.stack.len() && (#[trigger] v.stack[j]).0 == v.heads[k];
                    if j == v.stack.len() - 1 {
                        assert(w.visited[w.visited.len() - 1] == v.heads[k]);
                    } else {
                        assert(w.stack[j] == v.stack[j]);
                    }
                }
            }
        }
    } else if v.next_head < v.heads.len() {
        let h = v.heads[v.next_head];
        let stack = if v.visited.contains(h) { Seq::empty() } else { seq![(h, 0u64)] };
        let w = WalkView { next_head: v.next_head + 1, stack, ..v };
        lemma_step_states_ok(v);
        lemma_next_step(w);
    } else {
        assert forall|k: int| 0 <= k < v.heads.len() implies v.visited.contains(#[trigger] v.heads[k]) by {
            if !v.visited.contains(v.heads[k]) {
                let j = choose|j: int| 0 <= j < v.stack.len() && (#[trigger] v.stack[j]).0 == v.heads[k];
            }
        }
    }
}

impl HeadsWalk {
    /// A walk from `heads` that goes no deeper than `max_depth` (the heads
    /// are at depth 0; no limit when `None`).
    pub fn new(heads: Vec<String>, max_depth: Option<u64>) -> (w: Self)
        ensures
            walk_ok(w@),
            w@.heads == views(heads@),
            w@.next_head == 0,
            w@.stack.len() == 0,
            w@.visited.len() == 0,
            w@.max_depth == max_depth,
            w@.current is None,
    {
        HeadsWalk { heads, next_head: 0, stack: Vec::new(), visited: Vec::new(), max_depth, current: None }
    }

    /// The next commit to load and its depth, or none when the walk is over
    /// (see `next_step`). A commit is never handed out twice, and never
    /// below the depth limit; when the walk is over, every head has been
    /// handed out.
    pub fn next_block(&mut self) -> (res: Option<(String, u64)>)
        requires
            walk_ok(old(self)@),
        ensures
            walk_ok(final(self)@),
            final(self)@ == next_step(old(self)@).0,
            match res {
                Some((c, d)) => next_step(old(self)@).1 == Some((c@, d)),
                None => next_step(old(self)@).1 is None,
            },
            res matches Some((c, d)) ==> !old(self)@.visited.contains(c@) && within_limit(d, old(self)@.max_depth),
            res is None ==> forall|k: int| 0 <= k < final(self)@.heads.len() ==> final(self)@.visited.contains(#[trigger] final(self)@.heads[k]),
    {
        proof { lemma_next_step(self@); }
        loop
            invariant
                walk_ok(self@),
                next_step(self@) == next_step(old(self)@),
                self@.visited == old(self)@.visited,
                self@.max_depth == old(self)@.max_depth,
            decreases self.heads@.len() - self.next_head, self.stack@.len(),
        {
            let ghost before = self@;
            match self.stack.pop() {
                Some((c, d)) => {
                    assert(before.stack.last() == (c@, d));
                    assert(self@.stack =~= before.stack.drop_last());
                    if contains_name(&self.visited, c.as_str()) {
                        proof {
                            assert(self@ == WalkView { stack: before.stack.drop_last(), ..before });
                            lemma_next_step(before);
                            lemma_step_states_ok(before);
                        }
                    } else {
                        let ghost vb = self.visited@;
                        self.visited.push(c.clone());
                        self.current = Some(d);
                        proof {
                            assert(views(self.visited@) =~= views(vb).push(c@));
                            assert(self@ == next_step(before).0);
                            lemma_next_step(before);
                            assert(next_step(old(self)@).1 == Some((c@, d)));
                        }
                        return Some((c, d));
                    }
                },
                None => {
                    if self.next_head < self.heads.len() {
                        let h = self.heads[self.next_head].clone();
                        self.next_head += 1;
                        if !contains_name(&self.visited, h.as_str()) {
                            self.stack.push((h, 0));
                            proof {
                                assert(self@.stack =~= seq![(before.heads[before.next_head], 0u64)]);
                            }
                        } else {
                            proof {
                                assert(self@.stack =~= Seq::<(Seq<char>, u64)>::empty());
                            }
                        }
                        proof {
                            lemma_next_step(before);
                            lemma_step_states_ok(before);
                        }
                    } else {
                        self.current = None;
                        return None;
                    }
                },
            }
        }
    }

    /// Takes a loaded block of the commit last handed out: whether its
    /// commit is kept (it passes the field filter); a kept commit's parents
    /// are visited next, one level deeper, when the depth limit allows.
    pub fn block_loaded(&mut self, filter: &Option<String>, block: &Block) -> (keep: bool)
        requires
            walk_ok(old(self)@),
            old(self)@.current is Some,
        ensures
            walk_ok(final(self)@),
            keep == filter_passes(*filter, *block),
            ({
                let d = old(self)@.current->0;
                let stack = if keep && should_traverse_spec(old(self)@.max_depth, d) {
                    old(self)@.stack + parent_entries(*block, (d + 1) as u64)
                } else {
                    old(self)@.stack
                };
                final(self)@ == WalkView { stack, current: None, ..old(self)@ }
            }),
    {
        let d = match self.current {
            Some(d) => d,
            None => {
                return false;
            },
        };
        let n = self.visited.len();
        self.current = None;
        let keep = passes_field_filter(filter, &block.delta);
        if keep && should_traverse(self.max_depth, d) {
            match &block.heads {
                Some(hs) => {
                    let ghost s0 = self@.stack;
                    let mut i: usize = 0;
                    while i < hs.len()
                        invariant
                            0 <= i <= hs@.len(),
                            d < n,
                            n == self.visited@.len(),
                            self@.stack == s0 + views(hs@).take(i as int).map_values(|c: Seq<char>| (c, (d + 1) as u64)),
                            self.heads == old(self).heads,
                            self.next_head == old(self).next_head,
                            self.visited == old(self).visited,
                            self.max_depth == old(self).max_depth,
                            self.current is None,
                        decreases hs.len() - i,
                    {
                        let ghost before = self@.stack;
                        let ghost raw = self.stack@;
                        self.stack.push((hs[i].clone(), d + 1));
                        proof {
                            assert(views(hs@).take(i + 1) =~= views(hs@).take(i as int).push(hs@[i as int]@));
                            assert(self.stack@ == raw.push((hs@[i as int], (d + 1) as u64)));
                            assert(self@.stack =~= before.push((hs@[i as int]@, (d + 1) as u64)));
                            assert(views(hs@).take(i + 1).map_values(|c: Seq<char>| (c, (d + 1) as u64))
                                =~= views(hs@).take(i as int).map_values(|c: Seq<char>| (c, (d + 1) as u64)).push((hs@[i as int]@, (d + 1) as u64)));
                            assert(self@.stack =~= s0 + views(hs@).take(i + 1).map_values(|c: Seq<char>| (c, (d + 1) as u64)));
                        }
                        i += 1;
                    }
                    proof {
                        assert(views(hs@).take(hs@.len() as int) =~= views(hs@));
                    }
                },
                None => {
                    proof {
                        assert(self@.stack =~= old(self)@.stack + parent_entries(*block, (d + 1) as u64));
                    }
                },
            }
        }
        proof {
            let v = self@;
            assert forall|k: int| 0 <= k < v.next_head implies v.visited.contains(#[trigger] v.heads[k])
                || pending(v.stack, v.heads[k]) by {
                if !v.visited.contains(v.heads[k]) {
                    let j = choose|j: int| 0 <= j < old(self)@.stack.len() && (#[trigger] old(self)@.stack[j]).0 == v.heads[k];
                    assert(v.stack[j] == old(self)@.stack[j]);
                }
            }
            assert forall|k: int| 0 <= k < v.stack.len() implies (#[trigger] v.stack[k]).1 <= v.visited.len()
                && within_limit(v.stack[k].1, v.max_depth) by {
                if k >= old(self)@.stack.len() {
                    assert(v.stack[k].1 == d + 1);
                } else {
                    assert(v.stack[k] == old(self)@.stack[k]);
                }
            }
        }
        keep
    }
}

/// Whether the walk goes on below a commit at `depth` (see `should_traverse`).
pub open spec fn should_traverse_spec(max: Option<u64>, depth: u64) -> bool {
    match max {
        None => true,
        Some(m) => depth + 1 < m,
    }
}


/// One level of the walk below a commit named by its CID: the parents of a
/// commit, how many of them were taken, and how many levels the walk may
/// still go down from them (at least 1).
pub type FrameView = (Seq<Seq<char>>, int, u64);

/// The next parent of the walk below a named commit, with the number of
/// levels left below it, and the levels after it is taken: the next parent
/// of the deepest level; a level whose parents are all taken is left.
pub open spec fn depth_next(frames: Seq<FrameView>) -> (Seq<FrameView>, Option<(Seq<char>, u64)>)
    decreases frames.len(),
{
    if frames.len() == 0 {
        (frames, None)
    } else {
        let f = frames.last();
        if f.1 < f.0.len() {
            (frames.update(frames.len() - 1, (f.0, f.1 + 1, f.2)), Some((f.0[f.1], (f.2 - 1) as u64)))
        } else {
            depth_next(frames.drop_last())
        }
    }
}

/// The parents of `block`, in order.
pub open spec fn parents_of(block: Block) -> Seq<Seq<char>> {
    match block.heads {
        Some(hs) => views(hs@),
        None => Seq::empty(),
    }
}

/// Whether every level of a walk below a named commit is consistent.
pub open spec fn frames_ok(frames: Seq<FrameView>) -> bool {
    forall|k: int| 0 <= k < frames.len() ==> 0 <= (#[trigger] frames[k]).1 <= frames[k].0.len() && frames[k].2 >= 1
}

/// The walk below a commit named by its CID: its parents and theirs, in
/// order, depth first, down to the depth limit of the query. A commit met
/// twice is visited twice.
pub struct DepthWalk {
    frames: Vec<(Vec<String>, usize, u64)>,
    current: Option<u64>,
}

/// The state of a walk below a named commit, as values: its levels and the
/// levels left below the commit being loaded.
pub struct DepthWalkView {
    pub frames: Seq<FrameView>,
    pub current: Option<u64>,
}

impl View for DepthWalk {
    type V = DepthWalkView;

    closed spec fn view(&self) -> DepthWalkView {
        DepthWalkView {
            frames: self.frames@.map_values(|f: (Vec<String>, usize, u64)| (views(f.0@), f.1 as int, f.2)),
            current: self.current,
        }
    }
}

proof fn lemma_depth_next(frames: Seq<FrameView>)
    requires
        frames_ok(frames),
    ensures
        frames_ok(depth_next(frames).0),
        depth_next(frames).1 is None ==> depth_next(frames).0.len() == 0,
    decreases frames.len(),
{
    if frames.len() > 0 {
        let f = frames.last();
        if f.1 < f.0.len() {
            let g = frames.update(frames.len() - 1, (f.0, f.1 + 1, f.2));
            assert forall|k: int| 0 <= k < g.len() implies 0 <= (#[trigger] g[k]).1 <= g[k].0.len() && g[k].2 >= 1 by {
                if k < frames.len() - 1 {
                    assert(g[k] == frames[k]);
                }
            }
        } else {
            assert forall|k: int| 0 <= k < frames.drop_last().len() implies 0 <= (#[trigger] frames.drop_last()[k]).1
                <= frames.drop_last()[k].0.len() && frames.drop_last()[k].2 >= 1 by {
                assert(frames.drop_last()[k] == frames[k]);
            }
            lemma_depth_next(frames.drop_last());
        }
    }
}

fn clone_names(v: &Vec<String>) -> (res: Vec<String>)
    ensures
        views(res@) == views(v@),
{
    let mut out: Vec<String> = Vec::new();
    let mut i: usize = 0;
    while i < v.len()
        invariant
            0 <= i <= v@.len(),
            views(out@) == views(v@).take(i as int),
        decreases v.len() - i,
    {
        let ghost before = out@;
        out.push(v[i].clone());
        proof {
            assert(views(out@) =~= views(before).push(v@[i as int]@));
            assert(views(v@).take(i + 1) =~= views(v@).take(i as int).push(v@[i as int]@));
        }
        i += 1;
    }
    assert(views(v@).take(v@.len() as int) =~= views(v@));
    out
}

fn parents_vec(block: &Block) -> (res: Vec<String>)
    ensures
        views(res@) == parents_of(*block),
{
    match &block.heads {
        Some(hs) => clone_names(hs),
        None => {
            let v: Vec<String> = Vec::new();
            assert(views(v@) =~= Seq::<Seq<char>>::empty());
            v
        },
    }
}

impl DepthWalk {
    /// The walk below the commit of `root`, for a query with depth limit
    /// `depth`: the named commit is at depth 0, so its parents are visited
    /// when the limit is at least 2, and nothing is visited without a limit.
    pub fn new(root: &Block, depth: Option<u64>) -> (w: Self)
        ensures
            frames_ok(w@.frames),
            w@.current is None,
            w@.frames == (match depth {
                Some(d) => if d >= 2 { seq![(parents_of(*root), 0int, (d - 1) as u64)] } else { Seq::empty() },
                None => Seq::<FrameView>::empty(),
            }),
    {
        let mut frames: Vec<(Vec<String>, usize, u64)> = Vec::new();
        match depth {
            Some(d) => {
                if d >= 2 {
                    frames.push((parents_vec(root), 0, d - 1));
                }
            },
            None => {},
        }
        let w = DepthWalk { frames, current: None };
        assert(w@.frames =~= (match depth {
            Some(d) => if d >= 2 { seq![(parents_of(*root), 0int, (d - 1) as u64)] } else { Seq::empty() },
            None => Seq::<FrameView>::empty(),
        }));
        w
    }

    /// The next commit to load and the number of levels left below it, or
    /// none when the walk is over (see `depth_next`).
    pub fn next_block(&mut self) -> (res: Option<(String, u64)>)
        requires
            frames_ok(old(self)@.frames),
        ensures
            frames_ok(final(self)@.frames),
            final(self)@.frames == depth_next(old(self)@.frames).0,
            match res {
                Some((c, r)) => depth_next(old(self)@.frames).1 == Some((c@, r)) && final(self)@.current == Some(r),
                None => depth_next(old(self)@.frames).1 is None && final(self)@.current is None,
            },
    {
        proof { lemma_depth_next(self@.frames); }
        loop
            invariant
                frames_ok(self@.frames),
                depth_next(self@.frames) == depth_next(old(self)@.frames),
            decreases self.frames@.len(),
        {
            let n = self.frames.len();
            if n == 0 {
                self.current = None;
                return None;
            }
            let ghost before = self@.frames;
            let idx = self.frames[n - 1].1;
            let r = self.frames[n - 1].2;
            assert(before[n - 1] == (views(self.frames@[n - 1].0@), idx as int, r));
            if idx < self.frames[n - 1].0.len() {
                let c = self.frames[n - 1].0[idx].clone();
                let (ps, _, _) = self.frames.pop().unwrap();
                self.frames.push((ps, idx + 1, r));
                self.current = Some(r - 1);
                proof {
                    assert(self@.frames =~= before.update(n - 1, (before[n - 1].0, idx + 1, r)));
                    lemma_depth_next(before);
                }
                return Some((c, r - 1));
            }
            self.frames.pop();
            proof {
                assert(self@.frames =~= before.drop_last());
                lemma_depth_next(before);
                assert forall|k: int| 0 <= k < self@.frames.len() implies 0 <= (#[trigger] self@.frames[k]).1
                    <= self@.frames[k].0.len() && self@.frames[k].2 >= 1 by {
                    assert(self@.frames[k] == before[k]);
                }
            }
        }
    }

    /// Takes a loaded block of the commit last handed out: whether its
    /// commit is kept (it passes the field filter); below a kept commit the
    /// walk goes on to its parents while levels are left.
    pub fn block_loaded(&mut self, filter: &Option<String>, block: &Block) -> (keep: bool)
        requires
            frames_ok(old(self)@.frames),
            old(self)@.current is Some,
        ensures
            frames_ok(final(self)@.frames),
            keep == filter_passes(*filter, *block),
            final(self)@.current is None,
            final(self)@.frames == ({
                let r = old(self)@.current->0;
                if keep && r > 0 {
                    old(self)@.frames.push((parents_of(*block), 0int, r))
                } else {
                    old(self)@.frames
                }
            }),
    {
        let r = match self.current {
            Some(r) => r,
            None => {
                return false;
            },
        };
        self.current = None;
        let keep = passes_field_filter(filter, &block.delta);
        if keep && r > 0 {
            let ghost before = self@.frames;
            self.frames.push((parents_vec(block), 0, r));
            proof {
                assert(self@.frames =~= before.push((parents_of(*block), 0int, r)));
                assert forall|k: int| 0 <= k < self@.frames.len() implies 0 <= (#[trigger] self@.frames[k]).1
                    <= self@.frames[k].0.len() && self@.frames[k].2 >= 1 by {
                    if k < before.len() {
                        assert(self@.frames[k] == before[k]);
                    }
                }
            }
        }
        keep
    }
}


// ---------------------------------------------------------------------------
// Heads read from store keys
// ---------------------------------------------------------------------------

/// The position of the first `/` of `s` at or after `a`.
pub open spec fn next_slash(s: Seq<char>, a: int) -> Option<int>
    decreases s.len() - a,
{
    if a < 0 || a >= s.len() {
        None
    } else if s[a] == '/' {
        Some(a)
    } else {
        next_slash(s, a + 1)
    }
}

/// Where the `k`-th `/`-separated segment of `s` starts (counting from 0),
/// when `s` has that many segments.
pub open spec fn segment_start(s: Seq<char>, k: nat) -> Option<int>
    decreases k,
{
    if k == 0 {
        Some(0)
    } else {
        match segment_start(s, (k - 1) as nat) {
            None => None,
            Some(a) => match next_slash(s, a) {
                None => None,
                Some(j) => Some(j + 1),
            },
        }
    }
}

/// The `k`-th `/`-separated segment of `s`, when it has that many.
pub open spec fn segment(s: Seq<char>, k: nat) -> Option<Seq<char>> {
    match segment_start(s, k) {
        None => None,
        Some(a) => Some(s.subrange(a, match next_slash(s, a) { Some(j) => j, None => s.len() as int })),
    }
}

/// The head a collection head key names: the key's fourth `/`-separated
/// segment (the key's text with invalid UTF-8 replaced), when it parses as
/// a CID.
pub open spec fn collection_key_cid(key: Seq<u8>) -> Option<Seq<char>> {
    match segment(lossy_text(key), 3) {
        Some(c) => if parses_as_cid(c) { Some(c) } else { None },
        None => None,
    }
}

/// The head a document head key names: the key's last `/`-separated segment
/// (the key's text with invalid UTF-8 replaced), when it parses as a CID.
pub open spec fn doc_key_cid(key: Seq<u8>) -> Option<Seq<char>> {
    let c = last_segment(lossy_text(key));
    if parses_as_cid(c) { Some(c) } else { None }
}

fn find_slash(cs: &Vec<char>, a: usize) -> (res: Option<usize>)
    ensures
        match res {
            Some(j) => next_slash(cs@, a as int) == Some(j as int) && a <= j < cs@.len(),
            None => next_slash(cs@, a as int) is None,
        },
{
    let mut j = a;
    while j < cs.len()
        invariant
            a <= j,
            next_slash(cs@, a as int) == next_slash(cs@, j as int),
        decreases cs.len() - j,
    {
        if cs[j] == '/' {
            return Some(j);
        }
        j += 1;
    }
    None
}

/// The head a collection head key names (see `collection_key_cid`).
pub fn collection_head_cid(key: &Vec<u8>) -> (res: Option<String>)
    ensures
        opt_view(res) == collection_key_cid(key@),
{
    let text = utf8_lossy(key.as_slice());
    let cs = chars_of(text.as_str());
    let mut a: usize = 0;
    let mut k: usize = 0;
    while k < 3
        invariant
            0 <= k <= 3,
            cs@ == text@,
            text@ == lossy_text(key@),
            segment_start(text@, k as nat) == Some(a as int),
            a <= cs@.len(),
        decreases 3 - k,
    {
        match find_slash(&cs, a) {
            Some(j) => {
                a = j + 1;
            },
            None => {
                assert(segment_start(text@, (k + 1) as nat) is None);
                assert(segment(text@, 3) is None) by {
                    lemma_segment_start_none(text@, (k + 1) as nat, 3);
                }
                assert(text@ == lossy_text(key@));
                assert(collection_key_cid(key@) is None);
                return None;
            },
        }
        k += 1;
    }
    let end = match find_slash(&cs, a) {
        Some(j) => j,
        None => cs.len(),
    };
    let seg = String::from_str(text.as_str().substring_char(a, end));
    assert(seg@ == text@.subrange(a as int, end as int));
    if cid_parses(seg.as_str()) {
        Some(seg)
    } else {
        None
    }
}

proof fn lemma_segment_start_none(s: Seq<char>, k: nat, m: nat)
    requires
        k <= m,
        segment_start(s, k) is None,
    ensures
        segment_start(s, m) is None,
    decreases m - k,
{
    if k < m {
        lemma_segment_start_none(s, k, (m - 1) as nat);
    }
}

/// The head a document head key names (see `doc_key_cid`).
pub fn doc_head_cid(key: &Vec<u8>) -> (res: Option<String>)
    ensures
        opt_view(res) == doc_key_cid(key@),
{
    let text = utf8_lossy(key.as_slice());
    let seg = last_segment_of(text.as_str());
    if cid_parses(seg.as_str()) {
        Some(seg)
    } else {
        None
    }
}

/// The heads named by the first `n` collection head keys and then by the
/// first `m` document head keys, in order.
pub open spec fn heads_of_keys(ckeys: Seq<Seq<u8>>, n: int, dkeys: Seq<Seq<u8>>, m: int) -> Seq<Seq<char>>
    decreases n, m,
{
    if m > 0 {
        let rest = heads_of_keys(ckeys, n, dkeys, m - 1);
        match doc_key_cid(dkeys[m - 1]) {
            Some(c) => rest.push(c),
            None => rest,
        }
    } else if n > 0 {
        let rest = heads_of_keys(ckeys, n - 1, dkeys, 0);
        match collection_key_cid(ckeys[n - 1]) {
            Some(c) => rest.push(c),
            None => rest,
        }
    } else {
        Seq::empty()
    }
}

/// The heads a walk over the commit history starts from: those named by the
/// collection head keys (read only when the query names no document), then
/// those named by the document head keys, in the order of the keys; keys
/// that name no CID are passed over.
pub fn head_cids(collection_keys: &Vec<Vec<u8>>, doc_keys: &Vec<Vec<u8>>) -> (res: Vec<String>)
    ensures
        views(res@) == heads_of_keys(
            collection_keys@.map_values(|k: Vec<u8>| k@), collection_keys@.len() as int,
            doc_keys@.map_values(|k: Vec<u8>| k@), doc_keys@.len() as int,
        ),
{
    let ghost ck = collection_keys@.map_values(|k: Vec<u8>| k@);
    let ghost dk = doc_keys@.map_values(|k: Vec<u8>| k@);
    let mut out: Vec<String> = Vec::new();
    let mut i: usize = 0;
    while i < collection_keys.len()
        invariant
            0 <= i <= collection_keys@.len(),
            ck == collection_keys@.map_values(|k: Vec<u8>| k@),
            views(out@) == heads_of_keys(ck, i as int, dk, 0),
        decreases collection_keys.len() - i,
    {
        assert(ck[i as int] == collection_keys@[i as int]@);
        match collection_head_cid(&collection_keys[i]) {
            Some(c) => {
                let ghost before = out@;
                out.push(c);
                assert(views(out@) =~= views(before).push(out@[out@.len() - 1]@));
            },
            None => {},
        }
        i += 1;
    }
    let mut j: usize = 0;
    while j < doc_keys.len()
        invariant
            0 <= j <= doc_keys@.len(),
            ck == collection_keys@.map_values(|k: Vec<u8>| k@),
            dk == doc_keys@.map_values(|k: Vec<u8>| k@),
            views(out@) == heads_of_keys(ck, collection_keys@.len() as int, dk, j as int),
        decreases doc_keys.len() - j,
    {
        assert(dk[j as int] == doc_keys@[j as int]@);
        match doc_head_cid(&doc_keys[j]) {
            Some(c) => {
                let ghost before = out@;
                out.push(c);
                assert(views(out@) =~= views(before).push(out@[out@.len() - 1]@));
            },
            None => {},
        }
        j += 1;
    }
    out
}

/// The roots of the commit priority index rebuild: the heads named by the
/// first `n` document head keys, each once, in the order first named.
pub open spec fn roots_of_keys(keys: Seq<Seq<u8>>, n: int) -> Seq<Seq<char>>
    decreases n,
{
    if n <= 0 {
        Seq::empty()
    } else {
        let rest = roots_of_keys(keys, n - 1);
        match doc_key_cid(keys[n - 1]) {
            Some(c) => if rest.contains(c) { rest } else { rest.push(c) },
            None => rest,
        }
    }
}

/// The heads the commit priority index is rebuilt from: those the document
/// head keys name, each once (see `roots_of_keys`).
pub fn root_head_cids(doc_keys: &Vec<Vec<u8>>) -> (res: Vec<String>)
    ensures
        views(res@) == roots_of_keys(doc_keys@.map_values(|k: Vec<u8>| k@), doc_keys@.len() as int),
{
    let ghost dk = doc_keys@.map_values(|k: Vec<u8>| k@);
    let mut out: Vec<String> = Vec::new();
    let mut j: usize = 0;
    while j < doc_keys.len()
        invariant
            0 <= j <= doc_keys@.len(),
            dk == doc_keys@.map_values(|k: Vec<u8>| k@),
            views(out@) == roots_of_keys(dk, j as int),
        decreases doc_keys.len() - j,
    {
        assert(dk[j as int] == doc_keys@[j as int]@);
        match doc_head_cid(&doc_keys[j]) {
            Some(c) => {
                if !contains_name(&out, c.as_str()) {
                    let ghost before = out@;
                    out.push(c);
                    assert(views(out@) =~= views(before).push(out@[out@.len() - 1]@));
                }
            },
            None => {},
        }
        j += 1;
    }
    out
}

/// The walk that rebuilds the commit priority index: every commit reachable
/// from `roots`, each once, the last root first, with no depth limit.
pub fn backfill_walk(roots: &Vec<String>) -> (w: HeadsWalk)
    ensures
        walk_ok(w@),
        w@.heads == views(roots@).reverse(),
        w@.next_head == 0,
        w@.stack.len() == 0,
        w@.visited.len() == 0,
        w@.max_depth is None,
        w@.current is None,
{
    let mut heads: Vec<String> = Vec::new();
    let mut i = roots.len();
    while i > 0
        invariant
            i <= roots@.len(),
            views(heads@) == views(roots@).skip(i as int).reverse(),
        decreases i,
    {
        i -= 1;
        let ghost before = heads@;
        heads.push(roots[i].clone());
        proof {
            assert(views(heads@) =~= views(before).push(roots@[i as int]@));
            assert(views(roots@).skip(i as int).reverse() =~= views(roots@).skip(i + 1).reverse().push(views(roots@)[i as int]));
        }
    }
    assert(views(roots@).skip(0) =~= views(roots@));
    HeadsWalk::new(heads, None)
}

} // verus!
