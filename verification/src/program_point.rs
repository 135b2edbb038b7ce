//! Program points: the totally ordered coordinates of a function's
//! instruction stream. Points live in an arena owned by [`ProgramPoints`] and
//! are linked into one doubly-linked list; a [`ProgramPoint`] is a handle into
//! that arena, so renumbering a block is seen by every holder of a handle.

use vstd::prelude::*;

verus! {

/// Distance between the position indices of two consecutive points of a block.
pub const IDX_STEP: usize = 16;

/// Number of positions reserved for one block in the flat ordering of points.
pub open spec fn block_span() -> int {
    0x1_0000_0000_0000_0000
}

/// The place of `(bb, idx)` in the total order: blocks first, then indices.
pub open spec fn position(bb: usize, idx: usize) -> int {
    bb as int * block_span() + idx as int
}

/// Handle of a program point inside a [`ProgramPoints`] arena.
#[derive(Clone, Copy, Debug)]
pub struct ProgramPoint {
    pub base: usize,
}

/// The record behind a handle: neighbours in the list, block and index.
#[derive(Clone, Copy, Debug)]
pub struct ProgramPointBase {
    pub prev: Option<ProgramPoint>,
    pub next: Option<ProgramPoint>,
    pub bb: usize,
    pub idx: usize,
}

/// Arena of all program points of one function.
pub struct ProgramPoints {
    allocator: Vec<ProgramPointBase>,
}

/// The handle at place `k` of `order`, if there is such a place.
pub open spec fn link(order: Seq<int>, k: int) -> Option<ProgramPoint> {
    if 0 <= k < order.len() {
        Some(ProgramPoint { base: order[k] as usize })
    } else {
        None
    }
}

/// The record `r` after the block of `from` was renumbered behind `from`:
/// a record of that block that lies behind `from` moves on by `IDX_STEP`.
pub open spec fn renumbered(r: ProgramPointBase, from: ProgramPointBase) -> ProgramPointBase {
    if r.bb == from.bb && r.pos() > from.pos() {
        ProgramPointBase { prev: r.prev, next: r.next, bb: r.bb, idx: (r.idx + IDX_STEP) as usize }
    } else {
        r
    }
}

/// The records `v` are in ascending position along the ranks `rank`.
#[verifier::opaque]
pub open spec fn ascending(v: Seq<ProgramPointBase>, rank: Seq<int>) -> bool {
    forall|a: int, b: int|
        0 <= a < v.len() && 0 <= b < v.len() && #[trigger] rank[a] < #[trigger] rank[b] ==> v[a].pos()
            < v[b].pos()
}

/// The links of `v` form one list: `order` names the handles from first to
/// last and `rank` is its inverse.
#[verifier::opaque]
pub open spec fn is_list(v: Seq<ProgramPointBase>, order: Seq<int>, rank: Seq<int>) -> bool {
    &&& order.len() == v.len()
    &&& rank.len() == v.len()
    &&& forall|k: int| 0 <= k < v.len() ==> 0 <= #[trigger] order[k] < v.len() && rank[order[k]] == k
    &&& forall|h: int| 0 <= h < v.len() ==> 0 <= #[trigger] rank[h] < v.len() && order[rank[h]] == h
    &&& forall|h: int| 0 <= h < v.len() ==> (#[trigger] v[h]).prev == link(order, rank[h] - 1)
    &&& forall|h: int| 0 <= h < v.len() ==> (#[trigger] v[h]).next == link(order, rank[h] + 1)
}

/// The record `r` moved on by `IDX_STEP`.
pub open spec fn moved_on(r: ProgramPointBase) -> ProgramPointBase {
    ProgramPointBase { prev: r.prev, next: r.next, bb: r.bb, idx: (r.idx + IDX_STEP) as usize }
}

/// The records `v` with those of rank `r0 + 1 ..= k` moved on.
pub open spec fn moved_upto(v: Seq<ProgramPointBase>, rank: Seq<int>, r0: int, k: int) -> Seq<
    ProgramPointBase,
> {
    Seq::new(
        v.len(),
        |h: int|
            if r0 < rank[h] <= k {
                moved_on(v[h])
            } else {
                v[h]
            },
    )
}

/// What a list says of the place `k`.
pub proof fn lemma_list_at(v: Seq<ProgramPointBase>, order: Seq<int>, rank: Seq<int>, k: int)
    requires
        is_list(v, order, rank),
        0 <= k < v.len(),
    ensures
        0 <= order[k] < v.len(),
        rank[order[k]] == k,
        v[order[k]].next == link(order, k + 1),
        v[order[k]].prev == link(order, k - 1),
        order.len() == v.len(),
        rank.len() == v.len(),
        k + 1 < v.len() ==> 0 <= order[k + 1] < v.len() && rank[order[k + 1]] == k + 1,
        k > 0 ==> 0 <= order[k - 1] < v.len() && rank[order[k - 1]] == k - 1,
{
    reveal(is_list);
}

/// What a list says of the handle `h`.
pub proof fn lemma_list_of(v: Seq<ProgramPointBase>, order: Seq<int>, rank: Seq<int>, h: int)
    requires
        is_list(v, order, rank),
        0 <= h < v.len(),
    ensures
        rank.len() == v.len(),
        order.len() == v.len(),
        0 <= rank[h] < v.len(),
        order[rank[h]] == h,
{
    reveal(is_list);
}

/// Two handles in ascending rank are in ascending position.
pub proof fn lemma_ascending_at(v: Seq<ProgramPointBase>, rank: Seq<int>, a: int, b: int)
    requires
        ascending(v, rank),
        0 <= a < v.len(),
        0 <= b < v.len(),
        rank[a] < rank[b],
    ensures
        v[a].pos() < v[b].pos(),
{
    reveal(ascending);
}

/// Moving the record at place `k + 1` on extends the moved stretch by one.
pub proof fn lemma_moved_step(
    v: Seq<ProgramPointBase>,
    order: Seq<int>,
    rank: Seq<int>,
    r0: int,
    k: int,
)
    requires
        is_list(v, order, rank),
        0 <= r0 <= k,
        k + 1 < v.len(),
    ensures
        moved_upto(v, rank, r0, k)[order[k + 1]] == v[order[k + 1]],
        moved_upto(v, rank, r0, k).update(order[k + 1], moved_on(v[order[k + 1]])) == moved_upto(
            v,
            rank,
            r0,
            k + 1,
        ),
{
    reveal(is_list);
    assert(moved_upto(v, rank, r0, k).update(order[k + 1], moved_on(v[order[k + 1]]))
        =~= moved_upto(v, rank, r0, k + 1));
}

/// When the walk from `h0` has stopped at place `k`, the moved stretch is
/// the part of the block behind `h0`.
pub proof fn lemma_moved_done(
    v: Seq<ProgramPointBase>,
    order: Seq<int>,
    rank: Seq<int>,
    h0: int,
    k: int,
)
    requires
        is_list(v, order, rank),
        ascending(v, rank),
        0 <= h0 < v.len(),
        rank[h0] <= k < v.len(),
        v[order[k]].bb == v[h0].bb,
        k + 1 < v.len() ==> v[order[k + 1]].bb != v[h0].bb,
    ensures
        forall|h: int|
            0 <= h < v.len() ==> #[trigger] moved_upto(v, rank, rank[h0], k)[h] == renumbered(
                v[h],
                v[h0],
            ),
{
    let r0 = rank[h0];
    lemma_list_of(v, order, rank, h0);
    lemma_list_at(v, order, rank, k);
    assert forall|h: int| 0 <= h < v.len() implies #[trigger] moved_upto(v, rank, r0, k)[h]
        == renumbered(v[h], v[h0]) by {
        lemma_list_of(v, order, rank, h);
        if rank[h] > k {
            lemma_ascending_at(v, rank, order[k], order[k + 1]);
            if rank[h] > k + 1 {
                lemma_ascending_at(v, rank, order[k + 1], h);
            }
        } else if rank[h] < r0 {
            lemma_ascending_at(v, rank, h, h0);
        } else if rank[h] > r0 {
            lemma_ascending_at(v, rank, h0, h);
            if rank[h] < k {
                lemma_ascending_at(v, rank, h, order[k]);
            }
        }
    }
}

/// Renumbering behind `from` keeps the list and moves no record past another.
pub proof fn lemma_renumbered_chain(
    v: Seq<ProgramPointBase>,
    w: Seq<ProgramPointBase>,
    order: Seq<int>,
    rank: Seq<int>,
    from: ProgramPointBase,
)
    requires
        is_list(v, order, rank),
        ascending(v, rank),
        w.len() == v.len(),
        forall|h: int| 0 <= h < v.len() ==> #[trigger] w[h] == renumbered(v[h], from),
        forall|h: int|
            0 <= h < v.len() && (#[trigger] v[h]).bb == from.bb && v[h].pos() > from.pos()
                ==> v[h].idx + IDX_STEP <= usize::MAX,
    ensures
        is_list(w, order, rank),
        ascending(w, rank),
        forall|a: int, b: int|
            0 <= a < v.len() && 0 <= b < v.len() ==> ((#[trigger] v[a]).pos() < (
            #[trigger] v[b]).pos()) == (w[a].pos() < w[b].pos()),
{
    reveal(is_list);
    reveal(ascending);
    assert forall|a: int, b: int| 0 <= a < v.len() && 0 <= b < v.len() implies ((
    #[trigger] v[a]).pos() < (#[trigger] v[b]).pos()) == (w[a].pos() < w[b].pos()) by {
        assert(w[a] == renumbered(v[a], from));
        assert(w[b] == renumbered(v[b], from));
    }
    assert forall|h: int| 0 <= h < w.len() implies (#[trigger] w[h]).prev == link(
        order,
        rank[h] - 1,
    ) && w[h].next == link(order, rank[h] + 1) by {
        assert(w[h] == renumbered(v[h], from));
    }
    assert forall|a: int, b: int|
        0 <= a < w.len() && 0 <= b < w.len() && #[trigger] rank[a] < #[trigger] rank[b] implies w[a].pos()
            < w[b].pos() by {
        assert(v[a].pos() < v[b].pos());
    }
}

/// The records `v` after `new` was linked behind `prev`: `prev` points on to
/// `new`, and `new` back to `prev`.
pub open spec fn linked_behind(v: Seq<ProgramPointBase>, prev: int, new: int) -> Seq<
    ProgramPointBase,
> {
    let a = v[prev];
    let v1 = v.update(
        prev,
        ProgramPointBase {
            prev: a.prev,
            next: Some(ProgramPoint { base: new as usize }),
            bb: a.bb,
            idx: a.idx,
        },
    );
    let b = v1[new];
    v1.update(
        new,
        ProgramPointBase {
            prev: Some(ProgramPoint { base: prev as usize }),
            next: b.next,
            bb: b.bb,
            idx: b.idx,
        },
    )
}

/// The records are crowded between `prev` and `next`: both lie in one block
/// and no index is free between theirs.
pub open spec fn crowded(v: Seq<ProgramPointBase>, prev: int, next: int) -> bool {
    v[prev].bb == v[next].bb && v[next].idx - v[prev].idx < 2
}

/// The records `v` once there is room behind `prev`: renumbered if crowded.
pub open spec fn with_room(v: Seq<ProgramPointBase>, prev: int, next: int) -> Seq<
    ProgramPointBase,
> {
    if crowded(v, prev, next) {
        Seq::new(v.len(), |h: int| renumbered(v[h], v[prev]))
    } else {
        v
    }
}

/// The index of a point put between `a` and `b`: one step behind `a` where
/// `b` opens another block, half way between the two otherwise.
pub open spec fn index_between(a: ProgramPointBase, b: ProgramPointBase) -> int {
    if a.bb != b.bb {
        a.idx + IDX_STEP
    } else {
        (a.idx + b.idx) / 2
    }
}

/// The records `v` after a new point was put between the neighbours `prev`
/// and `next`. The new point gets the next free handle.
pub open spec fn inserted_between(v: Seq<ProgramPointBase>, prev: int, next: int) -> Seq<
    ProgramPointBase,
> {
    let w = with_room(v, prev, next);
    let fresh = Some(ProgramPoint { base: v.len() as usize });
    let a = w[prev];
    let b = w[next];
    w.update(prev, ProgramPointBase { prev: a.prev, next: fresh, bb: a.bb, idx: a.idx }).update(
        next,
        ProgramPointBase { prev: fresh, next: b.next, bb: b.bb, idx: b.idx },
    ).push(
        ProgramPointBase {
            prev: Some(ProgramPoint { base: prev as usize }),
            next: Some(ProgramPoint { base: next as usize }),
            bb: a.bb,
            idx: index_between(a, b) as usize,
        },
    )
}

/// The order of a list after the new handle `n` took the place behind `k`.
pub open spec fn order_with(order: Seq<int>, k: int) -> Seq<int> {
    Seq::new(
        order.len() + 1,
        |j: int|
            if j <= k {
                order[j]
            } else if j == k + 1 {
                order.len() as int
            } else {
                order[j - 1]
            },
    )
}

/// The ranks of a list after the new handle `n` took the place behind `k`.
pub open spec fn rank_with(rank: Seq<int>, k: int) -> Seq<int> {
    Seq::new(
        rank.len() + 1,
        |h: int|
            if h == rank.len() {
                k + 1
            } else if rank[h] > k {
                rank[h] + 1
            } else {
                rank[h]
            },
    )
}

/// A point put between two neighbours of a list makes a list.
proof fn lemma_inserted_list(
    w: Seq<ProgramPointBase>,
    f: Seq<ProgramPointBase>,
    order: Seq<int>,
    rank: Seq<int>,
    prev: int,
    next: int,
)
    requires
        is_list(w, order, rank),
        0 <= prev < w.len(),
        0 <= next < w.len(),
        w.len() < usize::MAX,
        rank[next] == rank[prev] + 1,
        f.len() == w.len() + 1,
        f[w.len() as int].prev == Some(ProgramPoint { base: prev as usize }),
        f[w.len() as int].next == Some(ProgramPoint { base: next as usize }),
        forall|h: int|
            0 <= h < w.len() ==> (#[trigger] f[h]).prev == (if h == next {
                Some(ProgramPoint { base: w.len() as usize })
            } else {
                w[h].prev
            }),
        forall|h: int|
            0 <= h < w.len() ==> (#[trigger] f[h]).next == (if h == prev {
                Some(ProgramPoint { base: w.len() as usize })
            } else {
                w[h].next
            }),
    ensures
        is_list(f, order_with(order, rank[prev]), rank_with(rank, rank[prev])),
{
    reveal(is_list);
    let n = w.len() as int;
    let k = rank[prev];
    let o2 = order_with(order, k);
    let r2 = rank_with(rank, k);
    assert(order[k] == prev);
    assert(order[k + 1] == next);
    assert forall|j: int| 0 <= j < f.len() implies 0 <= #[trigger] o2[j] < f.len() && r2[o2[j]]
        == j by {
        if j <= k {
            assert(rank[order[j]] == j);
        } else if j > k + 1 {
            assert(rank[order[j - 1]] == j - 1);
        }
    }
    assert forall|h: int| 0 <= h < f.len() implies 0 <= #[trigger] r2[h] < f.len() && o2[r2[h]]
        == h by {
        if h < n {
            assert(order[rank[h]] == h);
        }
    }
    assert forall|h: int| 0 <= h < f.len() implies (#[trigger] f[h]).prev == link(o2, r2[h] - 1) by {
        if h < n {
            assert(order[rank[h]] == h);
            assert(w[h].prev == link(order, rank[h] - 1));
            if rank[h] == k + 1 {
                assert(h == next);
            }
        }
    }
    assert forall|h: int| 0 <= h < f.len() implies (#[trigger] f[h]).next == link(o2, r2[h] + 1) by {
        if h < n {
            assert(order[rank[h]] == h);
            assert(w[h].next == link(order, rank[h] + 1));
            if rank[h] == k {
                assert(h == prev);
            }
        }
    }
}

/// A point put strictly between two neighbours of a chain keeps the
/// positions ascending.
proof fn lemma_inserted_ascending(
    w: Seq<ProgramPointBase>,
    f: Seq<ProgramPointBase>,
    order: Seq<int>,
    rank: Seq<int>,
    prev: int,
    next: int,
)
    requires
        is_list(w, order, rank),
        ascending(w, rank),
        0 <= prev < w.len(),
        0 <= next < w.len(),
        rank[next] == rank[prev] + 1,
        f.len() == w.len() + 1,
        w[prev].pos() < f[w.len() as int].pos() < w[next].pos(),
        forall|h: int| 0 <= h < w.len() ==> (#[trigger] f[h]).pos() == w[h].pos(),
    ensures
        ascending(f, rank_with(rank, rank[prev])),
{
    reveal(ascending);
    let n = w.len() as int;
    let k = rank[prev];
    let r2 = rank_with(rank, k);
    lemma_list_of(w, order, rank, prev);
    lemma_list_of(w, order, rank, next);
    assert forall|a: int, b: int|
        0 <= a < f.len() && 0 <= b < f.len() && #[trigger] r2[a] < #[trigger] r2[b] implies f[a].pos()
            < f[b].pos() by {
        if a < n {
            lemma_list_of(w, order, rank, a);
        }
        if b < n {
            lemma_list_of(w, order, rank, b);
        }
        if a < n && b < n {
            assert(rank[a] < rank[b]);
            assert(w[a].pos() < w[b].pos());
            assert(f[a].pos() == w[a].pos());
            assert(f[b].pos() == w[b].pos());
        } else if a == n {
            assert(f[b].pos() == w[b].pos());
            if rank[b] > k + 1 {
                assert(rank[next] < rank[b]);
                assert(w[next].pos() < w[b].pos());
            } else {
                assert(b == next);
            }
        } else {
            assert(f[a].pos() == w[a].pos());
            if rank[a] < k {
                assert(rank[a] < rank[prev]);
                assert(w[a].pos() < w[prev].pos());
            } else {
                assert(a == prev);
            }
        }
    }
}

/// A point put strictly between two neighbours of a chain makes a chain.
pub proof fn lemma_inserted_chain(
    w: Seq<ProgramPointBase>,
    f: Seq<ProgramPointBase>,
    order: Seq<int>,
    rank: Seq<int>,
    prev: int,
    next: int,
)
    requires
        is_list(w, order, rank),
        ascending(w, rank),
        0 <= prev < w.len(),
        0 <= next < w.len(),
        w.len() < usize::MAX,
        rank[next] == rank[prev] + 1,
        f.len() == w.len() + 1,
        f[w.len() as int].prev == Some(ProgramPoint { base: prev as usize }),
        f[w.len() as int].next == Some(ProgramPoint { base: next as usize }),
        w[prev].pos() < f[w.len() as int].pos() < w[next].pos(),
        forall|h: int| 0 <= h < w.len() ==> (#[trigger] f[h]).pos() == w[h].pos(),
        forall|h: int|
            0 <= h < w.len() ==> (#[trigger] f[h]).prev == (if h == next {
                Some(ProgramPoint { base: w.len() as usize })
            } else {
                w[h].prev
            }),
        forall|h: int|
            0 <= h < w.len() ==> (#[trigger] f[h]).next == (if h == prev {
                Some(ProgramPoint { base: w.len() as usize })
            } else {
                w[h].next
            }),
    ensures
        is_list(f, order_with(order, rank[prev]), rank_with(rank, rank[prev])),
        ascending(f, rank_with(rank, rank[prev])),
{
    lemma_inserted_list(w, f, order, rank, prev, next);
    lemma_inserted_ascending(w, f, order, rank, prev, next);
}

/// A point that is linked behind the last point of a chain, and lies behind
/// it, makes a chain.
pub proof fn lemma_appended_chain(
    v: Seq<ProgramPointBase>,
    b: ProgramPointBase,
    order: Seq<int>,
    rank: Seq<int>,
    last: int,
)
    requires
        is_list(v, order, rank),
        ascending(v, rank),
        0 <= last < v.len(),
        v.len() < usize::MAX,
        v[last].next is None,
        b.prev is None,
        b.next is None,
        v[last].pos() < b.pos(),
    ensures
        is_list(linked_behind(v.push(b), last, v.len() as int), order.push(v.len() as int), rank.push(v.len() as int)),
        ascending(linked_behind(v.push(b), last, v.len() as int), rank.push(v.len() as int)),
{
    reveal(is_list);
    reveal(ascending);
    let n = v.len() as int;
    let f = linked_behind(v.push(b), last, n);
    let o2 = order.push(n);
    let r2 = rank.push(n);
    assert(v[last].next == link(order, rank[last] + 1));
    assert(rank[last] == n - 1);
    assert(order[n - 1] == last);
    assert forall|k: int| 0 <= k < f.len() implies 0 <= #[trigger] o2[k] < f.len() && r2[o2[k]]
        == k by {
        if k < n {
            assert(rank[order[k]] == k);
        }
    }
    assert forall|h: int| 0 <= h < f.len() implies 0 <= #[trigger] r2[h] < f.len() && o2[r2[h]]
        == h by {
        if h < n {
            assert(order[rank[h]] == h);
        }
    }
    assert forall|h: int| 0 <= h < f.len() implies (#[trigger] f[h]).prev == link(o2, r2[h] - 1)
        && f[h].next == link(o2, r2[h] + 1) by {
        if h < n {
            assert(order[rank[h]] == h);
            assert(v[h].prev == link(order, rank[h] - 1));
            assert(v[h].next == link(order, rank[h] + 1));
            if rank[h] == n - 1 {
                assert(h == last);
            }
        }
    }
    assert forall|a: int, c: int|
        0 <= a < f.len() && 0 <= c < f.len() && #[trigger] r2[a] < #[trigger] r2[c] implies f[a].pos()
            < f[c].pos() by {
        if c < n {
            assert(rank[a] < rank[c]);
        } else {
            assert(order[rank[a]] == a);
            if a != last {
                assert(rank[a] < rank[last]);
            }
        }
    }
}

/// A single point without neighbours is a chain.
pub proof fn lemma_single_chain(v: Seq<ProgramPointBase>)
    requires
        v.len() == 1,
        v[0].prev is None,
        v[0].next is None,
    ensures
        is_list(v, seq![0int], seq![0int]),
        ascending(v, seq![0int]),
{
    reveal(is_list);
    reveal(ascending);
}

impl ProgramPointBase {
    /// Position of this record in the total order.
    pub open spec fn pos(&self) -> int {
        position(self.bb, self.idx)
    }

    pub fn new(
        prev: Option<ProgramPoint>,
        next: Option<ProgramPoint>,
        bb: usize,
        idx: usize,
    ) -> (r: Self)
        ensures
            r.prev == prev,
            r.next == next,
            r.bb == bb,
            r.idx == idx,
    {
        Self { prev, next, bb, idx }
    }

    pub fn idx(&self) -> (r: usize)
        ensures
            r == self.idx,
    {
        self.idx
    }

    pub fn bb(&self) -> (r: usize)
        ensures
            r == self.bb,
    {
        self.bb
    }

    /// Makes room behind this record: every point of its block that lies
    /// behind it moves on by `IDX_STEP`. The walk follows the list from this
    /// record to the end of the block.
    pub fn renumber_in_bb(&self, pps: &mut ProgramPoints)
        requires
            old(pps).linked(),
            exists|h: int| 0 <= h < old(pps)@.len() && #[trigger] old(pps)@[h] == *self,
            forall|h: int|
                0 <= h < old(pps)@.len() && (#[trigger] old(pps)@[h]).bb == self.bb && old(pps)@[h].pos() > self.pos() ==> old(pps)@[h].idx + IDX_STEP <= usize::MAX,
        ensures
            final(pps)@.len() == old(pps)@.len(),
            forall|h: int|
                0 <= h < old(pps)@.len() ==> #[trigger] final(pps)@[h] == renumbered(
                    old(pps)@[h],
                    *self,
                ),
            final(pps).linked(),
    {
        let ghost v = pps@;
        let ghost n = v.len() as int;
        let ghost (order, rank) = choose|p: (Seq<int>, Seq<int>)| pps.is_chain(p.0, p.1);
        let ghost h0 = choose|h: int| 0 <= h < v.len() && #[trigger] v[h] == *self;
        let ghost r0 = rank[h0];
        let ghost mut k = r0;
        let mut cur: ProgramPointBase = *self;
        let mut go = true;
        let len = pps.allocator.len();
        proof {
            lemma_list_of(v, order, rank, h0);
            assert(pps@ =~= moved_upto(v, rank, r0, k));
        }
        while go
            invariant
                n == v.len(),
                n == len,
                is_list(v, order, rank),
                ascending(v, rank),
                0 <= h0 < n,
                v[h0] == *self,
                r0 == rank[h0],
                0 <= r0 <= k < n,
                pps@ == moved_upto(v, rank, r0, k),
                cur.next == v[order[k]].next,
                cur.bb == self.bb,
                v[order[k]].bb == self.bb,
                forall|h: int|
                    0 <= h < n && (#[trigger] v[h]).bb == self.bb && v[h].pos() > self.pos()
                        ==> v[h].idx + IDX_STEP <= usize::MAX,
                !go ==> (k + 1 < n ==> v[order[k + 1]].bb != self.bb),
            decreases (n - k) * 2 + (if go { 1int } else { 0int }),
        {
            proof {
                lemma_list_at(v, order, rank, k);
            }
            match cur.next {
                None => {
                    go = false;
                },
                Some(next) => {
                    proof {
                        assert(k + 1 < n);
                        assert(next.base == order[k + 1]);
                        lemma_moved_step(v, order, rank, r0, k);
                    }
                    let nb = pps.allocator[next.base];
                    assert(nb == v[order[k + 1]]);
                    if cur.bb != nb.bb {
                        go = false;
                    } else {
                        proof {
                            lemma_ascending_at(v, rank, h0, order[k + 1]);
                            lemma_list_at(v, order, rank, k + 1);
                        }
                        let moved = ProgramPointBase {
                            prev: nb.prev,
                            next: nb.next,
                            bb: nb.bb,
                            idx: nb.idx + IDX_STEP,
                        };
                        pps.allocator.set(next.base, moved);
                        cur = moved;
                        proof {
                            k = k + 1;
                        }
                    }
                },
            }
        }
        proof {
            lemma_list_at(v, order, rank, k);
            lemma_moved_done(v, order, rank, h0, k);
            lemma_renumbered_chain(v, pps@, order, rank, *self);
            assert(pps.is_chain(order, rank));
        }
    }
}

impl ProgramPoint {
    pub fn new(base: usize) -> (r: Self)
        ensures
            r.base == base,
    {
        Self { base }
    }

    /// Links this point behind `pp`, if there is one: `pp` points on to this
    /// point and this point back to `pp`.
    pub fn set_prev(self, pps: &mut ProgramPoints, pp: Option<ProgramPoint>) -> (r: Self)
        requires
            old(pps).contains(self),
            pp is Some ==> old(pps).contains(pp->0),
        ensures
            r == self,
            final(pps)@ == (match pp {
                Some(q) => linked_behind(old(pps)@, q.base as int, self.base as int),
                None => old(pps)@,
            }),
    {
        match pp {
            Some(q) => {
                let a = pps.allocator[q.base];
                pps.allocator.set(
                    q.base,
                    ProgramPointBase { prev: a.prev, next: Some(self), bb: a.bb, idx: a.idx },
                );
                let b = pps.allocator[self.base];
                pps.allocator.set(
                    self.base,
                    ProgramPointBase { prev: Some(q), next: b.next, bb: b.bb, idx: b.idx },
                );
            },
            None => {},
        }
        self
    }

    pub fn idx(&self, pps: &ProgramPoints) -> (r: usize)
        requires
            pps.contains(*self),
        ensures
            r == pps.base_of(*self).idx,
    {
        pps.allocator[self.base].idx
    }

    pub fn bb(&self, pps: &ProgramPoints) -> (r: usize)
        requires
            pps.contains(*self),
        ensures
            r == pps.base_of(*self).bb,
    {
        pps.allocator[self.base].bb
    }
}

impl ProgramPoints {
    /// The records of the arena, by handle.
    pub closed spec fn view(&self) -> Seq<ProgramPointBase> {
        self.allocator@
    }

    /// `pp` is a handle of this arena.
    pub open spec fn contains(&self, pp: ProgramPoint) -> bool {
        pp.base < self@.len()
    }

    pub open spec fn base_of(&self, pp: ProgramPoint) -> ProgramPointBase {
        self@[pp.base as int]
    }

    /// Position of `pp` in the total order of points.
    pub open spec fn pos(&self, pp: ProgramPoint) -> int {
        self.base_of(pp).pos()
    }

    /// `order` and `rank` describe the one list that holds every point, in
    /// ascending position.
    pub open spec fn is_chain(&self, order: Seq<int>, rank: Seq<int>) -> bool {
        is_list(self@, order, rank) && ascending(self@, rank)
    }

    /// The invariant of the arena: the links form one list that holds every
    /// point, and the positions ascend along it.
    pub open spec fn linked(&self) -> bool {
        exists|p: (Seq<int>, Seq<int>)| self.is_chain(p.0, p.1)
    }

    pub fn new() -> (r: Self)
        ensures
            r@.len() == 0,
    {
        Self { allocator: Vec::new() }
    }

    pub fn len(&self) -> (r: usize)
        ensures
            r == self@.len(),
    {
        self.allocator.len()
    }

    /// Stores `ppb` and returns its handle. The links of other records are
    /// left as they are.
    pub fn new_program_point(&mut self, ppb: ProgramPointBase) -> (p: ProgramPoint)
        ensures
            final(self)@ == old(self)@.push(ppb),
            p.base == old(self)@.len(),
    {
        let base = self.allocator.len();
        self.allocator.push(ppb);
        ProgramPoint::new(base)
    }

    /// A copy of the record behind `pp`.
    pub fn get(&self, pp: ProgramPoint) -> (r: ProgramPointBase)
        requires
            self.contains(pp),
        ensures
            r == self.base_of(pp),
    {
        self.allocator[pp.base]
    }

    /// `a` comes strictly before `b`.
    pub fn precedes(&self, a: ProgramPoint, b: ProgramPoint) -> (r: bool)
        requires
            self.contains(a),
            self.contains(b),
        ensures
            r == (self.pos(a) < self.pos(b)),
    {
        let x = &self.allocator[a.base];
        let y = &self.allocator[b.base];
        x.bb < y.bb || (x.bb == y.bb && x.idx < y.idx)
    }

    /// `a` and `b` denote the same place (they may still be two handles).
    pub fn same_place(&self, a: ProgramPoint, b: ProgramPoint) -> (r: bool)
        requires
            self.contains(a),
            self.contains(b),
        ensures
            r == (self.pos(a) == self.pos(b)),
    {
        let x = &self.allocator[a.base];
        let y = &self.allocator[b.base];
        x.bb == y.bb && x.idx == y.idx
    }

    /// The indices that an insertion between `prev` and `next` writes fit
    /// the machine's integers.
    pub open spec fn has_room(&self, prev: ProgramPoint, next: ProgramPoint) -> bool {
        let a = self.base_of(prev);
        let b = self.base_of(next);
        &&& self@.len() < usize::MAX
        &&& a.bb != b.bb ==> a.idx + IDX_STEP <= usize::MAX
        &&& crowded(self@, prev.base as int, next.base as int) ==> forall|h: int|
            0 <= h < self@.len() && (#[trigger] self@[h]).bb == a.bb && self@[h].pos() > a.pos()
                ==> self@[h].idx + IDX_STEP <= usize::MAX
    }

    /// Puts a new point between the neighbours `prev` and `next`. Where
    /// `next` opens another block, the point closes the block of `prev`, one
    /// step behind it. Otherwise it lies half way between the two, after the
    /// block was renumbered behind `prev` if no index was free.
    fn insert_between(&mut self, prev: ProgramPoint, next: ProgramPoint) -> (p: ProgramPoint)
        requires
            old(self).linked(),
            old(self).contains(prev),
            old(self).contains(next),
            old(self).base_of(prev).next == Some(next),
            old(self).has_room(prev, next),
        ensures
            p.base == old(self)@.len(),
            final(self)@ == inserted_between(old(self)@, prev.base as int, next.base as int),
            final(self).linked(),
            final(self).pos(prev) < final(self).pos(p) < final(self).pos(next),
            forall|a: int, b: int|
                0 <= a < old(self)@.len() && 0 <= b < old(self)@.len() ==> ((
                #[trigger] old(self)@[a]).pos() < (#[trigger] old(self)@[b]).pos()) == (final(self)@[a].pos() < final(self)@[b].pos()),
    {
        let ghost v = self@;
        let ghost (order, rank) = choose|p: (Seq<int>, Seq<int>)| self.is_chain(p.0, p.1);
        let a = self.allocator[prev.base];
        let b0 = self.allocator[next.base];
        proof {
            lemma_list_of(v, order, rank, prev.base as int);
            lemma_list_of(v, order, rank, next.base as int);
            lemma_list_at(v, order, rank, rank[prev.base as int]);
            lemma_ascending_at(v, rank, prev.base as int, next.base as int);
        }
        if a.bb == b0.bb && b0.idx - a.idx < 2 {
            a.renumber_in_bb(self);
            proof {
                lemma_renumbered_chain(v, self@, order, rank, a);
                assert(self@ =~= with_room(v, prev.base as int, next.base as int));
            }
        }
        let ghost w = self@;
        let b = self.allocator[next.base];
        let idx = if a.bb != b.bb {
            a.idx + IDX_STEP
        } else {
            a.idx + (b.idx - a.idx) / 2
        };
        let fresh = self.new_program_point(ProgramPointBase::new(Some(prev), Some(next), a.bb, idx));
        self.allocator.set(
            prev.base,
            ProgramPointBase { prev: a.prev, next: Some(fresh), bb: a.bb, idx: a.idx },
        );
        self.allocator.set(
            next.base,
            ProgramPointBase { prev: Some(fresh), next: b.next, bb: b.bb, idx: b.idx },
        );
        proof {
            assert(w == with_room(v, prev.base as int, next.base as int));
            assert(self@ =~= inserted_between(v, prev.base as int, next.base as int));
            lemma_inserted_chain(w, self@, order, rank, prev.base as int, next.base as int);
            let chain = (
                order_with(order, rank[prev.base as int]),
                rank_with(rank, rank[prev.base as int]),
            );
            assert(self.is_chain(chain.0, chain.1));
        }
        fresh
    }

    /// A new point directly in front of `pp`.
    pub fn prev_of(&mut self, pp: ProgramPoint) -> (p: ProgramPoint)
        requires
            old(self).linked(),
            old(self).contains(pp),
            old(self).base_of(pp).prev is Some,
            old(self).has_room(old(self).base_of(pp).prev->0, pp),
        ensures
            p.base == old(self)@.len(),
            final(self)@ == inserted_between(
                old(self)@,
                old(self).base_of(pp).prev->0.base as int,
                pp.base as int,
            ),
            final(self).linked(),
            final(self).pos(old(self).base_of(pp).prev->0) < final(self).pos(p) < final(self).pos(
                pp,
            ),
            forall|a: int, b: int|
                0 <= a < old(self)@.len() && 0 <= b < old(self)@.len() ==> ((
                #[trigger] old(self)@[a]).pos() < (#[trigger] old(self)@[b]).pos()) == (final(self)@[a].pos() < final(self)@[b].pos()),
    {
        let prev = self.allocator[pp.base].prev.unwrap();
        proof {
            let (order, rank) = choose|p: (Seq<int>, Seq<int>)| self.is_chain(p.0, p.1);
            lemma_list_of(self@, order, rank, pp.base as int);
            lemma_list_at(self@, order, rank, rank[pp.base as int]);
            lemma_list_at(self@, order, rank, rank[pp.base as int] - 1);
        }
        self.insert_between(prev, pp)
    }

    /// A new point directly behind `pp`.
    pub fn next_of(&mut self, pp: ProgramPoint) -> (p: ProgramPoint)
        requires
            old(self).linked(),
            old(self).contains(pp),
            old(self).base_of(pp).next is Some,
            old(self).has_room(pp, old(self).base_of(pp).next->0),
        ensures
            p.base == old(self)@.len(),
            final(self)@ == inserted_between(
                old(self)@,
                pp.base as int,
                old(self).base_of(pp).next->0.base as int,
            ),
            final(self).linked(),
            final(self).pos(pp) < final(self).pos(p) < final(self).pos(
                old(self).base_of(pp).next->0,
            ),
            forall|a: int, b: int|
                0 <= a < old(self)@.len() && 0 <= b < old(self)@.len() ==> ((
                #[trigger] old(self)@[a]).pos() < (#[trigger] old(self)@[b]).pos()) == (final(self)@[a].pos() < final(self)@[b].pos()),
    {
        let next = self.allocator[pp.base].next.unwrap();
        proof {
            let (order, rank) = choose|p: (Seq<int>, Seq<int>)| self.is_chain(p.0, p.1);
            lemma_list_of(self@, order, rank, pp.base as int);
            lemma_list_at(self@, order, rank, rank[pp.base as int]);
        }
        self.insert_between(pp, next)
    }

    /// The first point, by handle, that lies at `(bb, idx)`.
    pub fn lookup(&self, bb: usize, idx: usize) -> (r: Option<ProgramPoint>)
        ensures
            match r {
                Some(p) => self.contains(p) && self.base_of(p).bb == bb && self.base_of(p).idx
                    == idx && forall|h: int|
                    0 <= h < p.base ==> !(#[trigger] self@[h].bb == bb && self@[h].idx == idx),
                None => forall|h: int|
                    0 <= h < self@.len() ==> !(#[trigger] self@[h].bb == bb && self@[h].idx
                        == idx),
            },
    {
        let mut i: usize = 0;
        while i < self.allocator.len()
            invariant
                i <= self.allocator.len(),
                forall|h: int|
                    0 <= h < i ==> !(#[trigger] self@[h].bb == bb && self@[h].idx == idx),
            decreases self.allocator.len() - i,
        {
            if self.allocator[i].bb == bb && self.allocator[i].idx == idx {
                return Some(ProgramPoint::new(i));
            }
            i += 1;
        }
        None
    }
}

} // verus!
