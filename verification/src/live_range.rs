//! Live ranges: sorted, coalesced lists of half-open segments of program
//! points, with the insertion, removal and interference queries that a
//! register allocator needs.

use crate::program_point::{ProgramPoint, ProgramPoints};
use vstd::prelude::*;

verus! {

/// A half-open interval `[start, end)` of program points.
#[derive(Debug, Clone, Copy)]
pub struct LiveSegment {
    pub start: ProgramPoint,
    pub end: ProgramPoint,
}

/// The segments during which one register is live.
#[derive(Debug, Clone)]
pub struct LiveRange {
    pub segments: Vec<LiveSegment>,
}

/// Two spans overlap: each starts before the other ends.
pub open spec fn spans_overlap(a: (int, int), b: (int, int)) -> bool {
    a.0 < b.1 && a.1 > b.0
}

/// Some span of `a` overlaps some span of `b`.
pub open spec fn any_overlap(a: Seq<(int, int)>, b: Seq<(int, int)>) -> bool {
    exists|i: int, j: int|
        0 <= i < a.len() && 0 <= j < b.len() && #[trigger] spans_overlap(a[i], b[j])
}

/// Every span is an interval, and each ends strictly before the next starts:
/// sorted, disjoint and not even adjacent.
pub open spec fn separated(segs: Seq<(int, int)>) -> bool {
    &&& forall|i: int| 0 <= i < segs.len() ==> (#[trigger] segs[i]).0 <= segs[i].1
    &&& forall|i: int, j: int| 0 <= i < j < segs.len() ==> (#[trigger] segs[i]).1 < (#[trigger] segs[j]).0
}

/// `p` lies in the span `[a.0, a.1)`.
pub open spec fn span_holds(a: (int, int), p: int) -> bool {
    a.0 <= p < a.1
}

/// The least of two positions.
pub open spec fn min_pos(a: int, b: int) -> int {
    if a <= b {
        a
    } else {
        b
    }
}

/// The greatest of two positions.
pub open spec fn max_pos(a: int, b: int) -> int {
    if a >= b {
        a
    } else {
        b
    }
}

/// The separated list that covers `segs` and `[s, e)`: spans that end before
/// `s` or start after `e` stay as they are, and every span that overlaps or
/// abuts the new one is merged with it into a single span.
pub open spec fn insert_span(segs: Seq<(int, int)>, s: int, e: int) -> Seq<(int, int)>
    decreases segs.len(),
{
    if segs.len() == 0 {
        seq![(s, e)]
    } else if segs[0].1 < s {
        seq![segs[0]] + insert_span(segs.drop_first(), s, e)
    } else if e < segs[0].0 {
        seq![(s, e)] + segs
    } else {
        insert_span(segs.drop_first(), min_pos(segs[0].0, s), max_pos(segs[0].1, e))
    }
}

/// `base` after the first `n` spans of `add` were inserted one by one.
pub open spec fn insert_spans(base: Seq<(int, int)>, add: Seq<(int, int)>, n: int) -> Seq<
    (int, int),
>
    decreases n,
{
    if n <= 0 {
        base
    } else {
        insert_span(insert_spans(base, add, n - 1), add[n - 1].0, add[n - 1].1)
    }
}

/// Spans that end before `s` are passed over by an insertion.
pub proof fn lemma_insert_span_skips(segs: Seq<(int, int)>, s: int, e: int, k: int)
    requires
        0 <= k <= segs.len(),
        forall|i: int| 0 <= i < k ==> (#[trigger] segs[i]).1 < s,
    ensures
        insert_span(segs, s, e) == segs.take(k) + insert_span(segs.skip(k), s, e),
    decreases k,
{
    if k == 0 {
        assert(segs.skip(0) =~= segs);
        assert(segs.take(0) + insert_span(segs, s, e) =~= insert_span(segs, s, e));
    } else {
        let rest = segs.drop_first();
        assert forall|i: int| 0 <= i < k - 1 implies (#[trigger] rest[i]).1 < s by {
            assert(rest[i] == segs[i + 1]);
        }
        lemma_insert_span_skips(rest, s, e, k - 1);
        assert(rest.skip(k - 1) =~= segs.skip(k));
        assert(seq![segs[0]] + (rest.take(k - 1) + insert_span(segs.skip(k), s, e)) =~= segs.take(
            k,
        ) + insert_span(segs.skip(k), s, e));
    }
}

/// What an insertion does once the spans before `lo` are passed over: the
/// span before `pt`, if it reaches `s`, is merged with the new one.
pub proof fn lemma_insert_span_prefix(
    v: Seq<(int, int)>,
    s: int,
    e: int,
    pt: int,
    lo: int,
    s0: int,
    e0: int,
)
    requires
        separated(v),
        s <= e,
        0 <= pt <= v.len(),
        forall|i: int| 0 <= i < pt ==> (#[trigger] v[i]).0 < s,
        forall|i: int| pt <= i < v.len() ==> (#[trigger] v[i]).0 >= s,
        lo == pt || lo == pt - 1,
        lo >= 0,
        lo == pt ==> s0 == s && e0 == e && (pt > 0 ==> v[pt - 1].1 < s),
        lo < pt ==> v[lo].1 >= s && s0 == v[lo].0 && e0 == max_pos(v[lo].1, e),
    ensures
        insert_span(v, s, e) == v.take(lo) + insert_span(v.skip(pt), s0, e0),
        s0 <= e0,
        s0 <= s,
        forall|i: int| 0 <= i < lo ==> (#[trigger] v[i]).1 < s0,
        forall|i: int| pt <= i < v.len() ==> (#[trigger] v[i]).0 >= s0,
{
    assert forall|i: int| 0 <= i < lo implies (#[trigger] v[i]).1 < s by {
        if i + 1 < pt {
            assert(v[i].1 < v[i + 1].0);
        }
    }
    lemma_insert_span_skips(v, s, e, lo);
    if lo < pt {
        assert(v.skip(lo)[0] == v[lo]);
        assert(v.skip(lo).drop_first() =~= v.skip(pt));
        assert(v[lo].0 <= v[lo].1);
        assert forall|i: int| 0 <= i < lo implies (#[trigger] v[i]).1 < s0 by {
            assert(v[i].1 < v[lo].0);
        }
    }
}

/// A span that the new one reaches is merged into it.
pub proof fn lemma_insert_span_absorbs(v: Seq<(int, int)>, k: int, s: int, e: int)
    requires
        0 <= k < v.len(),
        s <= v[k].0 <= v[k].1,
        v[k].0 <= e,
    ensures
        insert_span(v.skip(k), s, e) == insert_span(v.skip(k + 1), s, max_pos(v[k].1, e)),
{
    assert(v.skip(k)[0] == v[k]);
    assert(v.skip(k).drop_first() =~= v.skip(k + 1));
}

/// An insertion ends at the first span that starts after the new one.
pub proof fn lemma_insert_span_stops(v: Seq<(int, int)>, k: int, s: int, e: int)
    requires
        0 <= k <= v.len(),
        k < v.len() ==> e < v[k].0 && s <= v[k].1,
    ensures
        insert_span(v.skip(k), s, e) == seq![(s, e)] + v.skip(k),
{
    if k < v.len() {
        assert(v.skip(k)[0] == v[k]);
    } else {
        assert(v.skip(k) =~= Seq::<(int, int)>::empty());
        assert(seq![(s, e)] + v.skip(k) =~= seq![(s, e)]);
    }
}

/// The outcome of an insertion whose merged span `(s0, e1)` takes the place
/// of the spans `lo..hi`.
pub proof fn lemma_insert_span_finish(
    v: Seq<(int, int)>,
    s: int,
    e: int,
    lo: int,
    pt: int,
    hi: int,
    s0: int,
    e0: int,
    e1: int,
)
    requires
        separated(v),
        0 <= lo <= pt <= hi <= v.len(),
        s0 <= e1,
        insert_span(v, s, e) == v.take(lo) + insert_span(v.skip(pt), s0, e0),
        insert_span(v.skip(pt), s0, e0) == insert_span(v.skip(hi), s0, e1),
        forall|i: int| 0 <= i < lo ==> (#[trigger] v[i]).1 < s0,
        hi < v.len() ==> e1 < v[hi].0 && s0 <= v[hi].0,
    ensures
        insert_span(v, s, e) == v.take(lo) + seq![(s0, e1)] + v.skip(hi),
        separated(v.take(lo) + seq![(s0, e1)] + v.skip(hi)),
{
    let m = (s0, e1);
    if hi < v.len() {
        assert(v[hi].0 <= v[hi].1);
    }
    lemma_insert_span_stops(v, hi, s0, e1);
    assert forall|j: int| hi <= j < v.len() implies m.1 < (#[trigger] v[j]).0 by {
        assert(v[hi].0 <= v[hi].1);
        if j > hi {
            assert(v[hi].1 < v[j].0);
        }
    }
    lemma_replace_separated(v, lo, hi, seq![m]);
    assert(v.take(lo) + seq![m] + v.skip(hi) =~= v.take(lo) + (seq![m] + v.skip(hi)));
}

/// Replacing the spans `lo..hi` of a separated list by a separated list that
/// lies strictly between the neighbours leaves the list separated.
pub proof fn lemma_replace_separated(v: Seq<(int, int)>, lo: int, hi: int, mid: Seq<(int, int)>)
    requires
        separated(v),
        separated(mid),
        0 <= lo <= hi <= v.len(),
        forall|i: int, k: int|
            0 <= i < lo && 0 <= k < mid.len() ==> (#[trigger] v[i]).1 < (#[trigger] mid[k]).0,
        forall|j: int, k: int|
            hi <= j < v.len() && 0 <= k < mid.len() ==> (#[trigger] mid[k]).1 < (#[trigger] v[j]).0,
    ensures
        separated(v.take(lo) + mid + v.skip(hi)),
{
    let w = v.take(lo) + mid + v.skip(hi);
    let d = hi - lo - mid.len();
    assert forall|i: int| 0 <= i < w.len() implies (#[trigger] w[i]).0 <= w[i].1 by {
        if i < lo {
            assert(w[i] == v[i]);
        } else if i < lo + mid.len() {
            assert(w[i] == mid[i - lo]);
        } else {
            assert(w[i] == v[i + d]);
        }
    }
    assert forall|i: int, j: int| 0 <= i < j < w.len() implies (#[trigger] w[i]).1 < (
    #[trigger] w[j]).0 by {
        if i < lo {
            assert(w[i] == v[i]);
        } else if i < lo + mid.len() {
            assert(w[i] == mid[i - lo]);
        } else {
            assert(w[i] == v[i + d]);
        }
        if j < lo {
            assert(w[j] == v[j]);
        } else if j < lo + mid.len() {
            assert(w[j] == mid[j - lo]);
        } else {
            assert(w[j] == v[j + d]);
        }
    }
}

/// The spans of a list of segments.
pub open spec fn spans_of(segs: Seq<LiveSegment>, pps: &ProgramPoints) -> Seq<(int, int)> {
    Seq::new(segs.len(), |i: int| segs[i].span(pps))
}

/// The spans of a list in which the segments `lo..hi` gave way to `mid`.
pub proof fn lemma_spans_of_replace(
    a: Seq<LiveSegment>,
    b: Seq<LiveSegment>,
    pps: &ProgramPoints,
    lo: int,
    hi: int,
    mid: Seq<LiveSegment>,
)
    requires
        0 <= lo <= hi <= a.len(),
        b == a.take(lo) + mid + a.skip(hi),
        forall|i: int| 0 <= i < a.len() ==> (#[trigger] a[i]).valid(pps),
        forall|i: int| 0 <= i < mid.len() ==> (#[trigger] mid[i]).valid(pps),
    ensures
        forall|i: int| 0 <= i < b.len() ==> (#[trigger] b[i]).valid(pps),
        spans_of(b, pps) == spans_of(a, pps).take(lo) + spans_of(mid, pps) + spans_of(a, pps).skip(
            hi,
        ),
{
    let d = hi - lo - mid.len();
    assert forall|i: int| 0 <= i < b.len() implies (#[trigger] b[i]).valid(pps) by {
        if i < lo {
            assert(b[i] == a[i]);
        } else if i < lo + mid.len() {
            assert(b[i] == mid[i - lo]);
        } else {
            assert(b[i] == a[i + d]);
        }
    }
    assert(spans_of(b, pps) =~= spans_of(a, pps).take(lo) + spans_of(mid, pps) + spans_of(
        a,
        pps,
    ).skip(hi));
}

/// What is left of the span `a` when `[s, e)` is taken out of it. An empty
/// span goes when it lies in `[s, e)`, or when the request is the very same
/// empty span; a span that holds points loses those of `[s, e)` and may fall
/// into a part before `s` and a part from `e` on.
pub open spec fn carve_one(a: (int, int), s: int, e: int) -> Seq<(int, int)> {
    if a.0 == a.1 {
        if (s <= a.0 && a.0 < e) || (a.0 == s && s == e) {
            Seq::empty()
        } else {
            seq![a]
        }
    } else if s == e || e <= a.0 || a.1 <= s {
        seq![a]
    } else {
        (if a.0 < s {
            seq![(a.0, s)]
        } else {
            Seq::empty()
        }) + (if e < a.1 {
            seq![(e, a.1)]
        } else {
            Seq::empty()
        })
    }
}

/// The list `segs` with `[s, e)` carved out of every span.
pub open spec fn carve_span(segs: Seq<(int, int)>, s: int, e: int) -> Seq<(int, int)>
    decreases segs.len(),
{
    if segs.len() == 0 {
        Seq::empty()
    } else {
        carve_one(segs[0], s, e) + carve_span(segs.drop_first(), s, e)
    }
}

/// `base` after the first `n` spans of `cut` were carved out one by one.
pub open spec fn carve_spans(base: Seq<(int, int)>, cut: Seq<(int, int)>, n: int) -> Seq<
    (int, int),
>
    decreases n,
{
    if n <= 0 {
        base
    } else {
        carve_span(carve_spans(base, cut, n - 1), cut[n - 1].0, cut[n - 1].1)
    }
}

/// Carving works span by span.
pub proof fn lemma_carve_concat(a: Seq<(int, int)>, b: Seq<(int, int)>, s: int, e: int)
    ensures
        carve_span(a + b, s, e) == carve_span(a, s, e) + carve_span(b, s, e),
    decreases a.len(),
{
    if a.len() == 0 {
        assert(a + b =~= b);
        assert(carve_span(a, s, e) + carve_span(b, s, e) =~= carve_span(b, s, e));
    } else {
        assert((a + b)[0] == a[0]);
        assert((a + b).drop_first() =~= a.drop_first() + b);
        lemma_carve_concat(a.drop_first(), b, s, e);
        assert(carve_one(a[0], s, e) + (carve_span(a.drop_first(), s, e) + carve_span(b, s, e))
            =~= carve_one(a[0], s, e) + carve_span(a.drop_first(), s, e) + carve_span(b, s, e));
    }
}

/// A list whose spans are all out of reach of `[s, e)` stays as it is.
pub proof fn lemma_carve_untouched(a: Seq<(int, int)>, s: int, e: int)
    requires
        forall|i: int| 0 <= i < a.len() ==> carve_one(#[trigger] a[i], s, e) == seq![a[i]],
    ensures
        carve_span(a, s, e) == a,
    decreases a.len(),
{
    if a.len() > 0 {
        let rest = a.drop_first();
        assert forall|i: int| 0 <= i < rest.len() implies carve_one(#[trigger] rest[i], s, e)
            == seq![rest[i]] by {
            assert(rest[i] == a[i + 1]);
        }
        lemma_carve_untouched(rest, s, e);
        assert(carve_one(a[0], s, e) == seq![a[0]]);
        assert(seq![a[0]] + rest =~= a);
    } else {
        assert(a =~= Seq::<(int, int)>::empty());
    }
}

/// Carving the spans `lo..hi + 1` is carving `lo..hi`, then the span `hi`.
pub proof fn lemma_carve_step(v: Seq<(int, int)>, lo: int, hi: int, s: int, e: int)
    requires
        0 <= lo <= hi < v.len(),
    ensures
        carve_span(v.subrange(lo, hi + 1), s, e) == carve_span(v.subrange(lo, hi), s, e)
            + carve_one(v[hi], s, e),
{
    assert(v.subrange(lo, hi + 1) =~= v.subrange(lo, hi) + seq![v[hi]]);
    lemma_carve_concat(v.subrange(lo, hi), seq![v[hi]], s, e);
    reveal_with_fuel(carve_span, 2);
    assert(seq![v[hi]].drop_first() =~= Seq::<(int, int)>::empty());
    assert(carve_span(seq![v[hi]], s, e) =~= carve_one(v[hi], s, e));
}

/// Carving a list whose spans before `lo` and from `hi` on are out of reach
/// carves the spans `lo..hi` alone.
pub proof fn lemma_carve_middle(v: Seq<(int, int)>, lo: int, hi: int, s: int, e: int)
    requires
        0 <= lo <= hi <= v.len(),
        forall|i: int| 0 <= i < lo ==> carve_one(#[trigger] v[i], s, e) == seq![v[i]],
        forall|i: int| hi <= i < v.len() ==> carve_one(#[trigger] v[i], s, e) == seq![v[i]],
    ensures
        carve_span(v, s, e) == v.take(lo) + carve_span(v.subrange(lo, hi), s, e) + v.skip(hi),
{
    assert(v =~= v.take(lo) + v.subrange(lo, hi) + v.skip(hi));
    lemma_carve_concat(v.take(lo) + v.subrange(lo, hi), v.skip(hi), s, e);
    lemma_carve_concat(v.take(lo), v.subrange(lo, hi), s, e);
    lemma_carve_untouched(v.take(lo), s, e);
    assert forall|i: int| 0 <= i < v.skip(hi).len() implies carve_one(
        #[trigger] v.skip(hi)[i],
        s,
        e,
    ) == seq![v.skip(hi)[i]] by {
        assert(v.skip(hi)[i] == v[i + hi]);
    }
    lemma_carve_untouched(v.skip(hi), s, e);
}

/// The spans before `lo` and from `hi` on are out of reach of `[s, e)` when
/// `lo..hi` holds every span that `[s, e)` touches.
pub proof fn lemma_carve_outside(v: Seq<(int, int)>, s: int, e: int, pt: int, lo: int, hi: int)
    requires
        separated(v),
        s <= e,
        0 <= lo <= pt <= hi <= v.len(),
        pt - 1 <= lo,
        forall|i: int| 0 <= i < pt ==> (#[trigger] v[i]).0 < s,
        lo == pt && pt > 0 ==> v[pt - 1].1 <= s || s == e,
        hi < v.len() ==> v[hi].0 >= e && (s < e || v[hi].0 > s || v[hi].1 > s),
    ensures
        forall|i: int| 0 <= i < lo ==> carve_one(#[trigger] v[i], s, e) == seq![v[i]],
        forall|i: int| hi <= i < v.len() ==> carve_one(#[trigger] v[i], s, e) == seq![v[i]],
{
    assert forall|i: int| 0 <= i < lo implies carve_one(#[trigger] v[i], s, e) == seq![v[i]] by {
        assert(v[i].0 <= v[i].1);
        if i + 1 < pt {
            assert(v[i].1 < v[i + 1].0);
        }
    }
    assert forall|i: int| hi <= i < v.len() implies carve_one(#[trigger] v[i], s, e) == seq![
        v[i],
    ] by {
        assert(v[i].0 <= v[i].1);
        assert(v[hi].0 <= v[hi].1);
        if i > hi {
            assert(v[hi].1 < v[i].0);
        }
    }
}

/// No span of a carved list starts before the least start of the list.
pub proof fn lemma_carve_bounded(v: Seq<(int, int)>, s: int, e: int, lb: int)
    requires
        s <= e,
        forall|i: int| 0 <= i < v.len() ==> lb <= (#[trigger] v[i]).0 <= v[i].1,
    ensures
        forall|k: int|
            0 <= k < carve_span(v, s, e).len() ==> lb <= (#[trigger] carve_span(v, s, e)[k]).0,
    decreases v.len(),
{
    if v.len() > 0 {
        let rest = v.drop_first();
        assert forall|i: int| 0 <= i < rest.len() implies lb <= (#[trigger] rest[i]).0
            <= rest[i].1 by {
            assert(rest[i] == v[i + 1]);
        }
        lemma_carve_bounded(rest, s, e, lb);
        let head = carve_one(v[0], s, e);
        let tail = carve_span(rest, s, e);
        assert(lb <= v[0].0 <= v[0].1);
        assert forall|k: int| 0 <= k < (head + tail).len() implies lb <= (#[trigger] (head
            + tail)[k]).0 by {
            if k >= head.len() {
                assert((head + tail)[k] == tail[k - head.len()]);
            }
        }
    }
}

/// Carving keeps a list separated.
pub proof fn lemma_carve_separated(v: Seq<(int, int)>, s: int, e: int)
    requires
        separated(v),
        s <= e,
    ensures
        separated(carve_span(v, s, e)),
    decreases v.len(),
{
    if v.len() > 0 {
        let rest = v.drop_first();
        assert(separated(rest)) by {
            assert forall|i: int| 0 <= i < rest.len() implies (#[trigger] rest[i]).0
                <= rest[i].1 by {
                assert(rest[i] == v[i + 1]);
            }
            assert forall|i: int, j: int| 0 <= i < j < rest.len() implies (#[trigger] rest[i]).1 < (
            #[trigger] rest[j]).0 by {
                assert(rest[i] == v[i + 1] && rest[j] == v[j + 1]);
            }
        }
        lemma_carve_separated(rest, s, e);
        let head = carve_one(v[0], s, e);
        let tail = carve_span(rest, s, e);
        assert(v[0].0 <= v[0].1);
        if rest.len() > 0 {
            let lb = rest[0].0;
            assert forall|i: int| 0 <= i < rest.len() implies lb <= (#[trigger] rest[i]).0
                <= rest[i].1 by {
                if i > 0 {
                    assert(rest[0].0 <= rest[0].1 && rest[0].1 < rest[i].0);
                }
            }
            lemma_carve_bounded(rest, s, e, lb);
            assert(rest[0] == v[1]);
            assert(v[0].1 < v[1].0);
        }
        let w = head + tail;
        assert forall|i: int| 0 <= i < w.len() implies (#[trigger] w[i]).0 <= w[i].1 by {
            if i >= head.len() {
                assert(w[i] == tail[i - head.len()]);
            }
        }
        assert forall|i: int, j: int| 0 <= i < j < w.len() implies (#[trigger] w[i]).1 < (
        #[trigger] w[j]).0 by {
            if i >= head.len() {
                assert(w[i] == tail[i - head.len()]);
                assert(w[j] == tail[j - head.len()]);
            } else if j >= head.len() {
                assert(w[j] == tail[j - head.len()]);
                assert(w[i].1 <= v[0].1);
            }
        }
    }
}

/// The gap in front of span `i`: from the origin, or from the end of the
/// span before, to the start of span `i`.
pub open spec fn gap_before(v: Seq<(int, int)>, i: int) -> (int, int) {
    (
        if i == 0 {
            0
        } else {
            v[i - 1].1
        },
        v[i].0,
    )
}

/// The gaps in front of the first `n` spans of `v`, inserted one by one.
pub open spec fn unused_spans(v: Seq<(int, int)>, n: int) -> Seq<(int, int)>
    decreases n,
{
    if n <= 0 {
        Seq::empty()
    } else {
        insert_span(unused_spans(v, n - 1), gap_before(v, n - 1).0, gap_before(v, n - 1).1)
    }
}

impl LiveSegment {
    /// Both ends are handles of `pps`.
    pub open spec fn valid(&self, pps: &ProgramPoints) -> bool {
        pps.contains(self.start) && pps.contains(self.end)
    }

    /// The positions of the two ends.
    pub open spec fn span(&self, pps: &ProgramPoints) -> (int, int) {
        (pps.pos(self.start), pps.pos(self.end))
    }

    /// Valid, and the start does not come after the end.
    pub open spec fn wf(&self, pps: &ProgramPoints) -> bool {
        self.valid(pps) && pps.pos(self.start) <= pps.pos(self.end)
    }

    pub fn new(start: ProgramPoint, end: ProgramPoint) -> (r: Self)
        ensures
            r.start == start,
            r.end == end,
    {
        Self { start, end }
    }

    pub fn interferes(&self, pps: &ProgramPoints, seg: &LiveSegment) -> (r: bool)
        requires
            self.valid(pps),
            seg.valid(pps),
        ensures
            r == spans_overlap(self.span(pps), seg.span(pps)),
    {
        pps.precedes(self.start, seg.end) && pps.precedes(seg.start, self.end)
    }

    pub fn contains_point(&self, pps: &ProgramPoints, pp: &ProgramPoint) -> (r: bool)
        requires
            self.valid(pps),
            pps.contains(*pp),
        ensures
            r == span_holds(self.span(pps), pps.pos(*pp)),
    {
        !pps.precedes(*pp, self.start) && pps.precedes(*pp, self.end)
    }
}

impl LiveRange {
    /// Every segment's ends are handles of `pps`.
    pub open spec fn valid(&self, pps: &ProgramPoints) -> bool {
        forall|i: int| 0 <= i < self.segments@.len() ==> (#[trigger] self.segments@[i]).valid(pps)
    }

    /// The segments as spans of positions, in list order.
    pub open spec fn spans(&self, pps: &ProgramPoints) -> Seq<(int, int)> {
        spans_of(self.segments@, pps)
    }

    /// The invariant of a live range: valid handles, sorted and coalesced.
    pub open spec fn wf(&self, pps: &ProgramPoints) -> bool {
        self.valid(pps) && separated(self.spans(pps))
    }

    /// `k` is the first segment with the least start.
    pub open spec fn first_least_start(&self, pps: &ProgramPoints, k: int) -> bool {
        &&& 0 <= k < self.segments@.len()
        &&& forall|j: int|
            0 <= j < self.segments@.len() ==> pps.pos(self.segments@[k].start) <= pps.pos(
                (#[trigger] self.segments@[j]).start,
            )
        &&& forall|j: int|
            0 <= j < k ==> pps.pos(self.segments@[k].start) < pps.pos(
                (#[trigger] self.segments@[j]).start,
            )
    }

    /// `k` is the last segment with the greatest end.
    pub open spec fn last_greatest_end(&self, pps: &ProgramPoints, k: int) -> bool {
        &&& 0 <= k < self.segments@.len()
        &&& forall|j: int|
            0 <= j < self.segments@.len() ==> pps.pos((#[trigger] self.segments@[j]).end)
                <= pps.pos(self.segments@[k].end)
        &&& forall|j: int|
            k < j < self.segments@.len() ==> pps.pos((#[trigger] self.segments@[j]).end) < pps.pos(
                self.segments@[k].end,
            )
    }

    pub fn new(segments: Vec<LiveSegment>) -> (r: Self)
        ensures
            r.segments == segments,
    {
        Self { segments }
    }

    pub fn new_empty() -> (r: Self)
        ensures
            r.segments@.len() == 0,
    {
        Self { segments: Vec::new() }
    }

    /// A range with the same segments.
    pub fn duplicate(&self) -> (r: Self)
        ensures
            r.segments@ == self.segments@,
    {
        let mut segments: Vec<LiveSegment> = Vec::new();
        let mut i: usize = 0;
        while i < self.segments.len()
            invariant
                i <= self.segments@.len(),
                segments@ == self.segments@.take(i as int),
            decreases self.segments@.len() - i,
        {
            segments.push(self.segments[i]);
            proof {
                assert(self.segments@.take(i + 1) == self.segments@.take(i as int).push(
                    self.segments@[i as int],
                ));
            }
            i += 1;
        }
        proof {
            assert(self.segments@.take(self.segments@.len() as int) == self.segments@);
        }
        Self { segments }
    }

    /// Index of the first segment with the least start.
    fn least_start_index(&self, pps: &ProgramPoints) -> (k: usize)
        requires
            self.valid(pps),
            self.segments@.len() > 0,
        ensures
            self.first_least_start(pps, k as int),
    {
        let mut k: usize = 0;
        let mut i: usize = 1;
        while i < self.segments.len()
            invariant
                self.valid(pps),
                0 <= k < i <= self.segments@.len(),
                forall|j: int|
                    0 <= j < i ==> pps.pos(self.segments@[k as int].start) <= pps.pos(
                        (#[trigger] self.segments@[j]).start,
                    ),
                forall|j: int|
                    0 <= j < k ==> pps.pos(self.segments@[k as int].start) < pps.pos(
                        (#[trigger] self.segments@[j]).start,
                    ),
            decreases self.segments@.len() - i,
        {
            if pps.precedes(self.segments[i].start, self.segments[k].start) {
                k = i;
            }
            i += 1;
        }
        k
    }

    /// Index of the last segment with the greatest end.
    fn greatest_end_index(&self, pps: &ProgramPoints) -> (k: usize)
        requires
            self.valid(pps),
            self.segments@.len() > 0,
        ensures
            self.last_greatest_end(pps, k as int),
    {
        let mut k: usize = 0;
        let mut i: usize = 1;
        while i < self.segments.len()
            invariant
                self.valid(pps),
                0 <= k < i <= self.segments@.len(),
                forall|j: int|
                    0 <= j < i ==> pps.pos((#[trigger] self.segments@[j]).end) <= pps.pos(
                        self.segments@[k as int].end,
                    ),
                forall|j: int|
                    k < j < i ==> pps.pos((#[trigger] self.segments@[j]).end) < pps.pos(
                        self.segments@[k as int].end,
                    ),
            decreases self.segments@.len() - i,
        {
            if !pps.precedes(self.segments[i].end, self.segments[k].end) {
                k = i;
            }
            i += 1;
        }
        k
    }

    /// The range that is free in front of each segment: from the point at
    /// block 0, index 0 to the first start, and from each end to the next start.
    pub fn unused_range(&self, pps: &ProgramPoints) -> (r: LiveRange)
        requires
            self.wf(pps),
            exists|h: int| 0 <= h < pps@.len() && (#[trigger] pps@[h]).bb == 0 && pps@[h].idx == 0,
        ensures
            r.wf(pps),
            r.spans(pps) == unused_spans(self.spans(pps), self.segments@.len() as int),
    {
        let mut last_pp = pps.lookup(0, 0).unwrap();
        let ghost v = self.spans(pps);
        let mut r = LiveRange::new_empty();
        proof {
            assert(r.spans(pps) =~= Seq::<(int, int)>::empty());
        }
        let mut i: usize = 0;
        while i < self.segments.len()
            invariant
                self.wf(pps),
                v == self.spans(pps),
                r.wf(pps),
                i <= self.segments@.len(),
                pps.contains(last_pp),
                pps.pos(last_pp) == (if i == 0 {
                    0
                } else {
                    v[i - 1].1
                }),
                r.spans(pps) == unused_spans(v, i as int),
            decreases self.segments@.len() - i,
        {
            proof {
                assert(v[i as int] == self.segments@[i as int].span(pps));
                assert(v[i as int].0 <= v[i as int].1);
                if i > 0 {
                    assert(v[i - 1].1 < v[i as int].0);
                }
            }
            r.add_segment(pps, LiveSegment::new(last_pp, self.segments[i].start));
            last_pp = self.segments[i].end;
            i += 1;
        }
        r
    }

    /// Collapses the range to the empty segment at its least start.
    pub fn adjust_end_to_start(&mut self, pps: &ProgramPoints)
        requires
            old(self).valid(pps),
        ensures
            old(self).segments@.len() == 0 ==> final(self).segments@.len() == 0,
            old(self).segments@.len() > 0 ==> exists|k: int|
                old(self).first_least_start(pps, k) && final(self).segments@ == seq![
                    LiveSegment {
                        start: old(self).segments@[k].start,
                        end: old(self).segments@[k].start,
                    },
                ],
    {
        if self.segments.len() == 0 {
            return ;
        }
        let k = self.least_start_index(pps);
        let start = self.segments[k].start;
        let mut segments: Vec<LiveSegment> = Vec::new();
        segments.push(LiveSegment::new(start, start));
        self.segments = segments;
        proof {
            assert(final(self).segments@ == seq![LiveSegment { start, end: start }]);
            assert(old(self).first_least_start(pps, k as int));
        }
    }

    /// The start of the first segment with the least start.
    pub fn start_point(&self, pps: &ProgramPoints) -> (r: Option<ProgramPoint>)
        requires
            self.valid(pps),
        ensures
            match r {
                None => self.segments@.len() == 0,
                Some(p) => exists|k: int|
                    self.first_least_start(pps, k) && p == self.segments@[k].start,
            },
    {
        if self.segments.len() == 0 {
            return None;
        }
        let k = self.least_start_index(pps);
        Some(self.segments[k].start)
    }

    /// The end of the last segment with the greatest end.
    pub fn end_point(&self, pps: &ProgramPoints) -> (r: Option<ProgramPoint>)
        requires
            self.valid(pps),
        ensures
            match r {
                None => self.segments@.len() == 0,
                Some(p) => exists|k: int|
                    self.last_greatest_end(pps, k) && p == self.segments@[k].end,
            },
    {
        if self.segments.len() == 0 {
            return None;
        }
        let k = self.greatest_end_index(pps);
        Some(self.segments[k].end)
    }

    /// The number of segments that start before `p`: where a segment that
    /// starts at `p` is, or would have to be put.
    fn lower_bound(&self, pps: &ProgramPoints, p: ProgramPoint) -> (pt: usize)
        requires
            self.wf(pps),
            pps.contains(p),
        ensures
            pt <= self.segments@.len(),
            forall|i: int| 0 <= i < pt ==> (#[trigger] self.spans(pps)[i]).0 < pps.pos(p),
            forall|i: int|
                pt <= i < self.segments@.len() ==> (#[trigger] self.spans(pps)[i]).0 >= pps.pos(p),
    {
        let ghost v = self.spans(pps);
        let mut lo: usize = 0;
        let mut hi: usize = self.segments.len();
        while lo < hi
            invariant
                self.wf(pps),
                pps.contains(p),
                v == self.spans(pps),
                lo <= hi <= self.segments@.len(),
                forall|i: int| 0 <= i < lo ==> (#[trigger] v[i]).0 < pps.pos(p),
                forall|i: int| hi <= i < v.len() ==> (#[trigger] v[i]).0 >= pps.pos(p),
            decreases hi - lo,
        {
            let mid = lo + (hi - lo) / 2;
            if pps.precedes(self.segments[mid].start, p) {
                proof {
                    assert forall|i: int| 0 <= i < mid + 1 implies (#[trigger] v[i]).0 < pps.pos(
                        p,
                    ) by {
                        if i < mid {
                            assert(v[i].0 <= v[i].1 && v[i].1 < v[mid as int].0);
                        }
                    }
                }
                lo = mid + 1;
            } else {
                proof {
                    assert forall|i: int| mid <= i < v.len() implies (#[trigger] v[i]).0
                        >= pps.pos(p) by {
                        if i > mid {
                            assert(v[mid as int].0 <= v[mid as int].1 && v[mid as int].1 < v[i].0);
                        }
                    }
                }
                hi = mid;
            }
        }
        lo
    }

    /// The list `self[..lo]`, then `mid`, then `self[hi..]`.
    fn replaced(&self, lo: usize, hi: usize, mid: &Vec<LiveSegment>) -> (r: Vec<LiveSegment>)
        requires
            lo <= hi <= self.segments@.len(),
        ensures
            r@ == self.segments@.take(lo as int) + mid@ + self.segments@.skip(hi as int),
    {
        let mut r: Vec<LiveSegment> = Vec::new();
        let mut i: usize = 0;
        while i < lo
            invariant
                i <= lo <= self.segments@.len(),
                r@ == self.segments@.take(i as int),
            decreases lo - i,
        {
            r.push(self.segments[i]);
            proof {
                assert(self.segments@.take(i + 1) =~= self.segments@.take(i as int).push(
                    self.segments@[i as int],
                ));
            }
            i += 1;
        }
        let mut k: usize = 0;
        while k < mid.len()
            invariant
                k <= mid@.len(),
                r@ == self.segments@.take(lo as int) + mid@.take(k as int),
            decreases mid@.len() - k,
        {
            r.push(mid[k]);
            proof {
                assert(mid@.take(k + 1) =~= mid@.take(k as int).push(mid@[k as int]));
                assert((self.segments@.take(lo as int) + mid@.take(k as int)).push(mid@[k as int])
                    =~= self.segments@.take(lo as int) + mid@.take(k + 1));
            }
            k += 1;
        }
        proof {
            assert(mid@.take(mid@.len() as int) =~= mid@);
        }
        let mut j: usize = hi;
        while j < self.segments.len()
            invariant
                hi <= j <= self.segments@.len(),
                r@ == self.segments@.take(lo as int) + mid@ + self.segments@.subrange(
                    hi as int,
                    j as int,
                ),
            decreases self.segments@.len() - j,
        {
            r.push(self.segments[j]);
            proof {
                assert((self.segments@.take(lo as int) + mid@ + self.segments@.subrange(
                    hi as int,
                    j as int,
                )).push(self.segments@[j as int]) =~= self.segments@.take(lo as int) + mid@
                    + self.segments@.subrange(hi as int, j + 1));
            }
            j += 1;
        }
        proof {
            assert(self.segments@.subrange(hi as int, self.segments@.len() as int)
                =~= self.segments@.skip(hi as int));
        }
        r
    }

    /// Adds `[seg.start, seg.end)` to the range. The place is found by binary
    /// search on the start; a neighbour that overlaps or abuts the new segment
    /// is merged with it, and so are the segments that follow as far as they
    /// are reached.
    pub fn add_segment(&mut self, pps: &ProgramPoints, seg: LiveSegment)
        requires
            old(self).wf(pps),
            seg.wf(pps),
        ensures
            final(self).wf(pps),
            final(self).spans(pps) == insert_span(
                old(self).spans(pps),
                pps.pos(seg.start),
                pps.pos(seg.end),
            ),
    {
        let ghost v = self.spans(pps);
        let ghost s = pps.pos(seg.start);
        let ghost e = pps.pos(seg.end);
        let n = self.segments.len();
        let pt = self.lower_bound(pps, seg.start);
        let mut lo = pt;
        let mut start = seg.start;
        let mut end = seg.end;
        if pt > 0 && !pps.precedes(self.segments[pt - 1].end, seg.start) {
            lo = pt - 1;
            start = self.segments[lo].start;
            if pps.precedes(end, self.segments[lo].end) {
                end = self.segments[lo].end;
            }
        }
        let ghost s0 = pps.pos(start);
        let ghost e0 = pps.pos(end);
        proof {
            assert(lo < pt ==> v[lo as int] == self.segments@[lo as int].span(pps));
            lemma_insert_span_prefix(v, s, e, pt as int, lo as int, s0, e0);
        }
        let mut hi = pt;
        while hi < n && !pps.precedes(end, self.segments[hi].start)
            invariant
                self.wf(pps),
                self.segments@ == old(self).segments@,
                v == self.spans(pps),
                n == self.segments@.len(),
                pps.contains(start),
                pps.contains(end),
                s0 == pps.pos(start),
                s0 <= pps.pos(end),
                pt <= hi <= n,
                forall|i: int| pt <= i < n ==> (#[trigger] v[i]).0 >= s0,
                insert_span(v.skip(pt as int), s0, e0) == insert_span(
                    v.skip(hi as int),
                    s0,
                    pps.pos(end),
                ),
            decreases n - hi,
        {
            proof {
                assert(v[hi as int] == self.segments@[hi as int].span(pps));
                lemma_insert_span_absorbs(v, hi as int, s0, pps.pos(end));
            }
            if pps.precedes(end, self.segments[hi].end) {
                end = self.segments[hi].end;
            }
            hi += 1;
        }
        let merged = LiveSegment::new(start, end);
        let mut mid: Vec<LiveSegment> = Vec::new();
        mid.push(merged);
        let segments = self.replaced(lo, hi, &mid);
        self.segments = segments;
        proof {
            let e1 = pps.pos(end);
            assert(hi < n ==> v[hi as int] == old(self).segments@[hi as int].span(pps));
            lemma_insert_span_finish(v, s, e, lo as int, pt as int, hi as int, s0, e0, e1);
            assert(mid@ =~= seq![merged]);
            assert(spans_of(mid@, pps) =~= seq![(s0, e1)]);
            lemma_spans_of_replace(
                old(self).segments@,
                final(self).segments@,
                pps,
                lo as int,
                hi as int,
                mid@,
            );
        }
    }

    /// Adds every segment of `range`, in list order.
    pub fn unite_range(&mut self, pps: &ProgramPoints, range: LiveRange)
        requires
            old(self).wf(pps),
            forall|i: int| 0 <= i < range.segments@.len() ==> (#[trigger] range.segments@[i]).wf(pps),
        ensures
            final(self).wf(pps),
            final(self).spans(pps) == insert_spans(
                old(self).spans(pps),
                range.spans(pps),
                range.segments@.len() as int,
            ),
    {
        let mut i: usize = 0;
        while i < range.segments.len()
            invariant
                self.wf(pps),
                forall|k: int|
                    0 <= k < range.segments@.len() ==> (#[trigger] range.segments@[k]).wf(pps),
                i <= range.segments@.len(),
                self.spans(pps) == insert_spans(old(self).spans(pps), range.spans(pps), i as int),
            decreases range.segments@.len() - i,
        {
            self.add_segment(pps, range.segments[i]);
            i += 1;
        }
    }

    /// Takes `[seg.start, seg.end)` out of the range: the segment that
    /// reaches over `seg.start` is cut there, and split if it also reaches over
    /// `seg.end`; the segments that start inside go, but for the part of the
    /// last one from `seg.end` on.
    pub fn remove_segment(&mut self, pps: &ProgramPoints, seg: &LiveSegment)
        requires
            old(self).wf(pps),
            seg.wf(pps),
        ensures
            final(self).wf(pps),
            final(self).spans(pps) == carve_span(
                old(self).spans(pps),
                pps.pos(seg.start),
                pps.pos(seg.end),
            ),
    {
        let ghost v = self.spans(pps);
        let ghost s = pps.pos(seg.start);
        let ghost e = pps.pos(seg.end);
        let n = self.segments.len();
        let pt = self.lower_bound(pps, seg.start);
        let mut mid: Vec<LiveSegment> = Vec::new();
        let mut lo = pt;
        let mut hi = pt;
        proof {
            assert(v.subrange(pt as int, pt as int) =~= Seq::<(int, int)>::empty());
            assert(spans_of(mid@, pps) =~= Seq::<(int, int)>::empty());
            assert(pt < n ==> v[pt as int] == self.segments@[pt as int].span(pps));
            assert(pt > 0 ==> v[pt - 1] == self.segments@[pt - 1].span(pps));
        }
        if !pps.precedes(seg.start, seg.end) {
            if pt < n && pps.same_place(self.segments[pt].start, seg.start) && pps.same_place(
                self.segments[pt].end,
                seg.start,
            ) {
                hi = pt + 1;
                proof {
                    lemma_carve_step(v, pt as int, pt as int, s, e);
                    assert(hi < n ==> v[hi as int].0 > v[pt as int].1);
                }
            }
        } else {
            if pt > 0 && pps.precedes(seg.start, self.segments[pt - 1].end) {
                lo = pt - 1;
                mid.push(LiveSegment::new(self.segments[lo].start, seg.start));
                if pps.precedes(seg.end, self.segments[lo].end) {
                    mid.push(LiveSegment::new(seg.end, self.segments[lo].end));
                }
                proof {
                    assert(v.subrange(lo as int, lo as int) =~= Seq::<(int, int)>::empty());
                    lemma_carve_step(v, lo as int, lo as int, s, e);
                    assert(spans_of(mid@, pps) =~= carve_one(v[lo as int], s, e));
                    assert(pt < n ==> v[lo as int].1 < v[pt as int].0);
                }
            }
            let mut open = true;
            while open && hi < n && pps.precedes(self.segments[hi].start, seg.end)
                invariant
                    self.wf(pps),
                    seg.wf(pps),
                    self.segments@ == old(self).segments@,
                    v == self.spans(pps),
                    s == pps.pos(seg.start),
                    e == pps.pos(seg.end),
                    s < e,
                    n == self.segments@.len(),
                    lo <= pt <= hi <= n,
                    forall|i: int| pt <= i < n ==> (#[trigger] v[i]).0 >= s,
                    forall|k: int| 0 <= k < mid@.len() ==> (#[trigger] mid@[k]).valid(pps),
                    spans_of(mid@, pps) == carve_span(v.subrange(lo as int, hi as int), s, e),
                    open && lo < pt && hi < n ==> v[lo as int].1 <= e || v[hi as int].0 > e,
                    !open ==> (hi < n ==> v[hi as int].0 > e),
                decreases n - hi, open as int,
            {
                proof {
                    assert(v[hi as int] == self.segments@[hi as int].span(pps));
                    assert(v[hi as int].0 <= v[hi as int].1);
                    lemma_carve_step(v, lo as int, hi as int, s, e);
                    assert(hi + 1 < n ==> v[hi as int].1 < v[hi + 1].0);
                }
                let ghost before = mid@;
                if pps.precedes(seg.end, self.segments[hi].end) {
                    mid.push(LiveSegment::new(seg.end, self.segments[hi].end));
                    open = false;
                    proof {
                        assert(spans_of(mid@, pps) =~= spans_of(before, pps) + seq![
                            (e, v[hi as int].1),
                        ]);
                    }
                } else {
                    proof {
                        assert(carve_one(v[hi as int], s, e) =~= Seq::<(int, int)>::empty());
                        assert(spans_of(before, pps) + carve_one(v[hi as int], s, e)
                            =~= spans_of(before, pps));
                    }
                }
                hi += 1;
            }
        }
        let segments = self.replaced(lo, hi, &mid);
        self.segments = segments;
        proof {
            assert(hi < n ==> v[hi as int] == old(self).segments@[hi as int].span(pps));
            lemma_carve_outside(v, s, e, pt as int, lo as int, hi as int);
            lemma_carve_middle(v, lo as int, hi as int, s, e);
            lemma_carve_separated(v, s, e);
            lemma_spans_of_replace(
                old(self).segments@,
                final(self).segments@,
                pps,
                lo as int,
                hi as int,
                mid@,
            );
        }
    }

    /// Takes every segment of `range` out, in list order.
    pub fn remove_range(&mut self, pps: &ProgramPoints, range: &LiveRange)
        requires
            old(self).wf(pps),
            forall|i: int| 0 <= i < range.segments@.len() ==> (#[trigger] range.segments@[i]).wf(pps),
        ensures
            final(self).wf(pps),
            final(self).spans(pps) == carve_spans(
                old(self).spans(pps),
                range.spans(pps),
                range.segments@.len() as int,
            ),
    {
        let mut i: usize = 0;
        while i < range.segments.len()
            invariant
                self.wf(pps),
                forall|k: int|
                    0 <= k < range.segments@.len() ==> (#[trigger] range.segments@[k]).wf(pps),
                i <= range.segments@.len(),
                self.spans(pps) == carve_spans(old(self).spans(pps), range.spans(pps), i as int),
            decreases range.segments@.len() - i,
        {
            self.remove_segment(pps, &range.segments[i]);
            i += 1;
        }
    }

    /// Mutable access to the end that `end_point` reports.
    pub fn end_point_mut(&mut self, pps: &ProgramPoints) -> (r: Option<&mut ProgramPoint>)
        requires
            old(self).valid(pps),
        ensures
            match r {
                None => old(self).segments@.len() == 0 && final(self).segments@ == old(self).segments@,
                Some(p) => exists|k: int|
                    old(self).last_greatest_end(pps, k) && *p == old(self).segments@[k].end
                        && final(self).segments@ == old(self).segments@.update(
                        k,
                        LiveSegment { start: old(self).segments@[k].start, end: *final(p) },
                    ),
            },
    {
        if self.segments.len() == 0 {
            return None;
        }
        let k = self.greatest_end_index(pps);
        Some(&mut self.segments[k].end)
    }

    /// The last segment, in list order, that starts strictly before `pp`.
    pub fn find_nearest_starting_segment_mut(
        &mut self,
        pps: &ProgramPoints,
        pp: &ProgramPoint,
    ) -> (r: Option<&mut LiveSegment>)
        requires
            old(self).valid(pps),
            pps.contains(*pp),
        ensures
            match r {
                None => final(self).segments@ == old(self).segments@ && forall|j: int|
                    0 <= j < old(self).segments@.len() ==> pps.pos(
                        (#[trigger] old(self).segments@[j]).start,
                    ) >= pps.pos(*pp),
                Some(s) => exists|k: int|
                    0 <= k < old(self).segments@.len() && *s == old(self).segments@[k] && pps.pos(
                        s.start,
                    ) < pps.pos(*pp) && (forall|j: int|
                        k < j < old(self).segments@.len() ==> pps.pos(
                            (#[trigger] old(self).segments@[j]).start,
                        ) >= pps.pos(*pp)) && final(self).segments@ == old(self).segments@.update(
                        k,
                        *final(s),
                    ),
            },
    {
        let mut i: usize = self.segments.len();
        while i > 0
            invariant
                self.valid(pps),
                pps.contains(*pp),
                self.segments@ == old(self).segments@,
                i <= self.segments@.len(),
                forall|j: int|
                    i <= j < self.segments@.len() ==> pps.pos((#[trigger] self.segments@[j]).start)
                        >= pps.pos(*pp),
            decreases i,
        {
            i -= 1;
            if pps.precedes(self.segments[i].start, *pp) {
                return Some(&mut self.segments[i]);
            }
        }
        None
    }

    pub fn interferes(&self, pps: &ProgramPoints, other: &LiveRange) -> (r: bool)
        requires
            self.valid(pps),
            other.valid(pps),
        ensures
            r == any_overlap(self.spans(pps), other.spans(pps)),
    {
        let ghost a = self.spans(pps);
        let ghost b = other.spans(pps);
        let mut i: usize = 0;
        while i < self.segments.len()
            invariant
                self.valid(pps),
                other.valid(pps),
                a == self.spans(pps),
                b == other.spans(pps),
                i <= self.segments@.len(),
                forall|x: int, y: int|
                    0 <= x < i && 0 <= y < b.len() ==> !#[trigger] spans_overlap(a[x], b[y]),
            decreases self.segments@.len() - i,
        {
            let mut j: usize = 0;
            while j < other.segments.len()
                invariant
                    self.valid(pps),
                    other.valid(pps),
                    a == self.spans(pps),
                    b == other.spans(pps),
                    i < self.segments@.len(),
                    j <= other.segments@.len(),
                    forall|x: int, y: int|
                        0 <= x < i && 0 <= y < b.len() ==> !#[trigger] spans_overlap(a[x], b[y]),
                    forall|y: int| 0 <= y < j ==> !#[trigger] spans_overlap(a[i as int], b[y]),
                decreases other.segments@.len() - j,
            {
                if self.segments[i].interferes(pps, &other.segments[j]) {
                    proof {
                        assert(spans_overlap(a[i as int], b[j as int]));
                    }
                    return true;
                }
                j += 1;
            }
            i += 1;
        }
        false
    }

    pub fn contains_point(&self, pps: &ProgramPoints, pp: &ProgramPoint) -> (r: bool)
        requires
            self.valid(pps),
            pps.contains(*pp),
        ensures
            r == exists|i: int|
                0 <= i < self.segments@.len() && #[trigger] span_holds(
                    self.spans(pps)[i],
                    pps.pos(*pp),
                ),
    {
        let mut i: usize = 0;
        while i < self.segments.len()
            invariant
                self.valid(pps),
                pps.contains(*pp),
                i <= self.segments@.len(),
                forall|x: int|
                    0 <= x < i ==> !#[trigger] span_holds(self.spans(pps)[x], pps.pos(*pp)),
            decreases self.segments@.len() - i,
        {
            if self.segments[i].contains_point(pps, pp) {
                proof {
                    assert(span_holds(self.spans(pps)[i as int], pps.pos(*pp)));
                }
                return true;
            }
            i += 1;
        }
        false
    }
}

} // verus!
