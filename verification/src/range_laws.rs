//! Laws of live ranges: what adding a range to another and taking it out
//! again leaves.

use crate::live_range::{
    carve_one, carve_span, carve_spans, insert_span, insert_spans, lemma_carve_concat,
    lemma_carve_untouched, lemma_insert_span_skips, max_pos, min_pos, separated,
};
use crate::live_range::{any_overlap, spans_overlap, LiveRange};
use crate::program_point::ProgramPoints;
use vstd::prelude::*;

verus! {

/// The span `a` is in the way of `[s, e)`: a span that holds points
/// overlaps it, or an empty span lies in it or at one of its ends. Such a
/// span is merged with `[s, e)` for good when `[s, e)` is added.
pub open spec fn clashes(a: (int, int), s: int, e: int) -> bool {
    if a.0 == a.1 {
        s <= a.0 <= e
    } else {
        s < e && a.0 < e && s < a.1
    }
}

/// No span of `p` is in the way of `[s, e)`.
pub open spec fn clear_of(p: Seq<(int, int)>, s: int, e: int) -> bool {
    forall|i: int| 0 <= i < p.len() ==> !clashes(#[trigger] p[i], s, e)
}

/// No span of `p` is in the way of one of the first `n` spans of `v`.
pub open spec fn clear_of_all(p: Seq<(int, int)>, v: Seq<(int, int)>, n: int) -> bool {
    forall|j: int| 0 <= j < n && j < v.len() ==> clear_of(p, (#[trigger] v[j]).0, v[j].1)
}

proof fn lemma_tail(p: Seq<(int, int)>)
    requires
        separated(p),
        p.len() > 0,
    ensures
        separated(p.drop_first()),
        p[0].0 <= p[0].1,
        forall|i: int| 0 <= i < p.drop_first().len() ==> (#[trigger] p.drop_first()[i]).0 > p[0].1,
        forall|i: int| 0 <= i < p.len() ==> p[0].0 <= (#[trigger] p[i]).0,
{
    let rest = p.drop_first();
    assert forall|i: int| 0 <= i < rest.len() implies (#[trigger] rest[i]).0 <= rest[i].1 by {
        assert(rest[i] == p[i + 1]);
    }
    assert forall|i: int, j: int| 0 <= i < j < rest.len() implies (#[trigger] rest[i]).1 < (
    #[trigger] rest[j]).0 by {
        assert(rest[i] == p[i + 1] && rest[j] == p[j + 1]);
    }
    assert forall|i: int| 0 <= i < rest.len() implies (#[trigger] rest[i]).0 > p[0].1 by {
        assert(rest[i] == p[i + 1]);
        assert(p[0].1 < p[i + 1].0);
    }
    assert forall|i: int| 0 <= i < p.len() implies p[0].0 <= (#[trigger] p[i]).0 by {
        if i > 0 {
            assert(p[0].1 < p[i].0);
        }
    }
}

proof fn lemma_clear_tail(p: Seq<(int, int)>, s: int, e: int)
    requires
        clear_of(p, s, e),
        p.len() > 0,
    ensures
        clear_of(p.drop_first(), s, e),
{
    let rest = p.drop_first();
    assert forall|i: int| 0 <= i < rest.len() implies !clashes(#[trigger] rest[i], s, e) by {
        assert(rest[i] == p[i + 1]);
    }
}

proof fn lemma_carve_single(a: (int, int), s: int, e: int)
    ensures
        carve_span(seq![a], s, e) == carve_one(a, s, e),
{
    reveal_with_fuel(carve_span, 2);
    assert(seq![a].drop_first() =~= Seq::<(int, int)>::empty());
    assert(carve_one(a, s, e) + Seq::<(int, int)>::empty() =~= carve_one(a, s, e));
}

proof fn lemma_carve_cons(a: (int, int), r: Seq<(int, int)>, s: int, e: int)
    ensures
        carve_span(seq![a] + r, s, e) == carve_one(a, s, e) + carve_span(r, s, e),
{
    lemma_carve_concat(seq![a], r, s, e);
    lemma_carve_single(a, s, e);
}

proof fn lemma_cons(p: Seq<(int, int)>)
    requires
        p.len() > 0,
    ensures
        p == seq![p[0]] + p.drop_first(),
{
    assert(p =~= seq![p[0]] + p.drop_first());
}

/// Taking an empty span out again after it was added leaves the list as it
/// was, if no empty span of the list lies at the same place.
pub proof fn lemma_round_trip_point(p: Seq<(int, int)>, s: int)
    requires
        separated(p),
        clear_of(p, s, s),
    ensures
        carve_span(insert_span(p, s, s), s, s) == p,
    decreases p.len(),
{
    if p.len() == 0 {
        lemma_carve_single((s, s), s, s);
        assert(p =~= Seq::<(int, int)>::empty());
    } else {
        let h = p[0];
        let rest = p.drop_first();
        lemma_tail(p);
        lemma_clear_tail(p, s, s);
        lemma_cons(p);
        assert(!clashes(p[0], s, s));
        if h.1 < s {
            lemma_round_trip_point(rest, s);
            lemma_carve_cons(h, insert_span(rest, s, s), s, s);
        } else {
            assert forall|i: int| 0 <= i < p.len() implies carve_one(#[trigger] p[i], s, s)
                == seq![p[i]] by {
                assert(!clashes(p[i], s, s));
            }
            lemma_carve_untouched(p, s, s);
            if s < h.0 {
                lemma_carve_cons((s, s), p, s, s);
                assert(Seq::<(int, int)>::empty() + p =~= p);
            } else {
                assert(h.0 < h.1);
                assert(min_pos(h.0, s) == h.0 && max_pos(h.1, s) == h.1);
                if rest.len() > 0 {
                    assert(rest[0].0 > h.1);
                    assert(rest[0].0 <= rest[0].1);
                }
                assert(insert_span(rest, h.0, h.1) =~= seq![h] + rest);
            }
        }
    }
}

/// Where the span `(c0, c1)` was made of `[s, e)` and the spans that abut
/// it, and the spans of `r` lie from `e` on, adding it to `r` and taking
/// `[s, e)` out leaves the parts of the span outside `[s, e)`, and `r`.
proof fn lemma_absorb_round_trip(r: Seq<(int, int)>, c0: int, c1: int, s: int, e: int)
    requires
        separated(r),
        c0 <= s < e <= c1,
        clear_of(r, s, e),
        forall|i: int| 0 <= i < r.len() ==> (#[trigger] r[i]).0 >= e,
        c1 > e ==> forall|i: int| 0 <= i < r.len() ==> (#[trigger] r[i]).0 > c1,
    ensures
        carve_span(insert_span(r, c0, c1), s, e) == carve_one((c0, c1), s, e) + r,
    decreases r.len(),
{
    if r.len() == 0 {
        lemma_carve_single((c0, c1), s, e);
        assert(carve_one((c0, c1), s, e) + r =~= carve_one((c0, c1), s, e));
    } else {
        let h = r[0];
        let r2 = r.drop_first();
        lemma_tail(r);
        lemma_clear_tail(r, s, e);
        lemma_cons(r);
        assert(h.0 >= e);
        assert(!clashes(r[0], s, e));
        if c1 < h.0 {
            assert forall|i: int| 0 <= i < r.len() implies carve_one(#[trigger] r[i], s, e)
                == seq![r[i]] by {
                assert(r[i].0 >= h.0);
                assert(r[i].0 <= r[i].1);
            }
            lemma_carve_untouched(r, s, e);
            lemma_carve_cons((c0, c1), r, s, e);
        } else {
            assert(c1 == e);
            assert(h.0 == e);
            assert(h.0 < h.1);
            assert(min_pos(h.0, c0) == c0 && max_pos(h.1, c1) == h.1);
            assert forall|i: int| 0 <= i < r2.len() implies (#[trigger] r2[i]).0 >= e by {
                assert(r2[i].0 > h.1);
            }
            lemma_absorb_round_trip(r2, c0, h.1, s, e);
            assert(carve_one((c0, h.1), s, e) + r2 =~= carve_one((c0, c1), s, e) + (seq![h] + r2));
        }
    }
}

/// Taking a span that holds points out again after it was added leaves the
/// list as it was, if no span of the list is in its way.
pub proof fn lemma_round_trip_span(p: Seq<(int, int)>, s: int, e: int)
    requires
        separated(p),
        s < e,
        clear_of(p, s, e),
    ensures
        carve_span(insert_span(p, s, e), s, e) == p,
    decreases p.len(),
{
    if p.len() == 0 {
        lemma_carve_single((s, e), s, e);
        assert(p =~= Seq::<(int, int)>::empty());
    } else {
        let h = p[0];
        let rest = p.drop_first();
        lemma_tail(p);
        lemma_clear_tail(p, s, e);
        lemma_cons(p);
        assert(!clashes(p[0], s, e));
        if h.1 < s {
            lemma_round_trip_span(rest, s, e);
            lemma_carve_cons(h, insert_span(rest, s, e), s, e);
        } else if h.0 >= e {
            assert forall|i: int| 0 <= i < p.len() implies (#[trigger] p[i]).0 >= e by {}
            lemma_absorb_round_trip(p, s, e, s, e);
            assert(carve_one((s, e), s, e) + p =~= p);
        } else {
            assert(h.1 == s && h.0 < s);
            assert(min_pos(h.0, s) == h.0 && max_pos(h.1, e) == e);
            assert forall|i: int| 0 <= i < rest.len() implies (#[trigger] rest[i]).0 >= e by {
                assert(rest[i].0 > h.1);
                assert(rest[i].0 <= rest[i].1);
                assert(!clashes(rest[i], s, e));
            }
            lemma_absorb_round_trip(rest, h.0, e, s, e);
            assert(carve_one((h.0, e), s, e) + rest =~= p);
        }
    }
}

/// Taking a span out again after it was added leaves the list as it was,
/// if no span of the list is in its way.
pub proof fn lemma_round_trip(p: Seq<(int, int)>, s: int, e: int)
    requires
        separated(p),
        s <= e,
        clear_of(p, s, e),
    ensures
        carve_span(insert_span(p, s, e), s, e) == p,
{
    if s == e {
        lemma_round_trip_point(p, s);
    } else {
        lemma_round_trip_span(p, s, e);
    }
}

/// The span `(c0, c1)`, which ends behind `ue`, is cut by `[us, ue)`.
spec fn is_cut(c0: int, c1: int, us: int, ue: int) -> bool {
    c0 < c1 && us < ue && c0 < ue
}

/// The part of `(c0, c1)` in front of `[us, ue)`, if it is cut and has one.
spec fn front_part(c0: int, c1: int, us: int, ue: int) -> Seq<(int, int)> {
    if is_cut(c0, c1, us, ue) && c0 < us {
        seq![(c0, us)]
    } else {
        Seq::empty()
    }
}

/// The start of the part of `(c0, c1)` behind `[us, ue)`.
spec fn back_start(c0: int, c1: int, us: int, ue: int) -> int {
    if is_cut(c0, c1, us, ue) {
        ue
    } else {
        c0
    }
}

proof fn lemma_parts(c0: int, c1: int, us: int, ue: int)
    requires
        us <= ue < c1,
        c0 <= c1,
    ensures
        carve_one((c0, c1), us, ue) == front_part(c0, c1, us, ue) + seq![
            (back_start(c0, c1, us, ue), c1),
        ],
{
    assert(carve_one((c0, c1), us, ue) =~= front_part(c0, c1, us, ue) + seq![
        (back_start(c0, c1, us, ue), c1),
    ]);
}

/// Carving `[us, ue)` out of a list to which a span that ends behind `ue`
/// was added: the span is carved, and what is left of its end is added to
/// the list.
proof fn lemma_carve_under_merge(r: Seq<(int, int)>, c0: int, c1: int, us: int, ue: int)
    requires
        separated(r),
        us <= ue < c1,
        c0 <= c1,
        forall|i: int| 0 <= i < r.len() ==> (#[trigger] r[i]).0 > ue && r[i].0 > c0,
    ensures
        carve_span(insert_span(r, c0, c1), us, ue) == front_part(c0, c1, us, ue) + insert_span(
            r,
            back_start(c0, c1, us, ue),
            c1,
        ),
    decreases r.len(),
{
    let pre = front_part(c0, c1, us, ue);
    let x = back_start(c0, c1, us, ue);
    lemma_parts(c0, c1, us, ue);
    if r.len() == 0 {
        lemma_carve_single((c0, c1), us, ue);
    } else {
        let g = r[0];
        let r2 = r.drop_first();
        lemma_tail(r);
        lemma_cons(r);
        assert(g.0 > ue && g.0 > c0);
        if c1 < g.0 {
            assert forall|i: int| 0 <= i < r.len() implies carve_one(#[trigger] r[i], us, ue)
                == seq![r[i]] by {
                assert(r[i].0 > ue);
                assert(r[i].0 <= r[i].1);
            }
            lemma_carve_untouched(r, us, ue);
            lemma_carve_cons((c0, c1), r, us, ue);
            assert(insert_span(r, x, c1) == seq![(x, c1)] + r);
            assert(pre + seq![(x, c1)] + r =~= pre + (seq![(x, c1)] + r));
        } else {
            let c2 = max_pos(g.1, c1);
            assert(min_pos(g.0, c0) == c0);
            assert(min_pos(g.0, x) == x);
            assert(c0 < c1);
            assert forall|i: int| 0 <= i < r2.len() implies (#[trigger] r2[i]).0 > ue && r2[i].0
                > c0 by {
                assert(r2[i].0 > g.1);
            }
            lemma_carve_under_merge(r2, c0, c2, us, ue);
            assert(front_part(c0, c2, us, ue) == pre);
            assert(back_start(c0, c2, us, ue) == x);
            assert(insert_span(r, x, c1) == insert_span(r2, x, c2));
        }
    }
}

/// A span that lies behind another can be added before or after the other
/// is carved out.
pub proof fn lemma_carve_insert_commute(x: Seq<(int, int)>, us: int, ue: int, ws: int, we: int)
    requires
        separated(x),
        us <= ue,
        ue < ws,
        ws <= we,
    ensures
        carve_span(insert_span(x, ws, we), us, ue) == insert_span(carve_span(x, us, ue), ws, we),
    decreases x.len(),
{
    if x.len() == 0 {
        lemma_carve_single((ws, we), us, ue);
        assert(carve_span(x, us, ue) =~= Seq::<(int, int)>::empty());
    } else {
        let h = x[0];
        let r = x.drop_first();
        lemma_tail(x);
        lemma_cons(x);
        if h.1 < ws {
            lemma_carve_insert_commute(r, us, ue, ws, we);
            lemma_carve_cons(h, insert_span(r, ws, we), us, ue);
            let a = carve_one(h, us, ue);
            let b = carve_span(r, us, ue);
            assert forall|i: int| 0 <= i < a.len() implies (#[trigger] (a + b)[i]).1 < ws by {
                assert((a + b)[i] == a[i]);
            }
            lemma_insert_span_skips(a + b, ws, we, a.len() as int);
            assert((a + b).take(a.len() as int) =~= a);
            assert((a + b).skip(a.len() as int) =~= b);
        } else if we < h.0 {
            assert forall|i: int| 0 <= i < x.len() implies carve_one(#[trigger] x[i], us, ue)
                == seq![x[i]] by {
                assert(x[i].0 >= h.0);
                assert(x[i].0 <= x[i].1);
            }
            lemma_carve_untouched(x, us, ue);
            lemma_carve_cons((ws, we), x, us, ue);
        } else {
            let c0 = min_pos(h.0, ws);
            let c1 = max_pos(h.1, we);
            assert forall|i: int| 0 <= i < r.len() implies (#[trigger] r[i]).0 > ue && r[i].0
                > c0 by {
                assert(r[i].0 > h.1);
            }
            lemma_carve_under_merge(r, c0, c1, us, ue);
            assert forall|i: int| 0 <= i < r.len() implies carve_one(#[trigger] r[i], us, ue)
                == seq![r[i]] by {
                assert(r[i].0 > ue);
                assert(r[i].0 <= r[i].1);
            }
            lemma_carve_untouched(r, us, ue);
            lemma_parts(h.0, h.1, us, ue);
            let pre = front_part(h.0, h.1, us, ue);
            let xh = back_start(h.0, h.1, us, ue);
            assert(pre == front_part(c0, c1, us, ue));
            assert(min_pos(xh, ws) == back_start(c0, c1, us, ue));
            let tail = seq![(xh, h.1)] + r;
            assert(carve_span(x, us, ue) =~= pre + tail);
            assert forall|i: int| 0 <= i < pre.len() implies (#[trigger] (pre + tail)[i]).1 < ws by {
                assert((pre + tail)[i] == pre[i]);
            }
            lemma_insert_span_skips(pre + tail, ws, we, pre.len() as int);
            assert((pre + tail).take(pre.len() as int) =~= pre);
            assert((pre + tail).skip(pre.len() as int) =~= tail);
            assert(tail[0] == (xh, h.1));
            assert(tail.drop_first() =~= r);
            assert(insert_span(tail, ws, we) == insert_span(r, min_pos(xh, ws), c1));
        }
    }
}

proof fn lemma_insert_bounded(p: Seq<(int, int)>, s: int, e: int, lb: int)
    requires
        s <= e,
        lb <= s,
        forall|i: int| 0 <= i < p.len() ==> lb <= (#[trigger] p[i]).0,
    ensures
        forall|k: int|
            0 <= k < insert_span(p, s, e).len() ==> lb <= (#[trigger] insert_span(p, s, e)[k]).0,
    decreases p.len(),
{
    let w = insert_span(p, s, e);
    if p.len() == 0 {
        assert(w =~= seq![(s, e)]);
        assert forall|k: int| 0 <= k < w.len() implies lb <= (#[trigger] w[k]).0 by {
            assert(w[k] == (s, e));
        }
    } else {
        let rest = p.drop_first();
        assert forall|i: int| 0 <= i < rest.len() implies lb <= (#[trigger] rest[i]).0 by {
            assert(rest[i] == p[i + 1]);
        }
        assert(lb <= p[0].0);
        if p[0].1 < s {
            lemma_insert_bounded(rest, s, e, lb);
            let t = insert_span(rest, s, e);
            assert(w == seq![p[0]] + t);
            assert forall|k: int| 0 <= k < w.len() implies lb <= (#[trigger] w[k]).0 by {
                if k > 0 {
                    assert(w[k] == t[k - 1]);
                } else {
                    assert(w[k] == p[0]);
                }
            }
        } else if e < p[0].0 {
            assert(w == seq![(s, e)] + p);
            assert forall|k: int| 0 <= k < w.len() implies lb <= (#[trigger] w[k]).0 by {
                if k > 0 {
                    assert(w[k] == p[k - 1]);
                } else {
                    assert(w[k] == (s, e));
                }
            }
        } else {
            let t = insert_span(rest, min_pos(p[0].0, s), max_pos(p[0].1, e));
            lemma_insert_bounded(rest, min_pos(p[0].0, s), max_pos(p[0].1, e), lb);
            assert(w == t);
            assert forall|k: int| 0 <= k < w.len() implies lb <= (#[trigger] w[k]).0 by {
                assert(lb <= t[k].0);
            }
        }
    }
}

/// Adding a span keeps a list separated.
pub proof fn lemma_insert_separated(p: Seq<(int, int)>, s: int, e: int)
    requires
        separated(p),
        s <= e,
    ensures
        separated(insert_span(p, s, e)),
    decreases p.len(),
{
    if p.len() > 0 {
        let h = p[0];
        let rest = p.drop_first();
        lemma_tail(p);
        lemma_cons(p);
        if h.1 < s {
            lemma_insert_separated(rest, s, e);
            let t = insert_span(rest, s, e);
            let lb = h.1 + 1;
            assert forall|i: int| 0 <= i < rest.len() implies lb <= (#[trigger] rest[i]).0 by {}
            lemma_insert_bounded(rest, s, e, lb);
            let w = seq![h] + t;
            assert forall|i: int| 0 <= i < w.len() implies (#[trigger] w[i]).0 <= w[i].1 by {
                if i > 0 {
                    assert(w[i] == t[i - 1]);
                }
            }
            assert forall|i: int, j: int| 0 <= i < j < w.len() implies (#[trigger] w[i]).1 < (
            #[trigger] w[j]).0 by {
                assert(w[j] == t[j - 1]);
                if i > 0 {
                    assert(w[i] == t[i - 1]);
                }
            }
        } else if e < h.0 {
            let w = seq![(s, e)] + p;
            assert forall|i: int| 0 <= i < w.len() implies (#[trigger] w[i]).0 <= w[i].1 by {
                if i > 0 {
                    assert(w[i] == p[i - 1]);
                }
            }
            assert forall|i: int, j: int| 0 <= i < j < w.len() implies (#[trigger] w[i]).1 < (
            #[trigger] w[j]).0 by {
                assert(w[j] == p[j - 1]);
                assert(p[j - 1].0 >= h.0);
                if i > 0 {
                    assert(w[i] == p[i - 1]);
                }
            }
        } else {
            lemma_insert_separated(rest, min_pos(h.0, s), max_pos(h.1, e));
        }
    } else {
        assert(insert_span(p, s, e) =~= seq![(s, e)]);
    }
}

/// Adding spans one by one keeps a list separated.
pub proof fn lemma_inserts_separated(p: Seq<(int, int)>, v: Seq<(int, int)>, n: int)
    requires
        separated(p),
        separated(v),
        n <= v.len(),
    ensures
        separated(insert_spans(p, v, n)),
    decreases n,
{
    if n > 0 {
        lemma_inserts_separated(p, v, n - 1);
        assert(v[n - 1].0 <= v[n - 1].1);
        lemma_insert_separated(insert_spans(p, v, n - 1), v[n - 1].0, v[n - 1].1);
    }
}

proof fn lemma_carve_past_inserts(x: Seq<(int, int)>, v: Seq<(int, int)>, m: int, us: int, ue: int)
    requires
        separated(x),
        separated(v),
        m <= v.len(),
        us <= ue,
        forall|j: int| 0 <= j < m ==> ue < (#[trigger] v[j]).0,
    ensures
        carve_span(insert_spans(x, v, m), us, ue) == insert_spans(carve_span(x, us, ue), v, m),
    decreases m,
{
    if m > 0 {
        lemma_carve_past_inserts(x, v, m - 1, us, ue);
        lemma_inserts_separated(x, v, m - 1);
        assert(ue < v[m - 1].0);
        assert(v[m - 1].0 <= v[m - 1].1);
        lemma_carve_insert_commute(insert_spans(x, v, m - 1), us, ue, v[m - 1].0, v[m - 1].1);
    }
}

proof fn lemma_inserts_first(p: Seq<(int, int)>, v: Seq<(int, int)>, n: int)
    requires
        1 <= n <= v.len(),
    ensures
        insert_spans(p, v, n) == insert_spans(
            insert_span(p, v[0].0, v[0].1),
            v.drop_first(),
            n - 1,
        ),
    decreases n,
{
    reveal_with_fuel(insert_spans, 2);
    if n > 1 {
        lemma_inserts_first(p, v, n - 1);
        assert(v.drop_first()[n - 2] == v[n - 1]);
    }
}

proof fn lemma_carves_first(q: Seq<(int, int)>, v: Seq<(int, int)>, n: int)
    requires
        1 <= n <= v.len(),
    ensures
        carve_spans(q, v, n) == carve_spans(carve_span(q, v[0].0, v[0].1), v.drop_first(), n - 1),
    decreases n,
{
    reveal_with_fuel(carve_spans, 2);
    if n > 1 {
        lemma_carves_first(q, v, n - 1);
        assert(v.drop_first()[n - 2] == v[n - 1]);
    }
}

/// Adding a range to a range and taking it out again leaves the range as
/// it was, if no span of the one is in the way of a span of the other:
/// spans that hold points may abut but not overlap, and no empty span of the
/// range lies in a span that is added, or at one of its ends.
pub proof fn lemma_unite_remove_round_trip(p: Seq<(int, int)>, v: Seq<(int, int)>)
    requires
        separated(p),
        separated(v),
        clear_of_all(p, v, v.len() as int),
    ensures
        carve_spans(insert_spans(p, v, v.len() as int), v, v.len() as int) == p,
    decreases v.len(),
{
    let n = v.len() as int;
    if n > 0 {
        let rest = v.drop_first();
        lemma_tail(v);
        assert(clear_of(p, v[0].0, v[0].1));
        assert(clear_of_all(p, rest, rest.len() as int)) by {
            assert forall|j: int| 0 <= j < rest.len() implies clear_of(
                p,
                (#[trigger] rest[j]).0,
                rest[j].1,
            ) by {
                assert(rest[j] == v[j + 1]);
            }
        }
        let q = insert_span(p, v[0].0, v[0].1);
        lemma_insert_separated(p, v[0].0, v[0].1);
        lemma_inserts_first(p, v, n);
        lemma_carves_first(insert_spans(p, v, n), v, n);
        lemma_carve_past_inserts(q, rest, n - 1, v[0].0, v[0].1);
        lemma_round_trip(p, v[0].0, v[0].1);
        lemma_unite_remove_round_trip(p, rest);
    }
}

/// The points of `b` that `a` holds come in `b` in the order in which they
/// come in `a`.
pub open spec fn keeps_order(a: &ProgramPoints, b: &ProgramPoints) -> bool {
    &&& a@.len() <= b@.len()
    &&& forall|x: int, y: int|
        0 <= x < a@.len() && 0 <= y < a@.len() ==> ((#[trigger] a@[x]).pos() < (
        #[trigger] a@[y]).pos()) == (b@[x].pos() < b@[y].pos())
}

/// A range stays well-formed when points are added or a block is
/// renumbered, as neither moves a point past another.
pub proof fn lemma_wf_keeps(r: LiveRange, a: &ProgramPoints, b: &ProgramPoints)
    requires
        r.wf(a),
        keeps_order(a, b),
    ensures
        r.wf(b),
{
    let sa = r.spans(a);
    let sb = r.spans(b);
    assert forall|i: int| 0 <= i < r.segments@.len() implies (#[trigger] r.segments@[i]).valid(b) by {
        assert(r.segments@[i].valid(a));
    }
    assert forall|i: int| 0 <= i < sb.len() implies (#[trigger] sb[i]).0 <= sb[i].1 by {
        assert(r.segments@[i].valid(a));
        assert(sa[i].0 <= sa[i].1);
        let x = r.segments@[i].start.base as int;
        let y = r.segments@[i].end.base as int;
        assert((a@[y].pos() < a@[x].pos()) == (b@[y].pos() < b@[x].pos()));
    }
    assert forall|i: int, j: int| 0 <= i < j < sb.len() implies (#[trigger] sb[i]).1 < (
    #[trigger] sb[j]).0 by {
        assert(r.segments@[i].valid(a));
        assert(r.segments@[j].valid(a));
        assert(sa[i].1 < sa[j].0);
        let x = r.segments@[i].end.base as int;
        let y = r.segments@[j].start.base as int;
        assert((a@[x].pos() < a@[y].pos()) == (b@[x].pos() < b@[y].pos()));
    }
}

/// Two ranges interfere after points were added or a block was renumbered
/// if and only if they interfered before.
pub proof fn lemma_overlap_keeps(r1: LiveRange, r2: LiveRange, a: &ProgramPoints, b: &ProgramPoints)
    requires
        r1.valid(a),
        r2.valid(a),
        keeps_order(a, b),
    ensures
        any_overlap(r1.spans(b), r2.spans(b)) == any_overlap(r1.spans(a), r2.spans(a)),
{
    assert forall|i: int, j: int|
        0 <= i < r1.segments@.len() && 0 <= j < r2.segments@.len() implies spans_overlap(
        r1.spans(b)[i],
        r2.spans(b)[j],
    ) == spans_overlap(r1.spans(a)[i], r2.spans(a)[j]) by {
        assert(r1.segments@[i].valid(a));
        assert(r2.segments@[j].valid(a));
        let s1 = r1.segments@[i].start.base as int;
        let e1 = r1.segments@[i].end.base as int;
        let s2 = r2.segments@[j].start.base as int;
        let e2 = r2.segments@[j].end.base as int;
        assert((a@[s1].pos() < a@[e2].pos()) == (b@[s1].pos() < b@[e2].pos()));
        assert((a@[s2].pos() < a@[e1].pos()) == (b@[s2].pos() < b@[e1].pos()));
    }
    if any_overlap(r1.spans(a), r2.spans(a)) {
        let (i, j) = choose|i: int, j: int|
            0 <= i < r1.spans(a).len() && 0 <= j < r2.spans(a).len() && #[trigger] spans_overlap(
                r1.spans(a)[i],
                r2.spans(a)[j],
            );
        assert(spans_overlap(r1.spans(b)[i], r2.spans(b)[j]));
    }
    if any_overlap(r1.spans(b), r2.spans(b)) {
        let (i, j) = choose|i: int, j: int|
            0 <= i < r1.spans(b).len() && 0 <= j < r2.spans(b).len() && #[trigger] spans_overlap(
                r1.spans(b)[i],
                r2.spans(b)[j],
            );
        assert(spans_overlap(r1.spans(a)[i], r2.spans(a)[j]));
    }
}

} // verus!
