//! Building live ranges along a walk over the instructions of a function:
//! the two steps that the walk takes at a program point, opening an empty
//! segment for a register and closing the segment that is in progress, and
//! what the walk as a whole makes of each register.

use crate::fx::{map_contains, map_get, map_get_mut, map_insert, map_new, set_elements};
use crate::live_range::{insert_span, separated, LiveRange, LiveSegment};
use crate::live_reg_matrix::{LiveInterval, LiveRegMatrix, PhysRegRange, VirtRegInterval};
use crate::liveness::LivenessAnalysis;
use crate::liveness_info::LivenessInfo;
use crate::machine::{MachineFunction, MachineFunctionBody, MachineInst, MachineInstId};
use crate::program_point::{
    lemma_appended_chain, linked_behind, position, ProgramPoint, ProgramPointBase, ProgramPoints,
    IDX_STEP,
};
use crate::register::{is_callee_saved_reg, RegisterId, VirtOrPhys, VirtReg, PHYS_REGS_NUM};
use rustc_hash::FxHashMap;
use vstd::prelude::*;

verus! {

/// The spans of the range of a register; `None` where it has no range.
pub type Spans = Option<Seq<(int, int)>>;

impl RegisterId {
    /// The key under which the range of the register is kept: its code for
    /// a virtual register, the key of its register file entry for a physical
    /// one.
    pub open spec fn range_key(self) -> int {
        match self.kind {
            VirtOrPhys::Virt(v) => v.0 + PHYS_REGS_NUM,
            VirtOrPhys::Phys(p) => p.key(),
        }
    }

    /// The walk follows the register: every virtual register, and every
    /// physical register that is not callee-saved.
    pub open spec fn traced(self) -> bool {
        match self.kind {
            VirtOrPhys::Virt(_) => true,
            VirtOrPhys::Phys(p) => !p.callee_saved(),
        }
    }
}

/// The range after an empty segment was opened at `p`.
pub open spec fn opened(r: Spans, p: int) -> Spans {
    Some(
        insert_span(
            match r {
                Some(s) => s,
                None => Seq::empty(),
            },
            p,
            p,
        ),
    )
}

/// The range after its last segment was closed at `p`; a register without
/// a segment stays as it is.
pub open spec fn closed_at(r: Spans, p: int) -> Spans {
    match r {
        Some(s) => if s.len() > 0 {
            Some(s.update(s.len() - 1, (s.last().0, p)))
        } else {
            r
        },
        None => r,
    }
}

/// One of the first `n` registers of `regs` is traced and has the key `key`.
pub open spec fn key_among(regs: Seq<RegisterId>, n: int, key: int) -> bool {
    exists|j: int| 0 <= j < n && j < regs.len() && (#[trigger] regs[j]).traced() && regs[j].range_key() == key
}

/// One of the registers with the codes `codes[..n]` has the key `key`.
pub open spec fn key_among_codes(codes: Seq<usize>, n: int, key: int) -> bool {
    exists|j: int|
        0 <= j < n && j < codes.len() && RegisterId::of_code(#[trigger] codes[j]).range_key() == key
}

/// One of the registers of the set `codes` has the key `key`.
pub open spec fn key_in_set(codes: Set<usize>, key: int) -> bool {
    exists|c: usize| codes.contains(c) && #[trigger] RegisterId::of_code(c).range_key() == key
}

/// The number of instructions of the block at place `k` of the order.
pub open spec fn block_len(body: &MachineFunctionBody, k: int) -> int {
    body.basic_blocks.blocks()[body.basic_blocks.order@[k] as int].iseq@.len() as int
}

/// The instruction `i` of the block at place `k` of the order.
pub open spec fn inst_at(body: &MachineFunctionBody, k: int, i: int) -> MachineInst {
    body.inst_arena.insts()[body.basic_blocks.blocks()[body.basic_blocks.order@[k] as int].iseq@[i] as int]
}

/// The liveness record of the block at place `k` of the order.
pub open spec fn record_at(body: &MachineFunctionBody, k: int) -> LivenessInfo {
    body.basic_blocks.liveness@[body.basic_blocks.order@[k]]
}

/// The position of the point at which the instruction `i` of the block at
/// place `k` is met; with `i` the number of instructions, the exit of the
/// block.
pub open spec fn inst_pos(k: int, i: int) -> int {
    position(k as usize, ((i + 1) * IDX_STEP) as usize)
}

/// The range of the register with the key `key` when the walk enters the
/// block at place `k`, before the registers live at its entry are seen.
/// Registers that are live when a block is left have their segment closed at
/// its exit.
pub open spec fn range_at_block(body: &MachineFunctionBody, key: int, k: int) -> Spans
    decreases k, 0int,
{
    if k <= 0 {
        None
    } else {
        let s = range_at_inst(body, key, k - 1, block_len(body, k - 1));
        if key_in_set(record_at(body, k - 1).live_out@, key) {
            closed_at(s, inst_pos(k - 1, block_len(body, k - 1)))
        } else {
            s
        }
    }
}

/// The range of the register with the key `key` when the walk stands in
/// front of the instruction `i` of the block at place `k`. A register that
/// is live at the entry of the block has an empty segment opened at the
/// entry. An instruction closes the segment of each register that it reads
/// and then opens an empty segment for each register that it writes.
pub open spec fn range_at_inst(body: &MachineFunctionBody, key: int, k: int, i: int) -> Spans
    decreases k, i + 1,
{
    if k < 0 || i < 0 {
        None
    } else if i == 0 {
        let s = range_at_block(body, key, k);
        if key_in_set(record_at(body, k).live_in@, key) {
            opened(s, position(k as usize, 0))
        } else {
            s
        }
    } else {
        let s = range_at_inst(body, key, k, i - 1);
        let inst = inst_at(body, k, i - 1);
        let p = inst_pos(k, i - 1);
        let s1 = if key_among(inst.used(), inst.used().len() as int, key) {
            closed_at(s, p)
        } else {
            s
        };
        if key_among(inst.defined(), inst.defined().len() as int, key) {
            opened(s1, p)
        } else {
            s1
        }
    }
}

/// The range that the walk over the whole function makes of the register
/// with the key `key`.
pub open spec fn range_of_key(body: &MachineFunctionBody, key: int) -> Spans {
    range_at_block(body, key, body.basic_blocks.order@.len() as int)
}

/// The ranges that the two maps hold, by key.
pub open spec fn ranges_view(
    intervals: Map<usize, LiveInterval>,
    phys: Map<usize, LiveRange>,
    pps: &ProgramPoints,
    key: int,
) -> Spans {
    if key >= PHYS_REGS_NUM {
        if key <= usize::MAX + PHYS_REGS_NUM && intervals.contains_key((key - PHYS_REGS_NUM) as usize) {
            Some(intervals[(key - PHYS_REGS_NUM) as usize].range.spans(pps))
        } else {
            None
        }
    } else if 0 <= key && phys.contains_key(key as usize) {
        Some(phys[key as usize].spans(pps))
    } else {
        None
    }
}

/// No span ends behind `p`.
pub open spec fn ends_by(s: Seq<(int, int)>, p: int) -> bool {
    forall|i: int| 0 <= i < s.len() ==> (#[trigger] s[i]).1 <= p
}

/// The interval `iv` of the virtual register `v` is well-formed, ends by
/// `p`, and is as it was made.
pub open spec fn interval_ok(iv: LiveInterval, v: usize, pps: &ProgramPoints, p: int) -> bool {
    &&& iv.range.wf(pps)
    &&& ends_by(iv.range.spans(pps), p)
    &&& iv.vreg == VirtReg(v)
    &&& iv.reg is None
    &&& iv.spill_weight == 0
    &&& iv.is_spillable
    &&& v + PHYS_REGS_NUM <= usize::MAX
}

/// The range `r` under the key `k` is well-formed and ends by `p`, and `k`
/// is the key of a register file entry.
pub open spec fn phys_range_ok(r: LiveRange, k: usize, pps: &ProgramPoints, p: int) -> bool {
    r.wf(pps) && ends_by(r.spans(pps), p) && k < PHYS_REGS_NUM
}

/// The two maps are in order for a walk that stands at the position `p`.
pub open spec fn ranges_ok(
    intervals: Map<usize, LiveInterval>,
    phys: Map<usize, LiveRange>,
    pps: &ProgramPoints,
    p: int,
) -> bool {
    &&& forall|v: usize|
        intervals.contains_key(v) ==> #[trigger] interval_ok(intervals[v], v, pps, p)
    &&& forall|k: usize| phys.contains_key(k) ==> #[trigger] phys_range_ok(phys[k], k, pps, p)
}

/// Inserting the empty span at `p` into a list that ends by `p`: nothing
/// changes where the list ends at `p`, and the span is put last otherwise.
pub proof fn lemma_insert_point(s: Seq<(int, int)>, p: int)
    requires
        separated(s),
        ends_by(s, p),
    ensures
        insert_span(s, p, p) == (if s.len() > 0 && s.last().1 == p {
            s
        } else {
            s.push((p, p))
        }),
    decreases s.len(),
{
    if s.len() == 0 {
        assert(seq![(p, p)] =~= s.push((p, p)));
    } else {
        let rest = s.drop_first();
        assert(s[0].0 <= s[0].1 && s[0].1 <= p);
        assert(separated(rest)) by {
            assert forall|i: int| 0 <= i < rest.len() implies (#[trigger] rest[i]).0
                <= rest[i].1 by {
                assert(rest[i] == s[i + 1]);
            }
            assert forall|i: int, j: int| 0 <= i < j < rest.len() implies (#[trigger] rest[i]).1 < (
            #[trigger] rest[j]).0 by {
                assert(rest[i] == s[i + 1] && rest[j] == s[j + 1]);
            }
        }
        assert(ends_by(rest, p)) by {
            assert forall|i: int| 0 <= i < rest.len() implies (#[trigger] rest[i]).1 <= p by {
                assert(rest[i] == s[i + 1]);
            }
        }
        if s[0].1 < p {
            lemma_insert_point(rest, p);
            if rest.len() == 0 {
                assert(seq![s[0]] + rest.push((p, p)) =~= s.push((p, p)));
            } else {
                assert(rest.last() == s.last());
                if rest.last().1 == p {
                    assert(seq![s[0]] + rest =~= s);
                } else {
                    assert(seq![s[0]] + rest.push((p, p)) =~= s.push((p, p)));
                }
            }
        } else {
            if rest.len() > 0 {
                assert(rest[0] == s[1]);
                assert(s[0].1 < s[1].0);
                assert(s[1].0 <= s[1].1 && s[1].1 <= p);
            }
            assert(rest =~= Seq::<(int, int)>::empty());
            assert(seq![(s[0].0, p)] =~= s);
            reveal_with_fuel(insert_span, 2);
        }
    }
}

/// Closes the last segment of `range` at `p`, if there is a segment.
fn close_last(range: &mut LiveRange, pps: &ProgramPoints, p: ProgramPoint)
    requires
        old(range).wf(pps),
        ends_by(old(range).spans(pps), pps.pos(p)),
        pps.contains(p),
    ensures
        final(range).wf(pps),
        ends_by(final(range).spans(pps), pps.pos(p)),
        Some(final(range).spans(pps)) == closed_at(Some(old(range).spans(pps)), pps.pos(p)),
{
    let n = range.segments.len();
    if n > 0 {
        let seg = range.segments[n - 1];
        let ghost before = range.spans(pps);
        range.segments.set(n - 1, LiveSegment::new(seg.start, p));
        proof {
            let after = range.spans(pps);
            assert(before[n - 1] == seg.span(pps));
            assert(before[n - 1].0 <= before[n - 1].1 && before[n - 1].1 <= pps.pos(p));
            assert(after =~= before.update(n - 1, (before.last().0, pps.pos(p))));
            assert forall|i: int| 0 <= i < range.segments@.len() implies (
            #[trigger] range.segments@[i]).valid(pps) by {
                if i < n - 1 {
                    assert(range.segments@[i] == old(range).segments@[i]);
                }
            }
            assert forall|i: int, j: int| 0 <= i < j < after.len() implies (#[trigger] after[i]).1 < (
            #[trigger] after[j]).0 by {
                assert(before[i].1 < before[j].0);
            }
            assert forall|i: int| 0 <= i < after.len() implies (#[trigger] after[i]).0
                <= after[i].1 by {
                assert(before[i].0 <= before[i].1);
            }
            assert forall|i: int| 0 <= i < after.len() implies (#[trigger] after[i]).1 <= pps.pos(
                p,
            ) by {
                assert(before[i].1 <= pps.pos(p));
            }
        }
    }
}

/// Opens an empty segment at `p` in `range`.
fn open_last(range: &mut LiveRange, pps: &ProgramPoints, p: ProgramPoint)
    requires
        old(range).wf(pps),
        ends_by(old(range).spans(pps), pps.pos(p)),
        pps.contains(p),
    ensures
        final(range).wf(pps),
        ends_by(final(range).spans(pps), pps.pos(p)),
        Some(final(range).spans(pps)) == opened(Some(old(range).spans(pps)), pps.pos(p)),
{
    proof {
        lemma_insert_point(range.spans(pps), pps.pos(p));
    }
    range.add_segment(pps, LiveSegment::new(p, p));
}

/// Opens an empty segment at `p` for the register `reg`, whose range is
/// made if it has none.
pub fn open_at(
    intervals: &mut FxHashMap<usize, LiveInterval>,
    phys: &mut PhysRegRange,
    pps: &ProgramPoints,
    reg: RegisterId,
    p: ProgramPoint,
)
    requires
        reg.wf(),
        pps.contains(p),
        ranges_ok(old(intervals)@, old(phys)@, pps, pps.pos(p)),
    ensures
        ranges_ok(final(intervals)@, final(phys)@, pps, pps.pos(p)),
        forall|key: int|
            #[trigger] ranges_view(final(intervals)@, final(phys)@, pps, key) == (if key
                == reg.range_key() {
                opened(ranges_view(old(intervals)@, old(phys)@, pps, key), pps.pos(p))
            } else {
                ranges_view(old(intervals)@, old(phys)@, pps, key)
            }),
{
    match reg.kind {
        VirtOrPhys::Virt(v) => {
            if !map_contains(intervals, v.0) {
                map_insert(intervals, v.0, LiveInterval::new(v, LiveRange::new_empty()));
            }
            let ghost mid = intervals@;
            proof {
                assert(mid[v.0].range.spans(pps) =~= (match ranges_view(
                    old(intervals)@,
                    old(phys)@,
                    pps,
                    reg.range_key(),
                ) {
                    Some(s) => s,
                    None => Seq::empty(),
                }));
            }
            proof {
                assert(forall|w: usize|
                    old(intervals)@.contains_key(w) ==> interval_ok(
                        old(intervals)@[w],
                        w,
                        pps,
                        pps.pos(p),
                    ));
                assert(old(intervals)@.contains_key(v.0) ==> interval_ok(
                    old(intervals)@[v.0],
                    v.0,
                    pps,
                    pps.pos(p),
                ));
                assert(mid[v.0].range.wf(pps));
                assert(ends_by(mid[v.0].range.spans(pps), pps.pos(p)));
            }
            let iv = map_get_mut(intervals, v.0);
            open_last(&mut iv.range, pps, p);
            proof {
                assert forall|w: usize| intervals@.contains_key(w) implies #[trigger] interval_ok(
                    intervals@[w],
                    w,
                    pps,
                    pps.pos(p),
                ) by {
                    if w != v.0 {
                        assert(interval_ok(old(intervals)@[w], w, pps, pps.pos(p)));
                    }
                }
                assert forall|key: int| #[trigger]
                    ranges_view(intervals@, phys@, pps, key) == (if key == reg.range_key() {
                        opened(ranges_view(old(intervals)@, old(phys)@, pps, key), pps.pos(p))
                    } else {
                        ranges_view(old(intervals)@, old(phys)@, pps, key)
                    }) by {
                    if key >= PHYS_REGS_NUM && key <= usize::MAX + PHYS_REGS_NUM && key
                        != reg.range_key() {
                        let w = (key - PHYS_REGS_NUM) as usize;
                        assert(w != v.0);
                        assert(intervals@.contains_key(w) == old(intervals)@.contains_key(w));
                    }
                }
            }
        },
        VirtOrPhys::Phys(ph) => {
            let ghost key0 = ph.key() as usize;
            proof {
                assert(old(phys)@.contains_key(key0) ==> phys_range_ok(
                    old(phys)@[key0],
                    key0,
                    pps,
                    pps.pos(p),
                ));
            }
            let r = phys.get_or_create(ph);
            proof {
                assert(r.wf(pps));
                assert(ends_by(r.spans(pps), pps.pos(p)));
                assert(r.spans(pps) =~= (match ranges_view(
                    old(intervals)@,
                    old(phys)@,
                    pps,
                    reg.range_key(),
                ) {
                    Some(s) => s,
                    None => Seq::empty(),
                }));
            }
            open_last(r, pps, p);
            proof {
                assert forall|k: usize| phys@.contains_key(k) implies #[trigger] phys_range_ok(
                    phys@[k],
                    k,
                    pps,
                    pps.pos(p),
                ) by {
                    if k != key0 {
                        assert(phys_range_ok(old(phys)@[k], k, pps, pps.pos(p)));
                    }
                }
                assert forall|key: int| #[trigger]
                    ranges_view(intervals@, phys@, pps, key) == (if key == reg.range_key() {
                        opened(ranges_view(old(intervals)@, old(phys)@, pps, key), pps.pos(p))
                    } else {
                        ranges_view(old(intervals)@, old(phys)@, pps, key)
                    }) by {
                    if 0 <= key < PHYS_REGS_NUM && key != reg.range_key() {
                        assert(phys@.contains_key(key as usize) == old(phys)@.contains_key(
                            key as usize,
                        ));
                    }
                }
            }
        },
    }
}

/// Closes at `p` the segment that is in progress for the register `reg`,
/// if there is one.
pub fn close_at(
    intervals: &mut FxHashMap<usize, LiveInterval>,
    phys: &mut PhysRegRange,
    pps: &ProgramPoints,
    reg: RegisterId,
    p: ProgramPoint,
)
    requires
        reg.wf(),
        pps.contains(p),
        ranges_ok(old(intervals)@, old(phys)@, pps, pps.pos(p)),
    ensures
        ranges_ok(final(intervals)@, final(phys)@, pps, pps.pos(p)),
        forall|key: int|
            #[trigger] ranges_view(final(intervals)@, final(phys)@, pps, key) == (if key
                == reg.range_key() {
                closed_at(ranges_view(old(intervals)@, old(phys)@, pps, key), pps.pos(p))
            } else {
                ranges_view(old(intervals)@, old(phys)@, pps, key)
            }),
{
    match reg.kind {
        VirtOrPhys::Virt(v) => {
            if map_contains(intervals, v.0) {
                proof {
                    assert(interval_ok(old(intervals)@[v.0], v.0, pps, pps.pos(p)));
                }
                let iv = map_get_mut(intervals, v.0);
                close_last(&mut iv.range, pps, p);
                proof {
                    assert forall|w: usize| intervals@.contains_key(w) implies #[trigger] interval_ok(
                        intervals@[w],
                        w,
                        pps,
                        pps.pos(p),
                    ) by {
                        if w != v.0 {
                            assert(interval_ok(old(intervals)@[w], w, pps, pps.pos(p)));
                        }
                    }
                    assert forall|key: int| #[trigger]
                        ranges_view(intervals@, phys@, pps, key) == (if key == reg.range_key() {
                            closed_at(
                                ranges_view(old(intervals)@, old(phys)@, pps, key),
                                pps.pos(p),
                            )
                        } else {
                            ranges_view(old(intervals)@, old(phys)@, pps, key)
                        }) by {
                        if key >= PHYS_REGS_NUM && key <= usize::MAX + PHYS_REGS_NUM && key
                            != reg.range_key() {
                            let w = (key - PHYS_REGS_NUM) as usize;
                            assert(w != v.0);
                            assert(intervals@.contains_key(w) == old(intervals)@.contains_key(w));
                        }
                    }
                }
            }
        },
        VirtOrPhys::Phys(ph) => {
            let ghost key0 = ph.key() as usize;
            proof {
                assert(old(phys)@.contains_key(key0) ==> phys_range_ok(
                    old(phys)@[key0],
                    key0,
                    pps,
                    pps.pos(p),
                ));
            }
            match phys.get_mut(ph) {
                Some(r) => {
                    close_last(r, pps, p);
                },
                None => {},
            }
            proof {
                assert forall|k: usize| phys@.contains_key(k) implies #[trigger] phys_range_ok(
                    phys@[k],
                    k,
                    pps,
                    pps.pos(p),
                ) by {
                    if k != key0 {
                        assert(phys_range_ok(old(phys)@[k], k, pps, pps.pos(p)));
                    }
                }
                assert forall|key: int| #[trigger]
                    ranges_view(intervals@, phys@, pps, key) == (if key == reg.range_key() {
                        closed_at(ranges_view(old(intervals)@, old(phys)@, pps, key), pps.pos(p))
                    } else {
                        ranges_view(old(intervals)@, old(phys)@, pps, key)
                    }) by {
                    if 0 <= key < PHYS_REGS_NUM && key != reg.range_key() {
                        assert(phys@.contains_key(key as usize) == old(phys)@.contains_key(
                            key as usize,
                        ));
                    }
                }
            }
        },
    }
}

/// What the two maps hold under `key`, where they are in order: a list
/// that is separated and ends by `p`.
proof fn lemma_view_ok(
    intervals: Map<usize, LiveInterval>,
    phys: Map<usize, LiveRange>,
    pps: &ProgramPoints,
    p: int,
    key: int,
)
    requires
        ranges_ok(intervals, phys, pps, p),
    ensures
        ranges_view(intervals, phys, pps, key) matches Some(s) ==> separated(s) && ends_by(s, p),
{
    if key >= PHYS_REGS_NUM {
        if key <= usize::MAX + PHYS_REGS_NUM && intervals.contains_key((key - PHYS_REGS_NUM) as usize) {
            assert(interval_ok(
                intervals[(key - PHYS_REGS_NUM) as usize],
                (key - PHYS_REGS_NUM) as usize,
                pps,
                p,
            ));
        }
    } else if 0 <= key && phys.contains_key(key as usize) {
        assert(phys_range_ok(phys[key as usize], key as usize, pps, p));
    }
}

/// Opening twice at one point is opening once.
proof fn lemma_opened_twice(r: Spans, p: int)
    requires
        r matches Some(s) ==> separated(s) && ends_by(s, p),
    ensures
        opened(opened(r, p), p) == opened(r, p),
{
    let s = match r {
        Some(s) => s,
        None => Seq::empty(),
    };
    lemma_insert_point(s, p);
    let t = insert_span(s, p, p);
    if s.len() > 0 && s.last().1 == p {
    } else {
        assert(t == s.push((p, p)));
        assert(separated(t)) by {
            assert forall|i: int, j: int| 0 <= i < j < t.len() implies (#[trigger] t[i]).1 < (
            #[trigger] t[j]).0 by {
                if j == s.len() {
                    assert(t[i] == s[i]);
                    assert(s[i].1 <= s.last().1) by {
                        if i < s.len() - 1 {
                            assert(s[i].1 < s[s.len() - 1].0);
                            assert(s[s.len() - 1].0 <= s[s.len() - 1].1);
                        }
                    }
                }
            }
        }
        assert(ends_by(t, p));
    }
    lemma_insert_point(t, p);
}

/// Closes at `p` the segments of the traced registers of `regs`.
fn close_all(
    intervals: &mut FxHashMap<usize, LiveInterval>,
    phys: &mut PhysRegRange,
    pps: &ProgramPoints,
    regs: &Vec<RegisterId>,
    p: ProgramPoint,
)
    requires
        forall|j: int| 0 <= j < regs@.len() ==> (#[trigger] regs@[j]).wf(),
        pps.contains(p),
        ranges_ok(old(intervals)@, old(phys)@, pps, pps.pos(p)),
    ensures
        ranges_ok(final(intervals)@, final(phys)@, pps, pps.pos(p)),
        forall|key: int|
            #[trigger] ranges_view(final(intervals)@, final(phys)@, pps, key) == (if key_among(
                regs@,
                regs@.len() as int,
                key,
            ) {
                closed_at(ranges_view(old(intervals)@, old(phys)@, pps, key), pps.pos(p))
            } else {
                ranges_view(old(intervals)@, old(phys)@, pps, key)
            }),
{
    let mut j: usize = 0;
    while j < regs.len()
        invariant
            forall|j: int| 0 <= j < regs@.len() ==> (#[trigger] regs@[j]).wf(),
            pps.contains(p),
            j <= regs@.len(),
            ranges_ok(intervals@, phys@, pps, pps.pos(p)),
            forall|key: int|
                #[trigger] ranges_view(intervals@, phys@, pps, key) == (if key_among(
                    regs@,
                    j as int,
                    key,
                ) {
                    closed_at(ranges_view(old(intervals)@, old(phys)@, pps, key), pps.pos(p))
                } else {
                    ranges_view(old(intervals)@, old(phys)@, pps, key)
                }),
        decreases regs@.len() - j,
    {
        let reg = regs[j];
        let ghost iv1 = intervals@;
        let ghost ph1 = phys@;
        let follow = match reg.kind {
            VirtOrPhys::Virt(_) => true,
            VirtOrPhys::Phys(ph) => !is_callee_saved_reg(ph),
        };
        if follow {
            close_at(intervals, phys, pps, reg, p);
        }
        proof {
            assert forall|key: int| #[trigger]
                ranges_view(intervals@, phys@, pps, key) == (if key_among(regs@, j + 1, key) {
                    closed_at(ranges_view(old(intervals)@, old(phys)@, pps, key), pps.pos(p))
                } else {
                    ranges_view(old(intervals)@, old(phys)@, pps, key)
                }) by {
                let was = ranges_view(iv1, ph1, pps, key);
                assert(was == (if key_among(regs@, j as int, key) {
                    closed_at(ranges_view(old(intervals)@, old(phys)@, pps, key), pps.pos(p))
                } else {
                    ranges_view(old(intervals)@, old(phys)@, pps, key)
                }));
                if follow && key == reg.range_key() {
                    assert(regs@[j as int].traced() && regs@[j as int].range_key() == key);
                    assert(key_among(regs@, j + 1, key));
                } else {
                    if key_among(regs@, j + 1, key) {
                        let w = choose|w: int|
                            0 <= w < j + 1 && w < regs@.len() && (#[trigger] regs@[w]).traced()
                                && regs@[w].range_key() == key;
                        assert(w < j);
                        assert(key_among(regs@, j as int, key));
                    }
                    if key_among(regs@, j as int, key) {
                        let w = choose|w: int|
                            0 <= w < j && w < regs@.len() && (#[trigger] regs@[w]).traced()
                                && regs@[w].range_key() == key;
                        assert(key_among(regs@, j + 1, key));
                    }
                }
            }
        }
        j += 1;
    }
}

/// Opens at `p` an empty segment for each traced register of `regs`, and
/// records the virtual registers among them.
fn open_all(
    intervals: &mut FxHashMap<usize, LiveInterval>,
    phys: &mut PhysRegRange,
    virt_regs: &mut FxHashMap<usize, RegisterId>,
    pps: &ProgramPoints,
    regs: &Vec<RegisterId>,
    p: ProgramPoint,
)
    requires
        forall|j: int| 0 <= j < regs@.len() ==> (#[trigger] regs@[j]).wf(),
        pps.contains(p),
        ranges_ok(old(intervals)@, old(phys)@, pps, pps.pos(p)),
    ensures
        ranges_ok(final(intervals)@, final(phys)@, pps, pps.pos(p)),
        forall|key: int|
            #[trigger] ranges_view(final(intervals)@, final(phys)@, pps, key) == (if key_among(
                regs@,
                regs@.len() as int,
                key,
            ) {
                opened(ranges_view(old(intervals)@, old(phys)@, pps, key), pps.pos(p))
            } else {
                ranges_view(old(intervals)@, old(phys)@, pps, key)
            }),
        forall|v: usize|
            #[trigger] final(virt_regs)@.contains_key(v) <==> old(virt_regs)@.contains_key(v)
                || regs@.contains(RegisterId { kind: VirtOrPhys::Virt(VirtReg(v)) }),
        forall|v: usize|
            final(virt_regs)@.contains_key(v) ==> #[trigger] final(virt_regs)@[v] == (if regs@.contains(
                RegisterId { kind: VirtOrPhys::Virt(VirtReg(v)) },
            ) {
                RegisterId { kind: VirtOrPhys::Virt(VirtReg(v)) }
            } else {
                old(virt_regs)@[v]
            }),
{
    let mut j: usize = 0;
    while j < regs.len()
        invariant
            forall|j: int| 0 <= j < regs@.len() ==> (#[trigger] regs@[j]).wf(),
            pps.contains(p),
            j <= regs@.len(),
            ranges_ok(intervals@, phys@, pps, pps.pos(p)),
            ranges_ok(old(intervals)@, old(phys)@, pps, pps.pos(p)),
            forall|key: int|
                #[trigger] ranges_view(intervals@, phys@, pps, key) == (if key_among(
                    regs@,
                    j as int,
                    key,
                ) {
                    opened(ranges_view(old(intervals)@, old(phys)@, pps, key), pps.pos(p))
                } else {
                    ranges_view(old(intervals)@, old(phys)@, pps, key)
                }),
            forall|v: usize|
                #[trigger] virt_regs@.contains_key(v) <==> old(virt_regs)@.contains_key(v)
                    || regs@.take(j as int).contains(
                    RegisterId { kind: VirtOrPhys::Virt(VirtReg(v)) },
                ),
            forall|v: usize|
                virt_regs@.contains_key(v) ==> #[trigger] virt_regs@[v] == (if regs@.take(
                    j as int,
                ).contains(RegisterId { kind: VirtOrPhys::Virt(VirtReg(v)) }) {
                    RegisterId { kind: VirtOrPhys::Virt(VirtReg(v)) }
                } else {
                    old(virt_regs)@[v]
                }),
        decreases regs@.len() - j,
    {
        let reg = regs[j];
        let ghost iv1 = intervals@;
        let ghost ph1 = phys@;
        let ghost v1 = virt_regs@;
        let follow = match reg.kind {
            VirtOrPhys::Virt(v) => {
                map_insert(virt_regs, v.0, reg);
                true
            },
            VirtOrPhys::Phys(ph) => !is_callee_saved_reg(ph),
        };
        if follow {
            open_at(intervals, phys, pps, reg, p);
        }
        proof {
            let a = regs@.take(j as int);
            let b = regs@.take(j + 1);
            assert(b =~= a.push(reg));
            assert forall|x: RegisterId| b.contains(x) <==> a.contains(x) || x == reg by {
                if b.contains(x) {
                    let w = choose|w: int| 0 <= w < b.len() && b[w] == x;
                    if w < j {
                        assert(a[w] == x);
                    }
                }
                if a.contains(x) {
                    let w = choose|w: int| 0 <= w < a.len() && a[w] == x;
                    assert(b[w] == x);
                }
                assert(b[j as int] == reg);
            }
            assert forall|key: int| #[trigger]
                ranges_view(intervals@, phys@, pps, key) == (if key_among(regs@, j + 1, key) {
                    opened(ranges_view(old(intervals)@, old(phys)@, pps, key), pps.pos(p))
                } else {
                    ranges_view(old(intervals)@, old(phys)@, pps, key)
                }) by {
                let was = ranges_view(iv1, ph1, pps, key);
                assert(was == (if key_among(regs@, j as int, key) {
                    opened(ranges_view(old(intervals)@, old(phys)@, pps, key), pps.pos(p))
                } else {
                    ranges_view(old(intervals)@, old(phys)@, pps, key)
                }));
                if follow && key == reg.range_key() {
                    assert(regs@[j as int].traced() && regs@[j as int].range_key() == key);
                    assert(key_among(regs@, j + 1, key));
                    lemma_view_ok(old(intervals)@, old(phys)@, pps, pps.pos(p), key);
                    lemma_opened_twice(
                        ranges_view(old(intervals)@, old(phys)@, pps, key),
                        pps.pos(p),
                    );
                } else {
                    if key_among(regs@, j + 1, key) {
                        let w = choose|w: int|
                            0 <= w < j + 1 && w < regs@.len() && (#[trigger] regs@[w]).traced()
                                && regs@[w].range_key() == key;
                        assert(w < j);
                        assert(key_among(regs@, j as int, key));
                    }
                    if key_among(regs@, j as int, key) {
                        let w = choose|w: int|
                            0 <= w < j && w < regs@.len() && (#[trigger] regs@[w]).traced()
                                && regs@[w].range_key() == key;
                        assert(key_among(regs@, j + 1, key));
                    }
                }
            }
        }
        j += 1;
    }
    proof {
        assert(regs@.take(regs@.len() as int) =~= regs@);
    }
}

/// Opens (where `entry`) or closes at `p` the segments of the registers
/// with the codes `codes`.
fn walk_codes(
    intervals: &mut FxHashMap<usize, LiveInterval>,
    phys: &mut PhysRegRange,
    pps: &ProgramPoints,
    codes: &Vec<usize>,
    p: ProgramPoint,
    entry: bool,
)
    requires
        pps.contains(p),
        ranges_ok(old(intervals)@, old(phys)@, pps, pps.pos(p)),
    ensures
        ranges_ok(final(intervals)@, final(phys)@, pps, pps.pos(p)),
        forall|key: int|
            #[trigger] ranges_view(final(intervals)@, final(phys)@, pps, key) == (
            if key_among_codes(codes@, codes@.len() as int, key) {
                if entry {
                    opened(ranges_view(old(intervals)@, old(phys)@, pps, key), pps.pos(p))
                } else {
                    closed_at(ranges_view(old(intervals)@, old(phys)@, pps, key), pps.pos(p))
                }
            } else {
                ranges_view(old(intervals)@, old(phys)@, pps, key)
            }),
{
    let mut j: usize = 0;
    while j < codes.len()
        invariant
            pps.contains(p),
            j <= codes@.len(),
            ranges_ok(intervals@, phys@, pps, pps.pos(p)),
            ranges_ok(old(intervals)@, old(phys)@, pps, pps.pos(p)),
            forall|key: int|
                #[trigger] ranges_view(intervals@, phys@, pps, key) == (if key_among_codes(
                    codes@,
                    j as int,
                    key,
                ) {
                    if entry {
                        opened(ranges_view(old(intervals)@, old(phys)@, pps, key), pps.pos(p))
                    } else {
                        closed_at(ranges_view(old(intervals)@, old(phys)@, pps, key), pps.pos(p))
                    }
                } else {
                    ranges_view(old(intervals)@, old(phys)@, pps, key)
                }),
        decreases codes@.len() - j,
    {
        let reg = RegisterId::from_code(codes[j]);
        let ghost iv1 = intervals@;
        let ghost ph1 = phys@;
        if entry {
            open_at(intervals, phys, pps, reg, p);
        } else {
            close_at(intervals, phys, pps, reg, p);
        }
        proof {
            assert forall|key: int| #[trigger]
                ranges_view(intervals@, phys@, pps, key) == (if key_among_codes(
                    codes@,
                    j + 1,
                    key,
                ) {
                    if entry {
                        opened(ranges_view(old(intervals)@, old(phys)@, pps, key), pps.pos(p))
                    } else {
                        closed_at(ranges_view(old(intervals)@, old(phys)@, pps, key), pps.pos(p))
                    }
                } else {
                    ranges_view(old(intervals)@, old(phys)@, pps, key)
                }) by {
                let was = ranges_view(iv1, ph1, pps, key);
                assert(was == (if key_among_codes(codes@, j as int, key) {
                    if entry {
                        opened(ranges_view(old(intervals)@, old(phys)@, pps, key), pps.pos(p))
                    } else {
                        closed_at(ranges_view(old(intervals)@, old(phys)@, pps, key), pps.pos(p))
                    }
                } else {
                    ranges_view(old(intervals)@, old(phys)@, pps, key)
                }));
                if key == reg.range_key() {
                    assert(RegisterId::of_code(codes@[j as int]).range_key() == key);
                    assert(key_among_codes(codes@, j + 1, key));
                    lemma_view_ok(old(intervals)@, old(phys)@, pps, pps.pos(p), key);
                    lemma_opened_twice(
                        ranges_view(old(intervals)@, old(phys)@, pps, key),
                        pps.pos(p),
                    );
                } else {
                    if key_among_codes(codes@, j + 1, key) {
                        let w = choose|w: int|
                            0 <= w < j + 1 && w < codes@.len() && RegisterId::of_code(
                                #[trigger] codes@[w],
                            ).range_key() == key;
                        assert(w < j);
                        assert(key_among_codes(codes@, j as int, key));
                    }
                    if key_among_codes(codes@, j as int, key) {
                        let w = choose|w: int|
                            0 <= w < j && w < codes@.len() && RegisterId::of_code(
                                #[trigger] codes@[w],
                            ).range_key() == key;
                        assert(key_among_codes(codes@, j + 1, key));
                    }
                }
            }
        }
        j += 1;
    }
}

/// The points of `b` lie where those of `a` lie, and `b` may hold more.
pub open spec fn keeps_places(a: &ProgramPoints, b: &ProgramPoints) -> bool {
    &&& a@.len() <= b@.len()
    &&& forall|h: int| 0 <= h < a@.len() ==> (#[trigger] b@[h]).bb == a@[h].bb && b@[h].idx == a@[h].idx
}

/// Ranges over the points of `a` are the same ranges over the points of
/// `b`, where `b` keeps the places of `a`.
proof fn lemma_ranges_carry(
    intervals: Map<usize, LiveInterval>,
    phys: Map<usize, LiveRange>,
    a: &ProgramPoints,
    b: &ProgramPoints,
    p: int,
    q: int,
)
    requires
        ranges_ok(intervals, phys, a, p),
        keeps_places(a, b),
        p <= q,
    ensures
        ranges_ok(intervals, phys, b, q),
        forall|key: int| #[trigger] ranges_view(intervals, phys, b, key) == ranges_view(intervals, phys, a, key),
{
    assert forall|v: usize| intervals.contains_key(v) implies #[trigger] interval_ok(
        intervals[v],
        v,
        b,
        q,
    ) && intervals[v].range.spans(b) == intervals[v].range.spans(a) by {
        assert(interval_ok(intervals[v], v, a, p));
        lemma_range_carries(intervals[v].range, a, b);
    }
    assert forall|k: usize| phys.contains_key(k) implies #[trigger] phys_range_ok(phys[k], k, b, q)
        && phys[k].spans(b) == phys[k].spans(a) by {
        assert(phys_range_ok(phys[k], k, a, p));
        lemma_range_carries(phys[k], a, b);
    }
    assert forall|key: int| #[trigger]
        ranges_view(intervals, phys, b, key) == ranges_view(intervals, phys, a, key) by {
        if key >= PHYS_REGS_NUM {
            if key <= usize::MAX + PHYS_REGS_NUM && intervals.contains_key(
                (key - PHYS_REGS_NUM) as usize,
            ) {
                assert(interval_ok(
                    intervals[(key - PHYS_REGS_NUM) as usize],
                    (key - PHYS_REGS_NUM) as usize,
                    b,
                    q,
                ));
            }
        } else if 0 <= key && phys.contains_key(key as usize) {
            assert(phys_range_ok(phys[key as usize], key as usize, b, q));
        }
    }
}

/// A range that is valid over the points of `a` has the same spans over
/// the points of `b`, where `b` keeps the places of `a`.
pub proof fn lemma_range_carries(r: LiveRange, a: &ProgramPoints, b: &ProgramPoints)
    requires
        r.valid(a),
        keeps_places(a, b),
    ensures
        r.valid(b),
        r.spans(b) == r.spans(a),
{
    assert forall|i: int| 0 <= i < r.segments@.len() implies (#[trigger] r.segments@[i]).valid(b)
        && r.segments@[i].span(b) == r.segments@[i].span(a) by {
        assert(r.segments@[i].valid(a));
        assert(b@[r.segments@[i].start.base as int].bb == a@[r.segments@[i].start.base as int].bb);
        assert(b@[r.segments@[i].end.base as int].bb == a@[r.segments@[i].end.base as int].bb);
    }
    assert(r.spans(b) =~= r.spans(a));
}

/// Makes the point `(bb, idx)` and links it behind `last`, the last point
/// so far.
fn append_point(pps: &mut ProgramPoints, last: ProgramPoint, bb: usize, idx: usize) -> (p:
    ProgramPoint)
    requires
        old(pps).linked(),
        old(pps).contains(last),
        old(pps).base_of(last).next is None,
        old(pps).pos(last) < position(bb, idx),
    ensures
        final(pps).linked(),
        keeps_places(old(pps), final(pps)),
        final(pps)@.len() == old(pps)@.len() + 1,
        p.base == old(pps)@.len(),
        final(pps).base_of(p).bb == bb,
        final(pps).base_of(p).idx == idx,
        final(pps).base_of(p).next is None,
{
    let ghost v = pps@;
    let ghost (order, rank) = choose|c: (Seq<int>, Seq<int>)| pps.is_chain(c.0, c.1);
    let b = ProgramPointBase::new(None, None, bb, idx);
    let p = pps.new_program_point(b);
    let count = pps.len();
    let p = p.set_prev(pps, Some(last));
    proof {
        assert(v.len() + 1 == count);
        lemma_appended_chain(v, b, order, rank, last.base as int);
        let chain = (order.push(v.len() as int), rank.push(v.len() as int));
        assert(pps@ == linked_behind(v.push(b), last.base as int, v.len() as int));
        assert(pps.is_chain(chain.0, chain.1));
    }
    p
}

/// The places of the points `v`, by handle.
pub open spec fn places(v: Seq<ProgramPointBase>) -> Seq<(int, int)> {
    Seq::new(v.len(), |h: int| (v[h].bb as int, v[h].idx as int))
}

/// The places of the points that are made when the walk enters the block at
/// place `k`: those of the blocks before, and the entry of this block.
pub open spec fn points_before(body: &MachineFunctionBody, k: int) -> Seq<(int, int)>
    decreases k, 0int,
{
    if k <= 0 {
        seq![(0int, 0int)]
    } else {
        points_in(body, k - 1, block_len(body, k - 1) + 1).push((k, 0int))
    }
}

/// The places of the points that are made when the walk has taken `j`
/// steps in the block at place `k`: one step to the first instruction, and
/// one behind each instruction.
pub open spec fn points_in(body: &MachineFunctionBody, k: int, j: int) -> Seq<(int, int)>
    decreases
            k,
            (if j <= 0 {
                1int
            } else {
                j + 1
            }),
{
    if j <= 0 {
        points_before(body, k)
    } else {
        points_in(body, k, j - 1).push((k, j * IDX_STEP))
    }
}

/// The point of each instruction that the walk has met when it stands in
/// front of the instruction `i` of the block at place `k`: the point that
/// was made last when the instruction was met.
pub open spec fn inst_points(body: &MachineFunctionBody, k: int, i: int) -> Map<
    MachineInstId,
    ProgramPoint,
>
    decreases k, i + 1,
{
    if k < 0 {
        Map::empty()
    } else if i <= 0 {
        if k == 0 {
            Map::empty()
        } else {
            inst_points(body, k - 1, block_len(body, k - 1))
        }
    } else {
        inst_points(body, k, i - 1).insert(
            body.basic_blocks.blocks()[body.basic_blocks.order@[k] as int].iseq@[i - 1],
            ProgramPoint { base: (points_in(body, k, i).len() - 1) as usize },
        )
    }
}

/// An instruction that the walk has met when it stands in front of the
/// instruction `i` of the block at place `k` writes the virtual register `v`.
pub open spec fn defines_virt(body: &MachineFunctionBody, k: int, i: int, v: usize) -> bool
    decreases k, i + 1,
{
    if k < 0 {
        false
    } else if i <= 0 {
        if k == 0 {
            false
        } else {
            defines_virt(body, k - 1, block_len(body, k - 1), v)
        }
    } else {
        defines_virt(body, k, i - 1, v) || inst_at(body, k, i - 1).defined().contains(
            RegisterId { kind: VirtOrPhys::Virt(VirtReg(v)) },
        )
    }
}

/// The machine can count the points of every block, and every block of the
/// order has a liveness record.
pub open spec fn walkable(body: &MachineFunctionBody) -> bool {
    &&& body.wf()
    &&& forall|k: int|
        0 <= k < body.basic_blocks.order@.len() ==> (#[trigger] block_len(body, k) + 2) * IDX_STEP
            <= usize::MAX
    &&& forall|k: int|
        0 <= k < body.basic_blocks.order@.len() ==> body.basic_blocks.liveness@.contains_key(
            #[trigger] body.basic_blocks.order@[k],
        )
}

proof fn lemma_codes_keys(codes: Seq<usize>, set: Set<usize>, key: int)
    requires
        codes.to_set() == set,
    ensures
        key_among_codes(codes, codes.len() as int, key) == key_in_set(set, key),
{
    if key_among_codes(codes, codes.len() as int, key) {
        let j = choose|j: int|
            0 <= j < codes.len() && j < codes.len() && RegisterId::of_code(
                #[trigger] codes[j],
            ).range_key() == key;
        assert(codes.to_set().contains(codes[j]));
        assert(RegisterId::of_code(codes[j]).range_key() == key);
    }
    if key_in_set(set, key) {
        let c = choose|c: usize| set.contains(c) && #[trigger] RegisterId::of_code(c).range_key() == key;
        assert(codes.to_set().contains(c));
        let j = choose|j: int| 0 <= j < codes.len() && codes[j] == c;
        assert(RegisterId::of_code(codes[j]).range_key() == key);
    }
}

impl LivenessAnalysis {
    /// Walks the blocks in order and the instructions of each block, makes
    /// a program point at each step, and builds the live range of every
    /// register on the way.
    pub fn construct_live_reg_matrix(&self, cur_func: &MachineFunction) -> (m: LiveRegMatrix)
        requires
            walkable(&cur_func.body),
        ensures
            m.wf(),
            m.program_points.linked(),
            places(m.program_points@) == points_before(
                &cur_func.body,
                cur_func.body.basic_blocks.order@.len() as int,
            ),
            m.id2pp@ == inst_points(
                &cur_func.body,
                cur_func.body.basic_blocks.order@.len() as int,
                0,
            ),
            forall|v: usize|
                #[trigger] m.virt_regs@.contains_key(v) == defines_virt(
                    &cur_func.body,
                    cur_func.body.basic_blocks.order@.len() as int,
                    0,
                    v,
                ),
            forall|v: usize|
                m.virt_regs@.contains_key(v) ==> #[trigger] m.virt_regs@[v] == (RegisterId {
                    kind: VirtOrPhys::Virt(VirtReg(v)),
                }),
            forall|key: int|
                #[trigger] ranges_view(
                    m.virt_reg_interval@,
                    m.phys_reg_range@,
                    &m.program_points,
                    key,
                ) == range_of_key(&cur_func.body, key),
            forall|v: usize|
                m.virt_reg_interval@.contains_key(v) ==> (#[trigger] m.virt_reg_interval@[v]).vreg
                    == VirtReg(v) && m.virt_reg_interval@[v].reg is None
                    && m.virt_reg_interval@[v].spill_weight == 0
                    && m.virt_reg_interval@[v].is_spillable,
    {
        let body = &cur_func.body;
        let mut intervals: FxHashMap<usize, LiveInterval> = map_new();
        let mut reg2range: PhysRegRange = PhysRegRange(map_new());
        let mut id2pp: FxHashMap<MachineInstId, ProgramPoint> = map_new();
        let mut virt_regs: FxHashMap<usize, RegisterId> = map_new();
        let mut program_points = ProgramPoints::new();
        let mut last_pp: ProgramPoint = program_points.new_program_point(
            ProgramPointBase::new(None, None, 0, 0),
        );
        let mut bb_idx: usize = 0;
        proof {
            crate::program_point::lemma_single_chain(program_points@);
            let chain = (seq![0int], seq![0int]);
            assert(program_points.is_chain(chain.0, chain.1));
            assert(places(program_points@) =~= points_before(body, 0));
            assert(id2pp@ =~= inst_points(body, 0, 0));
        }
        while bb_idx < body.basic_blocks.order.len()
            invariant
                body == &cur_func.body,
                walkable(body),
                bb_idx <= body.basic_blocks.order@.len(),
                program_points.linked(),
                program_points.contains(last_pp),
                last_pp.base == program_points@.len() - 1,
                program_points.base_of(last_pp).next is None,
                program_points.base_of(last_pp).bb == bb_idx,
                program_points.base_of(last_pp).idx == 0,
                places(program_points@) == points_before(body, bb_idx as int),
                ranges_ok(intervals@, reg2range@, &program_points, program_points.pos(last_pp)),
                forall|key: int|
                    #[trigger] ranges_view(intervals@, reg2range@, &program_points, key)
                        == range_at_block(body, key, bb_idx as int),
                id2pp@ == inst_points(body, bb_idx as int, 0),
                forall|v: usize|
                    #[trigger] virt_regs@.contains_key(v) == defines_virt(body, bb_idx as int, 0, v),
                forall|v: usize|
                    virt_regs@.contains_key(v) ==> #[trigger] virt_regs@[v] == (RegisterId {
                        kind: VirtOrPhys::Virt(VirtReg(v)),
                    }),
            decreases body.basic_blocks.order@.len() - bb_idx,
        {
            let ghost k = bb_idx as int;
            let id = body.basic_blocks.order[bb_idx];
            let block = body.basic_blocks.block(id);
            let liveness = map_get(&body.basic_blocks.liveness, id).unwrap();
            let ghost m_len = block_len(body, k);
            proof {
                assert((block_len(body, k) + 2) * IDX_STEP <= usize::MAX);
            }
            let live_in = set_elements(&liveness.live_in);
            let ghost iv0 = intervals@;
            let ghost ph0 = reg2range@;
            walk_codes(&mut intervals, &mut reg2range, &program_points, &live_in, last_pp, true);
            proof {
                assert forall|key: int| #[trigger]
                    ranges_view(intervals@, reg2range@, &program_points, key) == range_at_inst(
                        body,
                        key,
                        k,
                        0,
                    ) by {
                    lemma_codes_keys(live_in@, liveness.live_in@, key);
                    assert(ranges_view(iv0, ph0, &program_points, key) == range_at_block(
                        body,
                        key,
                        k,
                    ));
                }
            }
            let mut index: usize = IDX_STEP;
            let ghost pps0 = program_points;
            let ghost pos0 = program_points.pos(last_pp);
            last_pp = append_point(&mut program_points, last_pp, bb_idx, index);
            proof {
                lemma_ranges_carry(
                    intervals@,
                    reg2range@,
                    &pps0,
                    &program_points,
                    pos0,
                    program_points.pos(last_pp),
                );
                assert(places(program_points@) =~= points_in(body, k, 1)) by {
                    reveal_with_fuel(points_in, 2);
                    assert(places(program_points@) =~= places(pps0@).push((k, IDX_STEP as int)));
                }
                assert(id2pp@ =~= inst_points(body, k, 0));
            }
            let mut i: usize = 0;
            while i < block.iseq.len()
                invariant
                    body == &cur_func.body,
                    walkable(body),
                    k == bb_idx,
                    bb_idx < body.basic_blocks.order@.len(),
                    id == body.basic_blocks.order@[k],
                    id < body.basic_blocks.blocks().len(),
                    *block == body.basic_blocks.blocks()[id as int],
                    m_len == block.iseq@.len(),
                    m_len == block_len(body, k),
                    (m_len + 2) * IDX_STEP <= usize::MAX,
                    i <= block.iseq@.len(),
                    index == (i + 1) * IDX_STEP,
                    program_points.linked(),
                    program_points.contains(last_pp),
                    last_pp.base == program_points@.len() - 1,
                    program_points.base_of(last_pp).next is None,
                    program_points.base_of(last_pp).bb == bb_idx,
                    program_points.base_of(last_pp).idx == index,
                    places(program_points@) == points_in(body, k, i + 1),
                    ranges_ok(intervals@, reg2range@, &program_points, program_points.pos(last_pp)),
                    forall|key: int|
                        #[trigger] ranges_view(intervals@, reg2range@, &program_points, key)
                            == range_at_inst(body, key, k, i as int),
                    id2pp@ == inst_points(body, k, i as int),
                    forall|v: usize|
                        #[trigger] virt_regs@.contains_key(v) == defines_virt(body, k, i as int, v),
                    forall|v: usize|
                        virt_regs@.contains_key(v) ==> #[trigger] virt_regs@[v] == (RegisterId {
                            kind: VirtOrPhys::Virt(VirtReg(v)),
                        }),
                decreases block.iseq@.len() - i,
            {
                let inst_id = block.iseq[i];
                proof {
                    assert(body.basic_blocks.blocks()[id as int].iseq@[i as int]
                        < body.inst_arena.insts().len());
                    assert(program_points.pos(last_pp) == inst_pos(k, i as int));
                }
                let inst = body.inst_arena.inst(inst_id);
                map_insert(&mut id2pp, inst_id, last_pp);
                let used = inst.collect_used_regs();
                let defined = inst.collect_defined_regs();
                proof {
                    assert(inst.wf());
                    assert(*inst == inst_at(body, k, i as int));
                    assert(id2pp@ =~= inst_points(body, k, i + 1));
                }
                let ghost iv1 = intervals@;
                let ghost ph1 = reg2range@;
                let ghost v1 = virt_regs@;
                close_all(&mut intervals, &mut reg2range, &program_points, &used, last_pp);
                let ghost iv2 = intervals@;
                let ghost ph2 = reg2range@;
                open_all(
                    &mut intervals,
                    &mut reg2range,
                    &mut virt_regs,
                    &program_points,
                    &defined,
                    last_pp,
                );
                proof {
                    assert forall|key: int| #[trigger]
                        ranges_view(intervals@, reg2range@, &program_points, key)
                            == range_at_inst(body, key, k, i + 1) by {
                        assert(ranges_view(iv1, ph1, &program_points, key) == range_at_inst(
                            body,
                            key,
                            k,
                            i as int,
                        ));
                        assert(ranges_view(iv2, ph2, &program_points, key) == (if key_among(
                            used@,
                            used@.len() as int,
                            key,
                        ) {
                            closed_at(
                                ranges_view(iv1, ph1, &program_points, key),
                                program_points.pos(last_pp),
                            )
                        } else {
                            ranges_view(iv1, ph1, &program_points, key)
                        }));
                    }
                    assert forall|v: usize| #[trigger]
                        virt_regs@.contains_key(v) == defines_virt(body, k, i + 1, v) by {
                        assert(v1.contains_key(v) == defines_virt(body, k, i as int, v));
                    }
                    assert forall|v: usize| virt_regs@.contains_key(v) implies #[trigger] virt_regs@[v]
                        == (RegisterId { kind: VirtOrPhys::Virt(VirtReg(v)) }) by {
                        if v1.contains_key(v) {
                            assert(v1[v] == (RegisterId { kind: VirtOrPhys::Virt(VirtReg(v)) }));
                        }
                    }
                }
                proof {
                    assert((i + 2) * IDX_STEP <= (m_len + 2) * IDX_STEP) by (nonlinear_arith)
                        requires
                            i + 2 <= m_len + 2,
                            IDX_STEP == 16,
                    ;
                }
                index += IDX_STEP;
                let ghost pps1 = program_points;
                let ghost pos1 = program_points.pos(last_pp);
                last_pp = append_point(&mut program_points, last_pp, bb_idx, index);
                proof {
                    lemma_ranges_carry(
                        intervals@,
                        reg2range@,
                        &pps1,
                        &program_points,
                        pos1,
                        program_points.pos(last_pp),
                    );
                    assert(places(program_points@) =~= points_in(body, k, i + 2)) by {
                        assert(places(program_points@) =~= places(pps1@).push(
                            (k, (i + 2) * IDX_STEP),
                        ));
                    }
                }
                i += 1;
            }
            let live_out = set_elements(&liveness.live_out);
            let ghost iv3 = intervals@;
            let ghost ph3 = reg2range@;
            proof {
                assert(program_points.pos(last_pp) == inst_pos(k, m_len));
            }
            walk_codes(&mut intervals, &mut reg2range, &program_points, &live_out, last_pp, false);
            proof {
                assert forall|key: int| #[trigger]
                    ranges_view(intervals@, reg2range@, &program_points, key) == range_at_block(
                        body,
                        key,
                        k + 1,
                    ) by {
                    lemma_codes_keys(live_out@, liveness.live_out@, key);
                    assert(ranges_view(iv3, ph3, &program_points, key) == range_at_inst(
                        body,
                        key,
                        k,
                        m_len,
                    ));
                }
            }
            bb_idx += 1;
            let ghost pps2 = program_points;
            let ghost pos2 = program_points.pos(last_pp);
            last_pp = append_point(&mut program_points, last_pp, bb_idx, 0);
            proof {
                lemma_ranges_carry(
                    intervals@,
                    reg2range@,
                    &pps2,
                    &program_points,
                    pos2,
                    program_points.pos(last_pp),
                );
                assert(places(program_points@) =~= points_before(body, k + 1)) by {
                    assert(places(program_points@) =~= places(pps2@).push((k + 1, 0int)));
                }
                assert(id2pp@ =~= inst_points(body, k + 1, 0));
                assert forall|v: usize| #[trigger]
                    virt_regs@.contains_key(v) == defines_virt(body, k + 1, 0, v) by {
                    assert(virt_regs@.contains_key(v) == defines_virt(body, k, m_len, v));
                }
            }
        }
        let ghost pos_end = program_points.pos(last_pp);
        let m = LiveRegMatrix::new(
            virt_regs,
            id2pp,
            VirtRegInterval(intervals),
            reg2range,
            program_points,
        );
        proof {
            assert forall|v: usize| m.virt_reg_interval@.contains_key(v) implies (
            #[trigger] m.virt_reg_interval@[v]).range.wf(&m.program_points)
                && m.virt_reg_interval@[v].vreg == VirtReg(v) && m.virt_reg_interval@[v].reg is None
                && m.virt_reg_interval@[v].spill_weight == 0
                && m.virt_reg_interval@[v].is_spillable by {
                assert(interval_ok(m.virt_reg_interval@[v], v, &m.program_points, pos_end));
            }
            assert forall|k: usize| m.phys_reg_range@.contains_key(k) implies (
            #[trigger] m.phys_reg_range@[k]).wf(&m.program_points) by {
                assert(phys_range_ok(m.phys_reg_range@[k], k, &m.program_points, pos_end));
            }
        }
        m
    }
}

} // verus!
