//! Liveness analysis of a machine function: which registers each block
//! defines, and which are live when it is entered and left.

use crate::fx::{map_get, map_get_mut, map_insert, map_new, set_contains, set_elements};
use crate::live_reg_matrix::LiveRegMatrix;
use crate::program_point::IDX_STEP;
use crate::range_builder::{
    block_len, defines_virt, inst_points, places, points_before, range_of_key, ranges_view,
};
use crate::liveness_info::{added, has_super, LivenessInfo};
use crate::machine::{MachineBasicBlockId, MachineFunction, MachineFunctionBody, MachineInst};
use crate::node::MachineOpcode;
use crate::register::{PhysReg, RegisterId, VirtOrPhys, PHYS_REGS_NUM};
use rustc_hash::FxHashMap;
use vstd::prelude::*;

verus! {

/// The liveness records of the blocks of a function, by block.
pub type LivenessMap = Map<MachineBasicBlockId, LivenessInfo>;

/// The set `s` after the first `n` registers of `regs` were added in turn.
pub open spec fn added_regs(s: Set<usize>, regs: Seq<RegisterId>, n: int) -> Set<usize>
    decreases n,
{
    if n <= 0 {
        s
    } else {
        added(added_regs(s, regs, n - 1), regs[n - 1])
    }
}

/// The registers that the first `n` instructions of `iseq` define.
pub open spec fn defs_of(body: &MachineFunctionBody, iseq: Seq<usize>, n: int) -> Set<usize>
    decreases n,
{
    if n <= 0 {
        Set::empty()
    } else {
        let inst = body.inst_arena.insts()[iseq[n - 1] as int];
        added_regs(defs_of(body, iseq, n - 1), inst.defined(), inst.defined().len() as int)
    }
}

/// One of the first `n` instructions of `iseq` is a call.
pub open spec fn calls_in(body: &MachineFunctionBody, iseq: Seq<usize>, n: int) -> bool
    decreases n,
{
    if n <= 0 {
        false
    } else {
        calls_in(body, iseq, n - 1) || body.inst_arena.insts()[iseq[n - 1] as int].opcode
            == MachineOpcode::CALL
    }
}

/// The record `info` is the one that the definitions of the block `bb` give:
/// the registers defined, whether the block calls, and nothing live yet.
pub open spec fn is_def_record(body: &MachineFunctionBody, bb: usize, info: LivenessInfo) -> bool {
    let iseq = body.basic_blocks.blocks()[bb as int].iseq@;
    &&& info.def@ == defs_of(body, iseq, iseq.len() as int)
    &&& info.has_call == calls_in(body, iseq, iseq.len() as int)
    &&& info.live_in@ == Set::<usize>::empty()
    &&& info.live_out@ == Set::<usize>::empty()
    &&& info.phys_def@ == Set::<usize>::empty()
}

/// The set `s` has the register with the code `c`: a virtual register
/// where it is in the set, a physical register where the set holds it or a
/// wider alias.
pub open spec fn has(s: Set<usize>, c: usize) -> bool {
    if c >= PHYS_REGS_NUM {
        s.contains(c)
    } else {
        holds(s, PhysReg(c))
    }
}

/// The register with the code `c` is one that the sets keep: any but a
/// callee-saved physical register.
pub open spec fn kept_in_sets(c: usize) -> bool {
    c >= PHYS_REGS_NUM || !PhysReg(c).callee_saved()
}

/// If the register `c` is in the live-out set of the block `b`, the block
/// defines it or its live-in set has it.
pub open spec fn out_is_fed(l: LivenessMap, b: usize, c: usize) -> bool {
    l[b].live_out@.contains(c) ==> l[b].def@.contains(c) || has(l[b].live_in@, c)
}

/// If the register `c` is in the live-in set of the block `b`, the
/// live-out set of every predecessor of `b` has it.
pub open spec fn in_is_passed(body: &MachineFunctionBody, l: LivenessMap, b: usize, c: usize) -> bool {
    l[b].live_in@.contains(c) ==> forall|p: usize|
        body.basic_blocks.blocks()[b as int].pred@.contains(p) ==> has((#[trigger] l[p]).live_out@, c)
}

/// The two conditions at the block `b`, but for the first where `b` is
/// `cur` and the second where `b` is one of `pending`.
pub open spec fn closed_at(
    body: &MachineFunctionBody,
    l: LivenessMap,
    c: usize,
    pending: Set<usize>,
    cur: Option<usize>,
    b: usize,
) -> bool {
    (Some(b) != cur ==> out_is_fed(l, b, c)) && (!pending.contains(b) ==> in_is_passed(
        body,
        l,
        b,
        c,
    ))
}

/// The records are closed for the register `c`, but for the first condition
/// at the block `cur` and the second at the blocks `pending`.
#[verifier::opaque]
pub open spec fn closed_but(
    body: &MachineFunctionBody,
    l: LivenessMap,
    c: usize,
    pending: Set<usize>,
    cur: Option<usize>,
) -> bool {
    forall|b: usize| l.contains_key(b) ==> #[trigger] closed_at(body, l, c, pending, cur, b)
}

/// The records are closed for the register `c`: the dataflow conditions of
/// liveness hold at every block.
pub open spec fn closed(body: &MachineFunctionBody, l: LivenessMap, c: usize) -> bool {
    closed_but(body, l, c, Set::empty(), None)
}

/// At the block `b`, the record of `l2` is that of `l1` with `reg` added to
/// the live-in set, the live-out set, both or neither.
pub open spec fn grown_at(l1: LivenessMap, l2: LivenessMap, reg: RegisterId, b: usize) -> bool {
    &&& l2.contains_key(b)
    &&& l2[b].def@ == l1[b].def@
    &&& l2[b].phys_def@ == l1[b].phys_def@
    &&& l2[b].has_call == l1[b].has_call
    &&& (l2[b].live_in@ == l1[b].live_in@ || l2[b].live_in@ == added(l1[b].live_in@, reg))
    &&& (l2[b].live_out@ == l1[b].live_out@ || l2[b].live_out@ == added(l1[b].live_out@, reg))
}

/// The records `l2` come from `l1` by adding `reg` to live-in and live-out
/// sets of some blocks; nothing else differs, and the same blocks have a
/// record.
#[verifier::opaque]
pub open spec fn grown_by(l1: LivenessMap, l2: LivenessMap, reg: RegisterId) -> bool {
    &&& l2.dom() == l1.dom()
    &&& forall|b: usize| l1.contains_key(b) ==> #[trigger] grown_at(l1, l2, reg, b)
}

/// The number of blocks below `n` that have a record and at whose entry
/// `c` is not live.
pub open spec fn lacking(l: LivenessMap, c: usize, n: nat) -> nat
    decreases n,
{
    if n == 0 {
        0
    } else {
        lacking(l, c, (n - 1) as nat) + (if l.contains_key((n - 1) as usize) && !l[(n
            - 1) as usize].live_in@.contains(c) {
            1nat
        } else {
            0nat
        })
    }
}

proof fn lemma_lacking_shrinks(l1: LivenessMap, l2: LivenessMap, c: usize, n: nat)
    requires
        l2.dom() == l1.dom(),
        forall|b: usize|
            l1.contains_key(b) && (#[trigger] l1[b]).live_in@.contains(c) ==> l2[b].live_in@.contains(
                c,
            ),
    ensures
        lacking(l2, c, n) <= lacking(l1, c, n),
        forall|b: usize|
            b < n && l1.contains_key(b) && !(#[trigger] l1[b]).live_in@.contains(c)
                && l2[b].live_in@.contains(c) ==> lacking(l2, c, n) < lacking(l1, c, n),
    decreases n,
{
    if n > 0 {
        lemma_lacking_shrinks(l1, l2, c, (n - 1) as nat);
        let b = (n - 1) as usize;
        assert(l2.contains_key(b) == l1.contains_key(b));
        assert(l1.contains_key(b) && l1[b].live_in@.contains(c) ==> l2[b].live_in@.contains(c));
    }
}

/// Adding a register keeps the register in the set where it was, and
/// changes nothing for any other virtual register.
pub proof fn lemma_added_keeps(s: Set<usize>, reg: RegisterId, c: usize)
    requires
        reg.wf(),
    ensures
        c == reg.code() && s.contains(c) ==> added(s, reg).contains(c),
        c >= PHYS_REGS_NUM && c != reg.code() ==> added(s, reg).contains(c) == s.contains(c),
        reg.kind is Virt ==> added(s, reg).contains(reg.code() as usize),
{
}

proof fn lemma_grown_trans(l1: LivenessMap, l2: LivenessMap, l3: LivenessMap, reg: RegisterId)
    requires
        reg.wf(),
        grown_by(l1, l2, reg),
        grown_by(l2, l3, reg),
    ensures
        grown_by(l1, l3, reg),
{
    reveal(grown_by);
    assert forall|b: usize| l1.contains_key(b) implies #[trigger] grown_at(l1, l3, reg, b) by {
        assert(l2.contains_key(b));
        assert(grown_at(l1, l2, reg, b));
        assert(grown_at(l2, l3, reg, b));
        lemma_added_twice(l1[b].live_in@, reg);
        lemma_added_twice(l1[b].live_out@, reg);
    }
}

/// Adding a register a second time changes nothing.
pub proof fn lemma_added_twice(s: Set<usize>, reg: RegisterId)
    requires
        reg.wf(),
    ensures
        added(added(s, reg), reg) == added(s, reg),
{
    match reg.kind {
        VirtOrPhys::Virt(_) => {
            assert(s.insert(reg.code() as usize).insert(reg.code() as usize) =~= s.insert(
                reg.code() as usize,
            ));
        },
        VirtOrPhys::Phys(p) => {
            let t = added(s, reg);
            if p.callee_saved() || s.contains(p.0) {
            } else if crate::liveness_info::has_super(s, p) {
                let c = choose|c: usize| s.contains(c) && p.is_sub_of(crate::register::PhysReg(c));
                assert(t.contains(c));
                assert(crate::liveness_info::has_super(t, p));
                assert(crate::liveness_info::without_subs(t, p) =~= t);
            } else {
            }
        },
    }
}

/// At the block `b`, the sets of `l2` have the register `c` where those
/// of `l1` have it, and hold `c` itself only where those of `l1` hold it, but
/// that at the block `k` the live-in set (where `at_entry`) or the live-out
/// set may have gained `c`, and has it.
pub open spec fn moved_at(
    l1: LivenessMap,
    l2: LivenessMap,
    k: Option<usize>,
    c: usize,
    at_entry: bool,
    b: usize,
) -> bool {
    &&& l2[b].def@ == l1[b].def@
    &&& l2[b].live_in@.contains(c) ==> l1[b].live_in@.contains(c) || (Some(b) == k && at_entry)
    &&& l2[b].live_out@.contains(c) ==> l1[b].live_out@.contains(c) || (Some(b) == k
        && !at_entry)
    &&& has(l1[b].live_in@, c) ==> has(l2[b].live_in@, c)
    &&& has(l1[b].live_out@, c) ==> has(l2[b].live_out@, c)
    &&& Some(b) == k && at_entry ==> has(l2[b].live_in@, c)
    &&& Some(b) == k && !at_entry ==> has(l2[b].live_out@, c)
}

/// The sets of `l2` are those of `l1` as far as the register `c` goes, but
/// for one that may have gained `c`.
pub open spec fn moved(
    l1: LivenessMap,
    l2: LivenessMap,
    k: Option<usize>,
    c: usize,
    at_entry: bool,
) -> bool {
    &&& l2.dom() == l1.dom()
    &&& forall|b: usize| l1.contains_key(b) ==> #[trigger] moved_at(l1, l2, k, c, at_entry, b)
}

/// What adding `reg` does to a set as far as a register `c` goes: the set
/// has `c` afterwards where it had it, and holds `c` itself only where it held
/// it or `c` is the register that was put in.
pub proof fn lemma_added_has(s: Set<usize>, reg: RegisterId, c: usize)
    requires
        reg.wf(),
    ensures
        has(s, c) ==> has(added(s, reg), c),
        added(s, reg).contains(c) ==> s.contains(c) || (c == reg.code() && crate::liveness_info::adds(
            s,
            reg,
        )),
        c == reg.code() && kept_in_sets(c) ==> has(added(s, reg), c),
{
    lemma_added_keeps(s, reg, c);
    if c < PHYS_REGS_NUM {
        lemma_holds_added(s, reg, PhysReg(c));
    }
}

/// Every record is that of a block, and every predecessor of a block that
/// has a record has one.
pub open spec fn preds_recorded(body: &MachineFunctionBody, l: LivenessMap) -> bool {
    &&& forall|b: usize| #[trigger] l.contains_key(b) ==> b < body.basic_blocks.blocks().len()
    &&& forall|b: usize, p: usize|
        l.contains_key(b) && (#[trigger] body.basic_blocks.blocks()[b as int].pred@.contains(p))
            ==> l.contains_key(p)
}

/// One gain keeps the records closed, but that the block that gained may
/// now break a condition: the second where it gained at its entry, the
/// first where it gained at its exit and the register was not live there.
proof fn lemma_closed_moved(
    body: &MachineFunctionBody,
    l1: LivenessMap,
    l2: LivenessMap,
    c: usize,
    pending: Set<usize>,
    cur: Option<usize>,
    k: Option<usize>,
    at_entry: bool,
)
    requires
        closed_but(body, l1, c, pending, cur),
        moved(l1, l2, k, c, at_entry),
        preds_recorded(body, l1),
    ensures
        k is Some && at_entry && cur == k ==> closed_but(body, l2, c, pending.insert(k->0), None),
        k is Some && !at_entry && cur is None ==> closed_but(body, l2, c, pending, k),
        k is Some && !at_entry && cur is None && l1[k->0].live_out@.contains(c) ==> closed_but(
            body,
            l2,
            c,
            pending,
            None,
        ),
        k is None ==> closed_but(body, l2, c, pending, cur),
{
    reveal(closed_but);
    if k is Some && at_entry && cur == k {
        assert forall|b: usize| l2.contains_key(b) implies #[trigger] closed_at(
            body,
            l2,
            c,
            pending.insert(k->0),
            None,
            b,
        ) by {
            assert(l1.contains_key(b));
            assert(closed_at(body, l1, c, pending, cur, b));
            lemma_gained_block(body, l1, l2, c, k, at_entry, b);
        }
    }
    if k is Some && !at_entry && cur is None {
        assert forall|b: usize| l2.contains_key(b) implies #[trigger] closed_at(
            body,
            l2,
            c,
            pending,
            k,
            b,
        ) by {
            assert(l1.contains_key(b));
            assert(closed_at(body, l1, c, pending, cur, b));
            lemma_gained_block(body, l1, l2, c, k, at_entry, b);
        }
        if l1[k->0].live_out@.contains(c) {
            assert forall|b: usize| l2.contains_key(b) implies #[trigger] closed_at(
                body,
                l2,
                c,
                pending,
                None,
                b,
            ) by {
                assert(l1.contains_key(b));
                assert(closed_at(body, l1, c, pending, cur, b));
                lemma_gained_block(body, l1, l2, c, k, at_entry, b);
            }
        }
    }
    if k is None {
        assert forall|b: usize| l2.contains_key(b) implies #[trigger] closed_at(
            body,
            l2,
            c,
            pending,
            cur,
            b,
        ) by {
            assert(l1.contains_key(b));
            assert(closed_at(body, l1, c, pending, cur, b));
            lemma_gained_block(body, l1, l2, c, k, at_entry, b);
        }
    }
}

/// What one gain leaves of the two conditions at the block `b`.
proof fn lemma_gained_block(
    body: &MachineFunctionBody,
    l1: LivenessMap,
    l2: LivenessMap,
    c: usize,
    k: Option<usize>,
    at_entry: bool,
    b: usize,
)
    requires
        moved(l1, l2, k, c, at_entry),
        preds_recorded(body, l1),
        l1.contains_key(b),
    ensures
        out_is_fed(l1, b, c) ==> out_is_fed(l2, b, c) || (Some(b) == k && !at_entry
            && !l1[b].live_out@.contains(c)),
        in_is_passed(body, l1, b, c) ==> in_is_passed(body, l2, b, c) || (Some(b) == k && at_entry),
        Some(b) == k && at_entry ==> out_is_fed(l2, b, c),
{
    assert(moved_at(l1, l2, k, c, at_entry, b));
    if in_is_passed(body, l1, b, c) && !(Some(b) == k && at_entry) {
        assert forall|q: usize|
            body.basic_blocks.blocks()[b as int].pred@.contains(q) && l2[b].live_in@.contains(
                c,
            ) implies has((#[trigger] l2[q]).live_out@, c) by {
            assert(l1.contains_key(q));
            assert(moved_at(l1, l2, k, c, at_entry, q));
            assert(has(l1[q].live_out@, c));
        }
    }
}

proof fn lemma_closed_settles(
    body: &MachineFunctionBody,
    l: LivenessMap,
    c: usize,
    pending: Set<usize>,
    bb: usize,
)
    ensures
        closed_but(body, l, c, pending, Some(bb)) && out_is_fed(l, bb, c) ==> closed_but(
            body,
            l,
            c,
            pending,
            None,
        ),
        closed_but(body, l, c, pending.insert(bb), None) && in_is_passed(body, l, bb, c)
            ==> closed_but(body, l, c, pending, None),
{
    reveal(closed_but);
    if closed_but(body, l, c, pending, Some(bb)) && out_is_fed(l, bb, c) {
        assert forall|b: usize| l.contains_key(b) implies #[trigger] closed_at(
            body,
            l,
            c,
            pending,
            None,
            b,
        ) by {
            assert(closed_at(body, l, c, pending, Some(bb), b));
        }
    }
    if closed_but(body, l, c, pending.insert(bb), None) && in_is_passed(body, l, bb, c) {
        assert forall|b: usize| l.contains_key(b) implies #[trigger] closed_at(
            body,
            l,
            c,
            pending,
            None,
            b,
        ) by {
            assert(closed_at(body, l, c, pending.insert(bb), None, b));
        }
    }
}

/// Adding a register other than `c` keeps the records closed for `c`.
proof fn lemma_closed_grown_other(
    body: &MachineFunctionBody,
    l1: LivenessMap,
    l2: LivenessMap,
    reg: RegisterId,
    c: usize,
)
    requires
        closed(body, l1, c),
        grown_by(l1, l2, reg),
        preds_recorded(body, l1),
        reg.wf(),
        c != reg.code(),
    ensures
        closed(body, l2, c),
{
    reveal(closed_but);
    reveal(grown_by);
    assert forall|b: usize| l2.contains_key(b) implies #[trigger] closed_at(
        body,
        l2,
        c,
        Set::empty(),
        None,
        b,
    ) by {
        assert(l1.contains_key(b));
        assert(closed_at(body, l1, c, Set::empty(), None, b));
        assert(grown_at(l1, l2, reg, b));
        lemma_added_has(l1[b].live_in@, reg, c);
        lemma_added_has(l1[b].live_out@, reg, c);
        assert forall|q: usize|
            body.basic_blocks.blocks()[b as int].pred@.contains(q) && l2[b].live_in@.contains(
                c,
            ) implies has((#[trigger] l2[q]).live_out@, c) by {
            assert(l1.contains_key(q));
            assert(grown_at(l1, l2, reg, q));
            lemma_added_has(l1[q].live_out@, reg, c);
            assert(has(l1[q].live_out@, c));
        }
    }
}

/// Where the records grow by `reg`, the register stays live where it was.
proof fn lemma_grown_keeps(l1: LivenessMap, l2: LivenessMap, reg: RegisterId, n: nat)
    requires
        grown_by(l1, l2, reg),
        reg.wf(),
    ensures
        forall|b: usize|
            l1.contains_key(b) && (#[trigger] l1[b]).live_in@.contains(reg.code() as usize)
                ==> l2[b].live_in@.contains(reg.code() as usize),
        forall|b: usize|
            l1.contains_key(b) && (#[trigger] l1[b]).live_out@.contains(reg.code() as usize)
                ==> l2[b].live_out@.contains(reg.code() as usize),
        l2.dom() == l1.dom(),
        lacking(l2, reg.code() as usize, n) <= lacking(l1, reg.code() as usize, n),
{
    reveal(grown_by);
    assert forall|b: usize| l1.contains_key(b) implies ((#[trigger] l1[b]).live_in@.contains(
        reg.code() as usize,
    ) ==> l2[b].live_in@.contains(reg.code() as usize)) && (l1[b].live_out@.contains(
        reg.code() as usize,
    ) ==> l2[b].live_out@.contains(reg.code() as usize)) by {
        assert(grown_at(l1, l2, reg, b));
        lemma_added_keeps(l1[b].live_in@, reg, reg.code() as usize);
        lemma_added_keeps(l1[b].live_out@, reg, reg.code() as usize);
    }
    lemma_lacking_shrinks(l1, l2, reg.code() as usize, n);
}

/// The registers that the instructions of the block `b` before the place
/// `i` write.
pub open spec fn written_before(body: &MachineFunctionBody, b: usize, i: int) -> Set<usize> {
    defs_of(body, body.basic_blocks.blocks()[b as int].iseq@, i)
}

/// The registers that the instructions of the block `b` write.
pub open spec fn written_in(body: &MachineFunctionBody, b: usize) -> Set<usize> {
    written_before(body, b, body.basic_blocks.blocks()[b as int].iseq@.len() as int)
}

/// The operand register `j` of the instruction `i` of the block `b` has the
/// code `c`, and no earlier instruction of the block writes `c`.
pub open spec fn reads_first(body: &MachineFunctionBody, b: usize, i: int, j: int, c: usize) -> bool {
    let inst = body.inst_arena.insts()[body.basic_blocks.blocks()[b as int].iseq@[i] as int];
    &&& 0 <= i < body.basic_blocks.blocks()[b as int].iseq@.len()
    &&& 0 <= j < inst.operand_uses().len()
    &&& inst.operand_uses()[j].code() == c
    &&& !written_before(body, b, i).contains(c)
}

/// An operand of an instruction of the block `b` reads the register `c`
/// before any instruction of the block writes it.
pub open spec fn read_first(body: &MachineFunctionBody, b: usize, c: usize) -> bool {
    exists|i: int, j: int| #[trigger] reads_first(body, b, i, j, c)
}

/// The block `s` is in the order and has the block `b` as a predecessor.
pub open spec fn follows(body: &MachineFunctionBody, b: usize, s: usize) -> bool {
    body.basic_blocks.order@.contains(s) && body.basic_blocks.blocks()[s as int].pred@.contains(b)
}

/// From the entry of the block `b` of the order, a path of at most `steps`
/// further blocks leads to an operand that reads the register `c`, and
/// nothing on the way writes `c` before.
pub open spec fn reaches_read(body: &MachineFunctionBody, b: usize, c: usize, steps: nat) -> bool
    decreases steps,
{
    body.basic_blocks.order@.contains(b) && (read_first(body, b, c) || (steps > 0 && !written_in(
        body,
        b,
    ).contains(c) && exists|s: usize| #[trigger]
        follows(body, b, s) && reaches_read(body, s, c, (steps - 1) as nat)))
}

/// The register `c` is live at the entry of the block `b`: some path from
/// there reads it before anything writes it.
pub open spec fn live_at_entry(body: &MachineFunctionBody, b: usize, c: usize) -> bool {
    exists|steps: nat| #[trigger] reaches_read(body, b, c, steps)
}

/// The register `c` is live at the exit of the block `b`: it is live at the
/// entry of a block that follows.
pub open spec fn live_at_exit(body: &MachineFunctionBody, b: usize, c: usize) -> bool {
    exists|s: usize| #[trigger] follows(body, b, s) && live_at_entry(body, s, c)
}

/// The records are those of the blocks of the order, and each holds the
/// registers that its block writes.
pub open spec fn records_fit(body: &MachineFunctionBody, l: LivenessMap) -> bool {
    &&& forall|b: usize| #[trigger] l.contains_key(b) <==> body.basic_blocks.order@.contains(b)
    &&& forall|b: usize| l.contains_key(b) ==> (#[trigger] l[b]).def@ == written_in(body, b)
}

/// Every predecessor of a block of the order is in the order.
pub open spec fn preds_ordered(body: &MachineFunctionBody) -> bool {
    forall|k: int, p: usize|
        0 <= k < body.basic_blocks.order@.len()
            && #[trigger] body.basic_blocks.blocks()[body.basic_blocks.order@[k] as int].pred@.contains(
            p,
        ) ==> body.basic_blocks.order@.contains(p)
}

proof fn lemma_fit_preds(body: &MachineFunctionBody, l: LivenessMap)
    requires
        body.wf(),
        preds_ordered(body),
        records_fit(body, l),
    ensures
        preds_recorded(body, l),
{
    assert forall|b: usize| #[trigger] l.contains_key(b) implies b < body.basic_blocks.blocks().len() by {
        assert(body.basic_blocks.order@.contains(b));
    }
    assert forall|b: usize, p: usize|
        l.contains_key(b) && (#[trigger] body.basic_blocks.blocks()[b as int].pred@.contains(
            p,
        )) implies l.contains_key(p) by {
        assert(body.basic_blocks.order@.contains(b));
        let k = choose|k: int|
            0 <= k < body.basic_blocks.order@.len() && body.basic_blocks.order@[k] == b;
        assert(body.basic_blocks.blocks()[body.basic_blocks.order@[k] as int].pred@.contains(p));
    }
}

proof fn lemma_fit_grown(body: &MachineFunctionBody, l1: LivenessMap, l2: LivenessMap, reg: RegisterId)
    requires
        records_fit(body, l1),
        grown_by(l1, l2, reg),
    ensures
        records_fit(body, l2),
{
    reveal(grown_by);
    assert forall|b: usize| #[trigger] l2.contains_key(b) <==> body.basic_blocks.order@.contains(
        b,
    ) by {
        assert(l2.contains_key(b) == l1.contains_key(b));
    }
    assert forall|b: usize| l2.contains_key(b) implies (#[trigger] l2[b]).def@ == written_in(
        body,
        b,
    ) by {
        assert(l1.contains_key(b));
        assert(grown_at(l1, l2, reg, b));
    }
}

/// The register `c` is in the sets of the block `b` for a reason: in the
/// live-in set only where it is live at the entry, in the live-out set only
/// where it is live at the exit.
pub open spec fn reasoned_at(body: &MachineFunctionBody, l: LivenessMap, c: usize, b: usize) -> bool {
    &&& l[b].live_in@.contains(c) ==> live_at_entry(body, b, c)
    &&& l[b].live_out@.contains(c) ==> live_at_exit(body, b, c)
}

/// The register `c` is in no set without a reason.
#[verifier::opaque]
pub open spec fn reasoned(body: &MachineFunctionBody, l: LivenessMap, c: usize) -> bool {
    forall|b: usize| l.contains_key(b) ==> #[trigger] reasoned_at(body, l, c, b)
}

/// No register is in a set without a reason.
#[verifier::opaque]
pub open spec fn all_reasoned(body: &MachineFunctionBody, l: LivenessMap) -> bool {
    forall|c: usize| #[trigger] reasoned(body, l, c)
}

/// A register that is live at the exit of a block that does not write it
/// is live at its entry.
proof fn lemma_live_through(body: &MachineFunctionBody, b: usize, c: usize)
    requires
        body.basic_blocks.order@.contains(b),
        live_at_exit(body, b, c),
        !written_in(body, b).contains(c),
    ensures
        live_at_entry(body, b, c),
{
    let s = choose|s: usize| #[trigger] follows(body, b, s) && live_at_entry(body, s, c);
    let steps = choose|steps: nat| #[trigger] reaches_read(body, s, c, steps);
    assert(follows(body, b, s));
    assert(reaches_read(body, b, c, steps + 1));
}

/// One gain that has a reason keeps every set reasoned.
proof fn lemma_reasoned_moved(
    body: &MachineFunctionBody,
    l1: LivenessMap,
    l2: LivenessMap,
    c: usize,
    k: Option<usize>,
    at_entry: bool,
)
    requires
        reasoned(body, l1, c),
        moved(l1, l2, k, c, at_entry),
        k is Some && at_entry ==> live_at_entry(body, k->0, c),
        k is Some && !at_entry ==> live_at_exit(body, k->0, c),
    ensures
        reasoned(body, l2, c),
{
    reveal(reasoned);
    assert forall|b: usize| l2.contains_key(b) implies #[trigger] reasoned_at(body, l2, c, b) by {
        assert(l1.contains_key(b));
        assert(reasoned_at(body, l1, c, b));
        assert(moved_at(l1, l2, k, c, at_entry, b));
    }
}

/// Adding a register other than `c` keeps `c` reasoned.
proof fn lemma_reasoned_grown_other(
    body: &MachineFunctionBody,
    l1: LivenessMap,
    l2: LivenessMap,
    reg: RegisterId,
    c: usize,
)
    requires
        reasoned(body, l1, c),
        grown_by(l1, l2, reg),
        reg.wf(),
        c != reg.code(),
    ensures
        reasoned(body, l2, c),
{
    reveal(reasoned);
    reveal(grown_by);
    assert forall|b: usize| l2.contains_key(b) implies #[trigger] reasoned_at(body, l2, c, b) by {
        assert(l1.contains_key(b));
        assert(reasoned_at(body, l1, c, b));
        assert(grown_at(l1, l2, reg, b));
        lemma_added_has(l1[b].live_in@, reg, c);
        lemma_added_has(l1[b].live_out@, reg, c);
    }
}

proof fn lemma_all_reasoned_grown(
    body: &MachineFunctionBody,
    l1: LivenessMap,
    l2: LivenessMap,
    reg: RegisterId,
)
    requires
        reg.wf(),
        all_reasoned(body, l1),
        grown_by(l1, l2, reg),
        reasoned(body, l2, reg.code() as usize),
    ensures
        all_reasoned(body, l2),
{
    reveal(all_reasoned);
    assert forall|c: usize| #[trigger] reasoned(body, l2, c) by {
        assert(reasoned(body, l1, c));
        if c != reg.code() {
            lemma_reasoned_grown_other(body, l1, l2, reg, c);
        }
    }
}

/// The set `s` holds the register `p` or a wider alias of it.
pub open spec fn holds(s: Set<usize>, p: PhysReg) -> bool {
    s.contains(p.0) || has_super(s, p)
}

/// A set that holds a register holds it after any register was added, and
/// a register that is not callee-saved is held once it was added.
pub proof fn lemma_holds_added(s: Set<usize>, reg: RegisterId, p: PhysReg)
    ensures
        holds(s, p) ==> holds(added(s, reg), p),
        reg.kind == VirtOrPhys::Phys(p) && !p.callee_saved() ==> holds(added(s, reg), p),
{
    let t = added(s, reg);
    match reg.kind {
        VirtOrPhys::Virt(_) => {
            if has_super(s, p) {
                let c = choose|c: usize| s.contains(c) && p.is_sub_of(PhysReg(c));
                assert(t.contains(c));
            }
        },
        VirtOrPhys::Phys(q) => {
            if q.callee_saved() || s.contains(q.0) {
            } else {
                if has_super(s, q) {
                    let d = choose|d: usize| s.contains(d) && q.is_sub_of(PhysReg(d));
                    assert(t.contains(d));
                    assert(has_super(t, q));
                } else {
                    assert(t.contains(q.0));
                }
                assert(holds(t, q));
                if holds(s, p) {
                    let w = if s.contains(p.0) {
                        p.0
                    } else {
                        choose|c: usize| s.contains(c) && p.is_sub_of(PhysReg(c))
                    };
                    assert(s.contains(w) && (w == p.0 || p.is_sub_of(PhysReg(w))));
                    if PhysReg(w).is_sub_of(q) {
                        if t.contains(q.0) {
                            assert(p.is_sub_of(PhysReg(q.0)));
                        } else {
                            let d = choose|d: usize| t.contains(d) && q.is_sub_of(PhysReg(d));
                            assert(p.is_sub_of(PhysReg(d)));
                        }
                    } else {
                        assert(t.contains(w));
                    }
                }
            }
        },
    }
}

/// Where the records grow, a set that has a register has it afterwards.
proof fn lemma_has_grown(l1: LivenessMap, l2: LivenessMap, reg: RegisterId, b: usize, c: usize)
    requires
        reg.wf(),
        grown_by(l1, l2, reg),
        l1.contains_key(b),
    ensures
        has(l1[b].live_in@, c) ==> has(l2[b].live_in@, c),
        has(l1[b].live_out@, c) ==> has(l2[b].live_out@, c),
{
    reveal(grown_by);
    assert(grown_at(l1, l2, reg, b));
    lemma_added_has(l1[b].live_in@, reg, c);
    lemma_added_has(l1[b].live_out@, reg, c);
}

/// Marks `reg` live at the entry of the block `bb_id` and from there
/// backwards: live at the exit of each predecessor, and at its entry in turn
/// unless the predecessor writes it. At the block of a read (`at_read`) the
/// register is marked whatever the block writes; the caller has seen that
/// nothing writes it before the read. The walk stops where the register is
/// live already.
fn propagate(
    body: &MachineFunctionBody,
    bb_id: MachineBasicBlockId,
    reg: RegisterId,
    liveness: &mut FxHashMap<MachineBasicBlockId, LivenessInfo>,
    at_read: bool,
    Ghost(pending): Ghost<Set<usize>>,
)
    requires
        body.wf(),
        preds_ordered(body),
        reg.wf(),
        records_fit(body, old(liveness)@),
        old(liveness)@.contains_key(bb_id),
        kept_in_sets(reg.code() as usize) ==> closed_but(
            body,
            old(liveness)@,
            reg.code() as usize,
            pending,
            Some(bb_id),
        ),
        reasoned(body, old(liveness)@, reg.code() as usize),
        if at_read {
            read_first(body, bb_id, reg.code() as usize)
        } else {
            old(liveness)@[bb_id].live_out@.contains(reg.code() as usize)
        },
    ensures
        grown_by(old(liveness)@, final(liveness)@, reg),
        kept_in_sets(reg.code() as usize) ==> closed_but(
            body,
            final(liveness)@,
            reg.code() as usize,
            pending,
            None,
        ),
        reasoned(body, final(liveness)@, reg.code() as usize),
        reg.kind is Virt && at_read ==> final(liveness)@[bb_id].live_in@.contains(reg.code() as usize),
        at_read ==> (reg.kind matches VirtOrPhys::Phys(p) ==> p.callee_saved() || holds(
            final(liveness)@[bb_id].live_in@,
            p,
        )),
    decreases lacking(old(liveness)@, reg.code() as usize, body.basic_blocks.blocks().len()),
{
    let code = reg.to_code();
    let ghost n = body.basic_blocks.blocks().len();
    let ghost l0 = liveness@;
    proof {
        lemma_fit_preds(body, l0);
        lemma_closed_settles(body, l0, code, pending, bb_id);
        assert(grown_by(l0, l0, reg)) by {
            reveal(grown_by);
        }
    }
    let defined = !at_read && set_contains(&map_get(liveness, bb_id).unwrap().def, code);
    if defined {
        return ;
    }
    let info = map_get_mut(liveness, bb_id);
    let newly = info.add_live_in(reg);
    let ghost l1 = liveness@;
    proof {
        lemma_added_keeps(l0[bb_id].live_in@, reg, code);
        lemma_added_has(l0[bb_id].live_in@, reg, code);
        assert(l1.dom() =~= l0.dom());
        assert(grown_by(l0, l1, reg)) by {
            reveal(grown_by);
        }
        lemma_fit_grown(body, l0, l1, reg);
        lemma_fit_preds(body, l1);
        let k = if newly {
            Some(bb_id)
        } else {
            None
        };
        if kept_in_sets(code) {
            assert(moved(l0, l1, k, code, true));
            lemma_closed_moved(body, l0, l1, code, pending, Some(bb_id), k, true);
            if !newly {
                lemma_closed_settles(body, l1, code, pending, bb_id);
            }
        }
        assert(body.basic_blocks.order@.contains(bb_id));
        if at_read {
            assert(reaches_read(body, bb_id, code, 0));
        } else {
            assert(reasoned_at(body, l0, code, bb_id)) by {
                reveal(reasoned);
            }
            lemma_live_through(body, bb_id, code);
        }
        if !kept_in_sets(code) {
            assert(moved(l0, l1, k, code, true));
        }
        lemma_reasoned_moved(body, l0, l1, code, k, true);
    }
    if !newly {
        return ;
    }
    proof {
        lemma_lacking_shrinks(l0, l1, code, n);
        assert(!l0[bb_id].live_in@.contains(code));
        assert(l1[bb_id].live_in@.contains(code));
        assert(bb_id < n);
        assert(kept_in_sets(code));
    }
    let preds = set_elements(&body.basic_blocks.block(bb_id).pred);
    let mut i: usize = 0;
    while i < preds.len()
        invariant
            body.wf(),
            preds_ordered(body),
            bb_id < n,
            n == body.basic_blocks.blocks().len(),
            reg.wf(),
            code == reg.code(),
            kept_in_sets(code),
            preds@.to_set() == body.basic_blocks.blocks()[bb_id as int].pred@,
            i <= preds@.len(),
            records_fit(body, liveness@),
            preds_recorded(body, liveness@),
            liveness@.contains_key(bb_id),
            l0 == old(liveness)@,
            grown_by(l0, liveness@, reg),
            lacking(liveness@, code, n) < lacking(l0, code, n),
            liveness@[bb_id].live_in@.contains(code),
            has(liveness@[bb_id].live_in@, code),
            closed_but(body, liveness@, code, pending.insert(bb_id), None),
            reasoned(body, liveness@, code),
            forall|j: int| 0 <= j < i ==> has(liveness@[#[trigger] preds@[j]].live_out@, code),
        decreases preds@.len() - i,
    {
        let p = preds[i];
        proof {
            assert(preds@.to_set().contains(p));
            assert(body.basic_blocks.blocks()[bb_id as int].pred@.contains(p));
            assert(liveness@.contains_key(p));
        }
        let ghost la = liveness@;
        let pinfo = map_get_mut(liveness, p);
        let fresh = pinfo.add_live_out(reg);
        let ghost lb = liveness@;
        proof {
            lemma_added_keeps(la[p].live_out@, reg, code);
            lemma_added_has(la[p].live_out@, reg, code);
            assert(lb.dom() =~= la.dom());
            assert(grown_by(la, lb, reg)) by {
                reveal(grown_by);
            }
            lemma_grown_trans(l0, la, lb, reg);
            lemma_grown_keeps(la, lb, reg, n);
            lemma_fit_grown(body, la, lb, reg);
            lemma_fit_preds(body, lb);
            lemma_has_grown(la, lb, reg, bb_id, code);
            let k = if fresh {
                Some(p)
            } else {
                None
            };
            assert(moved(la, lb, k, code, false));
            lemma_closed_moved(body, la, lb, code, pending.insert(bb_id), None, k, false);
            assert(live_at_exit(body, p, code)) by {
                assert(reasoned_at(body, la, code, bb_id)) by {
                    reveal(reasoned);
                }
                assert(body.basic_blocks.order@.contains(bb_id));
                assert(follows(body, p, bb_id));
            }
            lemma_reasoned_moved(body, la, lb, code, k, false);
            assert forall|j: int| 0 <= j < i + 1 implies has(
                lb[#[trigger] preds@[j]].live_out@,
                code,
            ) by {
                if j < i {
                    assert(preds@.to_set().contains(preds@[j]));
                    assert(la.contains_key(preds@[j]));
                    lemma_has_grown(la, lb, reg, preds@[j], code);
                }
            }
        }
        if fresh {
            propagate(body, p, reg, liveness, false, Ghost(pending.insert(bb_id)));
            proof {
                lemma_grown_trans(l0, lb, liveness@, reg);
                lemma_grown_keeps(lb, liveness@, reg, n);
                lemma_fit_grown(body, lb, liveness@, reg);
                lemma_fit_preds(body, liveness@);
                lemma_has_grown(lb, liveness@, reg, bb_id, code);
                assert forall|j: int| 0 <= j < i + 1 implies has(
                    liveness@[#[trigger] preds@[j]].live_out@,
                    code,
                ) by {
                    assert(preds@.to_set().contains(preds@[j]));
                    assert(lb.contains_key(preds@[j]));
                    lemma_has_grown(lb, liveness@, reg, preds@[j], code);
                }
            }
        }
        i += 1;
    }
    proof {
        assert(in_is_passed(body, liveness@, bb_id, code)) by {
            assert forall|p: usize|
                body.basic_blocks.blocks()[bb_id as int].pred@.contains(p) implies has(
                (#[trigger] liveness@[p]).live_out@,
                code,
            ) by {
                assert(preds@.to_set().contains(p));
                let j = choose|j: int| 0 <= j < preds@.len() && preds@[j] == p;
                assert(has(liveness@[preds@[j]].live_out@, code));
            }
        }
        lemma_closed_settles(body, liveness@, code, pending, bb_id);
    }
}

/// The use `j` of the instruction `i` of the block at place `k` of the
/// order is covered: the register that the operand reads is written by an
/// earlier instruction of the block, or it is live at the entry of the block.
/// A physical register counts as live where the live-in set holds it or a
/// wider alias; a callee-saved register is not tracked.
pub open spec fn use_covered(body: &MachineFunctionBody, l: LivenessMap, k: int, i: int, j: int) -> bool {
    let bb = body.basic_blocks.order@[k];
    let inst = body.inst_arena.insts()[body.basic_blocks.blocks()[bb as int].iseq@[i] as int];
    let reg = inst.operand_uses()[j];
    written_before(body, bb, i).contains(reg.code() as usize) || match reg.kind {
        VirtOrPhys::Virt(_) => l[bb].live_in@.contains(reg.code() as usize),
        VirtOrPhys::Phys(p) => p.callee_saved() || holds(l[bb].live_in@, p),
    }
}

/// The place `(k1, i1, j1)` comes before `(k, i, j)`.
pub open spec fn comes_before(k1: int, i1: int, j1: int, k: int, i: int, j: int) -> bool {
    k1 < k || (k1 == k && (i1 < i || (i1 == i && j1 < j)))
}

/// `(k, i, j)` is the place of a use: a block of the order, an instruction
/// of the block, an operand register of the instruction.
pub open spec fn is_use(body: &MachineFunctionBody, k: int, i: int, j: int) -> bool {
    &&& 0 <= k < body.basic_blocks.order@.len()
    &&& 0 <= i < body.basic_blocks.blocks()[body.basic_blocks.order@[k] as int].iseq@.len()
    &&& 0 <= j < body.inst_arena.insts()[body.basic_blocks.blocks()[body.basic_blocks.order@[k] as int].iseq@[i] as int].operand_uses().len()
}

/// Every use before the place `(k, i, j)` is covered.
#[verifier::opaque]
pub open spec fn covered_before(body: &MachineFunctionBody, l: LivenessMap, k: int, i: int, j: int) -> bool {
    forall|k1: int, i1: int, j1: int|
        is_use(body, k1, i1, j1) && comes_before(k1, i1, j1, k, i, j) ==> #[trigger] use_covered(
            body,
            l,
            k1,
            i1,
            j1,
        )
}

/// Every use of the function is covered.
pub open spec fn all_covered(body: &MachineFunctionBody, l: LivenessMap) -> bool {
    covered_before(body, l, body.basic_blocks.order@.len() as int, 0, 0)
}

/// The records are closed for every register that the sets keep.
#[verifier::opaque]
pub open spec fn all_closed(body: &MachineFunctionBody, l: LivenessMap) -> bool {
    forall|c: usize| kept_in_sets(c) ==> #[trigger] closed(body, l, c)
}

/// The records hold what the definitions of each block give.
pub open spec fn defs_recorded(body: &MachineFunctionBody, l: LivenessMap) -> bool {
    forall|k: int|
        0 <= k < body.basic_blocks.order@.len() ==> l.contains_key(
            #[trigger] body.basic_blocks.order@[k],
        ) && l[body.basic_blocks.order@[k]].def@ == defs_of(
            body,
            body.basic_blocks.blocks()[body.basic_blocks.order@[k] as int].iseq@,
            body.basic_blocks.blocks()[body.basic_blocks.order@[k] as int].iseq@.len() as int,
        ) && l[body.basic_blocks.order@[k]].has_call == calls_in(
            body,
            body.basic_blocks.blocks()[body.basic_blocks.order@[k] as int].iseq@,
            body.basic_blocks.blocks()[body.basic_blocks.order@[k] as int].iseq@.len() as int,
        )
}

/// The live sets of the virtual register `c` at the block `b` are exact:
/// the register is in the live-in set where it is live at the entry, in the
/// live-out set where it is live at the exit, and nowhere else.
pub open spec fn exact_at(body: &MachineFunctionBody, l: LivenessMap, c: usize, b: usize) -> bool {
    &&& l[b].live_in@.contains(c) == live_at_entry(body, b, c)
    &&& l[b].live_out@.contains(c) == live_at_exit(body, b, c)
}

/// The live sets are exact for every virtual register at every block of the
/// order: they are the least sets that cover the reads.
pub open spec fn live_sets_exact(body: &MachineFunctionBody, l: LivenessMap) -> bool {
    forall|c: usize, b: usize|
        c >= PHYS_REGS_NUM && body.basic_blocks.order@.contains(b) ==> #[trigger] exact_at(
            body,
            l,
            c,
            b,
        )
}

proof fn lemma_covered_grown(
    body: &MachineFunctionBody,
    l1: LivenessMap,
    l2: LivenessMap,
    reg: RegisterId,
    k: int,
    i: int,
    j: int,
)
    requires
        body.wf(),
        reg.wf(),
        records_fit(body, l1),
        covered_before(body, l1, k, i, j),
        grown_by(l1, l2, reg),
    ensures
        covered_before(body, l2, k, i, j),
{
    reveal(covered_before);
    reveal(grown_by);
    assert forall|k1: int, i1: int, j1: int|
        is_use(body, k1, i1, j1) && comes_before(k1, i1, j1, k, i, j) implies #[trigger] use_covered(
        body,
        l2,
        k1,
        i1,
        j1,
    ) by {
        assert(use_covered(body, l1, k1, i1, j1));
        let bb = body.basic_blocks.order@[k1];
        assert(body.basic_blocks.order@.contains(bb));
        assert(l1.contains_key(bb));
        let iid = body.basic_blocks.blocks()[bb as int].iseq@[i1];
        let inst = body.inst_arena.insts()[iid as int];
        let r = inst.operand_uses()[j1];
        assert(grown_at(l1, l2, reg, bb));
        match r.kind {
            VirtOrPhys::Virt(_) => {
                let c = r.code() as usize;
                lemma_added_keeps(l1[bb].live_in@, reg, c);
                if c == reg.code() {
                } else {
                    assert(bb < body.basic_blocks.blocks().len());
                    assert(iid < body.inst_arena.insts().len());
                    assert(inst.wf());
                    assert(inst.used()[j1] == r);
                    assert(r.wf());
                }
            },
            VirtOrPhys::Phys(p) => {
                lemma_holds_added(l1[bb].live_in@, reg, p);
            },
        }
    }
}

proof fn lemma_all_closed_grown(
    body: &MachineFunctionBody,
    l1: LivenessMap,
    l2: LivenessMap,
    reg: RegisterId,
)
    requires
        preds_recorded(body, l1),
        reg.wf(),
        all_closed(body, l1),
        grown_by(l1, l2, reg),
        kept_in_sets(reg.code() as usize) ==> closed(body, l2, reg.code() as usize),
    ensures
        all_closed(body, l2),
{
    reveal(all_closed);
    assert forall|c: usize| kept_in_sets(c) implies #[trigger] closed(body, l2, c) by {
        assert(closed(body, l1, c));
        if c != reg.code() {
            lemma_closed_grown_other(body, l1, l2, reg, c);
        }
    }
}

/// The records of `l2` say of calls what those of `l1` say.
pub open spec fn same_calls(l1: LivenessMap, l2: LivenessMap) -> bool {
    forall|b: usize| l1.contains_key(b) ==> (#[trigger] l2[b]).has_call == l1[b].has_call
}

proof fn lemma_same_calls_grown(l1: LivenessMap, l2: LivenessMap, l3: LivenessMap, reg: RegisterId)
    requires
        same_calls(l1, l2),
        l2.dom() == l1.dom(),
        grown_by(l2, l3, reg),
    ensures
        same_calls(l1, l3),
        l3.dom() == l1.dom(),
{
    reveal(grown_by);
    assert forall|b: usize| l1.contains_key(b) implies (#[trigger] l3[b]).has_call
        == l1[b].has_call by {
        assert(l2.contains_key(b));
        assert(grown_at(l2, l3, reg, b));
        assert(l2[b].has_call == l1[b].has_call);
    }
}

proof fn lemma_closed_weaken(body: &MachineFunctionBody, l: LivenessMap, c: usize, bb: usize)
    requires
        closed(body, l, c),
    ensures
        closed_but(body, l, c, Set::empty(), Some(bb)),
{
    reveal(closed_but);
    assert forall|b: usize| l.contains_key(b) implies #[trigger] closed_at(
        body,
        l,
        c,
        Set::empty(),
        Some(bb),
        b,
    ) by {
        assert(closed_at(body, l, c, Set::empty(), None, b));
    }
}

proof fn lemma_covered_step(body: &MachineFunctionBody, l: LivenessMap, k: int, i: int, j: int)
    requires
        covered_before(body, l, k, i, j),
        use_covered(body, l, k, i, j),
    ensures
        covered_before(body, l, k, i, j + 1),
{
    reveal(covered_before);
}

proof fn lemma_covered_next_inst(body: &MachineFunctionBody, l: LivenessMap, k: int, i: int, j: int)
    requires
        covered_before(body, l, k, i, j),
        0 <= k < body.basic_blocks.order@.len(),
        0 <= i < body.basic_blocks.blocks()[body.basic_blocks.order@[k] as int].iseq@.len(),
        j == body.inst_arena.insts()[body.basic_blocks.blocks()[body.basic_blocks.order@[k] as int].iseq@[i] as int].operand_uses().len(),
    ensures
        covered_before(body, l, k, i + 1, 0),
{
    reveal(covered_before);
}

proof fn lemma_covered_next_block(body: &MachineFunctionBody, l: LivenessMap, k: int)
    requires
        0 <= k < body.basic_blocks.order@.len(),
        covered_before(
            body,
            l,
            k,
            body.basic_blocks.blocks()[body.basic_blocks.order@[k] as int].iseq@.len() as int,
            0,
        ),
    ensures
        covered_before(body, l, k + 1, 0, 0),
{
    reveal(covered_before);
}

/// In closed records that cover every use, a register that is live at the
/// entry of a block is in the live-in set of the block.
proof fn lemma_reaches_live(body: &MachineFunctionBody, l: LivenessMap, b: usize, c: usize, steps: nat)
    requires
        body.wf(),
        records_fit(body, l),
        closed(body, l, c),
        all_covered(body, l),
        c >= PHYS_REGS_NUM,
        reaches_read(body, b, c, steps),
    ensures
        l[b].live_in@.contains(c),
    decreases steps,
{
    assert(l.contains_key(b));
    if read_first(body, b, c) {
        let (i, j) = choose|i: int, j: int| #[trigger] reads_first(body, b, i, j, c);
        let k = choose|k: int|
            0 <= k < body.basic_blocks.order@.len() && body.basic_blocks.order@[k] == b;
        assert(is_use(body, k, i, j));
        assert(use_covered(body, l, k, i, j)) by {
            reveal(covered_before);
        }
        let inst = body.inst_arena.insts()[body.basic_blocks.blocks()[b as int].iseq@[i] as int];
        let r = inst.operand_uses()[j];
        assert(b < body.basic_blocks.blocks().len());
        assert(body.basic_blocks.blocks()[b as int].iseq@[i] < body.inst_arena.insts().len());
        assert(inst.wf());
        assert(inst.used()[j] == r);
        assert(r.wf());
    } else {
        let s = choose|s: usize| #[trigger]
            follows(body, b, s) && reaches_read(body, s, c, (steps - 1) as nat);
        lemma_reaches_live(body, l, s, c, (steps - 1) as nat);
        reveal(closed_but);
        assert(l.contains_key(s));
        assert(closed_at(body, l, c, Set::empty(), None, s));
        assert(l[b].live_out@.contains(c));
        assert(closed_at(body, l, c, Set::empty(), None, b));
    }
}

/// Closed and reasoned records that cover every use hold the exact live
/// sets.
proof fn lemma_exact(body: &MachineFunctionBody, l: LivenessMap)
    requires
        body.wf(),
        records_fit(body, l),
        all_closed(body, l),
        all_reasoned(body, l),
        all_covered(body, l),
    ensures
        live_sets_exact(body, l),
{
    assert forall|c: usize, b: usize|
        c >= PHYS_REGS_NUM && body.basic_blocks.order@.contains(b) implies #[trigger] exact_at(
        body,
        l,
        c,
        b,
    ) by {
        assert(closed(body, l, c)) by {
            reveal(all_closed);
        }
        assert(reasoned(body, l, c)) by {
            reveal(all_reasoned);
        }
        assert(l.contains_key(b));
        assert(reasoned_at(body, l, c, b)) by {
            reveal(reasoned);
        }
        if live_at_entry(body, b, c) {
            let steps = choose|steps: nat| #[trigger] reaches_read(body, b, c, steps);
            lemma_reaches_live(body, l, b, c, steps);
        }
        if live_at_exit(body, b, c) {
            let s = choose|s: usize| #[trigger] follows(body, b, s) && live_at_entry(body, s, c);
            let steps = choose|steps: nat| #[trigger] reaches_read(body, s, c, steps);
            lemma_reaches_live(body, l, s, c, steps);
            reveal(closed_but);
            assert(l.contains_key(s));
            assert(closed_at(body, l, c, Set::empty(), None, s));
        }
    }
}

/// A virtual register that an operand of a block reads before any
/// instruction of the block writes it is in the live-in set of the block and
/// in the live-out set of each of its predecessors, whatever the block writes
/// afterwards.
pub proof fn lemma_read_before_write_is_live(
    body: &MachineFunctionBody,
    l: LivenessMap,
    a: usize,
    b: usize,
    i: int,
    j: int,
    c: usize,
)
    requires
        live_sets_exact(body, l),
        c >= PHYS_REGS_NUM,
        body.basic_blocks.order@.contains(a),
        body.basic_blocks.order@.contains(b),
        body.basic_blocks.blocks()[b as int].pred@.contains(a),
        reads_first(body, b, i, j, c),
    ensures
        l[b].live_in@.contains(c),
        l[a].live_out@.contains(c),
{
    assert(reaches_read(body, b, c, 0));
    assert(follows(body, a, b));
    assert(exact_at(body, l, c, b));
    assert(exact_at(body, l, c, a));
}

/// A virtual register that a block writes, and that no operand of the block
/// reads before, is not in the live-in set of the block.
pub proof fn lemma_written_first_is_not_live(
    body: &MachineFunctionBody,
    l: LivenessMap,
    b: usize,
    c: usize,
)
    requires
        live_sets_exact(body, l),
        c >= PHYS_REGS_NUM,
        body.basic_blocks.order@.contains(b),
        written_in(body, b).contains(c),
        !read_first(body, b, c),
    ensures
        !l[b].live_in@.contains(c),
{
    assert(exact_at(body, l, c, b));
    if live_at_entry(body, b, c) {
        let steps = choose|steps: nat| #[trigger] reaches_read(body, b, c, steps);
        assert(false);
    }
}

/// A register that no operand of a block of the order reads before it is
/// written is in no set.
pub proof fn lemma_unread_is_not_live(body: &MachineFunctionBody, l: LivenessMap, b: usize, c: usize)
    requires
        all_reasoned(body, l),
        l.contains_key(b),
        forall|x: usize| body.basic_blocks.order@.contains(x) ==> !#[trigger] read_first(body, x, c),
    ensures
        !l[b].live_in@.contains(c),
        !l[b].live_out@.contains(c),
{
    assert(reasoned_at(body, l, c, b)) by {
        reveal(all_reasoned);
        reveal(reasoned);
        assert(reasoned(body, l, c));
    }
    if live_at_entry(body, b, c) {
        let steps = choose|steps: nat| #[trigger] reaches_read(body, b, c, steps);
        lemma_no_read_no_reach(body, b, c, steps);
    }
    if live_at_exit(body, b, c) {
        let s = choose|s: usize| #[trigger] follows(body, b, s) && live_at_entry(body, s, c);
        let steps = choose|steps: nat| #[trigger] reaches_read(body, s, c, steps);
        lemma_no_read_no_reach(body, s, c, steps);
    }
}

proof fn lemma_no_read_no_reach(body: &MachineFunctionBody, b: usize, c: usize, steps: nat)
    requires
        forall|x: usize| body.basic_blocks.order@.contains(x) ==> !#[trigger] read_first(body, x, c),
    ensures
        !reaches_read(body, b, c, steps),
    decreases steps,
{
    if reaches_read(body, b, c, steps) {
        assert(!read_first(body, b, c));
        let s = choose|s: usize| #[trigger]
            follows(body, b, s) && reaches_read(body, s, c, (steps - 1) as nat);
        lemma_no_read_no_reach(body, s, c, (steps - 1) as nat);
    }
}

/// The analysis of register liveness.
pub struct LivenessAnalysis {}

impl LivenessAnalysis {
    pub fn new() -> Self {
        Self {  }
    }

    /// Records what the instruction `inst` defines, and whether it calls.
    fn set_def_on_inst(&mut self, liveness: &mut LivenessInfo, inst: &MachineInst)
        requires
            inst.wf(),
        ensures
            final(liveness).def@ == added_regs(
                old(liveness).def@,
                inst.defined(),
                inst.defined().len() as int,
            ),
            final(liveness).has_call == (old(liveness).has_call || inst.opcode
                == MachineOpcode::CALL),
            final(liveness).live_in@ == old(liveness).live_in@,
            final(liveness).live_out@ == old(liveness).live_out@,
            final(liveness).phys_def@ == old(liveness).phys_def@,
    {
        liveness.has_call = liveness.has_call || inst.opcode == MachineOpcode::CALL;
        let regs = inst.collect_defined_regs();
        let mut i: usize = 0;
        while i < regs.len()
            invariant
                inst.wf(),
                regs@ == inst.defined(),
                i <= regs@.len(),
                liveness.def@ == added_regs(old(liveness).def@, regs@, i as int),
                liveness.has_call == (old(liveness).has_call || inst.opcode
                    == MachineOpcode::CALL),
                liveness.live_in@ == old(liveness).live_in@,
                liveness.live_out@ == old(liveness).live_out@,
                liveness.phys_def@ == old(liveness).phys_def@,
            decreases regs@.len() - i,
        {
            proof {
                assert(inst.defined()[i as int].wf());
            }
            liveness.add_def(regs[i]);
            i += 1;
        }
    }

    /// Gives every block of the order its record: the registers that its
    /// instructions define, in program order, and whether one of them calls.
    fn set_def(
        &mut self,
        cur_func: &MachineFunction,
        liveness: &mut FxHashMap<MachineBasicBlockId, LivenessInfo>,
    )
        requires
            cur_func.body.wf(),
            old(liveness)@.dom() == Set::<usize>::empty(),
        ensures
            forall|b: usize| #[trigger]
                final(liveness)@.contains_key(b) <==> cur_func.body.basic_blocks.order@.contains(b),
            forall|b: usize|
                final(liveness)@.contains_key(b) ==> is_def_record(
                    &cur_func.body,
                    b,
                    #[trigger] final(liveness)@[b],
                ),
    {
        let body = &cur_func.body;
        let mut k: usize = 0;
        while k < body.basic_blocks.order.len()
            invariant
                body.wf(),
                k <= body.basic_blocks.order@.len(),
                forall|b: usize| #[trigger]
                    liveness@.contains_key(b) <==> body.basic_blocks.order@.take(k as int).contains(
                        b,
                    ),
                forall|b: usize|
                    liveness@.contains_key(b) ==> is_def_record(body, b, #[trigger] liveness@[b]),
            decreases body.basic_blocks.order@.len() - k,
        {
            let id = body.basic_blocks.order[k];
            let mut l = LivenessInfo::new();
            let block = body.basic_blocks.block(id);
            let mut i: usize = 0;
            while i < block.iseq.len()
                invariant
                    body.wf(),
                    id < body.basic_blocks.blocks().len(),
                    *block == body.basic_blocks.blocks()[id as int],
                    i <= block.iseq@.len(),
                    l.def@ == defs_of(body, block.iseq@, i as int),
                    l.has_call == calls_in(body, block.iseq@, i as int),
                    l.live_in@ == Set::<usize>::empty(),
                    l.live_out@ == Set::<usize>::empty(),
                    l.phys_def@ == Set::<usize>::empty(),
                decreases block.iseq@.len() - i,
            {
                proof {
                    assert(body.basic_blocks.blocks()[id as int].iseq@[i as int]
                        < body.inst_arena.insts().len());
                }
                let inst = body.inst_arena.inst(block.iseq[i]);
                self.set_def_on_inst(&mut l, inst);
                i += 1;
            }
            let ghost before = liveness@;
            map_insert(liveness, id, l);
            proof {
                let t0 = body.basic_blocks.order@.take(k as int);
                let t1 = body.basic_blocks.order@.take(k + 1);
                assert(t1 =~= t0.push(id));
                assert forall|b: usize| #[trigger] liveness@.contains_key(b) <==> t1.contains(b) by {
                    if b == id {
                        assert(t1[k as int] == id);
                    } else {
                        assert(liveness@.contains_key(b) == before.contains_key(b));
                        if t0.contains(b) {
                            let q = choose|q: int| 0 <= q < t0.len() && t0[q] == b;
                            assert(t1[q] == b);
                        }
                        if t1.contains(b) {
                            let q = choose|q: int| 0 <= q < t1.len() && t1[q] == b;
                            assert(t0[q] == b);
                        }
                    }
                }
            }
            k += 1;
        }
        proof {
            assert(body.basic_blocks.order@.take(k as int) =~= body.basic_blocks.order@);
        }
    }

    /// Marks the registers that the operands of `inst` read live at the
    /// entry of the block `bb`, and backwards from there, but for those that
    /// an earlier instruction of the block writes: `seen` holds them.
    fn visit_inst(
        &mut self,
        cur_func: &MachineFunction,
        bb: MachineBasicBlockId,
        inst: &MachineInst,
        seen: &LivenessInfo,
        liveness: &mut FxHashMap<MachineBasicBlockId, LivenessInfo>,
        Ghost(k): Ghost<int>,
        Ghost(i): Ghost<int>,
    )
        requires
            cur_func.body.wf(),
            preds_ordered(&cur_func.body),
            0 <= k < cur_func.body.basic_blocks.order@.len(),
            bb == cur_func.body.basic_blocks.order@[k],
            0 <= i < cur_func.body.basic_blocks.blocks()[bb as int].iseq@.len(),
            *inst == cur_func.body.inst_arena.insts()[cur_func.body.basic_blocks.blocks()[bb as int].iseq@[i] as int],
            seen.def@ == written_before(&cur_func.body, bb, i),
            records_fit(&cur_func.body, old(liveness)@),
            all_closed(&cur_func.body, old(liveness)@),
            all_reasoned(&cur_func.body, old(liveness)@),
            covered_before(&cur_func.body, old(liveness)@, k, i, 0),
        ensures
            records_fit(&cur_func.body, final(liveness)@),
            all_closed(&cur_func.body, final(liveness)@),
            all_reasoned(&cur_func.body, final(liveness)@),
            covered_before(&cur_func.body, final(liveness)@, k, i + 1, 0),
            same_calls(old(liveness)@, final(liveness)@),
            final(liveness)@.dom() == old(liveness)@.dom(),
    {
        let body = &cur_func.body;
        let ghost n = body.basic_blocks.blocks().len();
        let regs = inst.collect_operand_regs();
        let mut j: usize = 0;
        while j < regs.len()
            invariant
                body.wf(),
                preds_ordered(body),
                n == body.basic_blocks.blocks().len(),
                0 <= k < body.basic_blocks.order@.len(),
                bb == body.basic_blocks.order@[k],
                bb < n,
                0 <= i < body.basic_blocks.blocks()[bb as int].iseq@.len(),
                *inst == body.inst_arena.insts()[body.basic_blocks.blocks()[bb as int].iseq@[i] as int],
                inst.wf(),
                regs@ == inst.operand_uses(),
                seen.def@ == written_before(body, bb, i),
                j <= regs@.len(),
                records_fit(body, liveness@),
                all_closed(body, liveness@),
                all_reasoned(body, liveness@),
                covered_before(body, liveness@, k, i, j as int),
                same_calls(old(liveness)@, liveness@),
                liveness@.dom() == old(liveness)@.dom(),
            decreases regs@.len() - j,
        {
            let reg = regs[j];
            let ghost la = liveness@;
            proof {
                assert(inst.used()[j as int] == reg);
                assert(reg.wf());
                assert(body.basic_blocks.order@.contains(bb));
                lemma_fit_preds(body, la);
            }
            if !set_contains(&seen.def, reg.to_code()) {
                proof {
                    if kept_in_sets(reg.code() as usize) {
                        assert(closed(body, la, reg.code() as usize)) by {
                            reveal(all_closed);
                        }
                        lemma_closed_weaken(body, la, reg.code() as usize, bb);
                    }
                    assert(reasoned(body, la, reg.code() as usize)) by {
                        reveal(all_reasoned);
                    }
                    assert(reads_first(body, bb, i, j as int, reg.code() as usize));
                }
                propagate(body, bb, reg, liveness, true, Ghost(Set::empty()));
                proof {
                    lemma_all_closed_grown(body, la, liveness@, reg);
                    lemma_all_reasoned_grown(body, la, liveness@, reg);
                    lemma_covered_grown(body, la, liveness@, reg, k, i, j as int);
                    lemma_fit_grown(body, la, liveness@, reg);
                    lemma_same_calls_grown(old(liveness)@, la, liveness@, reg);
                }
            }
            proof {
                assert(use_covered(body, liveness@, k, i, j as int));
                lemma_covered_step(body, liveness@, k, i, j as int);
            }
            j += 1;
        }
        proof {
            lemma_covered_next_inst(body, liveness@, k, i, regs@.len() as int);
        }
    }

    /// Marks every register that an operand reads live where no earlier
    /// instruction of its block writes it.
    fn visit(
        &mut self,
        cur_func: &MachineFunction,
        liveness: &mut FxHashMap<MachineBasicBlockId, LivenessInfo>,
    )
        requires
            cur_func.body.wf(),
            preds_ordered(&cur_func.body),
            records_fit(&cur_func.body, old(liveness)@),
            all_closed(&cur_func.body, old(liveness)@),
            all_reasoned(&cur_func.body, old(liveness)@),
        ensures
            records_fit(&cur_func.body, final(liveness)@),
            all_closed(&cur_func.body, final(liveness)@),
            all_reasoned(&cur_func.body, final(liveness)@),
            all_covered(&cur_func.body, final(liveness)@),
            same_calls(old(liveness)@, final(liveness)@),
            final(liveness)@.dom() == old(liveness)@.dom(),
    {
        let body = &cur_func.body;
        let ghost n = body.basic_blocks.blocks().len();
        let mut k: usize = 0;
        proof {
            assert(covered_before(body, liveness@, 0, 0, 0)) by {
                reveal(covered_before);
            }
        }
        while k < body.basic_blocks.order.len()
            invariant
                body == &cur_func.body,
                body.wf(),
                preds_ordered(body),
                n == body.basic_blocks.blocks().len(),
                k <= body.basic_blocks.order@.len(),
                records_fit(body, liveness@),
                all_closed(body, liveness@),
                all_reasoned(body, liveness@),
                covered_before(body, liveness@, k as int, 0, 0),
                same_calls(old(liveness)@, liveness@),
                liveness@.dom() == old(liveness)@.dom(),
            decreases body.basic_blocks.order@.len() - k,
        {
            let bb = body.basic_blocks.order[k];
            let block = body.basic_blocks.block(bb);
            let mut seen = LivenessInfo::new();
            let mut i: usize = 0;
            while i < block.iseq.len()
                invariant
                    body == &cur_func.body,
                    body.wf(),
                    preds_ordered(body),
                    n == body.basic_blocks.blocks().len(),
                    k < body.basic_blocks.order@.len(),
                    bb == body.basic_blocks.order@[k as int],
                    bb < n,
                    *block == body.basic_blocks.blocks()[bb as int],
                    i <= block.iseq@.len(),
                    seen.def@ == written_before(body, bb, i as int),
                    records_fit(body, liveness@),
                    all_closed(body, liveness@),
                    all_reasoned(body, liveness@),
                    covered_before(body, liveness@, k as int, i as int, 0),
                    same_calls(old(liveness)@, liveness@),
                    liveness@.dom() == old(liveness)@.dom(),
                decreases block.iseq@.len() - i,
            {
                proof {
                    assert(body.basic_blocks.blocks()[bb as int].iseq@[i as int]
                        < body.inst_arena.insts().len());
                }
                let inst = body.inst_arena.inst(block.iseq[i]);
                let ghost la = liveness@;
                self.visit_inst(
                    cur_func,
                    bb,
                    inst,
                    &seen,
                    liveness,
                    Ghost(k as int),
                    Ghost(i as int),
                );
                self.set_def_on_inst(&mut seen, inst);
                proof {
                    assert forall|b: usize| old(liveness)@.contains_key(b) implies (
                    #[trigger] liveness@[b]).has_call == old(liveness)@[b].has_call by {
                        assert(la.contains_key(b));
                        assert(la[b].has_call == old(liveness)@[b].has_call);
                    }
                }
                i += 1;
            }
            proof {
                lemma_covered_next_block(body, liveness@, k as int);
            }
            k += 1;
        }
    }
}

/// Records without live registers are closed and reasoned.
proof fn lemma_closed_at_start(body: &MachineFunctionBody, l: LivenessMap)
    requires
        forall|b: usize|
            l.contains_key(b) ==> (#[trigger] l[b]).live_in@ == Set::<usize>::empty()
                && l[b].live_out@ == Set::<usize>::empty(),
    ensures
        all_closed(body, l),
        all_reasoned(body, l),
{
    reveal(all_closed);
    reveal(closed_but);
    reveal(all_reasoned);
    reveal(reasoned);
    assert forall|c: usize| #[trigger] reasoned(body, l, c) by {
        assert forall|b: usize| l.contains_key(b) implies #[trigger] reasoned_at(body, l, c, b) by {
            assert(l[b].live_in@ == Set::<usize>::empty());
        }
    }
    assert forall|c: usize| kept_in_sets(c) implies #[trigger] closed(body, l, c) by {
        assert forall|b: usize| l.contains_key(b) implies #[trigger] closed_at(
            body,
            l,
            c,
            Set::empty(),
            None,
            b,
        ) by {
            assert(l[b].live_in@ == Set::<usize>::empty());
        }
    }
}

proof fn lemma_defs_same_insts(
    a: &MachineFunctionBody,
    b: &MachineFunctionBody,
    iseq: Seq<usize>,
    n: int,
)
    requires
        a.inst_arena == b.inst_arena,
    ensures
        defs_of(a, iseq, n) == defs_of(b, iseq, n),
        calls_in(a, iseq, n) == calls_in(b, iseq, n),
    decreases n,
{
    if n > 0 {
        lemma_defs_same_insts(a, b, iseq, n - 1);
    }
}

/// Two bodies with the same blocks, order and instructions.
pub open spec fn same_code(a: &MachineFunctionBody, b: &MachineFunctionBody) -> bool {
    &&& a.basic_blocks.arena == b.basic_blocks.arena
    &&& a.basic_blocks.order == b.basic_blocks.order
    &&& a.inst_arena == b.inst_arena
}

proof fn lemma_same_wf(a: &MachineFunctionBody, b: &MachineFunctionBody)
    requires
        same_code(a, b),
        a.wf(),
    ensures
        b.wf(),
{
    assert(b.basic_blocks.blocks() == a.basic_blocks.blocks());
    assert(b.inst_arena.insts() == a.inst_arena.insts());
}

proof fn lemma_same_read(a: &MachineFunctionBody, b: &MachineFunctionBody, x: usize, c: usize)
    requires
        same_code(a, b),
        read_first(a, x, c),
    ensures
        read_first(b, x, c),
{
    let (i, j) = choose|i: int, j: int| #[trigger] reads_first(a, x, i, j, c);
    lemma_defs_same_insts(a, b, a.basic_blocks.blocks()[x as int].iseq@, i);
    assert(reads_first(b, x, i, j, c));
}

proof fn lemma_same_reach(
    a: &MachineFunctionBody,
    b: &MachineFunctionBody,
    x: usize,
    c: usize,
    steps: nat,
)
    requires
        same_code(a, b),
        reaches_read(a, x, c, steps),
    ensures
        reaches_read(b, x, c, steps),
    decreases steps,
{
    if read_first(a, x, c) {
        lemma_same_read(a, b, x, c);
    } else {
        let s = choose|s: usize| #[trigger]
            follows(a, x, s) && reaches_read(a, s, c, (steps - 1) as nat);
        lemma_same_reach(a, b, s, c, (steps - 1) as nat);
        assert(follows(b, x, s));
        let iseq = a.basic_blocks.blocks()[x as int].iseq@;
        lemma_defs_same_insts(a, b, iseq, iseq.len() as int);
    }
}

proof fn lemma_same_entry(a: &MachineFunctionBody, b: &MachineFunctionBody, x: usize, c: usize)
    requires
        same_code(a, b),
    ensures
        live_at_entry(a, x, c) == live_at_entry(b, x, c),
        live_at_exit(a, x, c) == live_at_exit(b, x, c),
{
    if live_at_entry(a, x, c) {
        let steps = choose|steps: nat| #[trigger] reaches_read(a, x, c, steps);
        lemma_same_reach(a, b, x, c, steps);
    }
    if live_at_entry(b, x, c) {
        let steps = choose|steps: nat| #[trigger] reaches_read(b, x, c, steps);
        lemma_same_reach(b, a, x, c, steps);
    }
    if live_at_exit(a, x, c) {
        let s = choose|s: usize| #[trigger] follows(a, x, s) && live_at_entry(a, s, c);
        let steps = choose|steps: nat| #[trigger] reaches_read(a, s, c, steps);
        lemma_same_reach(a, b, s, c, steps);
        assert(follows(b, x, s));
    }
    if live_at_exit(b, x, c) {
        let s = choose|s: usize| #[trigger] follows(b, x, s) && live_at_entry(b, s, c);
        let steps = choose|steps: nat| #[trigger] reaches_read(b, s, c, steps);
        lemma_same_reach(b, a, s, c, steps);
        assert(follows(a, x, s));
    }
}

/// What the analysis states of a body holds of any body with the same
/// code: it reads the blocks, the order and the instructions, not the
/// liveness records that the body holds.
proof fn lemma_same_blocks(a: &MachineFunctionBody, b: &MachineFunctionBody, l: LivenessMap)
    requires
        same_code(a, b),
        defs_recorded(a, l),
        live_sets_exact(a, l),
        all_covered(a, l),
        all_closed(a, l),
        all_reasoned(a, l),
    ensures
        defs_recorded(b, l),
        live_sets_exact(b, l),
        all_covered(b, l),
        all_closed(b, l),
        all_reasoned(b, l),
{
    reveal(covered_before);
    assert(all_reasoned(b, l)) by {
        reveal(all_reasoned);
        reveal(reasoned);
        assert forall|c: usize| #[trigger] reasoned(b, l, c) by {
            assert(reasoned(a, l, c));
            assert forall|x: usize| l.contains_key(x) implies #[trigger] reasoned_at(b, l, c, x) by {
                assert(reasoned_at(a, l, c, x));
                lemma_same_entry(a, b, x, c);
            }
        }
    }
    assert(all_closed(b, l)) by {
        reveal(all_closed);
        reveal(closed_but);
        assert forall|c: usize| kept_in_sets(c) implies #[trigger] closed(b, l, c) by {
            assert(closed(a, l, c));
            assert forall|x: usize| l.contains_key(x) implies #[trigger] closed_at(
                b,
                l,
                c,
                Set::empty(),
                None,
                x,
            ) by {
                assert(closed_at(a, l, c, Set::empty(), None, x));
            }
        }
    }
    let n = a.basic_blocks.order@.len() as int;
    assert forall|k: int| 0 <= k < n implies l.contains_key(#[trigger] b.basic_blocks.order@[k])
        && l[b.basic_blocks.order@[k]].def@ == defs_of(
        b,
        b.basic_blocks.blocks()[b.basic_blocks.order@[k] as int].iseq@,
        b.basic_blocks.blocks()[b.basic_blocks.order@[k] as int].iseq@.len() as int,
    ) && l[b.basic_blocks.order@[k]].has_call == calls_in(
        b,
        b.basic_blocks.blocks()[b.basic_blocks.order@[k] as int].iseq@,
        b.basic_blocks.blocks()[b.basic_blocks.order@[k] as int].iseq@.len() as int,
    ) by {
        assert(l.contains_key(a.basic_blocks.order@[k]));
        let iseq = a.basic_blocks.blocks()[a.basic_blocks.order@[k] as int].iseq@;
        lemma_defs_same_insts(a, b, iseq, iseq.len() as int);
    }
    assert forall|c: usize, x: usize|
        c >= PHYS_REGS_NUM && b.basic_blocks.order@.contains(x) implies #[trigger] exact_at(
        b,
        l,
        c,
        x,
    ) by {
        assert(exact_at(a, l, c, x));
        lemma_same_entry(a, b, x, c);
    }
    assert forall|k1: int, i1: int, j1: int|
        is_use(b, k1, i1, j1) && comes_before(k1, i1, j1, n, 0, 0) implies #[trigger] use_covered(
        b,
        l,
        k1,
        i1,
        j1,
    ) by {
        assert(is_use(a, k1, i1, j1));
        assert(use_covered(a, l, k1, i1, j1));
        lemma_defs_same_insts(
            a,
            b,
            a.basic_blocks.blocks()[a.basic_blocks.order@[k1] as int].iseq@,
            i1,
        );
    }
}

impl LivenessAnalysis {
    /// Analyzes the liveness of `cur_func` and builds its live register
    /// matrix. Every block of the order gets its liveness record: what the
    /// block defines, whether it calls, and the registers live at its entry
    /// and exit. A register that an operand reads before any instruction of
    /// its block writes it is live at the entry of the block; a register live
    /// at the entry of a block is live at the exit of every predecessor; a
    /// register live at the exit of a block that does not write it is live at
    /// its entry. For virtual registers the sets are exactly these. A
    /// physical register counts as in a set where the set holds it or a wider
    /// alias, and a callee-saved register is in no set: with that, every read
    /// of a physical register is covered and the sets are closed in the same
    /// way. And no register is in a set unless a path from there reads it
    /// before anything writes it.
    pub fn analyze_function(&mut self, cur_func: &mut MachineFunction) -> (m: LiveRegMatrix)
        requires
            old(cur_func).body.wf(),
            preds_ordered(&old(cur_func).body),
            forall|k: int|
                0 <= k < old(cur_func).body.basic_blocks.order@.len() ==> (#[trigger] block_len(
                    &old(cur_func).body,
                    k,
                ) + 2) * IDX_STEP <= usize::MAX,
        ensures
            final(cur_func).body.basic_blocks.arena == old(cur_func).body.basic_blocks.arena,
            final(cur_func).body.basic_blocks.order == old(cur_func).body.basic_blocks.order,
            final(cur_func).body.inst_arena == old(cur_func).body.inst_arena,
            forall|b: usize| #[trigger]
                final(cur_func).body.basic_blocks.liveness@.contains_key(b) <==> final(cur_func).body.basic_blocks.order@.contains(b),
            defs_recorded(&final(cur_func).body, final(cur_func).body.basic_blocks.liveness@),
            live_sets_exact(&final(cur_func).body, final(cur_func).body.basic_blocks.liveness@),
            all_covered(&final(cur_func).body, final(cur_func).body.basic_blocks.liveness@),
            all_closed(&final(cur_func).body, final(cur_func).body.basic_blocks.liveness@),
            all_reasoned(&final(cur_func).body, final(cur_func).body.basic_blocks.liveness@),
            m.wf(),
            m.program_points.linked(),
            places(m.program_points@) == points_before(
                &final(cur_func).body,
                final(cur_func).body.basic_blocks.order@.len() as int,
            ),
            m.id2pp@ == inst_points(
                &final(cur_func).body,
                final(cur_func).body.basic_blocks.order@.len() as int,
                0,
            ),
            forall|v: usize|
                #[trigger] m.virt_regs@.contains_key(v) == defines_virt(
                    &final(cur_func).body,
                    final(cur_func).body.basic_blocks.order@.len() as int,
                    0,
                    v,
                ),
            forall|key: int|
                #[trigger] ranges_view(
                    m.virt_reg_interval@,
                    m.phys_reg_range@,
                    &m.program_points,
                    key,
                ) == range_of_key(&final(cur_func).body, key),
    {
        let mut liveness: FxHashMap<MachineBasicBlockId, LivenessInfo> = map_new();
        self.set_def(cur_func, &mut liveness);
        let ghost l1 = liveness@;
        proof {
            let body = &cur_func.body;
            assert(records_fit(body, l1)) by {
                assert forall|b: usize| l1.contains_key(b) implies (#[trigger] l1[b]).def@
                    == written_in(body, b) by {
                    assert(is_def_record(body, b, l1[b]));
                }
            }
            assert forall|b: usize| l1.contains_key(b) implies (#[trigger] l1[b]).live_in@
                == Set::<usize>::empty() && l1[b].live_out@ == Set::<usize>::empty() by {
                assert(is_def_record(body, b, l1[b]));
            }
            lemma_closed_at_start(body, l1);
        }
        self.visit(cur_func, &mut liveness);
        let ghost l2 = liveness@;
        proof {
            let body = &cur_func.body;
            assert(defs_recorded(body, l2)) by {
                assert forall|k: int| 0 <= k < body.basic_blocks.order@.len() implies l2.contains_key(
                    #[trigger] body.basic_blocks.order@[k],
                ) && l2[body.basic_blocks.order@[k]].def@ == defs_of(
                    body,
                    body.basic_blocks.blocks()[body.basic_blocks.order@[k] as int].iseq@,
                    body.basic_blocks.blocks()[body.basic_blocks.order@[k] as int].iseq@.len() as int,
                ) && l2[body.basic_blocks.order@[k]].has_call == calls_in(
                    body,
                    body.basic_blocks.blocks()[body.basic_blocks.order@[k] as int].iseq@,
                    body.basic_blocks.blocks()[body.basic_blocks.order@[k] as int].iseq@.len() as int,
                ) by {
                    let b = body.basic_blocks.order@[k];
                    assert(body.basic_blocks.order@.contains(b));
                    assert(l1.contains_key(b));
                    assert(l2.contains_key(b));
                    assert(is_def_record(body, b, l1[b]));
                    assert(l2[b].has_call == l1[b].has_call);
                    assert(l2[b].def@ == written_in(body, b));
                }
            }
            lemma_exact(body, l2);
        }
        let ghost before = cur_func.body;
        cur_func.body.basic_blocks.liveness = liveness;
        proof {
            lemma_same_blocks(&before, &cur_func.body, l2);
            assert forall|k: int|
                0 <= k < cur_func.body.basic_blocks.order@.len() implies (#[trigger] block_len(
                &cur_func.body,
                k,
            ) + 2) * IDX_STEP <= usize::MAX by {
                assert(block_len(&cur_func.body, k) == block_len(&old(cur_func).body, k));
            }
            lemma_same_wf(&before, &cur_func.body);
        }
        self.construct_live_reg_matrix(cur_func)
    }
}

} // verus!
