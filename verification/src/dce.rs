//! Dead code elimination: an instruction whose value nobody reads, and
//! that has no effect of its own, leaves its block.

use crate::ir::{
    ir_block_at,
    operand_insts, value_insts, Function, InstOperand, Instruction, InstructionId, Module, Opcode,
    Operand, Value,
};
use crate::machine::is_first_place;
use vstd::prelude::*;

verus! {

/// The pass over a module.
pub struct DeadCodeElimination {}

/// The pass over one function.
pub struct DeadCodeEliminationOnFunction<'a> {
    pub func: &'a mut Function,
}

/// The instruction must stay whether its value is read or not: it writes
/// memory, calls, or ends a block.
pub open spec fn has_effect(inst: Instruction) -> bool {
    inst.opcode == Opcode::Store || inst.opcode == Opcode::Call || inst.opcode.terminator()
}

/// The instruction can be eliminated: it has no effect and no users.
pub open spec fn is_dead(inst: Instruction) -> bool {
    !has_effect(inst) && inst.users@.len() == 0
}

/// The instructions of `f` that can be eliminated.
pub open spec fn dead_set(f: Function) -> Set<InstructionId> {
    Set::new(|x: InstructionId| x < f.inst_table@.len() && is_dead(f.inst_table@[x as int]))
}

/// The list `s` without the items of `gone`, in order.
pub open spec fn sift(s: Seq<usize>, gone: Set<usize>) -> Seq<usize>
    decreases s.len(),
{
    if s.len() == 0 {
        Seq::empty()
    } else if gone.contains(s.last()) {
        sift(s.drop_last(), gone)
    } else {
        sift(s.drop_last(), gone).push(s.last())
    }
}

/// The function is consistent: the order names each block once; a block
/// names each of its instructions once, and is their parent; an
/// instruction knows its own place in the table; and an instruction whose
/// value is read has a user.
pub open spec fn consistent(f: Function) -> bool {
    let blocks = f.basic_blocks.blocks();
    let table = f.inst_table@;
    &&& f.basic_blocks.order@.no_duplicates()
    &&& forall|k: int|
        0 <= k < f.basic_blocks.order@.len() ==> (#[trigger] f.basic_blocks.order@[k]) < blocks.len()
    &&& forall|b: int| 0 <= b < blocks.len() ==> (#[trigger] blocks[b]).iseq@.no_duplicates()
    &&& forall|b: int, i: int|
        0 <= b < blocks.len() && 0 <= i < blocks[b].iseq@.len() ==> (#[trigger] blocks[b].iseq@[i])
            < table.len() && table[blocks[b].iseq@[i] as int].parent == b
    &&& forall|x: int| 0 <= x < table.len() ==> (#[trigger] table[x]).id == Some(x as usize)
    &&& forall|y: int, j: int|
        0 <= y < table.len() && 0 <= j < table[y].reads().len() ==> (#[trigger] table[y].reads()[j])
            < table.len() && table[table[y].reads()[j] as int].users@.len() > 0
}

pub proof fn lemma_sift_holds(s: Seq<usize>, gone: Set<usize>)
    ensures
        forall|x: usize| #[trigger] sift(s, gone).contains(x) <==> s.contains(x) && !gone.contains(x),
        s.no_duplicates() ==> sift(s, gone).no_duplicates(),
        sift(s, gone).len() <= s.len(),
    decreases s.len(),
{
    if s.len() > 0 {
        let init = s.drop_last();
        let last = s.last();
        lemma_sift_holds(init, gone);
        let r = sift(init, gone);
        assert forall|x: usize| #[trigger] sift(s, gone).contains(x) <==> s.contains(x)
            && !gone.contains(x) by {
            if s.contains(x) {
                let i = choose|i: int| 0 <= i < s.len() && s[i] == x;
                if i < s.len() - 1 {
                    assert(init[i] == x);
                }
            }
            if init.contains(x) {
                let i = choose|i: int| 0 <= i < init.len() && init[i] == x;
                assert(s[i] == x);
            }
            assert(s[s.len() - 1] == last);
            if !gone.contains(last) {
                let t = r.push(last);
                if t.contains(x) {
                    let i = choose|i: int| 0 <= i < t.len() && t[i] == x;
                    if i < r.len() {
                        assert(r[i] == x);
                    }
                }
                if r.contains(x) {
                    let i = choose|i: int| 0 <= i < r.len() && r[i] == x;
                    assert(t[i] == x);
                }
                assert(t[r.len() as int] == last);
            }
        }
        if s.no_duplicates() {
            assert(init.no_duplicates());
            if !gone.contains(last) {
                assert(!init.contains(last)) by {
                    if init.contains(last) {
                        let i = choose|i: int| 0 <= i < init.len() && init[i] == last;
                        assert(s[i] == s[s.len() - 1]);
                    }
                }
                assert(!r.contains(last));
                let t = r.push(last);
                assert forall|i: int, j: int| 0 <= i < t.len() && 0 <= j < t.len() && i != j implies t[i]
                    != t[j] by {
                    if i < r.len() && j < r.len() {
                    } else if i < r.len() {
                        assert(r.contains(r[i]));
                    } else {
                        assert(r.contains(r[j]));
                    }
                }
            }
        }
    }
}

proof fn lemma_sift_same(s: Seq<usize>, a: Set<usize>, b: Set<usize>)
    requires
        forall|i: int| 0 <= i < s.len() ==> a.contains(#[trigger] s[i]) == b.contains(s[i]),
    ensures
        sift(s, a) == sift(s, b),
    decreases s.len(),
{
    if s.len() > 0 {
        let init = s.drop_last();
        assert forall|i: int| 0 <= i < init.len() implies a.contains(#[trigger] init[i])
            == b.contains(init[i]) by {
            assert(init[i] == s[i]);
        }
        lemma_sift_same(init, a, b);
        assert(a.contains(s[s.len() - 1]) == b.contains(s[s.len() - 1]));
    }
}

proof fn lemma_sift_twice(s: Seq<usize>, a: Set<usize>, b: Set<usize>)
    ensures
        sift(sift(s, a), b) == sift(s, a.union(b)),
    decreases s.len(),
{
    if s.len() > 0 {
        let init = s.drop_last();
        let last = s.last();
        lemma_sift_twice(init, a, b);
        if !a.contains(last) {
            let t = sift(init, a).push(last);
            assert(t.drop_last() =~= sift(init, a));
            assert(t.last() == last);
        }
    }
}

proof fn lemma_sift_none(s: Seq<usize>, gone: Set<usize>)
    requires
        forall|i: int| 0 <= i < s.len() ==> !gone.contains(#[trigger] s[i]),
    ensures
        sift(s, gone) == s,
    decreases s.len(),
{
    if s.len() > 0 {
        let init = s.drop_last();
        assert forall|i: int| 0 <= i < init.len() implies !gone.contains(#[trigger] init[i]) by {
            assert(init[i] == s[i]);
        }
        lemma_sift_none(init, gone);
        assert(!gone.contains(s[s.len() - 1]));
        assert(init.push(s.last()) =~= s);
    } else {
        assert(s =~= Seq::<usize>::empty());
    }
}

/// Taking out the one place of an item is sifting the item out.
proof fn lemma_sift_one(s: Seq<usize>, x: usize, pos: int)
    requires
        s.no_duplicates(),
        is_first_place(s, x, pos),
    ensures
        s.remove(pos) == sift(s, set![x]),
    decreases s.len(),
{
    let init = s.drop_last();
    let last = s.last();
    if pos == s.len() - 1 {
        assert forall|i: int| 0 <= i < init.len() implies !set![x].contains(#[trigger] init[i]) by {
            assert(init[i] == s[i]);
        }
        lemma_sift_none(init, set![x]);
        assert(s.remove(pos) =~= init);
    } else {
        assert(init.no_duplicates());
        assert(is_first_place(init, x, pos)) by {
            assert(init[pos] == s[pos]);
            assert forall|j: int| 0 <= j < pos implies init[j] != x by {
                assert(init[j] == s[j]);
            }
        }
        lemma_sift_one(init, x, pos);
        assert(last != x) by {
            assert(s[s.len() - 1] == last);
            assert(s[pos] == x);
        }
        assert(s.remove(pos) =~= init.remove(pos).push(last));
    }
}

impl DeadCodeElimination {
    pub fn new() -> Self {
        Self {  }
    }

    /// Eliminates dead code in every function of `module` that is neither
    /// internal nor empty.
    pub fn run_on_module(&mut self, module: &mut Module)
        requires
            forall|f: int|
                0 <= f < old(module).functions@.len() ==> consistent(#[trigger] old(module).functions@[f]),
        ensures
            final(module).functions@.len() == old(module).functions@.len(),
            forall|f: int|
                0 <= f < old(module).functions@.len() ==> {
                    let a = old(module).functions@[f];
                    let z = #[trigger] final(module).functions@[f];
                    if a.is_internal || a.basic_blocks.order@.len() == 0 {
                        z == a
                    } else {
                        swept(a, z)
                    }
                },
    {
        let mut i: usize = 0;
        while i < module.functions.len()
            invariant
                module.functions@.len() == old(module).functions@.len(),
                i <= module.functions@.len(),
                forall|f: int|
                    i <= f < module.functions@.len() ==> #[trigger] module.functions@[f] == old(module).functions@[f],
                forall|f: int|
                    0 <= f < old(module).functions@.len() ==> consistent(
                        #[trigger] old(module).functions@[f],
                    ),
                forall|f: int|
                    0 <= f < i ==> {
                        let a = old(module).functions@[f];
                        let z = #[trigger] module.functions@[f];
                        if a.is_internal || a.basic_blocks.order@.len() == 0 {
                            z == a
                        } else {
                            swept(a, z)
                        }
                    },
            decreases module.functions@.len() - i,
        {
            if !(module.functions[i].is_internal || module.functions[i].is_empty()) {
                let ghost before = module.functions@;
                let func = &mut module.functions[i];
                sweep(func);
                proof {
                    assert forall|f: int| i < f < module.functions@.len() implies #[trigger] module.functions@[f]
                        == old(module).functions@[f] by {
                        assert(module.functions@[f] == before[f]);
                    }
                    assert forall|f: int| 0 <= f < i + 1 implies {
                        let a = old(module).functions@[f];
                        let z = #[trigger] module.functions@[f];
                        if a.is_internal || a.basic_blocks.order@.len() == 0 {
                            z == a
                        } else {
                            swept(a, z)
                        }
                    } by {
                        if f < i {
                            assert(module.functions@[f] == before[f]);
                        }
                    }
                }
            }
            i += 1;
        }
    }
}

/// The function `z` is the function `a` after dead code was eliminated:
/// every block of the order has lost the instructions that can be
/// eliminated, and nothing else has changed.
pub open spec fn swept(a: Function, z: Function) -> bool {
    &&& z.inst_table == a.inst_table
    &&& z.name == a.name
    &&& z.is_internal == a.is_internal
    &&& z.basic_blocks.order == a.basic_blocks.order
    &&& z.basic_blocks.liveness == a.basic_blocks.liveness
    &&& z.basic_blocks.blocks().len() == a.basic_blocks.blocks().len()
    &&& forall|b: int|
        0 <= b < a.basic_blocks.blocks().len() ==> {
            let x = a.basic_blocks.blocks()[b];
            let y = #[trigger] z.basic_blocks.blocks()[b];
            &&& y.pred == x.pred
            &&& y.succ == x.succ
            &&& y.iseq@ == (if a.basic_blocks.order@.contains(b as usize) {
                sift(x.iseq@, dead_set(a))
            } else {
                x.iseq@
            })
        }
}

/// Puts `inst` on the elimination list if it can be eliminated, and the
/// instructions that it reads on the worklist.
pub fn check_if_elimination_possible(
    inst: &Instruction,
    elimination_list: &mut Vec<InstructionId>,
    worklist: &mut Vec<InstructionId>,
)
    requires
        is_dead(*inst) ==> inst.id is Some,
    ensures
        !is_dead(*inst) ==> final(elimination_list)@ == old(elimination_list)@ && final(worklist)@
            == old(worklist)@,
        is_dead(*inst) ==> final(elimination_list)@ == old(elimination_list)@.push(inst.id->0)
            && final(worklist)@ == old(worklist)@ + inst.reads(),
{
    let dont_eliminate = match inst.opcode {
        Opcode::Store => true,
        Opcode::Call => true,
        _ => inst.opcode.is_terminator(),
    };
    if dont_eliminate {
        return ;
    }
    // no users then eliminate
    if inst.users.len() == 0 {
        elimination_list.push(inst.id.unwrap());
        proof {
            assert(worklist@ =~= old(worklist)@ + Seq::<usize>::empty());
        }
        match &inst.operand {
            InstOperand::Args(vs) => {
                let mut i: usize = 0;
                while i < vs.len()
                    invariant
                        i <= vs@.len(),
                        worklist@ == old(worklist)@ + value_insts(vs@, i as int),
                    decreases vs@.len() - i,
                {
                    match vs[i] {
                        Value::Instruction(v) => {
                            worklist.push(v.id);
                            proof {
                                assert(worklist@ =~= old(worklist)@ + value_insts(vs@, i + 1));
                            }
                        },
                        _ => {},
                    }
                    i += 1;
                }
            },
            InstOperand::Absent => {
                let mut i: usize = 0;
                while i < inst.operands.len()
                    invariant
                        i <= inst.operands@.len(),
                        worklist@ == old(worklist)@ + operand_insts(inst.operands@, i as int),
                    decreases inst.operands@.len() - i,
                {
                    match inst.operands[i] {
                        Operand::Value(Value::Instruction(v)) => {
                            worklist.push(v.id);
                            proof {
                                assert(worklist@ =~= old(worklist)@ + operand_insts(
                                    inst.operands@,
                                    i + 1,
                                ));
                            }
                        },
                        _ => {},
                    }
                    i += 1;
                }
            },
        }
    }
}

/// The instruction `x` stands in a block of the order of `f`.
pub open spec fn is_placed(f: Function, x: InstructionId) -> bool {
    &&& x < f.inst_table@.len()
    &&& f.inst_table@[x as int].parent < f.basic_blocks.blocks().len()
    &&& f.basic_blocks.order@.contains(f.inst_table@[x as int].parent)
    &&& f.basic_blocks.blocks()[f.inst_table@[x as int].parent as int].iseq@.contains(x)
}

/// Eliminates the dead code of `func`.
pub fn sweep(func: &mut Function)
    requires
        consistent(*old(func)),
    ensures
        swept(*old(func), *final(func)),
{
    let mut elimination_list: Vec<InstructionId> = Vec::new();
    let mut worklist: Vec<InstructionId> = Vec::new();
    let ghost f0 = *func;
    let ghost table = func.inst_table@;
    let ghost blocks = func.basic_blocks.blocks();
    let ghost order = func.basic_blocks.order@;
    let mut k: usize = 0;
    while k < func.basic_blocks.order.len()
        invariant
            *func == f0,
            consistent(f0),
            table == f0.inst_table@,
            blocks == f0.basic_blocks.blocks(),
            order == f0.basic_blocks.order@,
            k <= order.len(),
            elimination_list@.no_duplicates(),
            forall|x: usize|
                #[trigger] elimination_list@.contains(x) <==> is_placed(f0, x) && is_dead(
                    table[x as int],
                ) && order.take(k as int).contains(table[x as int].parent),
            forall|j: int|
                0 <= j < worklist@.len() ==> (#[trigger] worklist@[j]) < table.len()
                    && table[worklist@[j] as int].users@.len() > 0,
        decreases order.len() - k,
    {
        let block_id = func.basic_blocks.order[k];
        let block = ir_block_at(&func.basic_blocks.arena, block_id);
        let ghost before = elimination_list@;
        let mut i: usize = 0;
        while i < block.iseq.len()
            invariant
                *func == f0,
                consistent(f0),
                table == f0.inst_table@,
                blocks == f0.basic_blocks.blocks(),
                order == f0.basic_blocks.order@,
                k < order.len(),
                block_id == order[k as int],
                block_id < blocks.len(),
                *block == blocks[block_id as int],
                i <= block.iseq@.len(),
                elimination_list@.no_duplicates(),
                forall|x: usize|
                    #[trigger] before.contains(x) <==> is_placed(f0, x) && is_dead(table[x as int])
                        && order.take(k as int).contains(table[x as int].parent),
                forall|x: usize|
                    #[trigger] elimination_list@.contains(x) <==> before.contains(x) || (
                    block.iseq@.take(i as int).contains(x) && is_dead(table[x as int])),
                forall|j: int|
                    0 <= j < worklist@.len() ==> (#[trigger] worklist@[j]) < table.len()
                        && table[worklist@[j] as int].users@.len() > 0,
            decreases block.iseq@.len() - i,
        {
            let inst_id = block.iseq[i];
            proof {
                assert(blocks[block_id as int].iseq@[i as int] < table.len());
                assert(table[inst_id as int].id == Some(inst_id));
            }
            let inst = &func.inst_table[inst_id];
            let ghost el = elimination_list@;
            let ghost wl = worklist@;
            check_if_elimination_possible(inst, &mut elimination_list, &mut worklist);
            proof {
                let a = block.iseq@.take(i as int);
                let c = block.iseq@.take(i + 1);
                assert(c =~= a.push(inst_id));
                assert forall|x: usize| c.contains(x) <==> a.contains(x) || x == inst_id by {
                    if c.contains(x) {
                        let w = choose|w: int| 0 <= w < c.len() && c[w] == x;
                        if w < i {
                            assert(a[w] == x);
                        }
                    }
                    if a.contains(x) {
                        let w = choose|w: int| 0 <= w < a.len() && a[w] == x;
                        assert(c[w] == x);
                    }
                    assert(c[i as int] == inst_id);
                }
                if is_dead(*inst) {
                    assert(!el.contains(inst_id)) by {
                        if before.contains(inst_id) {
                            assert(table[inst_id as int].parent == block_id);
                            let t = order.take(k as int);
                            let w = choose|w: int| 0 <= w < t.len() && t[w] == block_id;
                            assert(order[w] == order[k as int]);
                        }
                        if a.contains(inst_id) {
                            let w = choose|w: int| 0 <= w < a.len() && a[w] == inst_id;
                            assert(block.iseq@[w] == block.iseq@[i as int]);
                        }
                    }
                    let e = elimination_list@;
                    assert(e == el.push(inst_id));
                    assert forall|p: int, q: int| 0 <= p < e.len() && 0 <= q < e.len() && p != q implies e[p]
                        != e[q] by {
                        if p < el.len() && q < el.len() {
                        } else if p < el.len() {
                            assert(el.contains(el[p]));
                        } else {
                            assert(el.contains(el[q]));
                        }
                    }
                    assert forall|x: usize| #[trigger] e.contains(x) <==> el.contains(x) || x
                        == inst_id by {
                        if e.contains(x) {
                            let w = choose|w: int| 0 <= w < e.len() && e[w] == x;
                            if w < el.len() {
                                assert(el[w] == x);
                            }
                        }
                        if el.contains(x) {
                            let w = choose|w: int| 0 <= w < el.len() && el[w] == x;
                            assert(e[w] == x);
                        }
                        assert(e[el.len() as int] == inst_id);
                    }
                    assert forall|j: int| 0 <= j < worklist@.len() implies (#[trigger] worklist@[j])
                        < table.len() && table[worklist@[j] as int].users@.len() > 0 by {
                        if j >= wl.len() {
                            assert(worklist@[j] == table[inst_id as int].reads()[j - wl.len()]);
                        } else {
                            assert(worklist@[j] == wl[j]);
                        }
                    }
                }
            }
            i += 1;
        }
        proof {
            assert(block.iseq@.take(block.iseq@.len() as int) =~= block.iseq@);
            let a = order.take(k as int);
            let c = order.take(k + 1);
            assert(c =~= a.push(block_id));
            assert forall|b: usize| c.contains(b) <==> a.contains(b) || b == block_id by {
                if c.contains(b) {
                    let w = choose|w: int| 0 <= w < c.len() && c[w] == b;
                    if w < k {
                        assert(a[w] == b);
                    }
                }
                if a.contains(b) {
                    let w = choose|w: int| 0 <= w < a.len() && a[w] == b;
                    assert(c[w] == b);
                }
                assert(c[k as int] == block_id);
            }
            assert(order.contains(block_id)) by {
                assert(order[k as int] == block_id);
            }
            assert forall|x: usize| #[trigger]
                elimination_list@.contains(x) <==> is_placed(f0, x) && is_dead(table[x as int])
                    && c.contains(table[x as int].parent) by {
                if block.iseq@.contains(x) {
                    let w = choose|w: int| 0 <= w < block.iseq@.len() && block.iseq@[w] == x;
                    assert(blocks[block_id as int].iseq@[w] < table.len());
                    assert(table[x as int].parent == block_id);
                }
            }
        }
        k += 1;
    }
    proof {
        assert(order.take(order.len() as int) =~= order);
    }
    while worklist.len() > 0
        invariant
            *func == f0,
            table == f0.inst_table@,
            elimination_list@.no_duplicates(),
            forall|x: usize|
                #[trigger] elimination_list@.contains(x) <==> is_placed(f0, x) && is_dead(
                    table[x as int],
                ),
            forall|j: int|
                0 <= j < worklist@.len() ==> (#[trigger] worklist@[j]) < table.len()
                    && table[worklist@[j] as int].users@.len() > 0,
        decreases worklist@.len(),
    {
        let ghost wl = worklist@;
        let inst_id = worklist.pop().unwrap();
        proof {
            assert(wl[wl.len() - 1] == inst_id);
            assert forall|j: int| 0 <= j < worklist@.len() implies (#[trigger] worklist@[j])
                < table.len() && table[worklist@[j] as int].users@.len() > 0 by {
                assert(worklist@[j] == wl[j]);
            }
        }
        let inst = &func.inst_table[inst_id];
        check_if_elimination_possible(inst, &mut elimination_list, &mut worklist);
    }
    let mut j: usize = 0;
    proof {
        assert forall|b: int| 0 <= b < blocks.len() implies (#[trigger] func.basic_blocks.blocks()[b]).iseq@
            == sift(blocks[b].iseq@, elimination_list@.take(0).to_set()) by {
            lemma_sift_none(blocks[b].iseq@, elimination_list@.take(0).to_set());
        }
    }
    while j < elimination_list.len()
        invariant
            consistent(f0),
            table == f0.inst_table@,
            blocks == f0.basic_blocks.blocks(),
            order == f0.basic_blocks.order@,
            j <= elimination_list@.len(),
            elimination_list@.no_duplicates(),
            forall|x: usize|
                #[trigger] elimination_list@.contains(x) <==> is_placed(f0, x) && is_dead(
                    table[x as int],
                ),
            func.inst_table == f0.inst_table,
            func.name == f0.name,
            func.is_internal == f0.is_internal,
            func.basic_blocks.order == f0.basic_blocks.order,
            func.basic_blocks.liveness == f0.basic_blocks.liveness,
            func.basic_blocks.blocks().len() == blocks.len(),
            forall|b: int|
                0 <= b < blocks.len() ==> (#[trigger] func.basic_blocks.blocks()[b]).pred
                    == blocks[b].pred && func.basic_blocks.blocks()[b].succ == blocks[b].succ
                    && func.basic_blocks.blocks()[b].iseq@ == sift(
                    blocks[b].iseq@,
                    elimination_list@.take(j as int).to_set(),
                ),
        decreases elimination_list@.len() - j,
    {
        let inst_id = elimination_list[j];
        let ghost gone = elimination_list@.take(j as int).to_set();
        let ghost next = elimination_list@.take(j + 1).to_set();
        let ghost cur = func.basic_blocks.blocks();
        let ghost p = table[inst_id as int].parent as int;
        proof {
            assert(elimination_list@.contains(inst_id));
            assert(is_placed(f0, inst_id));
            assert(!gone.contains(inst_id)) by {
                let t = elimination_list@.take(j as int);
                if t.contains(inst_id) {
                    let w = choose|w: int| 0 <= w < t.len() && t[w] == inst_id;
                    assert(elimination_list@[w] == elimination_list@[j as int]);
                }
            }
            assert(next =~= gone.insert(inst_id)) by {
                let a = elimination_list@.take(j as int);
                let c = elimination_list@.take(j + 1);
                assert(c =~= a.push(inst_id));
                assert forall|x: usize| c.contains(x) <==> a.contains(x) || x == inst_id by {
                    if c.contains(x) {
                        let w = choose|w: int| 0 <= w < c.len() && c[w] == x;
                        if w < j {
                            assert(a[w] == x);
                        }
                    }
                    if a.contains(x) {
                        let w = choose|w: int| 0 <= w < a.len() && a[w] == x;
                        assert(c[w] == x);
                    }
                    assert(c[j as int] == inst_id);
                }
            }
            lemma_sift_holds(blocks[p].iseq@, gone);
            assert(cur[p].iseq@.contains(inst_id));
        }
        func.remove_inst(inst_id);
        proof {
            assert forall|b: int| 0 <= b < blocks.len() implies (#[trigger] func.basic_blocks.blocks()[b]).pred
                == blocks[b].pred && func.basic_blocks.blocks()[b].succ == blocks[b].succ
                && func.basic_blocks.blocks()[b].iseq@ == sift(blocks[b].iseq@, next) by {
                if b == p {
                    let pos = choose|pos: int|
                        is_first_place(cur[p].iseq@, inst_id, pos) && func.basic_blocks.blocks()[p].iseq@
                            == cur[p].iseq@.remove(pos);
                    lemma_sift_one(cur[p].iseq@, inst_id, pos);
                    lemma_sift_twice(blocks[p].iseq@, gone, set![inst_id]);
                    assert(gone.union(set![inst_id]) =~= next);
                } else {
                    assert(func.basic_blocks.blocks()[b] == cur[b]);
                    assert forall|i: int| 0 <= i < blocks[b].iseq@.len() implies gone.contains(
                        #[trigger] blocks[b].iseq@[i],
                    ) == next.contains(blocks[b].iseq@[i]) by {
                        assert(table[blocks[b].iseq@[i] as int].parent == b);
                    }
                    lemma_sift_same(blocks[b].iseq@, gone, next);
                }
            }
        }
        j += 1;
    }
    proof {
        let all = elimination_list@.to_set();
        assert(elimination_list@.take(elimination_list@.len() as int) =~= elimination_list@);
        assert forall|b: int| 0 <= b < blocks.len() implies {
            let x = f0.basic_blocks.blocks()[b];
            let y = #[trigger] func.basic_blocks.blocks()[b];
            &&& y.pred == x.pred
            &&& y.succ == x.succ
            &&& y.iseq@ == (if order.contains(b as usize) {
                sift(x.iseq@, dead_set(f0))
            } else {
                x.iseq@
            })
        } by {
            let s = blocks[b].iseq@;
            if order.contains(b as usize) {
                assert forall|i: int| 0 <= i < s.len() implies all.contains(#[trigger] s[i])
                    == dead_set(f0).contains(s[i]) by {
                    assert(s[i] < table.len() && table[s[i] as int].parent == b);
                    assert(s.contains(s[i]));
                    assert(elimination_list@.contains(s[i]) <==> is_placed(f0, s[i]) && is_dead(
                        table[s[i] as int],
                    ));
                }
                lemma_sift_same(s, all, dead_set(f0));
            } else {
                assert forall|i: int| 0 <= i < s.len() implies !all.contains(#[trigger] s[i]) by {
                    assert(s[i] < table.len() && table[s[i] as int].parent == b);
                    assert(elimination_list@.contains(s[i]) <==> is_placed(f0, s[i]) && is_dead(
                        table[s[i] as int],
                    ));
                }
                lemma_sift_none(s, all);
            }
        }
    }
}

impl<'a> DeadCodeEliminationOnFunction<'a> {
    /// Eliminates the dead code of the function.
    pub fn run(self)
        requires
            consistent(*old(self.func)),
        ensures
            swept(*old(self.func), *final(self.func)),
    {
        sweep(self.func)
    }
}

} // verus!
