//! Machine functions: instructions with the registers they define and use,
//! basic blocks with their predecessors and successors, and the function
//! body that holds both.

use crate::fx::{map_get, map_get_mut, map_new, set_elements, set_insert, set_new, set_remove};
use crate::liveness_info::{added_all, copy_set, unite_set, LivenessInfo};
use crate::node::{FrameIndexInfo, MachineOpcode};
use crate::register::{names, RegisterId, RegistersInfo};
use crate::types::Type;
use id_arena::{Arena, ArenaBehavior, DefaultArenaBehavior};
use rustc_hash::{FxHashMap, FxHashSet};
use vstd::prelude::*;

verus! {

/// Index of an instruction in the instruction arena of its function.
pub type MachineInstId = usize;

/// Index of a basic block in the block arena of its function.
pub type MachineBasicBlockId = usize;

/// A constant operand. A 64-bit float is held by its bits.
#[derive(Clone, Copy, Debug, PartialEq, Eq, Structural)]
pub enum MachineConstant {
    Int8(i8),
    Int32(i32),
    Int64(i64),
    F64(u64),
}

/// A memory operand.
#[derive(Clone, Copy, Debug, PartialEq, Eq, Structural)]
pub enum MachineMemOperand {
    Base(RegisterId),
    BaseOff(RegisterId, i32),
    BaseFi(RegisterId, FrameIndexInfo),
}

/// An operand of a machine instruction.
#[derive(Clone, Copy, Debug, PartialEq, Eq, Structural)]
pub enum MachineOperand {
    Register(RegisterId),
    Constant(MachineConstant),
    FrameIndex(FrameIndexInfo),
    Mem(MachineMemOperand),
    Branch(MachineBasicBlockId),
    Empty,
}

/// A machine instruction.
pub struct MachineInst {
    pub id: Option<MachineInstId>,
    pub opcode: MachineOpcode,
    pub operand: Vec<MachineOperand>,
    pub def: Vec<RegisterId>,
    pub imp_use: Vec<RegisterId>,
    pub imp_def: Vec<RegisterId>,
    pub parent: MachineBasicBlockId,
}

/// A basic block of machine instructions.
pub struct MachineBasicBlock {
    /// Predecessors
    pub pred: FxHashSet<MachineBasicBlockId>,
    /// Successors
    pub succ: FxHashSet<MachineBasicBlockId>,
    /// Instruction list
    pub iseq: Vec<MachineInstId>,
}

/// The basic blocks of a function: the blocks by index, their order, and
/// the liveness record of each.
pub struct MachineBasicBlocks {
    pub arena: Arena<MachineBasicBlock>,
    pub order: Vec<MachineBasicBlockId>,
    pub liveness: FxHashMap<MachineBasicBlockId, LivenessInfo>,
}

/// The instructions of a function, by index.
pub struct InstructionArena {
    pub arena: Arena<MachineInst>,
}

/// The blocks that an arena holds, by index.
pub uninterp spec fn machine_blocks(arena: Arena<MachineBasicBlock>) -> Seq<MachineBasicBlock>;

/// The instructions that an arena holds, by index.
pub uninterp spec fn machine_insts(arena: Arena<MachineInst>) -> Seq<MachineInst>;

/// `Arena::new`: an arena without blocks.
#[verifier::external_body]
fn blocks_new() -> (a: Arena<MachineBasicBlock>)
    ensures
        machine_blocks(a).len() == 0,
{
    Arena::new()
}

/// `Arena::len`: the number of blocks.
#[verifier::external_body]
fn blocks_len(a: &Arena<MachineBasicBlock>) -> (n: usize)
    ensures
        n == machine_blocks(*a).len(),
{
    a.len()
}

/// `Arena::alloc`, and `Id::index` of what it returns: the block is put
/// behind the others, which stay where they are, and its index is the
/// number of blocks that were there before.
#[verifier::external_body]
fn blocks_alloc(a: &mut Arena<MachineBasicBlock>, block: MachineBasicBlock) -> (i: usize)
    ensures
        machine_blocks(*final(a)) == machine_blocks(*old(a)).push(block),
        i == machine_blocks(*old(a)).len(),
{
    a.alloc(block).index()
}

/// `Arena::index`, with the identifier that this arena gives to the index
/// `i`: the block at `i`.
#[verifier::external_body]
fn blocks_at(a: &Arena<MachineBasicBlock>, i: usize) -> (r: &MachineBasicBlock)
    requires
        i < machine_blocks(*a).len(),
    ensures
        *r == machine_blocks(*a)[i as int],
{
    let arena_id = DefaultArenaBehavior::<MachineBasicBlock>::arena_id(a.next_id());
    &a[DefaultArenaBehavior::<MachineBasicBlock>::new_id(arena_id, i)]
}

/// `Arena::index_mut`, with the identifier that this arena gives to the
/// index `i`: mutable access to the block at `i`. What is written through it
/// is the block at `i` afterwards, and the other blocks stay as they are.
#[verifier::external_body]
fn blocks_at_mut(a: &mut Arena<MachineBasicBlock>, i: usize) -> (r: &mut MachineBasicBlock)
    requires
        i < machine_blocks(*old(a)).len(),
    ensures
        *r == machine_blocks(*old(a))[i as int],
        machine_blocks(*final(a)) == machine_blocks(*old(a)).update(i as int, *final(r)),
{
    let arena_id = DefaultArenaBehavior::<MachineBasicBlock>::arena_id(a.next_id());
    &mut a[DefaultArenaBehavior::<MachineBasicBlock>::new_id(arena_id, i)]
}

/// `Arena::new`: an arena without instructions.
#[verifier::external_body]
fn insts_new() -> (a: Arena<MachineInst>)
    ensures
        machine_insts(a).len() == 0,
{
    Arena::new()
}

/// `Arena::len`: the number of instructions.
#[verifier::external_body]
fn insts_len(a: &Arena<MachineInst>) -> (n: usize)
    ensures
        n == machine_insts(*a).len(),
{
    a.len()
}

/// `Arena::alloc`, and `Id::index` of what it returns: the instruction is
/// put behind the others, which stay where they are, and its index is the
/// number of instructions that were there before.
#[verifier::external_body]
fn insts_alloc(a: &mut Arena<MachineInst>, inst: MachineInst) -> (i: usize)
    ensures
        machine_insts(*final(a)) == machine_insts(*old(a)).push(inst),
        i == machine_insts(*old(a)).len(),
{
    a.alloc(inst).index()
}

/// `Arena::index`, with the identifier that this arena gives to the index
/// `i`: the instruction at `i`.
#[verifier::external_body]
fn insts_at(a: &Arena<MachineInst>, i: usize) -> (r: &MachineInst)
    requires
        i < machine_insts(*a).len(),
    ensures
        *r == machine_insts(*a)[i as int],
{
    let arena_id = DefaultArenaBehavior::<MachineInst>::arena_id(a.next_id());
    &a[DefaultArenaBehavior::<MachineInst>::new_id(arena_id, i)]
}

/// Instructions and blocks of a function.
pub struct MachineFunctionBody {
    pub inst_arena: InstructionArena,
    pub basic_blocks: MachineBasicBlocks,
}

/// A function of the target.
pub struct MachineFunction {
    /// Id
    pub id: Option<usize>,
    /// Function name
    pub name: String,
    /// Function type
    pub ty: Type,
    /// Include basic blocks and instruction arena
    pub body: MachineFunctionBody,
    /// True if internal function
    pub is_internal: bool,
    pub regs_info: RegistersInfo,
}

impl MachineOperand {
    /// The registers that the operand reads.
    pub open spec fn regs(self) -> Seq<RegisterId> {
        match self {
            MachineOperand::Register(r) => seq![r],
            MachineOperand::Mem(MachineMemOperand::Base(r)) => seq![r],
            MachineOperand::Mem(MachineMemOperand::BaseOff(r, _)) => seq![r],
            MachineOperand::Mem(MachineMemOperand::BaseFi(r, _)) => seq![r],
            _ => Seq::empty(),
        }
    }

    pub fn registers(&self) -> (r: Vec<RegisterId>)
        ensures
            r@ == self.regs(),
    {
        let mut v: Vec<RegisterId> = Vec::new();
        match self {
            MachineOperand::Register(r) => {
                v.push(*r);
            },
            MachineOperand::Mem(MachineMemOperand::Base(r)) => {
                v.push(*r);
            },
            MachineOperand::Mem(MachineMemOperand::BaseOff(r, _)) => {
                v.push(*r);
            },
            MachineOperand::Mem(MachineMemOperand::BaseFi(r, _)) => {
                v.push(*r);
            },
            _ => {},
        }
        proof {
            assert(v@ =~= self.regs());
        }
        v
    }
}

/// The registers that the operands `ops[..n]` read, in order.
pub open spec fn operand_regs(ops: Seq<MachineOperand>, n: int) -> Seq<RegisterId>
    decreases n,
{
    if n <= 0 {
        Seq::empty()
    } else {
        operand_regs(ops, n - 1) + ops[n - 1].regs()
    }
}

/// A list with the items of `v`.
pub fn copy_regs(v: &Vec<RegisterId>) -> (r: Vec<RegisterId>)
    ensures
        r@ == v@,
{
    let mut r: Vec<RegisterId> = Vec::new();
    append_regs(&mut r, v);
    proof {
        assert(r@ =~= v@);
    }
    r
}

/// Puts the items of `v` behind those of `to`.
pub fn append_regs(to: &mut Vec<RegisterId>, v: &Vec<RegisterId>)
    ensures
        final(to)@ == old(to)@ + v@,
{
    let mut i: usize = 0;
    proof {
        assert(to@ =~= old(to)@ + v@.take(0));
    }
    while i < v.len()
        invariant
            i <= v@.len(),
            to@ == old(to)@ + v@.take(i as int),
        decreases v@.len() - i,
    {
        to.push(v[i]);
        proof {
            assert(v@.take(i + 1) =~= v@.take(i as int).push(v@[i as int]));
            assert(to@ =~= old(to)@ + v@.take(i + 1));
        }
        i += 1;
    }
    proof {
        assert(v@.take(v@.len() as int) =~= v@);
    }
}

impl MachineInst {
    /// The registers that the explicit operands read, in order.
    pub open spec fn operand_uses(&self) -> Seq<RegisterId> {
        operand_regs(self.operand@, self.operand@.len() as int)
    }

    /// The registers that the instruction reads: those of its operands,
    /// then the implicit ones.
    pub open spec fn used(&self) -> Seq<RegisterId> {
        self.operand_uses() + self.imp_use@
    }

    /// The registers that the instruction writes: the explicit ones, then
    /// the implicit ones.
    pub open spec fn defined(&self) -> Seq<RegisterId> {
        self.def@ + self.imp_def@
    }

    /// Every register of the instruction is well-formed.
    pub open spec fn wf(&self) -> bool {
        &&& forall|i: int| 0 <= i < self.used().len() ==> (#[trigger] self.used()[i]).wf()
        &&& forall|i: int| 0 <= i < self.defined().len() ==> (#[trigger] self.defined()[i]).wf()
    }

    /// An instruction without registers written, placed in no arena yet.
    pub fn new_simple(opcode: MachineOpcode, operand: Vec<MachineOperand>, parent: MachineBasicBlockId) -> (r:
        Self)
        ensures
            r.id is None,
            r.opcode == opcode,
            r.operand == operand,
            r.def@.len() == 0,
            r.imp_use@.len() == 0,
            r.imp_def@.len() == 0,
            r.parent == parent,
    {
        MachineInst {
            id: None,
            opcode,
            operand,
            def: Vec::new(),
            imp_use: Vec::new(),
            imp_def: Vec::new(),
            parent,
        }
    }

    pub fn with_def(self, def: Vec<RegisterId>) -> (r: Self)
        ensures
            r.def == def,
            r.id == self.id,
            r.opcode == self.opcode,
            r.operand == self.operand,
            r.imp_use == self.imp_use,
            r.imp_def == self.imp_def,
            r.parent == self.parent,
    {
        MachineInst {
            id: self.id,
            opcode: self.opcode,
            operand: self.operand,
            def,
            imp_use: self.imp_use,
            imp_def: self.imp_def,
            parent: self.parent,
        }
    }

    pub fn with_imp_uses(self, imp_use: Vec<RegisterId>) -> (r: Self)
        ensures
            r.imp_use == imp_use,
            r.id == self.id,
            r.opcode == self.opcode,
            r.operand == self.operand,
            r.def == self.def,
            r.imp_def == self.imp_def,
            r.parent == self.parent,
    {
        MachineInst {
            id: self.id,
            opcode: self.opcode,
            operand: self.operand,
            def: self.def,
            imp_use,
            imp_def: self.imp_def,
            parent: self.parent,
        }
    }

    pub fn with_imp_defs(self, imp_def: Vec<RegisterId>) -> (r: Self)
        ensures
            r.imp_def == imp_def,
            r.id == self.id,
            r.opcode == self.opcode,
            r.operand == self.operand,
            r.def == self.def,
            r.imp_use == self.imp_use,
            r.parent == self.parent,
    {
        MachineInst {
            id: self.id,
            opcode: self.opcode,
            operand: self.operand,
            def: self.def,
            imp_use: self.imp_use,
            imp_def,
            parent: self.parent,
        }
    }

    /// The registers that the explicit operands read.
    pub fn collect_operand_regs(&self) -> (r: Vec<RegisterId>)
        ensures
            r@ == self.operand_uses(),
    {
        let mut r: Vec<RegisterId> = Vec::new();
        let mut i: usize = 0;
        while i < self.operand.len()
            invariant
                i <= self.operand@.len(),
                r@ == operand_regs(self.operand@, i as int),
            decreases self.operand@.len() - i,
        {
            let regs = self.operand[i].registers();
            append_regs(&mut r, &regs);
            i += 1;
        }
        r
    }

    pub fn collect_used_regs(&self) -> (r: Vec<RegisterId>)
        ensures
            r@ == self.used(),
    {
        let mut r = self.collect_operand_regs();
        append_regs(&mut r, &self.imp_use);
        r
    }

    pub fn collect_defined_regs(&self) -> (r: Vec<RegisterId>)
        ensures
            r@ == self.defined(),
    {
        let mut r = copy_regs(&self.def);
        append_regs(&mut r, &self.imp_def);
        r
    }
}

impl MachineBasicBlock {
    pub fn new() -> (r: Self)
        ensures
            r.pred@ == Set::<usize>::empty(),
            r.succ@ == Set::<usize>::empty(),
            r.iseq@.len() == 0,
    {
        Self { iseq: Vec::new(), pred: set_new(), succ: set_new() }
    }

    pub fn iseq_ref(&self) -> (r: &Vec<MachineInstId>)
        ensures
            *r == self.iseq,
    {
        &self.iseq
    }

    pub fn iseq_ref_mut(&mut self) -> (r: &mut Vec<MachineInstId>)
        ensures
            *r == old(self).iseq,
            final(self).iseq == *final(r),
            final(self).pred == old(self).pred,
            final(self).succ == old(self).succ,
    {
        &mut self.iseq
    }

    /// The first place of the instruction `id2find` in the block.
    pub fn find_inst_pos(&self, id2find: MachineInstId) -> (r: Option<usize>)
        ensures
            match r {
                Some(i) => i < self.iseq@.len() && self.iseq@[i as int] == id2find && forall|j: int|
                    0 <= j < i ==> self.iseq@[j] != id2find,
                None => forall|j: int| 0 <= j < self.iseq@.len() ==> self.iseq@[j] != id2find,
            },
    {
        let mut i: usize = 0;
        while i < self.iseq.len()
            invariant
                i <= self.iseq@.len(),
                forall|j: int| 0 <= j < i ==> self.iseq@[j] != id2find,
            decreases self.iseq@.len() - i,
        {
            if self.iseq[i] == id2find {
                return Some(i);
            }
            i += 1;
        }
        None
    }
}

impl InstructionArena {
    /// The instructions, by index.
    pub open spec fn insts(&self) -> Seq<MachineInst> {
        machine_insts(self.arena)
    }

    pub fn new() -> (r: Self)
        ensures
            r.insts().len() == 0,
    {
        Self { arena: insts_new() }
    }

    /// The number of instructions.
    pub fn len(&self) -> (n: usize)
        ensures
            n == self.insts().len(),
    {
        insts_len(&self.arena)
    }

    /// The instruction at `id`.
    pub fn inst(&self, id: MachineInstId) -> (r: &MachineInst)
        requires
            id < self.insts().len(),
        ensures
            *r == self.insts()[id as int],
    {
        insts_at(&self.arena, id)
    }

    /// Stores `mi` under the next free index, which the instruction gets as
    /// its identifier.
    pub fn allocate(&mut self, mi: MachineInst) -> (id: MachineInstId)
        ensures
            id == old(self).insts().len(),
            final(self).insts().len() == old(self).insts().len() + 1,
            forall|i: int| 0 <= i < old(self).insts().len() ==> final(self).insts()[i] == old(self).insts()[i],
            final(self).insts()[id as int].id == Some(id),
            final(self).insts()[id as int].opcode == mi.opcode,
            final(self).insts()[id as int].operand == mi.operand,
            final(self).insts()[id as int].def == mi.def,
            final(self).insts()[id as int].imp_use == mi.imp_use,
            final(self).insts()[id as int].imp_def == mi.imp_def,
            final(self).insts()[id as int].parent == mi.parent,
    {
        let id = insts_len(&self.arena);
        insts_alloc(
            &mut self.arena,
            MachineInst {
                id: Some(id),
                opcode: mi.opcode,
                operand: mi.operand,
                def: mi.def,
                imp_use: mi.imp_use,
                imp_def: mi.imp_def,
                parent: mi.parent,
            },
        );
        id
    }
}

impl MachineBasicBlocks {
    /// The blocks, by index.
    pub open spec fn blocks(&self) -> Seq<MachineBasicBlock> {
        machine_blocks(self.arena)
    }

    /// The number of blocks.
    pub fn len(&self) -> (n: usize)
        ensures
            n == self.blocks().len(),
    {
        blocks_len(&self.arena)
    }

    /// Stores `block` behind the blocks that are there, which stay, and
    /// returns its index.
    pub fn add_block(&mut self, block: MachineBasicBlock) -> (id: MachineBasicBlockId)
        ensures
            id == old(self).blocks().len(),
            final(self).blocks() == old(self).blocks().push(block),
            final(self).order == old(self).order,
            final(self).liveness == old(self).liveness,
    {
        blocks_alloc(&mut self.arena, block)
    }

    /// The block at `id`.
    pub fn block(&self, id: MachineBasicBlockId) -> (r: &MachineBasicBlock)
        requires
            id < self.blocks().len(),
        ensures
            *r == self.blocks()[id as int],
    {
        blocks_at(&self.arena, id)
    }

    /// Mutable access to the block at `id`; the other blocks, the order and
    /// the liveness records stay as they are.
    pub fn block_mut(&mut self, id: MachineBasicBlockId) -> (r: &mut MachineBasicBlock)
        requires
            id < old(self).blocks().len(),
        ensures
            *r == old(self).blocks()[id as int],
            final(self).blocks() == old(self).blocks().update(id as int, *final(r)),
            final(self).order == old(self).order,
            final(self).liveness == old(self).liveness,
    {
        blocks_at_mut(&mut self.arena, id)
    }

    pub fn new() -> (r: Self)
        ensures
            r.blocks().len() == 0,
            r.order@.len() == 0,
            r.liveness@.dom() == Set::<usize>::empty(),
    {
        Self { arena: blocks_new(), order: Vec::new(), liveness: map_new() }
    }
}

/// The block `z` is what joining `src` to `dst` makes of the block `b` of
/// `blocks`.
pub open spec fn merged_block(
    blocks: Seq<MachineBasicBlock>,
    z: MachineBasicBlock,
    dst: usize,
    src: usize,
    b: usize,
) -> bool {
    let gone = b == src;
    let pred = if gone {
        Set::<usize>::empty()
    } else {
        blocks[b as int].pred@
    };
    let succ = if gone {
        Set::<usize>::empty()
    } else {
        blocks[b as int].succ@
    };
    let iseq = if gone {
        Seq::<usize>::empty()
    } else {
        blocks[b as int].iseq@
    };
    &&& z.pred@ == (if blocks[src as int].succ@.contains(b) {
        pred.remove(src).insert(dst)
    } else {
        pred
    })
    &&& z.succ@ == (if b == dst {
        blocks[src as int].succ@
    } else {
        succ
    })
    &&& z.iseq@ == (if b == dst {
        iseq + blocks[src as int].iseq@
    } else {
        iseq
    })
}

/// The record `z` is the record `a` with the record `b` merged into it.
pub open spec fn merged_record(a: LivenessInfo, b: LivenessInfo, z: LivenessInfo) -> bool {
    &&& exists|order: Seq<usize>|
        order.no_duplicates() && order.to_set() == b.def@ && z.def@ == added_all(
            a.def@,
            order,
            order.len() as int,
        )
    &&& exists|order: Seq<usize>|
        order.no_duplicates() && order.to_set() == b.live_in@ && z.live_in@ == added_all(
            a.live_in@,
            order,
            order.len() as int,
        )
    &&& exists|order: Seq<usize>|
        order.no_duplicates() && order.to_set() == b.live_out@ && z.live_out@ == added_all(
            a.live_out@,
            order,
            order.len() as int,
        )
    &&& z.has_call == (a.has_call || b.has_call)
    &&& z.phys_def@ == a.phys_def@.union(b.phys_def@)
}

/// A list with the items of `v`.
fn copy_insts(v: &Vec<usize>) -> (r: Vec<usize>)
    ensures
        r@ == v@,
{
    let mut r: Vec<usize> = Vec::new();
    append_insts(&mut r, v);
    proof {
        assert(r@ =~= v@);
    }
    r
}

/// Puts the items of `v` behind those of `to`.
fn append_insts(to: &mut Vec<usize>, v: &Vec<usize>)
    ensures
        final(to)@ == old(to)@ + v@,
{
    let mut i: usize = 0;
    proof {
        assert(to@ =~= old(to)@ + v@.take(0));
    }
    while i < v.len()
        invariant
            i <= v@.len(),
            to@ == old(to)@ + v@.take(i as int),
        decreases v@.len() - i,
    {
        to.push(v[i]);
        proof {
            assert(v@.take(i + 1) =~= v@.take(i as int).push(v@[i as int]));
            assert(to@ =~= old(to)@ + v@.take(i + 1));
        }
        i += 1;
    }
    proof {
        assert(v@.take(v@.len() as int) =~= v@);
    }
}

/// The items of `v` other than `x`, in order.
fn without(v: &Vec<usize>, x: usize) -> (r: Vec<usize>)
    ensures
        r@ == v@.filter(|b: usize| b != x),
{
    let mut r: Vec<usize> = Vec::new();
    let mut i: usize = 0;
    proof {
        assert(v@.take(0).filter(|b: usize| b != x) =~= Seq::<usize>::empty());
    }
    while i < v.len()
        invariant
            i <= v@.len(),
            r@ == v@.take(i as int).filter(|b: usize| b != x),
        decreases v@.len() - i,
    {
        proof {
            assert(v@.take(i + 1) =~= v@.take(i as int).push(v@[i as int]));
            assert(v@.take(i + 1).drop_last() =~= v@.take(i as int));
            reveal(Seq::filter);
        }
        if v[i] != x {
            r.push(v[i]);
        }
        i += 1;
    }
    proof {
        assert(v@.take(v@.len() as int) =~= v@);
    }
    r
}

/// `pos` is the first place at which `iseq` holds `id`.
pub open spec fn is_first_place(iseq: Seq<usize>, id: usize, pos: int) -> bool {
    &&& 0 <= pos < iseq.len()
    &&& iseq[pos] == id
    &&& forall|j: int| 0 <= j < pos ==> iseq[j] != id
}

/// The register files that the blocks at the first `n` places of `order`
/// write.
pub open spec fn phys_defs_upto(
    order: Seq<usize>,
    liveness: Map<usize, LivenessInfo>,
    n: int,
) -> Set<usize>
    decreases n,
{
    if n <= 0 {
        Set::empty()
    } else {
        phys_defs_upto(order, liveness, n - 1).union(liveness[order[n - 1]].phys_def@)
    }
}

/// One of the blocks at the first `n` places of `order` calls.
pub open spec fn any_call_upto(order: Seq<usize>, liveness: Map<usize, LivenessInfo>, n: int) -> bool
    decreases n,
{
    if n <= 0 {
        false
    } else {
        any_call_upto(order, liveness, n - 1) || liveness[order[n - 1]].has_call
    }
}

impl MachineBasicBlocks {
    /// Every block of the order has a liveness record.
    pub open spec fn recorded(&self) -> bool {
        forall|k: int| 0 <= k < self.order@.len() ==> self.liveness@.contains_key(#[trigger] self.order@[k])
    }

    /// The register files that the blocks of the order write.
    pub fn get_def_phys_regs(&self) -> (r: FxHashSet<usize>)
        requires
            self.recorded(),
        ensures
            r@ == phys_defs_upto(self.order@, self.liveness@, self.order@.len() as int),
    {
        let mut set = set_new();
        let mut k: usize = 0;
        proof {
            assert(set@ =~= phys_defs_upto(self.order@, self.liveness@, 0));
        }
        while k < self.order.len()
            invariant
                self.recorded(),
                k <= self.order@.len(),
                set@ == phys_defs_upto(self.order@, self.liveness@, k as int),
            decreases self.order@.len() - k,
        {
            let info = map_get(&self.liveness, self.order[k]).unwrap();
            unite_set(&mut set, &info.phys_def);
            k += 1;
        }
        set
    }

    /// Joins the block `src` to the block `dst`: `dst` gets the successors
    /// of `src` and, behind its own, the instructions of `src`; each successor
    /// of `src` has `dst` as a predecessor in place of `src`; the liveness
    /// record of `src` is merged into that of `dst`; and `src` leaves the
    /// order, empty.
    pub fn merge(&mut self, dst: &MachineBasicBlockId, src: &MachineBasicBlockId)
        requires
            *dst < old(self).blocks().len(),
            *src < old(self).blocks().len(),
            old(self).liveness@.contains_key(*dst),
            old(self).liveness@.contains_key(*src),
            forall|x: usize|
                old(self).blocks()[*src as int].succ@.contains(x) ==> x < old(self).blocks().len(),
        ensures
            final(self).blocks().len() == old(self).blocks().len(),
            forall|b: int|
                0 <= b < old(self).blocks().len() ==> merged_block(
                    old(self).blocks(),
                    #[trigger] final(self).blocks()[b],
                    *dst,
                    *src,
                    b as usize,
                ),
            final(self).order@ == old(self).order@.filter(|b: usize| b != *src),
            final(self).liveness@.dom() == old(self).liveness@.dom(),
            forall|b: usize|
                b != *dst && old(self).liveness@.contains_key(b) ==> #[trigger] final(self).liveness@[b] == old(self).liveness@[b],
            merged_record(
                old(self).liveness@[*dst],
                old(self).liveness@[*src],
                final(self).liveness@[*dst],
            ),
    {
        let ghost blocks = self.blocks();
        let n = blocks_len(&self.arena);
        let src_succ = copy_set(&blocks_at(&self.arena, *src).succ);
        let src_iseq = copy_insts(&blocks_at(&self.arena, *src).iseq);
        let emptied = blocks_at_mut(&mut self.arena, *src);
        *emptied = MachineBasicBlock::new();
        let succs = set_elements(&src_succ);
        let mut i: usize = 0;
        while i < succs.len()
            invariant
                n == blocks.len(),
                self.blocks().len() == n,
                *src < n,
                *dst < n,
                succs@.no_duplicates(),
                succs@.to_set() == src_succ@,
                src_succ@ == blocks[*src as int].succ@,
                forall|x: usize| src_succ@.contains(x) ==> x < n,
                i <= succs@.len(),
                self.order == old(self).order,
                self.liveness == old(self).liveness,
                forall|b: int|
                    0 <= b < n ==> {
                        let base_pred = if b == *src {
                            Set::<usize>::empty()
                        } else {
                            blocks[b].pred@
                        };
                        let z = #[trigger] self.blocks()[b];
                        &&& z.pred@ == (if succs@.take(i as int).contains(b as usize) {
                            base_pred.remove(*src).insert(*dst)
                        } else {
                            base_pred
                        })
                        &&& z.succ@ == (if b == *src {
                            Set::<usize>::empty()
                        } else {
                            blocks[b].succ@
                        })
                        &&& z.iseq@ == (if b == *src {
                            Seq::<usize>::empty()
                        } else {
                            blocks[b].iseq@
                        })
                    },
            decreases succs@.len() - i,
        {
            let x = succs[i];
            proof {
                assert(succs@.to_set().contains(x));
            }
            let ghost before = self.blocks();
            let block = blocks_at_mut(&mut self.arena, x);
            set_remove(&mut block.pred, *src);
            set_insert(&mut block.pred, *dst);
            proof {
                let a = succs@.take(i as int);
                let c = succs@.take(i + 1);
                assert(c =~= a.push(x));
                assert(!a.contains(x)) by {
                    if a.contains(x) {
                        let j = choose|j: int| 0 <= j < a.len() && a[j] == x;
                        assert(succs@[j] == succs@[i as int]);
                    }
                }
                assert forall|b: int| 0 <= b < n implies {
                    let base_pred = if b == *src {
                        Set::<usize>::empty()
                    } else {
                        blocks[b].pred@
                    };
                    let z = #[trigger] self.blocks()[b];
                    &&& z.pred@ == (if c.contains(b as usize) {
                        base_pred.remove(*src).insert(*dst)
                    } else {
                        base_pred
                    })
                    &&& z.succ@ == (if b == *src {
                        Set::<usize>::empty()
                    } else {
                        blocks[b].succ@
                    })
                    &&& z.iseq@ == (if b == *src {
                        Seq::<usize>::empty()
                    } else {
                        blocks[b].iseq@
                    })
                } by {
                    let y = before[b];
                    assert(c[i as int] == x);
                    if a.contains(b as usize) {
                        let j = choose|j: int| 0 <= j < a.len() && a[j] == b as usize;
                        assert(c[j] == b as usize);
                    }
                    if c.contains(b as usize) && b != x {
                        let j = choose|j: int| 0 <= j < c.len() && c[j] == b as usize;
                        assert(a[j] == b as usize);
                    }
                }
            }
            i += 1;
        }
        let ghost wired = self.blocks();
        let dst_block = blocks_at_mut(&mut self.arena, *dst);
        dst_block.succ = src_succ;
        append_insts(&mut dst_block.iseq, &src_iseq);
        let src_liveness = map_get(&self.liveness, *src).unwrap().duplicate();
        let ghost rec0 = self.liveness@[*dst];
        let record = map_get_mut(&mut self.liveness, *dst);
        record.merge(src_liveness);
        let kept = without(&self.order, *src);
        self.order = kept;
        proof {
            assert(succs@.take(succs@.len() as int) =~= succs@);
            assert(final(self).liveness@.dom() =~= old(self).liveness@.dom());
            assert forall|b: int| 0 <= b < n implies merged_block(
                blocks,
                #[trigger] final(self).blocks()[b],
                *dst,
                *src,
                b as usize,
            ) by {
                let y = wired[b];
                assert(succs@.contains(b as usize) == blocks[*src as int].succ@.contains(b as usize)) by {
                    if succs@.contains(b as usize) {
                        assert(succs@.to_set().contains(b as usize));
                    }
                    if blocks[*src as int].succ@.contains(b as usize) {
                        assert(succs@.to_set().contains(b as usize));
                    }
                }
                if b == *src {
                    assert(Seq::<usize>::empty() + blocks[*src as int].iseq@
                        =~= blocks[*src as int].iseq@);
                }
            }
        }
    }

    /// Takes the register `r` out of the record of every block of the
    /// order.
    pub fn remove_reg_from_live_info(&mut self, r: &RegisterId)
        requires
            old(self).recorded(),
            r.wf(),
        ensures
            final(self).arena == old(self).arena,
            final(self).order == old(self).order,
            final(self).liveness@.dom() == old(self).liveness@.dom(),
            forall|b: usize|
                old(self).liveness@.contains_key(b) ==> {
                    let a = old(self).liveness@[b];
                    let z = (#[trigger] final(self).liveness@[b]);
                    if old(self).order@.contains(b) {
                        z.def@ == a.def@.remove(r.code() as usize) && z.live_in@ == a.live_in@.remove(
                            r.code() as usize,
                        ) && z.live_out@ == a.live_out@.remove(r.code() as usize) && z.phys_def@
                            == a.phys_def@ && z.has_call == a.has_call
                    } else {
                        z == a
                    }
                },
    {
        let code = r.to_code();
        let mut k: usize = 0;
        while k < self.order.len()
            invariant
                self.arena == old(self).arena,
                self.order == old(self).order,
                code == r.code(),
                k <= self.order@.len(),
                self.liveness@.dom() == old(self).liveness@.dom(),
                old(self).recorded(),
                forall|b: usize|
                    old(self).liveness@.contains_key(b) ==> {
                        let a = old(self).liveness@[b];
                        let z = (#[trigger] self.liveness@[b]);
                        if self.order@.take(k as int).contains(b) {
                            z.def@ == a.def@.remove(code) && z.live_in@ == a.live_in@.remove(code)
                                && z.live_out@ == a.live_out@.remove(code) && z.phys_def@
                                == a.phys_def@ && z.has_call == a.has_call
                        } else {
                            z == a
                        }
                    },
            decreases self.order@.len() - k,
        {
            let id = self.order[k];
            let ghost before = self.liveness@;
            proof {
                assert(old(self).liveness@.contains_key(old(self).order@[k as int]));
            }
            let info = map_get_mut(&mut self.liveness, id);
            set_remove(&mut info.def, code);
            set_remove(&mut info.live_in, code);
            set_remove(&mut info.live_out, code);
            proof {
                let a = self.order@.take(k as int);
                let c = self.order@.take(k + 1);
                assert(c =~= a.push(id));
                assert(self.liveness@.dom() =~= old(self).liveness@.dom());
                assert forall|b: usize| old(self).liveness@.contains_key(b) implies {
                    let x = old(self).liveness@[b];
                    let z = (#[trigger] self.liveness@[b]);
                    if c.contains(b) {
                        z.def@ == x.def@.remove(code) && z.live_in@ == x.live_in@.remove(code)
                            && z.live_out@ == x.live_out@.remove(code) && z.phys_def@
                            == x.phys_def@ && z.has_call == x.has_call
                    } else {
                        z == x
                    }
                } by {
                    let x = old(self).liveness@[b];
                    let y = before[b];
                    if a.contains(b) {
                        let j = choose|j: int| 0 <= j < a.len() && a[j] == b;
                        assert(c[j] == b);
                    }
                    if c.contains(b) && b != id {
                        let j = choose|j: int| 0 <= j < c.len() && c[j] == b;
                        assert(a[j] == b);
                    }
                    assert(c[k as int] == id);
                    if b == id {
                        assert(y.def@.remove(code) =~= x.def@.remove(code));
                        assert(y.live_in@.remove(code) =~= x.live_in@.remove(code));
                        assert(y.live_out@.remove(code) =~= x.live_out@.remove(code));
                    }
                }
            }
            k += 1;
        }
        proof {
            assert(self.order@.take(self.order@.len() as int) =~= self.order@);
        }
    }
}

impl MachineFunctionBody {
    /// One of the blocks of the order calls.
    pub fn has_call(&self) -> (r: bool)
        requires
            self.basic_blocks.recorded(),
        ensures
            r == any_call_upto(
                self.basic_blocks.order@,
                self.basic_blocks.liveness@,
                self.basic_blocks.order@.len() as int,
            ),
    {
        let mut k: usize = 0;
        while k < self.basic_blocks.order.len()
            invariant
                self.basic_blocks.recorded(),
                k <= self.basic_blocks.order@.len(),
                !any_call_upto(self.basic_blocks.order@, self.basic_blocks.liveness@, k as int),
            decreases self.basic_blocks.order@.len() - k,
        {
            let info = map_get(&self.basic_blocks.liveness, self.basic_blocks.order[k]).unwrap();
            if info.has_call {
                proof {
                    lemma_call_stays(
                        self.basic_blocks.order@,
                        self.basic_blocks.liveness@,
                        k + 1,
                        self.basic_blocks.order@.len() as int,
                    );
                }
                return true;
            }
            k += 1;
        }
        false
    }

    /// The register files that the blocks of the order write.
    pub fn appeared_phys_regs(&self) -> (r: FxHashSet<usize>)
        requires
            self.basic_blocks.recorded(),
        ensures
            r@ == phys_defs_upto(
                self.basic_blocks.order@,
                self.basic_blocks.liveness@,
                self.basic_blocks.order@.len() as int,
            ),
    {
        self.basic_blocks.get_def_phys_regs()
    }
}

proof fn lemma_call_stays(order: Seq<usize>, liveness: Map<usize, LivenessInfo>, n: int, m: int)
    requires
        n <= m,
        any_call_upto(order, liveness, n),
    ensures
        any_call_upto(order, liveness, m),
    decreases m - n,
{
    if n < m {
        lemma_call_stays(order, liveness, n + 1, m);
    }
}

impl MachineFunctionBody {
    /// The body is consistent: the order names blocks, the blocks name
    /// instructions and blocks, and every register is well-formed.
    pub open spec fn wf(&self) -> bool {
        &&& forall|i: int|
            0 <= i < self.basic_blocks.order@.len() ==> (#[trigger] self.basic_blocks.order@[i])
                < self.basic_blocks.blocks().len()
        &&& forall|b: int, p: usize|
            0 <= b < self.basic_blocks.blocks().len() && (
            #[trigger] self.basic_blocks.blocks()[b].pred@.contains(p)) ==> p
                < self.basic_blocks.blocks().len()
        &&& forall|b: int, i: int|
            0 <= b < self.basic_blocks.blocks().len() && 0 <= i
                < self.basic_blocks.blocks()[b].iseq@.len() ==> (
            #[trigger] self.basic_blocks.blocks()[b].iseq@[i]) < self.inst_arena.insts().len()
        &&& forall|i: int|
            0 <= i < self.inst_arena.insts().len() ==> (#[trigger] self.inst_arena.insts()[i]).wf()
    }
}

impl MachineFunction {
    /// A function with the body made of `basic_blocks` and `inst_arena`.
    pub fn new(
        name: String,
        ty: Type,
        is_internal: bool,
        regs_info: RegistersInfo,
        basic_blocks: MachineBasicBlocks,
        inst_arena: InstructionArena,
    ) -> (r: Self)
        ensures
            r.id is None,
            r.name == name,
            r.ty == ty,
            r.is_internal == is_internal,
            r.regs_info == regs_info,
            r.body.basic_blocks == basic_blocks,
            r.body.inst_arena == inst_arena,
    {
        Self {
            id: None,
            is_internal,
            name,
            ty,
            body: MachineFunctionBody { inst_arena, basic_blocks },
            regs_info,
        }
    }

    /// Takes the instruction `inst_id` out of its block, at the first place
    /// at which the block holds it, and off the record of every register that
    /// it reads or writes.
    pub fn remove_inst(&mut self, inst_id: MachineInstId)
        requires
            inst_id < old(self).body.inst_arena.insts().len(),
            old(self).regs_info.wf(),
            old(self).regs_info.knows_all(old(self).body.inst_arena.insts()[inst_id as int].used()),
            old(self).regs_info.knows_all(old(self).body.inst_arena.insts()[inst_id as int].defined()),
            old(self).body.inst_arena.insts()[inst_id as int].parent < old(self).body.basic_blocks.blocks().len(),
            old(self).body.basic_blocks.blocks()[old(self).body.inst_arena.insts()[inst_id as int].parent as int].iseq@.contains(
                inst_id,
            ),
        ensures
            final(self).body.inst_arena == old(self).body.inst_arena,
            final(self).body.basic_blocks.order == old(self).body.basic_blocks.order,
            final(self).body.basic_blocks.liveness == old(self).body.basic_blocks.liveness,
            final(self).body.basic_blocks.blocks().len() == old(self).body.basic_blocks.blocks().len(),
            forall|b: int|
                0 <= b < old(self).body.basic_blocks.blocks().len() && b != old(self).body.inst_arena.insts()[inst_id as int].parent ==> #[trigger] final(self).body.basic_blocks.blocks()[b] == old(self).body.basic_blocks.blocks()[b],
            ({
                let bb = old(self).body.inst_arena.insts()[inst_id as int].parent as int;
                let iseq = old(self).body.basic_blocks.blocks()[bb].iseq@;
                &&& exists|pos: int|
                    is_first_place(iseq, inst_id, pos) && final(self).body.basic_blocks.blocks()[bb].iseq@
                        == iseq.remove(pos)
                &&& final(self).body.basic_blocks.blocks()[bb].pred == old(self).body.basic_blocks.blocks()[bb].pred
                &&& final(self).body.basic_blocks.blocks()[bb].succ == old(self).body.basic_blocks.blocks()[bb].succ
            }),
            final(self).regs_info.wf(),
            final(self).regs_info.virt_classes == old(self).regs_info.virt_classes,
            ({
                let inst = old(self).body.inst_arena.insts()[inst_id as int];
                &&& forall|c: int|
                    0 <= c < old(self).regs_info.uses@.len() ==> (#[trigger] final(self).regs_info.uses@[c])@
                        == (if names(inst.used(), inst.used().len() as int, c) {
                        old(self).regs_info.uses@[c]@.remove(inst_id)
                    } else {
                        old(self).regs_info.uses@[c]@
                    })
                &&& forall|c: int|
                    0 <= c < old(self).regs_info.defs@.len() ==> (#[trigger] final(self).regs_info.defs@[c])@
                        == (if names(inst.defined(), inst.defined().len() as int, c) {
                        old(self).regs_info.defs@[c]@.remove(inst_id)
                    } else {
                        old(self).regs_info.defs@[c]@
                    })
            }),
    {
        let defined = self.body.inst_arena.inst(inst_id).collect_defined_regs();
        let used = self.body.inst_arena.inst(inst_id).collect_used_regs();
        self.regs_info.record(&defined, inst_id, false, false);
        self.regs_info.record(&used, inst_id, true, false);
        let found = self.find_inst_pos(inst_id);
        let ghost bb0 = self.body.inst_arena.insts()[inst_id as int].parent as int;
        let ghost iseq0 = self.body.basic_blocks.blocks()[bb0].iseq@;
        proof {
            let w = choose|w: int| 0 <= w < iseq0.len() && iseq0[w] == inst_id;
            assert(iseq0[w] == inst_id);
        }
        let (bb_id, pos) = found.unwrap();
        proof {
            assert(is_first_place(iseq0, inst_id, pos as int));
        }
        let block = self.body.basic_blocks.block_mut(bb_id);
        block.iseq.remove(pos);
    }

    pub fn is_empty(&self) -> (r: bool)
        ensures
            r == (self.body.basic_blocks.order@.len() == 0),
    {
        self.body.basic_blocks.order.len() == 0
    }

    /// Stores `inst` behind the instructions of the function, which stay,
    /// gives it the next free index as its identifier, and puts it on record
    /// for every register that it reads or writes. Nothing else of the function
    /// changes.
    pub fn alloc_inst(&mut self, inst: MachineInst) -> (id: MachineInstId)
        requires
            old(self).regs_info.wf(),
            old(self).regs_info.knows_all(inst.used()),
            old(self).regs_info.knows_all(inst.defined()),
        ensures
            id == old(self).body.inst_arena.insts().len(),
            final(self).body.inst_arena.insts().len() == old(self).body.inst_arena.insts().len() + 1,
            forall|i: int|
                0 <= i < old(self).body.inst_arena.insts().len() ==> final(self).body.inst_arena.insts()[i]
                    == old(self).body.inst_arena.insts()[i],
            final(self).body.inst_arena.insts()[id as int].id == Some(id),
            final(self).body.inst_arena.insts()[id as int].opcode == inst.opcode,
            final(self).body.inst_arena.insts()[id as int].operand == inst.operand,
            final(self).body.inst_arena.insts()[id as int].def == inst.def,
            final(self).body.inst_arena.insts()[id as int].imp_use == inst.imp_use,
            final(self).body.inst_arena.insts()[id as int].imp_def == inst.imp_def,
            final(self).body.inst_arena.insts()[id as int].parent == inst.parent,
            final(self).body.basic_blocks == old(self).body.basic_blocks,
            final(self).id == old(self).id,
            final(self).name == old(self).name,
            final(self).ty == old(self).ty,
            final(self).is_internal == old(self).is_internal,
            final(self).regs_info.wf(),
            final(self).regs_info.virt_classes == old(self).regs_info.virt_classes,
            forall|c: int|
                0 <= c < old(self).regs_info.uses@.len() ==> (#[trigger] final(self).regs_info.uses@[c])@
                    == (if names(inst.used(), inst.used().len() as int, c) {
                    old(self).regs_info.uses@[c]@.insert(id)
                } else {
                    old(self).regs_info.uses@[c]@
                }),
            forall|c: int|
                0 <= c < old(self).regs_info.defs@.len() ==> (#[trigger] final(self).regs_info.defs@[c])@
                    == (if names(inst.defined(), inst.defined().len() as int, c) {
                    old(self).regs_info.defs@[c]@.insert(id)
                } else {
                    old(self).regs_info.defs@[c]@
                }),
    {
        let used = inst.collect_used_regs();
        let defined = inst.collect_defined_regs();
        let id = self.body.inst_arena.allocate(inst);
        self.regs_info.record(&used, id, true, true);
        self.regs_info.record(&defined, id, false, true);
        id
    }

    /// The block of the instruction `inst_id` and its place in the block.
    pub fn find_inst_pos(&self, inst_id: MachineInstId) -> (r: Option<(MachineBasicBlockId, usize)>)
        requires
            inst_id < self.body.inst_arena.insts().len(),
            self.body.inst_arena.insts()[inst_id as int].parent < self.body.basic_blocks.blocks().len(),
        ensures
            match r {
                Some((bb, pos)) => {
                    let iseq = self.body.basic_blocks.blocks()[bb as int].iseq@;
                    bb == self.body.inst_arena.insts()[inst_id as int].parent && pos < iseq.len()
                        && iseq[pos as int] == inst_id && forall|j: int|
                        0 <= j < pos ==> iseq[j] != inst_id
                },
                None => {
                    let bb = self.body.inst_arena.insts()[inst_id as int].parent;
                    let iseq = self.body.basic_blocks.blocks()[bb as int].iseq@;
                    forall|j: int| 0 <= j < iseq.len() ==> iseq[j] != inst_id
                },
            },
    {
        let parent = self.body.inst_arena.inst(inst_id).parent;
        match self.body.basic_blocks.block(parent).find_inst_pos(inst_id) {
            Some(pos) => Some((parent, pos)),
            None => None,
        }
    }

    pub fn get_entry_bb(&self) -> (r: Option<MachineBasicBlockId>)
        ensures
            r == (if self.body.basic_blocks.order@.len() > 0 {
                Some(self.body.basic_blocks.order@[0])
            } else {
                None
            }),
    {
        if self.body.basic_blocks.order.len() > 0 {
            Some(self.body.basic_blocks.order[0])
        } else {
            None
        }
    }
}

} // verus!
