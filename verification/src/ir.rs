//! The intermediate representation as far as the passes of this crate
//! read it: instructions with their operands and users, basic blocks, and
//! functions.

use crate::fx::{map_new, set_new};
use crate::liveness_info::unite_set;
use crate::types::Type;
use rustc_hash::{FxHashMap, FxHashSet};
use id_arena::{Arena, ArenaBehavior, DefaultArenaBehavior};
use vstd::prelude::*;

verus! {

/// Index of an instruction in the instruction table of its function.
pub type InstructionId = usize;

/// Index of a basic block in the block arena of its function.
pub type BasicBlockId = usize;

/// Operation of an instruction.
#[derive(Clone, Copy, Debug, PartialEq, Eq, Hash, Structural)]
pub enum Opcode {
    Alloca,
    Load,
    Store,
    GetElementPtr,
    Add,
    Sub,
    Mul,
    Div,
    Rem,
    Shl,
    ICmp,
    Sext,
    Bitcast,
    Phi,
    Call,
    Br,
    CondBr,
    Ret,
}

/// The value of an instruction.
#[derive(Clone, Copy, Debug, PartialEq, Eq, Hash, Structural)]
pub struct InstructionValue {
    pub id: InstructionId,
    pub ty: Type,
}

/// A value that an instruction reads.
#[derive(Clone, Copy, Debug, PartialEq, Eq, Hash, Structural)]
pub enum Value {
    Instruction(InstructionValue),
    Argument(usize),
    Immediate(i64),
    Absent,
}

/// An operand of an instruction.
#[derive(Clone, Copy, Debug, PartialEq, Eq, Hash, Structural)]
pub enum Operand {
    Value(Value),
    BasicBlock(BasicBlockId),
    Type(Type),
}

/// The values that an instruction reads, where it holds them as a list of
/// values of their own.
#[derive(Clone, Debug)]
pub enum InstOperand {
    Args(Vec<Value>),
    Absent,
}

/// An instruction.
#[derive(Clone, Debug)]
pub struct Instruction {
    pub opcode: Opcode,
    pub operand: InstOperand,
    pub operands: Vec<Operand>,
    pub ty: Type,
    pub id: Option<InstructionId>,
    pub users: Vec<InstructionId>,
    pub parent: BasicBlockId,
}

/// A basic block.
pub struct BasicBlock {
    /// Predecessors
    pub pred: FxHashSet<BasicBlockId>,
    /// Successors
    pub succ: FxHashSet<BasicBlockId>,
    /// Instruction list
    pub iseq: Vec<InstructionId>,
}

/// Liveness of one basic block, by instruction.
pub struct LivenessInfo {
    /// Set of instructions executed in a basic block
    pub def: FxHashSet<InstructionId>,
    /// Set of live-in instructions
    pub live_in: FxHashSet<InstructionId>,
    /// Set of live-out instructions
    pub live_out: FxHashSet<InstructionId>,
}

/// The blocks that an arena holds, by index.
pub uninterp spec fn ir_blocks(arena: Arena<BasicBlock>) -> Seq<BasicBlock>;

/// `Arena::new`: an arena without blocks.
#[verifier::external_body]
fn ir_blocks_new() -> (a: Arena<BasicBlock>)
    ensures
        ir_blocks(a).len() == 0,
{
    Arena::new()
}

/// `Arena::index`, with the identifier that this arena gives to the index
/// `i`: the block at `i`.
#[verifier::external_body]
pub(crate) fn ir_block_at(a: &Arena<BasicBlock>, i: usize) -> (r: &BasicBlock)
    requires
        i < ir_blocks(*a).len(),
    ensures
        *r == ir_blocks(*a)[i as int],
{
    let arena_id = DefaultArenaBehavior::<BasicBlock>::arena_id(a.next_id());
    &a[DefaultArenaBehavior::<BasicBlock>::new_id(arena_id, i)]
}

/// `Arena::index_mut`, with the identifier that this arena gives to the
/// index `i`: mutable access to the block at `i`. What is written through it
/// is the block at `i` afterwards, and the other blocks stay as they are.
#[verifier::external_body]
fn ir_block_at_mut(a: &mut Arena<BasicBlock>, i: usize) -> (r: &mut BasicBlock)
    requires
        i < ir_blocks(*old(a)).len(),
    ensures
        *r == ir_blocks(*old(a))[i as int],
        ir_blocks(*final(a)) == ir_blocks(*old(a)).update(i as int, *final(r)),
{
    let arena_id = DefaultArenaBehavior::<BasicBlock>::arena_id(a.next_id());
    &mut a[DefaultArenaBehavior::<BasicBlock>::new_id(arena_id, i)]
}

/// The basic blocks of a function: the blocks by index, their order, and
/// the liveness record of each.
pub struct BasicBlocks {
    /// Arena for Basic Block
    pub arena: Arena<BasicBlock>,
    /// Ordering of Basic Block
    pub order: Vec<BasicBlockId>,
    /// Liveness information
    pub liveness: FxHashMap<BasicBlockId, LivenessInfo>,
}

/// A function.
pub struct Function {
    pub name: String,
    pub basic_blocks: BasicBlocks,
    pub inst_table: Vec<Instruction>,
    pub is_internal: bool,
}

/// The functions of a module.
pub struct Module {
    pub functions: Vec<Function>,
}

impl Opcode {
    /// The instruction ends a block.
    pub open spec fn terminator(self) -> bool {
        self == Opcode::Br || self == Opcode::CondBr || self == Opcode::Ret
    }

    pub fn is_terminator(&self) -> (r: bool)
        ensures
            r == self.terminator(),
    {
        match self {
            Opcode::Br => true,
            Opcode::CondBr => true,
            Opcode::Ret => true,
            _ => false,
        }
    }
}

/// The instructions among the first `n` values of `vs`, in order.
pub open spec fn value_insts(vs: Seq<Value>, n: int) -> Seq<InstructionId>
    decreases n,
{
    if n <= 0 {
        Seq::empty()
    } else {
        match vs[n - 1] {
            Value::Instruction(v) => value_insts(vs, n - 1).push(v.id),
            _ => value_insts(vs, n - 1),
        }
    }
}

/// The instructions among the first `n` operands of `ops`, in order.
pub open spec fn operand_insts(ops: Seq<Operand>, n: int) -> Seq<InstructionId>
    decreases n,
{
    if n <= 0 {
        Seq::empty()
    } else {
        match ops[n - 1] {
            Operand::Value(Value::Instruction(v)) => operand_insts(ops, n - 1).push(v.id),
            _ => operand_insts(ops, n - 1),
        }
    }
}

impl Instruction {
    /// The instructions whose values this instruction reads, in order: those
    /// of its list of values where it has one, those of its operands
    /// otherwise.
    pub open spec fn reads(&self) -> Seq<InstructionId> {
        match self.operand {
            InstOperand::Args(vs) => value_insts(vs@, vs@.len() as int),
            InstOperand::Absent => operand_insts(self.operands@, self.operands@.len() as int),
        }
    }
}

impl BasicBlock {
    /// Creates an empty BasicBlock
    pub fn new() -> (r: Self)
        ensures
            r.pred@ == Set::<usize>::empty(),
            r.succ@ == Set::<usize>::empty(),
            r.iseq@.len() == 0,
    {
        Self { iseq: Vec::new(), pred: set_new(), succ: set_new() }
    }

    /// Get a reference to basicblock's instructions.
    pub fn iseq_ref(&self) -> (r: &Vec<InstructionId>)
        ensures
            *r == self.iseq,
    {
        &self.iseq
    }

    /// Get a mutable reference to basicblock's instructions.
    pub fn iseq_ref_mut(&mut self) -> (r: &mut Vec<InstructionId>)
        ensures
            *r == old(self).iseq,
            final(self).iseq == *final(r),
            final(self).pred == old(self).pred,
            final(self).succ == old(self).succ,
    {
        &mut self.iseq
    }

    /// Try to find a position of given instruction in the vector of
    /// instructions that receiver has.
    pub fn find_inst_pos(&self, id2find: InstructionId) -> (r: Option<usize>)
        ensures
            match r {
                Some(i) => crate::machine::is_first_place(self.iseq@, id2find, i as int),
                None => !self.iseq@.contains(id2find),
            },
    {
        let mut i: usize = 0;
        while i < self.iseq.len()
            invariant
                i <= self.iseq@.len(),
                forall|j: int| 0 <= j < i ==> self.iseq@[j] != id2find,
            decreases self.iseq@.len() - i,
        {
            if self.iseq[i] == id2find {
                return Some(i);
            }
            i += 1;
        }
        None
    }
}

impl LivenessInfo {
    /// Creates an empty LivenessInfo
    pub fn new() -> (r: Self)
        ensures
            r.def@ == Set::<usize>::empty(),
            r.live_in@ == Set::<usize>::empty(),
            r.live_out@ == Set::<usize>::empty(),
    {
        Self { def: set_new(), live_in: set_new(), live_out: set_new() }
    }

    /// Merge src into self
    pub fn merge(&mut self, src: LivenessInfo)
        ensures
            final(self).def@ == old(self).def@.union(src.def@),
            final(self).live_in@ == old(self).live_in@.union(src.live_in@),
            final(self).live_out@ == old(self).live_out@.union(src.live_out@),
    {
        unite_set(&mut self.def, &src.def);
        unite_set(&mut self.live_in, &src.live_in);
        unite_set(&mut self.live_out, &src.live_out);
    }
}

impl BasicBlocks {
    /// The blocks, by index.
    pub open spec fn blocks(&self) -> Seq<BasicBlock> {
        ir_blocks(self.arena)
    }

    /// Creates an empty BasicBlocks.
    pub fn new() -> (r: Self)
        ensures
            r.blocks().len() == 0,
            r.order@.len() == 0,
            r.liveness@.dom() == Set::<usize>::empty(),
    {
        Self { arena: ir_blocks_new(), order: Vec::new(), liveness: map_new() }
    }
}

impl Function {
    pub fn is_empty(&self) -> (r: bool)
        ensures
            r == (self.basic_blocks.order@.len() == 0),
    {
        self.basic_blocks.order.len() == 0
    }

    /// Takes the instruction `inst_id` out of its block, at the first place
    /// at which the block holds it. The instruction stays in the table, and
    /// the users of the instructions that it reads stay as they are.
    pub fn remove_inst(&mut self, inst_id: InstructionId)
        requires
            inst_id < old(self).inst_table@.len(),
            old(self).inst_table@[inst_id as int].parent < old(self).basic_blocks.blocks().len(),
            old(self).basic_blocks.blocks()[old(self).inst_table@[inst_id as int].parent as int].iseq@.contains(
                inst_id,
            ),
        ensures
            final(self).inst_table == old(self).inst_table,
            final(self).name == old(self).name,
            final(self).is_internal == old(self).is_internal,
            final(self).basic_blocks.order == old(self).basic_blocks.order,
            final(self).basic_blocks.liveness == old(self).basic_blocks.liveness,
            final(self).basic_blocks.blocks().len() == old(self).basic_blocks.blocks().len(),
            forall|b: int|
                0 <= b < old(self).basic_blocks.blocks().len() && b != old(self).inst_table@[inst_id as int].parent ==> #[trigger] final(self).basic_blocks.blocks()[b] == old(self).basic_blocks.blocks()[b],
            ({
                let bb = old(self).inst_table@[inst_id as int].parent as int;
                let iseq = old(self).basic_blocks.blocks()[bb].iseq@;
                &&& exists|pos: int|
                    crate::machine::is_first_place(iseq, inst_id, pos) && final(self).basic_blocks.blocks()[bb].iseq@ == iseq.remove(pos)
                &&& final(self).basic_blocks.blocks()[bb].pred == old(self).basic_blocks.blocks()[bb].pred
                &&& final(self).basic_blocks.blocks()[bb].succ == old(self).basic_blocks.blocks()[bb].succ
            }),
    {
        let parent = self.inst_table[inst_id].parent;
        let pos = ir_block_at(&self.basic_blocks.arena, parent).find_inst_pos(inst_id).unwrap();
        let block = ir_block_at_mut(&mut self.basic_blocks.arena, parent);
        block.iseq.remove(pos);
    }
}

} // verus!
