//! Conversion of selected DAG nodes to machine instructions, block by block.

use crate::fx::map_get;
use crate::isel::DAGFunction;
use crate::machine::{
    InstructionArena, MachineBasicBlockId, MachineConstant, MachineInst, MachineInstId,
    MachineOperand,
};
use crate::node::{ImmediateKind, IROpcode, MachineOpcode, Node, NodeId, OperandNode};
use crate::register::{PhysReg, RegisterId};
use rustc_hash::FxHashMap;
use vstd::prelude::*;

verus! {

/// The register that holds a 32-bit return value: the first of the 32-bit
/// class.
pub const EAX: usize = 16;

/// The state of the conversion of one block: the function that is
/// converted, the instructions made so far, the instruction of each node
/// that was converted before, and the instruction list of the block.
pub struct ScheduleContext<'a> {
    pub func: &'a DAGFunction,
    pub inst_arena: InstructionArena,
    pub node2inst: FxHashMap<NodeId, MachineInstId>,
    pub block_id: MachineBasicBlockId,
    pub iseq: Vec<MachineInstId>,
}

/// The node `id` of `f` is a 32-bit immediate.
pub open spec fn is_int32(f: &DAGFunction, id: NodeId) -> bool {
    &&& id < f.node_arena@.len()
    &&& f.node_arena@[id as int] matches Node::Operand(OperandNode::Imm(ImmediateKind::Int32(_)))
}

/// The value of the 32-bit immediate `id` of `f`.
pub open spec fn int32_of(f: &DAGFunction, id: NodeId) -> i32 {
    f.node_arena@[id as int]->Operand_0->Imm_0->Int32_0
}

/// The node `id` of `f` returns a 32-bit immediate.
pub open spec fn is_ret_of_int32(f: &DAGFunction, id: NodeId) -> bool {
    &&& id < f.node_arena@.len()
    &&& f.node_arena@[id as int] matches Node::IR(n) && n.opcode == IROpcode::Ret && n.args@.len()
        > 0 && is_int32(f, n.args@[0])
}

impl<'a> ScheduleContext<'a> {
    /// The instructions of `after` are those of `before` and, behind them,
    /// the move of the immediate `value` to the return register and the
    /// return; both are put at the end of the block.
    pub open spec fn returned(before: Self, after: Self, value: i32) -> bool {
        let n = before.inst_arena.insts().len() as int;
        let insts = after.inst_arena.insts();
        &&& after.func == before.func
        &&& after.node2inst == before.node2inst
        &&& after.block_id == before.block_id
        &&& insts.len() == n + 2
        &&& forall|i: int| 0 <= i < n ==> insts[i] == before.inst_arena.insts()[i]
        &&& after.iseq@ == before.iseq@.push(n as usize).push((n + 1) as usize)
        &&& insts[n].id == Some(n as usize)
        &&& insts[n].opcode == MachineOpcode::MOVri32
        &&& insts[n].operand@ == seq![MachineOperand::Constant(MachineConstant::Int32(value))]
        &&& insts[n].def@ == seq![RegisterId::phys_spec(PhysReg(EAX))]
        &&& insts[n].imp_use@.len() == 0
        &&& insts[n].imp_def@.len() == 0
        &&& insts[n].parent == before.block_id
        &&& insts[n + 1].id == Some((n + 1) as usize)
        &&& insts[n + 1].opcode == MachineOpcode::RET
        &&& insts[n + 1].operand@.len() == 0
        &&& insts[n + 1].def@.len() == 0
        &&& insts[n + 1].imp_use@.len() == 0
        &&& insts[n + 1].imp_def@.len() == 0
        &&& insts[n + 1].parent == before.block_id
    }

    /// Puts `inst` into the arena and at the end of the block.
    pub fn append_inst(&mut self, inst: MachineInst) -> (id: MachineInstId)
        ensures
            id == old(self).inst_arena.insts().len(),
            final(self).func == old(self).func,
            final(self).node2inst == old(self).node2inst,
            final(self).block_id == old(self).block_id,
            final(self).iseq@ == old(self).iseq@.push(id),
            final(self).inst_arena.insts().len() == old(self).inst_arena.insts().len() + 1,
            forall|i: int|
                0 <= i < old(self).inst_arena.insts().len() ==> final(self).inst_arena.insts()[i]
                    == old(self).inst_arena.insts()[i],
            final(self).inst_arena.insts()[id as int].id == Some(id),
            final(self).inst_arena.insts()[id as int].opcode == inst.opcode,
            final(self).inst_arena.insts()[id as int].operand == inst.operand,
            final(self).inst_arena.insts()[id as int].def == inst.def,
            final(self).inst_arena.insts()[id as int].imp_use == inst.imp_use,
            final(self).inst_arena.insts()[id as int].imp_def == inst.imp_def,
            final(self).inst_arena.insts()[id as int].parent == inst.parent,
    {
        let id = self.inst_arena.allocate(inst);
        self.iseq.push(id);
        id
    }

    /// The instruction of the node `id`: the one on record, if the node
    /// was converted before; otherwise the return that the node is converted
    /// to. Only a return of a 32-bit immediate can be converted.
    pub fn convert_node(&mut self, id: NodeId) -> (r: MachineInstId)
        requires
            old(self).node2inst@.contains_key(id) || is_ret_of_int32(old(self).func, id),
        ensures
            old(self).node2inst@.contains_key(id) ==> r == old(self).node2inst@[id] && *final(self)
                == *old(self),
            !old(self).node2inst@.contains_key(id) ==> r == old(self).inst_arena.insts().len() + 1
                && Self::returned(
                *old(self),
                *final(self),
                int32_of(
                    old(self).func,
                    old(self).func.node_arena@[id as int]->IR_0.args@[0],
                ),
            ),
    {
        match map_get(&self.node2inst, id) {
            Some(inst_id) => {
                return *inst_id;
            },
            None => {},
        }
        let arg = match self.func.node_arena.node(id) {
            Node::IR(n) => n.args[0],
            _ => 0,
        };
        self.convert_ret(arg)
    }

    /// Converts the return of the node `arg`: the value is moved to the
    /// return register, then the function returns.
    fn convert_ret(&mut self, arg: NodeId) -> (r: MachineInstId)
        requires
            is_int32(old(self).func, arg),
        ensures
            r == old(self).inst_arena.insts().len() + 1,
            Self::returned(*old(self), *final(self), int32_of(old(self).func, arg)),
    {
        let arg = self.normal_arg(arg);
        let mut operands: Vec<MachineOperand> = Vec::new();
        operands.push(arg);
        let mut defs: Vec<RegisterId> = Vec::new();
        defs.push(RegisterId::phys(PhysReg(EAX)));
        proof {
            assert(operands@ =~= seq![arg]);
            assert(defs@ =~= seq![RegisterId::phys_spec(PhysReg(EAX))]);
        }
        let mov = MachineInst::new_simple(MachineOpcode::MOVri32, operands, self.block_id).with_def(
            defs,
        );
        self.append_inst(mov);
        self.append_inst(MachineInst::new_simple(MachineOpcode::RET, Vec::new(), self.block_id))
    }

    /// The operand that the node `arg` stands for. Only a 32-bit immediate
    /// can be converted.
    pub fn normal_arg(&mut self, arg: NodeId) -> (r: MachineOperand)
        requires
            is_int32(old(self).func, arg),
        ensures
            r == MachineOperand::Constant(MachineConstant::Int32(int32_of(old(self).func, arg))),
            *final(self) == *old(self),
    {
        match self.func.node_arena.node(arg) {
            Node::Operand(OperandNode::Imm(ImmediateKind::Int32(i))) => MachineOperand::Constant(
                MachineConstant::Int32(*i),
            ),
            _ => MachineOperand::Empty,
        }
    }
}

} // verus!
