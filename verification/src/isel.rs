//! Instruction selection for the target: the rewrite rules for stores to
//! and loads from stack slots, and the pass that applies them to every block
//! of a function.

use crate::fx::map_new;
use crate::node::{
    IROpcode, MachineOpcode, MemKind, MINode, Node, NodeId, NodePool, OperandNode,
};
use crate::pat_build::{any_i32_imm, ir, slot};
use crate::pat_match::{
    bound_at, pat_valid, Captures, Immediate, MatchContext, NameMap, OperandKind, Pat, Slot,
};
use crate::register::{PhysReg, RegisterClassKind, RegistersInfo};
use crate::select::{
    inst_select, outcome, replacements_within, selection, selects, Generate, ReplacedNodeMap,
    Selection,
};
use crate::types::{MVType, Type};
use id_arena::{Arena, ArenaBehavior, DefaultArenaBehavior};
use vstd::prelude::*;

verus! {

/// The frame pointer: the sixth register of the 64-bit class.
pub const RBP: usize = 37;

/// How deep a selection may go.
pub const SELECTION_BUDGET: usize = usize::MAX;

/// The rewrite rules of the target.
#[derive(Clone, Copy, Debug, PartialEq, Eq, Structural)]
pub enum X64Rule {
    /// A store of a 32-bit immediate to a stack slot: one instruction that
    /// moves the immediate to memory.
    StoreImm32,
    /// A load of 32 bits from a stack slot: one instruction that moves
    /// memory to a register.
    LoadSlot32,
}

/// A basic block of the DAG: the node it starts with.
pub struct DAGBasicBlock {
    pub entry: Option<NodeId>,
}

/// A function in DAG form.
pub struct DAGFunction {
    /// Function name
    pub name: String,
    /// Function type
    pub ty: Type,
    /// DAG Basic block arena
    pub dag_basic_block_arena: Arena<DAGBasicBlock>,
    /// DAG Basic blocks list
    pub dag_basic_blocks: Vec<usize>,
    /// DAG node arena
    pub node_arena: NodePool,
    pub regs: RegistersInfo,
    /// True if internal function
    pub is_internal: bool,
}

/// The blocks that an arena holds, by index.
pub uninterp spec fn dag_blocks(arena: Arena<DAGBasicBlock>) -> Seq<DAGBasicBlock>;

/// `Arena::index`, with the identifier that this arena gives to the index
/// `i`: the block at `i`.
#[verifier::external_body]
fn dag_block_at(a: &Arena<DAGBasicBlock>, i: usize) -> (r: &DAGBasicBlock)
    requires
        i < dag_blocks(*a).len(),
    ensures
        *r == dag_blocks(*a)[i as int],
{
    let arena_id = DefaultArenaBehavior::<DAGBasicBlock>::arena_id(a.next_id());
    &a[DefaultArenaBehavior::<DAGBasicBlock>::new_id(arena_id, i)]
}

/// `Arena::index_mut`, with the identifier that this arena gives to the
/// index `i`, and an assignment: the block at `i` is `block` afterwards and
/// the others stay as they are.
#[verifier::external_body]
fn dag_block_set(a: &mut Arena<DAGBasicBlock>, i: usize, block: DAGBasicBlock)
    requires
        i < dag_blocks(*old(a)).len(),
    ensures
        dag_blocks(*final(a)) == dag_blocks(*old(a)).update(i as int, block),
{
    let arena_id = DefaultArenaBehavior::<DAGBasicBlock>::arena_id(a.next_id());
    a[DefaultArenaBehavior::<DAGBasicBlock>::new_id(arena_id, i)] = block;
}

/// The functions of a module in DAG form.
pub struct DAGModule {
    pub functions: Vec<DAGFunction>,
}

impl DAGFunction {
    /// The blocks of the function, by index.
    pub open spec fn blocks(&self) -> Seq<DAGBasicBlock> {
        dag_blocks(self.dag_basic_block_arena)
    }

    /// A function in DAG form that is not internal.
    pub fn new(
        name: String,
        ty: Type,
        node_arena: NodePool,
        dag_basic_block_arena: Arena<DAGBasicBlock>,
        dag_basic_blocks: Vec<usize>,
        regs: RegistersInfo,
    ) -> (r: Self)
        ensures
            r.name == name,
            r.ty == ty,
            r.node_arena == node_arena,
            r.dag_basic_block_arena == dag_basic_block_arena,
            r.dag_basic_blocks == dag_basic_blocks,
            r.regs == regs,
            !r.is_internal,
    {
        Self {
            name,
            ty,
            dag_basic_block_arena,
            dag_basic_blocks,
            node_arena,
            regs,
            is_internal: false,
        }
    }
}

/// The node that `m` binds `name` to.
pub open spec fn captured(m: Seq<(Seq<char>, NodeId)>, name: Seq<char>) -> Option<NodeId> {
    if bound_at(m, name, 0) >= 0 {
        Some(m[bound_at(m, name, 0)].1)
    } else {
        None
    }
}

/// `after` is `before` with three nodes behind it: the frame pointer, the
/// memory operand of the frame pointer and the stack slot `slot`, and the
/// instruction `opcode` with the operands `args`, of which the first is the
/// memory operand. The register class `rc` is that of the instruction.
pub open spec fn lowered(
    before: Seq<Node>,
    after: Seq<Node>,
    slot: NodeId,
    opcode: MachineOpcode,
    rest: Seq<NodeId>,
    rc: Option<RegisterClassKind>,
) -> bool {
    let n = before.len() as int;
    &&& after.len() == n + 3
    &&& after.take(n) == before
    &&& after[n] == Node::Operand(
        OperandNode::Reg(crate::register::RegisterId::phys_spec(PhysReg(RBP))),
    )
    &&& after[n + 1] == Node::Operand(OperandNode::Mem(MemKind::BaseFi(n as usize, slot)))
    &&& after[n + 2] matches Node::MI(mi) && mi.opcode == opcode && mi.args@ == seq![
        (n + 1) as usize,
    ] + rest && mi.reg_class == rc && mi.next is None && mi.chain is None
}

impl X64Rule {
    /// Puts the frame pointer, the memory operand for `slot` and the
    /// instruction behind the nodes of the pool.
    fn lower(
        ctx: &mut MatchContext,
        slot: NodeId,
        opcode: MachineOpcode,
        rest: Vec<NodeId>,
        rc: Option<RegisterClassKind>,
    ) -> (id: NodeId)
        requires
            old(ctx).arena.wf(),
            slot < old(ctx).arena@.len(),
            forall|i: int| 0 <= i < rest@.len() ==> (#[trigger] rest@[i]) < old(ctx).arena@.len(),
        ensures
            final(ctx).arena.wf(),
            final(ctx).regs == old(ctx).regs,
            lowered(old(ctx).arena@, final(ctx).arena@, slot, opcode, rest@, rc),
            id == old(ctx).arena@.len() + 2,
    {
        let ghost before = ctx.arena@;
        let rbp = ctx.arena.allocate(
            Node::Operand(OperandNode::Reg(ctx.regs.get_phys_reg(PhysReg(RBP)))),
        );
        let mem = ctx.arena.allocate(Node::Operand(OperandNode::Mem(MemKind::BaseFi(rbp, slot))));
        let mut args: Vec<NodeId> = Vec::new();
        args.push(mem);
        let mut i: usize = 0;
        while i < rest.len()
            invariant
                i <= rest@.len(),
                args@ == seq![mem] + rest@.take(i as int),
            decreases rest@.len() - i,
        {
            args.push(rest[i]);
            proof {
                assert(rest@.take(i + 1) =~= rest@.take(i as int).push(rest@[i as int]));
                assert(args@ =~= seq![mem] + rest@.take(i + 1));
            }
            i += 1;
        }
        proof {
            assert(rest@.take(rest@.len() as int) =~= rest@);
        }
        let mi = MINode { opcode, args, reg_class: rc, next: None, chain: None };
        let id = ctx.arena.allocate(Node::MI(mi));
        proof {
            let after = ctx.arena@;
            assert(after.take(before.len() as int) =~= before);
            assert forall|i: int, k: int|
                0 <= i < after.len() && 0 <= k < after[i].operands().len() implies (
            #[trigger] after[i].operands()[k]) < after.len() by {
                if i < before.len() {
                    assert(after[i] == before[i]);
                    assert(before[i].operands()[k] < before.len());
                }
            }
        }
        id
    }
}

impl Generate for X64Rule {
    open spec fn produces(
        &self,
        m: Captures,
        nodes: Seq<Node>,
        regs: RegistersInfo,
        nodes_after: Seq<Node>,
        regs_after: RegistersInfo,
        r: Option<NodeId>,
    ) -> bool {
        &&& regs_after == regs
        &&& match self {
            X64Rule::StoreImm32 => match (captured(m, "dst"@), captured(m, "src"@)) {
                (Some(dst), Some(src)) => r == Some((nodes.len() + 2) as usize) && lowered(
                    nodes,
                    nodes_after,
                    dst,
                    MachineOpcode::MOVmi32,
                    seq![src],
                    None,
                ),
                _ => r is None && nodes_after == nodes,
            },
            X64Rule::LoadSlot32 => match captured(m, "src"@) {
                Some(src) => r == Some((nodes.len() + 2) as usize) && lowered(
                    nodes,
                    nodes_after,
                    src,
                    MachineOpcode::MOVrm32,
                    Seq::empty(),
                    Some(RegisterClassKind::GR32),
                ),
                None => r is None && nodes_after == nodes,
            },
        }
    }

    /// A store rewrites to the instruction that moves the capture `src` to
    /// the memory operand of the capture `dst`; a load rewrites to the
    /// instruction that moves the memory operand of the capture `src` to a
    /// 32-bit register. The rule does not apply where a capture is missing.
    fn generate(&self, m: &NameMap, ctx: &mut MatchContext) -> (r: Option<NodeId>)
        ensures
            final(ctx).regs == old(ctx).regs,
            *self == X64Rule::StoreImm32 ==> (match (
                captured(m@, "dst"@),
                captured(m@, "src"@),
            ) {
                (Some(dst), Some(src)) => r == Some((old(ctx).arena@.len() + 2) as usize) && lowered(
                    old(ctx).arena@,
                    final(ctx).arena@,
                    dst,
                    MachineOpcode::MOVmi32,
                    seq![src],
                    None,
                ),
                _ => r is None,
            }),
            *self == X64Rule::LoadSlot32 ==> (match captured(m@, "src"@) {
                Some(src) => r == Some((old(ctx).arena@.len() + 2) as usize) && lowered(
                    old(ctx).arena@,
                    final(ctx).arena@,
                    src,
                    MachineOpcode::MOVrm32,
                    Seq::empty(),
                    Some(RegisterClassKind::GR32),
                ),
                None => r is None,
            }),
    {
        proof {
            crate::pat_match::lemma_bound_at(m@, "dst"@, 0);
            crate::pat_match::lemma_bound_at(m@, "src"@, 0);
        }
        match self {
            X64Rule::StoreImm32 => {
                let dst = match m.get("dst") {
                    Some(x) => x,
                    None => {
                        return None;
                    },
                };
                let src = match m.get("src") {
                    Some(x) => x,
                    None => {
                        return None;
                    },
                };
                let mut rest: Vec<NodeId> = Vec::new();
                rest.push(src);
                proof {
                    assert(rest@ =~= seq![src]);
                }
                Some(X64Rule::lower(ctx, dst, MachineOpcode::MOVmi32, rest, None))
            },
            X64Rule::LoadSlot32 => {
                let src = match m.get("src") {
                    Some(x) => x,
                    None => {
                        return None;
                    },
                };
                Some(
                    X64Rule::lower(
                        ctx,
                        src,
                        MachineOpcode::MOVrm32,
                        Vec::new(),
                        Some(RegisterClassKind::GR32),
                    ),
                )
            },
        }
    }
}

/// `p` is the address of a 32-bit stack slot, the slot captured as `name`.
pub open spec fn slot_address(p: Pat<X64Rule>, name: Seq<char>) -> bool {
    &&& p matches Pat::IR(a)
    &&& a.name@.len() == 0
    &&& a.opcode == Some(IROpcode::FIAddr)
    &&& a.ty is None
    &&& a.generate is None
    &&& a.operands@.len() == 1
    &&& a.operands@[0] matches Pat::Operand(s)
    &&& s.name@ == name
    &&& s.kind == OperandKind::Slot(Slot::Type(MVType::i32))
    &&& !s.not
    &&& s.generate is None
}

/// `p` is the operation `opcode` with the rewrite `rule`, without a name
/// or a type.
pub open spec fn rule_for(p: Pat<X64Rule>, opcode: IROpcode, rule: X64Rule) -> bool {
    &&& p matches Pat::IR(a)
    &&& a.name@.len() == 0
    &&& a.opcode == Some(opcode)
    &&& a.ty is None
    &&& a.generate == Some(rule)
}

/// `pats` are the patterns of the target, in order: a store to the address
/// of the slot `dst` of a 32-bit immediate `src`, and a load from the address
/// of the slot `src`.
pub open spec fn target_patterns(pats: Seq<Pat<X64Rule>>) -> bool {
    &&& pats.len() == 2
    &&& rule_for(pats[0], IROpcode::Store, X64Rule::StoreImm32)
    &&& pats[0]->IR_0.operands@.len() == 2
    &&& slot_address(pats[0]->IR_0.operands@[0], "dst"@)
    &&& pats[0]->IR_0.operands@[1] matches Pat::Operand(im)
    &&& im.name@ == "src"@
    &&& im.kind == OperandKind::Imm(Immediate::AnyInt32)
    &&& !im.not
    &&& im.generate is None
    &&& rule_for(pats[1], IROpcode::Load, X64Rule::LoadSlot32)
    &&& pats[1]->IR_0.operands@.len() == 1
    &&& slot_address(pats[1]->IR_0.operands@[0], "src"@)
}

/// The patterns of the target: a store of a 32-bit immediate to the address
/// of a 32-bit stack slot, and a load from such an address.
pub fn patterns() -> (pats: Vec<Pat<X64Rule>>)
    ensures
        target_patterns(pats@),
        forall|k: int| 0 <= k < pats@.len() ==> pat_valid(#[trigger] pats@[k]),
{
    let mut store_addr: Vec<Pat<X64Rule>> = Vec::new();
    store_addr.push(slot(MVType::i32).named("dst").pat());
    let mut store_args: Vec<Pat<X64Rule>> = Vec::new();
    store_args.push(ir(IROpcode::FIAddr).args(store_addr).pat());
    store_args.push(any_i32_imm().named("src").pat());
    let store: Pat<X64Rule> = ir(IROpcode::Store).args(store_args).generate(
        X64Rule::StoreImm32,
    ).pat();
    let mut load_addr: Vec<Pat<X64Rule>> = Vec::new();
    load_addr.push(slot(MVType::i32).named("src").pat());
    let mut load_args: Vec<Pat<X64Rule>> = Vec::new();
    load_args.push(ir(IROpcode::FIAddr).args(load_addr).pat());
    let load: Pat<X64Rule> = ir(IROpcode::Load).args(load_args).generate(X64Rule::LoadSlot32).pat();
    let mut pats: Vec<Pat<X64Rule>> = Vec::new();
    proof {
        assert(pat_valid(store)) by {
            reveal_with_fuel(pat_valid, 4);
        }
        assert(pat_valid(load)) by {
            reveal_with_fuel(pat_valid, 4);
        }
    }
    pats.push(store);
    pats.push(load);
    pats
}

/// The state `z` is the state `a` with the node `id` given the successor
/// `next`; a node that has no successor field stays as it is.
pub open spec fn linked_state(a: Selection, id: NodeId, next: NodeId, z: Selection) -> bool {
    &&& z.regs == a.regs
    &&& z.replaced == a.replaced
    &&& z.nodes.len() == a.nodes.len()
    &&& forall|i: int| 0 <= i < a.nodes.len() && i != id ==> #[trigger] z.nodes[i] == a.nodes[i]
    &&& a.nodes[id as int].rewired(z.nodes[id as int], a.nodes[id as int].operands(), Some(next))
}

/// Selecting the node `id` and the nodes that follow it, in the state `a`
/// with the budget `budget`, can end in the state `z` with the result `r`:
/// the node is selected; then the node that it names as its successor, if
/// that is a node of the pool, is selected in the same way with one less of
/// budget, and what the first selection gave is made to name what the second
/// gave as its successor. The result is what the first selection gave, and
/// nothing where the budget ran out.
pub open spec fn chain_selected<G: Generate>(
    pats: Seq<Pat<G>>,
    a: Selection,
    id: NodeId,
    budget: nat,
    z: Selection,
    r: Option<NodeId>,
) -> bool
    decreases budget,
{
    if budget == 0 {
        r is None && z == a
    } else {
        exists|sa: Selection, ra: Option<NodeId>|
            #[trigger] outcome(sa, ra) && selects(pats, a, id, budget, sa, ra) && match ra {
                None => r is None && z == sa,
                Some(new) => match sa.nodes[id as int].successor() {
                    Some(next) if next < sa.nodes.len() => exists|
                        sb: Selection,
                        rb: Option<NodeId>,
                    |
                        #[trigger] outcome(sb, rb) && chain_selected(
                            pats,
                            sa,
                            next,
                            (budget - 1) as nat,
                            sb,
                            rb,
                        ) && match rb {
                            None => r is None && z == sb,
                            Some(following) => r == Some(new) && linked_state(
                                sb,
                                new,
                                following,
                                z,
                            ),
                        },
                    _ => r == Some(new) && z == sa,
                },
            }
    }
}

/// Selects the node `id` and the nodes that follow it in its block, and
/// links the results in the same order. The result is `None` where the
/// budget ran out.
pub fn select_node<G: Generate + Copy>(
    ctx: &mut MatchContext,
    replaced: &mut ReplacedNodeMap,
    pats: &Vec<Pat<G>>,
    id: NodeId,
    budget: usize,
) -> (r: Option<NodeId>)
    requires
        old(ctx).arena.wf(),
        id < old(ctx).arena@.len(),
        forall|k: int| 0 <= k < pats@.len() ==> pat_valid(#[trigger] pats@[k]),
        replacements_within(old(replaced)@, old(ctx).arena@.len()),
    ensures
        final(ctx).arena.wf(),
        old(ctx).arena@.len() <= final(ctx).arena@.len(),
        replacements_within(final(replaced)@, final(ctx).arena@.len()),
        r is Some ==> r->0 < final(ctx).arena@.len(),
        budget == 0 ==> r is None,
        chain_selected(
            pats@,
            selection(old(ctx).arena@, old(ctx).regs, old(replaced)@),
            id,
            budget as nat,
            selection(final(ctx).arena@, final(ctx).regs, final(replaced)@),
            r,
        ),
    decreases budget,
{
    if budget == 0 {
        return None;
    }
    let ghost s0 = selection(ctx.arena@, ctx.regs, replaced@);
    let selected = inst_select(replaced, ctx, id, pats, budget);
    let ghost sa = selection(ctx.arena@, ctx.regs, replaced@);
    proof {
        assert(outcome(sa, selected));
        assert(selects(pats@, s0, id, budget as nat, sa, selected));
    }
    let new = match selected {
        Some(x) => x,
        None => {
            return None;
        },
    };
    let following = ctx.arena.node(id).next();
    match following {
        Some(next) => {
            if next >= ctx.arena.len() {
                return Some(new);
            }
            let chained = select_node(ctx, replaced, pats, next, budget - 1);
            let ghost sb = selection(ctx.arena@, ctx.regs, replaced@);
            proof {
                assert(outcome(sb, chained));
                assert(chain_selected(pats@, sa, next, (budget - 1) as nat, sb, chained));
            }
            let next = match chained {
                Some(x) => x,
                None => {
                    return None;
                },
            };
            let node = ctx.arena.node(new);
            let args = node.args();
            let linked = node.rewire(args, Some(next));
            let ghost before = ctx.arena@;
            ctx.arena.set(new, linked);
            proof {
                assert forall|i: int, k: int|
                    0 <= i < ctx.arena@.len() && 0 <= k < ctx.arena@[i].operands().len() implies (
                #[trigger] ctx.arena@[i].operands()[k]) < ctx.arena@.len() by {
                    assert(before[i].operands()[k] < before.len());
                }
                assert(linked_state(
                    sb,
                    new,
                    next,
                    selection(ctx.arena@, ctx.regs, replaced@),
                ));
            }
            Some(new)
        },
        None => Some(new),
    }
}

/// Selecting the blocks `order` from the place `i` on, in the state `a`
/// with the blocks `blocks`, ends in the state `z` with the blocks `out`: the
/// entry of each block in turn is selected with the nodes that follow it, and
/// becomes the result, or stays where the budget ran out.
pub open spec fn blocks_selected(
    pats: Seq<Pat<X64Rule>>,
    order: Seq<usize>,
    i: int,
    a: Selection,
    blocks: Seq<DAGBasicBlock>,
    z: Selection,
    out: Seq<DAGBasicBlock>,
) -> bool
    decreases order.len() - i,
{
    if i < 0 {
        false
    } else if i >= order.len() {
        z == a && out == blocks
    } else {
        exists|sa: Selection, ra: Option<NodeId>|
            #[trigger] outcome(sa, ra) && chain_selected(
                pats,
                a,
                blocks[order[i] as int].entry->0,
                SELECTION_BUDGET as nat,
                sa,
                ra,
            ) && blocks_selected(
                pats,
                order,
                i + 1,
                sa,
                match ra {
                    Some(x) => blocks.update(order[i] as int, DAGBasicBlock { entry: Some(x) }),
                    None => blocks,
                },
                z,
                out,
            )
    }
}

/// `after` is `before` with every block selected, in the order of the
/// blocks, with the patterns of the target and no replacement on record at
/// the start; nothing else of the function changes.
pub open spec fn function_selected(before: DAGFunction, after: DAGFunction) -> bool {
    &&& after.name == before.name
    &&& after.ty == before.ty
    &&& after.is_internal == before.is_internal
    &&& after.dag_basic_blocks == before.dag_basic_blocks
    &&& exists|pats: Seq<Pat<X64Rule>>, replaced: Map<NodeId, NodeId>|
        target_patterns(pats) && #[trigger] blocks_selected(
            pats,
            before.dag_basic_blocks@,
            0,
            selection(before.node_arena@, before.regs, Map::empty()),
            before.blocks(),
            selection(after.node_arena@, after.regs, replaced),
            after.blocks(),
        )
}

/// Selects every block of `func`: the entry of each block becomes what
/// selection makes of it, unless the budget ran out on it.
pub fn run_on_function(func: &mut DAGFunction)
    requires
        old(func).node_arena.wf(),
        forall|i: int|
            0 <= i < old(func).dag_basic_blocks@.len() ==> (#[trigger] old(func).dag_basic_blocks@[i])
                < old(func).blocks().len(),
        forall|b: int|
            0 <= b < old(func).blocks().len() ==> (#[trigger] old(func).blocks()[b]).entry is Some && old(func).blocks()[b].entry->0
                < old(func).node_arena@.len(),
    ensures
        final(func).node_arena.wf(),
        old(func).node_arena@.len() <= final(func).node_arena@.len(),
        final(func).dag_basic_blocks == old(func).dag_basic_blocks,
        final(func).blocks().len() == old(func).blocks().len(),
        forall|b: int|
            0 <= b < final(func).blocks().len() ==> (#[trigger] final(func).blocks()[b]).entry is Some && final(func).blocks()[b].entry->0
                < final(func).node_arena@.len(),
        function_selected(*old(func), *final(func)),
{
    let pats = patterns();
    let mut replaced: ReplacedNodeMap = map_new();
    let mut ctx = MatchContext { arena: NodePool::new(), regs: RegistersInfo::new() };
    core::mem::swap(&mut ctx.arena, &mut func.node_arena);
    core::mem::swap(&mut ctx.regs, &mut func.regs);
    let ghost s0 = selection(ctx.arena@, ctx.regs, replaced@);
    let ghost blocks0 = func.blocks();
    let ghost order = func.dag_basic_blocks@;
    proof {
        assert(replaced@ =~= Map::empty());
        assert(func.blocks() == old(func).blocks());
    }
    let mut i: usize = 0;
    while i < func.dag_basic_blocks.len()
        invariant
            s0 == selection(old(func).node_arena@, old(func).regs, Map::empty()),
            blocks0 == old(func).blocks(),
            order == func.dag_basic_blocks@,
            func.name == old(func).name,
            func.ty == old(func).ty,
            func.is_internal == old(func).is_internal,
            target_patterns(pats@),
            forall|z: Selection, out: Seq<DAGBasicBlock>| #[trigger]
                blocks_selected(
                    pats@,
                    order,
                    i as int,
                    selection(ctx.arena@, ctx.regs, replaced@),
                    func.blocks(),
                    z,
                    out,
                ) ==> blocks_selected(pats@, order, 0, s0, blocks0, z, out),
            ctx.arena.wf(),
            old(func).node_arena@.len() <= ctx.arena@.len(),
            func.dag_basic_blocks == old(func).dag_basic_blocks,
            func.blocks().len() == old(func).blocks().len(),
            i <= func.dag_basic_blocks@.len(),
            forall|k: int| 0 <= k < pats@.len() ==> pat_valid(#[trigger] pats@[k]),
            replacements_within(replaced@, ctx.arena@.len()),
            forall|i: int|
                0 <= i < func.dag_basic_blocks@.len() ==> (#[trigger] func.dag_basic_blocks@[i])
                    < func.blocks().len(),
            forall|b: int|
                0 <= b < func.blocks().len() ==> (
                #[trigger] func.blocks()[b]).entry is Some
                    && func.blocks()[b].entry->0 < ctx.arena@.len(),
        decreases func.dag_basic_blocks@.len() - i,
    {
        let id = func.dag_basic_blocks[i];
        let entry = dag_block_at(&func.dag_basic_block_arena, id).entry.unwrap();
        let ghost la = selection(ctx.arena@, ctx.regs, replaced@);
        let ghost blocks = func.blocks();
        let selected = select_node(&mut ctx, &mut replaced, &pats, entry, SELECTION_BUDGET);
        let ghost lb = selection(ctx.arena@, ctx.regs, replaced@);
        match selected {
            Some(a) => {
                dag_block_set(&mut func.dag_basic_block_arena, id, DAGBasicBlock { entry: Some(a) });
            },
            None => {},
        }
        proof {
            assert(outcome(lb, selected));
            assert(chain_selected(pats@, la, entry, SELECTION_BUDGET as nat, lb, selected));
            assert forall|z: Selection, out: Seq<DAGBasicBlock>| #[trigger]
                blocks_selected(
                    pats@,
                    order,
                    i + 1,
                    lb,
                    func.blocks(),
                    z,
                    out,
                ) implies blocks_selected(pats@, order, 0, s0, blocks0, z, out) by {
                assert(blocks_selected(pats@, order, i as int, la, blocks, z, out));
            }
        }
        i += 1;
    }
    proof {
        let z = selection(ctx.arena@, ctx.regs, replaced@);
        assert(blocks_selected(
            pats@,
            order,
            order.len() as int,
            z,
            func.blocks(),
            z,
            func.blocks(),
        ));
        assert(blocks_selected(pats@, order, 0, s0, blocks0, z, func.blocks()));
    }
    let ghost nodes = ctx.arena@;
    let ghost regs = ctx.regs;
    core::mem::swap(&mut ctx.arena, &mut func.node_arena);
    core::mem::swap(&mut ctx.regs, &mut func.regs);
    proof {
        assert(func.node_arena@ == nodes && func.regs == regs);
        assert(blocks_selected(
            pats@,
            old(func).dag_basic_blocks@,
            0,
            selection(old(func).node_arena@, old(func).regs, Map::empty()),
            old(func).blocks(),
            selection(func.node_arena@, func.regs, replaced@),
            func.blocks(),
        ));
    }
}

/// Selects every function of `module` that is not internal.
pub fn run(module: &mut DAGModule)
    requires
        forall|f: int|
            0 <= f < old(module).functions@.len() ==> selectable(#[trigger] old(module).functions@[f]),
    ensures
        final(module).functions@.len() == old(module).functions@.len(),
        forall|f: int|
            0 <= f < final(module).functions@.len() ==> selectable(
                #[trigger] final(module).functions@[f],
            ),
        forall|f: int|
            0 <= f < final(module).functions@.len() && old(module).functions@[f].is_internal
                ==> #[trigger] final(module).functions@[f] == old(module).functions@[f],
        forall|f: int|
            0 <= f < final(module).functions@.len() && !old(module).functions@[f].is_internal
                ==> function_selected(
                old(module).functions@[f],
                #[trigger] final(module).functions@[f],
            ),
{
    let mut i: usize = 0;
    while i < module.functions.len()
        invariant
            module.functions@.len() == old(module).functions@.len(),
            i <= module.functions@.len(),
            forall|f: int|
                0 <= f < module.functions@.len() ==> selectable(#[trigger] module.functions@[f]),
            forall|f: int|
                0 <= f < module.functions@.len() && old(module).functions@[f].is_internal
                    ==> #[trigger] module.functions@[f] == old(module).functions@[f],
            forall|f: int|
                0 <= f < i && !old(module).functions@[f].is_internal ==> function_selected(
                    old(module).functions@[f],
                    #[trigger] module.functions@[f],
                ),
            forall|f: int|
                i <= f < module.functions@.len() ==> #[trigger] module.functions@[f] == old(module).functions@[f],
        decreases module.functions@.len() - i,
    {
        if !module.functions[i].is_internal {
            let ghost before = module.functions@;
            let func = &mut module.functions[i];
            run_on_function(func);
            proof {
                assert(selectable(module.functions@[i as int]));
                assert forall|f: int| 0 <= f < module.functions@.len() implies selectable(
                    #[trigger] module.functions@[f],
                ) by {
                    if f != i {
                        assert(module.functions@[f] == before[f]);
                    }
                }
            }
        }
        i += 1;
    }
}

/// The function can be selected: its pool is well-formed, its order names
/// blocks, and every block has an entry that is a node of the pool.
pub open spec fn selectable(func: DAGFunction) -> bool {
    &&& func.node_arena.wf()
    &&& forall|i: int|
        0 <= i < func.dag_basic_blocks@.len() ==> (#[trigger] func.dag_basic_blocks@[i])
            < func.blocks().len()
    &&& forall|b: int|
        0 <= b < func.blocks().len() ==> (#[trigger] func.blocks()[b]).entry is Some
            && func.blocks()[b].entry->0 < func.node_arena@.len()
}

} // verus!
