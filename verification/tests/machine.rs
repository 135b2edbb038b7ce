use id_arena::Arena;
use rustc_hash::FxHashMap;
use sericum::isel::{run, run_on_function, DAGBasicBlock, DAGFunction, DAGModule};
use sericum::liveness_info::LivenessInfo;
use sericum::machine::{
    InstructionArena, MachineBasicBlock, MachineBasicBlocks, MachineConstant, MachineFunction,
    MachineInst, MachineOperand,
};
use sericum::mc_convert::{ScheduleContext, EAX};
use sericum::node::{
    FrameIndexInfo, IRNode, IROpcode, ImmediateKind, MachineOpcode, Node, NodePool, OperandNode,
};
use sericum::register::{PhysReg, RegisterId, RegistersInfo, VirtReg};
use sericum::types::Type;

fn blocks(n: usize) -> MachineBasicBlocks {
    let mut bbs = MachineBasicBlocks::new();
    for b in 0..n {
        bbs.add_block(MachineBasicBlock::new());
        bbs.order.push(b);
        bbs.liveness.insert(b, LivenessInfo::new());
    }
    bbs
}

fn edge(bbs: &mut MachineBasicBlocks, from: usize, to: usize) {
    bbs.block_mut(from).succ.insert(to);
    bbs.block_mut(to).pred.insert(from);
}

#[test]
fn joining_a_block_moves_its_instructions_and_successors() {
    let mut bbs = blocks(4);
    edge(&mut bbs, 0, 1);
    edge(&mut bbs, 1, 2);
    edge(&mut bbs, 1, 3);
    edge(&mut bbs, 0, 3);
    bbs.block_mut(0).iseq = vec![10, 11];
    bbs.block_mut(1).iseq = vec![12];
    bbs.liveness.get_mut(&0).unwrap().add_def(RegisterId::virt(VirtReg(1)));
    bbs.liveness.get_mut(&1).unwrap().add_live_out(RegisterId::virt(VirtReg(2)));
    bbs.liveness.get_mut(&1).unwrap().has_call = true;
    bbs.liveness.get_mut(&1).unwrap().add_phys_def(PhysReg(17));
    bbs.merge(&0, &1);
    assert_eq!(bbs.order, vec![0, 2, 3]);
    assert_eq!(bbs.block(0).iseq, vec![10, 11, 12]);
    assert!(bbs.block(1).iseq.is_empty() && bbs.block(1).succ.is_empty());
    assert!(bbs.block(1).pred.is_empty());
    let succ: Vec<usize> = {
        let mut v: Vec<usize> = bbs.block(0).succ.iter().copied().collect();
        v.sort();
        v
    };
    assert_eq!(succ, vec![2, 3]);
    assert!(bbs.block(2).pred.contains(&0) && !bbs.block(2).pred.contains(&1));
    assert!(bbs.block(3).pred.contains(&0) && bbs.block(3).pred.len() == 1);
    let l = &bbs.liveness[&0];
    assert!(l.def.contains(&65) && l.live_out.contains(&66) && l.has_call);
    assert!(l.phys_def.contains(&33));
    let files = bbs.get_def_phys_regs();
    assert_eq!(files.len(), 1);
    assert!(files.contains(&33));
}

#[test]
fn a_register_leaves_the_records_of_the_order() {
    let mut bbs = blocks(2);
    let r = RegisterId::virt(VirtReg(0));
    let s = RegisterId::virt(VirtReg(1));
    for b in 0..2 {
        let l = bbs.liveness.get_mut(&b).unwrap();
        l.add_def(r);
        l.add_live_in(r);
        l.add_live_out(s);
    }
    bbs.remove_reg_from_live_info(&r);
    for b in 0..2 {
        let l = &bbs.liveness[&b];
        assert!(l.def.is_empty() && l.live_in.is_empty());
        assert!(l.live_out.contains(&s.to_code()));
    }
}

#[test]
fn functions_hold_and_lose_instructions() {
    let mut f = MachineFunction::new(
        "f".to_string(),
        Type::Void,
        false,
        RegistersInfo::new(),
        blocks(1),
        InstructionArena::new(),
    );
    assert!(!f.is_empty());
    assert_eq!(f.get_entry_bb(), Some(0));
    let a = f.alloc_inst(MachineInst::new_simple(MachineOpcode::CALL, vec![], 0));
    let b = f.alloc_inst(MachineInst::new_simple(MachineOpcode::RET, vec![], 0));
    assert_eq!((a, b), (0, 1));
    assert_eq!(f.body.inst_arena.inst(1).id, Some(1));
    f.body.basic_blocks.block_mut(0).iseq_ref_mut().extend([a, b]);
    assert_eq!(f.find_inst_pos(b), Some((0, 1)));
    assert_eq!(f.body.basic_blocks.block(0).find_inst_pos(7), None);
    assert!(!f.body.has_call());
    f.body.basic_blocks.liveness.get_mut(&0).unwrap().has_call = true;
    assert!(f.body.has_call());
    assert!(f.body.appeared_phys_regs().is_empty());
    f.remove_inst(a);
    assert_eq!(f.body.basic_blocks.block(0).iseq, vec![1]);
    assert_eq!(f.find_inst_pos(a), None);
}

#[test]
fn an_instruction_is_on_record_for_its_registers_while_it_is_in_the_function() {
    let mut regs = RegistersInfo::new();
    let v = regs.new_virt_reg(sericum::register::RegisterClassKind::GR32);
    let mut bbs = blocks(1);
    bbs.block_mut(0).iseq.clear();
    let mut f = MachineFunction::new(
        "f".to_string(),
        Type::Void,
        false,
        regs,
        bbs,
        InstructionArena::new(),
    );
    let eax = RegisterId::phys(PhysReg(16));
    let a = f.alloc_inst(
        MachineInst::new_simple(MachineOpcode::MOVri32, vec![], 0).with_def(vec![v]),
    );
    let b = f.alloc_inst(
        MachineInst::new_simple(
            MachineOpcode::ADDrr32,
            vec![MachineOperand::Register(v), MachineOperand::Register(eax)],
            0,
        )
        .with_def(vec![eax]),
    );
    f.body.basic_blocks.block_mut(0).iseq.extend([a, b]);
    assert!(f.regs_info.defs[v.to_code()].contains(&a));
    assert!(f.regs_info.uses[v.to_code()].contains(&b));
    assert!(f.regs_info.uses[eax.to_code()].contains(&b));
    assert!(f.regs_info.defs[eax.to_code()].contains(&b));
    assert_eq!(f.regs_info.uses[v.to_code()].len(), 1);
    f.remove_inst(b);
    assert!(f.regs_info.uses[v.to_code()].is_empty());
    assert!(f.regs_info.uses[eax.to_code()].is_empty());
    assert!(f.regs_info.defs[eax.to_code()].is_empty());
    assert!(f.regs_info.defs[v.to_code()].contains(&a));
    assert_eq!(f.body.basic_blocks.block(0).iseq, vec![a]);
}

fn entry_of(f: &DAGFunction, block: usize) -> Option<usize> {
    f.dag_basic_block_arena.iter().nth(block).unwrap().1.entry
}

fn dag(nodes: Vec<Node>, entries: Vec<usize>) -> DAGFunction {
    let mut node_arena = NodePool::new();
    for n in nodes {
        node_arena.allocate(n);
    }
    let mut block_arena = Arena::new();
    for &e in &entries {
        block_arena.alloc(DAGBasicBlock { entry: Some(e) });
    }
    DAGFunction::new(
        "f".to_string(),
        Type::Void,
        node_arena,
        block_arena,
        (0..entries.len()).collect(),
        RegistersInfo::new(),
    )
}

fn store_of_42() -> Vec<Node> {
    vec![
        Node::Operand(OperandNode::Slot(FrameIndexInfo { ty: Type::i32, idx: 0 })),
        Node::IR(IRNode::new(IROpcode::FIAddr).args(vec![0]).ty(Type::Pointer)),
        Node::Operand(OperandNode::i32(42)),
        Node::IR(IRNode::new(IROpcode::Store).args(vec![1, 2])),
    ]
}

#[test]
fn selection_runs_over_the_blocks_of_every_function_that_is_not_internal() {
    let mut internal = dag(store_of_42(), vec![3]);
    internal.is_internal = true;
    let mut m = DAGModule { functions: vec![dag(store_of_42(), vec![3]), internal] };
    run(&mut m);
    let f = &m.functions[0];
    assert_eq!(f.node_arena.len(), 7);
    assert_eq!(entry_of(&f, 0), Some(6));
    match f.node_arena.get(6).unwrap() {
        Node::MI(mi) => assert_eq!(mi.opcode, MachineOpcode::MOVmi32),
        other => panic!("{:?}", other),
    }
    assert_eq!(m.functions[1].node_arena.len(), 4);
    assert_eq!(entry_of(&m.functions[1], 0), Some(3));
}

#[test]
fn the_nodes_of_a_block_are_selected_in_turn_and_linked() {
    let mut store = IRNode::new(IROpcode::Store).args(vec![1, 2]);
    store.next = Some(4);
    let mut f = dag(
        vec![
            Node::Operand(OperandNode::Slot(FrameIndexInfo { ty: Type::i32, idx: 0 })),
            Node::IR(IRNode::new(IROpcode::FIAddr).args(vec![0]).ty(Type::Pointer)),
            Node::Operand(OperandNode::i32(42)),
            Node::IR(store),
            Node::IR(IRNode::new(IROpcode::Load).args(vec![1]).ty(Type::i32)),
            Node::IR(IRNode::new(IROpcode::Load).args(vec![1]).ty(Type::i32)),
        ],
        vec![3, 5],
    );
    run_on_function(&mut f);
    assert_eq!(f.name, "f");
    assert!(!f.is_internal);
    assert_eq!(f.dag_basic_blocks, vec![0, 1]);
    assert_eq!(f.node_arena.len(), 15);
    assert_eq!(entry_of(&f, 0), Some(8));
    assert_eq!(entry_of(&f, 1), Some(14));
    match f.node_arena.get(8).unwrap() {
        Node::MI(mi) => {
            assert_eq!(mi.opcode, MachineOpcode::MOVmi32);
            assert_eq!(mi.args, vec![7, 2]);
            assert_eq!(mi.next, Some(11));
        }
        other => panic!("{:?}", other),
    }
    match f.node_arena.get(11).unwrap() {
        Node::MI(mi) => {
            assert_eq!(mi.opcode, MachineOpcode::MOVrm32);
            assert_eq!(mi.args, vec![10]);
            assert_eq!(mi.next, None);
        }
        other => panic!("{:?}", other),
    }
    match f.node_arena.get(14).unwrap() {
        Node::MI(mi) => assert_eq!(mi.opcode, MachineOpcode::MOVrm32),
        other => panic!("{:?}", other),
    }
    match f.node_arena.get(3).unwrap() {
        Node::IR(n) => assert_eq!(n.next, Some(4)),
        other => panic!("{:?}", other),
    }
}

#[test]
fn a_return_of_an_immediate_becomes_a_move_and_a_return() {
    let f = dag(
        vec![
            Node::Operand(OperandNode::Imm(ImmediateKind::Int32(7))),
            Node::IR(IRNode::new(IROpcode::Ret).args(vec![0])),
        ],
        vec![1],
    );
    let mut ctx = ScheduleContext {
        func: &f,
        inst_arena: InstructionArena::new(),
        node2inst: FxHashMap::default(),
        block_id: 0,
        iseq: vec![],
    };
    assert_eq!(ctx.normal_arg(0), MachineOperand::Constant(MachineConstant::Int32(7)));
    let ret = ctx.convert_node(1);
    assert_eq!(ret, 1);
    assert_eq!(ctx.iseq, vec![0, 1]);
    let mov = &ctx.inst_arena.inst(0);
    assert_eq!(mov.opcode, MachineOpcode::MOVri32);
    assert_eq!(mov.operand, vec![MachineOperand::Constant(MachineConstant::Int32(7))]);
    assert_eq!(mov.def, vec![RegisterId::phys(PhysReg(EAX))]);
    assert_eq!(ctx.inst_arena.inst(1).opcode, MachineOpcode::RET);
    // a node on record is not converted again
    ctx.node2inst.insert(1, ret);
    assert_eq!(ctx.convert_node(1), 1);
    assert_eq!(ctx.inst_arena.arena.len(), 2);
}
