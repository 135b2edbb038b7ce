use sericum::dce::{
    check_if_elimination_possible, DeadCodeElimination, DeadCodeEliminationOnFunction,
};
use sericum::ir::{
    BasicBlock, BasicBlocks, Function, InstOperand, Instruction, InstructionValue, LivenessInfo,
    Module, Opcode, Operand, Value,
};
use sericum::types::Type;

fn inst(opcode: Opcode, reads: &[usize], parent: usize) -> Instruction {
    Instruction {
        opcode,
        operand: InstOperand::Absent,
        operands: reads
            .iter()
            .map(|&id| Operand::Value(Value::Instruction(InstructionValue { id, ty: Type::i32 })))
            .collect(),
        ty: Type::i32,
        id: None,
        users: vec![],
        parent,
    }
}

fn block_of(f: &Function, block: usize) -> &BasicBlock {
    f.basic_blocks.arena.iter().nth(block).unwrap().1
}

fn function(blocks: Vec<Vec<Instruction>>) -> Function {
    let mut f = Function {
        name: "f".to_string(),
        basic_blocks: BasicBlocks::new(),
        inst_table: vec![],
        is_internal: false,
    };
    for (b, insts) in blocks.into_iter().enumerate() {
        let mut block = BasicBlock::new();
        for mut i in insts {
            let id = f.inst_table.len();
            i.id = Some(id);
            i.parent = b;
            block.iseq_ref_mut().push(id);
            f.inst_table.push(i);
        }
        f.basic_blocks.arena.alloc(block);
        f.basic_blocks.order.push(b);
    }
    for id in 0..f.inst_table.len() {
        let reads: Vec<usize> = f.inst_table[id]
            .operands
            .iter()
            .filter_map(|o| match o {
                Operand::Value(Value::Instruction(v)) => Some(v.id),
                _ => None,
            })
            .collect();
        for r in reads {
            f.inst_table[r].users.push(id);
        }
    }
    f
}

#[test]
fn instructions_without_users_and_effects_leave_their_block() {
    // 0: alloca, 1: load (unused), 2: add 0 0 (used by 3), 3: store 2, 4: mul (unused), 5: ret
    let mut f = function(vec![
        vec![
            inst(Opcode::Alloca, &[], 0),
            inst(Opcode::Load, &[0], 0),
            inst(Opcode::Add, &[0, 0], 0),
            inst(Opcode::Store, &[2], 0),
        ],
        vec![inst(Opcode::Mul, &[], 1), inst(Opcode::Call, &[], 1), inst(Opcode::Ret, &[], 1)],
    ]);
    DeadCodeEliminationOnFunction { func: &mut f }.run();
    assert_eq!(block_of(&f, 0).iseq, vec![0, 2, 3]);
    assert_eq!(block_of(&f, 1).iseq, vec![5, 6]);
    assert_eq!(f.inst_table.len(), 7);
    // a second pass has nothing to do: the users are as they were
    DeadCodeEliminationOnFunction { func: &mut f }.run();
    assert_eq!(block_of(&f, 0).iseq, vec![0, 2, 3]);
}

#[test]
fn internal_and_empty_functions_are_left_alone() {
    let mut internal = function(vec![vec![inst(Opcode::Add, &[], 0)]]);
    internal.is_internal = true;
    let empty = function(vec![]);
    assert!(empty.is_empty());
    let plain = function(vec![vec![inst(Opcode::Add, &[], 0), inst(Opcode::Ret, &[], 0)]]);
    let mut m = Module { functions: vec![internal, empty, plain] };
    DeadCodeElimination::new().run_on_module(&mut m);
    assert_eq!(block_of(&m.functions[0], 0).iseq, vec![0]);
    assert_eq!(block_of(&m.functions[2], 0).iseq, vec![1]);
}

#[test]
fn a_dead_instruction_puts_what_it_reads_on_the_worklist() {
    let mut dead = inst(Opcode::Add, &[4, 7], 0);
    dead.id = Some(9);
    let (mut list, mut work) = (vec![1], vec![2]);
    check_if_elimination_possible(&dead, &mut list, &mut work);
    assert_eq!(list, vec![1, 9]);
    assert_eq!(work, vec![2, 4, 7]);
    dead.operand = InstOperand::Args(vec![
        Value::Immediate(3),
        Value::Instruction(InstructionValue { id: 5, ty: Type::i32 }),
        Value::Argument(0),
    ]);
    check_if_elimination_possible(&dead, &mut list, &mut work);
    assert_eq!(list, vec![1, 9, 9]);
    assert_eq!(work, vec![2, 4, 7, 5]);
    dead.users.push(3);
    check_if_elimination_possible(&dead, &mut list, &mut work);
    assert_eq!(list.len(), 3);
    let mut store = inst(Opcode::Store, &[4], 0);
    store.id = Some(1);
    check_if_elimination_possible(&store, &mut list, &mut work);
    assert_eq!(list.len(), 3);
    assert_eq!(work.len(), 4);
    assert!(Opcode::Br.is_terminator() && Opcode::CondBr.is_terminator());
    assert!(Opcode::Ret.is_terminator() && !Opcode::Call.is_terminator());
}

#[test]
fn blocks_find_and_lose_instructions() {
    let mut f = function(vec![vec![
        inst(Opcode::Add, &[], 0),
        inst(Opcode::Sub, &[], 0),
        inst(Opcode::Ret, &[], 0),
    ]]);
    assert_eq!(block_of(&f, 0).find_inst_pos(1), Some(1));
    assert_eq!(block_of(&f, 0).find_inst_pos(5), None);
    assert_eq!(block_of(&f, 0).iseq_ref().len(), 3);
    f.remove_inst(1);
    assert_eq!(block_of(&f, 0).iseq, vec![0, 2]);
}

#[test]
fn liveness_records_of_blocks_are_united() {
    let mut a = LivenessInfo::new();
    a.def.insert(1);
    a.live_in.insert(2);
    let mut b = LivenessInfo::new();
    b.def.insert(3);
    b.live_out.insert(4);
    a.merge(b);
    assert!(a.def.contains(&1) && a.def.contains(&3) && a.def.len() == 2);
    assert!(a.live_in.contains(&2) && a.live_in.len() == 1);
    assert!(a.live_out.contains(&4) && a.live_out.len() == 1);
}
