use rustc_hash::FxHashMap;
use sericum::isel::{patterns, select_node, X64Rule, RBP};
use sericum::node::{
    FrameIndexInfo, IRNode, IROpcode, ImmediateKind, MINode, MachineOpcode, MemKind, Node,
    NodeId, NodePool, OperandNode,
};
use sericum::pat_build::{
    add, any, any_i32_imm, any_imm32_power_of_2, any_reg, i32_imm, ir, null_imm, reg_class,
    reorder_patterns, slot,
};
use sericum::pat_match::{MatchContext, NameMap, Pat};
use sericum::register::{PhysReg, RegisterClassKind, RegisterId, RegistersInfo, VirtOrPhys};
use sericum::select::{inst_select, Generate, ReplacedNodeMap};
use sericum::types::{MVType, Type};

#[derive(Clone, Copy, Debug, PartialEq)]
enum Rule {
    Fold,
    Pick,
    Eleven,
    Lower,
    Same,
}

impl Generate for Rule {
    fn generate(&self, m: &NameMap, c: &mut MatchContext) -> Option<NodeId> {
        match self {
            Rule::Fold => {
                let lhs = m.get("c")?;
                let d = c.arena.get(m.get("d")?)?.as_i32();
                let e = c.arena.get(m.get("e")?)?.as_i32();
                let rhs = c.arena.allocate(Node::Operand(OperandNode::i32(d + e)));
                Some(c.arena.allocate(Node::IR(
                    IRNode::new(IROpcode::Add).args(vec![lhs, rhs]).ty(Type::i32),
                )))
            }
            Rule::Pick => m.get("i"),
            Rule::Eleven => Some(c.arena.allocate(Node::Operand(OperandNode::i32(11)))),
            Rule::Lower => {
                let x = m.get("x")?;
                let args = c.arena.get(x)?.args();
                Some(c.arena.allocate(Node::MI(
                    MINode::new(MachineOpcode::ADDrr32)
                        .args(args)
                        .reg_class(RegisterClassKind::GR32),
                )))
            }
            Rule::Same => m.get("x"),
        }
    }
}

fn context() -> MatchContext {
    MatchContext { arena: NodePool::new(), regs: RegistersInfo::new() }
}

fn imm(c: &mut MatchContext, v: i32) -> NodeId {
    c.arena.allocate(Node::Operand(OperandNode::Imm(ImmediateKind::Int32(v))))
}

fn op(c: &mut MatchContext, opcode: IROpcode, args: Vec<NodeId>) -> NodeId {
    c.arena.allocate(Node::IR(IRNode::new(opcode).args(args).ty(Type::i32)))
}

fn outcome(c: &MatchContext, id: NodeId, pat: &Pat<Rule>) -> (Option<Option<Rule>>, NameMap) {
    let mut m = NameMap::new();
    let r = sericum::pat_match::matches(c, id, pat, &mut m);
    (r, m)
}

#[test]
fn xxx() {
    let mut c = context();
    let imm1 = imm(&mut c, 2);
    let imm2 = imm(&mut c, 5);
    let node = op(&mut c, IROpcode::Sub, vec![imm1, imm2]);

    let pat: Pat<Rule> = ir(IROpcode::Add)
        .args(vec![
            ir(IROpcode::Add)
                .args(vec![
                    reg_class(RegisterClassKind::GR32).named("c").into(),
                    any_i32_imm().named("d").into(),
                ])
                .into(),
            (i32_imm(3) | i32_imm(5)).named("e").into(),
        ])
        .generate(Rule::Fold)
        .into();

    let p: Pat<Rule> = (ir(IROpcode::Add)
        .args(vec![any_i32_imm().named("i").into(), any_i32_imm().into()])
        | ir(IROpcode::Sub).args(vec![any_i32_imm().named("i").into(), any_i32_imm().into()]))
    .named("x")
    .generate(Rule::Pick)
    .into();

    let pats = vec![pat, p, i32_imm(7).named("E").generate(Rule::Eleven).into()];

    let _new_node = inst_select(&mut ReplacedNodeMap::default(), &mut c, node, &pats, usize::MAX);
}

#[test]
fn first_matching_pattern_rewrites_and_is_recorded() {
    let mut c = context();
    let imm1 = imm(&mut c, 2);
    let imm2 = imm(&mut c, 5);
    let node = op(&mut c, IROpcode::Sub, vec![imm1, imm2]);
    let p: Pat<Rule> = (ir(IROpcode::Add)
        .args(vec![any_i32_imm().named("i").into(), any_i32_imm().into()])
        | ir(IROpcode::Sub).args(vec![any_i32_imm().named("i").into(), any_i32_imm().into()]))
    .named("x")
    .generate(Rule::Pick)
    .into();
    let pats = vec![p, i32_imm(7).named("E").generate(Rule::Eleven).into()];
    let mut replaced = ReplacedNodeMap::default();
    let new_node = inst_select(&mut replaced, &mut c, node, &pats, usize::MAX);
    assert_eq!(new_node, Some(imm1));
    assert_eq!(replaced.get(&node), Some(&imm1));
    assert_eq!(replaced.len(), 1);
    assert_eq!(c.arena.len(), 3);
    // the replacement on record is handed out without matching again
    assert_eq!(inst_select(&mut replaced, &mut c, node, &pats, 0), Some(imm1));
}

#[test]
fn folds_two_adds_of_constants() {
    let mut c = context();
    let reg = c.regs.new_virt_reg(RegisterClassKind::GR32);
    let r = c.arena.allocate(Node::Operand(OperandNode::Reg(reg)));
    let two = imm(&mut c, 2);
    let five = imm(&mut c, 5);
    let add1 = op(&mut c, IROpcode::Add, vec![r, two]);
    let add2 = op(&mut c, IROpcode::Add, vec![add1, five]);
    let pat: Pat<Rule> = ir(IROpcode::Add)
        .args(vec![
            ir(IROpcode::Add)
                .args(vec![
                    reg_class(RegisterClassKind::GR32).named("c").into(),
                    any_i32_imm().named("d").into(),
                ])
                .into(),
            (i32_imm(3) | i32_imm(5)).named("e").into(),
        ])
        .generate(Rule::Fold)
        .into();
    let pats = vec![pat];
    let mut replaced = ReplacedNodeMap::default();
    let new_node = inst_select(&mut replaced, &mut c, add2, &pats, usize::MAX).unwrap();
    assert_ne!(new_node, add2);
    assert_eq!(replaced.get(&add2), Some(&new_node));
    match c.arena.get(new_node).unwrap() {
        Node::IR(n) => {
            assert_eq!(n.opcode, IROpcode::Add);
            assert_eq!(n.args.len(), 2);
            assert_eq!(n.args[0], r);
            assert_eq!(c.arena.get(n.args[1]).unwrap().as_i32(), 7);
        }
        other => panic!("{:?}", other),
    }
}

#[test]
fn a_pattern_that_captures_its_own_node_does_not_loop() {
    let mut c = context();
    let a = imm(&mut c, 1);
    let b = imm(&mut c, 2);
    let root = op(&mut c, IROpcode::Add, vec![a, b]);
    let pat: Pat<Rule> = add(any(), any()).named("x").generate(Rule::Lower);
    let pats = vec![pat];
    let mut replaced = ReplacedNodeMap::default();
    let new_node = inst_select(&mut replaced, &mut c, root, &pats, usize::MAX).unwrap();
    assert_ne!(new_node, root);
    assert_eq!(replaced.get(&root), Some(&new_node));
    match c.arena.get(new_node).unwrap() {
        Node::MI(mi) => {
            assert_eq!(mi.opcode, MachineOpcode::ADDrr32);
            assert_eq!(mi.args, vec![a, b]);
        }
        other => panic!("{:?}", other),
    }
}

#[test]
fn a_rule_that_returns_the_matched_node_runs_out_of_budget() {
    let mut c = context();
    let a = imm(&mut c, 1);
    let b = imm(&mut c, 2);
    let root = op(&mut c, IROpcode::Add, vec![a, b]);
    let pat: Pat<Rule> = add(any(), any()).named("x").generate(Rule::Same);
    let pats = vec![pat];
    let mut replaced = ReplacedNodeMap::default();
    assert_eq!(inst_select(&mut replaced, &mut c, root, &pats, 64), None);
    assert!(replaced.is_empty());
}

#[test]
fn selecting_a_selected_dag_changes_nothing() {
    let mut c = context();
    let a = imm(&mut c, 1);
    let b = imm(&mut c, 2);
    let root = op(&mut c, IROpcode::Add, vec![a, b]);
    let pats: Vec<Pat<Rule>> = vec![add(any(), any()).named("x").generate(Rule::Lower)];
    let mut replaced = ReplacedNodeMap::default();
    let first = inst_select(&mut replaced, &mut c, root, &pats, usize::MAX).unwrap();
    let nodes = c.arena.len();
    let records = replaced.len();
    // the result is a machine instruction whose operands no pattern rewrites
    let mut again = ReplacedNodeMap::default();
    let second = inst_select(&mut again, &mut c, first, &pats, usize::MAX);
    assert_eq!(second, Some(first));
    assert!(again.is_empty());
    assert_eq!(c.arena.len(), nodes);
    assert_eq!(replaced.len(), records);
    match c.arena.get(first).unwrap() {
        Node::MI(mi) => assert_eq!(mi.args, vec![a, b]),
        other => panic!("{:?}", other),
    }
}

#[test]
fn unmatched_node_has_its_operands_selected_in_place() {
    let mut c = context();
    let seven = imm(&mut c, 7);
    let three = imm(&mut c, 3);
    let root = op(&mut c, IROpcode::Mul, vec![seven, three, seven]);
    let pats: Vec<Pat<Rule>> = vec![i32_imm(7).named("E").generate(Rule::Eleven).into()];
    let mut replaced = ReplacedNodeMap::default();
    let r = inst_select(&mut replaced, &mut c, root, &pats, usize::MAX);
    assert_eq!(r, Some(root));
    let eleven = *replaced.get(&seven).unwrap();
    assert_eq!(c.arena.get(eleven).unwrap().as_i32(), 11);
    assert_eq!(c.arena.get(root).unwrap().args(), vec![eleven, three, eleven]);
    assert_eq!(replaced.len(), 1);
}

#[test]
fn store_of_an_immediate_to_a_slot_becomes_one_instruction() {
    let mut c = context();
    let s = c.arena.allocate(Node::Operand(OperandNode::Slot(FrameIndexInfo {
        ty: Type::i32,
        idx: 1,
    })));
    let addr = c.arena.allocate(Node::IR(
        IRNode::new(IROpcode::FIAddr).args(vec![s]).ty(Type::Pointer),
    ));
    let v = imm(&mut c, 42);
    let st = c.arena.allocate(Node::IR(IRNode::new(IROpcode::Store).args(vec![addr, v])));
    let before = c.arena.len();
    let pats = patterns();
    let mut replaced = ReplacedNodeMap::default();
    let new = select_node(&mut c, &mut replaced, &pats, st, usize::MAX).unwrap();
    assert_eq!(replaced.get(&st), Some(&new));
    assert_eq!(replaced.len(), 1);
    assert_eq!(c.arena.len(), before + 3);
    let mut machine = 0;
    for i in 0..c.arena.len() {
        if let Node::MI(_) = c.arena.get(i).unwrap() {
            machine += 1;
        }
    }
    assert_eq!(machine, 1);
    let mi = match c.arena.get(new).unwrap() {
        Node::MI(mi) => mi,
        other => panic!("{:?}", other),
    };
    assert_eq!(mi.opcode, MachineOpcode::MOVmi32);
    assert_eq!(mi.args.len(), 2);
    assert_eq!(c.arena.get(mi.args[1]).unwrap().as_i32(), 42);
    assert_eq!(mi.args[1], v);
    match c.arena.get(mi.args[0]).unwrap() {
        Node::Operand(OperandNode::Mem(MemKind::BaseFi(base, slot))) => {
            assert_eq!(*slot, s);
            match c.arena.get(*base).unwrap() {
                Node::Operand(OperandNode::Reg(r)) => {
                    assert_eq!(r.kind, VirtOrPhys::Phys(PhysReg(RBP)))
                }
                other => panic!("{:?}", other),
            }
        }
        other => panic!("{:?}", other),
    }
}

#[test]
fn load_from_a_slot_becomes_one_instruction() {
    let mut c = context();
    let s = c.arena.allocate(Node::Operand(OperandNode::Slot(FrameIndexInfo {
        ty: Type::i32,
        idx: 0,
    })));
    let addr = c.arena.allocate(Node::IR(
        IRNode::new(IROpcode::FIAddr).args(vec![s]).ty(Type::Pointer),
    ));
    let ld = c.arena.allocate(Node::IR(IRNode::new(IROpcode::Load).args(vec![addr]).ty(Type::i32)));
    let pats = patterns();
    let mut replaced: FxHashMap<usize, usize> = FxHashMap::default();
    let new = inst_select(&mut replaced, &mut c, ld, &pats, usize::MAX).unwrap();
    match c.arena.get(new).unwrap() {
        Node::MI(mi) => {
            assert_eq!(mi.opcode, MachineOpcode::MOVrm32);
            assert_eq!(mi.reg_class, Some(RegisterClassKind::GR32));
            assert_eq!(mi.args.len(), 1);
        }
        other => panic!("{:?}", other),
    }
    // a slot of another type is not matched
    let mut c = context();
    let s = c.arena.allocate(Node::Operand(OperandNode::Slot(FrameIndexInfo {
        ty: Type::i64,
        idx: 0,
    })));
    let addr = c.arena.allocate(Node::IR(IRNode::new(IROpcode::FIAddr).args(vec![s])));
    let ld = c.arena.allocate(Node::IR(IRNode::new(IROpcode::Load).args(vec![addr])));
    let mut replaced = ReplacedNodeMap::default();
    assert_eq!(inst_select(&mut replaced, &mut c, ld, &pats, usize::MAX), Some(ld));
    assert!(replaced.is_empty());
}

#[test]
fn matching_is_repeatable_and_captures_are_below_the_root() {
    let mut c = context();
    let a = imm(&mut c, 4);
    let b = imm(&mut c, 9);
    let inner = op(&mut c, IROpcode::Add, vec![a, b]);
    let root = op(&mut c, IROpcode::Mul, vec![inner, a]);
    let pat: Pat<Rule> = ir(IROpcode::Mul)
        .args(vec![
            add(any_i32_imm().named("l").into(), any().named("r")),
            any_imm32_power_of_2().named("p"),
        ])
        .named("root")
        .generate(Rule::Eleven)
        .into();
    let (r1, m1) = outcome(&c, root, &pat);
    let (r2, m2) = outcome(&c, root, &pat);
    assert_eq!(r1, Some(Some(Rule::Eleven)));
    assert_eq!(r1, r2);
    assert_eq!(m1.len(), 4);
    for i in 0..m1.len() {
        assert_eq!(m1.name_at(i), m2.name_at(i));
        assert_eq!(m1.id_at(i), m2.id_at(i));
    }
    assert_eq!(m1.get("l"), Some(a));
    assert_eq!(m1.get("r"), Some(b));
    assert_eq!(m1.get("p"), Some(a));
    assert_eq!(m1.get("root"), Some(root));
    assert_eq!(m1.get("none"), None);
}

#[test]
fn operand_kinds() {
    let mut c = context();
    let v = c.regs.new_virt_reg(RegisterClassKind::GR64);
    let zero = imm(&mut c, 0);
    let six = imm(&mut c, 6);
    let eight = imm(&mut c, 8);
    let neg = imm(&mut c, -8);
    let reg = c.arena.allocate(Node::Operand(OperandNode::Reg(v)));
    let phys = c.arena.allocate(Node::Operand(OperandNode::Reg(RegisterId::phys(PhysReg(17)))));
    let void_op = c.arena.allocate(Node::IR(IRNode::new(IROpcode::Store)));
    let int_op = op(&mut c, IROpcode::Add, vec![six, eight]);
    let mi = c.arena.allocate(Node::MI(
        MINode::new(MachineOpcode::MOVri32).reg_class(RegisterClassKind::GR32),
    ));
    let empty = c.arena.allocate(Node::Empty);

    let is = |c: &MatchContext, id: NodeId, pat: Pat<Rule>| outcome(c, id, &pat).0.is_some();
    assert!(is(&c, zero, null_imm().into()));
    assert!(!is(&c, six, null_imm().into()));
    assert!(is(&c, eight, any_imm32_power_of_2()));
    assert!(!is(&c, six, any_imm32_power_of_2()));
    assert!(!is(&c, zero, any_imm32_power_of_2()));
    assert!(!is(&c, neg, any_imm32_power_of_2()));
    assert!(is(&c, six, i32_imm(6).into()));
    assert!(!is(&c, six, i32_imm(7).into()));
    assert!(is(&c, reg, reg_class(RegisterClassKind::GR64).into()));
    assert!(!is(&c, reg, reg_class(RegisterClassKind::GR32).into()));
    assert!(is(&c, phys, reg_class(RegisterClassKind::GR32).into()));
    assert!(is(&c, reg, any_reg().into()));
    assert!(!is(&c, six, any_reg().into()));
    // the negation of a kind
    let mut not_imm = any_i32_imm::<Rule>();
    not_imm.not = true;
    assert!(is(&c, reg, not_imm.clone().into()));
    assert!(!is(&c, six, not_imm.into()));
    // an operation stands for the register of its value
    assert!(is(&c, int_op, any()));
    assert!(is(&c, int_op, reg_class(RegisterClassKind::GR32).into()));
    assert!(!is(&c, int_op, reg_class(RegisterClassKind::GR64).into()));
    assert!(is(&c, int_op, any_reg().into()));
    assert!(!is(&c, void_op, any_reg().into()));
    assert!(!is(&c, void_op, reg_class(RegisterClassKind::GR32).into()));
    assert!(!is(&c, int_op, any_i32_imm().into()));
    // a machine instruction matches by its register class
    assert!(is(&c, mi, reg_class(RegisterClassKind::GR32).into()));
    assert!(!is(&c, mi, reg_class(RegisterClassKind::XMM).into()));
    assert!(is(&c, mi, any_reg().into()));
    // the absent operand matches nothing
    assert!(!is(&c, empty, any()));
}

#[test]
fn operation_patterns_are_held_to_arity_and_type() {
    let mut c = context();
    let a = imm(&mut c, 1);
    let b = imm(&mut c, 2);
    let two = op(&mut c, IROpcode::Add, vec![a, b]);
    let three = op(&mut c, IROpcode::Add, vec![a, b, a]);
    let pat2: Pat<Rule> = add(any().named("x"), any().named("y"));
    assert_eq!(outcome(&c, two, &pat2).0, Some(None));
    let (r, m) = outcome(&c, three, &pat2);
    assert_eq!(r, None);
    // what the operands bound stays bound
    assert_eq!(m.get("x"), Some(a));
    assert_eq!(m.get("y"), Some(b));
    let typed: Pat<Rule> = add(any(), any()).ty(Type::i32);
    assert_eq!(outcome(&c, two, &typed).0, Some(None));
    let typed: Pat<Rule> = add(any(), any()).ty(Type::i64);
    assert_eq!(outcome(&c, two, &typed).0, None);
    let sub: Pat<Rule> = ir(IROpcode::Sub).args(vec![any(), any()]).into();
    assert_eq!(outcome(&c, two, &sub).0, None);
    assert_eq!(outcome(&c, a, &pat2).0, None);
    let _ = MVType::i32;
}

#[test]
fn compound_takes_the_first_alternative_and_its_rewrite() {
    let mut c = context();
    let six = imm(&mut c, 6);
    let alt: Pat<Rule> = (i32_imm(3).generate(Rule::Fold) | i32_imm(6).generate(Rule::Pick))
        .named("n")
        .generate(Rule::Eleven)
        .into();
    let (r, m) = outcome(&c, six, &alt);
    assert_eq!(r, Some(Some(Rule::Pick)));
    assert_eq!(m.get("n"), Some(six));
    let alt: Pat<Rule> = (i32_imm(3) | i32_imm(6)).generate(Rule::Eleven).into();
    assert_eq!(outcome(&c, six, &alt).0, Some(Some(Rule::Eleven)));
    let alt: Pat<Rule> = (i32_imm(3) | i32_imm(4)).generate(Rule::Eleven).into();
    assert_eq!(outcome(&c, six, &alt).0, None);
}

#[test]
fn patterns_are_ordered_by_depth() {
    let shallow: Pat<Rule> = any().named("a");
    let deep: Pat<Rule> = add(add(any(), any()), any()).named("c");
    let middle: Pat<Rule> = add(any(), any()).named("b");
    let other: Pat<Rule> = any().named("d");
    assert_eq!(shallow.depth(), 1);
    assert_eq!(middle.depth(), 2);
    assert_eq!(deep.depth(), 3);
    let sorted = reorder_patterns(vec![shallow, deep, middle, other]);
    let names: Vec<&str> = sorted
        .iter()
        .map(|p| match p {
            Pat::IR(p) => p.name,
            Pat::Operand(p) => p.name,
            _ => "",
        })
        .collect();
    assert_eq!(names, vec!["c", "b", "a", "d"]);
}

#[test]
fn names_are_bound_once() {
    let mut m = NameMap::new();
    m.insert("a", 1);
    m.insert("b", 2);
    m.insert("a", 3);
    assert_eq!(m.len(), 2);
    assert_eq!(m.get("a"), Some(3));
    assert_eq!(m.name_at(0), "a");
    assert_eq!(m.id_at(1), 2);
}
