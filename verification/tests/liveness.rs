use sericum::live_range::{LiveRange, LiveSegment};
use sericum::live_reg_matrix::LiveRegMatrix;
use sericum::liveness::LivenessAnalysis;
use sericum::liveness_info::LivenessInfo;
use sericum::machine::{
    InstructionArena, MachineBasicBlock, MachineBasicBlocks, MachineFunction,
    MachineFunctionBody, MachineInst, MachineMemOperand, MachineOperand,
};
use sericum::node::{FrameIndexInfo, MachineOpcode};
use sericum::program_point::{ProgramPoint, ProgramPoints};
use sericum::register::{
    is_callee_saved_reg, PhysReg, RegKey, RegisterClassKind, RegisterId, RegistersInfo, VirtReg,
};
use sericum::types::Type;

fn virt(n: usize) -> RegisterId {
    RegisterId::virt(VirtReg(n))
}

fn phys(n: usize) -> RegisterId {
    RegisterId::phys(PhysReg(n))
}

fn function(blocks: Vec<(Vec<usize>, Vec<MachineInst>)>) -> MachineFunction {
    let mut inst_arena = InstructionArena::new();
    let mut basic_blocks = MachineBasicBlocks::new();
    for (i, (preds, insts)) in blocks.into_iter().enumerate() {
        let mut bb = MachineBasicBlock::new();
        for p in preds {
            bb.pred.insert(p);
        }
        for inst in insts {
            let id = inst_arena.allocate(inst);
            bb.iseq_ref_mut().push(id);
        }
        basic_blocks.add_block(bb);
        basic_blocks.order.push(i);
    }
    for b in 0..basic_blocks.arena.len() {
        let preds: Vec<usize> = basic_blocks.block(b).pred.iter().copied().collect();
        for p in preds {
            basic_blocks.block_mut(p).succ.insert(b);
        }
    }
    MachineFunction {
        id: None,
        name: "f".to_string(),
        ty: Type::Void,
        body: MachineFunctionBody { inst_arena, basic_blocks },
        is_internal: false,
        regs_info: RegistersInfo::new(),
    }
}

fn def(opcode: MachineOpcode, r: RegisterId, operands: Vec<MachineOperand>, bb: usize) -> MachineInst {
    MachineInst::new_simple(opcode, operands, bb).with_def(vec![r])
}

fn reads(opcode: MachineOpcode, regs: Vec<RegisterId>, bb: usize) -> MachineInst {
    MachineInst::new_simple(
        opcode,
        regs.into_iter().map(MachineOperand::Register).collect(),
        bb,
    )
}

fn spans(m: &LiveRegMatrix, r: &LiveRange) -> Vec<(usize, usize, usize, usize)> {
    let pps = &m.program_points;
    r.segments
        .iter()
        .map(|s| (s.start.bb(pps), s.start.idx(pps), s.end.bb(pps), s.end.idx(pps)))
        .collect()
}

fn place(m: &LiveRegMatrix, p: ProgramPoint) -> (usize, usize) {
    (p.bb(&m.program_points), p.idx(&m.program_points))
}

#[test]
fn a_register_defined_in_one_block_and_used_in_the_next_is_live_between() {
    let r = virt(0);
    let mut f = function(vec![
        (vec![], vec![def(MachineOpcode::MOVri32, r, vec![], 0)]),
        (vec![0], vec![reads(MachineOpcode::RET, vec![r], 1)]),
    ]);
    let m = LivenessAnalysis::new().analyze_function(&mut f);
    let code = r.to_code();
    let a = &f.body.basic_blocks.liveness[&0];
    let b = &f.body.basic_blocks.liveness[&1];
    assert!(a.def.contains(&code));
    assert!(a.live_out.contains(&code));
    assert!(!a.live_in.contains(&code));
    assert!(b.live_in.contains(&code));
    assert!(!b.def.contains(&code));
    assert!(!b.live_out.contains(&code));
    assert!(!a.has_call);

    // the points: the entry, one per instruction and the exit of each block
    let pps = &m.program_points;
    let all: Vec<(usize, usize)> =
        (0..pps.len()).map(|h| place(&m, ProgramPoint::new(h))).collect();
    assert_eq!(all, vec![(0, 0), (0, 16), (0, 32), (1, 0), (1, 16), (1, 32), (2, 0)]);
    assert_eq!(place(&m, m.get_program_point(0).unwrap()), (0, 16));
    assert_eq!(place(&m, m.get_program_point(1).unwrap()), (1, 16));
    assert!(m.get_program_point(2).is_none());

    // the range: from the definition to the exit, and from the entry to the use
    let interval = m.virt_reg_interval.get(&VirtReg(0)).unwrap();
    assert_eq!(spans(&m, &interval.range), vec![(0, 16, 0, 32), (1, 0, 1, 16)]);
    assert_eq!(interval.vreg, VirtReg(0));
    assert_eq!(interval.reg, None);
    assert_eq!(interval.spill_weight, 0);
    assert!(interval.is_spillable);
    assert_eq!(m.get_entity_by_vreg(VirtReg(0)), Some(&r));
    assert_eq!(m.collect_virt_regs(), vec![VirtReg(0)]);
}

#[test]
fn a_register_read_before_it_is_written_in_a_block_is_live_at_its_entry() {
    // 0 -> 1; block 1 reads r, then writes r
    let r = virt(5);
    let mut f = function(vec![
        (vec![], vec![def(MachineOpcode::MOVri32, r, vec![], 0)]),
        (
            vec![0],
            vec![
                reads(MachineOpcode::ADDrr32, vec![r], 1),
                def(MachineOpcode::MOVri32, r, vec![], 1),
            ],
        ),
    ]);
    let _ = LivenessAnalysis::new().analyze_function(&mut f);
    let l = &f.body.basic_blocks.liveness;
    let c = r.to_code();
    assert!(l[&1].def.contains(&c));
    assert!(l[&1].live_in.contains(&c));
    assert!(!l[&1].live_out.contains(&c));
    assert!(l[&0].live_out.contains(&c));
    assert!(!l[&0].live_in.contains(&c));
}

#[test]
fn a_register_written_before_it_is_read_in_a_block_is_not_live_at_its_entry() {
    // 0 -> 1; block 1 writes r, then reads r
    let r = virt(5);
    let mut f = function(vec![
        (vec![], vec![]),
        (
            vec![0],
            vec![
                def(MachineOpcode::MOVri32, r, vec![], 1),
                reads(MachineOpcode::ADDrr32, vec![r], 1),
            ],
        ),
    ]);
    let _ = LivenessAnalysis::new().analyze_function(&mut f);
    let l = &f.body.basic_blocks.liveness;
    let c = r.to_code();
    assert!(l[&1].def.contains(&c));
    assert!(!l[&1].live_in.contains(&c));
    assert!(!l[&0].live_out.contains(&c));
    assert!(!l[&0].live_in.contains(&c));
}

#[test]
fn a_register_read_around_a_loop_that_writes_it_later_stays_live() {
    // 0 -> 1 -> 1; block 1 reads r and then writes it
    let r = virt(2);
    let mut f = function(vec![
        (vec![], vec![def(MachineOpcode::MOVri32, r, vec![], 0)]),
        (
            vec![0, 1],
            vec![
                reads(MachineOpcode::ADDrr32, vec![r], 1),
                def(MachineOpcode::MOVri32, r, vec![], 1),
            ],
        ),
    ]);
    let _ = LivenessAnalysis::new().analyze_function(&mut f);
    let l = &f.body.basic_blocks.liveness;
    let c = r.to_code();
    assert!(l[&1].live_in.contains(&c) && l[&1].live_out.contains(&c));
    assert!(l[&0].live_out.contains(&c) && !l[&0].live_in.contains(&c));
}

#[test]
fn a_block_that_left_the_order_gets_no_record() {
    // block 1 was joined to block 0 and is no longer in the order
    let r = virt(1);
    let mut f = function(vec![
        (
            vec![],
            vec![
                def(MachineOpcode::MOVri32, r, vec![], 0),
                reads(MachineOpcode::RET, vec![r], 0),
            ],
        ),
        (vec![0], vec![reads(MachineOpcode::RET, vec![r], 1)]),
    ]);
    f.body.basic_blocks.order = vec![0];
    let _ = LivenessAnalysis::new().analyze_function(&mut f);
    let l = &f.body.basic_blocks.liveness;
    assert_eq!(l.len(), 1);
    assert!(l[&0].def.contains(&r.to_code()));
    assert!(l[&0].live_in.is_empty() && l[&0].live_out.is_empty());
}

#[test]
fn a_physical_register_that_is_read_is_held_at_the_entry() {
    // the 32-bit accumulator is read, then its 64-bit alias: the wider one stays
    let mut f = function(vec![
        (vec![], vec![]),
        (vec![0], vec![reads(MachineOpcode::ADDrr32, vec![phys(16), phys(32)], 1)]),
    ]);
    let _ = LivenessAnalysis::new().analyze_function(&mut f);
    let l = &f.body.basic_blocks.liveness;
    assert!(l[&1].live_in.contains(&32) && !l[&1].live_in.contains(&16));
    assert!(l[&0].live_out.contains(&32) && l[&0].live_in.contains(&32));
}

#[test]
fn liveness_runs_backwards_through_a_loop() {
    // 0 -> 1 -> 2, 2 -> 1; r is defined in 0 and used in 2
    let r = virt(3);
    let s = virt(4);
    let mut f = function(vec![
        (vec![], vec![def(MachineOpcode::MOVri32, r, vec![], 0)]),
        (vec![0, 2], vec![def(MachineOpcode::MOVri32, s, vec![], 1)]),
        (vec![1], vec![reads(MachineOpcode::ADDrr32, vec![r, s], 2)]),
    ]);
    let _ = LivenessAnalysis::new().analyze_function(&mut f);
    let l = &f.body.basic_blocks.liveness;
    let (rc, sc) = (r.to_code(), s.to_code());
    assert!(l[&0].live_out.contains(&rc) && !l[&0].live_in.contains(&rc));
    assert!(l[&1].live_in.contains(&rc) && l[&1].live_out.contains(&rc));
    assert!(l[&2].live_in.contains(&rc) && l[&2].live_out.contains(&rc));
    assert!(l[&1].def.contains(&sc) && l[&1].live_out.contains(&sc));
    assert!(!l[&1].live_in.contains(&sc));
    assert!(l[&2].live_in.contains(&sc));
    assert!(!l[&0].live_out.contains(&sc));
}

#[test]
fn calls_and_memory_operands() {
    let base = virt(1);
    let mem = MachineOperand::Mem(MachineMemOperand::BaseFi(
        base,
        FrameIndexInfo { ty: Type::i32, idx: 0 },
    ));
    assert_eq!(mem.registers(), vec![base]);
    assert_eq!(MachineOperand::Branch(3).registers(), vec![]);
    let call = MachineInst::new_simple(MachineOpcode::CALL, vec![mem], 0)
        .with_imp_uses(vec![phys(39)])
        .with_imp_defs(vec![phys(32)]);
    assert_eq!(call.collect_used_regs(), vec![base, phys(39)]);
    assert_eq!(call.collect_defined_regs(), vec![phys(32)]);
    let mut f = function(vec![(
        vec![],
        vec![def(MachineOpcode::MOVri32, base, vec![], 0), call],
    )]);
    let m = LivenessAnalysis::new().analyze_function(&mut f);
    let l = &f.body.basic_blocks.liveness[&0];
    assert!(l.has_call);
    assert!(l.def.contains(&32));
    assert!(l.live_in.is_empty());
    // RAX is written at the call, RDI is read there without a range
    let rax = m.phys_reg_range.get(PhysReg(32)).unwrap();
    assert_eq!(spans(&m, rax), vec![(0, 32, 0, 32)]);
    assert!(m.phys_reg_range.get(PhysReg(39)).is_none());
    let v = m.virt_reg_interval.get(&VirtReg(1)).unwrap();
    assert_eq!(spans(&m, &v.range), vec![(0, 16, 0, 32)]);
}

#[test]
fn a_wider_register_takes_the_place_of_a_narrower_alias() {
    let mut l = LivenessInfo::new();
    assert!(l.add_def(phys(16))); // EAX
    assert!(!l.add_def(phys(16)));
    assert!(l.add_def(phys(32))); // RAX takes its place
    assert!(l.def.contains(&32));
    assert!(!l.def.contains(&16));
    assert!(!l.add_def(phys(0))); // AL is covered by RAX
    assert!(!l.add_def(phys(16)));
    assert_eq!(l.def.len(), 1);
    assert!(l.add_def(phys(17))); // ECX is another file entry
    assert!(l.add_def(phys(48))); // XMM0 has no alias
    assert!(l.add_def(virt(0)));
    assert!(!l.add_def(virt(0)));
    assert_eq!(l.def.len(), 4);
    assert!(l.add_live_in(phys(1)));
    assert!(l.add_live_in(phys(33)));
    assert!(!l.live_in.contains(&1));
    assert!(l.add_live_out(phys(18)));
    assert!(!l.add_live_out(phys(2)));
    assert!(l.live_out.contains(&18));
}

#[test]
fn callee_saved_registers_are_not_recorded() {
    for n in [3, 5, 12, 13, 14, 15, 19, 21, 28, 35, 37, 44, 47] {
        assert!(is_callee_saved_reg(PhysReg(n)), "{}", n);
    }
    for n in [0, 1, 2, 4, 6, 11, 16, 32, 36, 43, 48, 51, 53, 63] {
        assert!(!is_callee_saved_reg(PhysReg(n)), "{}", n);
    }
    let mut l = LivenessInfo::new();
    assert!(!l.add_def(phys(35)));
    assert!(!l.add_live_in(phys(37)));
    assert!(!l.add_live_out(phys(19)));
    assert!(l.def.is_empty() && l.live_in.is_empty() && l.live_out.is_empty());
}

#[test]
fn register_keys_and_codes() {
    assert_eq!(RegKey::from_phys(PhysReg(0)).0, 32);
    assert_eq!(RegKey::from_phys(PhysReg(16)).0, 32);
    assert_eq!(RegKey::from_phys(PhysReg(32)).0, 32);
    assert_eq!(RegKey::from_phys(PhysReg(21)).0, 37);
    assert_eq!(RegKey::from_phys(PhysReg(50)).0, 50);
    assert_eq!(PhysReg(37).sub_reg(), Some(PhysReg(21)));
    assert_eq!(PhysReg(21).sub_reg(), Some(PhysReg(5)));
    assert_eq!(PhysReg(5).sub_reg(), None);
    assert_eq!(PhysReg(5).super_reg(), Some(PhysReg(21)));
    assert_eq!(PhysReg(37).super_reg(), None);
    assert_eq!(PhysReg(50).sub_reg(), None);
    assert_eq!(PhysReg(50).super_reg(), None);
    assert_eq!(virt(7).to_code(), 71);
    assert_eq!(phys(7).to_code(), 7);
    assert_eq!(RegisterId::from_code(71), virt(7));
    assert_eq!(RegisterId::from_code(63), phys(63));
}

#[test]
fn merging_records_adds_the_registers_of_the_other() {
    let mut a = LivenessInfo::new();
    a.add_def(phys(16));
    a.add_live_in(virt(1));
    a.add_phys_def(PhysReg(16));
    let mut b = LivenessInfo::new();
    b.add_def(phys(32));
    b.add_def(virt(2));
    b.add_live_out(virt(1));
    b.add_phys_def(PhysReg(49));
    b.has_call = true;
    a.merge(b);
    assert!(a.def.contains(&32) && !a.def.contains(&16) && a.def.contains(&66));
    assert!(a.live_in.contains(&65) && a.live_out.contains(&65));
    assert!(a.has_call);
    assert!(a.phys_def.contains(&32) && a.phys_def.contains(&49));
    assert_eq!(a.phys_def.len(), 2);
    a.clear();
    assert!(a.def.is_empty() && a.live_in.is_empty() && a.live_out.is_empty());
    assert!(a.phys_def.is_empty() && !a.has_call);
}

fn two_register_matrix() -> (MachineFunction, LiveRegMatrix) {
    // v0 lives over the first two instructions, v1 over the last two
    let mut f = function(vec![(
        vec![],
        vec![
            def(MachineOpcode::MOVri32, virt(0), vec![], 0),
            def(MachineOpcode::MOVrr32, virt(1), vec![MachineOperand::Register(virt(0))], 0),
            reads(MachineOpcode::RET, vec![virt(1)], 0),
        ],
    )]);
    let m = LivenessAnalysis::new().analyze_function(&mut f);
    (f, m)
}

#[test]
fn ranges_that_touch_do_not_interfere_in_the_matrix() {
    let (_f, m) = two_register_matrix();
    let v0 = &m.virt_reg_interval.get(&VirtReg(0)).unwrap().range;
    let v1 = &m.virt_reg_interval.get(&VirtReg(1)).unwrap().range;
    assert_eq!(spans(&m, v0), vec![(0, 16, 0, 32)]);
    assert_eq!(spans(&m, v1), vec![(0, 32, 0, 48)]);
    assert!(!m.interferes_virt_regs(VirtReg(0), VirtReg(1)));
    assert!(m.interferes_virt_regs(VirtReg(0), VirtReg(0)));
    assert!(!m.interferes(VirtReg(0), PhysReg(16)));
    assert!(m.interferes_with_range(VirtReg(1), v1));
    assert!(!m.interferes_with_range(VirtReg(9), v1));
    assert!(!m.interferes_phys_with_range(PhysReg(16), v1));
}

#[test]
fn assigning_then_unassigning_restores_the_occupied_range() {
    let (_f, mut m) = two_register_matrix();
    let eax = PhysReg(16);
    m.assign_reg(VirtReg(0), eax);
    let before = spans(&m, m.phys_reg_range.get(eax).unwrap());
    assert_eq!(before, vec![(0, 16, 0, 32)]);
    assert_eq!(m.virt_reg_interval.get(&VirtReg(0)).unwrap().reg, Some(eax));
    assert!(m.interferes(VirtReg(0), eax));
    // the wider alias has the same range
    assert!(m.interferes(VirtReg(0), PhysReg(32)));
    assert!(!m.interferes(VirtReg(1), eax));
    assert_eq!(m.collect_interfering_assigned_regs(VirtReg(1)), vec![]);

    m.assign_reg(VirtReg(1), eax);
    assert_eq!(spans(&m, m.phys_reg_range.get(eax).unwrap()), vec![(0, 16, 0, 48)]);
    assert_eq!(m.unassign_reg(VirtReg(1)), Some(eax));
    assert_eq!(spans(&m, m.phys_reg_range.get(eax).unwrap()), before);
    assert_eq!(m.unassign_reg(VirtReg(1)), None);
    assert_eq!(m.virt_reg_interval.get(&VirtReg(1)).unwrap().reg, None);

    assert_eq!(m.unassign_reg(VirtReg(0)), Some(eax));
    assert_eq!(spans(&m, m.phys_reg_range.get(eax).unwrap()), vec![]);
}

#[test]
fn interfering_assigned_registers_are_collected() {
    let mut f = function(vec![(
        vec![],
        vec![
            def(MachineOpcode::MOVri32, virt(0), vec![], 0),
            def(MachineOpcode::MOVri32, virt(1), vec![], 0),
            def(MachineOpcode::MOVri32, virt(2), vec![], 0),
            reads(MachineOpcode::ADDrr32, vec![virt(0), virt(1)], 0),
            reads(MachineOpcode::RET, vec![virt(2)], 0),
        ],
    )]);
    let mut m = LivenessAnalysis::new().analyze_function(&mut f);
    m.assign_reg(VirtReg(0), PhysReg(16));
    m.assign_reg(VirtReg(2), PhysReg(17));
    let mut found = m.collect_interfering_assigned_regs(VirtReg(1));
    found.sort_by_key(|v| v.0);
    assert_eq!(found, vec![VirtReg(0), VirtReg(2)]);
    let mut found = m.collect_interfering_assigned_regs(VirtReg(0));
    found.sort_by_key(|v| v.0);
    assert_eq!(found, vec![VirtReg(2)]);
}

#[test]
fn merging_registers_unites_their_ranges() {
    let (_f, mut m) = two_register_matrix();
    let mut regs = RegistersInfo::new();
    let r0 = regs.new_virt_reg(RegisterClassKind::GR32);
    let r1 = regs.new_virt_reg(RegisterClassKind::GR32);
    assert_eq!((r0, r1), (virt(0), virt(1)));
    regs.add_def(r0, 0);
    regs.add_use(r0, 2);
    regs.add_def(r1, 1);
    regs.add_use(r1, 2);
    regs.add_use(r1, 3);
    m.merge_virt_regs(&mut regs, VirtReg(0), VirtReg(1));
    let mut uses: Vec<usize> = regs.uses[r0.to_code()].iter().copied().collect();
    uses.sort();
    assert_eq!(uses, vec![2, 3]);
    let mut defs: Vec<usize> = regs.defs[r0.to_code()].iter().copied().collect();
    defs.sort();
    assert_eq!(defs, vec![0, 1]);
    assert_eq!(regs.uses[r1.to_code()].len(), 2);
    assert!(m.virt_reg_interval.get(&VirtReg(1)).is_none());
    assert_eq!(m.get_entity_by_vreg(VirtReg(1)), None);
    let v0 = &m.virt_reg_interval.get(&VirtReg(0)).unwrap().range;
    assert_eq!(spans(&m, v0), vec![(0, 16, 0, 48)]);

    let (_f, mut m) = two_register_matrix();
    m.assign_reg(VirtReg(0), PhysReg(18));
    m.merge_regs(PhysReg(18), VirtReg(1));
    assert!(m.virt_reg_interval.get(&VirtReg(1)).is_none());
    assert_eq!(spans(&m, m.phys_reg_range.get(PhysReg(18)).unwrap()), vec![(0, 16, 0, 48)]);
}

#[test]
fn a_point_between_two_points_bisects_or_renumbers() {
    let (_f, mut m) = two_register_matrix();
    let at = |pps: &ProgramPoints, p: ProgramPoint| (p.bb(pps), p.idx(pps));
    let first = m.get_program_point(0).unwrap();
    let second = m.get_program_point(1).unwrap();
    let pps = &mut m.program_points;
    // half way between (0, 16) and (0, 32)
    let mut p = pps.next_of(first);
    assert_eq!(at(pps, p), (0, 24));
    for want in [28, 30, 31] {
        p = pps.next_of(p);
        assert_eq!(at(pps, p), (0, want));
    }
    assert_eq!(at(pps, second), (0, 32));
    // no index is free between 31 and 32: the rest of the block moves on
    let q = pps.next_of(p);
    assert_eq!(at(pps, p), (0, 31));
    assert_eq!(at(pps, second), (0, 48));
    assert_eq!(at(pps, q), (0, 39));
    // the ranges follow, as they hold handles
    let v1 = &m.virt_reg_interval.get(&VirtReg(1)).unwrap().range;
    assert_eq!(spans(&m, v1), vec![(0, 48, 0, 64)]);
    let pps = &mut m.program_points;
    let before_first = pps.prev_of(first);
    assert_eq!(at(pps, before_first), (0, 8));
    // at the edge of a block the new point closes the block before
    let entry = pps.lookup(1, 0).unwrap();
    let closing = pps.prev_of(entry);
    assert_eq!(at(pps, closing), (0, 96));
    assert!(pps.precedes(closing, entry));
    assert!(!pps.same_place(closing, entry));
    assert!(pps.lookup(0, 97).is_none());
}

#[test]
fn a_range_can_be_shortened_through_its_end() {
    let (_f, m) = two_register_matrix();
    let first = m.get_program_point(0).unwrap();
    let pps = &m.program_points;
    let mut r = LiveRange::new_empty();
    assert!(r.end_point_mut(pps).is_none());
    r.add_segment(pps, LiveSegment::new(first, m.get_program_point(2).unwrap()));
    *r.end_point_mut(pps).unwrap() = m.get_program_point(1).unwrap();
    assert_eq!(spans(&m, &r), vec![(0, 16, 0, 32)]);
    let seg = r.find_nearest_starting_segment_mut(pps, &m.get_program_point(2).unwrap()).unwrap();
    seg.end = m.get_program_point(2).unwrap();
    assert_eq!(spans(&m, &r), vec![(0, 16, 0, 48)]);
    assert!(r.find_nearest_starting_segment_mut(pps, &first).is_none());
    let iv = m.virt_reg_interval.get(&VirtReg(0)).unwrap();
    assert_eq!(place(&m, iv.start_point(pps).unwrap()), (0, 16));
    assert_eq!(place(&m, iv.end_point(pps).unwrap()), (0, 32));
}
