//! The live register matrix: the live interval of every virtual register,
//! the occupied range of every physical register file entry, and the
//! queries and changes that a register allocator makes on them.

use crate::fx::{map_contains, map_get, map_get_mut, map_insert, map_keys, map_remove};
use crate::live_range::{any_overlap, carve_spans, insert_spans, LiveRange};
use crate::machine::MachineInstId;
use crate::program_point::{ProgramPoint, ProgramPoints};
use crate::register::{PhysReg, RegKey, RegisterId, RegistersInfo, VirtReg};
use rustc_hash::FxHashMap;
use vstd::prelude::*;

verus! {

/// The live range of a virtual register, with what the allocator decided.
pub struct LiveInterval {
    pub vreg: VirtReg,
    pub reg: Option<PhysReg>,
    pub range: LiveRange,
    /// The allocation-hint weight, as the bits of a 32-bit float.
    pub spill_weight: u32,
    pub is_spillable: bool,
}

/// The occupied range of each physical register file entry, by key.
pub struct PhysRegRange(pub FxHashMap<usize, LiveRange>);

/// The live interval of each virtual register, by number.
pub struct VirtRegInterval(pub FxHashMap<usize, LiveInterval>);

/// Everything that liveness says of one function.
pub struct LiveRegMatrix {
    pub virt_regs: FxHashMap<usize, RegisterId>,
    pub id2pp: FxHashMap<MachineInstId, ProgramPoint>,
    pub virt_reg_interval: VirtRegInterval,
    pub phys_reg_range: PhysRegRange,
    pub program_points: ProgramPoints,
}

impl LiveInterval {
    /// An interval without a physical register, weight zero, spillable.
    pub fn new(vreg: VirtReg, range: LiveRange) -> (r: Self)
        ensures
            r.vreg == vreg,
            r.range == range,
            r.reg is None,
            r.spill_weight == 0,
            r.is_spillable,
    {
        Self { vreg, range, reg: None, spill_weight: 0, is_spillable: true }
    }

    pub fn interferes(&self, pps: &ProgramPoints, other: &LiveInterval) -> (r: bool)
        requires
            self.range.valid(pps),
            other.range.valid(pps),
        ensures
            r == any_overlap(self.range.spans(pps), other.range.spans(pps)),
    {
        self.range.interferes(pps, &other.range)
    }

    pub fn start_point(&self, pps: &ProgramPoints) -> (r: Option<ProgramPoint>)
        requires
            self.range.valid(pps),
        ensures
            match r {
                None => self.range.segments@.len() == 0,
                Some(p) => exists|k: int|
                    self.range.first_least_start(pps, k) && p == self.range.segments@[k].start,
            },
    {
        self.range.start_point(pps)
    }

    pub fn end_point(&self, pps: &ProgramPoints) -> (r: Option<ProgramPoint>)
        requires
            self.range.valid(pps),
        ensures
            match r {
                None => self.range.segments@.len() == 0,
                Some(p) => exists|k: int|
                    self.range.last_greatest_end(pps, k) && p == self.range.segments@[k].end,
            },
    {
        self.range.end_point(pps)
    }
}

impl LiveInterval {
    pub fn end_point_mut(&mut self, pps: &ProgramPoints) -> (r: Option<&mut ProgramPoint>)
        requires
            old(self).range.valid(pps),
        ensures
            final(self).vreg == old(self).vreg,
            final(self).reg == old(self).reg,
            final(self).spill_weight == old(self).spill_weight,
            final(self).is_spillable == old(self).is_spillable,
            match r {
                None => old(self).range.segments@.len() == 0 && final(self).range.segments@
                    == old(self).range.segments@,
                Some(p) => exists|k: int|
                    old(self).range.last_greatest_end(pps, k) && *p == old(self).range.segments@[k].end && final(self).range.segments@ == old(self).range.segments@.update(
                        k,
                        crate::live_range::LiveSegment {
                            start: old(self).range.segments@[k].start,
                            end: *final(p),
                        },
                    ),
            },
    {
        self.range.end_point_mut(pps)
    }
}

impl PhysRegRange {
    /// The ranges, by register file key.
    pub open spec fn view(&self) -> Map<usize, LiveRange> {
        self.0@
    }

    /// The spans of the range of the key `key`; none where there is no range.
    pub open spec fn spans_of(&self, pps: &ProgramPoints, key: usize) -> Seq<(int, int)> {
        if self@.contains_key(key) {
            self@[key].spans(pps)
        } else {
            Seq::empty()
        }
    }

    /// The range of `reg`, made empty where there was none.
    pub fn get_or_create(&mut self, reg: PhysReg) -> (r: &mut LiveRange)
        requires
            reg.wf(),
        ensures
            old(self)@.contains_key(reg.key() as usize) ==> *r == old(self)@[reg.key() as usize],
            !old(self)@.contains_key(reg.key() as usize) ==> r.segments@.len() == 0,
            final(self)@ == old(self)@.insert(reg.key() as usize, *final(r)),
    {
        let key = RegKey::from_phys(reg).0;
        if !map_contains(&self.0, key) {
            map_insert(&mut self.0, key, LiveRange::new_empty());
        }
        let ghost mid = self@;
        let r = map_get_mut(&mut self.0, key);
        proof {
            assert(forall|x: LiveRange| #[trigger] mid.insert(key, x) =~= old(self)@.insert(key, x));
        }
        r
    }

    pub fn get(&self, reg: PhysReg) -> (r: Option<&LiveRange>)
        requires
            reg.wf(),
        ensures
            r == (if self@.contains_key(reg.key() as usize) {
                Some(&self@[reg.key() as usize])
            } else {
                None
            }),
    {
        map_get(&self.0, RegKey::from_phys(reg).0)
    }

    pub fn get_mut(&mut self, reg: PhysReg) -> (r: Option<&mut LiveRange>)
        requires
            reg.wf(),
        ensures
            match r {
                Some(x) => old(self)@.contains_key(reg.key() as usize) && *x == old(self)@[reg.key() as usize] && final(self)@ == old(self)@.insert(
                    reg.key() as usize,
                    *final(x),
                ),
                None => !old(self)@.contains_key(reg.key() as usize) && final(self)@ == old(self)@,
            },
    {
        let key = RegKey::from_phys(reg).0;
        if map_contains(&self.0, key) {
            Some(map_get_mut(&mut self.0, key))
        } else {
            None
        }
    }
}

impl VirtRegInterval {
    /// The intervals, by virtual register number.
    pub open spec fn view(&self) -> Map<usize, LiveInterval> {
        self.0@
    }

    pub fn inner(&self) -> (r: &FxHashMap<usize, LiveInterval>)
        ensures
            r@ == self@,
    {
        &self.0
    }

    pub fn inner_mut(&mut self) -> (r: &mut FxHashMap<usize, LiveInterval>)
        ensures
            r@ == old(self)@,
            final(self)@ == final(r)@,
    {
        &mut self.0
    }

    pub fn get(&self, vreg: &VirtReg) -> (r: Option<&LiveInterval>)
        ensures
            r == (if self@.contains_key(vreg.0) {
                Some(&self@[vreg.0])
            } else {
                None
            }),
    {
        map_get(&self.0, vreg.0)
    }

    pub fn get_mut(&mut self, vreg: &VirtReg) -> (r: Option<&mut LiveInterval>)
        ensures
            match r {
                Some(x) => old(self)@.contains_key(vreg.0) && *x == old(self)@[vreg.0] && final(self)@ == old(self)@.insert(vreg.0, *final(x)),
                None => !old(self)@.contains_key(vreg.0) && final(self)@ == old(self)@,
            },
    {
        if map_contains(&self.0, vreg.0) {
            Some(map_get_mut(&mut self.0, vreg.0))
        } else {
            None
        }
    }

    pub fn remove(&mut self, vreg: &VirtReg) -> (r: Option<LiveInterval>)
        ensures
            final(self)@ == old(self)@.remove(vreg.0),
            r == (if old(self)@.contains_key(vreg.0) {
                Some(old(self)@[vreg.0])
            } else {
                None
            }),
    {
        map_remove(&mut self.0, vreg.0)
    }

    /// The interval of `vreg`, made from `range` where there was none.
    pub fn add(&mut self, vreg: VirtReg, range: LiveRange) -> (r: &mut LiveInterval)
        ensures
            old(self)@.contains_key(vreg.0) ==> *r == old(self)@[vreg.0],
            !old(self)@.contains_key(vreg.0) ==> r.vreg == vreg && r.range == range && r.reg is None
                && r.spill_weight == 0 && r.is_spillable,
            final(self)@ == old(self)@.insert(vreg.0, *final(r)),
    {
        if !map_contains(&self.0, vreg.0) {
            map_insert(&mut self.0, vreg.0, LiveInterval::new(vreg, range));
        }
        let ghost mid = self@;
        let r = map_get_mut(&mut self.0, vreg.0);
        proof {
            assert(forall|x: LiveInterval| #[trigger]
                mid.insert(vreg.0, x) =~= old(self)@.insert(vreg.0, x));
        }
        r
    }

    /// The virtual registers that have an interval, in an order that is not
    /// stated.
    pub fn collect_virt_regs(&self) -> (r: Vec<VirtReg>)
        ensures
            r@.len() == self@.dom().len(),
            forall|i: int, j: int| 0 <= i < j < r@.len() ==> r@[i] != r@[j],
            forall|v: usize| self@.contains_key(v) <==> r@.contains(VirtReg(v)),
    {
        let keys = map_keys(&self.0);
        let mut r: Vec<VirtReg> = Vec::new();
        let mut i: usize = 0;
        while i < keys.len()
            invariant
                i <= keys@.len(),
                r@.len() == i,
                forall|j: int| 0 <= j < i ==> r@[j] == VirtReg(keys@[j]),
            decreases keys@.len() - i,
        {
            r.push(VirtReg(keys[i]));
            i += 1;
        }
        proof {
            keys@.unique_seq_to_set();
            assert forall|v: usize| self@.contains_key(v) <==> r@.contains(VirtReg(v)) by {
                if self@.contains_key(v) {
                    assert(keys@.to_set().contains(v));
                    let j = choose|j: int| 0 <= j < keys@.len() && keys@[j] == v;
                    assert(r@[j] == VirtReg(v));
                }
                if r@.contains(VirtReg(v)) {
                    let j = choose|j: int| 0 <= j < r@.len() && r@[j] == VirtReg(v);
                    assert(keys@[j] == v);
                    assert(keys@.to_set().contains(v));
                }
            }
        }
        r
    }
}

impl LiveRegMatrix {
    /// Every range of the matrix is a well-formed range over the program
    /// points of the matrix.
    pub open spec fn wf(&self) -> bool {
        &&& forall|v: usize|
            self.virt_reg_interval@.contains_key(v) ==> (#[trigger] self.virt_reg_interval@[v]).range.wf(
                &self.program_points,
            )
        &&& forall|k: usize|
            self.phys_reg_range@.contains_key(k) ==> (#[trigger] self.phys_reg_range@[k]).wf(
                &self.program_points,
            )
    }

    /// The spans of the interval of the virtual register `v`.
    pub open spec fn virt_spans(&self, v: usize) -> Seq<(int, int)> {
        self.virt_reg_interval@[v].range.spans(&self.program_points)
    }

    /// The spans that the register file entry `key` is occupied for.
    pub open spec fn phys_spans(&self, key: usize) -> Seq<(int, int)> {
        self.phys_reg_range.spans_of(&self.program_points, key)
    }

    pub fn new(
        virt_regs: FxHashMap<usize, RegisterId>,
        id2pp: FxHashMap<MachineInstId, ProgramPoint>,
        virt_reg_interval: VirtRegInterval,
        phys_reg_range: PhysRegRange,
        program_points: ProgramPoints,
    ) -> (r: Self)
        ensures
            r.virt_regs == virt_regs,
            r.id2pp == id2pp,
            r.virt_reg_interval == virt_reg_interval,
            r.phys_reg_range == phys_reg_range,
            r.program_points == program_points,
    {
        Self { virt_regs, id2pp, virt_reg_interval, phys_reg_range, program_points }
    }

    pub fn add_virt_reg(&mut self, reg: RegisterId)
        requires
            reg.kind is Virt,
        ensures
            final(self).virt_regs@ == old(self).virt_regs@.insert(reg.kind->Virt_0.0, reg),
            final(self).id2pp == old(self).id2pp,
            final(self).virt_reg_interval == old(self).virt_reg_interval,
            final(self).phys_reg_range == old(self).phys_reg_range,
            final(self).program_points == old(self).program_points,
    {
        map_insert(&mut self.virt_regs, reg.as_virt_reg().0, reg);
    }

    pub fn add_live_interval(&mut self, vreg: VirtReg, range: LiveRange) -> (r: &mut LiveInterval)
        ensures
            old(self).virt_reg_interval@.contains_key(vreg.0) ==> *r == old(self).virt_reg_interval@[vreg.0],
            !old(self).virt_reg_interval@.contains_key(vreg.0) ==> r.vreg == vreg && r.range
                == range && r.reg is None && r.spill_weight == 0 && r.is_spillable,
            final(self).virt_reg_interval@ == old(self).virt_reg_interval@.insert(
                vreg.0,
                *final(r),
            ),
            final(self).virt_regs == old(self).virt_regs,
            final(self).id2pp == old(self).id2pp,
            final(self).phys_reg_range == old(self).phys_reg_range,
            final(self).program_points == old(self).program_points,
    {
        self.virt_reg_interval.add(vreg, range)
    }

    pub fn get_program_point(&self, id: MachineInstId) -> (r: Option<ProgramPoint>)
        ensures
            r == (if self.id2pp@.contains_key(id) {
                Some(self.id2pp@[id])
            } else {
                None
            }),
    {
        match map_get(&self.id2pp, id) {
            Some(x) => Some(*x),
            None => None,
        }
    }

    /// Whether the range of `vreg` overlaps what `reg` is occupied for:
    /// `false` says that `reg` may be given to `vreg`.
    pub fn interferes(&self, vreg: VirtReg, reg: PhysReg) -> (r: bool)
        requires
            self.wf(),
            reg.wf(),
            self.virt_reg_interval@.contains_key(vreg.0),
        ensures
            r == any_overlap(self.phys_spans(reg.key() as usize), self.virt_spans(vreg.0)),
    {
        let r2 = &self.virt_reg_interval.get(&vreg).unwrap().range;
        match self.phys_reg_range.get(reg) {
            Some(r1) => r1.interferes(&self.program_points, r2),
            None => false,
        }
    }

    /// Whether the ranges of two virtual registers overlap.
    pub fn interferes_virt_regs(&self, vreg1: VirtReg, vreg2: VirtReg) -> (r: bool)
        requires
            self.wf(),
            self.virt_reg_interval@.contains_key(vreg1.0),
            self.virt_reg_interval@.contains_key(vreg2.0),
        ensures
            r == any_overlap(self.virt_spans(vreg1.0), self.virt_spans(vreg2.0)),
    {
        let r1 = &self.virt_reg_interval.get(&vreg1).unwrap().range;
        let r2 = &self.virt_reg_interval.get(&vreg2).unwrap().range;
        r1.interferes(&self.program_points, r2)
    }

    pub fn interferes_with_range(&self, vreg: VirtReg, range: &LiveRange) -> (r: bool)
        requires
            self.wf(),
            range.valid(&self.program_points),
        ensures
            r == (self.virt_reg_interval@.contains_key(vreg.0) && any_overlap(
                range.spans(&self.program_points),
                self.virt_spans(vreg.0),
            )),
    {
        match self.virt_reg_interval.get(&vreg) {
            Some(interval) => range.interferes(&self.program_points, &interval.range),
            None => false,
        }
    }

    pub fn interferes_phys_with_range(&self, reg: PhysReg, range: &LiveRange) -> (r: bool)
        requires
            self.wf(),
            reg.wf(),
            range.valid(&self.program_points),
        ensures
            r == any_overlap(range.spans(&self.program_points), self.phys_spans(reg.key() as usize)),
    {
        match self.phys_reg_range.get(reg) {
            Some(range2) => range.interferes(&self.program_points, range2),
            None => false,
        }
    }

    /// The virtual registers, other than `vreg`, that have a physical
    /// register and whose range overlaps that of `vreg`; in an order that is
    /// not stated.
    pub fn collect_interfering_assigned_regs(&self, vreg: VirtReg) -> (r: Vec<VirtReg>)
        requires
            self.wf(),
            self.virt_reg_interval@.contains_key(vreg.0),
        ensures
            forall|i: int, j: int| 0 <= i < j < r@.len() ==> r@[i] != r@[j],
            forall|v: usize|
                r@.contains(VirtReg(v)) <==> v != vreg.0 && self.virt_reg_interval@.contains_key(v)
                    && self.virt_reg_interval@[v].reg is Some && any_overlap(
                    self.virt_spans(v),
                    self.virt_spans(vreg.0),
                ),
    {
        let mut interferings: Vec<VirtReg> = Vec::new();
        let i = self.virt_reg_interval.get(&vreg).unwrap();
        let keys = map_keys(self.virt_reg_interval.inner());
        let mut k: usize = 0;
        while k < keys.len()
            invariant
                self.wf(),
                self.virt_reg_interval@.contains_key(vreg.0),
                *i == self.virt_reg_interval@[vreg.0],
                keys@.no_duplicates(),
                keys@.to_set() == self.virt_reg_interval@.dom(),
                k <= keys@.len(),
                forall|a: int, b: int|
                    0 <= a < b < interferings@.len() ==> interferings@[a] != interferings@[b],
                forall|a: int|
                    0 <= a < interferings@.len() ==> exists|j: int|
                        0 <= j < k && keys@[j] == (#[trigger] interferings@[a]).0,
                forall|j: int|
                    0 <= j < k ==> (interferings@.contains(VirtReg(#[trigger] keys@[j])) <==> keys@[j]
                        != vreg.0 && self.virt_reg_interval@[keys@[j]].reg is Some && any_overlap(
                        self.virt_spans(keys@[j]),
                        self.virt_spans(vreg.0),
                    )),
            decreases keys@.len() - k,
        {
            let cur = keys[k];
            let ghost before = interferings@;
            proof {
                assert(keys@.to_set().contains(cur));
                assert(self.virt_reg_interval@.contains_key(cur));
            }
            if cur != vreg.0 {
                let interval = self.virt_reg_interval.get(&VirtReg(cur)).unwrap();
                if interval.interferes(&self.program_points, i) && interval.reg.is_some() {
                    interferings.push(VirtReg(cur));
                    proof {
                        assert forall|a: int, b: int|
                            0 <= a < b < interferings@.len() implies interferings@[a]
                            != interferings@[b] by {
                            if b == before.len() {
                                let j = choose|j: int| 0 <= j < k && keys@[j] == before[a].0;
                                assert(keys@[j] != keys@[k as int]);
                            }
                        }
                    }
                }
            }
            proof {
                assert forall|a: int| 0 <= a < interferings@.len() implies exists|j: int|
                    0 <= j < k + 1 && keys@[j] == (#[trigger] interferings@[a]).0 by {
                    if a < before.len() {
                        let j = choose|j: int| 0 <= j < k && keys@[j] == before[a].0;
                        assert(keys@[j] == interferings@[a].0);
                    } else {
                        assert(keys@[k as int] == interferings@[a].0);
                    }
                }
                assert forall|j: int| 0 <= j < k + 1 implies (interferings@.contains(
                    VirtReg(#[trigger] keys@[j]),
                ) <==> keys@[j] != vreg.0 && self.virt_reg_interval@[keys@[j]].reg is Some
                    && any_overlap(self.virt_spans(keys@[j]), self.virt_spans(vreg.0))) by {
                    if j < k {
                        if before.contains(VirtReg(keys@[j])) {
                            let a = choose|a: int|
                                0 <= a < before.len() && before[a] == VirtReg(keys@[j]);
                            assert(interferings@[a] == VirtReg(keys@[j]));
                        }
                        if interferings@.contains(VirtReg(keys@[j])) {
                            let a = choose|a: int|
                                0 <= a < interferings@.len() && interferings@[a] == VirtReg(
                                    keys@[j],
                                );
                            if a == before.len() && interferings@.len() > before.len() {
                                assert(keys@[j] == keys@[k as int]);
                            } else {
                                assert(before[a] == VirtReg(keys@[j]));
                            }
                        }
                    } else {
                        if interferings@.len() > before.len() {
                            assert(interferings@[before.len() as int] == VirtReg(cur));
                        } else if interferings@.contains(VirtReg(cur)) {
                            let a = choose|a: int|
                                0 <= a < interferings@.len() && interferings@[a] == VirtReg(cur);
                            let j2 = choose|j2: int| 0 <= j2 < k && keys@[j2] == before[a].0;
                            assert(keys@[j2] == keys@[k as int]);
                        }
                    }
                }
            }
            k += 1;
        }
        proof {
            assert forall|v: usize|
                interferings@.contains(VirtReg(v)) <==> v != vreg.0
                    && self.virt_reg_interval@.contains_key(v) && self.virt_reg_interval@[v].reg is Some
                    && any_overlap(self.virt_spans(v), self.virt_spans(vreg.0)) by {
                if interferings@.contains(VirtReg(v)) {
                    let a = choose|a: int|
                        0 <= a < interferings@.len() && interferings@[a] == VirtReg(v);
                    let j = choose|j: int| 0 <= j < k && keys@[j] == interferings@[a].0;
                    assert(keys@.to_set().contains(keys@[j]));
                }
                if self.virt_reg_interval@.contains_key(v) {
                    assert(keys@.to_set().contains(v));
                    let j = choose|j: int| 0 <= j < keys@.len() && keys@[j] == v;
                    assert(keys@[j] == v);
                }
            }
        }
        interferings
    }

    /// Gives `reg` to `vreg`: the interval records the choice, and the range
    /// of `vreg` is added to what `reg` is occupied for.
    pub fn assign_reg(&mut self, vreg: VirtReg, reg: PhysReg)
        requires
            old(self).wf(),
            reg.wf(),
            old(self).virt_reg_interval@.contains_key(vreg.0),
        ensures
            final(self).wf(),
            final(self).program_points == old(self).program_points,
            final(self).virt_regs == old(self).virt_regs,
            final(self).id2pp == old(self).id2pp,
            final(self).virt_reg_interval@.dom() == old(self).virt_reg_interval@.dom(),
            forall|v: usize|
                v != vreg.0 && old(self).virt_reg_interval@.contains_key(v) ==> final(self).virt_reg_interval@[v] == old(self).virt_reg_interval@[v],
            final(self).virt_reg_interval@[vreg.0].reg == Some(reg),
            final(self).virt_reg_interval@[vreg.0].range == old(self).virt_reg_interval@[vreg.0].range,
            final(self).virt_reg_interval@[vreg.0].vreg == old(self).virt_reg_interval@[vreg.0].vreg,
            final(self).phys_reg_range@.dom() == old(self).phys_reg_range@.dom().insert(
                reg.key() as usize,
            ),
            forall|k: usize|
                k != reg.key() && old(self).phys_reg_range@.contains_key(k) ==> final(self).phys_reg_range@[k] == old(self).phys_reg_range@[k],
            final(self).phys_spans(reg.key() as usize) == insert_spans(
                old(self).phys_spans(reg.key() as usize),
                old(self).virt_spans(vreg.0),
                old(self).virt_spans(vreg.0).len() as int,
            ),
    {
        let ghost pps = self.program_points;
        let interval = self.virt_reg_interval.get_mut(&vreg).unwrap();
        interval.reg = Some(reg);
        let range = self.virt_reg_interval.get(&vreg).unwrap().range.duplicate();
        proof {
            assert(range.spans(&pps) =~= old(self).virt_spans(vreg.0));
            assert(old(self).virt_reg_interval@[vreg.0].range.wf(&pps));
            assert forall|i: int| 0 <= i < range.segments@.len() implies (
            #[trigger] range.segments@[i]).wf(&pps) by {
                let r0 = old(self).virt_reg_interval@[vreg.0].range;
                assert(r0.segments@[i].valid(&pps));
                assert(r0.spans(&pps)[i].0 <= r0.spans(&pps)[i].1);
            }
            assert(old(self).phys_reg_range@.contains_key(reg.key() as usize) ==> old(self).phys_reg_range@[reg.key() as usize].wf(&pps));
        }
        let occupied = self.phys_reg_range.get_or_create(reg);
        proof {
            assert(occupied.spans(&pps) =~= old(self).phys_spans(reg.key() as usize));
            assert(occupied.wf(&pps));
        }
        occupied.unite_range(&self.program_points, range);
        proof {
            assert(final(self).phys_reg_range@.dom() =~= old(self).phys_reg_range@.dom().insert(
                reg.key() as usize,
            ));
            assert(final(self).virt_reg_interval@.dom() =~= old(self).virt_reg_interval@.dom());
        }
    }

    /// Takes the physical register of `vreg` back, if it has one: the
    /// interval records that, and the range of `vreg` is taken out of what
    /// the register is occupied for. What is left must not overlap the range
    /// of `vreg`.
    pub fn unassign_reg(&mut self, vreg: VirtReg) -> (r: Option<PhysReg>)
        requires
            old(self).wf(),
            old(self).virt_reg_interval@.contains_key(vreg.0),
            old(self).virt_reg_interval@[vreg.0].reg is Some ==> old(self).virt_reg_interval@[vreg.0].reg->0.wf() && !any_overlap(
                carve_spans(
                    old(self).phys_spans(old(self).virt_reg_interval@[vreg.0].reg->0.key() as usize),
                    old(self).virt_spans(vreg.0),
                    old(self).virt_spans(vreg.0).len() as int,
                ),
                old(self).virt_spans(vreg.0),
            ),
        ensures
            r == old(self).virt_reg_interval@[vreg.0].reg,
            final(self).wf(),
            final(self).program_points == old(self).program_points,
            final(self).virt_regs == old(self).virt_regs,
            final(self).id2pp == old(self).id2pp,
            r is None ==> final(self).virt_reg_interval@ == old(self).virt_reg_interval@ && final(self).phys_reg_range@ == old(self).phys_reg_range@,
            final(self).virt_reg_interval@.dom() == old(self).virt_reg_interval@.dom(),
            forall|v: usize|
                v != vreg.0 && old(self).virt_reg_interval@.contains_key(v) ==> final(self).virt_reg_interval@[v] == old(self).virt_reg_interval@[v],
            final(self).virt_reg_interval@[vreg.0].reg is None,
            final(self).virt_reg_interval@[vreg.0].range == old(self).virt_reg_interval@[vreg.0].range,
            r is Some ==> final(self).phys_reg_range@.dom() == old(self).phys_reg_range@.dom().insert(
                r->0.key() as usize,
            ),
            r is Some ==> forall|k: usize|
                k != r->0.key() && old(self).phys_reg_range@.contains_key(k) ==> final(self).phys_reg_range@[k] == old(self).phys_reg_range@[k],
            r is Some ==> final(self).phys_spans(r->0.key() as usize) == carve_spans(
                old(self).phys_spans(r->0.key() as usize),
                old(self).virt_spans(vreg.0),
                old(self).virt_spans(vreg.0).len() as int,
            ),
    {
        let ghost pps = self.program_points;
        let assigned = self.virt_reg_interval.get(&vreg).unwrap().reg;
        let reg = match assigned {
            None => {
                return None;
            },
            Some(reg) => reg,
        };
        let interval = self.virt_reg_interval.get_mut(&vreg).unwrap();
        interval.reg = None;
        let range = self.virt_reg_interval.get(&vreg).unwrap().range.duplicate();
        proof {
            assert(range.spans(&pps) =~= old(self).virt_spans(vreg.0));
            assert(old(self).virt_reg_interval@[vreg.0].range.wf(&pps));
            assert forall|i: int| 0 <= i < range.segments@.len() implies (
            #[trigger] range.segments@[i]).wf(&pps) by {
                let r0 = old(self).virt_reg_interval@[vreg.0].range;
                assert(r0.segments@[i].valid(&pps));
                assert(r0.spans(&pps)[i].0 <= r0.spans(&pps)[i].1);
            }
            assert(old(self).phys_reg_range@.contains_key(reg.key() as usize) ==> old(self).phys_reg_range@[reg.key() as usize].wf(&pps));
        }
        let occupied = self.phys_reg_range.get_or_create(reg);
        proof {
            assert(occupied.spans(&pps) =~= old(self).phys_spans(reg.key() as usize));
            assert(occupied.wf(&pps));
        }
        occupied.remove_range(&self.program_points, &range);
        proof {
            assert(!any_overlap(occupied.spans(&pps), range.spans(&pps)));
            assert(final(self).phys_reg_range@.dom() =~= old(self).phys_reg_range@.dom().insert(
                reg.key() as usize,
            ));
            assert(final(self).virt_reg_interval@.dom() =~= old(self).virt_reg_interval@.dom());
        }
        Some(reg)
    }

    /// Merges the virtual register `v2` into `v1`: `v2` leaves the matrix,
    /// its range is added to that of `v1`, and the instructions on record as
    /// reading or writing `v2` are put on record for `v1` as well.
    pub fn merge_virt_regs(&mut self, regs_info: &mut RegistersInfo, v1: VirtReg, v2: VirtReg)
        requires
            old(self).wf(),
            old(regs_info).wf(),
            old(self).virt_regs@.contains_key(v1.0) && old(self).virt_regs@[v1.0].wf() && old(regs_info).knows(old(self).virt_regs@[v1.0]),
            old(self).virt_regs@.contains_key(v2.0) && old(self).virt_regs@[v2.0].wf() && old(regs_info).knows(old(self).virt_regs@[v2.0]),
            v1.0 != v2.0,
            old(self).virt_regs@.contains_key(v1.0),
            old(self).virt_regs@.contains_key(v2.0),
            old(self).virt_reg_interval@.contains_key(v1.0),
            old(self).virt_reg_interval@.contains_key(v2.0),
        ensures
            final(self).wf(),
            final(self).program_points == old(self).program_points,
            final(self).id2pp == old(self).id2pp,
            final(self).phys_reg_range == old(self).phys_reg_range,
            final(self).virt_regs@ == old(self).virt_regs@.remove(v2.0),
            final(self).virt_reg_interval@.dom() == old(self).virt_reg_interval@.dom().remove(v2.0),
            forall|v: usize|
                v != v1.0 && v != v2.0 && old(self).virt_reg_interval@.contains_key(v) ==> final(self).virt_reg_interval@[v] == old(self).virt_reg_interval@[v],
            final(self).virt_reg_interval@[v1.0].reg == old(self).virt_reg_interval@[v1.0].reg,
            final(self).virt_reg_interval@[v1.0].vreg == old(self).virt_reg_interval@[v1.0].vreg,
            final(self).virt_spans(v1.0) == insert_spans(
                old(self).virt_spans(v1.0),
                old(self).virt_spans(v2.0),
                old(self).virt_spans(v2.0).len() as int,
            ),
            final(regs_info).wf(),
            old(regs_info).same_but(final(regs_info), old(self).virt_regs@[v1.0].code()),
            final(regs_info).uses_of(old(self).virt_regs@[v1.0]) == old(regs_info).uses_of(
                old(self).virt_regs@[v1.0],
            ).union(old(regs_info).uses_of(old(self).virt_regs@[v2.0])),
            final(regs_info).defs_of(old(self).virt_regs@[v1.0]) == old(regs_info).defs_of(
                old(self).virt_regs@[v1.0],
            ).union(old(regs_info).defs_of(old(self).virt_regs@[v2.0])),
    {
        let ghost pps = self.program_points;
        let v2_e = map_remove(&mut self.virt_regs, v2.0).unwrap();
        let v1_e = *map_get(&self.virt_regs, v1.0).unwrap();
        regs_info.merge_records(v1_e, v2_e);
        let v2_i = self.virt_reg_interval.remove(&v2).unwrap();
        proof {
            assert(v2_i.range.wf(&pps));
            assert forall|i: int| 0 <= i < v2_i.range.segments@.len() implies (
            #[trigger] v2_i.range.segments@[i]).wf(&pps) by {
                assert(v2_i.range.segments@[i].valid(&pps));
                assert(v2_i.range.spans(&pps)[i].0 <= v2_i.range.spans(&pps)[i].1);
            }
            assert(old(self).virt_reg_interval@[v1.0].range.wf(&pps));
        }
        let v1_i = self.virt_reg_interval.get_mut(&v1).unwrap();
        v1_i.range.unite_range(&self.program_points, v2_i.range);
        proof {
            assert(final(self).virt_reg_interval@.dom() =~= old(self).virt_reg_interval@.dom().remove(v2.0));
        }
    }

    /// Merges the virtual register `r2` into the physical register `r1`:
    /// `r2` leaves the matrix, and its range is added to what `r1` is
    /// occupied for.
    pub fn merge_regs(&mut self, r1: PhysReg, r2: VirtReg)
        requires
            old(self).wf(),
            r1.wf(),
            old(self).virt_reg_interval@.contains_key(r2.0),
            old(self).phys_reg_range@.contains_key(r1.key() as usize),
        ensures
            final(self).wf(),
            final(self).program_points == old(self).program_points,
            final(self).id2pp == old(self).id2pp,
            final(self).virt_regs@ == old(self).virt_regs@.remove(r2.0),
            final(self).virt_reg_interval@ == old(self).virt_reg_interval@.remove(r2.0),
            final(self).phys_reg_range@.dom() == old(self).phys_reg_range@.dom(),
            forall|k: usize|
                k != r1.key() && old(self).phys_reg_range@.contains_key(k) ==> final(self).phys_reg_range@[k] == old(self).phys_reg_range@[k],
            final(self).phys_spans(r1.key() as usize) == insert_spans(
                old(self).phys_spans(r1.key() as usize),
                old(self).virt_spans(r2.0),
                old(self).virt_spans(r2.0).len() as int,
            ),
    {
        let ghost pps = self.program_points;
        map_remove(&mut self.virt_regs, r2.0);
        let r2_i = self.virt_reg_interval.remove(&r2).unwrap();
        proof {
            assert(r2_i.range.wf(&pps));
            assert forall|i: int| 0 <= i < r2_i.range.segments@.len() implies (
            #[trigger] r2_i.range.segments@[i]).wf(&pps) by {
                assert(r2_i.range.segments@[i].valid(&pps));
                assert(r2_i.range.spans(&pps)[i].0 <= r2_i.range.spans(&pps)[i].1);
            }
            assert(old(self).phys_reg_range@[r1.key() as usize].wf(&pps));
        }
        let r1_i = self.phys_reg_range.get_mut(r1).unwrap();
        r1_i.unite_range(&self.program_points, r2_i.range);
        proof {
            assert(final(self).phys_reg_range@.dom() =~= old(self).phys_reg_range@.dom());
        }
    }

    /// The virtual registers that have an interval, in an order that is not
    /// stated.
    pub fn collect_virt_regs(&self) -> (r: Vec<VirtReg>)
        ensures
            r@.len() == self.virt_reg_interval@.dom().len(),
            forall|i: int, j: int| 0 <= i < j < r@.len() ==> r@[i] != r@[j],
            forall|v: usize| self.virt_reg_interval@.contains_key(v) <==> r@.contains(VirtReg(v)),
    {
        self.virt_reg_interval.collect_virt_regs()
    }

    pub fn get_entity_by_vreg(&self, vreg: VirtReg) -> (r: Option<&RegisterId>)
        ensures
            r == (if self.virt_regs@.contains_key(vreg.0) {
                Some(&self.virt_regs@[vreg.0])
            } else {
                None
            }),
    {
        map_get(&self.virt_regs, vreg.0)
    }
}

} // verus!
