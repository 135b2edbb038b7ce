//! Registers of the target: four classes of sixteen physical registers each,
//! of which the three integer classes share one register file, and virtual
//! registers without bound.

use crate::fx::{set_elements, set_insert, set_new, set_remove};
use crate::types::Type;
use rustc_hash::FxHashSet;
use vstd::prelude::*;

verus! {

/// Number of physical registers of one class.
pub const REGS_PER_CLASS: usize = 16;

/// Number of physical registers of the target.
pub const PHYS_REGS_NUM: usize = 64;

/// Class of a register: the integer classes by width, and the vector class.
#[derive(Clone, Copy, Debug, PartialEq, Eq, Hash, Structural)]
pub enum RegisterClassKind {
    GR8,
    GR32,
    GR64,
    XMM,
}

/// A virtual register, by number.
#[derive(Clone, Copy, Debug, PartialEq, Eq, Hash, Structural)]
pub struct VirtReg(pub usize);

/// A physical register, by number: the class first, then the place in it.
#[derive(Clone, Copy, Debug, PartialEq, Eq, Hash, Structural)]
pub struct PhysReg(pub usize);

/// What a register operand names.
#[derive(Clone, Copy, Debug, PartialEq, Eq, Hash, Structural)]
pub enum VirtOrPhys {
    Virt(VirtReg),
    Phys(PhysReg),
}

/// Identity of a register in sets and maps.
#[derive(Clone, Copy, Debug, PartialEq, Eq, Hash, Structural)]
pub struct RegisterId {
    pub kind: VirtOrPhys,
}

/// Identity of a physical register file entry: registers that alias one
/// another, whatever their width, have one key.
#[derive(Clone, Copy, Debug, PartialEq, Eq, Hash, Structural)]
pub struct RegKey(pub usize);

impl RegisterClassKind {
    /// Number of the first register of the class.
    pub open spec fn base(self) -> int {
        match self {
            RegisterClassKind::GR8 => 0,
            RegisterClassKind::GR32 => 16,
            RegisterClassKind::GR64 => 32,
            RegisterClassKind::XMM => 48,
        }
    }

    /// The widest class of the same register file.
    pub open spec fn file_base_class(self) -> RegisterClassKind {
        match self {
            RegisterClassKind::XMM => RegisterClassKind::XMM,
            _ => RegisterClassKind::GR64,
        }
    }

    pub fn first_reg(&self) -> (r: usize)
        ensures
            r == self.base(),
    {
        match self {
            RegisterClassKind::GR8 => 0,
            RegisterClassKind::GR32 => 16,
            RegisterClassKind::GR64 => 32,
            RegisterClassKind::XMM => 48,
        }
    }

    pub fn register_file_base_class(&self) -> (r: RegisterClassKind)
        ensures
            r == self.file_base_class(),
    {
        match self {
            RegisterClassKind::XMM => RegisterClassKind::XMM,
            _ => RegisterClassKind::GR64,
        }
    }
}

/// The register class that holds a value of type `ty`, if any does.
pub open spec fn class_of_type(ty: Type) -> Option<RegisterClassKind> {
    match ty {
        Type::Void => None,
        Type::i1 => Some(RegisterClassKind::GR8),
        Type::i8 => Some(RegisterClassKind::GR8),
        Type::i32 => Some(RegisterClassKind::GR32),
        Type::i64 => Some(RegisterClassKind::GR64),
        Type::F64 => Some(RegisterClassKind::XMM),
        Type::Pointer => Some(RegisterClassKind::GR64),
    }
}

pub fn ty2rc(ty: &Type) -> (r: Option<RegisterClassKind>)
    ensures
        r == class_of_type(*ty),
{
    match ty {
        Type::Void => None,
        Type::i1 => Some(RegisterClassKind::GR8),
        Type::i8 => Some(RegisterClassKind::GR8),
        Type::i32 => Some(RegisterClassKind::GR32),
        Type::i64 => Some(RegisterClassKind::GR64),
        Type::F64 => Some(RegisterClassKind::XMM),
        Type::Pointer => Some(RegisterClassKind::GR64),
    }
}

impl PhysReg {
    /// A register of the target.
    pub open spec fn wf(self) -> bool {
        self.0 < PHYS_REGS_NUM
    }

    /// Place of the register in its class.
    pub open spec fn slot(self) -> int {
        self.0 as int % 16
    }

    pub open spec fn class(self) -> RegisterClassKind {
        if self.0 < 16 {
            RegisterClassKind::GR8
        } else if self.0 < 32 {
            RegisterClassKind::GR32
        } else if self.0 < 48 {
            RegisterClassKind::GR64
        } else {
            RegisterClassKind::XMM
        }
    }

    /// The next narrower register in the same place of the file.
    pub open spec fn sub(self) -> Option<PhysReg> {
        if 16 <= self.0 < 48 {
            Some(PhysReg((self.0 - 16) as usize))
        } else {
            None
        }
    }

    /// The next wider register in the same place of the file.
    pub open spec fn sup(self) -> Option<PhysReg> {
        if self.0 < 32 {
            Some(PhysReg((self.0 + 16) as usize))
        } else {
            None
        }
    }

    /// `self` is a strictly narrower alias of `other`.
    pub open spec fn is_sub_of(self, other: PhysReg) -> bool {
        &&& other.0 < 48
        &&& self.0 < other.0
        &&& self.0 as int % 16 == other.0 as int % 16
    }

    /// The key of the register's file entry.
    pub open spec fn key(self) -> int {
        self.0 - self.class().base() + self.class().file_base_class().base()
    }

    /// One of the registers that every callee preserves: the fourth, the
    /// sixth and the last four places of the integer file.
    pub open spec fn callee_saved(self) -> bool {
        self.0 < 48 && (self.slot() == 3 || self.slot() == 5 || self.slot() >= 12)
    }

    pub fn retrieve(&self) -> (r: usize)
        ensures
            r == self.0,
    {
        self.0
    }

    pub fn reg_class(&self) -> (r: RegisterClassKind)
        ensures
            r == self.class(),
    {
        if self.0 < 16 {
            RegisterClassKind::GR8
        } else if self.0 < 32 {
            RegisterClassKind::GR32
        } else if self.0 < 48 {
            RegisterClassKind::GR64
        } else {
            RegisterClassKind::XMM
        }
    }

    pub fn sub_reg(&self) -> (r: Option<PhysReg>)
        ensures
            r == self.sub(),
    {
        if 16 <= self.0 && self.0 < 48 {
            Some(PhysReg(self.0 - 16))
        } else {
            None
        }
    }

    pub fn super_reg(&self) -> (r: Option<PhysReg>)
        ensures
            r == self.sup(),
    {
        if self.0 < 32 {
            Some(PhysReg(self.0 + 16))
        } else {
            None
        }
    }
}

pub fn is_callee_saved_reg(r: PhysReg) -> (b: bool)
    ensures
        b == r.callee_saved(),
{
    let slot = r.0 % 16;
    r.0 < 48 && (slot == 3 || slot == 5 || slot >= 12)
}

impl RegKey {
    /// The key of `r`: its number, moved from its class to the widest class
    /// of its file.
    pub fn from_phys(r: PhysReg) -> (k: RegKey)
        requires
            r.wf(),
        ensures
            k.0 == r.key(),
    {
        RegKey(r.retrieve() - r.reg_class().first_reg() + r.reg_class().register_file_base_class().first_reg())
    }
}

impl RegisterId {
    /// The place of a register in sets and maps: a physical register by its
    /// number, a virtual register behind all physical ones.
    pub open spec fn code(self) -> int {
        match self.kind {
            VirtOrPhys::Phys(p) => p.0 as int,
            VirtOrPhys::Virt(v) => v.0 + PHYS_REGS_NUM,
        }
    }

    /// A register of the target, or a virtual register whose code fits the
    /// machine's integers.
    pub open spec fn wf(self) -> bool {
        match self.kind {
            VirtOrPhys::Phys(p) => p.wf(),
            VirtOrPhys::Virt(v) => v.0 + PHYS_REGS_NUM <= usize::MAX,
        }
    }

    /// The register with the code `c`.
    pub open spec fn of_code(c: usize) -> RegisterId {
        if c < PHYS_REGS_NUM {
            RegisterId { kind: VirtOrPhys::Phys(PhysReg(c)) }
        } else {
            RegisterId { kind: VirtOrPhys::Virt(VirtReg((c - PHYS_REGS_NUM) as usize)) }
        }
    }

    /// The identity of the physical register `p`.
    pub open spec fn phys_spec(p: PhysReg) -> RegisterId {
        RegisterId { kind: VirtOrPhys::Phys(p) }
    }

    pub fn virt(v: VirtReg) -> (r: Self)
        ensures
            r.kind == VirtOrPhys::Virt(v),
    {
        RegisterId { kind: VirtOrPhys::Virt(v) }
    }

    pub fn phys(p: PhysReg) -> (r: Self)
        ensures
            r.kind == VirtOrPhys::Phys(p),
    {
        RegisterId { kind: VirtOrPhys::Phys(p) }
    }

    pub fn is_virt_reg(&self) -> (r: bool)
        ensures
            r == (self.kind is Virt),
    {
        match self.kind {
            VirtOrPhys::Virt(_) => true,
            VirtOrPhys::Phys(_) => false,
        }
    }

    pub fn is_phys_reg(&self) -> (r: bool)
        ensures
            r == (self.kind is Phys),
    {
        match self.kind {
            VirtOrPhys::Virt(_) => false,
            VirtOrPhys::Phys(_) => true,
        }
    }

    pub fn as_virt_reg(&self) -> (r: VirtReg)
        requires
            self.kind is Virt,
        ensures
            self.kind == VirtOrPhys::Virt(r),
    {
        match self.kind {
            VirtOrPhys::Virt(v) => v,
            VirtOrPhys::Phys(_) => VirtReg(0),
        }
    }

    pub fn as_phys_reg(&self) -> (r: PhysReg)
        requires
            self.kind is Phys,
        ensures
            self.kind == VirtOrPhys::Phys(r),
    {
        match self.kind {
            VirtOrPhys::Phys(p) => p,
            VirtOrPhys::Virt(_) => PhysReg(0),
        }
    }

    pub fn to_code(&self) -> (c: usize)
        requires
            self.wf(),
        ensures
            c == self.code(),
            RegisterId::of_code(c) == *self,
    {
        match self.kind {
            VirtOrPhys::Phys(p) => p.0,
            VirtOrPhys::Virt(v) => v.0 + PHYS_REGS_NUM,
        }
    }

    pub fn from_code(c: usize) -> (r: Self)
        ensures
            r == RegisterId::of_code(c),
            r.wf(),
            r.code() == c,
    {
        if c < PHYS_REGS_NUM {
            RegisterId { kind: VirtOrPhys::Phys(PhysReg(c)) }
        } else {
            RegisterId { kind: VirtOrPhys::Virt(VirtReg(c - PHYS_REGS_NUM)) }
        }
    }
}

/// One of the first `n` registers of `regs` has the code `code`.
pub open spec fn names(regs: Seq<RegisterId>, n: int, code: int) -> bool {
    exists|j: int| 0 <= j < n && (#[trigger] regs[j]).code() == code
}

/// The record `s` with the instruction `inst` put on it (`add`) or taken
/// off it.
pub open spec fn changed(s: Set<usize>, inst: usize, add: bool) -> Set<usize> {
    if add {
        s.insert(inst)
    } else {
        s.remove(inst)
    }
}

/// The registers of one function: the class of each virtual register, and
/// for every register the instructions that read it and those that write it.
pub struct RegistersInfo {
    pub virt_classes: Vec<RegisterClassKind>,
    /// For each register, by its code, the instructions that read it.
    pub uses: Vec<FxHashSet<usize>>,
    /// For each register, by its code, the instructions that write it.
    pub defs: Vec<FxHashSet<usize>>,
}

impl RegistersInfo {
    /// The class of `id`, if the register is known: a physical register of
    /// the target, or a virtual register that this table made.
    pub open spec fn class_of(&self, id: RegisterId) -> Option<RegisterClassKind> {
        match id.kind {
            VirtOrPhys::Phys(p) => if p.wf() {
                Some(p.class())
            } else {
                None
            },
            VirtOrPhys::Virt(v) => if v.0 < self.virt_classes@.len() {
                Some(self.virt_classes@[v.0 as int])
            } else {
                None
            },
        }
    }

    /// There is a record of reads and writes for every register that the
    /// table knows.
    pub open spec fn wf(&self) -> bool {
        &&& self.uses@.len() == PHYS_REGS_NUM + self.virt_classes@.len()
        &&& self.defs@.len() == self.uses@.len()
    }

    /// The table knows the register `id`.
    pub open spec fn knows(&self, id: RegisterId) -> bool {
        self.class_of(id) is Some
    }

    /// The instructions on record as reading `id`.
    pub open spec fn uses_of(&self, id: RegisterId) -> Set<usize> {
        self.uses@[id.code()]@
    }

    /// The instructions on record as writing `id`.
    pub open spec fn defs_of(&self, id: RegisterId) -> Set<usize> {
        self.defs@[id.code()]@
    }

    /// `other` is this table, but for the records of the register with the
    /// code `code`.
    pub open spec fn same_but(&self, other: &RegistersInfo, code: int) -> bool {
        &&& other.virt_classes == self.virt_classes
        &&& other.uses@.len() == self.uses@.len()
        &&& other.defs@.len() == self.defs@.len()
        &&& forall|i: int|
            0 <= i < self.uses@.len() && i != code ==> (#[trigger] other.uses@[i])@ == self.uses@[i]@
        &&& forall|i: int|
            0 <= i < self.defs@.len() && i != code ==> (#[trigger] other.defs@[i])@ == self.defs@[i]@
    }

    /// A table that knows the physical registers, with nothing on record.
    pub fn new() -> (r: Self)
        ensures
            r.virt_classes@.len() == 0,
            r.wf(),
            forall|i: int| 0 <= i < r.uses@.len() ==> (#[trigger] r.uses@[i])@ == Set::<usize>::empty(),
            forall|i: int| 0 <= i < r.defs@.len() ==> (#[trigger] r.defs@[i])@ == Set::<usize>::empty(),
    {
        let mut uses: Vec<FxHashSet<usize>> = Vec::new();
        let mut defs: Vec<FxHashSet<usize>> = Vec::new();
        let mut i: usize = 0;
        while i < PHYS_REGS_NUM
            invariant
                i <= PHYS_REGS_NUM,
                uses@.len() == i,
                defs@.len() == i,
                forall|k: int| 0 <= k < i ==> (#[trigger] uses@[k])@ == Set::<usize>::empty(),
                forall|k: int| 0 <= k < i ==> (#[trigger] defs@[k])@ == Set::<usize>::empty(),
            decreases PHYS_REGS_NUM - i,
        {
            uses.push(set_new());
            defs.push(set_new());
            i += 1;
        }
        RegistersInfo { virt_classes: Vec::new(), uses, defs }
    }

    /// A new virtual register of class `rc`: the next free number, with
    /// nothing on record.
    pub fn new_virt_reg(&mut self, rc: RegisterClassKind) -> (r: RegisterId)
        ensures
            r.kind == VirtOrPhys::Virt(VirtReg(old(self).virt_classes@.len() as usize)),
            final(self).virt_classes@ == old(self).virt_classes@.push(rc),
            final(self).uses@.len() == old(self).uses@.len() + 1,
            final(self).defs@.len() == old(self).defs@.len() + 1,
            forall|i: int| 0 <= i < old(self).uses@.len() ==> final(self).uses@[i] == old(self).uses@[i],
            forall|i: int| 0 <= i < old(self).defs@.len() ==> final(self).defs@[i] == old(self).defs@[i],
            final(self).uses@[old(self).uses@.len() as int]@ == Set::<usize>::empty(),
            final(self).defs@[old(self).defs@.len() as int]@ == Set::<usize>::empty(),
            old(self).wf() ==> final(self).wf(),
    {
        let n = self.virt_classes.len();
        self.virt_classes.push(rc);
        self.uses.push(set_new());
        self.defs.push(set_new());
        RegisterId::virt(VirtReg(n))
    }

    /// Puts the instruction `inst` on record as reading `id`.
    pub fn add_use(&mut self, id: RegisterId, inst: usize)
        requires
            old(self).wf(),
            old(self).knows(id),
            id.wf(),
        ensures
            final(self).wf(),
            old(self).same_but(final(self), id.code()),
            final(self).uses_of(id) == old(self).uses_of(id).insert(inst),
            final(self).defs_of(id) == old(self).defs_of(id),
    {
        let code = id.to_code();
        let set = &mut self.uses[code];
        set_insert(set, inst);
    }

    /// Puts the instruction `inst` on record as writing `id`.
    pub fn add_def(&mut self, id: RegisterId, inst: usize)
        requires
            old(self).wf(),
            old(self).knows(id),
            id.wf(),
        ensures
            final(self).wf(),
            old(self).same_but(final(self), id.code()),
            final(self).defs_of(id) == old(self).defs_of(id).insert(inst),
            final(self).uses_of(id) == old(self).uses_of(id),
    {
        let code = id.to_code();
        let set = &mut self.defs[code];
        set_insert(set, inst);
    }

    /// Takes the instruction `inst` off the record of the reads of `id`.
    pub fn remove_use(&mut self, id: RegisterId, inst: usize)
        requires
            old(self).wf(),
            old(self).knows(id),
            id.wf(),
        ensures
            final(self).wf(),
            old(self).same_but(final(self), id.code()),
            final(self).uses_of(id) == old(self).uses_of(id).remove(inst),
            final(self).defs_of(id) == old(self).defs_of(id),
    {
        let code = id.to_code();
        let set = &mut self.uses[code];
        set_remove(set, inst);
    }

    /// Takes the instruction `inst` off the record of the writes of `id`.
    pub fn remove_def(&mut self, id: RegisterId, inst: usize)
        requires
            old(self).wf(),
            old(self).knows(id),
            id.wf(),
        ensures
            final(self).wf(),
            old(self).same_but(final(self), id.code()),
            final(self).defs_of(id) == old(self).defs_of(id).remove(inst),
            final(self).uses_of(id) == old(self).uses_of(id),
    {
        let code = id.to_code();
        let set = &mut self.defs[code];
        set_remove(set, inst);
    }

    /// Every register of `regs` is known to the table.
    pub open spec fn knows_all(&self, regs: Seq<RegisterId>) -> bool {
        forall|j: int| 0 <= j < regs.len() ==> (#[trigger] regs[j]).wf() && self.knows(regs[j])
    }

    /// Puts the instruction `inst` on the records of the registers `regs`
    /// (`add`), or takes it off them: on the records of reads (`reads`) or on
    /// those of writes.
    pub fn record(&mut self, regs: &Vec<RegisterId>, inst: usize, reads: bool, add: bool)
        requires
            old(self).wf(),
            old(self).knows_all(regs@),
        ensures
            final(self).wf(),
            final(self).virt_classes == old(self).virt_classes,
            forall|c: int|
                0 <= c < old(self).uses@.len() ==> (#[trigger] final(self).uses@[c])@ == (if reads
                    && names(regs@, regs@.len() as int, c) {
                    changed(old(self).uses@[c]@, inst, add)
                } else {
                    old(self).uses@[c]@
                }),
            forall|c: int|
                0 <= c < old(self).defs@.len() ==> (#[trigger] final(self).defs@[c])@ == (if !reads
                    && names(regs@, regs@.len() as int, c) {
                    changed(old(self).defs@[c]@, inst, add)
                } else {
                    old(self).defs@[c]@
                }),
    {
        let mut i: usize = 0;
        while i < regs.len()
            invariant
                i <= regs@.len(),
                self.wf(),
                old(self).wf(),
                old(self).knows_all(regs@),
                self.virt_classes == old(self).virt_classes,
                forall|c: int|
                    0 <= c < old(self).uses@.len() ==> (#[trigger] self.uses@[c])@ == (if reads
                        && names(regs@, i as int, c) {
                        changed(old(self).uses@[c]@, inst, add)
                    } else {
                        old(self).uses@[c]@
                    }),
                forall|c: int|
                    0 <= c < old(self).defs@.len() ==> (#[trigger] self.defs@[c])@ == (if !reads
                        && names(regs@, i as int, c) {
                        changed(old(self).defs@[c]@, inst, add)
                    } else {
                        old(self).defs@[c]@
                    }),
            decreases regs@.len() - i,
        {
            let id = regs[i];
            let ghost before = *self;
            proof {
                assert(regs@[i as int].wf() && old(self).knows(regs@[i as int]));
                assert(self.knows(id));
            }
            if reads {
                if add {
                    self.add_use(id, inst);
                } else {
                    self.remove_use(id, inst);
                }
            } else {
                if add {
                    self.add_def(id, inst);
                } else {
                    self.remove_def(id, inst);
                }
            }
            proof {
                assert forall|c: int| 0 <= c < old(self).uses@.len() implies names(regs@, i + 1, c)
                    == (names(regs@, i as int, c) || c == id.code()) by {
                    if names(regs@, i as int, c) {
                        let j = choose|j: int| 0 <= j < i && (#[trigger] regs@[j]).code() == c;
                        assert(0 <= j < i + 1 && regs@[j].code() == c);
                    }
                    if c == id.code() {
                        assert(regs@[i as int].code() == c);
                    }
                    if names(regs@, i + 1, c) {
                        let j = choose|j: int| 0 <= j < i + 1 && (#[trigger] regs@[j]).code() == c;
                        if j < i {
                            assert(names(regs@, i as int, c));
                        }
                    }
                }
                assert forall|c: int| 0 <= c < old(self).uses@.len() implies (
                #[trigger] self.uses@[c])@ == (if reads && names(regs@, i + 1, c) {
                    changed(old(self).uses@[c]@, inst, add)
                } else {
                    old(self).uses@[c]@
                }) by {
                    assert(before.uses@[c]@ == (if reads && names(regs@, i as int, c) {
                        changed(old(self).uses@[c]@, inst, add)
                    } else {
                        old(self).uses@[c]@
                    }));
                    if c == id.code() {
                        assert(self.uses@[c]@ =~= (if reads {
                            changed(old(self).uses@[c]@, inst, add)
                        } else {
                            old(self).uses@[c]@
                        }));
                    }
                }
                assert forall|c: int| 0 <= c < old(self).defs@.len() implies (
                #[trigger] self.defs@[c])@ == (if !reads && names(regs@, i + 1, c) {
                    changed(old(self).defs@[c]@, inst, add)
                } else {
                    old(self).defs@[c]@
                }) by {
                    assert(before.defs@[c]@ == (if !reads && names(regs@, i as int, c) {
                        changed(old(self).defs@[c]@, inst, add)
                    } else {
                        old(self).defs@[c]@
                    }));
                    if c == id.code() {
                        assert(self.defs@[c]@ =~= (if !reads {
                            changed(old(self).defs@[c]@, inst, add)
                        } else {
                            old(self).defs@[c]@
                        }));
                    }
                }
            }
            i += 1;
        }
    }

    /// Puts what is on record for `from` on record for `into` as well.
    pub fn merge_records(&mut self, into: RegisterId, from: RegisterId)
        requires
            old(self).wf(),
            old(self).knows(into),
            old(self).knows(from),
            into.wf(),
            from.wf(),
        ensures
            final(self).wf(),
            old(self).same_but(final(self), into.code()),
            final(self).uses_of(into) == old(self).uses_of(into).union(old(self).uses_of(from)),
            final(self).defs_of(into) == old(self).defs_of(into).union(old(self).defs_of(from)),
    {
        let to = into.to_code();
        let read = set_elements(&self.uses[from.to_code()]);
        let mut i: usize = 0;
        while i < read.len()
            invariant
                i <= read@.len(),
                self.wf(),
                to == into.code(),
                to < self.uses@.len(),
                old(self).same_but(self, to as int),
                self.defs@[to as int]@ == old(self).defs@[to as int]@,
                forall|x: usize|
                    self.uses@[to as int]@.contains(x) <==> old(self).uses@[to as int]@.contains(x)
                        || exists|j: int| 0 <= j < i && read@[j] == x,
            decreases read@.len() - i,
        {
            let ghost before = self.uses@[to as int]@;
            let set = &mut self.uses[to];
            set_insert(set, read[i]);
            proof {
                assert forall|x: usize|
                    self.uses@[to as int]@.contains(x) <==> old(self).uses@[to as int]@.contains(x)
                        || exists|j: int| 0 <= j < i + 1 && read@[j] == x by {
                    if before.contains(x) && !old(self).uses@[to as int]@.contains(x) {
                        let j = choose|j: int| 0 <= j < i && read@[j] == x;
                        assert(0 <= j < i + 1 && read@[j] == x);
                    }
                    if x == read@[i as int] {
                        assert(0 <= i < i + 1 && read@[i as int] == x);
                    }
                }
            }
            i += 1;
        }
        let written = set_elements(&self.defs[from.to_code()]);
        let ghost mid = self.uses@[to as int]@;
        let mut k: usize = 0;
        while k < written.len()
            invariant
                k <= written@.len(),
                self.wf(),
                to == into.code(),
                to < self.defs@.len(),
                old(self).same_but(self, to as int),
                self.uses@[to as int]@ == mid,
                forall|x: usize|
                    self.defs@[to as int]@.contains(x) <==> old(self).defs@[to as int]@.contains(x)
                        || exists|j: int| 0 <= j < k && written@[j] == x,
            decreases written@.len() - k,
        {
            let ghost before = self.defs@[to as int]@;
            let set = &mut self.defs[to];
            set_insert(set, written[k]);
            proof {
                assert forall|x: usize|
                    self.defs@[to as int]@.contains(x) <==> old(self).defs@[to as int]@.contains(x)
                        || exists|j: int| 0 <= j < k + 1 && written@[j] == x by {
                    if before.contains(x) && !old(self).defs@[to as int]@.contains(x) {
                        let j = choose|j: int| 0 <= j < k && written@[j] == x;
                        assert(0 <= j < k + 1 && written@[j] == x);
                    }
                    if x == written@[k as int] {
                        assert(0 <= k < k + 1 && written@[k as int] == x);
                    }
                }
            }
            k += 1;
        }
        proof {
            let from_uses = old(self).uses_of(from);
            let from_defs = old(self).defs_of(from);
            assert(read@.to_set() == from_uses);
            assert forall|x: usize| (exists|j: int| 0 <= j < read@.len() && read@[j] == x)
                <==> from_uses.contains(x) by {
                if from_uses.contains(x) {
                    assert(read@.contains(x));
                }
                if exists|j: int| 0 <= j < read@.len() && read@[j] == x {
                    let j = choose|j: int| 0 <= j < read@.len() && read@[j] == x;
                    assert(read@.contains(x));
                }
            }
            assert(self.uses_of(into) =~= old(self).uses_of(into).union(from_uses));
            assert forall|x: usize| (exists|j: int| 0 <= j < written@.len() && written@[j] == x)
                <==> from_defs.contains(x) by {
                if from_defs.contains(x) {
                    assert(written@.contains(x));
                }
                if exists|j: int| 0 <= j < written@.len() && written@[j] == x {
                    let j = choose|j: int| 0 <= j < written@.len() && written@[j] == x;
                    assert(written@.contains(x));
                }
            }
            assert(self.defs_of(into) =~= old(self).defs_of(into).union(from_defs));
        }
    }

    pub fn get_phys_reg(&self, p: PhysReg) -> (r: RegisterId)
        ensures
            r.kind == VirtOrPhys::Phys(p),
    {
        RegisterId::phys(p)
    }

    pub fn reg_class(&self, id: RegisterId) -> (r: Option<RegisterClassKind>)
        ensures
            r == self.class_of(id),
    {
        match id.kind {
            VirtOrPhys::Phys(p) => if p.0 < PHYS_REGS_NUM {
                Some(p.reg_class())
            } else {
                None
            },
            VirtOrPhys::Virt(v) => if v.0 < self.virt_classes.len() {
                Some(self.virt_classes[v.0])
            } else {
                None
            },
        }
    }
}

} // verus!
