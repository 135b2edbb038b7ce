//! The liveness record of a basic block: the registers that the block
//! defines, those that are live when it is entered and when it is left, the
//! register files that it writes, and whether it calls.
//!
//! A set of registers holds the codes of its registers. Of the physical
//! registers that alias one another it holds the widest one only: adding a
//! register drops its narrower aliases, and is left undone where a wider
//! alias is there already. Callee-saved registers are never recorded.

use crate::fx::{set_contains, set_elements, set_insert, set_new, set_remove};
use crate::register::{is_callee_saved_reg, PhysReg, RegKey, RegisterId, VirtOrPhys};
use rustc_hash::FxHashSet;
use vstd::prelude::*;

verus! {

/// Liveness of one basic block.
pub struct LivenessInfo {
    pub phys_def: FxHashSet<usize>,
    pub def: FxHashSet<usize>,
    pub live_in: FxHashSet<usize>,
    pub live_out: FxHashSet<usize>,
    pub has_call: bool,
}

/// `s` without the narrower aliases of `p`.
pub open spec fn without_subs(s: Set<usize>, p: PhysReg) -> Set<usize> {
    s.filter(|c: usize| !PhysReg(c).is_sub_of(p))
}

/// `s` holds a wider alias of `p`.
pub open spec fn has_super(s: Set<usize>, p: PhysReg) -> bool {
    exists|c: usize| s.contains(c) && p.is_sub_of(PhysReg(c))
}

/// Adding `reg` to `s` puts it in.
pub open spec fn adds(s: Set<usize>, reg: RegisterId) -> bool {
    match reg.kind {
        VirtOrPhys::Virt(_) => !s.contains(reg.code() as usize),
        VirtOrPhys::Phys(p) => !p.callee_saved() && !s.contains(p.0) && !has_super(s, p),
    }
}

/// The set `s` after `reg` was added. A virtual register is put in. A
/// physical register that is callee-saved or in the set already changes
/// nothing; any other drops its narrower aliases from the set, and is put in
/// unless the set holds a wider alias.
pub open spec fn added(s: Set<usize>, reg: RegisterId) -> Set<usize> {
    match reg.kind {
        VirtOrPhys::Virt(_) => s.insert(reg.code() as usize),
        VirtOrPhys::Phys(p) => if p.callee_saved() || s.contains(p.0) {
            s
        } else if has_super(s, p) {
            without_subs(s, p)
        } else {
            without_subs(s, p).insert(p.0)
        },
    }
}

/// The set `s` after the first `n` registers of `codes` were added in turn.
pub open spec fn added_all(s: Set<usize>, codes: Seq<usize>, n: int) -> Set<usize>
    decreases n,
{
    if n <= 0 {
        s
    } else {
        added(added_all(s, codes, n - 1), RegisterId::of_code(codes[n - 1]))
    }
}

/// Adds `reg` to `set`, and says whether it was put in.
fn add_reg(set: &mut FxHashSet<usize>, reg: RegisterId) -> (r: bool)
    requires
        reg.wf(),
    ensures
        final(set)@ == added(old(set)@, reg),
        r == adds(old(set)@, reg),
{
    if reg.is_virt_reg() {
        return set_insert(set, reg.to_code());
    }
    let p = reg.as_phys_reg();
    if is_callee_saved_reg(p) {
        return false;
    }
    if set_contains(set, p.0) {
        return false;
    }
    let mut cur = p;
    let mut go = true;
    while go
        invariant
            p.wf(),
            cur.0 <= p.0,
            cur.0 as int % 16 == p.0 as int % 16,
            p.0 >= 48 ==> cur == p,
            set@ =~= old(set)@.filter(|c: usize| !(PhysReg(c).is_sub_of(p) && c >= cur.0)),
            !go ==> cur.sub() is None,
        decreases cur.0, (if go { 1int } else { 0int }),
    {
        match cur.sub_reg() {
            Some(sub) => {
                let ghost before = set@;
                let ghost prev = cur;
                cur = sub;
                set_remove(set, cur.0);
                proof {
                    assert(PhysReg(cur.0).is_sub_of(p));
                    assert forall|c: usize|
                        set@.contains(c) == (old(set)@.contains(c) && !(PhysReg(c).is_sub_of(p)
                            && c >= cur.0)) by {
                        assert(before.contains(c) == (old(set)@.contains(c) && !(PhysReg(
                            c,
                        ).is_sub_of(p) && c >= prev.0)));
                        if cur.0 < c < prev.0 {
                            assert(c as int % 16 != p.0 as int % 16);
                        }
                    }
                }
            },
            None => {
                go = false;
            },
        }
    }
    proof {
        assert forall|c: usize| PhysReg(c).is_sub_of(p) implies c >= cur.0 by {
            if cur != p {
                assert(cur.0 < 16);
            }
        }
        assert(set@ =~= without_subs(old(set)@, p));
    }
    cur = p;
    go = true;
    let mut found = false;
    while go && !found
        invariant
            p.wf(),
            p.0 <= cur.0 < 64,
            cur.0 as int % 16 == p.0 as int % 16,
            p.0 >= 48 ==> cur == p,
            set@ == without_subs(old(set)@, p),
            !found ==> forall|c: usize|
                old(set)@.contains(c) && p.is_sub_of(PhysReg(c)) ==> c > cur.0,
            found ==> has_super(old(set)@, p),
            !go ==> cur.sup() is None,
        decreases 64 - cur.0, (if go { 1int } else { 0int }),
    {
        match cur.super_reg() {
            Some(sup) => {
                cur = sup;
                if set_contains(set, cur.0) {
                    found = true;
                    proof {
                        assert(old(set)@.contains(cur.0) && p.is_sub_of(PhysReg(cur.0)));
                    }
                }
            },
            None => {
                go = false;
            },
        }
    }
    if found {
        return false;
    }
    set_insert(set, p.0)
}

/// A set with the elements of `s`.
pub(crate) fn copy_set(s: &FxHashSet<usize>) -> (r: FxHashSet<usize>)
    ensures
        r@ == s@,
{
    let mut r = set_new();
    unite_set(&mut r, s);
    proof {
        assert(r@ =~= s@);
    }
    r
}

/// Adds the elements of `s` to `to`.
pub(crate) fn unite_set(to: &mut FxHashSet<usize>, s: &FxHashSet<usize>)
    ensures
        final(to)@ == old(to)@.union(s@),
{
    let items = set_elements(s);
    let mut i: usize = 0;
    proof {
        assert(to@ =~= old(to)@.union(items@.take(0).to_set()));
    }
    while i < items.len()
        invariant
            i <= items@.len(),
            to@ == old(to)@.union(items@.take(i as int).to_set()),
        decreases items@.len() - i,
    {
        set_insert(to, items[i]);
        proof {
            let a = items@.take(i as int);
            let b = items@.take(i + 1);
            assert(b =~= a.push(items@[i as int]));
            assert forall|x: usize| b.to_set().contains(x) == a.to_set().insert(
                items@[i as int],
            ).contains(x) by {
                if b.contains(x) {
                    let j = choose|j: int| 0 <= j < b.len() && b[j] == x;
                    if j < i {
                        assert(a[j] == x);
                    }
                }
                if a.contains(x) {
                    let j = choose|j: int| 0 <= j < a.len() && a[j] == x;
                    assert(b[j] == x);
                }
                assert(b[i as int] == items@[i as int]);
            }
            assert(to@ =~= old(to)@.union(b.to_set()));
        }
        i += 1;
    }
    proof {
        assert(items@.take(items@.len() as int) =~= items@);
    }
}

/// Adds the registers with the codes `codes` to `set`, in list order.
fn add_regs(set: &mut FxHashSet<usize>, codes: &Vec<usize>)
    ensures
        final(set)@ == added_all(old(set)@, codes@, codes@.len() as int),
{
    let mut i: usize = 0;
    while i < codes.len()
        invariant
            i <= codes@.len(),
            set@ == added_all(old(set)@, codes@, i as int),
        decreases codes@.len() - i,
    {
        add_reg(set, RegisterId::from_code(codes[i]));
        i += 1;
    }
}

impl LivenessInfo {
    pub fn new() -> (r: Self)
        ensures
            r.phys_def@ == Set::<usize>::empty(),
            r.def@ == Set::<usize>::empty(),
            r.live_in@ == Set::<usize>::empty(),
            r.live_out@ == Set::<usize>::empty(),
            !r.has_call,
    {
        Self {
            phys_def: set_new(),
            def: set_new(),
            live_in: set_new(),
            live_out: set_new(),
            has_call: false,
        }
    }

    /// Records that the block writes the register file entry of `r`.
    pub fn add_phys_def(&mut self, r: PhysReg)
        requires
            r.wf(),
        ensures
            final(self).phys_def@ == old(self).phys_def@.insert(r.key() as usize),
            final(self).def == old(self).def,
            final(self).live_in == old(self).live_in,
            final(self).live_out == old(self).live_out,
            final(self).has_call == old(self).has_call,
    {
        let key = RegKey::from_phys(r);
        set_insert(&mut self.phys_def, key.0);
    }

    /// Adds `reg` to the registers that the block defines.
    pub fn add_def(&mut self, reg: RegisterId) -> (r: bool)
        requires
            reg.wf(),
        ensures
            final(self).def@ == added(old(self).def@, reg),
            r == adds(old(self).def@, reg),
            final(self).phys_def == old(self).phys_def,
            final(self).live_in == old(self).live_in,
            final(self).live_out == old(self).live_out,
            final(self).has_call == old(self).has_call,
    {
        add_reg(&mut self.def, reg)
    }

    /// Adds `reg` to the registers that are live when the block is entered.
    pub fn add_live_in(&mut self, reg: RegisterId) -> (r: bool)
        requires
            reg.wf(),
        ensures
            final(self).live_in@ == added(old(self).live_in@, reg),
            r == adds(old(self).live_in@, reg),
            final(self).phys_def == old(self).phys_def,
            final(self).def == old(self).def,
            final(self).live_out == old(self).live_out,
            final(self).has_call == old(self).has_call,
    {
        add_reg(&mut self.live_in, reg)
    }

    /// Adds `reg` to the registers that are live when the block is left.
    pub fn add_live_out(&mut self, reg: RegisterId) -> (r: bool)
        requires
            reg.wf(),
        ensures
            final(self).live_out@ == added(old(self).live_out@, reg),
            r == adds(old(self).live_out@, reg),
            final(self).phys_def == old(self).phys_def,
            final(self).def == old(self).def,
            final(self).live_in == old(self).live_in,
            final(self).has_call == old(self).has_call,
    {
        add_reg(&mut self.live_out, reg)
    }

    /// Merges the record `src` of a block that was joined to this one: its
    /// registers are added one by one, in an order that is not stated.
    pub fn merge(&mut self, src: LivenessInfo)
        ensures
            exists|order: Seq<usize>|
                order.no_duplicates() && order.to_set() == src.def@ && final(self).def@ == added_all(
                    old(self).def@,
                    order,
                    order.len() as int,
                ),
            exists|order: Seq<usize>|
                order.no_duplicates() && order.to_set() == src.live_in@ && final(self).live_in@
                    == added_all(old(self).live_in@, order, order.len() as int),
            exists|order: Seq<usize>|
                order.no_duplicates() && order.to_set() == src.live_out@ && final(self).live_out@
                    == added_all(old(self).live_out@, order, order.len() as int),
            final(self).has_call == (old(self).has_call || src.has_call),
            final(self).phys_def@ == old(self).phys_def@.union(src.phys_def@),
    {
        let defs = set_elements(&src.def);
        add_regs(&mut self.def, &defs);
        let ins = set_elements(&src.live_in);
        add_regs(&mut self.live_in, &ins);
        let outs = set_elements(&src.live_out);
        add_regs(&mut self.live_out, &outs);
        self.has_call = self.has_call || src.has_call;
        unite_set(&mut self.phys_def, &src.phys_def);
    }

    /// A record with the same sets and the same flag.
    pub fn duplicate(&self) -> (r: Self)
        ensures
            r.phys_def@ == self.phys_def@,
            r.def@ == self.def@,
            r.live_in@ == self.live_in@,
            r.live_out@ == self.live_out@,
            r.has_call == self.has_call,
    {
        Self {
            phys_def: copy_set(&self.phys_def),
            def: copy_set(&self.def),
            live_in: copy_set(&self.live_in),
            live_out: copy_set(&self.live_out),
            has_call: self.has_call,
        }
    }

    pub fn clear(&mut self)
        ensures
            final(self).phys_def@ == Set::<usize>::empty(),
            final(self).def@ == Set::<usize>::empty(),
            final(self).live_in@ == Set::<usize>::empty(),
            final(self).live_out@ == Set::<usize>::empty(),
            !final(self).has_call,
    {
        self.phys_def = set_new();
        self.has_call = false;
        self.def = set_new();
        self.live_in = set_new();
        self.live_out = set_new();
    }
}

} // verus!
