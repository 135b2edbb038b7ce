//! Declarative patterns over DAG nodes, and the matcher that decides whether
//! a pattern fits a node and records the nodes that its names capture.

use crate::node::{ImmediateKind, IROpcode, Node, NodeId, NodePool, OperandNode};
use crate::register::{class_of_type, ty2rc, RegisterClassKind, RegistersInfo};
use crate::types::{MVType, Type};
use vstd::prelude::*;

verus! {

/// The bindings of one match attempt, as a list of names and nodes in the
/// order in which the names were first bound.
pub type Captures = Seq<(Seq<char>, NodeId)>;

/// What a selection pass works on: the node pool and the registers.
pub struct MatchContext {
    pub arena: NodePool,
    pub regs: RegistersInfo,
}

/// A tree pattern. `G` is the type of the rewrite rule that a pattern may
/// carry.
pub enum Pat<G> {
    IR(IRPat<G>),
    MI,
    Operand(OperandPat<G>),
    Compound(CompoundPat<G>),
    Invalid,
}

/// An operation with patterns for its operands.
pub struct IRPat<G> {
    pub name: &'static str,
    pub opcode: Option<IROpcode>,
    pub operands: Vec<Pat<G>>,
    pub ty: Option<Type>,
    pub generate: Option<G>,
}

/// A machine instruction pattern; reserved.
#[derive(Clone)]
pub struct MIPat {}

/// A constraint on the kind of a node.
#[derive(Clone)]
pub struct OperandPat<G> {
    pub name: &'static str,
    pub kind: OperandKind,
    pub not: bool,
    pub generate: Option<G>,
}

/// Alternatives, of which the first that matches counts.
pub struct CompoundPat<G> {
    pub name: &'static str,
    pub pats: Vec<Pat<G>>,
    pub generate: Option<G>,
}

#[derive(Clone, Copy, Debug)]
pub enum OperandKind {
    Any,
    Imm(Immediate),
    Slot(Slot),
    Reg(Register),
    Block(Block),
    CC(Condition),
    Invalid,
}

#[derive(Clone, Copy, PartialEq, Eq, Debug, Structural)]
pub enum Immediate {
    AnyInt8,
    AnyInt32,
    AnyInt64,
    AnyF64,
    AnyInt32PowerOf2,
    Int32(i32),
    Any,
    Null,
}

#[derive(Clone, Copy, Debug)]
pub enum Slot {
    Type(MVType),
    Any,
}

#[derive(Clone, Copy, Debug)]
pub enum Register {
    Class(RegisterClassKind),
    Any,
}

#[derive(Clone, Copy, Debug)]
pub enum Block {
    Any,
}

#[derive(Clone, Copy, Debug)]
pub enum Condition {
    Any,
}

/// The names bound by one match attempt. A name is bound to one node; a
/// second binding of the name takes the place of the first.
pub struct NameMap {
    names: Vec<&'static str>,
    ids: Vec<NodeId>,
}

/// `str` equality: whether the two strings hold the same characters.
#[verifier::external_body]
fn same_name(a: &str, b: &str) -> (r: bool)
    ensures
        r == (a@ == b@),
{
    a == b
}

/// The first place from `i` on at which `m` binds `name`, or -1.
pub open spec fn bound_at(m: Captures, name: Seq<char>, i: int) -> int
    decreases m.len() - i,
{
    if i < 0 || i >= m.len() {
        -1
    } else if m[i].0 == name {
        i
    } else {
        bound_at(m, name, i + 1)
    }
}

/// `m` with `name` bound to `id`: in place where `m` binds the name, behind
/// the other bindings where it does not.
pub open spec fn bound(m: Captures, name: Seq<char>, id: NodeId) -> Captures {
    let k = bound_at(m, name, 0);
    if k >= 0 {
        m.update(k, (name, id))
    } else {
        m.push((name, id))
    }
}

/// `m` after a pattern of the name `name` has matched the node `id`: a
/// pattern without a name binds nothing.
pub open spec fn named(m: Captures, name: Seq<char>, id: NodeId) -> Captures {
    if name.len() == 0 {
        m
    } else {
        bound(m, name, id)
    }
}

/// What `bound_at` finds is a place of `m` that binds `name`, and the first.
pub proof fn lemma_bound_at(m: Captures, name: Seq<char>, i: int)
    requires
        0 <= i,
    ensures
        bound_at(m, name, i) == -1 || (i <= bound_at(m, name, i) < m.len() && m[bound_at(
            m,
            name,
            i,
        )].0 == name),
        forall|j: int| i <= j < m.len() && (bound_at(m, name, i) == -1 || j < bound_at(m, name, i))
            ==> (#[trigger] m[j]).0 != name,
    decreases m.len() - i,
{
    if i < m.len() && m[i].0 != name {
        lemma_bound_at(m, name, i + 1);
    }
}

impl NameMap {
    /// The bindings, in the order in which the names were first bound.
    pub closed spec fn view(&self) -> Captures {
        Seq::new(self.names@.len(), |i: int| (self.names@[i]@, self.ids@[i]))
    }

    /// The invariant of the map.
    pub closed spec fn wf(&self) -> bool {
        self.names@.len() == self.ids@.len()
    }

    pub fn new() -> (r: Self)
        ensures
            r.wf(),
            r@.len() == 0,
    {
        NameMap { names: Vec::new(), ids: Vec::new() }
    }

    pub fn len(&self) -> (n: usize)
        requires
            self.wf(),
        ensures
            n == self@.len(),
    {
        self.names.len()
    }

    /// The place at which `name` is bound.
    fn find(&self, name: &str) -> (r: Option<usize>)
        requires
            self.wf(),
        ensures
            match r {
                Some(k) => k == bound_at(self@, name@, 0) && k < self@.len() && self@[k as int].0
                    == name@,
                None => bound_at(self@, name@, 0) == -1,
            },
    {
        let mut i: usize = 0;
        while i < self.names.len()
            invariant
                self.wf(),
                i <= self.names@.len(),
                bound_at(self@, name@, 0) == bound_at(self@, name@, i as int),
            decreases self.names@.len() - i,
        {
            if same_name(self.names[i], name) {
                return Some(i);
            }
            i += 1;
        }
        None
    }

    /// Binds `name` to `id`.
    pub fn insert(&mut self, name: &'static str, id: NodeId)
        requires
            old(self).wf(),
        ensures
            final(self).wf(),
            final(self)@ == bound(old(self)@, name@, id),
    {
        match self.find(name) {
            Some(k) => {
                self.ids.set(k, id);
                proof {
                    assert(final(self)@ =~= old(self)@.update(k as int, (name@, id)));
                }
            },
            None => {
                self.names.push(name);
                self.ids.push(id);
                proof {
                    assert(final(self)@ =~= old(self)@.push((name@, id)));
                }
            },
        }
    }

    /// The node that `name` is bound to.
    pub fn get(&self, name: &str) -> (r: Option<NodeId>)
        requires
            self.wf(),
        ensures
            r == (if bound_at(self@, name@, 0) >= 0 {
                Some(self@[bound_at(self@, name@, 0)].1)
            } else {
                None
            }),
    {
        match self.find(name) {
            Some(k) => Some(self.ids[k]),
            None => None,
        }
    }

    /// The name of the binding `i`.
    pub fn name_at(&self, i: usize) -> (r: &'static str)
        requires
            self.wf(),
            i < self@.len(),
        ensures
            r@ == self@[i as int].0,
    {
        self.names[i]
    }

    /// The node of the binding `i`.
    pub fn id_at(&self, i: usize) -> (r: NodeId)
        requires
            self.wf(),
            i < self@.len(),
        ensures
            r == self@[i as int].1,
    {
        self.ids[i]
    }

    /// Binds the name of the binding `i` to `id`.
    pub fn set_id_at(&mut self, i: usize, id: NodeId)
        requires
            old(self).wf(),
            i < old(self)@.len(),
        ensures
            final(self).wf(),
            final(self)@ == old(self)@.update(i as int, (old(self)@[i as int].0, id)),
    {
        self.ids.set(i, id);
        proof {
            assert(final(self)@ =~= old(self)@.update(i as int, (old(self)@[i as int].0, id)));
        }
    }
}

/// `x` is a power of two: 1, or twice a power of two.
pub open spec fn power_of_two(x: int) -> bool
    decreases x,
{
    if x <= 0 {
        false
    } else if x == 1 {
        true
    } else {
        x % 2 == 0 && power_of_two(x / 2)
    }
}

pub fn is_power_of_two(x: i32) -> (r: bool)
    ensures
        r == power_of_two(x as int),
{
    if x <= 0 {
        return false;
    }
    let mut v: i32 = x;
    while v % 2 == 0
        invariant
            v > 0,
            power_of_two(x as int) == power_of_two(v as int),
        decreases v,
    {
        v = v / 2;
    }
    v == 1
}

/// The operand `n` is of the kind `kind`.
pub open spec fn operand_kind_holds(kind: OperandKind, n: OperandNode, regs: RegistersInfo) -> bool {
    match kind {
        OperandKind::Any => true,
        OperandKind::Imm(Immediate::Null) => n matches OperandNode::Imm(i) && i.null(),
        OperandKind::Imm(Immediate::AnyInt8) => n matches OperandNode::Imm(ImmediateKind::Int8(_)),
        OperandKind::Imm(Immediate::AnyInt32) => n matches OperandNode::Imm(
            ImmediateKind::Int32(_),
        ),
        OperandKind::Imm(Immediate::AnyInt64) => n matches OperandNode::Imm(
            ImmediateKind::Int64(_),
        ),
        OperandKind::Imm(Immediate::AnyF64) => n matches OperandNode::Imm(ImmediateKind::F64(_)),
        OperandKind::Imm(Immediate::Int32(i)) => n == OperandNode::Imm(ImmediateKind::Int32(i)),
        OperandKind::Imm(Immediate::AnyInt32PowerOf2) => n matches OperandNode::Imm(
            ImmediateKind::Int32(x),
        ) && power_of_two(x as int),
        OperandKind::Imm(Immediate::Any) => n is Imm,
        OperandKind::Reg(Register::Class(rc)) => n matches OperandNode::Reg(id) && regs.class_of(id)
            == Some(rc),
        OperandKind::Reg(Register::Any) => n is Reg,
        OperandKind::Slot(Slot::Any) => n is Slot,
        OperandKind::Slot(Slot::Type(ty)) => n matches OperandNode::Slot(slot) && ty
            == slot.ty.mvty(),
        OperandKind::Block(_) => n is Block,
        OperandKind::CC(_) => n is CC,
        OperandKind::Invalid => false,
    }
}

/// The outcome of an operand pattern on one node. An operand is held to
/// the kind, and to its opposite where the pattern negates. An operation
/// that is not yet selected stands for the register that will hold its
/// value: it matches any kind, a register class that its type maps to, and
/// any register unless it has no value. A machine instruction matches by the
/// register class that it was given. The absent operand matches nothing.
pub open spec fn operand_outcome<G>(node: Node, op: OperandPat<G>, regs: RegistersInfo) -> Option<
    Option<G>,
> {
    match node {
        Node::Operand(n) => if operand_kind_holds(op.kind, n, regs) != op.not {
            Some(op.generate)
        } else {
            None
        },
        Node::IR(n) => match op.kind {
            OperandKind::Any => Some(op.generate),
            OperandKind::Reg(Register::Class(rc)) => if class_of_type(n.ty) == Some(rc) {
                Some(op.generate)
            } else {
                None
            },
            OperandKind::Reg(Register::Any) => if n.ty != Type::Void {
                Some(op.generate)
            } else {
                None
            },
            _ => None,
        },
        Node::MI(n) => match op.kind {
            OperandKind::Any => Some(op.generate),
            OperandKind::Reg(Register::Class(rc)) => if n.reg_class == Some(rc) {
                Some(op.generate)
            } else {
                None
            },
            OperandKind::Reg(Register::Any) => if n.reg_class is Some {
                Some(op.generate)
            } else {
                None
            },
            _ => None,
        },
        Node::Empty => None,
    }
}

/// The pattern can be matched: it holds no reserved or invalid pattern and
/// no invalid operand kind.
pub open spec fn pat_valid<G>(pat: Pat<G>) -> bool
    decreases pat,
{
    match pat {
        Pat::IR(p) => forall|i: int| 0 <= i < p.operands@.len() ==> pat_valid(#[trigger] p.operands@[i]),
        Pat::Operand(op) => !(op.kind is Invalid),
        Pat::Compound(c) => forall|i: int| 0 <= i < c.pats@.len() ==> pat_valid(#[trigger] c.pats@[i]),
        Pat::MI => false,
        Pat::Invalid => false,
    }
}

/// The outcome of matching `pat` against the node `id`, and the bindings
/// afterwards. The outcome is `None` where the pattern does not match,
/// `Some(None)` where it matches and asks for no rewrite, and `Some(Some(g))`
/// where it matches and asks for the rewrite `g`. Bindings made on the way
/// stay, also where the pattern fails in the end.
///
/// An operation pattern matches an operation of its opcode whose operands
/// match the sub-patterns one by one, as many as there are sub-patterns, and
/// whose machine value type is the one asked for, if one is. Alternatives
/// are tried in order and the first that matches counts; its rewrite wins
/// over that of the compound pattern.
pub open spec fn match_pat<G>(
    nodes: Seq<Node>,
    regs: RegistersInfo,
    id: NodeId,
    pat: Pat<G>,
    m: Captures,
) -> (Option<Option<G>>, Captures)
    decreases pat, 0int,
{
    match pat {
        Pat::IR(p) => match nodes[id as int] {
            Node::IR(n) => if Some(n.opcode) != p.opcode {
                (None, m)
            } else {
                let (ok, m1) = match_args(nodes, regs, n.args@, p.operands@, 0, m);
                if !ok || p.operands@.len() != n.args@.len() {
                    (None, m1)
                } else if p.ty is Some && n.mvty != p.ty->0.mvty() {
                    (None, m1)
                } else {
                    (Some(p.generate), named(m1, p.name@, id))
                }
            },
            _ => (None, m),
        },
        Pat::Operand(op) => {
            let r = operand_outcome(nodes[id as int], op, regs);
            (
                r,
                if r is Some {
                    named(m, op.name@, id)
                } else {
                    m
                },
            )
        },
        Pat::Compound(c) => {
            let (r, m1) = match_alts(nodes, regs, id, c.pats@, 0, m);
            (
                if r == Some(None::<G>) {
                    Some(c.generate)
                } else {
                    r
                },
                if r is Some {
                    named(m1, c.name@, id)
                } else {
                    m1
                },
            )
        },
        Pat::MI => (None, m),
        Pat::Invalid => (None, m),
    }
}

/// Matching the sub-patterns from `i` on against the operands at their
/// places, until one fails or either list ends.
pub open spec fn match_args<G>(
    nodes: Seq<Node>,
    regs: RegistersInfo,
    args: Seq<NodeId>,
    pats: Seq<Pat<G>>,
    i: int,
    m: Captures,
) -> (bool, Captures)
    decreases pats, pats.len() - i,
{
    if i < 0 || i >= pats.len() || i >= args.len() {
        (true, m)
    } else {
        let (r, m1) = match_pat(nodes, regs, args[i], pats[i], m);
        if r is None {
            (false, m1)
        } else {
            match_args(nodes, regs, args, pats, i + 1, m1)
        }
    }
}

/// Matching the alternatives from `i` on against one node, until one
/// matches.
pub open spec fn match_alts<G>(
    nodes: Seq<Node>,
    regs: RegistersInfo,
    id: NodeId,
    alts: Seq<Pat<G>>,
    i: int,
    m: Captures,
) -> (Option<Option<G>>, Captures)
    decreases alts, alts.len() - i,
{
    if i < 0 || i >= alts.len() {
        (None, m)
    } else {
        let (r, m1) = match_pat(nodes, regs, id, alts[i], m);
        if r is Some {
            (r, m1)
        } else {
            match_alts(nodes, regs, id, alts, i + 1, m1)
        }
    }
}

/// Whether the operand `n` is of the kind `kind`.
fn operand_holds(kind: &OperandKind, n: &OperandNode, regs: &RegistersInfo) -> (r: bool)
    requires
        !(kind is Invalid),
    ensures
        r == operand_kind_holds(*kind, *n, *regs),
{
    match kind {
        OperandKind::Any => true,
        OperandKind::Imm(Immediate::Null) => match n {
            OperandNode::Imm(i) => i.is_null(),
            _ => false,
        },
        OperandKind::Imm(Immediate::AnyInt8) => match n {
            OperandNode::Imm(ImmediateKind::Int8(_)) => true,
            _ => false,
        },
        OperandKind::Imm(Immediate::AnyInt32) => match n {
            OperandNode::Imm(ImmediateKind::Int32(_)) => true,
            _ => false,
        },
        OperandKind::Imm(Immediate::AnyInt64) => match n {
            OperandNode::Imm(ImmediateKind::Int64(_)) => true,
            _ => false,
        },
        OperandKind::Imm(Immediate::AnyF64) => match n {
            OperandNode::Imm(ImmediateKind::F64(_)) => true,
            _ => false,
        },
        OperandKind::Imm(Immediate::Int32(i)) => match n {
            OperandNode::Imm(ImmediateKind::Int32(x)) => *x == *i,
            _ => false,
        },
        OperandKind::Imm(Immediate::AnyInt32PowerOf2) => match n {
            OperandNode::Imm(ImmediateKind::Int32(x)) => is_power_of_two(*x),
            _ => false,
        },
        OperandKind::Imm(Immediate::Any) => match n {
            OperandNode::Imm(_) => true,
            _ => false,
        },
        OperandKind::Reg(Register::Class(rc)) => match n {
            OperandNode::Reg(id) => match regs.reg_class(*id) {
                Some(c) => c == *rc,
                None => false,
            },
            _ => false,
        },
        OperandKind::Reg(Register::Any) => match n {
            OperandNode::Reg(_) => true,
            _ => false,
        },
        OperandKind::Slot(Slot::Any) => match n {
            OperandNode::Slot(_) => true,
            _ => false,
        },
        OperandKind::Slot(Slot::Type(ty)) => match n {
            OperandNode::Slot(slot) => *ty == slot.ty.to_mvty(),
            _ => false,
        },
        OperandKind::Block(_) => match n {
            OperandNode::Block(_) => true,
            _ => false,
        },
        OperandKind::CC(_) => match n {
            OperandNode::CC(_) => true,
            _ => false,
        },
        OperandKind::Invalid => false,
    }
}

/// The outcome of the operand pattern `op` on `node`.
fn operand_matches<G: Copy>(node: &Node, op: &OperandPat<G>, regs: &RegistersInfo) -> (r: Option<
    Option<G>,
>)
    requires
        !(op.kind is Invalid),
    ensures
        r == operand_outcome(*node, *op, *regs),
{
    match node {
        Node::Operand(n) => {
            let holds = operand_holds(&op.kind, n, regs);
            if holds != op.not {
                Some(op.generate)
            } else {
                None
            }
        },
        Node::IR(n) => match op.kind {
            OperandKind::Any => Some(op.generate),
            OperandKind::Reg(Register::Class(rc)) => match ty2rc(&n.ty) {
                Some(c) => if c == rc {
                    Some(op.generate)
                } else {
                    None
                },
                None => None,
            },
            OperandKind::Reg(Register::Any) => if n.ty != Type::Void {
                Some(op.generate)
            } else {
                None
            },
            _ => None,
        },
        Node::MI(n) => match op.kind {
            OperandKind::Any => Some(op.generate),
            OperandKind::Reg(Register::Class(rc)) => match n.reg_class {
                Some(c) => if c == rc {
                    Some(op.generate)
                } else {
                    None
                },
                None => None,
            },
            OperandKind::Reg(Register::Any) => if n.reg_class.is_some() {
                Some(op.generate)
            } else {
                None
            },
            _ => None,
        },
        Node::Empty => None,
    }
}

/// Binds `name` to `id` unless the name is empty.
fn bind_name(m: &mut NameMap, name: &'static str, id: NodeId)
    requires
        old(m).wf(),
    ensures
        final(m).wf(),
        final(m)@ == named(old(m)@, name@, id),
{
    if !name.is_empty() {
        m.insert(name, id);
    }
}

/// Matches `pat` against the node `id` and records in `m` the nodes that
/// names capture on the way.
pub fn matches<G: Copy>(ctx: &MatchContext, id: NodeId, pat: &Pat<G>, m: &mut NameMap) -> (r:
    Option<Option<G>>)
    requires
        ctx.arena.wf(),
        id < ctx.arena@.len(),
        pat_valid(*pat),
        old(m).wf(),
    ensures
        final(m).wf(),
        (r, final(m)@) == match_pat(ctx.arena@, ctx.regs, id, *pat, old(m)@),
    decreases *pat,
{
    let ghost nodes = ctx.arena@;
    match pat {
        Pat::IR(p) => {
            match ctx.arena.node(id) {
                Node::IR(n) => {
                    let same_opcode = match p.opcode {
                        Some(o) => o == n.opcode,
                        None => false,
                    };
                    if !same_opcode {
                        return None;
                    }
                    let mut i: usize = 0;
                    let mut ok = true;
                    while ok && i < p.operands.len() && i < n.args.len()
                        invariant
                            *pat == Pat::IR::<G>(*p),
                            pat_valid(*pat),
                            nodes == ctx.arena@,
                            ctx.arena.wf(),
                            id < nodes.len(),
                            nodes[id as int] == Node::IR(*n),
                            m.wf(),
                            i <= p.operands@.len(),
                            i <= n.args@.len(),
                            match_args(nodes, ctx.regs, n.args@, p.operands@, 0, old(m)@) == (if ok {
                                match_args(nodes, ctx.regs, n.args@, p.operands@, i as int, m@)
                            } else {
                                (false, m@)
                            }),
                        decreases p.operands@.len() - i, (if ok { 1int } else { 0int }),
                    {
                        proof {
                            assert(nodes[id as int].operands()[i as int] < nodes.len());
                        }
                        let r = matches(ctx, n.args[i], &p.operands[i], m);
                        if r.is_none() {
                            ok = false;
                        } else {
                            i += 1;
                        }
                    }
                    if !ok || p.operands.len() != n.args.len() {
                        return None;
                    }
                    let same_ty = match p.ty {
                        None => true,
                        Some(ty) => n.mvty == ty.to_mvty(),
                    };
                    if !same_ty {
                        return None;
                    }
                    bind_name(m, p.name, id);
                    Some(p.generate)
                },
                _ => None,
            }
        },
        Pat::MI => None,
        Pat::Operand(op) => {
            let r = operand_matches(ctx.arena.node(id), op, &ctx.regs);
            if r.is_some() {
                bind_name(m, op.name, id);
            }
            r
        },
        Pat::Compound(c) => {
            let mut found: Option<Option<G>> = None;
            let mut i: usize = 0;
            while found.is_none() && i < c.pats.len()
                invariant
                    *pat == Pat::Compound::<G>(*c),
                    pat_valid(*pat),
                    nodes == ctx.arena@,
                    ctx.arena.wf(),
                    id < nodes.len(),
                    m.wf(),
                    i <= c.pats@.len(),
                    match_alts(nodes, ctx.regs, id, c.pats@, 0, old(m)@) == (if found is Some {
                        (found, m@)
                    } else {
                        match_alts(nodes, ctx.regs, id, c.pats@, i as int, m@)
                    }),
                decreases c.pats@.len() - i, (if found is None { 1int } else { 0int }),
            {
                let r = matches(ctx, id, &c.pats[i], m);
                if r.is_some() {
                    found = r;
                } else {
                    i += 1;
                }
            }
            match found {
                Some(g) => {
                    bind_name(m, c.name, id);
                    match g {
                        None => Some(c.generate),
                        Some(_) => found,
                    }
                },
                None => None,
            }
        },
        Pat::Invalid => None,
    }
}

/// `x` is `root`, or an operand, at most `depth` steps down, of the
/// operation `root`.
pub open spec fn descends(nodes: Seq<Node>, root: NodeId, x: NodeId, depth: nat) -> bool
    decreases depth,
{
    x == root || (depth > 0 && nodes[root as int] is IR && exists|k: int|
        0 <= k < nodes[root as int]->IR_0.args@.len() && descends(
            nodes,
            #[trigger] nodes[root as int]->IR_0.args@[k],
            x,
            (depth - 1) as nat,
        ))
}

/// `x` can be reached from `root` through operands of operations.
pub open spec fn reachable(nodes: Seq<Node>, root: NodeId, x: NodeId) -> bool {
    exists|d: nat| descends(nodes, root, x, d)
}

/// `m2` keeps the names of `m1` in their places, and every binding of `m2`
/// that `m1` does not hold is to a node that can be reached from `root`.
pub open spec fn binds_within(nodes: Seq<Node>, root: NodeId, m1: Captures, m2: Captures) -> bool {
    &&& m1.len() <= m2.len()
    &&& forall|i: int| 0 <= i < m1.len() ==> (#[trigger] m2[i]).0 == m1[i].0
    &&& forall|i: int|
        0 <= i < m2.len() ==> (i < m1.len() && (#[trigger] m2[i]) == m1[i]) || reachable(
            nodes,
            root,
            m2[i].1,
        )
}

proof fn lemma_named_within(nodes: Seq<Node>, root: NodeId, m: Captures, name: Seq<char>)
    ensures
        binds_within(nodes, root, m, named(m, name, root)),
{
    lemma_bound_at(m, name, 0);
    assert(descends(nodes, root, root, 0));
}

proof fn lemma_within_trans(
    nodes: Seq<Node>,
    root: NodeId,
    m1: Captures,
    m2: Captures,
    m3: Captures,
)
    requires
        binds_within(nodes, root, m1, m2),
        binds_within(nodes, root, m2, m3),
    ensures
        binds_within(nodes, root, m1, m3),
{
    assert forall|i: int| 0 <= i < m3.len() implies (i < m1.len() && (#[trigger] m3[i]) == m1[i])
        || reachable(nodes, root, m3[i].1) by {
        if i < m2.len() && m3[i] == m2[i] {
            assert(i < m1.len() && m2[i] == m1[i] || reachable(nodes, root, m2[i].1));
        }
    }
}

proof fn lemma_within_lifts(
    nodes: Seq<Node>,
    root: NodeId,
    k: int,
    m1: Captures,
    m2: Captures,
)
    requires
        nodes[root as int] is IR,
        0 <= k < nodes[root as int]->IR_0.args@.len(),
        binds_within(nodes, nodes[root as int]->IR_0.args@[k], m1, m2),
    ensures
        binds_within(nodes, root, m1, m2),
{
    let child = nodes[root as int]->IR_0.args@[k];
    assert forall|i: int| 0 <= i < m2.len() implies (i < m1.len() && (#[trigger] m2[i]) == m1[i])
        || reachable(nodes, root, m2[i].1) by {
        if !(i < m1.len() && m2[i] == m1[i]) {
            let d = choose|d: nat| descends(nodes, child, m2[i].1, d);
            assert(descends(nodes, root, m2[i].1, d + 1));
        }
    }
}

/// Matching binds names to nodes that can be reached from the node that is
/// matched, and leaves the other bindings as they are.
pub proof fn lemma_match_binds_within<G>(
    nodes: Seq<Node>,
    regs: RegistersInfo,
    id: NodeId,
    pat: Pat<G>,
    m: Captures,
)
    ensures
        binds_within(nodes, id, m, match_pat(nodes, regs, id, pat, m).1),
    decreases pat, 0int,
{
    match pat {
        Pat::IR(p) => match nodes[id as int] {
            Node::IR(n) => {
                if Some(n.opcode) == p.opcode {
                    lemma_match_args_bind_within(nodes, regs, id, p.operands@, 0, m);
                    let m1 = match_args(nodes, regs, n.args@, p.operands@, 0, m).1;
                    lemma_named_within(nodes, id, m1, p.name@);
                    lemma_within_trans(nodes, id, m, m1, named(m1, p.name@, id));
                }
            },
            _ => {},
        },
        Pat::Operand(op) => {
            lemma_named_within(nodes, id, m, op.name@);
        },
        Pat::Compound(c) => {
            lemma_match_alts_bind_within(nodes, regs, id, c.pats@, 0, m);
            let m1 = match_alts(nodes, regs, id, c.pats@, 0, m).1;
            lemma_named_within(nodes, id, m1, c.name@);
            lemma_within_trans(nodes, id, m, m1, named(m1, c.name@, id));
        },
        Pat::MI => {},
        Pat::Invalid => {},
    }
}

proof fn lemma_match_args_bind_within<G>(
    nodes: Seq<Node>,
    regs: RegistersInfo,
    id: NodeId,
    pats: Seq<Pat<G>>,
    i: int,
    m: Captures,
)
    requires
        nodes[id as int] is IR,
    ensures
        binds_within(
            nodes,
            id,
            m,
            match_args(nodes, regs, nodes[id as int]->IR_0.args@, pats, i, m).1,
        ),
    decreases pats, pats.len() - i,
{
    let args = nodes[id as int]->IR_0.args@;
    if 0 <= i < pats.len() && i < args.len() {
        let (r, m1) = match_pat(nodes, regs, args[i], pats[i], m);
        lemma_match_binds_within(nodes, regs, args[i], pats[i], m);
        lemma_within_lifts(nodes, id, i, m, m1);
        if r is Some {
            lemma_match_args_bind_within(nodes, regs, id, pats, i + 1, m1);
            lemma_within_trans(nodes, id, m, m1, match_args(nodes, regs, args, pats, i + 1, m1).1);
        }
    }
}

proof fn lemma_match_alts_bind_within<G>(
    nodes: Seq<Node>,
    regs: RegistersInfo,
    id: NodeId,
    alts: Seq<Pat<G>>,
    i: int,
    m: Captures,
)
    ensures
        binds_within(nodes, id, m, match_alts(nodes, regs, id, alts, i, m).1),
    decreases alts, alts.len() - i,
{
    if 0 <= i < alts.len() {
        let (r, m1) = match_pat(nodes, regs, id, alts[i], m);
        lemma_match_binds_within(nodes, regs, id, alts[i], m);
        if r is None {
            lemma_match_alts_bind_within(nodes, regs, id, alts, i + 1, m1);
            lemma_within_trans(nodes, id, m, m1, match_alts(nodes, regs, id, alts, i + 1, m1).1);
        }
    }
}

proof fn lemma_descends_within(nodes: Seq<Node>, root: NodeId, x: NodeId, depth: nat)
    requires
        crate::node::nodes_closed(nodes),
        root < nodes.len(),
        descends(nodes, root, x, depth),
    ensures
        x < nodes.len(),
    decreases depth,
{
    if x != root {
        let n = nodes[root as int]->IR_0;
        let k = choose|k: int|
            0 <= k < n.args@.len() && descends(nodes, #[trigger] n.args@[k], x, (depth - 1) as nat);
        assert(nodes[root as int].operands()[k] < nodes.len());
        lemma_descends_within(nodes, n.args@[k], x, (depth - 1) as nat);
    }
}

/// In a pool whose operands are all nodes of the pool, what can be reached
/// from a node of the pool is a node of the pool.
pub proof fn lemma_reachable_within(nodes: Seq<Node>, root: NodeId, x: NodeId)
    requires
        crate::node::nodes_closed(nodes),
        root < nodes.len(),
        reachable(nodes, root, x),
    ensures
        x < nodes.len(),
{
    let d = choose|d: nat| descends(nodes, root, x, d);
    lemma_descends_within(nodes, root, x, d);
}

} // verus!
