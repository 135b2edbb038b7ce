//! The node pool: DAG nodes of the instruction selector, stored in an arena
//! and referred to by index. A node is an operation of the intermediate
//! representation, a machine instruction, or an operand.

use crate::register::{RegisterClassKind, RegisterId};
use crate::types::{MVType, Type};
use id_arena::{Arena, ArenaBehavior, DefaultArenaBehavior};
use vstd::prelude::*;

verus! {

/// Index of a node in its pool.
pub type NodeId = usize;

/// Operation of the intermediate representation.
#[derive(Clone, Copy, Debug, PartialEq, Eq, Hash, Structural)]
pub enum IROpcode {
    Add,
    Sub,
    Mul,
    Div,
    Rem,
    Load,
    Store,
    Sext,
    FIAddr,
    GlobalAddr,
    Bitcast,
    Call,
    Br,
    Ret,
}

/// Instruction of the target.
#[derive(Clone, Copy, Debug, PartialEq, Eq, Hash, Structural)]
pub enum MachineOpcode {
    MOVri32,
    MOVrr32,
    MOVrm32,
    MOVmi32,
    MOVmr32,
    ADDri32,
    ADDrr32,
    Copy,
    CALL,
    JMP,
    RET,
}

/// An immediate value. A 64-bit float is held by its bits.
#[derive(Clone, Copy, Debug, PartialEq, Eq, Hash, Structural)]
pub enum ImmediateKind {
    Int8(i8),
    Int32(i32),
    Int64(i64),
    F64(u64),
}

/// Condition of a comparison.
#[derive(Clone, Copy, Debug, PartialEq, Eq, Hash, Structural)]
pub enum CondKind {
    Eq,
    Ne,
    Le,
    Lt,
    Ge,
    Gt,
}

/// A stack slot: its number in the frame and the type of what it holds.
#[derive(Clone, Copy, Debug, PartialEq, Eq, Hash, Structural)]
pub struct FrameIndexInfo {
    pub ty: Type,
    pub idx: usize,
}

/// A memory operand, by the nodes it is made of.
#[derive(Clone, Copy, Debug, PartialEq, Eq, Hash, Structural)]
pub enum MemKind {
    /// A base register and a stack slot.
    BaseFi(NodeId, NodeId),
}

/// A leaf of the DAG.
#[derive(Clone, Copy, Debug, PartialEq, Eq, Hash, Structural)]
pub enum OperandNode {
    Imm(ImmediateKind),
    Reg(RegisterId),
    Slot(FrameIndexInfo),
    Block(usize),
    CC(CondKind),
    Mem(MemKind),
}

/// An operation that is not yet selected.
#[derive(Clone, Debug)]
pub struct IRNode {
    pub opcode: IROpcode,
    pub args: Vec<NodeId>,
    pub ty: Type,
    pub mvty: MVType,
    pub next: Option<NodeId>,
    pub chain: Option<NodeId>,
}

/// A machine instruction.
#[derive(Clone, Debug)]
pub struct MINode {
    pub opcode: MachineOpcode,
    pub args: Vec<NodeId>,
    pub reg_class: Option<RegisterClassKind>,
    pub next: Option<NodeId>,
    pub chain: Option<NodeId>,
}

/// A node of the DAG.
#[derive(Clone, Debug)]
pub enum Node {
    IR(IRNode),
    MI(MINode),
    Operand(OperandNode),
    /// The absent operand.
    Empty,
}

/// `id_arena::DefaultArenaBehavior`, carried through as an opaque value.
#[verifier::external_type_specification]
#[verifier::external_body]
#[verifier::reject_recursive_types(T)]
pub struct ExDefaultArenaBehavior<T>(DefaultArenaBehavior<T>);

/// `id_arena::Arena`, carried through as an opaque value.
#[verifier::external_type_specification]
#[verifier::external_body]
#[verifier::reject_recursive_types(T)]
#[verifier::reject_recursive_types(A)]
pub struct ExArena<T, A>(Arena<T, A>);

/// The nodes that an arena holds, by index.
pub uninterp spec fn arena_nodes(arena: Arena<Node>) -> Seq<Node>;

/// `Arena::new`: an arena without items.
#[verifier::external_body]
fn arena_new() -> (a: Arena<Node>)
    ensures
        arena_nodes(a).len() == 0,
{
    Arena::new()
}

/// `Arena::len`: the number of items.
#[verifier::external_body]
fn arena_len(a: &Arena<Node>) -> (n: usize)
    ensures
        n == arena_nodes(*a).len(),
{
    a.len()
}

/// `Arena::alloc`, and `Id::index` of what it returns: the item is put
/// behind the others, which stay where they are, and its index is the
/// number of items that were there before.
#[verifier::external_body]
fn arena_alloc(a: &mut Arena<Node>, node: Node) -> (i: usize)
    ensures
        arena_nodes(*final(a)) == arena_nodes(*old(a)).push(node),
        i == arena_nodes(*old(a)).len(),
{
    a.alloc(node).index()
}

/// `Arena::get`, with the identifier that this arena gives to the index
/// `i`: the item at `i`, if there is one.
#[verifier::external_body]
fn arena_get(a: &Arena<Node>, i: usize) -> (r: Option<&Node>)
    ensures
        r == (if i < arena_nodes(*a).len() {
            Some(&arena_nodes(*a)[i as int])
        } else {
            None
        }),
{
    let arena_id = DefaultArenaBehavior::<Node>::arena_id(a.next_id());
    a.get(DefaultArenaBehavior::<Node>::new_id(arena_id, i))
}

/// `Arena::index_mut`, with the identifier that this arena gives to the
/// index `i`, and an assignment: the item at `i` is `node` afterwards and
/// the others stay as they are.
#[verifier::external_body]
fn arena_set(a: &mut Arena<Node>, i: usize, node: Node)
    requires
        i < arena_nodes(*old(a)).len(),
    ensures
        arena_nodes(*final(a)) == arena_nodes(*old(a)).update(i as int, node),
{
    let arena_id = DefaultArenaBehavior::<Node>::arena_id(a.next_id());
    a[DefaultArenaBehavior::<Node>::new_id(arena_id, i)] = node;
}

impl ImmediateKind {
    /// The immediate is zero.
    pub open spec fn null(self) -> bool {
        match self {
            ImmediateKind::Int8(x) => x == 0,
            ImmediateKind::Int32(x) => x == 0,
            ImmediateKind::Int64(x) => x == 0,
            ImmediateKind::F64(x) => x == 0,
        }
    }

    pub fn is_null(&self) -> (r: bool)
        ensures
            r == self.null(),
    {
        match self {
            ImmediateKind::Int8(x) => *x == 0,
            ImmediateKind::Int32(x) => *x == 0,
            ImmediateKind::Int64(x) => *x == 0,
            ImmediateKind::F64(x) => *x == 0,
        }
    }
}

impl OperandNode {
    /// A 32-bit immediate.
    pub fn i32(i: i32) -> (r: Self)
        ensures
            r == OperandNode::Imm(ImmediateKind::Int32(i)),
    {
        OperandNode::Imm(ImmediateKind::Int32(i))
    }
}

impl IRNode {
    /// An operation without operands and without a type.
    pub fn new(opcode: IROpcode) -> (r: Self)
        ensures
            r.opcode == opcode,
            r.args@.len() == 0,
            r.ty == Type::Void,
            r.mvty == MVType::Void,
            r.next is None,
            r.chain is None,
    {
        IRNode {
            opcode,
            args: Vec::new(),
            ty: Type::Void,
            mvty: MVType::Void,
            next: None,
            chain: None,
        }
    }

    pub fn args(self, args: Vec<NodeId>) -> (r: Self)
        ensures
            r.args == args,
            r.opcode == self.opcode,
            r.ty == self.ty,
            r.mvty == self.mvty,
            r.next == self.next,
            r.chain == self.chain,
    {
        IRNode {
            opcode: self.opcode,
            args,
            ty: self.ty,
            mvty: self.mvty,
            next: self.next,
            chain: self.chain,
        }
    }

    /// Sets the type, and the machine value type with it.
    pub fn ty(self, ty: Type) -> (r: Self)
        ensures
            r.ty == ty,
            r.mvty == ty.mvty(),
            r.opcode == self.opcode,
            r.args == self.args,
            r.next == self.next,
            r.chain == self.chain,
    {
        IRNode {
            opcode: self.opcode,
            args: self.args,
            ty,
            mvty: ty.to_mvty(),
            next: self.next,
            chain: self.chain,
        }
    }
}

impl MINode {
    /// An instruction without operands and without a register class.
    pub fn new(opcode: MachineOpcode) -> (r: Self)
        ensures
            r.opcode == opcode,
            r.args@.len() == 0,
            r.reg_class is None,
            r.next is None,
            r.chain is None,
    {
        MINode { opcode, args: Vec::new(), reg_class: None, next: None, chain: None }
    }

    pub fn args(self, args: Vec<NodeId>) -> (r: Self)
        ensures
            r.args == args,
            r.opcode == self.opcode,
            r.reg_class == self.reg_class,
            r.next == self.next,
            r.chain == self.chain,
    {
        MINode {
            opcode: self.opcode,
            args,
            reg_class: self.reg_class,
            next: self.next,
            chain: self.chain,
        }
    }

    pub fn reg_class(self, rc: RegisterClassKind) -> (r: Self)
        ensures
            r.reg_class == Some(rc),
            r.opcode == self.opcode,
            r.args == self.args,
            r.next == self.next,
            r.chain == self.chain,
    {
        MINode {
            opcode: self.opcode,
            args: self.args,
            reg_class: Some(rc),
            next: self.next,
            chain: self.chain,
        }
    }
}

/// A list with the items of `v`.
pub fn copy_ids(v: &Vec<NodeId>) -> (r: Vec<NodeId>)
    ensures
        r@ == v@,
{
    let mut r: Vec<NodeId> = Vec::new();
    let mut i: usize = 0;
    while i < v.len()
        invariant
            i <= v@.len(),
            r@ == v@.take(i as int),
        decreases v@.len() - i,
    {
        r.push(v[i]);
        proof {
            assert(v@.take(i + 1) =~= v@.take(i as int).push(v@[i as int]));
        }
        i += 1;
    }
    proof {
        assert(v@.take(v@.len() as int) =~= v@);
    }
    r
}

impl Node {
    /// The nodes that this node refers to as its operands, in order.
    pub open spec fn operands(self) -> Seq<NodeId> {
        match self {
            Node::IR(n) => n.args@,
            Node::MI(n) => n.args@,
            Node::Operand(OperandNode::Mem(MemKind::BaseFi(base, slot))) => seq![base, slot],
            _ => Seq::empty(),
        }
    }

    /// The node that follows this one in its block, if it names one.
    pub open spec fn successor(self) -> Option<NodeId> {
        match self {
            Node::IR(n) => n.next,
            Node::MI(n) => n.next,
            _ => None,
        }
    }

    /// `new` is `self` with the operands `args` and the successor `next`:
    /// the same kind of node, and every other field as it was.
    pub open spec fn rewired(self, new: Node, args: Seq<NodeId>, next: Option<NodeId>) -> bool {
        match self {
            Node::IR(a) => new matches Node::IR(b) && b.opcode == a.opcode && b.ty == a.ty
                && b.mvty == a.mvty && b.chain == a.chain && b.args@ == args && b.next == next,
            Node::MI(a) => new matches Node::MI(b) && b.opcode == a.opcode && b.reg_class
                == a.reg_class && b.chain == a.chain && b.args@ == args && b.next == next,
            Node::Operand(OperandNode::Mem(MemKind::BaseFi(_, _))) => args.len() == 2 && new
                == Node::Operand(OperandNode::Mem(MemKind::BaseFi(args[0], args[1]))),
            Node::Operand(a) => new == Node::Operand(a),
            Node::Empty => new == Node::Empty,
        }
    }

    /// The operands of this node, in order.
    pub fn args(&self) -> (r: Vec<NodeId>)
        ensures
            r@ == self.operands(),
    {
        match self {
            Node::IR(n) => copy_ids(&n.args),
            Node::MI(n) => copy_ids(&n.args),
            Node::Operand(OperandNode::Mem(MemKind::BaseFi(base, slot))) => {
                let mut r: Vec<NodeId> = Vec::new();
                r.push(*base);
                r.push(*slot);
                proof {
                    assert(r@ =~= seq![*base, *slot]);
                }
                r
            },
            _ => Vec::new(),
        }
    }

    /// The node that follows this one in its block.
    pub fn next(&self) -> (r: Option<NodeId>)
        ensures
            r == self.successor(),
    {
        match self {
            Node::IR(n) => n.next,
            Node::MI(n) => n.next,
            _ => None,
        }
    }

    /// This node with other operands and another successor; a node that
    /// has no successor field keeps none.
    pub fn rewire(&self, args: Vec<NodeId>, next: Option<NodeId>) -> (r: Node)
        requires
            args@.len() == self.operands().len(),
        ensures
            self.rewired(r, args@, if self is IR || self is MI { next } else { None }),
            r.operands() == args@,
    {
        match self {
            Node::IR(n) => Node::IR(
                IRNode {
                    opcode: n.opcode,
                    args,
                    ty: n.ty,
                    mvty: n.mvty,
                    next,
                    chain: n.chain,
                },
            ),
            Node::MI(n) => Node::MI(
                MINode { opcode: n.opcode, args, reg_class: n.reg_class, next, chain: n.chain },
            ),
            Node::Operand(OperandNode::Mem(MemKind::BaseFi(_, _))) => {
                let r = Node::Operand(OperandNode::Mem(MemKind::BaseFi(args[0], args[1])));
                proof {
                    assert(r.operands() =~= args@);
                }
                r
            },
            Node::Operand(op) => {
                proof {
                    assert(args@ =~= Seq::<NodeId>::empty());
                }
                Node::Operand(*op)
            },
            Node::Empty => {
                proof {
                    assert(args@ =~= Seq::<NodeId>::empty());
                }
                Node::Empty
            },
        }
    }

    /// The value of a 32-bit immediate.
    pub fn as_i32(&self) -> (r: i32)
        requires
            self matches Node::Operand(OperandNode::Imm(ImmediateKind::Int32(_))),
        ensures
            *self == Node::Operand(OperandNode::Imm(ImmediateKind::Int32(r))),
    {
        match self {
            Node::Operand(OperandNode::Imm(ImmediateKind::Int32(x))) => *x,
            _ => 0,
        }
    }
}

/// The pool of nodes of one function.
pub struct NodePool {
    arena: Arena<Node>,
}

impl NodePool {
    /// The nodes of the pool, by index.
    pub closed spec fn view(&self) -> Seq<Node> {
        arena_nodes(self.arena)
    }

    /// Every operand of every node is a node of the pool.
    pub open spec fn wf(&self) -> bool {
        nodes_closed(self@)
    }

    pub fn new() -> (r: Self)
        ensures
            r@.len() == 0,
            r.wf(),
    {
        NodePool { arena: arena_new() }
    }

    pub fn len(&self) -> (n: usize)
        ensures
            n == self@.len(),
    {
        arena_len(&self.arena)
    }

    /// Stores `node` and returns its index, which stays valid as long as the
    /// pool lives. No other node moves or changes.
    pub fn allocate(&mut self, node: Node) -> (id: NodeId)
        ensures
            id == old(self)@.len(),
            final(self)@ == old(self)@.push(node),
    {
        arena_alloc(&mut self.arena, node)
    }

    /// The node at `id`, if there is one.
    pub fn get(&self, id: NodeId) -> (r: Option<&Node>)
        ensures
            r == (if id < self@.len() {
                Some(&self@[id as int])
            } else {
                None
            }),
    {
        arena_get(&self.arena, id)
    }

    /// The node at `id`.
    pub fn node(&self, id: NodeId) -> (r: &Node)
        requires
            id < self@.len(),
        ensures
            *r == self@[id as int],
    {
        arena_get(&self.arena, id).unwrap()
    }

    /// Puts `node` at `id`, in place of the node that was there.
    pub fn set(&mut self, id: NodeId, node: Node)
        requires
            id < old(self)@.len(),
        ensures
            final(self)@ == old(self)@.update(id as int, node),
    {
        arena_set(&mut self.arena, id, node)
    }
}

/// Every operand of every node of `nodes` is an index into `nodes`.
pub open spec fn nodes_closed(nodes: Seq<Node>) -> bool {
    forall|i: int, k: int|
        0 <= i < nodes.len() && 0 <= k < nodes[i].operands().len() ==> (
        #[trigger] nodes[i].operands()[k]) < nodes.len()
}

} // verus!
