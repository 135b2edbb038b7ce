//! Builders for patterns: the plain patterns of each kind, the setters that
//! name a pattern or give it a type or a rewrite, alternatives, and the
//! order of a pattern set by depth.

use crate::node::IROpcode;
use crate::pat_match::{
    Block, CompoundPat, Condition, Immediate, IRPat, MIPat, OperandKind, OperandPat, Pat, Register,
    Slot,
};
use crate::register::RegisterClassKind;
use crate::types::{MVType, Type};
use vstd::prelude::*;

verus! {

/// `p` is the plain operand pattern of the kind `kind`: no name, not
/// negated, no rewrite.
pub open spec fn plain_operand<G>(p: OperandPat<G>, kind: OperandKind) -> bool {
    p.name@.len() == 0 && p.kind == kind && !p.not && p.generate is None
}

/// `p` is the plain pattern of the operation `opcode` with the operand
/// patterns `operands`: no name, no type, no rewrite.
pub open spec fn plain_ir<G>(p: IRPat<G>, opcode: Option<IROpcode>, operands: Seq<Pat<G>>) -> bool {
    p.name@.len() == 0 && p.opcode == opcode && p.operands@ == operands && p.ty is None
        && p.generate is None
}

/// The plain operand pattern of the kind `kind`.
fn operand<G>(kind: OperandKind) -> (r: OperandPat<G>)
    ensures
        plain_operand(r, kind),
{
    proof {
        reveal_strlit("");
    }
    OperandPat { name: "", kind, not: false, generate: None }
}

/// A pattern for any operation, to be given an opcode.
pub fn ir_node<G>() -> (r: IRPat<G>)
    ensures
        plain_ir(r, None, Seq::empty()),
{
    proof {
        reveal_strlit("");
    }
    IRPat { name: "", opcode: None, operands: Vec::new(), ty: None, generate: None }
}

pub fn ir<G>(opcode: IROpcode) -> (r: IRPat<G>)
    ensures
        plain_ir(r, Some(opcode), Seq::empty()),
{
    proof {
        reveal_strlit("");
    }
    IRPat { name: "", opcode: Some(opcode), operands: Vec::new(), ty: None, generate: None }
}

pub fn mi_node() -> MIPat {
    MIPat {  }
}

impl<G> Pat<G> {
    /// Asks for the type `ty`; only an operation pattern can.
    pub fn ty(self, ty: Type) -> (r: Self)
        requires
            self is IR,
        ensures
            r matches Pat::IR(p) && p.ty == Some(ty) && p.name == self->IR_0.name && p.opcode
                == self->IR_0.opcode && p.operands == self->IR_0.operands && p.generate
                == self->IR_0.generate,
    {
        match self {
            Pat::IR(p) => Pat::IR(p.ty(ty)),
            other => other,
        }
    }

    /// Names the pattern; a reserved or invalid pattern cannot be named.
    pub fn named(self, name: &'static str) -> (r: Self)
        requires
            self is IR || self is Operand || self is Compound,
        ensures
            match self {
                Pat::IR(a) => r matches Pat::IR(b) && b.name == name && b.opcode == a.opcode
                    && b.operands == a.operands && b.ty == a.ty && b.generate == a.generate,
                Pat::Operand(a) => r matches Pat::Operand(b) && b.name == name && b.kind == a.kind
                    && b.not == a.not && b.generate == a.generate,
                Pat::Compound(a) => r matches Pat::Compound(b) && b.name == name && b.pats == a.pats
                    && b.generate == a.generate,
                _ => true,
            },
    {
        match self {
            Pat::IR(p) => Pat::IR(p.named(name)),
            Pat::Operand(p) => Pat::Operand(p.named(name)),
            Pat::Compound(p) => Pat::Compound(p.named(name)),
            other => other,
        }
    }

    /// Gives the pattern the rewrite `f`.
    pub fn generate(self, f: G) -> (r: Self)
        requires
            self is IR || self is Operand || self is Compound,
        ensures
            match self {
                Pat::IR(a) => r matches Pat::IR(b) && b.generate == Some(f) && b.name == a.name
                    && b.opcode == a.opcode && b.operands == a.operands && b.ty == a.ty,
                Pat::Operand(a) => r matches Pat::Operand(b) && b.generate == Some(f) && b.name
                    == a.name && b.kind == a.kind && b.not == a.not,
                Pat::Compound(a) => r matches Pat::Compound(b) && b.generate == Some(f) && b.name
                    == a.name && b.pats == a.pats,
                _ => true,
            },
    {
        match self {
            Pat::IR(p) => Pat::IR(p.generate(f)),
            Pat::Operand(p) => Pat::Operand(p.generate(f)),
            Pat::Compound(p) => Pat::Compound(p.generate(f)),
            other => other,
        }
    }
}

impl<G> IRPat<G> {
    pub fn named(self, name: &'static str) -> (r: Self)
        ensures
            r.name == name,
            r.opcode == self.opcode,
            r.operands == self.operands,
            r.ty == self.ty,
            r.generate == self.generate,
    {
        IRPat {
            name,
            opcode: self.opcode,
            operands: self.operands,
            ty: self.ty,
            generate: self.generate,
        }
    }

    pub fn ty(self, ty: Type) -> (r: Self)
        ensures
            r.ty == Some(ty),
            r.name == self.name,
            r.opcode == self.opcode,
            r.operands == self.operands,
            r.generate == self.generate,
    {
        IRPat {
            name: self.name,
            opcode: self.opcode,
            operands: self.operands,
            ty: Some(ty),
            generate: self.generate,
        }
    }

    pub fn opcode(self, opcode: IROpcode) -> (r: Self)
        ensures
            r.opcode == Some(opcode),
            r.name == self.name,
            r.operands == self.operands,
            r.ty == self.ty,
            r.generate == self.generate,
    {
        IRPat {
            name: self.name,
            opcode: Some(opcode),
            operands: self.operands,
            ty: self.ty,
            generate: self.generate,
        }
    }

    pub fn args(self, operands: Vec<Pat<G>>) -> (r: Self)
        ensures
            r.operands == operands,
            r.name == self.name,
            r.opcode == self.opcode,
            r.ty == self.ty,
            r.generate == self.generate,
    {
        IRPat {
            name: self.name,
            opcode: self.opcode,
            operands,
            ty: self.ty,
            generate: self.generate,
        }
    }

    pub fn generate(self, f: G) -> (r: Self)
        ensures
            r.generate == Some(f),
            r.name == self.name,
            r.opcode == self.opcode,
            r.operands == self.operands,
            r.ty == self.ty,
    {
        IRPat {
            name: self.name,
            opcode: self.opcode,
            operands: self.operands,
            ty: self.ty,
            generate: Some(f),
        }
    }

    /// This pattern as a pattern of any kind.
    pub fn pat(self) -> (r: Pat<G>)
        ensures
            r == Pat::IR(self),
    {
        Pat::IR(self)
    }

    /// This pattern as the only alternative of a compound pattern.
    pub fn alone(self) -> (r: CompoundPat<G>)
        ensures
            r.name@.len() == 0,
            r.pats@ == seq![Pat::IR(self)],
            r.generate is None,
    {
        compound_of(Pat::IR(self))
    }

    /// This pattern or `rhs`, in this order.
    pub fn or(self, rhs: Self) -> (r: CompoundPat<G>)
        ensures
            r.name@.len() == 0,
            r.pats@ == seq![Pat::IR(self), Pat::IR(rhs)],
            r.generate is None,
    {
        compound_of_two(Pat::IR(self), Pat::IR(rhs))
    }
}

impl<G> OperandPat<G> {
    pub fn named(self, name: &'static str) -> (r: Self)
        ensures
            r.name == name,
            r.kind == self.kind,
            r.not == self.not,
            r.generate == self.generate,
    {
        OperandPat { name, kind: self.kind, not: self.not, generate: self.generate }
    }

    pub fn any_imm(self) -> (r: Self)
        ensures
            r.kind == OperandKind::Imm(Immediate::Any),
            r.name == self.name,
            r.not == self.not,
            r.generate == self.generate,
    {
        OperandPat {
            name: self.name,
            kind: OperandKind::Imm(Immediate::Any),
            not: self.not,
            generate: self.generate,
        }
    }

    pub fn any_i32_imm(self) -> (r: Self)
        ensures
            r.kind == OperandKind::Imm(Immediate::AnyInt32),
            r.name == self.name,
            r.not == self.not,
            r.generate == self.generate,
    {
        OperandPat {
            name: self.name,
            kind: OperandKind::Imm(Immediate::AnyInt32),
            not: self.not,
            generate: self.generate,
        }
    }

    pub fn generate(self, f: G) -> (r: Self)
        ensures
            r.generate == Some(f),
            r.name == self.name,
            r.kind == self.kind,
            r.not == self.not,
    {
        OperandPat { name: self.name, kind: self.kind, not: self.not, generate: Some(f) }
    }

    /// This pattern as a pattern of any kind.
    pub fn pat(self) -> (r: Pat<G>)
        ensures
            r == Pat::Operand(self),
    {
        Pat::Operand(self)
    }

    /// This pattern as the only alternative of a compound pattern.
    pub fn alone(self) -> (r: CompoundPat<G>)
        ensures
            r.name@.len() == 0,
            r.pats@ == seq![Pat::Operand(self)],
            r.generate is None,
    {
        compound_of(Pat::Operand(self))
    }

    /// This pattern or `rhs`, in this order.
    pub fn or(self, rhs: Self) -> (r: CompoundPat<G>)
        ensures
            r.name@.len() == 0,
            r.pats@ == seq![Pat::Operand(self), Pat::Operand(rhs)],
            r.generate is None,
    {
        compound_of_two(Pat::Operand(self), Pat::Operand(rhs))
    }
}

impl<G> CompoundPat<G> {
    pub fn named(self, name: &'static str) -> (r: Self)
        ensures
            r.name == name,
            r.pats == self.pats,
            r.generate == self.generate,
    {
        CompoundPat { name, pats: self.pats, generate: self.generate }
    }

    pub fn generate(self, f: G) -> (r: Self)
        ensures
            r.generate == Some(f),
            r.name == self.name,
            r.pats == self.pats,
    {
        CompoundPat { name: self.name, pats: self.pats, generate: Some(f) }
    }

    /// This pattern as a pattern of any kind.
    pub fn pat(self) -> (r: Pat<G>)
        ensures
            r == Pat::Compound(self),
    {
        Pat::Compound(self)
    }

    /// The alternatives of this pattern, then those of `rhs`.
    pub fn or(self, rhs: Self) -> (r: CompoundPat<G>)
        ensures
            r.name@.len() == 0,
            r.pats@ == self.pats@ + rhs.pats@,
            r.generate is None,
    {
        let mut pats = self.pats;
        let mut more = rhs.pats;
        pats.append(&mut more);
        proof {
            reveal_strlit("");
        }
        CompoundPat { name: "", pats, generate: None }
    }
}

/// The compound pattern with the one alternative `p`.
fn compound_of<G>(p: Pat<G>) -> (r: CompoundPat<G>)
    ensures
        r.name@.len() == 0,
        r.pats@ == seq![p],
        r.generate is None,
{
    let mut pats: Vec<Pat<G>> = Vec::new();
    pats.push(p);
    proof {
        reveal_strlit("");
        assert(pats@ =~= seq![p]);
    }
    CompoundPat { name: "", pats, generate: None }
}

/// The compound pattern with the alternatives `p` and `q`.
fn compound_of_two<G>(p: Pat<G>, q: Pat<G>) -> (r: CompoundPat<G>)
    ensures
        r.name@.len() == 0,
        r.pats@ == seq![p, q],
        r.generate is None,
{
    let mut pats: Vec<Pat<G>> = Vec::new();
    pats.push(p);
    pats.push(q);
    proof {
        reveal_strlit("");
        assert(pats@ =~= seq![p, q]);
    }
    CompoundPat { name: "", pats, generate: None }
}

impl<G> Pat<G> {
    /// This pattern or `rhs`: a compound pattern gets `rhs` as its last
    /// alternative, any other pattern becomes the first of two.
    pub fn or(self, rhs: Self) -> (r: Self)
        requires
            self is IR || self is Operand || self is Compound,
        ensures
            match self {
                Pat::Compound(c) => r matches Pat::Compound(d) && d.pats@ == c.pats@.push(rhs)
                    && d.name == c.name && d.generate == c.generate,
                _ => r matches Pat::Compound(d) && d.pats@ == seq![self, rhs] && d.name@.len() == 0
                    && d.generate is None,
            },
    {
        match self {
            Pat::Compound(c) => {
                let mut pats = c.pats;
                pats.push(rhs);
                Pat::Compound(CompoundPat { name: c.name, pats, generate: c.generate })
            },
            other => Pat::Compound(compound_of_two(other, rhs)),
        }
    }
}

/// An operand pattern that is negated, to be given a kind.
pub fn not<G>() -> (r: OperandPat<G>)
    ensures
        r.name@.len() == 0,
        r.kind is Invalid,
        r.not,
        r.generate is None,
{
    proof {
        reveal_strlit("");
    }
    OperandPat { name: "", kind: OperandKind::Invalid, not: true, generate: None }
}

pub fn any<G>() -> (r: Pat<G>)
    ensures
        r matches Pat::Operand(p) && plain_operand(p, OperandKind::Any),
{
    Pat::Operand(operand(OperandKind::Any))
}

pub fn any_cc<G>() -> (r: OperandPat<G>)
    ensures
        plain_operand(r, OperandKind::CC(Condition::Any)),
{
    operand(OperandKind::CC(Condition::Any))
}

pub fn null_imm<G>() -> (r: OperandPat<G>)
    ensures
        plain_operand(r, OperandKind::Imm(Immediate::Null)),
{
    operand(OperandKind::Imm(Immediate::Null))
}

pub fn any_imm<G>() -> (r: OperandPat<G>)
    ensures
        plain_operand(r, OperandKind::Imm(Immediate::Any)),
{
    operand(OperandKind::Imm(Immediate::Any))
}

pub fn i32_imm<G>(i: i32) -> (r: OperandPat<G>)
    ensures
        plain_operand(r, OperandKind::Imm(Immediate::Int32(i))),
{
    operand(OperandKind::Imm(Immediate::Int32(i)))
}

pub fn any_i8_imm<G>() -> (r: OperandPat<G>)
    ensures
        plain_operand(r, OperandKind::Imm(Immediate::AnyInt8)),
{
    operand(OperandKind::Imm(Immediate::AnyInt8))
}

pub fn any_imm8<G>() -> (r: Pat<G>)
    ensures
        r matches Pat::Operand(p) && plain_operand(p, OperandKind::Imm(Immediate::AnyInt8)),
{
    Pat::Operand(operand(OperandKind::Imm(Immediate::AnyInt8)))
}

pub fn any_i32_imm<G>() -> (r: OperandPat<G>)
    ensures
        plain_operand(r, OperandKind::Imm(Immediate::AnyInt32)),
{
    operand(OperandKind::Imm(Immediate::AnyInt32))
}

pub fn any_imm32<G>() -> (r: Pat<G>)
    ensures
        r matches Pat::Operand(p) && plain_operand(p, OperandKind::Imm(Immediate::AnyInt32)),
{
    Pat::Operand(operand(OperandKind::Imm(Immediate::AnyInt32)))
}

pub fn any_imm32_power_of_2<G>() -> (r: Pat<G>)
    ensures
        r matches Pat::Operand(p) && plain_operand(
            p,
            OperandKind::Imm(Immediate::AnyInt32PowerOf2),
        ),
{
    Pat::Operand(operand(OperandKind::Imm(Immediate::AnyInt32PowerOf2)))
}

pub fn any_i32_imm_power_of_2<G>() -> (r: Pat<G>)
    ensures
        r matches Pat::Operand(p) && plain_operand(
            p,
            OperandKind::Imm(Immediate::AnyInt32PowerOf2),
        ),
{
    Pat::Operand(operand(OperandKind::Imm(Immediate::AnyInt32PowerOf2)))
}

pub fn any_i64_imm<G>() -> (r: OperandPat<G>)
    ensures
        plain_operand(r, OperandKind::Imm(Immediate::AnyInt64)),
{
    operand(OperandKind::Imm(Immediate::AnyInt64))
}

pub fn any_imm_f64<G>() -> (r: Pat<G>)
    ensures
        r matches Pat::Operand(p) && plain_operand(p, OperandKind::Imm(Immediate::AnyF64)),
{
    Pat::Operand(operand(OperandKind::Imm(Immediate::AnyF64)))
}

pub fn any_f64_imm<G>() -> (r: OperandPat<G>)
    ensures
        plain_operand(r, OperandKind::Imm(Immediate::AnyF64)),
{
    operand(OperandKind::Imm(Immediate::AnyF64))
}

pub fn any_slot<G>() -> (r: Pat<G>)
    ensures
        r matches Pat::Operand(p) && plain_operand(p, OperandKind::Slot(Slot::Any)),
{
    Pat::Operand(operand(OperandKind::Slot(Slot::Any)))
}

pub fn slot<G>(ty: MVType) -> (r: OperandPat<G>)
    ensures
        plain_operand(r, OperandKind::Slot(Slot::Type(ty))),
{
    operand(OperandKind::Slot(Slot::Type(ty)))
}

pub fn reg_class<G>(rc: RegisterClassKind) -> (r: OperandPat<G>)
    ensures
        plain_operand(r, OperandKind::Reg(Register::Class(rc))),
{
    operand(OperandKind::Reg(Register::Class(rc)))
}

pub fn reg_<G>(rc: RegisterClassKind) -> (r: Pat<G>)
    ensures
        r matches Pat::Operand(p) && plain_operand(p, OperandKind::Reg(Register::Class(rc))),
{
    Pat::Operand(operand(OperandKind::Reg(Register::Class(rc))))
}

pub fn any_reg<G>() -> (r: OperandPat<G>)
    ensures
        plain_operand(r, OperandKind::Reg(Register::Any)),
{
    operand(OperandKind::Reg(Register::Any))
}

pub fn any_block<G>() -> (r: OperandPat<G>)
    ensures
        plain_operand(r, OperandKind::Block(Block::Any)),
{
    operand(OperandKind::Block(Block::Any))
}

/// The pattern of the operation `opcode` with one operand.
fn unary<G>(opcode: IROpcode, arg: Pat<G>) -> (r: Pat<G>)
    ensures
        r matches Pat::IR(p) && plain_ir(p, Some(opcode), seq![arg]),
{
    let mut operands: Vec<Pat<G>> = Vec::new();
    operands.push(arg);
    proof {
        assert(operands@ =~= seq![arg]);
    }
    Pat::IR(ir(opcode).args(operands))
}

/// The pattern of the operation `opcode` with two operands.
fn binary<G>(opcode: IROpcode, lhs: Pat<G>, rhs: Pat<G>) -> (r: Pat<G>)
    ensures
        r matches Pat::IR(p) && plain_ir(p, Some(opcode), seq![lhs, rhs]),
{
    let mut operands: Vec<Pat<G>> = Vec::new();
    operands.push(lhs);
    operands.push(rhs);
    proof {
        assert(operands@ =~= seq![lhs, rhs]);
    }
    Pat::IR(ir(opcode).args(operands))
}

pub fn load<G>(arg: Pat<G>) -> (r: Pat<G>)
    ensures
        r matches Pat::IR(p) && plain_ir(p, Some(IROpcode::Load), seq![arg]),
{
    unary(IROpcode::Load, arg)
}

pub fn store<G>(src: Pat<G>, dst: Pat<G>) -> (r: Pat<G>)
    ensures
        r matches Pat::IR(p) && plain_ir(p, Some(IROpcode::Store), seq![src, dst]),
{
    binary(IROpcode::Store, src, dst)
}

pub fn sext<G>(arg: Pat<G>) -> (r: Pat<G>)
    ensures
        r matches Pat::IR(p) && plain_ir(p, Some(IROpcode::Sext), seq![arg]),
{
    unary(IROpcode::Sext, arg)
}

pub fn add<G>(lhs: Pat<G>, rhs: Pat<G>) -> (r: Pat<G>)
    ensures
        r matches Pat::IR(p) && plain_ir(p, Some(IROpcode::Add), seq![lhs, rhs]),
{
    binary(IROpcode::Add, lhs, rhs)
}

pub fn mul<G>(lhs: Pat<G>, rhs: Pat<G>) -> (r: Pat<G>)
    ensures
        r matches Pat::IR(p) && plain_ir(p, Some(IROpcode::Mul), seq![lhs, rhs]),
{
    binary(IROpcode::Mul, lhs, rhs)
}

pub fn fiaddr<G>(slot: Pat<G>) -> (r: Pat<G>)
    ensures
        r matches Pat::IR(p) && plain_ir(p, Some(IROpcode::FIAddr), seq![slot]),
{
    unary(IROpcode::FIAddr, slot)
}

pub fn gbladdr<G>(g: Pat<G>) -> (r: Pat<G>)
    ensures
        r matches Pat::IR(p) && plain_ir(p, Some(IROpcode::GlobalAddr), seq![g]),
{
    unary(IROpcode::GlobalAddr, g)
}

pub fn bitcast<G>(arg: Pat<G>) -> (r: Pat<G>)
    ensures
        r matches Pat::IR(p) && plain_ir(p, Some(IROpcode::Bitcast), seq![arg]),
{
    unary(IROpcode::Bitcast, arg)
}

impl<G> From<IRPat<G>> for Pat<G> {
    fn from(p: IRPat<G>) -> (r: Pat<G>) {
        Pat::IR(p)
    }
}

impl<G> vstd::std_specs::convert::FromSpecImpl<IRPat<G>> for Pat<G> {
    open spec fn obeys_from_spec() -> bool {
        true
    }

    open spec fn from_spec(v: IRPat<G>) -> Pat<G> {
        Pat::IR(v)
    }
}

impl<G> From<OperandPat<G>> for Pat<G> {
    fn from(p: OperandPat<G>) -> (r: Pat<G>) {
        Pat::Operand(p)
    }
}

impl<G> vstd::std_specs::convert::FromSpecImpl<OperandPat<G>> for Pat<G> {
    open spec fn obeys_from_spec() -> bool {
        true
    }

    open spec fn from_spec(v: OperandPat<G>) -> Pat<G> {
        Pat::Operand(v)
    }
}

impl<G> From<CompoundPat<G>> for Pat<G> {
    fn from(p: CompoundPat<G>) -> (r: Pat<G>) {
        Pat::Compound(p)
    }
}

impl<G> vstd::std_specs::convert::FromSpecImpl<CompoundPat<G>> for Pat<G> {
    open spec fn obeys_from_spec() -> bool {
        true
    }

    open spec fn from_spec(v: CompoundPat<G>) -> Pat<G> {
        Pat::Compound(v)
    }
}

impl<G> From<RegisterClassKind> for Pat<G> {
    fn from(rc: RegisterClassKind) -> (r: Pat<G>) {
        Pat::Operand(
            OperandPat {
                name: "",
                kind: OperandKind::Reg(Register::Class(rc)),
                not: false,
                generate: None,
            },
        )
    }
}

impl<G> vstd::std_specs::convert::FromSpecImpl<RegisterClassKind> for Pat<G> {
    open spec fn obeys_from_spec() -> bool {
        true
    }

    open spec fn from_spec(v: RegisterClassKind) -> Pat<G> {
        Pat::Operand(
            OperandPat {
                name: "",
                kind: OperandKind::Reg(Register::Class(v)),
                not: false,
                generate: None,
            },
        )
    }
}

impl<G> core::ops::BitOr for IRPat<G> {
    type Output = CompoundPat<G>;

    /// This pattern or `rhs`, in this order.
    fn bitor(self, rhs: Self) -> (r: CompoundPat<G>)
        ensures
            r.name@.len() == 0,
            r.pats@ == seq![Pat::IR(self), Pat::IR(rhs)],
            r.generate is None,
    {
        self.or(rhs)
    }
}

impl<G> vstd::std_specs::ops::BitOrSpecImpl for IRPat<G> {
    open spec fn obeys_bitor_spec() -> bool {
        false
    }

    open spec fn bitor_req(self, rhs: Self) -> bool {
        true
    }

    open spec fn bitor_spec(self, rhs: Self) -> CompoundPat<G> {
        arbitrary()
    }
}

impl<G> core::ops::BitOr for OperandPat<G> {
    type Output = CompoundPat<G>;

    /// This pattern or `rhs`, in this order.
    fn bitor(self, rhs: Self) -> (r: CompoundPat<G>)
        ensures
            r.name@.len() == 0,
            r.pats@ == seq![Pat::Operand(self), Pat::Operand(rhs)],
            r.generate is None,
    {
        self.or(rhs)
    }
}

impl<G> vstd::std_specs::ops::BitOrSpecImpl for OperandPat<G> {
    open spec fn obeys_bitor_spec() -> bool {
        false
    }

    open spec fn bitor_req(self, rhs: Self) -> bool {
        true
    }

    open spec fn bitor_spec(self, rhs: Self) -> CompoundPat<G> {
        arbitrary()
    }
}

impl<G> core::ops::BitOr for CompoundPat<G> {
    type Output = CompoundPat<G>;

    /// The alternatives of this pattern, then those of `rhs`.
    fn bitor(self, rhs: Self) -> (r: CompoundPat<G>)
        ensures
            r.name@.len() == 0,
            r.pats@ == self.pats@ + rhs.pats@,
            r.generate is None,
    {
        self.or(rhs)
    }
}

impl<G> vstd::std_specs::ops::BitOrSpecImpl for CompoundPat<G> {
    open spec fn obeys_bitor_spec() -> bool {
        false
    }

    open spec fn bitor_req(self, rhs: Self) -> bool {
        true
    }

    open spec fn bitor_spec(self, rhs: Self) -> CompoundPat<G> {
        arbitrary()
    }
}

impl<G> core::ops::BitOr for Pat<G> {
    type Output = Pat<G>;

    /// This pattern or `rhs`: a compound pattern gets `rhs` as its last
    /// alternative, any other pattern becomes the first of two.
    fn bitor(self, rhs: Self) -> (r: Pat<G>)
        ensures
            match self {
                Pat::Compound(c) => r matches Pat::Compound(d) && d.pats@ == c.pats@.push(rhs)
                    && d.name == c.name && d.generate == c.generate,
                _ => r matches Pat::Compound(d) && d.pats@ == seq![self, rhs] && d.name@.len() == 0
                    && d.generate is None,
            },
    {
        self.or(rhs)
    }
}

impl<G> vstd::std_specs::ops::BitOrSpecImpl for Pat<G> {
    open spec fn obeys_bitor_spec() -> bool {
        false
    }

    open spec fn bitor_req(self, rhs: Self) -> bool {
        self is IR || self is Operand || self is Compound
    }

    open spec fn bitor_spec(self, rhs: Self) -> Pat<G> {
        arbitrary()
    }
}

/// The depth of a pattern: the greatest number of patterns on a way from
/// the pattern down to an operand pattern. The reserved pattern has none.
pub open spec fn depth_of<G>(pat: Pat<G>) -> nat
    decreases pat, 0int,
{
    match pat {
        Pat::IR(p) => deepest(p.operands@, p.operands@.len() as int) + 1,
        Pat::MI => 0,
        Pat::Operand(_) => 1,
        Pat::Compound(c) => deepest(c.pats@, c.pats@.len() as int) + 1,
        Pat::Invalid => 0,
    }
}

/// The greatest depth among the first `n` patterns of `pats`.
pub open spec fn deepest<G>(pats: Seq<Pat<G>>, n: int) -> nat
    decreases pats, n + 1,
{
    if n <= 0 || n > pats.len() {
        0
    } else {
        let rest = deepest(pats, n - 1);
        let last = depth_of(pats[n - 1]);
        if rest < last {
            last
        } else {
            rest
        }
    }
}

/// No pattern of `pat` is the invalid one, and the machine can count its
/// depth.
pub open spec fn measurable<G>(pat: Pat<G>) -> bool
    decreases pat,
{
    &&& depth_of(pat) <= usize::MAX
    &&& match pat {
        Pat::IR(p) => forall|i: int|
            0 <= i < p.operands@.len() ==> measurable(#[trigger] p.operands@[i]),
        Pat::Compound(c) => forall|i: int| 0 <= i < c.pats@.len() ==> measurable(#[trigger] c.pats@[i]),
        Pat::Invalid => false,
        _ => true,
    }
}

/// The greatest depth among `pats`.
fn max_depth<G>(pats: &Vec<Pat<G>>, Ghost(parent): Ghost<Pat<G>>) -> (r: usize)
    requires
        forall|i: int| 0 <= i < pats@.len() ==> measurable(#[trigger] pats@[i]),
        forall|i: int| 0 <= i < pats@.len() ==> decreases_to!(parent => pats@[i]),
    ensures
        r == deepest(pats@, pats@.len() as int),
    decreases parent, 0int,
{
    let mut max: usize = 0;
    let mut i: usize = 0;
    while i < pats.len()
        invariant
            forall|i: int| 0 <= i < pats@.len() ==> measurable(#[trigger] pats@[i]),
            forall|i: int| 0 <= i < pats@.len() ==> decreases_to!(parent => pats@[i]),
            i <= pats@.len(),
            max == deepest(pats@, i as int),
        decreases pats@.len() - i,
    {
        let depth = pats[i].depth();
        if max < depth {
            max = depth;
        }
        i += 1;
    }
    max
}

impl<G> Pat<G> {
    pub fn depth(&self) -> (r: usize)
        requires
            measurable(*self),
        ensures
            r == depth_of(*self),
        decreases *self, 1int,
    {
        match self {
            Pat::IR(ir) => max_depth(&ir.operands, Ghost(*self)) + 1,
            Pat::MI => 0,
            Pat::Operand(_) => 1,
            Pat::Compound(c) => max_depth(&c.pats, Ghost(*self)) + 1,
            Pat::Invalid => 0,
        }
    }
}

impl<G> IRPat<G> {
    pub fn depth(&self) -> (r: usize)
        requires
            measurable(Pat::IR(*self)),
        ensures
            r == depth_of(Pat::IR(*self)),
    {
        max_depth(&self.operands, Ghost(Pat::IR(*self))) + 1
    }
}

impl<G> OperandPat<G> {
    pub fn depth(&self) -> (r: usize)
        ensures
            r == 1,
    {
        1
    }
}

impl<G> CompoundPat<G> {
    pub fn depth(&self) -> (r: usize)
        requires
            measurable(Pat::Compound(*self)),
        ensures
            r == depth_of(Pat::Compound(*self)),
    {
        max_depth(&self.pats, Ghost(Pat::Compound(*self))) + 1
    }
}

/// The place of the first pattern of the greatest depth among the first
/// `n` patterns of `pats`.
pub open spec fn first_deepest<G>(pats: Seq<Pat<G>>, n: int) -> int
    decreases n,
{
    if n <= 1 {
        0
    } else {
        let k = first_deepest(pats, n - 1);
        if depth_of(pats[k]) < depth_of(pats[n - 1]) {
            n - 1
        } else {
            k
        }
    }
}

/// The patterns `pats` in descending depth; patterns of one depth keep
/// their order. The first pattern of the greatest depth comes first, and the
/// others follow in the same manner.
pub open spec fn by_depth<G>(pats: Seq<Pat<G>>) -> Seq<Pat<G>>
    decreases pats.len(),
{
    if pats.len() == 0 {
        Seq::empty()
    } else {
        let k = first_deepest(pats, pats.len() as int);
        if 0 <= k < pats.len() {
            seq![pats[k]] + by_depth(pats.remove(k))
        } else {
            Seq::empty()
        }
    }
}

proof fn lemma_first_deepest<G>(pats: Seq<Pat<G>>, n: int)
    requires
        1 <= n <= pats.len(),
    ensures
        0 <= first_deepest(pats, n) < n,
        forall|j: int| 0 <= j < n ==> depth_of(#[trigger] pats[j]) <= depth_of(
            pats[first_deepest(pats, n)],
        ),
        forall|j: int|
            0 <= j < first_deepest(pats, n) ==> depth_of(#[trigger] pats[j]) < depth_of(
                pats[first_deepest(pats, n)],
            ),
    decreases n,
{
    if n > 1 {
        lemma_first_deepest(pats, n - 1);
    }
}

/// Puts the patterns in descending depth, so that the deeper, more
/// specific ones are tried first; patterns of one depth keep their order.
pub fn reorder_patterns<G>(pats: Vec<Pat<G>>) -> (r: Vec<Pat<G>>)
    requires
        forall|i: int| 0 <= i < pats@.len() ==> measurable(#[trigger] pats@[i]),
    ensures
        r@ == by_depth(pats@),
{
    let mut pats = pats;
    let mut depths: Vec<usize> = Vec::new();
    let mut i: usize = 0;
    while i < pats.len()
        invariant
            forall|i: int| 0 <= i < pats@.len() ==> measurable(#[trigger] pats@[i]),
            i <= pats@.len(),
            depths@.len() == i,
            forall|j: int| 0 <= j < i ==> depths@[j] == depth_of(#[trigger] pats@[j]),
        decreases pats@.len() - i,
    {
        depths.push(pats[i].depth());
        i += 1;
    }
    let mut r: Vec<Pat<G>> = Vec::new();
    let ghost all = pats@;
    proof {
        assert(r@ + by_depth(pats@) =~= by_depth(all));
    }
    while pats.len() > 0
        invariant
            depths@.len() == pats@.len(),
            forall|j: int| 0 <= j < pats@.len() ==> depths@[j] == depth_of(#[trigger] pats@[j]),
            r@ + by_depth(pats@) == by_depth(all),
        decreases pats@.len(),
    {
        let mut k: usize = 0;
        let mut j: usize = 1;
        while j < pats.len()
            invariant
                depths@.len() == pats@.len(),
                pats@.len() > 0,
                forall|j: int| 0 <= j < pats@.len() ==> depths@[j] == depth_of(#[trigger] pats@[j]),
                1 <= j <= pats@.len(),
                k == first_deepest(pats@, j as int),
                k < j,
            decreases pats@.len() - j,
        {
            if depths[k] < depths[j] {
                k = j;
            }
            j += 1;
        }
        let ghost before = pats@;
        let ghost done = r@;
        let p = pats.remove(k);
        depths.remove(k);
        r.push(p);
        proof {
            assert(by_depth(before) == seq![before[k as int]] + by_depth(before.remove(k as int)));
            assert(done.push(p) + by_depth(pats@) =~= done + (seq![before[k as int]] + by_depth(
                before.remove(k as int),
            )));
            assert forall|j: int| 0 <= j < pats@.len() implies depths@[j] == depth_of(
                #[trigger] pats@[j],
            ) by {
                if j < k {
                    assert(pats@[j] == before[j]);
                } else {
                    assert(pats@[j] == before[j + 1]);
                }
            }
        }
    }
    proof {
        assert(r@ + by_depth(pats@) =~= r@);
    }
    r
}

/// The patterns in descending depth are in descending depth.
pub proof fn lemma_by_depth_descends<G>(pats: Seq<Pat<G>>)
    ensures
        by_depth(pats).len() == pats.len(),
        forall|i: int, j: int|
            0 <= i < j < by_depth(pats).len() ==> depth_of(#[trigger] by_depth(pats)[i])
                >= depth_of(#[trigger] by_depth(pats)[j]),
        forall|i: int| 0 <= i < by_depth(pats).len() ==> pats.contains(#[trigger] by_depth(pats)[i]),
    decreases pats.len(),
{
    if pats.len() > 0 {
        let k = first_deepest(pats, pats.len() as int);
        lemma_first_deepest(pats, pats.len() as int);
        let rest = pats.remove(k);
        lemma_by_depth_descends(rest);
        let sorted = by_depth(pats);
        let tail = by_depth(rest);
        assert(sorted == seq![pats[k]] + tail);
        assert forall|i: int| 0 <= i < sorted.len() implies pats.contains(#[trigger] sorted[i]) by {
            if i > 0 {
                assert(sorted[i] == tail[i - 1]);
                assert(rest.contains(tail[i - 1]));
                let w = choose|w: int| 0 <= w < rest.len() && rest[w] == tail[i - 1];
                if w < k {
                    assert(pats[w] == rest[w]);
                } else {
                    assert(pats[w + 1] == rest[w]);
                }
            } else {
                assert(pats[k] == sorted[0]);
            }
        }
        assert forall|i: int, j: int| 0 <= i < j < sorted.len() implies depth_of(
            #[trigger] sorted[i],
        ) >= depth_of(#[trigger] sorted[j]) by {
            assert(sorted[j] == tail[j - 1]);
            if i == 0 {
                assert(rest.contains(tail[j - 1]));
                let w = choose|w: int| 0 <= w < rest.len() && rest[w] == tail[j - 1];
                if w < k {
                    assert(pats[w] == rest[w]);
                } else {
                    assert(pats[w + 1] == rest[w]);
                }
            } else {
                assert(sorted[i] == tail[i - 1]);
            }
        }
    }
}

} // verus!
