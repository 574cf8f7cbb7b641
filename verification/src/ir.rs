//! Static intermediate representation (IR): typed instructions on virtual
//! registers, with dynamic operations beside the static ones.

use vstd::prelude::*;
use crate::text::texts;

verus! {

/// What is known of the type of a value.
#[derive(Debug, Clone, Copy, PartialEq, Eq, Structural)]
pub enum TypeHint {
    I64,
    F64,
    Bool,
    Str,
    Ptr,
    Unit,
    Dynamic,
    Mixed,
}

/// A binary operation; those that end in `Dyn` work on dynamic values.
#[derive(Debug, Clone, Copy, PartialEq, Eq, Structural)]
pub enum BinOp {
    Add,
    Sub,
    Mul,
    Div,
    Mod,
    And,
    Or,
    Xor,
    Shl,
    Shr,
    AddDyn,
    SubDyn,
    MulDyn,
    DivDyn,
    ModDyn,
    EqDyn,
    NeDyn,
    LtDyn,
    LeDyn,
    GtDyn,
    GeDyn,
}

impl BinOp {
    /// The operation works on dynamic values.
    pub open spec fn dynamic(self) -> bool {
        match self {
            BinOp::AddDyn
            | BinOp::SubDyn
            | BinOp::MulDyn
            | BinOp::DivDyn
            | BinOp::ModDyn
            | BinOp::EqDyn
            | BinOp::NeDyn
            | BinOp::LtDyn
            | BinOp::LeDyn
            | BinOp::GtDyn
            | BinOp::GeDyn => true,
            _ => false,
        }
    }

    /// Whether the operation works on dynamic values.
    pub fn is_dyn(self) -> (r: bool)
        ensures
            r == self.dynamic(),
    {
        match self {
            BinOp::AddDyn
            | BinOp::SubDyn
            | BinOp::MulDyn
            | BinOp::DivDyn
            | BinOp::ModDyn
            | BinOp::EqDyn
            | BinOp::NeDyn
            | BinOp::LtDyn
            | BinOp::LeDyn
            | BinOp::GtDyn
            | BinOp::GeDyn => true,
            _ => false,
        }
    }
}

/// A comparison.
#[derive(Debug, Clone, Copy, PartialEq, Eq, Structural)]
pub enum Cond {
    Eq,
    Ne,
    Lt,
    Le,
    Gt,
    Ge,
}

/// An operand: a virtual register, a constant, a label or a symbol.  A
/// floating-point constant is given by its bit pattern, a string by its place
/// in the string pool.
#[derive(Debug)]
pub enum Operand {
    Reg(String, TypeHint),
    ImmI64(i64),
    ImmF64(u64),
    ImmStr(usize),
    ImmBool(bool),
    Null,
    Label(String),
    Sym(String),
}

/// What an operand is.
pub enum Opnd {
    Reg(Seq<char>, TypeHint),
    ImmI64(i64),
    ImmF64(u64),
    ImmStr(usize),
    ImmBool(bool),
    Null,
    Label(Seq<char>),
    Sym(Seq<char>),
}

impl View for Operand {
    type V = Opnd;

    open spec fn view(&self) -> Opnd {
        match self {
            Operand::Reg(n, t) => Opnd::Reg(n@, *t),
            Operand::ImmI64(v) => Opnd::ImmI64(*v),
            Operand::ImmF64(b) => Opnd::ImmF64(*b),
            Operand::ImmStr(i) => Opnd::ImmStr(*i),
            Operand::ImmBool(b) => Opnd::ImmBool(*b),
            Operand::Null => Opnd::Null,
            Operand::Label(l) => Opnd::Label(l@),
            Operand::Sym(s) => Opnd::Sym(s@),
        }
    }
}

impl Opnd {
    /// What is known of the type of the operand.
    pub open spec fn hint(self) -> TypeHint {
        match self {
            Opnd::Reg(_, t) => t,
            Opnd::ImmI64(_) => TypeHint::I64,
            Opnd::ImmF64(_) => TypeHint::F64,
            Opnd::ImmStr(_) => TypeHint::Str,
            Opnd::ImmBool(_) => TypeHint::Bool,
            Opnd::Null => TypeHint::Ptr,
            Opnd::Label(_) => TypeHint::Ptr,
            Opnd::Sym(_) => TypeHint::Ptr,
        }
    }
}

impl Operand {
    /// What is known of the type of the operand.
    pub fn ty(&self) -> (r: TypeHint)
        ensures
            r == self@.hint(),
    {
        match self {
            Operand::Reg(_, t) => *t,
            Operand::ImmI64(_) => TypeHint::I64,
            Operand::ImmF64(_) => TypeHint::F64,
            Operand::ImmStr(_) => TypeHint::Str,
            Operand::ImmBool(_) => TypeHint::Bool,
            Operand::Null => TypeHint::Ptr,
            Operand::Label(_) => TypeHint::Ptr,
            Operand::Sym(_) => TypeHint::Ptr,
        }
    }

    /// The same operand again.
    pub fn copy(&self) -> (r: Self)
        ensures
            r@ == self@,
    {
        match self {
            Operand::Reg(n, t) => Operand::Reg(n.clone(), *t),
            Operand::ImmI64(v) => Operand::ImmI64(*v),
            Operand::ImmF64(b) => Operand::ImmF64(*b),
            Operand::ImmStr(i) => Operand::ImmStr(*i),
            Operand::ImmBool(b) => Operand::ImmBool(*b),
            Operand::Null => Operand::Null,
            Operand::Label(l) => Operand::Label(l.clone()),
            Operand::Sym(s) => Operand::Sym(s.clone()),
        }
    }
}

/// What an optional operand is.
pub open spec fn opt_opnd(o: Option<Operand>) -> Option<Opnd> {
    match o {
        Some(x) => Some(x@),
        None => None,
    }
}

/// What the operands of a list are.
pub open spec fn opnds(v: Seq<Operand>) -> Seq<Opnd> {
    Seq::new(v.len(), |i: int| v[i]@)
}

/// An operand of an inline assembly block with its constraint.
#[derive(Debug)]
pub struct AsmArg {
    pub constraint: String,
    pub operand: Operand,
}

/// What the assembly operands of a list are.
pub open spec fn asm_args(v: Seq<AsmArg>) -> Seq<(Seq<char>, Opnd)> {
    Seq::new(v.len(), |i: int| (v[i].constraint@, v[i].operand@))
}

/// An instruction.
#[allow(inconsistent_fields)]
#[derive(Debug)]
pub enum StaticInsn {
    Label(String),
    Comment(String),
    SrcLoc { line: u64, col: u64 },
    Mov { dst: Operand, src: Operand, ty: TypeHint },
    Box { dst: Operand, src: Operand, from: TypeHint },
    Unbox { dst: Operand, src: Operand, to: TypeHint },
    Bin { op: BinOp, dst: Operand, lhs: Operand, rhs: Operand, ty: TypeHint },
    Neg { dst: Operand, src: Operand, ty: TypeHint },
    Not { dst: Operand, src: Operand, ty: TypeHint },
    Cmp { dst: Operand, cond: Cond, lhs: Operand, rhs: Operand, ty: TypeHint },
    Branch { cond: Cond, lhs: Operand, rhs: Operand, target: String },
    BranchTrue { cond: Operand, target: String },
    Jump { target: String },
    Load { dst: Operand, addr: Operand, size: u32, ty: TypeHint },
    Store { addr: Operand, value: Operand, size: u32, ty: TypeHint },
    Alloca { dst: Operand, size: Operand, align: u32 },
    StackFree { ptr: Operand, size: Operand },
    Call { dst: Option<Operand>, func: String, args: Vec<Operand>, ty: TypeHint },
    CallDyn { dst: Option<Operand>, callee: Operand, args: Vec<Operand>, ty: TypeHint },
    RuntimeCall { dst: Option<Operand>, func: String, args: Vec<Operand> },
    Ret { value: Option<Operand> },
    Push { src: Operand },
    Pop { dst: Operand },
    Asm { template: String, inputs: Vec<AsmArg>, outputs: Vec<AsmArg>, clobbers: Vec<String> },
    Prefetch { addr: Operand, hint: String },
    PipelineMarker { name: String },
    IsrEntry { group: String, priority: i64 },
    WcetNote { cycles: u64, budget: u64 },
    DiffMeta { symbol: String, offset: u64 },
}

/// What an instruction is.
#[allow(inconsistent_fields)]
pub enum Insn {
    Label(Seq<char>),
    Comment(Seq<char>),
    SrcLoc { line: u64, col: u64 },
    Mov { dst: Opnd, src: Opnd, ty: TypeHint },
    Boxed { dst: Opnd, src: Opnd, from: TypeHint },
    Unbox { dst: Opnd, src: Opnd, to: TypeHint },
    Bin { op: BinOp, dst: Opnd, lhs: Opnd, rhs: Opnd, ty: TypeHint },
    Neg { dst: Opnd, src: Opnd, ty: TypeHint },
    Not { dst: Opnd, src: Opnd, ty: TypeHint },
    Cmp { dst: Opnd, cond: Cond, lhs: Opnd, rhs: Opnd, ty: TypeHint },
    Branch { cond: Cond, lhs: Opnd, rhs: Opnd, target: Seq<char> },
    BranchTrue { cond: Opnd, target: Seq<char> },
    Jump { target: Seq<char> },
    Load { dst: Opnd, addr: Opnd, size: u32, ty: TypeHint },
    Store { addr: Opnd, value: Opnd, size: u32, ty: TypeHint },
    Alloca { dst: Opnd, size: Opnd, align: u32 },
    StackFree { ptr: Opnd, size: Opnd },
    Call { dst: Option<Opnd>, func: Seq<char>, args: Seq<Opnd>, ty: TypeHint },
    CallDyn { dst: Option<Opnd>, callee: Opnd, args: Seq<Opnd>, ty: TypeHint },
    RuntimeCall { dst: Option<Opnd>, func: Seq<char>, args: Seq<Opnd> },
    Ret { value: Option<Opnd> },
    Push { src: Opnd },
    Pop { dst: Opnd },
    Asm {
        template: Seq<char>,
        inputs: Seq<(Seq<char>, Opnd)>,
        outputs: Seq<(Seq<char>, Opnd)>,
        clobbers: Seq<Seq<char>>,
    },
    Prefetch { addr: Opnd, hint: Seq<char> },
    PipelineMarker { name: Seq<char> },
    IsrEntry { group: Seq<char>, priority: i64 },
    WcetNote { cycles: u64, budget: u64 },
    DiffMeta { symbol: Seq<char>, offset: u64 },
}

impl View for StaticInsn {
    type V = Insn;

    open spec fn view(&self) -> Insn {
        match self {
            StaticInsn::Label(l) => Insn::Label(l@),
            StaticInsn::Comment(c) => Insn::Comment(c@),
            StaticInsn::SrcLoc { line, col } => Insn::SrcLoc { line: *line, col: *col },
            StaticInsn::Mov { dst, src, ty } => Insn::Mov { dst: dst@, src: src@, ty: *ty },
            StaticInsn::Box { dst, src, from } => Insn::Boxed {
                dst: dst@,
                src: src@,
                from: *from,
            },
            StaticInsn::Unbox { dst, src, to } => Insn::Unbox { dst: dst@, src: src@, to: *to },
            StaticInsn::Bin { op, dst, lhs, rhs, ty } => Insn::Bin {
                op: *op,
                dst: dst@,
                lhs: lhs@,
                rhs: rhs@,
                ty: *ty,
            },
            StaticInsn::Neg { dst, src, ty } => Insn::Neg { dst: dst@, src: src@, ty: *ty },
            StaticInsn::Not { dst, src, ty } => Insn::Not { dst: dst@, src: src@, ty: *ty },
            StaticInsn::Cmp { dst, cond, lhs, rhs, ty } => Insn::Cmp {
                dst: dst@,
                cond: *cond,
                lhs: lhs@,
                rhs: rhs@,
                ty: *ty,
            },
            StaticInsn::Branch { cond, lhs, rhs, target } => Insn::Branch {
                cond: *cond,
                lhs: lhs@,
                rhs: rhs@,
                target: target@,
            },
            StaticInsn::BranchTrue { cond, target } => Insn::BranchTrue {
                cond: cond@,
                target: target@,
            },
            StaticInsn::Jump { target } => Insn::Jump { target: target@ },
            StaticInsn::Load { dst, addr, size, ty } => Insn::Load {
                dst: dst@,
                addr: addr@,
                size: *size,
                ty: *ty,
            },
            StaticInsn::Store { addr, value, size, ty } => Insn::Store {
                addr: addr@,
                value: value@,
                size: *size,
                ty: *ty,
            },
            StaticInsn::Alloca { dst, size, align } => Insn::Alloca {
                dst: dst@,
                size: size@,
                align: *align,
            },
            StaticInsn::StackFree { ptr, size } => Insn::StackFree { ptr: ptr@, size: size@ },
            StaticInsn::Call { dst, func, args, ty } => Insn::Call {
                dst: opt_opnd(*dst),
                func: func@,
                args: opnds(args@),
                ty: *ty,
            },
            StaticInsn::CallDyn { dst, callee, args, ty } => Insn::CallDyn {
                dst: opt_opnd(*dst),
                callee: callee@,
                args: opnds(args@),
                ty: *ty,
            },
            StaticInsn::RuntimeCall { dst, func, args } => Insn::RuntimeCall {
                dst: opt_opnd(*dst),
                func: func@,
                args: opnds(args@),
            },
            StaticInsn::Ret { value } => Insn::Ret { value: opt_opnd(*value) },
            StaticInsn::Push { src } => Insn::Push { src: src@ },
            StaticInsn::Pop { dst } => Insn::Pop { dst: dst@ },
            StaticInsn::Asm { template, inputs, outputs, clobbers } => Insn::Asm {
                template: template@,
                inputs: asm_args(inputs@),
                outputs: asm_args(outputs@),
                clobbers: texts(clobbers@),
            },
            StaticInsn::Prefetch { addr, hint } => Insn::Prefetch { addr: addr@, hint: hint@ },
            StaticInsn::PipelineMarker { name } => Insn::PipelineMarker { name: name@ },
            StaticInsn::IsrEntry { group, priority } => Insn::IsrEntry {
                group: group@,
                priority: *priority,
            },
            StaticInsn::WcetNote { cycles, budget } => Insn::WcetNote {
                cycles: *cycles,
                budget: *budget,
            },
            StaticInsn::DiffMeta { symbol, offset } => Insn::DiffMeta {
                symbol: symbol@,
                offset: *offset,
            },
        }
    }
}

/// What the instructions of a list are.
pub open spec fn insns(v: Seq<StaticInsn>) -> Seq<Insn> {
    Seq::new(v.len(), |i: int| v[i]@)
}

/// A copy of an optional operand.
pub fn copy_opt(o: &Option<Operand>) -> (r: Option<Operand>)
    ensures
        opt_opnd(r) == opt_opnd(*o),
{
    match o {
        Some(x) => Some(x.copy()),
        None => None,
    }
}

/// A copy of operands.
pub fn copy_operands(v: &Vec<Operand>) -> (r: Vec<Operand>)
    ensures
        opnds(r@) == opnds(v@),
{
    let mut out: Vec<Operand> = Vec::new();
    let mut i: usize = 0;
    while i < v.len()
        invariant
            i <= v@.len(),
            out@.len() == i,
            forall|j: int| 0 <= j < i ==> (#[trigger] out@[j])@ == v@[j]@,
        decreases v@.len() - i,
    {
        out.push(v[i].copy());
        i = i + 1;
    }
    assert(opnds(out@) =~= opnds(v@));
    out
}

/// A copy of assembly operands.
fn copy_asm_args(v: &Vec<AsmArg>) -> (r: Vec<AsmArg>)
    ensures
        asm_args(r@) == asm_args(v@),
{
    let mut out: Vec<AsmArg> = Vec::new();
    let mut i: usize = 0;
    while i < v.len()
        invariant
            i <= v@.len(),
            out@.len() == i,
            forall|j: int| 0 <= j < i ==> (#[trigger] out@[j]).constraint@ == v@[j].constraint@ && out@[j].operand@ == v@[j].operand@,
        decreases v@.len() - i,
    {
        out.push(AsmArg { constraint: v[i].constraint.clone(), operand: v[i].operand.copy() });
        i = i + 1;
    }
    assert(asm_args(out@) =~= asm_args(v@));
    out
}

/// A copy of strings.
pub fn copy_strings(v: &Vec<String>) -> (r: Vec<String>)
    ensures
        texts(r@) == texts(v@),
{
    let mut out: Vec<String> = Vec::new();
    let mut i: usize = 0;
    while i < v.len()
        invariant
            i <= v@.len(),
            out@.len() == i,
            forall|j: int| 0 <= j < i ==> (#[trigger] out@[j])@ == v@[j]@,
        decreases v@.len() - i,
    {
        out.push(v[i].clone());
        i = i + 1;
    }
    assert(texts(out@) =~= texts(v@));
    out
}

impl StaticInsn {
    /// The same instruction again.
    pub fn copy(&self) -> (r: Self)
        ensures
            r@ == self@,
    {
        match self {
            StaticInsn::Label(l) => StaticInsn::Label(l.clone()),
            StaticInsn::Comment(c) => StaticInsn::Comment(c.clone()),
            StaticInsn::SrcLoc { line, col } => StaticInsn::SrcLoc { line: *line, col: *col },
            StaticInsn::Mov { dst, src, ty } => StaticInsn::Mov {
                dst: dst.copy(),
                src: src.copy(),
                ty: *ty,
            },
            StaticInsn::Box { dst, src, from } => StaticInsn::Box {
                dst: dst.copy(),
                src: src.copy(),
                from: *from,
            },
            StaticInsn::Unbox { dst, src, to } => StaticInsn::Unbox {
                dst: dst.copy(),
                src: src.copy(),
                to: *to,
            },
            StaticInsn::Bin { op, dst, lhs, rhs, ty } => StaticInsn::Bin {
                op: *op,
                dst: dst.copy(),
                lhs: lhs.copy(),
                rhs: rhs.copy(),
                ty: *ty,
            },
            StaticInsn::Neg { dst, src, ty } => StaticInsn::Neg {
                dst: dst.copy(),
                src: src.copy(),
                ty: *ty,
            },
            StaticInsn::Not { dst, src, ty } => StaticInsn::Not {
                dst: dst.copy(),
                src: src.copy(),
                ty: *ty,
            },
            StaticInsn::Cmp { dst, cond, lhs, rhs, ty } => StaticInsn::Cmp {
                dst: dst.copy(),
                cond: *cond,
                lhs: lhs.copy(),
                rhs: rhs.copy(),
                ty: *ty,
            },
            StaticInsn::Branch { cond, lhs, rhs, target } => StaticInsn::Branch {
                cond: *cond,
                lhs: lhs.copy(),
                rhs: rhs.copy(),
                target: target.clone(),
            },
            StaticInsn::BranchTrue { cond, target } => StaticInsn::BranchTrue {
                cond: cond.copy(),
                target: target.clone(),
            },
            StaticInsn::Jump { target } => StaticInsn::Jump { target: target.clone() },
            StaticInsn::Load { dst, addr, size, ty } => StaticInsn::Load {
                dst: dst.copy(),
                addr: addr.copy(),
                size: *size,
                ty: *ty,
            },
            StaticInsn::Store { addr, value, size, ty } => StaticInsn::Store {
                addr: addr.copy(),
                value: value.copy(),
                size: *size,
                ty: *ty,
            },
            StaticInsn::Alloca { dst, size, align } => StaticInsn::Alloca {
                dst: dst.copy(),
                size: size.copy(),
                align: *align,
            },
            StaticInsn::StackFree { ptr, size } => StaticInsn::StackFree {
                ptr: ptr.copy(),
                size: size.copy(),
            },
            StaticInsn::Call { dst, func, args, ty } => StaticInsn::Call {
                dst: copy_opt(dst),
                func: func.clone(),
                args: copy_operands(args),
                ty: *ty,
            },
            StaticInsn::CallDyn { dst, callee, args, ty } => StaticInsn::CallDyn {
                dst: copy_opt(dst),
                callee: callee.copy(),
                args: copy_operands(args),
                ty: *ty,
            },
            StaticInsn::RuntimeCall { dst, func, args } => StaticInsn::RuntimeCall {
                dst: copy_opt(dst),
                func: func.clone(),
                args: copy_operands(args),
            },
            StaticInsn::Ret { value } => StaticInsn::Ret { value: copy_opt(value) },
            StaticInsn::Push { src } => StaticInsn::Push { src: src.copy() },
            StaticInsn::Pop { dst } => StaticInsn::Pop { dst: dst.copy() },
            StaticInsn::Asm { template, inputs, outputs, clobbers } => StaticInsn::Asm {
                template: template.clone(),
                inputs: copy_asm_args(inputs),
                outputs: copy_asm_args(outputs),
                clobbers: copy_strings(clobbers),
            },
            StaticInsn::Prefetch { addr, hint } => StaticInsn::Prefetch {
                addr: addr.copy(),
                hint: hint.clone(),
            },
            StaticInsn::PipelineMarker { name } => StaticInsn::PipelineMarker {
                name: name.clone(),
            },
            StaticInsn::IsrEntry { group, priority } => StaticInsn::IsrEntry {
                group: group.clone(),
                priority: *priority,
            },
            StaticInsn::WcetNote { cycles, budget } => StaticInsn::WcetNote {
                cycles: *cycles,
                budget: *budget,
            },
            StaticInsn::DiffMeta { symbol, offset } => StaticInsn::DiffMeta {
                symbol: symbol.clone(),
                offset: *offset,
            },
        }
    }
}

/// A function.
#[derive(Debug)]
pub struct IrFunction {
    pub name: String,
    pub params: Vec<(String, TypeHint)>,
    /// The virtual registers of the parameters.
    pub param_regs: Vec<String>,
    pub return_ty: TypeHint,
    pub body: Vec<StaticInsn>,
    pub is_main: bool,
    pub annotations: Vec<String>,
    pub locals: Vec<(String, TypeHint)>,
}

/// What a function is.
pub struct IrFn {
    pub name: Seq<char>,
    pub params: Seq<(Seq<char>, TypeHint)>,
    pub param_regs: Seq<Seq<char>>,
    pub return_ty: TypeHint,
    pub body: Seq<Insn>,
    pub is_main: bool,
    pub annotations: Seq<Seq<char>>,
    pub locals: Seq<(Seq<char>, TypeHint)>,
}

/// Names with their types.
pub open spec fn hinted(v: Seq<(String, TypeHint)>) -> Seq<(Seq<char>, TypeHint)> {
    Seq::new(v.len(), |i: int| (v[i].0@, v[i].1))
}

impl View for IrFunction {
    type V = IrFn;

    open spec fn view(&self) -> IrFn {
        IrFn {
            name: self.name@,
            params: hinted(self.params@),
            param_regs: texts(self.param_regs@),
            return_ty: self.return_ty,
            body: insns(self.body@),
            is_main: self.is_main,
            annotations: texts(self.annotations@),
            locals: hinted(self.locals@),
        }
    }
}

/// A copy of names with their types.
pub fn copy_hinted(v: &Vec<(String, TypeHint)>) -> (r: Vec<(String, TypeHint)>)
    ensures
        hinted(r@) == hinted(v@),
{
    let mut out: Vec<(String, TypeHint)> = Vec::new();
    let mut i: usize = 0;
    while i < v.len()
        invariant
            i <= v@.len(),
            out@.len() == i,
            forall|j: int| 0 <= j < i ==> (#[trigger] out@[j]).0@ == v@[j].0@ && out@[j].1 == v@[j].1,
        decreases v@.len() - i,
    {
        out.push((v[i].0.clone(), v[i].1));
        i = i + 1;
    }
    assert(hinted(out@) =~= hinted(v@));
    out
}

/// A module.
#[derive(Debug)]
pub struct IrModule {
    pub functions: Vec<IrFunction>,
    pub string_pool: Vec<String>,
    pub globals: Vec<(String, TypeHint)>,
    pub entry: Option<String>,
}

/// What a module is.
pub struct IrMod {
    pub functions: Seq<IrFn>,
    pub string_pool: Seq<Seq<char>>,
    pub globals: Seq<(Seq<char>, TypeHint)>,
    pub entry: Option<Seq<char>>,
}

/// What the functions of a list are.
pub open spec fn ir_fns(v: Seq<IrFunction>) -> Seq<IrFn> {
    Seq::new(v.len(), |i: int| v[i]@)
}

impl View for IrModule {
    type V = IrMod;

    open spec fn view(&self) -> IrMod {
        IrMod {
            functions: ir_fns(self.functions@),
            string_pool: texts(self.string_pool@),
            globals: hinted(self.globals@),
            entry: match self.entry {
                Some(e) => Some(e@),
                None => None,
            },
        }
    }
}

} // verus!
