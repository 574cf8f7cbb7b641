//! The syntax tree that the raw backends read.
//!
//! A tree holds what code generation looks at and nothing else: source
//! positions are left to the parser.  Statement, expression and type forms
//! that no raw backend models are all written `Other`.

use vstd::prelude::*;

verus! {

/// A name in the source.
#[derive(Debug)]
pub struct Identifier {
    pub name: String,
}

#[derive(Debug)]
pub struct IntegerLiteral {
    pub value: i64,
}

/// A floating-point literal: its IEEE 754 double-precision bit pattern and
/// its shortest decimal text.
#[derive(Debug)]
pub struct FloatLiteral {
    pub bits: u64,
    pub text: String,
}

#[derive(Debug)]
pub struct BoolLiteral {
    pub value: bool,
}

/// A piece of a string literal: plain text or an interpolated expression.
#[derive(Debug)]
pub enum StringPart {
    Text(String),
    Interpolation,
}

#[derive(Debug)]
pub struct StringLiteral {
    pub parts: Vec<StringPart>,
}

#[derive(Debug, Clone, Copy, PartialEq, Eq, Structural)]
pub enum BinaryOp {
    Add,
    Sub,
    Mul,
    Div,
    FloorDiv,
    Mod,
    Power,
    Eq,
    Ne,
    Lt,
    Gt,
    Le,
    Ge,
    And,
    Or,
    BitAnd,
    BitOr,
    BitXor,
    Shl,
    Shr,
    Is,
    In,
    Repeated,
}

#[derive(Debug, Clone, Copy, PartialEq, Eq, Structural)]
pub enum UnaryOp {
    Neg,
    Not,
    Bang,
    BitNot,
}

#[derive(Debug, Clone, Copy, PartialEq, Eq, Structural)]
pub enum AssignOp {
    Simple,
    Add,
    Sub,
    Mul,
    Div,
    Mod,
}

#[derive(Debug)]
pub struct BinaryExpr {
    pub left: Box<Expr>,
    pub operator: BinaryOp,
    pub right: Box<Expr>,
}

#[derive(Debug)]
pub struct UnaryExpr {
    pub operator: UnaryOp,
    pub operand: Box<Expr>,
}

#[derive(Debug)]
pub struct CallExpr {
    pub callee: Box<Expr>,
    pub args: Vec<Expr>,
}

#[derive(Debug)]
pub struct MethodCallExpr {
    pub receiver: Box<Expr>,
    pub method: Identifier,
    pub args: Vec<Expr>,
}

#[derive(Debug)]
pub struct MemberAccessExpr {
    pub target: Box<Expr>,
    pub member: Identifier,
}

#[derive(Debug)]
pub struct IndexExpr {
    pub target: Box<Expr>,
    pub index: Box<Expr>,
}

#[derive(Debug)]
pub struct CastExpr {
    pub expr: Box<Expr>,
    pub type_expr: TypeExpr,
}

#[derive(Debug)]
pub struct AssignExpr {
    pub targets: Vec<Assignee>,
    pub value: Box<Expr>,
}

#[derive(Debug)]
pub struct LambdaExpr {
    pub params: Vec<FnParam>,
    pub body: Box<Expr>,
}

#[derive(Debug)]
pub struct ListLiteral {
    pub elements: Vec<Expr>,
}

#[derive(Debug)]
pub struct RangeExpr {
    pub start: Option<Box<Expr>>,
    pub end: Option<Box<Expr>>,
    pub step: Option<Box<Expr>>,
}

#[derive(Debug)]
pub struct TryPropagateExpr {
    pub expr: Box<Expr>,
}

#[derive(Debug)]
pub enum Expr {
    Integer(IntegerLiteral),
    Float(FloatLiteral),
    Bool(BoolLiteral),
    Null,
    String_(StringLiteral),
    MultiLineString(StringLiteral),
    Identifier(Identifier),
    Binary(BinaryExpr),
    Unary(UnaryExpr),
    Call(CallExpr),
    MethodCall(MethodCallExpr),
    MemberAccess(MemberAccessExpr),
    Index(IndexExpr),
    Cast(CastExpr),
    AssignExpr(AssignExpr),
    Lambda(LambdaExpr),
    List(ListLiteral),
    Range(RangeExpr),
    TryPropagate(TryPropagateExpr),
    Other,
}

#[derive(Debug)]
pub enum Assignee {
    Identifier(Identifier),
    Index(IndexExpr),
    Other,
}

#[derive(Debug, Clone, Copy, PartialEq, Eq, Structural)]
pub enum BasicType {
    Int,
    Float,
    Str,
    Bool,
    Null,
    Any,
    Void,
}

#[derive(Debug)]
pub enum TypeExpr {
    Basic(BasicType),
    Named(Identifier),
    /// `u8`, `u16`, ...: an unsigned integer of the given number of bits.
    UnsignedInt(u32),
    /// `ptr[T]`.
    Pointer(Box<TypeExpr>),
    Generic { base: Box<TypeExpr>, args: Vec<TypeExpr> },
    Optional(Box<TypeExpr>),
    Other,
}

#[derive(Debug)]
pub struct AssignStmt {
    pub targets: Vec<Assignee>,
    pub operator: AssignOp,
    pub value: Expr,
}

#[derive(Debug)]
pub struct ReturnStmt {
    pub values: Vec<Expr>,
}

#[derive(Debug)]
pub struct IfStmt {
    pub condition: Expr,
    pub then_body: Vec<Stmt>,
    /// The `elif` branches, each with its condition.
    pub elif_chain: Vec<(Expr, Vec<Stmt>)>,
    pub else_body: Option<Vec<Stmt>>,
}

#[derive(Debug)]
pub struct WhileStmt {
    pub label: Option<Identifier>,
    pub condition: Expr,
    pub body: Vec<Stmt>,
}

#[derive(Debug)]
pub struct LoopStmt {
    pub body: Vec<Stmt>,
}

#[derive(Debug)]
pub struct BreakStmt {
    pub label: Option<Identifier>,
}

#[derive(Debug)]
pub struct ContinueStmt {
    pub label: Option<Identifier>,
}

#[derive(Debug)]
pub struct ForRangeStmt {
    pub var: Identifier,
    pub from: Expr,
    pub to: Expr,
    pub step: Option<Box<Expr>>,
    pub body: Vec<Stmt>,
}

#[derive(Debug)]
pub struct ForInStmt {
    pub var: Identifier,
    pub iterable: Expr,
    pub body: Vec<Stmt>,
}

#[derive(Debug)]
pub struct ExprStmt {
    pub expr: Expr,
}

#[derive(Debug)]
pub struct PrintlnStmt {
    pub args: Vec<Expr>,
}

#[derive(Debug)]
pub struct UnsafeBlock {
    pub body: Vec<Stmt>,
}

/// An operand of an inline assembly block.
#[derive(Debug)]
pub struct AsmOperand {
    pub constraint: String,
    pub expr: Expr,
}

#[derive(Debug)]
pub struct AsmStmt {
    pub template: String,
    pub outputs: Vec<AsmOperand>,
    pub inputs: Vec<AsmOperand>,
}

#[derive(Debug)]
pub struct TryStmt {
    pub try_body: Vec<Stmt>,
    pub catch_var: Option<Identifier>,
    pub catch_body: Option<Vec<Stmt>>,
    pub finally_body: Option<Vec<Stmt>>,
}

#[derive(Debug)]
pub struct ThrowStmt {
    pub value: Expr,
}

#[derive(Debug)]
pub struct PanicStmt {
    pub message: Expr,
}

#[derive(Debug)]
pub enum Stmt {
    Assign(AssignStmt),
    Return(ReturnStmt),
    If(IfStmt),
    While(WhileStmt),
    Loop(LoopStmt),
    Break(BreakStmt),
    Continue(ContinueStmt),
    ForRange(ForRangeStmt),
    ForIn(ForInStmt),
    Expr(ExprStmt),
    Println(PrintlnStmt),
    UnsafeBlock(UnsafeBlock),
    Asm(AsmStmt),
    Try(TryStmt),
    Throw(ThrowStmt),
    Panic(PanicStmt),
    Paste,
    Other,
}

/// One argument of an annotation.  `rendered` is the printed form of `value`,
/// used where the argument is neither a string nor a name.
#[derive(Debug)]
pub struct AnnotationArg {
    pub name: Option<String>,
    pub value: Expr,
    pub rendered: String,
}

/// `@name(arguments)` in front of a declaration.
#[derive(Debug)]
pub struct Annotation {
    pub name: String,
    pub arguments: Vec<AnnotationArg>,
}

#[derive(Debug)]
pub struct FnParam {
    pub name: Identifier,
    pub type_annotation: Option<TypeExpr>,
}

#[derive(Debug)]
pub struct FnDef {
    pub annotations: Vec<Annotation>,
    pub name: Identifier,
    pub params: Vec<FnParam>,
    pub return_type: Option<TypeExpr>,
    pub body: Vec<Stmt>,
    pub extern_link: Option<String>,
}

#[derive(Debug)]
pub struct LazyFnDef {
    pub fn_def: FnDef,
}

#[derive(Debug)]
pub struct ExternFnDef {
    pub link: Option<String>,
    pub fn_def: FnDef,
}

#[derive(Debug)]
pub struct FieldDef {
    pub name: Identifier,
    pub type_annotation: Option<TypeExpr>,
}

#[derive(Debug)]
pub struct StructDef {
    pub annotations: Vec<Annotation>,
    pub name: Identifier,
    pub fields: Vec<FieldDef>,
}

/// `@if(condition) ... else ...` around declarations.
#[derive(Debug)]
pub struct ConditionalCompile {
    pub condition: Expr,
    pub then_body: Vec<TopLevel>,
    pub else_body: Option<Vec<TopLevel>>,
}

/// `dtor, Type ... /end`.
#[derive(Debug)]
pub struct DtorBlock {
    pub target: Identifier,
    pub body: Vec<Stmt>,
}

#[derive(Debug)]
pub enum TopLevel {
    Import,
    Export,
    FnDef(FnDef),
    StructDef(StructDef),
    ClassDef,
    InterfaceDef,
    EnumDef,
    TypeAlias,
    ConstExpr,
    LazyDef,
    LazyFnDef(LazyFnDef),
    MacroDef,
    PluginDef,
    MarkerTrait,
    ExternFnDef(ExternFnDef),
    ConditionalCompile(ConditionalCompile),
    TestBlock,
    BenchBlock,
    TraitDef,
    ImplBlock,
    DtorBlock(DtorBlock),
    Statement(Stmt),
}

#[derive(Debug)]
pub struct Program {
    pub declarations: Vec<TopLevel>,
}

} // verus!
