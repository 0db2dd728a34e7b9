use vstd::prelude::*;
use crate::symbol::{Direction, EnumEncoding, PowerDomain, Type, TypeKind};
use crate::token::{StrId, Token, TokenRange};

verus! {

/// A named occurrence in the source: the interned name and its token.
#[derive(Clone, Copy, Debug, PartialEq, Eq, Structural)]
pub struct Ident {
    pub name: StrId,
    pub token: Token,
}

impl Ident {
    /// The zero-width span at this identifier.
    pub fn range(&self) -> (r: TokenRange)
        ensures
            r == (TokenRange { beg: self.token, end: self.token }),
    {
        TokenRange { beg: self.token, end: self.token }
    }
}

/// One member step of a hierarchical path: `.name` followed by some
/// number of index/selection operations.
#[derive(Clone, Copy, Debug, PartialEq, Eq, Structural)]
pub struct HierMember {
    pub ident: Ident,
    pub selects: u64,
}

/// A hierarchical identifier: a base name with its selections, then
/// member accesses, as in `a[0].b[1]`.
#[derive(Clone, Debug)]
pub struct HierIdent {
    pub base: Ident,
    pub base_selects: u64,
    pub members: Vec<HierMember>,
    pub span: TokenRange,
}

/// A scoped identifier: a path of namespace separators, as in `a::b::c`.
#[derive(Clone, Debug)]
pub struct ScopedIdent {
    pub base: Ident,
    pub path: Vec<Ident>,
    pub span: TokenRange,
}

/// An identifier reference in an expression: a scope path, a base name
/// with selections, then member accesses.
#[derive(Clone, Debug)]
pub struct ExprRef {
    pub scope: Vec<Ident>,
    pub base: Ident,
    pub base_selects: u64,
    pub members: Vec<HierMember>,
    pub span: TokenRange,
}

/// A unary operator.
#[derive(Clone, Copy, Debug, PartialEq, Eq, Structural)]
pub enum UnaryOp {
    Plus,
    Minus,
    LogNot,
    BitNot,
}

/// A binary operator.
#[derive(Clone, Copy, Debug, PartialEq, Eq, Structural)]
pub enum BinaryOp {
    Add,
    Sub,
    Mul,
    Div,
    Mod,
    BitAnd,
    BitOr,
    BitXor,
    Shl,
    Shr,
    LogAnd,
    LogOr,
    CmpEq,
    CmpNe,
    CmpLt,
    CmpLe,
    CmpGt,
    CmpGe,
}

/// An expression of the surface language, elaborated to the parts the
/// analyzer reads.
#[derive(Debug)]
pub enum Expr {
    /// A fixed numeric literal; `sized` says whether a width was written.
    Number { value: u64, width: u64, sized: bool, token: Token },
    /// A literal with unresolved don't-care bits, as in `2'b0x`.
    DontCare { token: Token },
    /// The anonymous identifier `_`.
    Anonymous { token: Token },
    /// An identifier reference.
    Ref(ExprRef),
    Unary { op: UnaryOp, operand: Box<Expr>, token: Token },
    Binary { op: BinaryOp, lhs: Box<Expr>, rhs: Box<Expr>, token: Token },
    /// A concatenation `{a, b, ...}`.
    Concat { parts: Vec<Expr>, token: Token },
    /// An explicit cast `expr as kind`.
    Cast { into: TypeKind, operand: Box<Expr>, token: Token },
    /// A function call in expression position.
    Call { target: ExprRef, args: Vec<Expr>, token: Token },
}

impl Expr {
    /// The anchoring token of this expression.
    pub fn token(&self) -> (t: Token)
        ensures
            t == expr_token(*self),
    {
        match self {
            Expr::Number { token, .. } => *token,
            Expr::DontCare { token } => *token,
            Expr::Anonymous { token } => *token,
            Expr::Ref(r) => r.span.beg,
            Expr::Unary { token, .. } => *token,
            Expr::Binary { token, .. } => *token,
            Expr::Concat { token, .. } => *token,
            Expr::Cast { token, .. } => *token,
            Expr::Call { token, .. } => *token,
        }
    }

    /// The zero-width span at this expression's anchoring token.
    pub fn range(&self) -> (r: TokenRange)
        ensures
            r == (TokenRange { beg: expr_token(*self), end: expr_token(*self) }),
    {
        let t = self.token();
        TokenRange { beg: t, end: t }
    }
}

/// The anchoring token of an expression.
pub open spec fn expr_token(e: Expr) -> Token {
    match e {
        Expr::Number { token, .. } => token,
        Expr::DontCare { token } => token,
        Expr::Anonymous { token } => token,
        Expr::Ref(r) => r.span.beg,
        Expr::Unary { token, .. } => token,
        Expr::Binary { token, .. } => token,
        Expr::Concat { token, .. } => token,
        Expr::Cast { token, .. } => token,
        Expr::Call { token, .. } => token,
    }
}

/// One arm of a case statement.
#[derive(Debug)]
pub struct CaseArm {
    pub cond: Expr,
    pub block: Vec<Statement>,
}

/// A statement of the surface language.
#[derive(Debug)]
pub enum Statement {
    /// An assignment `target = rhs;` or compound-assignment.
    Assign { target: HierIdent, rhs: Expr, token: Token },
    /// A statement-local binding `let ident: ty = rhs;`.
    LetStmt { ident: Ident, ty: Type, domain: PowerDomain, rhs: Expr, token: Token },
    If { cond: Expr, then_block: Vec<Statement>, else_block: Vec<Statement>, has_else: bool, token: Token },
    /// The reset guard construct of a clocked block.
    IfEnable { block: Vec<Statement>, else_block: Vec<Statement>, token: Token },
    Case { subject: Expr, arms: Vec<CaseArm>, default_block: Vec<Statement>, has_default: bool, token: Token },
    For { ident: Ident, body: Vec<Statement>, token: Token },
    Return { token: Token },
    Break { token: Token },
    /// A call used as a statement.
    CallStmt { target: ExprRef, args: Vec<Expr>, token: Token },
}

/// The clock reference and optional reset reference of a clocked
/// block's event list.
#[derive(Clone, Debug)]
pub struct SequenceEvent {
    pub power: HierIdent,
    pub enable: Option<HierIdent>,
}

/// A clocked block: an optional event list and a statement block.
#[derive(Debug)]
pub struct SequenceDecl {
    pub event: Option<SequenceEvent>,
    pub block: Vec<Statement>,
    pub token: Token,
}

/// One port connection of an instantiation; `expr` is `None` for the
/// shorthand that connects a signal of the port's own name.
#[derive(Debug)]
pub struct InstPortItem {
    pub port: Ident,
    pub expr: Option<Expr>,
    pub token: Token,
}

/// An instantiation of an entity, or of an opaque foreign reference,
/// with the concrete arguments of a generic reference.
#[derive(Debug)]
pub struct InstDecl {
    pub ident: Ident,
    pub target: ScopedIdent,
    pub foreign: bool,
    pub generic_args: Vec<Expr>,
    pub ports: Vec<InstPortItem>,
    pub token: Token,
}

/// One declared enum variant, with its explicit value if written.
#[derive(Debug)]
pub struct EnumVariantAst {
    pub ident: Ident,
    pub value: Option<Expr>,
}

/// An enum declaration: optional backing width, encoding, variants.
#[derive(Debug)]
pub struct EnumDeclAst {
    pub ident: Ident,
    pub width: Option<u64>,
    pub encoding: EnumEncoding,
    pub variants: Vec<EnumVariantAst>,
    pub token: Token,
}

/// A port declaration of an entity, prototype, or function.
#[derive(Debug)]
pub struct PortDecl {
    pub ident: Ident,
    pub direction: Direction,
    pub ty: Option<Type>,
    pub domain: PowerDomain,
    pub default_value: Option<Expr>,
    pub token: Token,
}

/// One item in the body of an entity, interface, or package.
#[derive(Debug)]
pub enum EntityItem {
    Var { ident: Ident, ty: Type, domain: PowerDomain, token: Token },
    Const { ident: Ident, ty: Type, value: Expr, token: Token },
    Let { ident: Ident, ty: Type, domain: PowerDomain, rhs: Expr, token: Token },
    AssignDecl { target: HierIdent, rhs: Expr, token: Token },
    Sequence(SequenceDecl),
    AlwaysComb { block: Vec<Statement>, token: Token },
    Initial { block: Vec<Statement>, token: Token },
    Final { block: Vec<Statement>, token: Token },
    FunctionDecl {
        ident: Ident,
        ports: Vec<PortDecl>,
        has_return: bool,
        block: Vec<Statement>,
        token: Token,
    },
    Inst(InstDecl),
    EnumDecl(EnumDeclAst),
    StructDecl { ident: Ident, members: Vec<(Ident, Type)>, token: Token },
    ModportDecl { ident: Ident, items: Vec<(Ident, Direction)>, token: Token },
    ImportDecl { target: ScopedIdent, token: Token },
    /// An explicit suppression block `unsafe(name) { ... }`.
    UnsafeBlock { name: Ident, items: Vec<EntityItem>, token: Token, span: TokenRange },
}

/// A module/entity declaration.
#[derive(Debug)]
pub struct EntityDecl {
    pub ident: Ident,
    pub ports: Vec<PortDecl>,
    pub proto: Option<ScopedIdent>,
    pub items: Vec<EntityItem>,
    pub public: bool,
    pub token: Token,
}

/// An entity prototype declaration: an abstract parameter and port
/// signature.
#[derive(Debug)]
pub struct ProtoDecl {
    pub ident: Ident,
    pub params: Vec<(Ident, Type)>,
    pub ports: Vec<PortDecl>,
    pub public: bool,
    pub token: Token,
}

/// A package declaration.
#[derive(Debug)]
pub struct PackageDecl {
    pub ident: Ident,
    pub generic_parameters: Vec<(Ident, Option<Expr>)>,
    pub items: Vec<EntityItem>,
    pub public: bool,
    pub token: Token,
}

/// An interface declaration.
#[derive(Debug)]
pub struct InterfaceDecl {
    pub ident: Ident,
    pub items: Vec<EntityItem>,
    pub public: bool,
    pub token: Token,
}

/// One top-level declaration of a compilation unit.
#[derive(Debug)]
pub enum Declaration {
    Entity(EntityDecl),
    Proto(ProtoDecl),
    Package(PackageDecl),
    Interface(InterfaceDecl),
}

/// A parsed compilation unit: the immutable syntax tree one analysis
/// pass walks.
#[derive(Debug)]
pub struct CompUnit {
    pub decls: Vec<Declaration>,
}

} // verus!
