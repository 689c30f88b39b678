//! The typed tree of statements, expressions and operators, together with
//! the per-branch stack-parameter declarations. Pure data: the analyzer
//! reads it and never rewrites it, except for back-filling source locations.

use vstd::prelude::*;

verus! {

/// A whole parsed contract: its pragma header, the declared input stacks
/// (one per spending path) and the statement tree.
pub struct Bithoven {
    pub pragma: Pragma,
    pub input_stack: Vec<Vec<StackParam>>,
    pub output_script: Vec<Statement>,
}

/// The pragma header of a contract: language name, version and the target
/// dialect the script is compiled for.
pub struct Pragma {
    pub language: String,
    pub version: String,
    pub target: Target,
}

/// The consensus dialect the script targets; selects which opcode set and
/// which size limits apply.
#[derive(Clone, Copy, PartialEq, Eq, Structural)]
pub enum Target {
    Legacy,
    Segwit,
    Taproot,
}

/// One named slot of a branch's initial witness stack.
pub struct StackParam {
    pub loc: Location,
    pub identifier: Identifier,
    pub ty: Type,
    pub value: Option<LiteralExpression>,
}

/// The type of a declared stack slot.
#[derive(Clone, Copy, PartialEq, Eq, Structural)]
pub enum Type {
    Signature,
    Number,
    String,
    Boolean,
}

/// A source span: byte offsets into the raw source, plus the 1-based line
/// and column that the line-index pass back-fills from `start`.
#[derive(Clone, Copy, PartialEq, Eq, Structural, Debug)]
pub struct Location {
    pub start: usize,
    pub end: usize,
    pub line: usize,
    pub column: usize,
}

/// One statement of the script.
pub enum Statement {
    IfStatement {
        loc: Location,
        condition_expr: Expression,
        if_block: Vec<Statement>,
        else_block: Option<Vec<Statement>>,
    },
    LocktimeStatement {
        loc: Location,
        operand: u32,
        op: LocktimeOp,
    },
    VerifyStatement(Location, Expression),
    ExpressionStatement(Location, Expression),
}

/// An `if`/`else` construct on its own, mirroring the corresponding
/// `Statement` variant.
pub struct IfStatement {
    pub loc: Location,
    pub condition_expr: Expression,
    pub if_block: Vec<Statement>,
    pub else_block: Option<Vec<Statement>>,
}

/// A locktime condition on its own, mirroring the corresponding
/// `Statement` variant.
pub struct LocktimeStatement {
    pub loc: Location,
    pub operand: u32,
    pub op: LocktimeOp,
}

/// A variable name as written in the source.
pub struct Identifier(pub String);

/// One expression of the script.
pub enum Expression {
    Variable(Location, Identifier),
    NumberLiteral(Location, i64),
    BooleanLiteral(Location, bool),
    StringLiteral(Location, String),
    LogicalExpression {
        loc: Location,
        lhs: Box<Expression>,
        op: BinaryLogicalOp,
        rhs: Box<Expression>,
    },
    CompareExpression {
        loc: Location,
        lhs: Box<Expression>,
        op: BinaryCompareOp,
        rhs: Box<Expression>,
    },
    UnaryMathExpression {
        loc: Location,
        operand: Box<Expression>,
        op: UnaryMathOp,
    },
    BinaryMathExpression {
        loc: Location,
        lhs: Box<Expression>,
        op: BinaryMathOp,
        rhs: Box<Expression>,
    },
    UnaryCryptoExpression {
        loc: Location,
        operand: Box<Expression>,
        op: UnaryCryptoOp,
    },
    CheckSigExpression {
        loc: Location,
        operand: Box<Factor>,
        op: CheckSigOp,
    },
    ByteExpression {
        loc: Location,
        operand: Box<Expression>,
        op: ByteOp,
    },
}

/// A literal value usable as the default of a declared stack slot.
pub enum LiteralExpression {
    NumberLiteral(i64),
    BooleanLiteral(bool),
    StringLiteral(String),
}

/// A unary arithmetic expression on its own, mirroring the corresponding
/// `Expression` variant.
pub struct UnaryMathExpression {
    pub loc: Location,
    pub operand: Box<Expression>,
    pub op: UnaryMathOp,
}

/// A binary arithmetic expression on its own, mirroring the corresponding
/// `Expression` variant.
pub struct BinaryMathExpression {
    pub loc: Location,
    pub lhs: Box<Expression>,
    pub op: BinaryMathOp,
    pub rhs: Box<Expression>,
}

/// A comparison expression on its own, mirroring the corresponding
/// `Expression` variant.
pub struct CompareExpression {
    pub loc: Location,
    pub lhs: Box<Expression>,
    pub op: BinaryCompareOp,
    pub rhs: Box<Expression>,
}

/// A signature-check expression on its own, mirroring the corresponding
/// `Expression` variant.
pub struct CheckSigExpression {
    pub loc: Location,
    pub op: CheckSigOp,
    pub operand: Box<Factor>,
}

/// A cryptographic hash expression on its own, mirroring the corresponding
/// `Expression` variant.
pub struct UnaryCryptoExpression {
    pub loc: Location,
    pub operand: Box<Expression>,
    pub op: UnaryCryptoOp,
}

/// A byte-length expression on its own, mirroring the corresponding
/// `Expression` variant.
pub struct ByteExpression {
    pub loc: Location,
    pub operand: Box<Expression>,
    pub op: ByteOp,
}

#[derive(Clone, Copy, PartialEq, Eq, Structural)]
pub enum BinaryLogicalOp {
    BoolOr,
    BoolAnd,
}

#[derive(Clone, Copy, PartialEq, Eq, Structural)]
pub enum BinaryCompareOp {
    Equal,
    NotEqual,
    Greater,
    GreaterOrEqual,
    Less,
    LessOrEqual,
    NumEqual,
    NumNotEqual,
}

#[derive(Clone, Copy, PartialEq, Eq, Structural)]
pub enum BinaryMathOp {
    Add,
    Sub,
    Max,
    Min,
}

#[derive(Clone, Copy, PartialEq, Eq, Structural)]
pub enum UnaryMathOp {
    Add,
    Sub,
    Negate,
    Abs,
    Not,
}

#[derive(Clone, Copy, PartialEq, Eq, Structural)]
pub enum CheckSigOp {
    CheckSig,
}

#[derive(Clone, Copy, PartialEq, Eq, Structural)]
pub enum UnaryCryptoOp {
    Sha256,
    Ripemd160,
}

#[derive(Clone, Copy, PartialEq, Eq, Structural)]
pub enum ByteOp {
    Size,
}

#[derive(Clone, Copy, PartialEq, Eq, Structural)]
pub enum LocktimeOp {
    Cltv,
    Csv,
}

/// The operand of a signature-check expression: a single `(sig, pubkey)`
/// pair, or an m-of-n list whose elements are themselves factors.
pub enum Factor {
    SingleSigFactor {
        loc: Location,
        sig: Box<Expression>,
        pubkey: Box<Expression>,
    },
    MultiSigFactor {
        loc: Location,
        m: u32,
        n: Vec<Factor>,
    },
}

/// A single `(sig, pubkey)` pair on its own, mirroring the corresponding
/// `Factor` variant.
pub struct SingleSigFactor {
    pub loc: Location,
    pub sig: Box<Expression>,
    pub pubkey: Box<Expression>,
}

/// An m-of-n multisig list on its own, mirroring the corresponding
/// `Factor` variant.
pub struct MultiSigFactor {
    pub loc: Location,
    pub m: u32,
    pub n: Vec<Factor>,
}

/// The source span a statement carries.
pub open spec fn stmt_loc(s: Statement) -> Location {
    match s {
        Statement::IfStatement { loc, .. } => loc,
        Statement::LocktimeStatement { loc, .. } => loc,
        Statement::VerifyStatement(loc, _) => loc,
        Statement::ExpressionStatement(loc, _) => loc,
    }
}

/// The source span an expression carries.
pub open spec fn expr_loc(e: Expression) -> Location {
    match e {
        Expression::Variable(loc, _) => loc,
        Expression::NumberLiteral(loc, _) => loc,
        Expression::BooleanLiteral(loc, _) => loc,
        Expression::StringLiteral(loc, _) => loc,
        Expression::LogicalExpression { loc, .. } => loc,
        Expression::CompareExpression { loc, .. } => loc,
        Expression::UnaryMathExpression { loc, .. } => loc,
        Expression::BinaryMathExpression { loc, .. } => loc,
        Expression::UnaryCryptoExpression { loc, .. } => loc,
        Expression::CheckSigExpression { loc, .. } => loc,
        Expression::ByteExpression { loc, .. } => loc,
    }
}

} // verus!
