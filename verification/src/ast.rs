//! The syntax tree that the evaluator walks. It is built elsewhere and only
//! ever borrowed here.
use vstd::prelude::*;

verus! {

/// An expression, boxed where the tree nests.
pub type Exp = Box<Exp_>;

/// A statement, boxed where the tree nests.
pub type Stat = Box<Stat_>;

/// The place that an assignment writes to, or that a variable expression reads.
#[derive(Debug)]
pub enum Var {
    /// A plain name.
    Name(String),
    /// An indexed table access `t[k]`.
    IndexTable(Exp, Exp),
}

/// A call: the callee expression and the argument expressions, in order.
#[derive(Debug)]
pub struct FunctionCall(pub Exp, pub Vec<Exp_>);

/// A function literal: the parameter names and the body.
#[derive(Debug)]
pub struct FunctionBody(pub Vec<String>, pub Block);

/// Binary operators.
#[derive(Debug, Clone, Copy)]
pub enum BinOp {
    Addition,
    Subtraction,
    Multiplication,
    Equality,
    Inequality,
    Less,
    Greater,
    LessEq,
    GreaterEq,
    LogicalAnd,
    LogicalOr,
}

/// Unary operators.
#[derive(Debug, Clone, Copy)]
pub enum UnOp {
    UnaryMinus,
    Not,
}

/// Statements.
#[derive(Debug)]
pub enum Stat_ {
    Nop,
    Sequence(Stat, Stat),
    Assign(Var, Exp),
    StatFunctionCall(FunctionCall),
    WhileDoEnd(Exp, Block),
    If(Exp, Block, Block),
}

/// A scope: the names it declares, its statements, and the expression whose
/// value the block yields.
#[derive(Debug)]
pub struct Block {
    pub locals: Vec<String>,
    pub body: Stat,
    pub ret: Exp,
}

/// Expressions. A number literal holds the bits of an IEEE-754 double.
#[derive(Debug)]
pub enum Exp_ {
    Nil,
    False,
    True,
    Number(u64),
    LiteralString(String),
    Var(Var),
    ExpFunctionCall(FunctionCall),
    FunctionDef(FunctionBody),
    BinOp(BinOp, Exp, Exp),
    UnOp(UnOp, Exp),
    Table(Vec<(Exp_, Exp_)>),
}

} // verus!
