//! Three-address code: a flat instruction list per function, with explicit
//! labels and jumps.
use vstd::prelude::*;

verus! {

#[derive(Debug, Clone, Copy, PartialEq, Eq, Structural)]
pub enum UnaryOperator {
    Complement,
    Negate,
    Not,
}

#[derive(Debug, Clone, Copy, PartialEq, Eq, Structural)]
pub enum BinaryOperator {
    Add,
    Subtract,
    Multiply,
    Divide,
    Remainder,
    Equal,
    NotEqual,
    LessThan,
    LessOrEqual,
    GreaterThan,
    GreaterEqual,
}

/// A constant or a temporary (or renamed variable).
#[derive(Debug, Clone)]
pub enum Val {
    Constant(i32),
    Var(String),
}

#[derive(Debug, Clone)]
pub enum Instruction {
    Return(Val),
    Unary { op: UnaryOperator, src: Val, dst: Val },
    Binary { op: BinaryOperator, src1: Val, src2: Val, dst: Val },
    Copy { src: Val, dst: Val },
    Jump(String),
    JumpIfZero { condition: Val, target: String },
    JumpIfNotZero { condition: Val, target: String },
    Label(String),
    FunCall { name: String, args: Vec<Val>, dst: Val },
}

#[derive(Debug)]
pub struct Function {
    pub name: String,
    pub params: Vec<String>,
    pub body: Vec<Instruction>,
}

#[derive(Debug)]
pub struct Program {
    pub functions: Vec<Function>,
}

} // verus!
