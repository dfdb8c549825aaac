use vstd::prelude::*;

pub use super::unchecked::{BinaryOperator, Expression, UnaryOperator};

verus! {

pub type LoopId = usize;

#[derive(Debug, PartialEq)]
pub struct Program {
    pub declarations: Vec<Declaration>,
}

#[derive(Debug, PartialEq)]
pub enum Declaration {
    Function { name: String, params: Vec<String>, body: Option<Block> },
    Variable { name: String, init: Option<Expression> },
}

#[derive(Debug, PartialEq)]
pub struct Block {
    pub blocks: Vec<BlockItem>,
}

#[derive(Debug, PartialEq)]
pub enum BlockItem {
    S(Statement),
    D(Declaration),
}

/// A statement whose loops carry an id and whose jumps name the loop they leave
/// or restart.
#[derive(Debug, PartialEq)]
pub enum Statement {
    Return(Expression),
    Expression(Expression),
    Empty,
    If { condition: Expression, then_stat: Box<Statement>, else_stat: Option<Box<Statement>> },
    Compound(Block),
    While { condition: Expression, body: Box<Statement>, id: LoopId },
    DoWhile { body: Box<Statement>, condition: Expression, id: LoopId },
    For {
        init: Option<Box<BlockItem>>,
        condition: Option<Expression>,
        post: Option<Expression>,
        body: Box<Statement>,
        id: LoopId,
    },
    Break { target_id: LoopId },
    Continue { target_id: LoopId },
}

} // verus!
