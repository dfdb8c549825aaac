use vstd::prelude::*;

verus! {

#[derive(Debug, PartialEq)]
pub struct Program {
    pub declarations: Vec<Declaration>,
}

#[derive(Debug, PartialEq)]
pub enum Declaration {
    /// A function prototype (`body` is `None`) or definition.
    Function { name: String, params: Vec<String>, body: Option<Block> },
    Variable { name: String, init: Option<Expression> },
}

#[derive(Debug, PartialEq)]
pub struct Block {
    pub blocks: Vec<BlockItem>,
}

#[derive(Debug, PartialEq)]
pub enum BlockItem {
    S(Statement),
    D(Declaration),
}

#[derive(Debug, PartialEq)]
pub enum Statement {
    Return(Expression),
    Expression(Expression),
    Empty,
    If { condition: Expression, then_stat: Box<Statement>, else_stat: Option<Box<Statement>> },
    Compound(Block),
    While { condition: Expression, body: Box<Statement> },
    DoWhile { body: Box<Statement>, condition: Expression },
    For {
        init: Option<Box<BlockItem>>,
        condition: Option<Expression>,
        post: Option<Expression>,
        body: Box<Statement>,
    },
    Break,
    Continue,
}

#[derive(Debug, PartialEq, Clone, Copy)]
pub enum UnaryOperator {
    Negate,
    Complement,
    Not,
}

#[derive(Debug, PartialEq, Clone, Copy)]
pub enum BinaryOperator {
    Add,
    Subtract,
    Multiply,
    Divide,
    Remainder,
    And,
    Or,
    Equal,
    NotEqual,
    LessThan,
    LessOrEqual,
    GreaterThan,
    GreaterOrEqual,
}

#[derive(Debug, PartialEq)]
pub enum Expression {
    Constant(i32),
    Unary { operator: UnaryOperator, expression: Box<Expression> },
    Binary { operator: BinaryOperator, left: Box<Expression>, right: Box<Expression> },
    Var(String),
    Assign { left: Box<Expression>, right: Box<Expression> },
    Conditional { condition: Box<Expression>, left: Box<Expression>, right: Box<Expression> },
    FunctionCall { name: String, args: Vec<Expression> },
}

} // verus!
