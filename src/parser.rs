//! Builds the syntax tree from tokens by recursive descent, with precedence
//! climbing for binary operators.
use vstd::prelude::*;
use vstd::string::*;

use crate::ast::unchecked::{
    BinaryOperator, Block, BlockItem, Declaration, Expression, Program, Statement, UnaryOperator,
};
use crate::common::decimal_string;
use crate::lexer::{Token, TokenType};

verus! {

/// A number for each kind of token; identifiers and constants share one per kind.
pub open spec fn kind(t: TokenType) -> nat {
    match t {
        TokenType::OpenParen => 0,
        TokenType::CloseParen => 1,
        TokenType::OpenBrace => 2,
        TokenType::CloseBrace => 3,
        TokenType::Semicolon => 4,
        TokenType::Minus => 5,
        TokenType::Tilde => 6,
        TokenType::Decrement => 7,
        TokenType::Plus => 8,
        TokenType::Asterisk => 9,
        TokenType::Slash => 10,
        TokenType::Percent => 11,
        TokenType::QuestionMark => 12,
        TokenType::Colon => 13,
        TokenType::Not => 14,
        TokenType::And => 15,
        TokenType::Or => 16,
        TokenType::Equal => 17,
        TokenType::NotEqual => 18,
        TokenType::Less => 19,
        TokenType::LessEqual => 20,
        TokenType::Greater => 21,
        TokenType::GreaterEqual => 22,
        TokenType::Assign => 23,
        TokenType::Comma => 24,
        TokenType::KeywordInt => 25,
        TokenType::KeywordVoid => 26,
        TokenType::KeywordReturn => 27,
        TokenType::KeywordIf => 28,
        TokenType::KeywordElse => 29,
        TokenType::KeywordDo => 30,
        TokenType::KeywordWhile => 31,
        TokenType::KeywordFor => 32,
        TokenType::KeywordBreak => 33,
        TokenType::KeywordContinue => 34,
        TokenType::Identifier(_) => 35,
        TokenType::IntegerConstant(_) => 36,
    }
}

fn kind_of(t: &TokenType) -> (r: u8)
    ensures
        r as nat == kind(*t),
{
    match t {
        TokenType::OpenParen => 0,
        TokenType::CloseParen => 1,
        TokenType::OpenBrace => 2,
        TokenType::CloseBrace => 3,
        TokenType::Semicolon => 4,
        TokenType::Minus => 5,
        TokenType::Tilde => 6,
        TokenType::Decrement => 7,
        TokenType::Plus => 8,
        TokenType::Asterisk => 9,
        TokenType::Slash => 10,
        TokenType::Percent => 11,
        TokenType::QuestionMark => 12,
        TokenType::Colon => 13,
        TokenType::Not => 14,
        TokenType::And => 15,
        TokenType::Or => 16,
        TokenType::Equal => 17,
        TokenType::NotEqual => 18,
        TokenType::Less => 19,
        TokenType::LessEqual => 20,
        TokenType::Greater => 21,
        TokenType::GreaterEqual => 22,
        TokenType::Assign => 23,
        TokenType::Comma => 24,
        TokenType::KeywordInt => 25,
        TokenType::KeywordVoid => 26,
        TokenType::KeywordReturn => 27,
        TokenType::KeywordIf => 28,
        TokenType::KeywordElse => 29,
        TokenType::KeywordDo => 30,
        TokenType::KeywordWhile => 31,
        TokenType::KeywordFor => 32,
        TokenType::KeywordBreak => 33,
        TokenType::KeywordContinue => 34,
        TokenType::Identifier(_) => 35,
        TokenType::IntegerConstant(_) => 36,
    }
}

/// How a token reads in a diagnostic.
fn describe(t: &TokenType) -> String {
    match t {
        TokenType::OpenParen => String::from_str("'('"),
        TokenType::CloseParen => String::from_str("')'"),
        TokenType::OpenBrace => String::from_str("'{'"),
        TokenType::CloseBrace => String::from_str("'}'"),
        TokenType::Semicolon => String::from_str("';'"),
        TokenType::Minus => String::from_str("'-'"),
        TokenType::Tilde => String::from_str("'~'"),
        TokenType::Decrement => String::from_str("'--'"),
        TokenType::Plus => String::from_str("'+'"),
        TokenType::Asterisk => String::from_str("'*'"),
        TokenType::Slash => String::from_str("'/'"),
        TokenType::Percent => String::from_str("'%'"),
        TokenType::QuestionMark => String::from_str("'?'"),
        TokenType::Colon => String::from_str("':'"),
        TokenType::Not => String::from_str("'!'"),
        TokenType::And => String::from_str("'&&'"),
        TokenType::Or => String::from_str("'||'"),
        TokenType::Equal => String::from_str("'=='"),
        TokenType::NotEqual => String::from_str("'!='"),
        TokenType::Less => String::from_str("'<'"),
        TokenType::LessEqual => String::from_str("'<='"),
        TokenType::Greater => String::from_str("'>'"),
        TokenType::GreaterEqual => String::from_str("'>='"),
        TokenType::Assign => String::from_str("'='"),
        TokenType::Comma => String::from_str("','"),
        TokenType::KeywordInt => String::from_str("'int'"),
        TokenType::KeywordVoid => String::from_str("'void'"),
        TokenType::KeywordReturn => String::from_str("'return'"),
        TokenType::KeywordIf => String::from_str("'if'"),
        TokenType::KeywordElse => String::from_str("'else'"),
        TokenType::KeywordDo => String::from_str("'do'"),
        TokenType::KeywordWhile => String::from_str("'while'"),
        TokenType::KeywordFor => String::from_str("'for'"),
        TokenType::KeywordBreak => String::from_str("'break'"),
        TokenType::KeywordContinue => String::from_str("'continue'"),
        TokenType::Identifier(name) => {
            let mut s = String::from_str("identifier '");
            s.append(name.as_str());
            s.append("'");
            s
        },
        TokenType::IntegerConstant(_) => String::from_str("a constant"),
    }
}

/// The binding strength of a binary operator token, 0 for other tokens.
fn get_precedence(t: &TokenType) -> (r: u8)
    ensures
        r <= 50,
{
    match t {
        TokenType::Assign => 1,
        TokenType::QuestionMark => 3,
        TokenType::Or => 5,
        TokenType::And => 10,
        TokenType::Equal | TokenType::NotEqual => 30,
        TokenType::Less | TokenType::LessEqual | TokenType::Greater | TokenType::GreaterEqual => 35,
        TokenType::Plus | TokenType::Minus => 45,
        TokenType::Asterisk | TokenType::Slash | TokenType::Percent => 50,
        _ => 0,
    }
}

fn token_to_binary_operator(t: &TokenType) -> (r: Option<BinaryOperator>) {
    match t {
        TokenType::Plus => Some(BinaryOperator::Add),
        TokenType::Minus => Some(BinaryOperator::Subtract),
        TokenType::Asterisk => Some(BinaryOperator::Multiply),
        TokenType::Slash => Some(BinaryOperator::Divide),
        TokenType::Percent => Some(BinaryOperator::Remainder),
        TokenType::And => Some(BinaryOperator::And),
        TokenType::Or => Some(BinaryOperator::Or),
        TokenType::Equal => Some(BinaryOperator::Equal),
        TokenType::NotEqual => Some(BinaryOperator::NotEqual),
        TokenType::Less => Some(BinaryOperator::LessThan),
        TokenType::LessEqual => Some(BinaryOperator::LessOrEqual),
        TokenType::Greater => Some(BinaryOperator::GreaterThan),
        TokenType::GreaterEqual => Some(BinaryOperator::GreaterOrEqual),
        _ => None,
    }
}

fn token_to_unary_operator(t: &TokenType) -> (r: Option<UnaryOperator>) {
    match t {
        TokenType::Minus => Some(UnaryOperator::Negate),
        TokenType::Tilde => Some(UnaryOperator::Complement),
        TokenType::Not => Some(UnaryOperator::Not),
        _ => None,
    }
}

/// A cursor over a token list.
pub struct Parser<'a> {
    tokens: &'a [Token],
    position: usize,
}

impl<'a> Parser<'a> {
    pub closed spec fn wf(&self) -> bool {
        self.position <= self.tokens@.len()
    }

    /// Tokens not consumed yet.
    pub closed spec fn left(&self) -> nat {
        (self.tokens@.len() - self.position) as nat
    }

    pub closed spec fn input(&self) -> Seq<Token> {
        self.tokens@
    }

    pub fn new(tokens: &'a [Token]) -> (r: Self)
        ensures
            r.wf(),
            r.left() == tokens@.len(),
            r.input() == tokens@,
    {
        Parser { tokens, position: 0 }
    }

    /// The kind of the current token, if any.
    fn peek_kind(&self) -> (r: Option<u8>)
        requires
            self.wf(),
        ensures
            r is None <==> self.left() == 0,
            r matches Some(k) ==> k as nat == kind(self.tokens@[self.position as int].token_type),
    {
        if self.position < self.tokens.len() {
            Some(kind_of(&self.tokens[self.position].token_type))
        } else {
            None
        }
    }

    /// Whether the current token is of the kind of `t`.
    fn at(&self, t: &TokenType) -> (r: bool)
        requires
            self.wf(),
        ensures
            r ==> self.left() > 0,
    {
        match self.peek_kind() {
            Some(k) => k == kind_of(t),
            None => false,
        }
    }

    /// Whether the token after the current one is of the kind of `t`.
    fn at_next(&self, t: TokenType) -> (r: bool)
        requires
            self.wf(),
        ensures
            r ==> self.left() > 1,
    {
        if self.tokens.len() > 0 && self.position < self.tokens.len() - 1 {
            kind_of(&self.tokens[self.position + 1].token_type) == kind_of(&t)
        } else {
            false
        }
    }

    fn consume(&mut self)
        requires
            old(self).wf(),
            old(self).left() > 0,
        ensures
            final(self).wf(),
            final(self).input() == old(self).input(),
            final(self).position == old(self).position + 1,
            final(self).left() == old(self).left() - 1,
    {
        let n = self.tokens.len();
        self.position = self.position + 1;
    }

    /// Consumes a token of the kind of `expected`, or reports what stands there.
    fn expect_token(&mut self, expected: TokenType) -> (r: Result<(), String>)
        requires
            old(self).wf(),
        ensures
            final(self).wf(),
            final(self).input() == old(self).input(),
            r is Ok ==> final(self).left() + 1 == old(self).left(),
            r is Err ==> final(self).left() == old(self).left(),
    {
        if self.at(&expected) {
            self.consume();
            Ok(())
        } else {
            let mut s = String::from_str("Expected ");
            let e = describe(&expected);
            s.append(e.as_str());
            if self.position < self.tokens.len() {
                s.append(", but found ");
                let f = describe(&self.tokens[self.position].token_type);
                s.append(f.as_str());
                s.append(" on line ");
                let n = decimal_string(self.tokens[self.position].line);
                s.append(n.as_str());
            } else {
                s.append(", but found end of input.");
            }
            Err(s)
        }
    }

    fn expect_identifier(&mut self) -> (r: Result<String, String>)
        requires
            old(self).wf(),
        ensures
            final(self).wf(),
            final(self).input() == old(self).input(),
            r is Ok ==> final(self).left() + 1 == old(self).left(),
            r is Err ==> final(self).left() == old(self).left(),
    {
        if self.position < self.tokens.len() {
            match &self.tokens[self.position].token_type {
                TokenType::Identifier(name) => {
                    let n = name.clone();
                    self.consume();
                    Ok(n)
                },
                other => {
                    let mut s = String::from_str("Expected an identifier, but found ");
                    let f = describe(other);
                    s.append(f.as_str());
                    Err(s)
                },
            }
        } else {
            Err(String::from_str("Expected an identifier, but found end of input."))
        }
    }

    // Grammar

    /// <program> ::= {<declaration>}
    pub fn parse(&mut self) -> (r: Result<Program, String>)
        requires
            old(self).wf(),
        ensures
            final(self).wf(),
            r is Ok ==> final(self).left() == 0,
    {
        let mut declarations: Vec<Declaration> = Vec::new();
        while self.position < self.tokens.len()
            invariant
                self.wf(),
            decreases self.left(),
        {
            declarations.push(self.parse_declaration()?);
        }
        Ok(Program { declarations })
    }

    /// <declaration> ::= "int" <identifier> ( <function-rest> | <variable-rest> )
    fn parse_declaration(&mut self) -> (r: Result<Declaration, String>)
        requires
            old(self).wf(),
        ensures
            final(self).wf(),
            final(self).input() == old(self).input(),
            final(self).left() <= old(self).left(),
            r is Ok ==> final(self).left() < old(self).left(),
        decreases old(self).left(), 11nat,
    {
        self.expect_token(TokenType::KeywordInt)?;
        let name = self.expect_identifier()?;
        if self.at(&TokenType::OpenParen) {
            self.parse_function_declaration(name)
        } else {
            self.parse_variable_declaration(name)
        }
    }

    /// <function-rest> ::= "(" <param-list> ")" ( <block> | ";" )
    fn parse_function_declaration(&mut self, name: String) -> (r: Result<Declaration, String>)
        requires
            old(self).wf(),
        ensures
            final(self).wf(),
            final(self).input() == old(self).input(),
            final(self).left() <= old(self).left(),
            r is Ok ==> final(self).left() < old(self).left(),
        decreases old(self).left(), 1nat,
    {
        self.expect_token(TokenType::OpenParen)?;
        let params = self.parse_param_list()?;
        self.expect_token(TokenType::CloseParen)?;
        let body = if self.at(&TokenType::OpenBrace) {
            Some(self.parse_block()?)
        } else {
            self.expect_token(TokenType::Semicolon)?;
            None
        };
        Ok(Declaration::Function { name, params, body })
    }

    /// <variable-rest> ::= [ "=" <expression> ] ";"
    fn parse_variable_declaration(&mut self, name: String) -> (r: Result<Declaration, String>)
        requires
            old(self).wf(),
        ensures
            final(self).wf(),
            final(self).input() == old(self).input(),
            final(self).left() <= old(self).left(),
            r is Ok ==> final(self).left() < old(self).left(),
        decreases old(self).left(), 1nat,
    {
        let init = if self.at(&TokenType::Assign) {
            self.consume();
            Some(self.parse_expression(0)?)
        } else {
            None
        };
        self.expect_token(TokenType::Semicolon)?;
        Ok(Declaration::Variable { name, init })
    }

    /// <block> ::= "{" {<block-item>} "}"
    fn parse_block(&mut self) -> (r: Result<Block, String>)
        requires
            old(self).wf(),
        ensures
            final(self).wf(),
            final(self).input() == old(self).input(),
            final(self).left() <= old(self).left(),
            r is Ok ==> final(self).left() < old(self).left(),
        decreases old(self).left(), 10nat,
    {
        self.expect_token(TokenType::OpenBrace)?;
        let mut items: Vec<BlockItem> = Vec::new();
        while self.position < self.tokens.len() && !self.at(&TokenType::CloseBrace)
            invariant
                self.wf(),
                self.input() == old(self).input(),
                self.left() < old(self).left(),
            decreases self.left(),
        {
            items.push(self.parse_block_item()?);
        }
        self.expect_token(TokenType::CloseBrace)?;
        Ok(Block { blocks: items })
    }

    /// <block-item> ::= <declaration> | <statement>
    fn parse_block_item(&mut self) -> (r: Result<BlockItem, String>)
        requires
            old(self).wf(),
        ensures
            final(self).wf(),
            final(self).input() == old(self).input(),
            final(self).left() <= old(self).left(),
            r is Ok ==> final(self).left() < old(self).left(),
        decreases old(self).left(), 12nat,
    {
        if self.at(&TokenType::KeywordInt) {
            Ok(BlockItem::D(self.parse_declaration()?))
        } else {
            Ok(BlockItem::S(self.parse_statement()?))
        }
    }

    /// <statement> ::= <if> | <for> | <while> | <do-while> | "return" <expression> ";"
    ///               | "break" ";" | "continue" ";" | <block> | ";" | <expression> ";"
    fn parse_statement(&mut self) -> (r: Result<Statement, String>)
        requires
            old(self).wf(),
        ensures
            final(self).wf(),
            final(self).input() == old(self).input(),
            final(self).left() <= old(self).left(),
            r is Ok ==> final(self).left() < old(self).left(),
        decreases old(self).left(), 11nat,
    {
        if self.position >= self.tokens.len() {
            return Err(String::from_str("Expected a statement, but found end of input."));
        }
        if self.at(&TokenType::KeywordIf) {
            self.parse_if_statement()
        } else if self.at(&TokenType::KeywordFor) {
            self.parse_for_statement()
        } else if self.at(&TokenType::KeywordWhile) {
            self.parse_while_statement()
        } else if self.at(&TokenType::KeywordDo) {
            self.parse_do_while_statement()
        } else if self.at(&TokenType::KeywordReturn) {
            self.consume();
            let exp = self.parse_expression(0)?;
            self.expect_token(TokenType::Semicolon)?;
            Ok(Statement::Return(exp))
        } else if self.at(&TokenType::KeywordBreak) {
            self.consume();
            self.expect_token(TokenType::Semicolon)?;
            Ok(Statement::Break)
        } else if self.at(&TokenType::KeywordContinue) {
            self.consume();
            self.expect_token(TokenType::Semicolon)?;
            Ok(Statement::Continue)
        } else if self.at(&TokenType::OpenBrace) {
            Ok(Statement::Compound(self.parse_block()?))
        } else if self.at(&TokenType::Semicolon) {
            self.consume();
            Ok(Statement::Empty)
        } else {
            let exp = self.parse_expression(0)?;
            self.expect_token(TokenType::Semicolon)?;
            Ok(Statement::Expression(exp))
        }
    }

    /// <if> ::= "if" "(" <expression> ")" <statement> [ "else" <statement> ]
    fn parse_if_statement(&mut self) -> (r: Result<Statement, String>)
        requires
            old(self).wf(),
        ensures
            final(self).wf(),
            final(self).input() == old(self).input(),
            final(self).left() <= old(self).left(),
            r is Ok ==> final(self).left() < old(self).left(),
        decreases old(self).left(), 10nat,
    {
        self.expect_token(TokenType::KeywordIf)?;
        self.expect_token(TokenType::OpenParen)?;
        let condition = self.parse_expression(0)?;
        self.expect_token(TokenType::CloseParen)?;
        let then_stat = Box::new(self.parse_statement()?);
        let else_stat = if self.at(&TokenType::KeywordElse) {
            self.consume();
            Some(Box::new(self.parse_statement()?))
        } else {
            None
        };
        Ok(Statement::If { condition, then_stat, else_stat })
    }

    /// <for> ::= "for" "(" ( <declaration> | [<expression>] ";" ) [<expression>] ";"
    ///           [<expression>] ")" <statement>
    fn parse_for_statement(&mut self) -> (r: Result<Statement, String>)
        requires
            old(self).wf(),
        ensures
            final(self).wf(),
            final(self).input() == old(self).input(),
            final(self).left() <= old(self).left(),
            r is Ok ==> final(self).left() < old(self).left(),
        decreases old(self).left(), 10nat,
    {
        self.expect_token(TokenType::KeywordFor)?;
        self.expect_token(TokenType::OpenParen)?;
        let init = if self.at(&TokenType::KeywordInt) {
            let decl = self.parse_declaration()?;
            if let Declaration::Function { .. } = &decl {
                return Err(
                    String::from_str("Function declarations are not permitted in for loop initializers."),
                );
            }
            Some(Box::new(BlockItem::D(decl)))
        } else if self.at(&TokenType::Semicolon) {
            self.consume();
            None
        } else {
            let expr = self.parse_expression(0)?;
            self.expect_token(TokenType::Semicolon)?;
            Some(Box::new(BlockItem::S(Statement::Expression(expr))))
        };
        let condition = if self.at(&TokenType::Semicolon) {
            None
        } else {
            Some(self.parse_expression(0)?)
        };
        self.expect_token(TokenType::Semicolon)?;
        let post = if self.at(&TokenType::CloseParen) {
            None
        } else {
            Some(self.parse_expression(0)?)
        };
        self.expect_token(TokenType::CloseParen)?;
        let body = Box::new(self.parse_statement()?);
        Ok(Statement::For { init, condition, post, body })
    }

    /// <while> ::= "while" "(" <expression> ")" <statement>
    fn parse_while_statement(&mut self) -> (r: Result<Statement, String>)
        requires
            old(self).wf(),
        ensures
            final(self).wf(),
            final(self).input() == old(self).input(),
            final(self).left() <= old(self).left(),
            r is Ok ==> final(self).left() < old(self).left(),
        decreases old(self).left(), 10nat,
    {
        self.expect_token(TokenType::KeywordWhile)?;
        self.expect_token(TokenType::OpenParen)?;
        let condition = self.parse_expression(0)?;
        self.expect_token(TokenType::CloseParen)?;
        let body = Box::new(self.parse_statement()?);
        Ok(Statement::While { condition, body })
    }

    /// <do-while> ::= "do" <statement> "while" "(" <expression> ")" ";"
    fn parse_do_while_statement(&mut self) -> (r: Result<Statement, String>)
        requires
            old(self).wf(),
        ensures
            final(self).wf(),
            final(self).input() == old(self).input(),
            final(self).left() <= old(self).left(),
            r is Ok ==> final(self).left() < old(self).left(),
        decreases old(self).left(), 10nat,
    {
        self.expect_token(TokenType::KeywordDo)?;
        let body = Box::new(self.parse_statement()?);
        self.expect_token(TokenType::KeywordWhile)?;
        self.expect_token(TokenType::OpenParen)?;
        let condition = self.parse_expression(0)?;
        self.expect_token(TokenType::CloseParen)?;
        self.expect_token(TokenType::Semicolon)?;
        Ok(Statement::DoWhile { body, condition })
    }

    /// Precedence climbing: parses a factor, then every following binary
    /// operator that binds at least as tightly as `min_precedence`.
    /// Assignment and `?:` associate to the right, the others to the left.
    fn parse_expression(&mut self, min_precedence: u8) -> (r: Result<Expression, String>)
        requires
            old(self).wf(),
        ensures
            final(self).wf(),
            final(self).input() == old(self).input(),
            final(self).left() <= old(self).left(),
            r is Ok ==> final(self).left() < old(self).left(),
        decreases old(self).left(), 3nat,
    {
        let mut left = self.parse_factor()?;
        while self.position < self.tokens.len()
            invariant
                self.wf(),
                self.input() == old(self).input(),
                self.left() < old(self).left(),
            decreases self.left(),
        {
            let op_token = &self.tokens[self.position].token_type;
            let precedence = get_precedence(op_token);
            if precedence == 0 || precedence < min_precedence {
                break;
            }
            let is_question = kind_of(op_token) == kind_of(&TokenType::QuestionMark);
            let is_assign = kind_of(op_token) == kind_of(&TokenType::Assign);
            let binary = token_to_binary_operator(op_token);
            self.consume();
            if is_question {
                let then_branch = self.parse_expression(0)?;
                self.expect_token(TokenType::Colon)?;
                let else_branch = self.parse_expression(precedence)?;
                left = Expression::Conditional {
                    condition: Box::new(left),
                    left: Box::new(then_branch),
                    right: Box::new(else_branch),
                };
            } else if is_assign {
                let right = self.parse_expression(precedence)?;
                left = Expression::Assign { left: Box::new(left), right: Box::new(right) };
            } else {
                let right = self.parse_expression(precedence + 1)?;
                match binary {
                    Some(operator) => {
                        left = Expression::Binary { operator, left: Box::new(left), right: Box::new(right) };
                    },
                    None => {
                        return Err(String::from_str("Not a binary operator"));
                    },
                }
            }
        }
        Ok(left)
    }

    /// <factor> ::= <int> | <identifier> [ "(" <argument-list> ")" ] | <unop> <factor>
    ///            | "(" <expression> ")"
    fn parse_factor(&mut self) -> (r: Result<Expression, String>)
        requires
            old(self).wf(),
        ensures
            final(self).wf(),
            final(self).input() == old(self).input(),
            final(self).left() <= old(self).left(),
            r is Ok ==> final(self).left() < old(self).left(),
        decreases old(self).left(), 2nat,
    {
        if self.position >= self.tokens.len() {
            return Err(String::from_str("Unexpected end of input, expected a factor."));
        }
        let next = &self.tokens[self.position].token_type;
        match next {
            TokenType::IntegerConstant(val) => {
                let v = *val;
                self.consume();
                Ok(Expression::Constant(v))
            },
            TokenType::Identifier(name) => {
                let name = name.clone();
                if self.at_next(TokenType::OpenParen) {
                    self.consume();
                    self.consume();
                    let args = self.parse_argument_list()?;
                    self.expect_token(TokenType::CloseParen)?;
                    Ok(Expression::FunctionCall { name, args })
                } else {
                    self.consume();
                    Ok(Expression::Var(name))
                }
            },
            TokenType::Minus | TokenType::Tilde | TokenType::Not => {
                let operator = match token_to_unary_operator(next) {
                    Some(op) => op,
                    None => UnaryOperator::Negate,
                };
                self.consume();
                let expression = self.parse_factor()?;
                Ok(Expression::Unary { operator, expression: Box::new(expression) })
            },
            TokenType::OpenParen => {
                self.consume();
                let inner = self.parse_expression(0)?;
                self.expect_token(TokenType::CloseParen)?;
                Ok(inner)
            },
            _ => {
                let mut s = String::from_str("Unexpected token ");
                let d = describe(next);
                s.append(d.as_str());
                s.append(", expected a factor.");
                Err(s)
            },
        }
    }

    /// <param-list> ::= "void" | [ "int" <identifier> { "," "int" <identifier> } ]
    fn parse_param_list(&mut self) -> (r: Result<Vec<String>, String>)
        requires
            old(self).wf(),
        ensures
            final(self).wf(),
            final(self).input() == old(self).input(),
            final(self).left() <= old(self).left(),
        decreases old(self).left(), 0nat,
    {
        if self.at(&TokenType::KeywordVoid) {
            self.consume();
            if !self.at(&TokenType::CloseParen) {
                return Err(String::from_str("Expected ')' after 'void' in parameter list."));
            }
            return Ok(Vec::new());
        }
        if self.at(&TokenType::CloseParen) {
            return Ok(Vec::new());
        }
        let mut params: Vec<String> = Vec::new();
        self.expect_token(TokenType::KeywordInt)?;
        params.push(self.expect_identifier()?);
        while self.at(&TokenType::Comma)
            invariant
                self.wf(),
                self.input() == old(self).input(),
                self.left() <= old(self).left(),
            decreases self.left(),
        {
            self.consume();
            self.expect_token(TokenType::KeywordInt)?;
            params.push(self.expect_identifier()?);
        }
        Ok(params)
    }

    /// <argument-list> ::= [ <expression> { "," <expression> } ]
    fn parse_argument_list(&mut self) -> (r: Result<Vec<Expression>, String>)
        requires
            old(self).wf(),
        ensures
            final(self).wf(),
            final(self).input() == old(self).input(),
            final(self).left() <= old(self).left(),
        decreases old(self).left(), 4nat,
    {
        if self.at(&TokenType::CloseParen) {
            return Ok(Vec::new());
        }
        let mut args: Vec<Expression> = Vec::new();
        args.push(self.parse_expression(0)?);
        while self.at(&TokenType::Comma)
            invariant
                self.wf(),
                self.input() == old(self).input(),
                self.left() <= old(self).left(),
            decreases self.left(),
        {
            self.consume();
            args.push(self.parse_expression(0)?);
        }
        Ok(args)
    }
}

} // verus!
