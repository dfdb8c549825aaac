use std::collections::HashMap;

use my_c_compiler::ast::checked;
use my_c_compiler::ast::unchecked::{BlockItem, Declaration, Expression, Statement};
use my_c_compiler::backend::asm_gen::AsmGenerator;
use my_c_compiler::backend::tacky_gen::TackyGenerator;
use my_c_compiler::common::{decimal_string, numbered_name, UniqueIdGenerator};
use my_c_compiler::ir::{assembly, tacky};
use my_c_compiler::lexer::{Lexer, TokenType};
use my_c_compiler::parser::Parser;
use my_c_compiler::semantics::loop_labeler::LoopLabeler;
use my_c_compiler::semantics::type_checker::{CType, Symbol, TypeChecker};
use my_c_compiler::semantics::validator::Validator;

/// Runs the front end and the semantic passes, sharing one id generator.
fn check(source: &str) -> Result<(checked::Program, UniqueIdGenerator), String> {
    let tokens = Lexer::new(source).tokenize()?;
    let ast = Parser::new(&tokens).parse()?;
    let mut ids = UniqueIdGenerator::new();
    let resolved = Validator::new(&mut ids).validate_program(ast)?;
    TypeChecker::new().check_program(&resolved)?;
    let labeled = LoopLabeler::new(&mut ids).label_program(resolved)?;
    Ok((labeled, ids))
}

fn lower(source: &str) -> Result<tacky::Program, String> {
    let (program, mut ids) = check(source)?;
    TackyGenerator::new(&mut ids).generate_tacky(program)
}

fn compile(source: &str) -> Result<assembly::Program, String> {
    let ir = lower(source)?;
    AsmGenerator::new().generate_assembly(ir)
}

fn value(v: &tacky::Val, env: &HashMap<String, i32>) -> i32 {
    match v {
        tacky::Val::Constant(c) => *c,
        tacky::Val::Var(n) => *env.get(n).unwrap_or(&0),
    }
}

fn var_name(v: &tacky::Val) -> String {
    match v {
        tacky::Val::Var(n) => n.clone(),
        tacky::Val::Constant(_) => panic!("a constant cannot be written"),
    }
}

/// Executes a function of the three-address program and returns its result,
/// counting the instructions it executes.
fn run(program: &tacky::Program, name: &str, args: Vec<i32>, steps: &mut usize) -> i32 {
    let f = program.functions.iter().find(|f| f.name == name).expect("function");
    let mut env: HashMap<String, i32> = HashMap::new();
    for (p, a) in f.params.iter().zip(args) {
        env.insert(p.clone(), a);
    }
    let labels: HashMap<String, usize> = f
        .body
        .iter()
        .enumerate()
        .filter_map(|(i, ins)| match ins {
            tacky::Instruction::Label(l) => Some((l.clone(), i)),
            _ => None,
        })
        .collect();
    let mut pc = 0;
    loop {
        *steps += 1;
        assert!(*steps < 100_000, "runaway program");
        match &f.body[pc] {
            tacky::Instruction::Return(v) => return value(v, &env),
            tacky::Instruction::Unary { op, src, dst } => {
                let x = value(src, &env);
                let r = match op {
                    tacky::UnaryOperator::Negate => x.wrapping_neg(),
                    tacky::UnaryOperator::Complement => !x,
                    tacky::UnaryOperator::Not => (x == 0) as i32,
                };
                env.insert(var_name(dst), r);
            }
            tacky::Instruction::Binary { op, src1, src2, dst } => {
                let (a, b) = (value(src1, &env), value(src2, &env));
                let r = match op {
                    tacky::BinaryOperator::Add => a.wrapping_add(b),
                    tacky::BinaryOperator::Subtract => a.wrapping_sub(b),
                    tacky::BinaryOperator::Multiply => a.wrapping_mul(b),
                    tacky::BinaryOperator::Divide => a / b,
                    tacky::BinaryOperator::Remainder => a % b,
                    tacky::BinaryOperator::Equal => (a == b) as i32,
                    tacky::BinaryOperator::NotEqual => (a != b) as i32,
                    tacky::BinaryOperator::LessThan => (a < b) as i32,
                    tacky::BinaryOperator::LessOrEqual => (a <= b) as i32,
                    tacky::BinaryOperator::GreaterThan => (a > b) as i32,
                    tacky::BinaryOperator::GreaterEqual => (a >= b) as i32,
                };
                env.insert(var_name(dst), r);
            }
            tacky::Instruction::Copy { src, dst } => {
                let x = value(src, &env);
                env.insert(var_name(dst), x);
            }
            tacky::Instruction::Jump(t) => {
                pc = labels[t];
                continue;
            }
            tacky::Instruction::JumpIfZero { condition, target } => {
                if value(condition, &env) == 0 {
                    pc = labels[target];
                    continue;
                }
            }
            tacky::Instruction::JumpIfNotZero { condition, target } => {
                if value(condition, &env) != 0 {
                    pc = labels[target];
                    continue;
                }
            }
            tacky::Instruction::Label(_) => {}
            tacky::Instruction::FunCall { name, args, dst } => {
                let values = args.iter().map(|a| value(a, &env)).collect();
                let r = run(program, name, values, steps);
                env.insert(var_name(dst), r);
            }
        }
        pc += 1;
    }
}

fn run_main(source: &str) -> (i32, usize) {
    let ir = lower(source).expect("compiles");
    let mut steps = 0;
    let r = run(&ir, "main", Vec::new(), &mut steps);
    (r, steps)
}

fn main_body(p: &checked::Program) -> &Vec<checked::BlockItem> {
    for d in &p.declarations {
        if let checked::Declaration::Function { name, body: Some(b), .. } = d {
            if name == "main" {
                return &b.blocks;
            }
        }
    }
    panic!("no main")
}

fn operands(i: &assembly::Instruction) -> Vec<&assembly::Operand> {
    match i {
        assembly::Instruction::Mov { src, dst } => vec![src, dst],
        assembly::Instruction::Unary { operand, .. } => vec![operand],
        assembly::Instruction::Binary { src, dst, .. } => vec![src, dst],
        assembly::Instruction::Cmp { src1, src2 } => vec![src1, src2],
        assembly::Instruction::Idiv(o) => vec![o],
        assembly::Instruction::SetCC(_, o) => vec![o],
        assembly::Instruction::Push(o) => vec![o],
        _ => vec![],
    }
}

#[test]
fn names_are_numbered_in_decimal() {
    assert_eq!(decimal_string(0), "0");
    assert_eq!(decimal_string(9), "9");
    assert_eq!(decimal_string(10), "10");
    assert_eq!(decimal_string(4096), "4096");
    assert_eq!(numbered_name("x", 3), "x.3");
    assert_eq!(numbered_name("tmp", 12), "tmp.12");
}

#[test]
fn id_generator_counts_up() {
    let mut ids = UniqueIdGenerator::new();
    assert_eq!(ids.next(), 0);
    assert_eq!(ids.next(), 1);
    assert_eq!(ids.next(), 2);
}

#[test]
fn inner_declaration_shadows_and_outer_binding_returns() {
    let (p, _) = check("int main(void){ int x=1; { int x=2; return x; } return x; }").unwrap();
    let body = main_body(&p);
    let outer = match &body[0] {
        checked::BlockItem::D(checked::Declaration::Variable { name, .. }) => name.clone(),
        _ => panic!("declaration expected"),
    };
    let inner_block = match &body[1] {
        checked::BlockItem::S(checked::Statement::Compound(b)) => b,
        _ => panic!("block expected"),
    };
    let inner = match &inner_block.blocks[0] {
        checked::BlockItem::D(checked::Declaration::Variable { name, .. }) => name.clone(),
        _ => panic!("declaration expected"),
    };
    assert_ne!(outer, inner);
    assert_eq!(outer, "x.0");
    assert_eq!(inner, "x.1");
    match &inner_block.blocks[1] {
        checked::BlockItem::S(checked::Statement::Return(Expression::Var(n))) => assert_eq!(n, &inner),
        _ => panic!("return expected"),
    }
    match &body[2] {
        checked::BlockItem::S(checked::Statement::Return(Expression::Var(n))) => assert_eq!(n, &outer),
        _ => panic!("return expected"),
    }
    assert_eq!(run_main("int main(void){ int x=1; { int x=2; return x; } return x; }").0, 2);
    assert_eq!(run_main("int main(void){ int x=1; { int x=2; } return x; }").0, 1);
}

#[test]
fn for_header_variable_is_gone_after_the_loop() {
    let src = "int main(void){ int s=0; for (int i=0; i<3; i=i+1) s=s+i; int i=7; return i+s; }";
    let (p, _) = check(src).unwrap();
    let body = main_body(&p);
    let header = match &body[1] {
        checked::BlockItem::S(checked::Statement::For { init: Some(init), .. }) => match &**init {
            checked::BlockItem::D(checked::Declaration::Variable { name, .. }) => name.clone(),
            _ => panic!("declaration expected"),
        },
        _ => panic!("for expected"),
    };
    let later = match &body[2] {
        checked::BlockItem::D(checked::Declaration::Variable { name, .. }) => name.clone(),
        _ => panic!("declaration expected"),
    };
    assert_ne!(header, later);
    assert_eq!(run_main(src).0, 10);
    // outside the loop the header variable is not declared
    let err = check("int main(void){ for (int i=0; i<3; i=i+1) ; return i; }").unwrap_err();
    assert!(err.contains("Use of undeclared variable 'i'"));
}

#[test]
fn nested_loops_get_distinct_ids_and_jumps_target_the_innermost() {
    let src = "int main(void){ while (1) { for (;;) { continue; } break; } return 0; }";
    let (p, _) = check(src).unwrap();
    let body = main_body(&p);
    match &body[0] {
        checked::BlockItem::S(checked::Statement::While { id: outer, body, .. }) => {
            let items = match &**body {
                checked::Statement::Compound(b) => &b.blocks,
                _ => panic!("block expected"),
            };
            match &items[0] {
                checked::BlockItem::S(checked::Statement::For { id: inner, body, .. }) => {
                    assert_ne!(outer, inner);
                    match &**body {
                        checked::Statement::Compound(b) => match &b.blocks[0] {
                            checked::BlockItem::S(checked::Statement::Continue { target_id }) => {
                                assert_eq!(target_id, inner)
                            }
                            _ => panic!("continue expected"),
                        },
                        _ => panic!("block expected"),
                    }
                }
                _ => panic!("for expected"),
            }
            match &items[1] {
                checked::BlockItem::S(checked::Statement::Break { target_id }) => assert_eq!(target_id, outer),
                _ => panic!("break expected"),
            }
        }
        _ => panic!("while expected"),
    }
}

#[test]
fn right_operand_of_and_is_skipped_when_left_is_zero() {
    let src = "int a(void){ return 0; } int b(void){ return 1; } int main(void){ return a() && b(); }";
    let ir = lower(src).unwrap();
    let main = ir.functions.iter().find(|f| f.name == "main").unwrap();
    let call_a = main.body.iter().position(|i| matches!(i, tacky::Instruction::FunCall { name, .. } if name == "a")).unwrap();
    let call_b = main.body.iter().position(|i| matches!(i, tacky::Instruction::FunCall { name, .. } if name == "b")).unwrap();
    let (jump, target) = main
        .body
        .iter()
        .enumerate()
        .find_map(|(k, i)| match i {
            tacky::Instruction::JumpIfZero { target, .. } if k > call_a => Some((k, target.clone())),
            _ => None,
        })
        .unwrap();
    let label = main.body.iter().position(|i| matches!(i, tacky::Instruction::Label(l) if *l == target)).unwrap();
    assert!(call_a < jump && jump < call_b && call_b < label);
    let mut steps = 0;
    assert_eq!(run(&ir, "main", Vec::new(), &mut steps), 0);
    // b() would return 1: with a() true the result is 1
    let src2 = "int a(void){ return 3; } int b(void){ return 1; } int main(void){ return a() && b(); }";
    assert_eq!(run_main(src2).0, 1);
    assert_eq!(run_main("int main(void){ return 0 || 5; }").0, 1);
    assert_eq!(run_main("int main(void){ return 0 || 0; }").0, 0);
}

#[test]
fn call_with_seven_arguments_uses_six_registers_and_one_aligned_stack_slot() {
    let src = "int f(int a, int b, int c, int d, int e, int g, int h){ return h; } \
               int main(void){ return f(1,2,3,4,5,6,7); }";
    let listing = compile(src).unwrap();
    let main = listing.functions.iter().find(|f| f.name == "main").unwrap();
    let ins = &main.instructions;
    let call = ins.iter().position(|i| matches!(i, assembly::Instruction::Call(n) if n == "f")).unwrap();
    let regs: Vec<assembly::Register> = ins[..call]
        .iter()
        .filter_map(|i| match i {
            assembly::Instruction::Mov { dst: assembly::Operand::Reg(r), .. }
                if *r != assembly::Register::R10 && *r != assembly::Register::R11 =>
            {
                Some(*r)
            }
            _ => None,
        })
        .collect();
    let expected = vec![
        assembly::Register::DI,
        assembly::Register::SI,
        assembly::Register::DX,
        assembly::Register::CX,
        assembly::Register::R8,
        assembly::Register::R9,
    ];
    assert_eq!(regs, expected);
    let pushes = ins[..call].iter().filter(|i| matches!(i, assembly::Instruction::Push(_))).count();
    assert_eq!(pushes, 1);
    assert!(ins[..call].iter().any(|i| matches!(i, assembly::Instruction::AllocateStack { bytes: 8 })));
    assert!(matches!(ins[call + 1], assembly::Instruction::DeallocateStack(16)));
    // the seventh parameter is read from the caller's frame
    let f = listing.functions.iter().find(|f| f.name == "f").unwrap();
    assert!(f.instructions.iter().any(|i| matches!(i, assembly::Instruction::Mov { src: assembly::Operand::Stack(16), .. })));
    assert_eq!(run_main(src).0, 7);
}

#[test]
fn call_with_eight_arguments_needs_no_padding() {
    let src = "int f(int a, int b, int c, int d, int e, int g, int h, int k){ return k; } \
               int main(void){ return f(1,2,3,4,5,6,7,8); }";
    let listing = compile(src).unwrap();
    let main = listing.functions.iter().find(|f| f.name == "main").unwrap();
    assert!(!main.instructions.iter().any(|i| matches!(i, assembly::Instruction::AllocateStack { bytes: 8 })));
    assert!(main.instructions.iter().any(|i| matches!(i, assembly::Instruction::DeallocateStack(16))));
    assert_eq!(run_main(src).0, 8);
}

#[test]
fn no_pseudo_register_survives_and_operands_are_legal() {
    let src = "int g(int x){ return x * 3; } \
               int main(void){ int a = 7; int b = a; int c = b / 2; int d = b % 2; \
               if (a < b || c == d) return g(a) + c; return -~d; }";
    let listing = compile(src).unwrap();
    for f in &listing.functions {
        for i in &f.instructions {
            for o in operands(i) {
                assert!(!matches!(o, assembly::Operand::Pseudo(_)));
            }
            match i {
                assembly::Instruction::Mov { src: assembly::Operand::Stack(_), dst: assembly::Operand::Stack(_) } => {
                    panic!("memory to memory move")
                }
                assembly::Instruction::Idiv(assembly::Operand::Imm(_)) => panic!("immediate divisor"),
                assembly::Instruction::Cmp { src2: assembly::Operand::Imm(_), .. } => panic!("immediate compare"),
                assembly::Instruction::Binary { op: assembly::BinaryOperator::Multiply, dst: assembly::Operand::Stack(_), .. } => {
                    panic!("memory multiply")
                }
                _ => {}
            }
        }
        assert!(matches!(f.instructions[0], assembly::Instruction::AllocateStack { bytes } if bytes % 16 == 0));
    }
    // 7 < 7 and 3 == 1 are both false, so the result is -(~1)
    assert_eq!(run_main(src).0, 2);
    let src2 = "int g(int x){ return x * 3; } int main(void){ int a = 7; int c = a / 2; return g(a) + c; }";
    assert_eq!(run_main(src2).0, 24);
    assert!(compile(src2).is_ok());
}

#[test]
fn function_without_return_returns_zero() {
    let ir = lower("int main(void){ int a = 4; }").unwrap();
    assert!(matches!(ir.functions[0].body.last(), Some(tacky::Instruction::Return(tacky::Val::Constant(0)))));
    assert_eq!(run_main("int main(void){ int a = 4; }").0, 0);
}

#[test]
fn continue_in_for_runs_the_post_expression() {
    let src = "int main(void){ int s = 0; for (int i = 0; i < 5; i = i + 1) { if (i == 2) continue; s = s + i; } return s; }";
    assert_eq!(run_main(src).0, 8);
    let src2 = "int main(void){ int i = 0; do { i = i + 1; if (i > 3) break; } while (1); return i; }";
    assert_eq!(run_main(src2).0, 4);
    assert_eq!(run_main("int main(void){ int a = 5; return a > 3 ? a : 0; }").0, 5);
}

#[test]
fn scenario_arithmetic_precedence() {
    assert_eq!(run_main("int main(void){ return 2+3*4; }").0, 14);
}

#[test]
fn scenario_if_else_takes_one_branch() {
    let src = "int main(void){ int a=0; if(a==0) a=1; else a=2; return a; }";
    let ir = lower(src).unwrap();
    let mut steps = 0;
    assert_eq!(run(&ir, "main", Vec::new(), &mut steps), 1);
    // the else branch is jumped over: fewer steps than instructions
    assert!(steps < ir.functions[0].body.len());
}

#[test]
fn scenario_while_loop_sums() {
    assert_eq!(run_main("int main(void){ int i=0; int s=0; while(i<5){ s=s+i; i=i+1; } return s; }").0, 10);
}

#[test]
fn scenario_call_with_one_register_argument() {
    let src = "int f(int x){ return x*2; } int main(void){ return f(21); }";
    assert_eq!(run_main(src).0, 42);
    let listing = compile(src).unwrap();
    let main = listing.functions.iter().find(|f| f.name == "main").unwrap();
    assert!(main.instructions.iter().any(|i| matches!(i, assembly::Instruction::Mov { src: assembly::Operand::Imm(21), dst: assembly::Operand::Reg(assembly::Register::DI) })));
    assert!(!main.instructions.iter().any(|i| matches!(i, assembly::Instruction::Push(_))));
}

#[test]
fn scenario_break_outside_loop() {
    let err = check("int main(void){ break; }").unwrap_err();
    assert_eq!(err, "'break' statement not in a loop");
    let err = check("int main(void){ continue; }").unwrap_err();
    assert_eq!(err, "'continue' statement not in a loop");
}

#[test]
fn scenario_undeclared_function() {
    let err = check("int main(void){ return add(1,2); }").unwrap_err();
    assert!(err.contains("Call to undeclared function 'add'"));
}

#[test]
fn error_undeclared_variable() {
    let err = check("int main(void){ return y; }").unwrap_err();
    assert!(err.contains("Use of undeclared variable 'y'"));
}

#[test]
fn error_duplicate_parameter_and_local() {
    let err = check("int f(int a){ int a = 1; return a; } int main(void){ return 0; }").unwrap_err();
    assert!(err.contains("Duplicate variable declaration for 'a'"));
}

#[test]
fn error_duplicate_function_definition() {
    let err = check("int f(void){ return 1; } int f(void){ return 2; } int main(void){ return f(); }").unwrap_err();
    assert!(err.contains("Function 'f' is defined more than once"));
    // any number of matching prototypes is fine
    assert!(check("int f(void); int f(void){ return 1; } int f(void); int main(void){ return f(); }").is_ok());
}

#[test]
fn error_incompatible_redeclaration() {
    let err = check("int f(int a); int f(int a, int b){ return a; } int main(void){ return 0; }").unwrap_err();
    assert!(err.contains("Incompatible declaration for function 'f'"));
}

#[test]
fn error_incompatible_redeclaration_after_other_declarations() {
    let err = check("int f(int a); int g(void){ return 1; } int f(void); int main(void){ return 0; }").unwrap_err();
    assert!(err.contains("Incompatible declaration for function 'f'"));
    let err = check("int f(void){ return 1; } int g(void); int f(void){ return 2; } int main(void){ return 0; }").unwrap_err();
    assert!(err.contains("Function 'f' is defined more than once"));
}

#[test]
fn top_level_names_have_linkage_and_may_be_redeclared() {
    // only an unlinked entry of the same frame makes a duplicate
    assert!(check("int x; int x = 2; int main(void){ return x; }").is_ok());
    let err = check("int main(void){ int x; int x = 2; return x; }").unwrap_err();
    assert!(err.contains("Duplicate variable declaration for 'x'"));
}

#[test]
fn error_call_arity_mismatch() {
    let err = check("int f(int a){ return a; } int main(void){ return f(1, 2); }").unwrap_err();
    assert!(err.contains("Function 'f' called with 2 arguments, but expects 1"));
}

#[test]
fn error_kind_confusion() {
    let err = check("int main(void){ int x = 1; return x(); }").unwrap_err();
    assert!(err.contains("'x' is a variable and cannot be called as a function"));
    let err = check("int f(void){ return 1; } int main(void){ return f + 1; }").unwrap_err();
    assert!(err.contains("Function 'f' used as a variable"));
}

#[test]
fn error_invalid_assignment_target() {
    let err = check("int main(void){ int a = 1; 3 = a; return a; }").unwrap_err();
    assert!(err.contains("Invalid l-value for assignment"));
}

#[test]
fn type_checker_records_functions() {
    let tokens = Lexer::new("int f(int a, int b); int main(void){ return 0; }").tokenize().unwrap();
    let ast = Parser::new(&tokens).parse().unwrap();
    let mut ids = UniqueIdGenerator::new();
    let resolved = Validator::new(&mut ids).validate_program(ast).unwrap();
    let mut checker = TypeChecker::new();
    checker.check_program(&resolved).unwrap();
    assert_eq!(
        checker.symbol(&"f".to_string()),
        Some(Symbol { c_type: CType::Function { param_count: 2 }, defined: false })
    );
    assert_eq!(
        checker.symbol(&"main".to_string()),
        Some(Symbol { c_type: CType::Function { param_count: 0 }, defined: true })
    );
    assert_eq!(checker.symbol(&"a.0".to_string()), None);
}

#[test]
fn lexer_reads_words_constants_and_rejects_bad_input() {
    let tokens = Lexer::new("int x_1 = 2147483647; # line\nreturn").tokenize().unwrap();
    let kinds: Vec<TokenType> = tokens.iter().map(|t| t.token_type.clone()).collect();
    assert_eq!(
        kinds,
        vec![
            TokenType::KeywordInt,
            TokenType::Identifier("x_1".to_string()),
            TokenType::Assign,
            TokenType::IntegerConstant(2147483647),
            TokenType::Semicolon,
            TokenType::KeywordReturn,
        ]
    );
    assert_eq!(tokens[5].line, 2);
    // letters beyond ASCII continue an identifier
    let tokens = Lexer::new("caf\u{e9}").tokenize().unwrap();
    assert_eq!(tokens[0].token_type, TokenType::Identifier("caf\u{e9}".to_string()));
    let err = Lexer::new("int 1a;").tokenize().unwrap_err();
    assert!(err.contains("Invalid token '1a' on line 1"));
    let err = Lexer::new("2147483648").tokenize().unwrap_err();
    assert!(err.contains("Failed to parse number: 2147483648"));
    let err = Lexer::new("a & b").tokenize().unwrap_err();
    assert!(err.contains("Unrecognized character '&' on line 1"));
    let tokens = Lexer::new("a-- <= b != c >= d ? e : f").tokenize().unwrap();
    assert_eq!(tokens[1].token_type, TokenType::Decrement);
    assert_eq!(tokens[2].token_type, TokenType::LessEqual);
    assert_eq!(tokens[4].token_type, TokenType::NotEqual);
    assert_eq!(tokens[6].token_type, TokenType::GreaterEqual);
}

#[test]
fn parser_respects_precedence_and_associativity() {
    let tokens = Lexer::new("int main(void){ a = b = 1 - 2 - 3; }").tokenize().unwrap();
    let p = Parser::new(&tokens).parse().unwrap();
    let body = match &p.declarations[0] {
        Declaration::Function { body: Some(b), .. } => b,
        _ => panic!("definition expected"),
    };
    match &body.blocks[0] {
        BlockItem::S(Statement::Expression(Expression::Assign { right, .. })) => match &**right {
            Expression::Assign { right, .. } => match &**right {
                Expression::Binary { left, right, .. } => {
                    assert!(matches!(**left, Expression::Binary { .. }));
                    assert_eq!(**right, Expression::Constant(3));
                }
                _ => panic!("subtraction expected"),
            },
            _ => panic!("inner assignment expected"),
        },
        _ => panic!("assignment expected"),
    }
    assert!(Parser::new(&Lexer::new("int main(void){ return 1 }").tokenize().unwrap()).parse().is_err());
}
