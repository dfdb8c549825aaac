use my_c_compiler::ast::unchecked::{BlockItem, Declaration, Expression, Program, Statement};
use my_c_compiler::common::UniqueIdGenerator;
use my_c_compiler::lexer::{Lexer, Token};
use my_c_compiler::parser::Parser;
use my_c_compiler::semantics::validator::Validator;

fn validate_source(source: &str) -> Result<Program, String> {
    let tokens: Vec<Token> = Lexer::new(source).tokenize().unwrap();
    println!("{:#?}", tokens);
    let ast = Parser::new(&tokens).parse().unwrap();
    let mut id_gen = UniqueIdGenerator::new();
    let mut validator = Validator::new(&mut id_gen);
    validator.validate_program(ast)
}

#[test]
fn test_variable_shadowing_and_scopes() {
    let source_code = r#"
    int main(void) {
        int x = 1;
        int y = x;
        {
            int x = 2;
            y = x;
        }
        return x;
    }
"#;

    let validated_ast = validate_source(source_code).expect("Validation should succeed");

    let main_function = match &validated_ast.declarations[0] {
        Declaration::Function { name, body, .. } if name == "main" => {
            body.as_ref().expect("main function should have a body")
        }
        _ => panic!("Expected a function declaration for main"),
    };
    let function_body = &main_function.blocks;

    let decl_x0 = match &function_body[0] {
        BlockItem::D(Declaration::Variable { name, .. }) => name,
        _ => panic!("Expected variable declaration"),
    };
    assert_eq!(decl_x0, "x.0");

    let decl_y1 = match &function_body[1] {
        BlockItem::D(Declaration::Variable { name, init, .. }) => (name, init),
        _ => panic!("Expected variable declaration"),
    };
    assert_eq!(decl_y1.0, "y.1");
    let init_y1 = decl_y1.1.as_ref().unwrap();
    assert_eq!(*init_y1, Expression::Var("x.0".to_string()));

    let compound_stmt = match &function_body[2] {
        BlockItem::S(Statement::Compound(b)) => b,
        _ => panic!("Expected compound statement"),
    };
    let inner_items = &compound_stmt.blocks;

    let decl_x2 = match &inner_items[0] {
        BlockItem::D(Declaration::Variable { name, .. }) => name,
        _ => panic!("Expected inner declaration"),
    };
    assert_eq!(decl_x2, "x.2");

    let assign_stmt = match &inner_items[1] {
        BlockItem::S(Statement::Expression(e)) => e,
        _ => panic!("Expected expression statement"),
    };
    if let Expression::Assign { left, right } = assign_stmt {
        if let Expression::Var(var_name) = &**left {
            assert_eq!(var_name, "y.1");
        } else {
            panic!("Expected a variable on the left side of assignment");
        }
        assert_eq!(**right, Expression::Var("x.2".to_string()));
    } else {
        panic!("Expected assignment expression");
    }

    let return_stmt = match &function_body[3] {
        BlockItem::S(Statement::Return(e)) => e,
        _ => panic!("Expected return statement"),
    };
    assert_eq!(*return_stmt, Expression::Var("x.0".to_string()));

    println!("--- Variable Shadowing Test Passed! ---");
}

#[test]
fn test_loop_scoping_and_variables() {
    let source_code = r#"
    int main(void) {
        int a = 10;
        int i = 0;
        for (int i = 0; i < a; i = i + 1) {
            int b = i;
        }
        return i;
    }
"#;

    let validated_ast = validate_source(source_code).expect("Validation should succeed");

    let main_function = match &validated_ast.declarations[0] {
        Declaration::Function { name, body, .. } if name == "main" => {
            body.as_ref().expect("main function should have a body")
        }
        _ => panic!("Expected a function declaration for main"),
    };
    let function_body = &main_function.blocks;

    let decl_a0 = &function_body[0];
    assert!(
        matches!(decl_a0, BlockItem::D(Declaration::Variable { name, .. }) if name == "a.0")
    );

    let decl_i1 = &function_body[1];
    assert!(
        matches!(decl_i1, BlockItem::D(Declaration::Variable { name, .. }) if name == "i.1")
    );

    if let BlockItem::S(Statement::For {
        init,
        condition,
        post,
        body,
    }) = &function_body[2]
    {
        if let Some(init_item) = init {
            if let BlockItem::D(Declaration::Variable { name, .. }) = &**init_item {
                assert_eq!(*name, "i.2");
            } else {
                panic!("Expected variable declaration in for init");
            }
        } else {
            panic!("Expected for init");
        }

        if let Some(Expression::Binary { left, right, .. }) = condition {
            assert_eq!(**left, Expression::Var("i.2".to_string()));
            assert_eq!(**right, Expression::Var("a.0".to_string()));
        } else {
            panic!("Expected binary expression in condition");
        }

        if let Some(Expression::Assign { left, .. }) = post {
            if let Expression::Var(var_name) = &**left {
                assert_eq!(var_name, "i.2");
            } else {
                panic!("Expected a variable on the left side of assignment");
            }
        } else {
            panic!("Expected assignment in post-expression");
        }

        if let Statement::Compound(block) = &**body {
            if let BlockItem::D(decl_b) = &block.blocks[0] {
                if let Declaration::Variable {
                    name: b_name,
                    init: b_init,
                    ..
                } = decl_b
                {
                    assert_eq!(*b_name, "b.3");
                    if let Some(Expression::Var(name)) = b_init {
                        assert_eq!(*name, "i.2");
                    } else {
                        panic!("Expected var in inner decl init");
                    }
                } else {
                    panic!("Expected inner declaration to be a variable");
                }
            } else {
                panic!("Expected inner declaration");
            }
        } else {
            panic!("Expected compound statement for body");
        }
    } else {
        panic!("Expected a for loop");
    }

    if let BlockItem::S(Statement::Return(expr)) = &function_body[3] {
        assert_eq!(*expr, Expression::Var("i.1".to_string()));
    } else {
        panic!("Expected a return statement");
    }

    println!("--- Loop Scoping Test Passed! ---");
}

#[test]
fn test_simple_function_call() {
    let source_code = r#"
    int add(int a, int b) {
        return a + b;
    }

    int main(void) {
        return add(1, 2);
    }
"#;

    let validated_ast = validate_source(source_code).expect("Validation should succeed");

    let add_func = match &validated_ast.declarations[0] {
        Declaration::Function {
            name, params, body, ..
        } if name == "add" => {
            assert_eq!(*name, "add");
            assert_eq!(params, &vec!["a.0".to_string(), "b.1".to_string()]);
            body.as_ref().unwrap()
        }
        _ => panic!("Expected add function"),
    };
    if let BlockItem::S(Statement::Return(expr)) = &add_func.blocks[0] {
        if let Expression::Binary { left, right, .. } = expr {
            assert_eq!(**left, Expression::Var("a.0".to_string()));
            assert_eq!(**right, Expression::Var("b.1".to_string()));
        } else {
            panic!("Expected binary expression in return");
        }
    } else {
        panic!("Expected return statement");
    }

    let main_func = match &validated_ast.declarations[1] {
        Declaration::Function { name, body, .. } if name == "main" => body.as_ref().unwrap(),
        _ => panic!("Expected main function"),
    };
    if let BlockItem::S(Statement::Return(expr)) = &main_func.blocks[0] {
        if let Expression::FunctionCall { name, args } = expr {
            assert_eq!(*name, "add");
            assert_eq!(args.len(), 2);
            assert_eq!(args[0], Expression::Constant(1));
            assert_eq!(args[1], Expression::Constant(2));
        } else {
            panic!("Expected function call in return");
        }
    } else {
        panic!("Expected return statement");
    }

    println!("--- Simple Function Call Test Passed! ---");
}

#[test]
fn test_function_declaration_and_definition() {
    let source_code = r#"
    int foo(void);

    int main(void) {
        return foo();
    }

    int foo(void) {
        return 42;
    }
"#;

    let validated_ast = validate_source(source_code).expect("Validation should succeed");

    assert_eq!(validated_ast.declarations.len(), 3);

    match &validated_ast.declarations[0] {
        Declaration::Function { name, body, .. } if name == "foo" => {
            assert!(
                body.is_none(),
                "First foo should be a declaration without a body"
            );
        }
        _ => panic!("Expected foo declaration"),
    }

    match &validated_ast.declarations[1] {
        Declaration::Function { name, body, .. } if name == "main" => {
            let main_body = body.as_ref().unwrap();
            if let BlockItem::S(Statement::Return(Expression::FunctionCall { name, .. })) =
                &main_body.blocks[0]
            {
                assert_eq!(*name, "foo");
            } else {
                panic!("Expected main to call foo");
            }
        }
        _ => panic!("Expected main definition"),
    }

    match &validated_ast.declarations[2] {
        Declaration::Function { name, body, .. } if name == "foo" => {
            assert!(
                body.is_some(),
                "Third declaration should be foo's definition with a body"
            );
        }
        _ => panic!("Expected foo definition"),
    }

    println!("--- Function Declaration/Definition Test Passed! ---");
}

#[test]
fn test_error_undeclared_function() {
    let source_code = r#"
    int main(void) {
        return undeclared_func();
    }
"#;
    let result = validate_source(source_code);
    assert!(result.is_err());
    let error_msg = result.unwrap_err();
    assert!(error_msg.contains("Call to undeclared function 'undeclared_func'"));

    println!("--- Undeclared Function Error Test Passed! ---");
}

#[test]
fn test_error_duplicate_local_variable() {
    let source_code = r#"
    int main(void) {
        int x = 1;
        int x = 2;
        return x;
    }
"#;
    let result = validate_source(source_code);
    assert!(result.is_err());
    let error_msg = result.unwrap_err();
    assert!(error_msg.contains("Duplicate variable declaration for 'x'"));

    println!("--- Duplicate Local Variable Error Test Passed! ---");
}
