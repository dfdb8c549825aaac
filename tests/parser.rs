use my_c_compiler::ast::unchecked::{BlockItem, Declaration, Expression, Statement};
use my_c_compiler::lexer::{Lexer, Token};
use my_c_compiler::parser::Parser;

#[test]
fn test_compound_statement() {
    let source_code = r#"
        int main(void) {
            int a = 1;
            {
                int b = 2;
                return b;
            }
            return a;
        }
    "#;
    println!("--- Testing Compound Statement ---");
    println!("Source:\n{}", source_code);

    let tokens: Vec<Token> = Lexer::new(source_code).tokenize().unwrap();
    let program = Parser::new(&tokens).parse().expect("Parsing failed");


    assert_eq!(
        program.declarations.len(),
        1,
        "Program should contain one declaration"
    );

    if let Declaration::Function {
        name,
        body: Some(main_body),
        ..
    } = &program.declarations[0]
    {
        assert_eq!(name, "main", "Function name should be 'main'");

        assert_eq!(
            main_body.blocks.len(),
            3,
            "Function body should have 3 block items"
        );

        let first_item = &main_body.blocks[0];
        assert!(matches!(
            first_item,
            BlockItem::D(Declaration::Variable { .. })
        ));

        let second_item = &main_body.blocks[1];
        if let BlockItem::S(Statement::Compound(inner_block)) = second_item {
            assert_eq!(
                inner_block.blocks.len(),
                2,
                "Inner block should have 2 items"
            );

            assert!(matches!(
                &inner_block.blocks[0],
                BlockItem::D(Declaration::Variable { .. })
            ));

            assert!(matches!(
                &inner_block.blocks[1],
                BlockItem::S(Statement::Return(_))
            ));
        } else {
            panic!(
                "Second item should be a Compound statement. Got: {:?}",
                second_item
            );
        }

        let third_item = &main_body.blocks[2];
        assert!(matches!(third_item, BlockItem::S(Statement::Return(_))));
    } else {
        panic!(
            "Expected a function definition for 'main'. Got: {:?}",
            program.declarations[0]
        );
    }

    println!("\n--- Compound Statement Test Passed! ---");
}

#[test]
fn test_parsing_of_all_loop_and_jump_statements() {
    let source_code = r#"
        int main(void) {
            for (int i = 0; i < 10; i = i + 1) {
                while (1) {
                    do {
                        if (i == 5)
                            continue;
                        break;
                    } while (i < 8);
                }
            }
            return 0;
        }
    "#;
    println!("\n--- Testing All Loop and Jump Statements ---");
    println!("Source:\n{}", source_code);

    let tokens: Vec<Token> = Lexer::new(source_code).tokenize().unwrap();
    let program = Parser::new(&tokens).parse().expect("Parsing failed");
    println!("--- Successfully Parsed AST ---\n{:#?}", program);

    assert_eq!(
        program.declarations.len(),
        1,
        "Program should contain one declaration"
    );

    if let Declaration::Function {
        body: Some(main_body),
        ..
    } = &program.declarations[0]
    {
        assert_eq!(
            main_body.blocks.len(),
            2,
            "Function body should have a for-loop and a return statement"
        );

        if let BlockItem::S(Statement::For { body, .. }) = &main_body.blocks[0] {

            if let Statement::Compound(for_body_block) = &**body {
                if let BlockItem::S(Statement::While {
                    body: while_body, ..
                }) = &for_body_block.blocks[0]
                {
                    if let Statement::Compound(while_body_block) = &**while_body {
                        if let BlockItem::S(Statement::DoWhile {
                            body: do_while_body,
                            ..
                        }) = &while_body_block.blocks[0]
                        {
                            if let Statement::Compound(do_while_body_block) = &**do_while_body {
                                assert_eq!(
                                    do_while_body_block.blocks.len(),
                                    2,
                                    "Do-while body should contain an if statement and a break statement"
                                );

                                let if_stmt = &do_while_body_block.blocks[0];
                                assert!(
                                    matches!(if_stmt, BlockItem::S(Statement::If { then_stat, .. }) if matches!(**then_stat, Statement::Continue))
                                );

                                let break_stmt = &do_while_body_block.blocks[1];
                                assert!(matches!(break_stmt, BlockItem::S(Statement::Break)));
                            } else {
                                panic!("Do-while body is not a compound statement");
                            }
                        } else {
                            panic!("Statement in while body is not a do-while loop");
                        }
                    } else {
                        panic!("While body is not a compound statement");
                    }
                } else {
                    panic!("Statement in for body is not a while loop");
                }
            } else {
                panic!("For loop body is not a compound statement");
            }
        } else {
            panic!(
                "First statement in function is not a for loop. Got: {:?}",
                main_body.blocks[0]
            );
        }

        let last_item = &main_body.blocks[1];
        assert!(matches!(last_item, BlockItem::S(Statement::Return(_))));
    } else {
        panic!("Expected a function definition");
    }

    println!("\n--- All Loop and Jump Statements Test Passed! ---");
}

#[test]
fn test_function_declaration_and_call() {
    let source_code = r#"
        int add(int a, int b); 

        int main(void) {
            return add(2, 3); 
        }

        int add(int x, int y) {
            return x + y;
        }
    "#;
    println!("\n--- Testing Function Declaration and Call ---");
    println!("Source:\n{}", source_code);

    let tokens: Vec<Token> = Lexer::new(source_code).tokenize().unwrap();
    let program = Parser::new(&tokens).parse().expect("Parsing failed");

    assert_eq!(
        program.declarations.len(),
        3,
        "Program should have 3 top-level declarations"
    );

    if let Declaration::Function {
        name,
        params,
        body: None,
    } = &program.declarations[0]
    {
        assert_eq!(name, "add");
        assert_eq!(params.len(), 2);
    } else {
        panic!("Expected a function prototype for 'add'.");
    }

    if let Declaration::Function {
        name,
        body: Some(main_body),
        ..
    } = &program.declarations[1]
    {
        assert_eq!(name, "main");
        if let BlockItem::S(Statement::Return(expr)) = &main_body.blocks[0] {
            assert!(matches!(expr, Expression::FunctionCall { name, .. } if name == "add"));
        } else {
            panic!("Expected a return statement with a function call");
        }
    } else {
        panic!("Expected a function definition for 'main'.");
    }

    if let Declaration::Function {
        name,
        params,
        body: Some(_),
        ..
    } = &program.declarations[2]
    {
        assert_eq!(name, "add");
        assert_eq!(params.len(), 2);
    } else {
        panic!("Expected a function definition for 'add'.");
    }

    println!("\n--- Function Declaration and Call Test Passed! ---");
}
