use my_c_compiler::ast::checked;
use my_c_compiler::ast::unchecked::{Block, BlockItem, Declaration, Expression, Program, Statement};
use my_c_compiler::common::UniqueIdGenerator;
use my_c_compiler::semantics::loop_labeler::LoopLabeler;

fn create_test_unchecked_ast() -> Program {

    Program {
        declarations: vec![Declaration::Function {
            name: "main".to_string(),
            params: Vec::new(),
            body: Some(Block {
                blocks: vec![
                    BlockItem::S(Statement::While {
                        condition: Expression::Constant(1),
                        body: Box::new(Statement::Compound(Block {
                            blocks: vec![
                                BlockItem::S(Statement::For {
                                    init: None,
                                    condition: None,
                                    post: None,
                                    body: Box::new(Statement::Compound(Block {
                                        blocks: vec![
                                            BlockItem::S(Statement::If {
                                                condition: Expression::Constant(1),
                                                then_stat: Box::new(Statement::Continue),
                                                else_stat: None,
                                            }),
                                            BlockItem::S(Statement::Break),
                                        ],
                                    })),
                                }),
                                BlockItem::S(Statement::Break),
                            ],
                        })),
                    }),
                    BlockItem::S(Statement::Return(Expression::Constant(0))),
                ],
            }),
        }],
    }
}

#[test]
fn test_loop_labeling_success() {
    let unchecked_ast = create_test_unchecked_ast();
    let mut id_gen = UniqueIdGenerator::new();
    let mut labeler = LoopLabeler::new(&mut id_gen);

    let checked_ast = labeler
        .label_program(unchecked_ast)
        .expect("Labeling should succeed");

    let main_func = match &checked_ast.declarations[0] {
        checked::Declaration::Function { name, body, .. } if name == "main" => {
            body.as_ref().unwrap()
        }
        _ => panic!("Expected main function"),
    };
    let main_body_items = &main_func.blocks;
    assert_eq!(main_body_items.len(), 2);

    if let checked::BlockItem::S(checked::Statement::While {
        id: while_id,
        body: while_body,
        ..
    }) = &main_body_items[0]
    {
        assert_eq!(*while_id, 0, "Outer while loop should have id 0");

        if let checked::Statement::Compound(while_block) = &**while_body {
            let while_body_items = &while_block.blocks;
            assert_eq!(while_body_items.len(), 2);

            if let checked::BlockItem::S(checked::Statement::For {
                id: for_id,
                body: for_body,
                ..
            }) = &while_body_items[0]
            {
                assert_eq!(*for_id, 1, "Inner for loop should have id 1");
                if let checked::Statement::Compound(for_block) = &**for_body {
                    let for_body_items = &for_block.blocks;
                    assert_eq!(for_body_items.len(), 2);
                    if let checked::BlockItem::S(checked::Statement::If { then_stat, .. }) =
                        &for_body_items[0]
                    {
                        if let checked::Statement::Continue { target_id } = **then_stat {
                            assert_eq!(target_id, 1);
                        } else {
                            panic!("Expected Continue statement");
                        }
                    } else {
                        panic!("Expected If statement");
                    }
                    if let checked::BlockItem::S(checked::Statement::Break { target_id }) =
                        &for_body_items[1]
                    {
                        assert_eq!(*target_id, 1);
                    } else {
                        panic!("Expected Break statement");
                    }
                } else {
                    panic!("For body should be a compound statement");
                }
            } else {
                panic!("Expected For loop");
            }
            if let checked::BlockItem::S(checked::Statement::Break { target_id }) =
                &while_body_items[1]
            {
                assert_eq!(*target_id, 0);
            } else {
                panic!("Expected Break statement");
            }
        } else {
            panic!("While body should be a compound statement");
        }
    } else {
        panic!("Expected a While loop as the first statement");
    }
}

#[test]
fn test_break_outside_of_loop_fails() {
    let unchecked_ast = Program {
        declarations: vec![Declaration::Function {
            name: "main".to_string(),
            params: Vec::new(),
            body: Some(Block {
                blocks: vec![BlockItem::S(Statement::Break)],
            }),
        }],
    };

    let mut id_gen = UniqueIdGenerator::new();
    let mut labeler = LoopLabeler::new(&mut id_gen);

    let result = labeler.label_program(unchecked_ast);
    assert!(result.is_err());
    assert_eq!(result.unwrap_err(), "'break' statement not in a loop");
}
