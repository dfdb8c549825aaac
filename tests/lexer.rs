use my_c_compiler::lexer::{Lexer, Token, TokenType};

#[test]
fn test_lex_loop_and_jump_keywords() {
    let source_code = r#"
        for (i = 0; i < 10; i = i + 1) {
            do {
                if (a == 5) {
                    break;
                }
                continue;
            } while (x > 0);
        }
    "#;

    let expected_tokens = vec![
        Token {
            token_type: TokenType::KeywordFor,
            line: 2,
        },
        Token {
            token_type: TokenType::OpenParen,
            line: 2,
        },
        Token {
            token_type: TokenType::Identifier("i".to_string()),
            line: 2,
        },
        Token {
            token_type: TokenType::Assign,
            line: 2,
        },
        Token {
            token_type: TokenType::IntegerConstant(0),
            line: 2,
        },
        Token {
            token_type: TokenType::Semicolon,
            line: 2,
        },
        Token {
            token_type: TokenType::Identifier("i".to_string()),
            line: 2,
        },
        Token {
            token_type: TokenType::Less,
            line: 2,
        },
        Token {
            token_type: TokenType::IntegerConstant(10),
            line: 2,
        },
        Token {
            token_type: TokenType::Semicolon,
            line: 2,
        },
        Token {
            token_type: TokenType::Identifier("i".to_string()),
            line: 2,
        },
        Token {
            token_type: TokenType::Assign,
            line: 2,
        },
        Token {
            token_type: TokenType::Identifier("i".to_string()),
            line: 2,
        },
        Token {
            token_type: TokenType::Plus,
            line: 2,
        },
        Token {
            token_type: TokenType::IntegerConstant(1),
            line: 2,
        },
        Token {
            token_type: TokenType::CloseParen,
            line: 2,
        },
        Token {
            token_type: TokenType::OpenBrace,
            line: 2,
        },
        Token {
            token_type: TokenType::KeywordDo,
            line: 3,
        },
        Token {
            token_type: TokenType::OpenBrace,
            line: 3,
        },
        Token {
            token_type: TokenType::KeywordIf,
            line: 4,
        },
        Token {
            token_type: TokenType::OpenParen,
            line: 4,
        },
        Token {
            token_type: TokenType::Identifier("a".to_string()),
            line: 4,
        },
        Token {
            token_type: TokenType::Equal,
            line: 4,
        },
        Token {
            token_type: TokenType::IntegerConstant(5),
            line: 4,
        },
        Token {
            token_type: TokenType::CloseParen,
            line: 4,
        },
        Token {
            token_type: TokenType::OpenBrace,
            line: 4,
        },
        Token {
            token_type: TokenType::KeywordBreak,
            line: 5,
        },
        Token {
            token_type: TokenType::Semicolon,
            line: 5,
        },
        Token {
            token_type: TokenType::CloseBrace,
            line: 6,
        },
        Token {
            token_type: TokenType::KeywordContinue,
            line: 7,
        },
        Token {
            token_type: TokenType::Semicolon,
            line: 7,
        },
        Token {
            token_type: TokenType::CloseBrace,
            line: 8,
        },
        Token {
            token_type: TokenType::KeywordWhile,
            line: 8,
        },
        Token {
            token_type: TokenType::OpenParen,
            line: 8,
        },
        Token {
            token_type: TokenType::Identifier("x".to_string()),
            line: 8,
        },
        Token {
            token_type: TokenType::Greater,
            line: 8,
        },
        Token {
            token_type: TokenType::IntegerConstant(0),
            line: 8,
        },
        Token {
            token_type: TokenType::CloseParen,
            line: 8,
        },
        Token {
            token_type: TokenType::Semicolon,
            line: 8,
        },
        Token {
            token_type: TokenType::CloseBrace,
            line: 9,
        },
    ];

    let mut lexer = Lexer::new(source_code);
    let actual_tokens: Vec<Token> = lexer.tokenize().unwrap();

    assert_eq!(actual_tokens, expected_tokens);
}
