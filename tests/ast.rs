use library::ast::{
    Expression, ExpressionStatement, Identifier, IntegralLiteral, LetStatement, Node, Program,
    ReturnStatement, Statement,
};
use library::lexer::{Token, TokenType};
use library::parser::Parser;
use library::lexer::Lexer;

fn token(token_type: TokenType, literal: &str) -> Token {
    Token::new(token_type, literal.to_string())
}

fn identifier(name: &str) -> Identifier {
    Identifier {
        token: token(TokenType::Ident(name.to_string()), name),
        value: name.to_string(),
    }
}

#[test]
fn let_statement_renders_as_source() {
    let statement = LetStatement {
        token: token(TokenType::Let, "let"),
        name: Some(identifier("myVar")),
        value: Some(Expression::Identifier(identifier("anotherVar"))),
    };
    assert_eq!(statement.string(), "let myVar = anotherVar;");
    assert_eq!(statement.token_literal(), Some("let".to_string()));
    let bare = LetStatement { token: token(TokenType::Let, "let"), name: Some(identifier("x")), value: None };
    assert_eq!(bare.string(), "let x = ;");
}

#[test]
fn return_and_expression_statements_render() {
    let ret = ReturnStatement {
        token: token(TokenType::Return, "return"),
        return_value: Some(Expression::IntegralLiteral(IntegralLiteral {
            token: token(TokenType::Int("42".to_string()), "42"),
            value: 42,
        })),
    };
    assert_eq!(ret.string(), "return 42;");
    let expr = ExpressionStatement {
        token: token(TokenType::Ident("a".to_string()), "a"),
        expression: Some(Expression::Identifier(identifier("a"))),
    };
    assert_eq!(expr.string(), "a");
    let empty = ExpressionStatement { token: token(TokenType::Ident("a".to_string()), "a"), expression: None };
    assert_eq!(empty.string(), "");
}

#[test]
fn program_renders_statements_in_order() {
    let program = Program {
        statements: vec![
            Statement::Let(LetStatement {
                token: token(TokenType::Let, "let"),
                name: Some(identifier("x")),
                value: Some(Expression::Identifier(identifier("y"))),
            }),
            Statement::Return(ReturnStatement { token: token(TokenType::Return, "return"), return_value: None }),
        ],
    };
    assert_eq!(program.string(), "let x = y;return ;");
    assert_eq!(program.token_literal(), Some("let".to_string()));
}

#[test]
fn parsed_program_renders() {
    let mut p = Parser::new(Lexer::new("let a = 1; return a; b; 7".to_string()));
    let program = p.parse_program();
    assert_eq!(program.string(), "let a = ;return ;b7");
    assert_eq!(program.statements[2].token_literal(), Some("b".to_string()));
}
