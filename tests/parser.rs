use library::ast::{Expression, Node, Program, Statement};
use library::lexer::Lexer;
use library::lexer::TokenKind;
use library::parser::{
    infix_rule, parse_integer, precedence_of, prefix_rule, Parser, Precedence, PrefixRule,
};

fn parse(input: &str) -> (Program, Vec<String>) {
    let lexer = Lexer::new(input.to_string());
    let mut p = Parser::new(lexer);
    let program = p.parse_program();
    (program, p.errors())
}

#[test]
fn tests_test_one() {
    let input = r#"
    let x = 5;
    let y = 10;
    let foobar = 838383;
  "#
    .to_string();

    let lexer = Lexer::new(input);
    let mut p = Parser::new(lexer);
    let program = p.parse_program();
    let errors = p.errors();
    assert!(errors.is_empty(), "{:?}", errors);

    assert_eq!(program.statements.len(), 3);

    let tests = vec!["x".to_string(), "y".to_string(), "foobar".to_string()];
    for (i, tt) in tests.iter().enumerate() {
        let stmt = program.statements.get(i).unwrap();
        let let_stmt = match stmt {
            Statement::Let(s) => s,
            other => panic!("not a let statement: {:?}", other),
        };
        assert_eq!(&let_stmt.name.as_ref().unwrap().value, tt);
    }
}

#[test]
fn return_statements() {
    let input = r#"
    return 5;
    return 10;
    return 9993322;
  "#
    .to_string();

    let lexer = Lexer::new(input);
    let mut p = Parser::new(lexer);
    let program = p.parse_program();
    let errors = p.errors();
    assert!(errors.is_empty(), "{:?}", errors);

    assert_eq!(program.statements.len(), 3);

    let tests = vec![5, 10, 9993322];
    for (i, _) in tests.iter().enumerate() {
        let stmt = program.statements.get(i).unwrap();
        match stmt {
            Statement::Return(s) => assert_eq!(s.token.literal, "return"),
            other => panic!("not a return statement: {:?}", other),
        }
    }
}

#[test]
fn test_identifier_expression() {
    let input = "5;".to_string();
    let lexer = Lexer::new(input);
    let mut p = Parser::new(lexer);
    let program = p.parse_program();
    let errors = p.errors();
    assert!(errors.is_empty(), "{:?}", errors);

    assert_eq!(program.statements.len(), 1);

    let stmt = program.statements.get(0).unwrap();
    match stmt {
        Statement::Expression(s) => match &s.expression {
            Some(Expression::IntegralLiteral(lit)) => {
                assert_eq!(lit.value, 5);
                assert_eq!(lit.token.literal, "5");
            }
            other => panic!("not an integer literal: {:?}", other),
        },
        other => panic!("not an expression statement: {:?}", other),
    }
}

#[test]
fn identifier_expression_statement() {
    let (program, errors) = parse("foobar;");
    assert!(errors.is_empty());
    assert_eq!(program.statements.len(), 1);
    match &program.statements[0] {
        Statement::Expression(s) => match &s.expression {
            Some(Expression::Identifier(id)) => assert_eq!(id.value, "foobar"),
            other => panic!("not an identifier: {:?}", other),
        },
        other => panic!("not an expression statement: {:?}", other),
    }
}

#[test]
fn malformed_let_statements_are_left_out() {
    let (program, errors) = parse("let x 5; let = 10; let 838383;");
    assert_eq!(
        errors,
        vec![
            "expected next token to be Assign, got Int(\"5\") instead".to_string(),
            "expected next token to be Ident(\"\"), got Assign instead".to_string(),
            "expected next token to be Ident(\"\"), got Int(\"838383\") instead".to_string(),
        ]
    );
    assert!(program.statements.is_empty());
}

#[test]
fn parsing_resumes_after_a_malformed_let() {
    let (program, errors) = parse("let; let y 1 + 2; return 3; z;");
    assert_eq!(
        errors,
        vec![
            "expected next token to be Ident(\"\"), got Semicolon instead".to_string(),
            "expected next token to be Assign, got Int(\"1\") instead".to_string(),
        ]
    );
    assert_eq!(program.statements.len(), 2);
    assert!(matches!(program.statements[0], Statement::Return(_)));
    assert_eq!(program.string(), "return ;z");
}

#[test]
fn diagnostics_print_the_token_found_with_its_text() {
    let (program, errors) = parse("let x y; let if = 1; let a, = 2;");
    assert!(program.statements.is_empty());
    assert_eq!(
        errors,
        vec![
            "expected next token to be Assign, got Ident(\"y\") instead".to_string(),
            "expected next token to be Ident(\"\"), got If instead".to_string(),
            "expected next token to be Assign, got Comma instead".to_string(),
        ]
    );
}

#[test]
fn statement_without_an_expression_is_left_out() {
    let (program, errors) = parse("@; ; x;");
    assert!(errors.is_empty());
    assert_eq!(program.statements.len(), 1);
    assert_eq!(program.string(), "x");
}

#[test]
fn operator_precedence_table() {
    assert_eq!(precedence_of(TokenKind::Eq), Precedence::Equals);
    assert_eq!(precedence_of(TokenKind::NotEq), Precedence::Equals);
    assert_eq!(precedence_of(TokenKind::Lt), Precedence::LessGreater);
    assert_eq!(precedence_of(TokenKind::Gte), Precedence::LessGreater);
    assert_eq!(precedence_of(TokenKind::Plus), Precedence::Sum);
    assert_eq!(precedence_of(TokenKind::Minus), Precedence::Sum);
    assert_eq!(precedence_of(TokenKind::Asterisk), Precedence::Product);
    assert_eq!(precedence_of(TokenKind::Slash), Precedence::Product);
    assert_eq!(precedence_of(TokenKind::LParen), Precedence::Call);
    assert_eq!(precedence_of(TokenKind::Semicolon), Precedence::Lowest);
    assert!(Precedence::Lowest.rank() < Precedence::Equals.rank());
    assert!(Precedence::Equals.rank() < Precedence::LessGreater.rank());
    assert!(Precedence::LessGreater.rank() < Precedence::Sum.rank());
    assert!(Precedence::Sum.rank() < Precedence::Product.rank());
    assert!(Precedence::Product.rank() < Precedence::Prefix.rank());
    assert!(Precedence::Prefix.rank() < Precedence::Call.rank());
}

#[test]
fn prefix_and_infix_rules() {
    assert_eq!(prefix_rule(TokenKind::Ident), Some(PrefixRule::Identifier));
    assert_eq!(prefix_rule(TokenKind::Int), Some(PrefixRule::IntegralLiteral));
    assert_eq!(prefix_rule(TokenKind::Minus), None);
    assert_eq!(infix_rule(TokenKind::Plus), None);
}

#[test]
fn statement_without_semicolon_ends_at_end_of_input() {
    let (program, errors) = parse("let x = 5 + 6");
    assert!(errors.is_empty());
    assert_eq!(program.statements.len(), 1);
    let (program, errors) = parse("return");
    assert!(errors.is_empty());
    assert_eq!(program.statements.len(), 1);
    let (program, errors) = parse("a b");
    assert!(errors.is_empty());
    assert_eq!(program.statements.len(), 2);
}

#[test]
fn empty_source_gives_empty_program() {
    let (program, errors) = parse("   ");
    assert!(program.statements.is_empty());
    assert!(errors.is_empty());
    assert_eq!(program.token_literal(), None);
    assert_eq!(program.string(), "");
}

#[test]
fn integer_literal_values() {
    assert_eq!(parse_integer("838383"), 838383);
    assert_eq!(parse_integer("0"), 0);
    assert_eq!(parse_integer("007"), 7);
    assert_eq!(parse_integer("9223372036854775807"), i64::MAX);
    assert_eq!(parse_integer("9223372036854775808"), 0);
    assert_eq!(parse_integer("99999999999999999999"), 0);
    assert_eq!(parse_integer(""), 0);
    assert_eq!(parse_integer("12a"), 0);
}

#[test]
fn oversized_literal_parses_to_zero() {
    let (program, errors) = parse("99999999999999999999;");
    assert!(errors.is_empty());
    match &program.statements[0] {
        Statement::Expression(s) => match &s.expression {
            Some(Expression::IntegralLiteral(lit)) => assert_eq!(lit.value, 0),
            other => panic!("not an integer literal: {:?}", other),
        },
        other => panic!("not an expression statement: {:?}", other),
    }
}

#[test]
fn parser_starts_where_the_lexer_stands() {
    let mut lexer = Lexer::new("let x = 1; y;".to_string());
    for _ in 0..5 {
        lexer.next_token();
    }
    let mut p = Parser::new(lexer);
    let program = p.parse_program();
    assert_eq!(program.string(), "y");
}
