use cii::num::Num;
use cii::parser::{Parser, ParseErrorKind};
use cii::scanner::{Scanner, StractValue, Token, TokenType};

fn scan(source: &str) -> Vec<Token> {
    let mut scanner = Scanner::new(source);
    scanner.scan_tokens().unwrap()
}

#[test]
fn addition() {
    let one = Token {
        token_type: TokenType::Number,
        panoll: "1".to_string(),
        stract: Some(StractValue::IntValue(1)),
        line_number: 0,
    };
    let plus = Token {
        token_type: TokenType::Plus,
        panoll: "+".to_string(),
        stract: None,
        line_number: 0,
    };
    let two = Token {
        token_type: TokenType::Number,
        panoll: "2".to_string(),
        stract: Some(StractValue::IntValue(2)),
        line_number: 0,
    };
    let eof = Token {
        token_type: TokenType::Eof,
        panoll: "".to_string(),
        stract: None,
        line_number: 0,
    };
    let tokens = vec![one, plus, two, eof];

    let mut parser = Parser::new(tokens);
    let parsed_expr = parser.expression().unwrap();
    let string_expr = parsed_expr.to_string();
    assert_eq!(string_expr, "(+ 1 2)");
}

#[test]
fn test_comparison() {
    let source = "1 + 2:5 + 7";
    let tokens = scan(source);
    let mut parser = Parser::new(tokens);
    let parsed_expr = parser.expression().unwrap();
    let string_expr = parsed_expr.to_string();
    assert_eq!(string_expr, "(: (+ 1 2) (+ 5 7))");
}

#[test]
fn multiplication_binds_tighter_than_addition() {
    let tokens = scan("1 + 2 * 3");
    let mut parser = Parser::new(tokens);
    let expr = parser.expression().unwrap();
    assert_eq!(expr.to_string(), "(+ 1 (* 2 3))");
}

#[test]
fn grouping_renders_with_its_marker() {
    let tokens = scan("(1 + 2) * 3");
    let mut parser = Parser::new(tokens);
    let expr = parser.expression().unwrap();
    assert_eq!(expr.to_string(), "(* (group: (+ 1 2)) 3)");
}

#[test]
fn var_declaration_parses_with_initializer() {
    let tokens = scan("var answer::42;");
    let mut parser = Parser::new(tokens);
    let statements = parser.parse().unwrap();
    assert_eq!(statements.len(), 1);
}

#[test]
fn var_declaration_without_initializer_parses() {
    let tokens = scan("var answer;");
    let mut parser = Parser::new(tokens);
    let statements = parser.parse().unwrap();
    assert_eq!(statements.len(), 1);
}

#[test]
fn print_statement_ends_with_bang() {
    let tokens = scan("print 1 + 2!");
    let mut parser = Parser::new(tokens);
    let statements = parser.parse().unwrap();
    assert_eq!(statements.len(), 1);
}

#[test]
fn missing_right_paren_is_an_error() {
    let tokens = scan("(1 + 2!");
    let mut parser = Parser::new(tokens);
    let errs = parser.parse().unwrap_err();
    assert_eq!(errs[0].kind, ParseErrorKind::ExpectedRightParen);
}

#[test]
fn missing_statement_end_is_an_error() {
    let tokens = scan("print 1");
    let mut parser = Parser::new(tokens);
    let errs = parser.parse().unwrap_err();
    assert_eq!(errs.len(), 1);
    assert_eq!(errs[0].kind, ParseErrorKind::ExpectedStatementEnd);
}

#[test]
fn var_without_name_is_an_error() {
    let tokens = scan("var 1;");
    let mut parser = Parser::new(tokens);
    let errs = parser.parse().unwrap_err();
    assert_eq!(errs[0].kind, ParseErrorKind::ExpectedVariableName);
}

#[test]
fn synchronization_collects_one_error_per_statement() {
    let tokens = scan("var 1; print 2! var ,; print 3!");
    let mut parser = Parser::new(tokens);
    let errs = parser.parse().unwrap_err();
    assert_eq!(errs.len(), 2);
    assert_eq!(errs[0].kind, ParseErrorKind::ExpectedVariableName);
    assert_eq!(errs[1].kind, ParseErrorKind::ExpectedVariableName);
}

#[test]
fn var_with_wrong_terminator_is_an_error() {
    let tokens = scan("var x::1!");
    let mut parser = Parser::new(tokens);
    let errs = parser.parse().unwrap_err();
    assert_eq!(errs[0].kind, ParseErrorKind::ExpectedDeclarationEnd);
}

#[test]
fn leading_operator_is_not_an_expression() {
    let tokens = scan("* 2!");
    let mut parser = Parser::new(tokens);
    let errs = parser.parse().unwrap_err();
    assert_eq!(errs[0].kind, ParseErrorKind::ExpectedExpression);
}

#[test]
fn parse_error_message_names_line() {
    let tokens = scan("\nprint 1");
    let mut parser = Parser::new(tokens);
    let errs = parser.parse().unwrap_err();
    assert_eq!(errs[0].message(), "expected '!' to end the statement at line 2");
}

#[test]
fn literal_payloads_survive_parsing() {
    let tokens = scan("1.5!");
    let mut parser = Parser::new(tokens);
    let statements = parser.parse().unwrap();
    assert_eq!(statements.len(), 1);
    match &statements[0] {
        cii::statement::Statement::Expression { expression } => match expression {
            cii::expr::Expr::Lateral { value } => match value {
                cii::expr::StractValue::Number(n) => assert_eq!(*n, Num::new(15, 1)),
                _ => panic!("expected a number literal"),
            },
            _ => panic!("expected a literal expression"),
        },
        _ => panic!("expected an expression statement"),
    }
}
