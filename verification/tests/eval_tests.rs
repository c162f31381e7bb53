use cii::environment::Environment;
use cii::expr::{EvalError, Expr, StractValue};
use cii::interpreter::{run, Interpreter};
use cii::num::Num;
use cii::parser::Parser;
use cii::scanner::Scanner;
use cii::scanner::{Token, TokenType};

fn parse_expression(source: &str) -> Expr {
    let mut scanner = Scanner::new(source);
    let tokens = scanner.scan_tokens().unwrap();
    let mut parser = Parser::new(tokens);
    parser.expression().unwrap()
}

fn eval(source: &str) -> Result<StractValue, EvalError> {
    let env = Environment::new();
    parse_expression(source).evaluate(&env)
}

#[test]
fn pretty_print_ast() {
    let minus_token = Token {
        token_type: TokenType::Minus,
        panoll: "-".to_string(),
        stract: None,
        line_number: 0,
    };
    let onetwothree = Expr::Lateral { value: StractValue::Number(Num::new(123, 0)) };
    let group = Expr::Grouping {
        expression: Box::from(Expr::Lateral { value: StractValue::Number(Num::new(4567, 2)) }),
    };
    let multi = Token {
        token_type: TokenType::Star,
        panoll: "*".to_string(),
        stract: None,
        line_number: 0,
    };
    let ast = Expr::Binary {
        left: Box::from(Expr::Unary { operator: minus_token, right: Box::from(onetwothree) }),
        operator: multi,
        right: Box::from(group),
    };
    let result = ast.to_string();
    assert_eq!(result, "(* (- 123) (group: 45.67))");
}

#[test]
fn negation_and_multiplication() {
    let v = eval("-1 * 2").unwrap();
    assert_eq!(v, StractValue::Number(Num::new(-2, 0)));
    assert_eq!(v.to_string(), "-2");
}

#[test]
fn string_concatenation() {
    let v = eval("\"ab\" + \"cd\"").unwrap();
    assert_eq!(v, StractValue::StringValue(String::from("abcd")));
}

#[test]
fn string_plus_number_is_a_type_error() {
    let e = eval("\"ab\" + 1").unwrap_err();
    assert!(matches!(e, EvalError::StringOpWithNumber { .. }));
}

#[test]
fn number_plus_string_is_a_type_error() {
    let e = eval("1 + \"ab\"").unwrap_err();
    assert!(matches!(e, EvalError::NumberOpWithString { .. }));
}

#[test]
fn not_follows_falsiness() {
    assert_eq!(eval("!0").unwrap(), StractValue::True);
    assert_eq!(eval("!5").unwrap(), StractValue::False);
    assert_eq!(eval("!nil").unwrap(), StractValue::True);
    assert_eq!(eval("!\"\"").unwrap(), StractValue::True);
    assert_eq!(eval("!\"x\"").unwrap(), StractValue::False);
    assert_eq!(eval("!null").unwrap(), StractValue::True);
    assert_eq!(eval("!false").unwrap(), StractValue::True);
    assert_eq!(eval("!true").unwrap(), StractValue::False);
}

#[test]
fn unary_minus_needs_a_number() {
    let e = eval("-\"ab\"").unwrap_err();
    assert!(matches!(e, EvalError::MinusOnType { .. }));
    assert_eq!(e.message(), "unary minus is not defined for String");
}

#[test]
fn equality_compares_by_variant_and_payload() {
    assert_eq!(eval("1:1").unwrap(), StractValue::True);
    assert_eq!(eval("1:\"1\"").unwrap(), StractValue::False);
    assert_eq!(eval("1!:\"1\"").unwrap(), StractValue::True);
    assert_eq!(eval("nil:null").unwrap(), StractValue::False);
    assert_eq!(eval("\"a\":\"a\"").unwrap(), StractValue::True);
    assert_eq!(eval("1.0:1").unwrap(), StractValue::True);
}

#[test]
fn numeric_comparison_and_arithmetic() {
    assert_eq!(eval("1 + 2 * 3").unwrap(), StractValue::Number(Num::new(7, 0)));
    assert_eq!(eval("10 - 4").unwrap(), StractValue::Number(Num::new(6, 0)));
    assert_eq!(eval("1.5 + 0.5").unwrap(), StractValue::Number(Num::new(2, 0)));
    assert_eq!(eval("3 > 2").unwrap(), StractValue::True);
    assert_eq!(eval("2 >: 2").unwrap(), StractValue::True);
    assert_eq!(eval("2 < 2").unwrap(), StractValue::False);
    assert_eq!(eval("0.5 <: 0.25").unwrap(), StractValue::False);
}

#[test]
fn division_truncates_at_nine_fractional_digits() {
    assert_eq!(eval("10 / 4").unwrap(), StractValue::Number(Num::new(25, 1)));
    assert_eq!(eval("1 / 3").unwrap(), StractValue::Number(Num::new(333333333, 9)));
    assert_eq!(eval("10 / 4").unwrap().to_string(), "2.5");
}

#[test]
fn division_by_zero_is_an_error() {
    let e = eval("1 / 0").unwrap_err();
    assert!(matches!(e, EvalError::DivisionByZero));
    assert_eq!(e.message(), "division by zero");
}

#[test]
fn arithmetic_overflow_is_an_error() {
    let e = eval("9223372036854775807 * 10").unwrap_err();
    assert!(matches!(e, EvalError::NumberOverflow));
}

#[test]
fn string_comparison_is_lexicographic() {
    assert_eq!(eval("\"ab\" < \"b\"").unwrap(), StractValue::True);
    assert_eq!(eval("\"b\" > \"ab\"").unwrap(), StractValue::True);
    assert_eq!(eval("\"ab\" <: \"ab\"").unwrap(), StractValue::True);
    assert_eq!(eval("\"b\" <: \"ab\"").unwrap(), StractValue::False);
}

#[test]
fn boolean_arithmetic_is_an_error() {
    let e = eval("true + nil").unwrap_err();
    assert!(matches!(e, EvalError::InvalidBinaryOperands { .. }));
}

#[test]
fn a_token_that_is_no_unary_operator_is_rejected() {
    let star = Token {
        token_type: TokenType::Star,
        panoll: String::from("*"),
        stract: None,
        line_number: 1,
    };
    let tree = Expr::Unary {
        operator: star,
        right: Box::new(Expr::Lateral { value: StractValue::Number(Num::new(1, 0)) }),
    };
    let env = Environment::new();
    let e = tree.evaluate(&env).unwrap_err();
    assert!(matches!(e, EvalError::InvalidUnaryOperator { .. }));
}

#[test]
fn unicode_identifiers_scan_and_evaluate() {
    let mut interpreter = Interpreter::new();
    run(&mut interpreter, "var h\u{e9}llo::2; print h\u{e9}llo * 3!").unwrap();
    assert_eq!(interpreter.outputs, vec![String::from("6")]);
}

#[test]
fn grouping_overrides_precedence() {
    assert_eq!(eval("(1 + 2) * 3").unwrap(), StractValue::Number(Num::new(9, 0)));
}

#[test]
fn value_renderings() {
    assert_eq!(StractValue::Number(Num::new(123123, 3)).to_string(), "123.123");
    assert_eq!(StractValue::Number(Num::new(1, 3)).to_string(), "0.001");
    assert_eq!(StractValue::Number(Num::new(-45, 1)).to_string(), "-4.5");
    assert_eq!(StractValue::StringValue(String::from("raw")).to_string(), "raw");
    assert_eq!(StractValue::True.to_string(), "true");
    assert_eq!(StractValue::False.to_string(), "false");
    assert_eq!(StractValue::Nil.to_string(), "nil");
    assert_eq!(StractValue::Null.to_string(), "null");
    assert_eq!(StractValue::Nil.to_type(), "nil");
    assert_eq!(StractValue::Number(Num::new(1, 0)).to_type(), "Number");
}

#[test]
fn from_bool_and_is_falsy() {
    assert_eq!(StractValue::from_bool(true), StractValue::True);
    assert_eq!(StractValue::from_bool(false), StractValue::False);
    assert_eq!(StractValue::Number(Num::new(0, 0)).is_falsy(), StractValue::True);
    assert_eq!(StractValue::Number(Num::new(5, 0)).is_falsy(), StractValue::False);
    assert_eq!(StractValue::Nil.is_falsy(), StractValue::True);
}

#[test]
fn environment_defines_and_redefines() {
    let mut env = Environment::new();
    assert!(env.get(String::from("x")).is_none());
    env.define(String::from("x"), StractValue::Number(Num::new(1, 0)));
    assert_eq!(env.get(String::from("x")).unwrap(), StractValue::Number(Num::new(1, 0)));
    env.define(String::from("x"), StractValue::StringValue(String::from("two")));
    assert_eq!(
        env.get(String::from("x")).unwrap(),
        StractValue::StringValue(String::from("two"))
    );
}

#[test]
fn uninitialized_variable_is_nil_and_undefined_is_an_error() {
    let mut interpreter = Interpreter::new();
    run(&mut interpreter, "var x; print x!").unwrap();
    assert_eq!(interpreter.outputs, vec![String::from("nil")]);

    let mut other = Interpreter::new();
    let msg = run(&mut other, "print missing!").unwrap_err();
    assert_eq!(msg, "undefined variable 'missing'");
}

#[test]
fn run_executes_statements_in_order() {
    let mut interpreter = Interpreter::new();
    run(&mut interpreter, "var x::3; print x! print x + 1!").unwrap();
    assert_eq!(interpreter.outputs, vec![String::from("3"), String::from("4")]);
}

#[test]
fn run_keeps_definitions_across_units() {
    let mut interpreter = Interpreter::new();
    run(&mut interpreter, "var x::3;").unwrap();
    run(&mut interpreter, "print x * x!").unwrap();
    assert_eq!(interpreter.outputs, vec![String::from("9")]);
}

#[test]
fn run_stops_at_first_evaluation_error_but_keeps_earlier_definitions() {
    let mut interpreter = Interpreter::new();
    let msg = run(&mut interpreter, "var x::3; print nosuch! print x!").unwrap_err();
    assert_eq!(msg, "undefined variable 'nosuch'");
    assert!(interpreter.outputs.is_empty());
    run(&mut interpreter, "print x!").unwrap();
    assert_eq!(interpreter.outputs, vec![String::from("3")]);
}

#[test]
fn run_reports_lexical_errors_joined() {
    let mut interpreter = Interpreter::new();
    let msg = run(&mut interpreter, "@\n#").unwrap_err();
    assert_eq!(
        msg,
        "unrecognized character '@' at line 1\nunrecognized character '#' at line 2"
    );
}

#[test]
fn run_reports_parse_errors() {
    let mut interpreter = Interpreter::new();
    let msg = run(&mut interpreter, "print 1").unwrap_err();
    assert_eq!(msg, "expected '!' to end the statement at line 1");
}

#[test]
fn interpret_expr_uses_the_session_environment() {
    let mut interpreter = Interpreter::new();
    run(&mut interpreter, "var y::7;").unwrap();
    let expr = parse_expression("y + 1");
    let v = interpreter.interpret_expr(expr).unwrap();
    assert_eq!(v, StractValue::Number(Num::new(8, 0)));
}

#[test]
fn string_and_number_literals_evaluate_to_themselves() {
    assert_eq!(eval("\"abc\"").unwrap(), StractValue::StringValue(String::from("abc")));
    assert_eq!(eval("123.123").unwrap(), StractValue::Number(Num::new(123123, 3)));
    assert_eq!(eval("true").unwrap(), StractValue::True);
    assert_eq!(eval("nil").unwrap(), StractValue::Nil);
    assert_eq!(eval("null").unwrap(), StractValue::Null);
}
