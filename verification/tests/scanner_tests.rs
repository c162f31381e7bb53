use cii::num::Num;
use cii::scanner::{LexErrorKind, Scanner, StractValue, Token, TokenType};

#[test]
fn handle_one_char_tokens() {
    let source = "(( )) }{";
    let mut scanner = Scanner::new(source);
    let tokens = scanner.scan_tokens().unwrap();

    assert_eq!(tokens.len(), 7);
    assert_eq!(tokens[0].token_type, TokenType::LeftParen);
    assert_eq!(tokens[1].token_type, TokenType::LeftParen);
    assert_eq!(tokens[2].token_type, TokenType::RightParen);
    assert_eq!(tokens[3].token_type, TokenType::RightParen);
    assert_eq!(tokens[4].token_type, TokenType::RightBrace);
    assert_eq!(tokens[5].token_type, TokenType::LeftBrace);
    assert_eq!(tokens[6].token_type, TokenType::Eof);
}

#[test]
fn handle_two_char_tokens() {
    let source = "! !: : >:";
    let mut scanner = Scanner::new(source);
    let tokens = scanner.scan_tokens().unwrap();

    assert_eq!(tokens.len(), 5);
    assert_eq!(tokens[0].token_type, TokenType::Bang);
    assert_eq!(tokens[1].token_type, TokenType::BangEqual);
    assert_eq!(tokens[2].token_type, TokenType::EqualEqual);
    assert_eq!(tokens[3].token_type, TokenType::GreaterEqual);
    assert_eq!(tokens[4].token_type, TokenType::Eof);
}

#[test]
fn handle_string_lat() {
    let source = r#""ABC""#;
    let mut scanner = Scanner::new(source);
    let tokens = scanner.scan_tokens().unwrap();
    assert_eq!(tokens.len(), 2);
    assert_eq!(tokens[0].token_type, TokenType::StringLat);
    match tokens[0].stract.as_ref().unwrap() {
        StractValue::StringValue(value) => assert_eq!(value, "ABC"),
        _ => panic!("Incorrect Lateral Value"),
    }
}

#[test]
fn handle_string_lat_unterminated() {
    let source = r#""ABC"#;
    let mut scanner = Scanner::new(source);
    let result = scanner.scan_tokens();
    match result {
        Err(_) => (),
        _ => panic!("Should have failed"),
    }
}

#[test]
fn handle_string_lat_multiline() {
    let source = "\"ABC\ndef\"";
    let mut scanner = Scanner::new(source);
    let tokens = scanner.scan_tokens().unwrap();
    assert_eq!(tokens.len(), 2);
    assert_eq!(tokens[0].token_type, TokenType::StringLat);
    match tokens[0].stract.as_ref().unwrap() {
        StractValue::StringValue(value) => assert_eq!(value, "ABC\ndef"),
        _ => panic!("Incorrect Lateral Value"),
    }
}

#[test]
fn number_laterals() {
    let source = "123.123\n321.0\n5";
    let mut scanner = Scanner::new(source);
    let tokens = scanner.scan_tokens().unwrap();
    assert_eq!(tokens.len(), 4);
    for token in tokens.iter().take(3) {
        assert_eq!(token.token_type, TokenType::Number);
    }
    match tokens[0].stract {
        Some(StractValue::NumberValue(value)) => assert_eq!(value, Num::new(123123, 3)),
        _ => panic!("Incorrect Lateral Value"),
    }
    match tokens[1].stract {
        Some(StractValue::NumberValue(value)) => assert_eq!(value, Num::new(3210, 1)),
        _ => panic!("Incorrect Lateral Value"),
    }
    match tokens[2].stract {
        Some(StractValue::NumberValue(value)) => assert_eq!(value, Num::new(5, 0)),
        _ => panic!("Incorrect Lateral Value"),
    }
}

#[test]
fn get_identifier() {
    let source = "this_is_a_var::12;";
    let mut scanner = Scanner::new(source);
    let tokens = scanner.scan_tokens().unwrap();
    assert_eq!(tokens.len(), 5);
    assert_eq!(tokens[0].token_type, TokenType::Identifier);
    assert_eq!(tokens[1].token_type, TokenType::Equal);
    assert_eq!(tokens[2].token_type, TokenType::Number);
    assert_eq!(tokens[3].token_type, TokenType::Semicolon);
    assert_eq!(tokens[4].token_type, TokenType::Eof);
}

#[test]
fn get_keyword() {
    let source = "var this_is_a_var::12;\nwhile true { print 3 };";
    let mut scanner = Scanner::new(source);
    let tokens = scanner.scan_tokens().unwrap();

    assert_eq!(tokens.len(), 13);

    assert_eq!(tokens[0].token_type, TokenType::Var);
    assert_eq!(tokens[1].token_type, TokenType::Identifier);
    assert_eq!(tokens[2].token_type, TokenType::Equal);
    assert_eq!(tokens[3].token_type, TokenType::Number);
    assert_eq!(tokens[4].token_type, TokenType::Semicolon);
    assert_eq!(tokens[5].token_type, TokenType::While);
    assert_eq!(tokens[6].token_type, TokenType::True);
    assert_eq!(tokens[7].token_type, TokenType::LeftBrace);
    assert_eq!(tokens[8].token_type, TokenType::Print);
    assert_eq!(tokens[9].token_type, TokenType::Number);
    assert_eq!(tokens[10].token_type, TokenType::RightBrace);
    assert_eq!(tokens[11].token_type, TokenType::Semicolon);
    assert_eq!(tokens[12].token_type, TokenType::Eof);
}

#[test]
fn nested_parens_round_trip() {
    let source = "(( ))";
    let mut scanner = Scanner::new(source);
    let tokens = scanner.scan_tokens().unwrap();
    assert_eq!(tokens.len(), 5);
    assert_eq!(tokens[0].token_type, TokenType::LeftParen);
    assert_eq!(tokens[1].token_type, TokenType::LeftParen);
    assert_eq!(tokens[2].token_type, TokenType::RightParen);
    assert_eq!(tokens[3].token_type, TokenType::RightParen);
    assert_eq!(tokens[4].token_type, TokenType::Eof);
    assert_eq!(tokens[0].panoll, "(");
    assert_eq!(tokens[3].panoll, ")");
}

#[test]
fn unterminated_string_error_kind() {
    let mut scanner = Scanner::new("\"abc");
    let errs = scanner.scan_tokens().unwrap_err();
    assert_eq!(errs.len(), 1);
    assert_eq!(errs[0].kind, LexErrorKind::UnterminatedString);
    assert_eq!(errs[0].line, 1);
}

#[test]
fn unrecognized_character_is_collected_and_scan_continues() {
    let mut scanner = Scanner::new("@ #\n1");
    let errs = scanner.scan_tokens().unwrap_err();
    assert_eq!(errs.len(), 2);
    assert_eq!(errs[0].kind, LexErrorKind::UnrecognizedChar('@'));
    assert_eq!(errs[0].line, 1);
    assert_eq!(errs[1].kind, LexErrorKind::UnrecognizedChar('#'));
    assert_eq!(errs[1].line, 1);
}

#[test]
fn number_too_large_is_a_lexical_error() {
    let mut scanner = Scanner::new("99999999999999999999");
    let errs = scanner.scan_tokens().unwrap_err();
    assert_eq!(errs.len(), 1);
    assert_eq!(errs[0].kind, LexErrorKind::UnparsableNumber);
}

#[test]
fn comment_produces_no_tokens() {
    let mut scanner = Scanner::new("1 // the rest is ignored ((\n2");
    let tokens = scanner.scan_tokens().unwrap();
    assert_eq!(tokens.len(), 3);
    assert_eq!(tokens[0].token_type, TokenType::Number);
    assert_eq!(tokens[1].token_type, TokenType::Number);
    assert_eq!(tokens[1].line_number, 2);
    assert_eq!(tokens[2].token_type, TokenType::Eof);
}

#[test]
fn double_semicolon_is_its_own_token() {
    let mut scanner = Scanner::new(";; ;");
    let tokens = scanner.scan_tokens().unwrap();
    assert_eq!(tokens.len(), 3);
    assert_eq!(tokens[0].token_type, TokenType::SemicolonEqual);
    assert_eq!(tokens[1].token_type, TokenType::Semicolon);
    assert_eq!(tokens[2].token_type, TokenType::Eof);
}

#[test]
fn slash_and_less_equal_tokens() {
    let mut scanner = Scanner::new("/ <: < >");
    let tokens = scanner.scan_tokens().unwrap();
    assert_eq!(tokens.len(), 5);
    assert_eq!(tokens[0].token_type, TokenType::Slash);
    assert_eq!(tokens[1].token_type, TokenType::LessEqual);
    assert_eq!(tokens[2].token_type, TokenType::Less);
    assert_eq!(tokens[3].token_type, TokenType::Greater);
}

#[test]
fn token_new_and_to_string() {
    let t = Token::new(TokenType::Plus, String::from("+"), None, 3);
    assert_eq!(t.token_type, TokenType::Plus);
    assert_eq!(t.panoll, "+");
    assert_eq!(t.line_number, 3);
    assert_eq!(t.to_string(), "Plus +");
}

#[test]
fn character_classes() {
    assert!(cii::scanner::is_digit('7'));
    assert!(!cii::scanner::is_digit('x'));
    assert!(cii::scanner::is_alpha('x'));
    assert!(cii::scanner::is_alpha('_'));
    assert!(!cii::scanner::is_alpha('7'));
    assert!(cii::scanner::is_alpha_numeric('7'));
    assert!(cii::scanner::is_alpha_numeric('x'));
    assert!(!cii::scanner::is_alpha_numeric('+'));
}

#[test]
fn keyword_lookup() {
    let word: Vec<char> = "while".chars().collect();
    assert_eq!(cii::scanner::keyword_token(&word), Some(TokenType::While));
    let word2: Vec<char> = "whale".chars().collect();
    assert_eq!(cii::scanner::keyword_token(&word2), None);
    let word3: Vec<char> = "whenfs".chars().collect();
    assert_eq!(cii::scanner::keyword_token(&word3), Some(TokenType::Whenfs));
}

#[test]
fn unwrap_as_string_returns_the_payload() {
    let s = cii::expr::unwrap_as_string(Some(StractValue::StringValue(String::from("hi"))));
    assert_eq!(s, "hi");
    let t = cii::expr::unwrap_as_string(Some(StractValue::IdentifierValue(String::from("name"))));
    assert_eq!(t, "name");
}

#[test]
fn from_token_builds_literal_values() {
    let tok = Token::new(
        TokenType::Number,
        String::from("2"),
        Some(StractValue::IntValue(2)),
        1,
    );
    let v = cii::expr::StractValue::from_token(tok);
    assert_eq!(v, cii::expr::StractValue::Number(Num::new(2, 0)));
    let st = Token::new(
        TokenType::StringLat,
        String::from("\"hi\""),
        Some(StractValue::StringValue(String::from("hi"))),
        1,
    );
    assert_eq!(
        cii::expr::StractValue::from_token(st),
        cii::expr::StractValue::StringValue(String::from("hi"))
    );
    let t = Token::new(TokenType::True, String::from("true"), None, 1);
    assert_eq!(cii::expr::StractValue::from_token(t), cii::expr::StractValue::True);
}

#[test]
fn lex_error_message_names_line() {
    let mut scanner = Scanner::new("\n\n\"abc");
    let errs = scanner.scan_tokens().unwrap_err();
    assert_eq!(errs[0].message(), "unterminated string at line 3");
}
