use expr_interp::ast::AstNode;
use expr_interp::environment::Environment;
use expr_interp::eval::evaluate;
use expr_interp::interp::{interpret, interpret_expressions, interpret_with_environment};
use expr_interp::parser::parse;
use expr_interp::scanner::tokenize_all;
use expr_interp::token::Token;
use expr_interp::InterpError;

#[test]
fn test_int_literal() {
    let node = AstNode::IntLiteral(1);
    assert_eq!(evaluate(&node), Ok(1));
}

#[test]
fn test_add() {
    let node = AstNode::Add(
        Box::new(AstNode::IntLiteral(1)),
        Box::new(AstNode::IntLiteral(2)),
    );
    assert_eq!(evaluate(&node), Ok(3));
}

#[test]
fn test_subtract() {
    let node = AstNode::Subtract(
        Box::new(AstNode::IntLiteral(1)),
        Box::new(AstNode::IntLiteral(2)),
    );
    assert_eq!(evaluate(&node), Ok(-1));
}

#[test]
fn test_multiply() {
    let node = AstNode::Multiply(
        Box::new(AstNode::IntLiteral(2)),
        Box::new(AstNode::IntLiteral(3)),
    );
    assert_eq!(evaluate(&node), Ok(6));
}

#[test]
fn test_divide() {
    let node = AstNode::Divide(
        Box::new(AstNode::IntLiteral(6)),
        Box::new(AstNode::IntLiteral(2)),
    );
    assert_eq!(evaluate(&node), Ok(3));
}

#[test]
// (1 + 2) * (3 - 6) = -9
fn test_complex_expression() {
    let node = AstNode::Multiply(
        Box::new(AstNode::Add(
            Box::new(AstNode::IntLiteral(1)),
            Box::new(AstNode::IntLiteral(2)),
        )),
        Box::new(AstNode::Subtract(
            Box::new(AstNode::IntLiteral(3)),
            Box::new(AstNode::IntLiteral(6)),
        )),
    );
    assert_eq!(evaluate(&node), Ok(-9));
}

#[test]
fn test_tokenize_all() {
    let tokens = tokenize_all("(1 + 2) * (3 - 6)").unwrap();
    assert_eq!(tokens.len(), 12);
    assert_eq!(tokens[0], Token::OpenParen);
    assert_eq!(tokens[1], Token::Int(1));
    assert_eq!(tokens[2], Token::Operator('+'));
    assert_eq!(tokens[3], Token::Int(2));
    assert_eq!(tokens[4], Token::ClosedParen);
    assert_eq!(tokens[5], Token::Operator('*'));
    assert_eq!(tokens[6], Token::OpenParen);
    assert_eq!(tokens[7], Token::Int(3));
    assert_eq!(tokens[8], Token::Operator('-'));
    assert_eq!(tokens[9], Token::Int(6));
    assert_eq!(tokens[10], Token::ClosedParen);
    assert_eq!(tokens[11], Token::EndOfInput);
}

#[test]
fn test_parse() {
    let tokens = tokenize_all("(1 + 2) * (3 - 6)").unwrap();
    let ast = parse(tokens).unwrap();
    assert_eq!(
        ast,
        AstNode::Multiply(
            Box::new(AstNode::Add(
                Box::new(AstNode::IntLiteral(1)),
                Box::new(AstNode::IntLiteral(2)),
            )),
            Box::new(AstNode::Subtract(
                Box::new(AstNode::IntLiteral(3)),
                Box::new(AstNode::IntLiteral(6)),
            )),
        )
    );
}

#[test]
fn test_interpret() {
    assert_eq!(interpret("(1 + 2) * (3 - 6)"), Ok(-9));
    assert_eq!(interpret("(1 + 3) * (4 * 2)"), Ok(32));
    assert_eq!(interpret("x = (1 + 3) * (4 * 2)"), Ok(32));
}

#[test]
fn test_interpret_expressions() {
    assert_eq!(interpret_expressions(vec!["x = 1", "y = 2", "x + y"]), Ok(3));
}

#[test]
fn test_assignment_updates_environment() {
    let mut environment = Environment::new();
    assert_eq!(
        interpret_with_environment("x = (1 + 3) * (4 * 2)", &mut environment),
        Ok(32)
    );
    assert_eq!(environment.get(&"x".to_string()), Some(32));
}

#[test]
fn test_environment_overwrites_binding() {
    let mut environment = Environment::new();
    assert_eq!(interpret_with_environment("x = 1", &mut environment), Ok(1));
    assert_eq!(interpret_with_environment("x = 2", &mut environment), Ok(2));
    assert_eq!(environment.get(&"x".to_string()), Some(2));
    assert_eq!(environment.get(&"y".to_string()), None);
}

#[test]
fn test_chained_assignment_nests_to_the_right() {
    let tokens = tokenize_all("x = y = 5").unwrap();
    let ast = parse(tokens).unwrap();
    assert_eq!(
        ast,
        AstNode::Assign(
            Box::new(AstNode::Identifier("x".to_string())),
            Box::new(AstNode::Assign(
                Box::new(AstNode::Identifier("y".to_string())),
                Box::new(AstNode::IntLiteral(5)),
            )),
        )
    );
    let mut environment = Environment::new();
    assert_eq!(
        interpret_with_environment("x = y = z = 5", &mut environment),
        Ok(5)
    );
    assert_eq!(environment.get(&"x".to_string()), Some(5));
    assert_eq!(environment.get(&"y".to_string()), Some(5));
    assert_eq!(environment.get(&"z".to_string()), Some(5));
}

#[test]
fn test_multiplication_binds_tighter_than_addition() {
    assert_eq!(interpret("2 + 3 * 4"), Ok(14));
    assert_eq!(interpret("2 * 3 + 4"), Ok(10));
}

#[test]
fn test_subtraction_associates_to_the_left() {
    assert_eq!(interpret("10 - 4 - 3"), Ok(3));
    assert_eq!(interpret("20 / 4 / 5"), Ok(1));
}

#[test]
fn test_invalid_character() {
    assert_eq!(interpret("1 + $"), Err(InterpError::InvalidCharacter));
    assert_eq!(tokenize_all("#"), Err(InterpError::InvalidCharacter));
}

#[test]
fn test_integer_overflow_while_scanning() {
    assert_eq!(interpret("2147483647"), Ok(2147483647));
    assert_eq!(interpret("2147483648"), Err(InterpError::IntegerOverflow));
    assert_eq!(
        tokenize_all("99999999999999999999"),
        Err(InterpError::IntegerOverflow)
    );
}

#[test]
fn test_integer_overflow_while_evaluating() {
    let node = AstNode::Add(
        Box::new(AstNode::IntLiteral(i32::MAX)),
        Box::new(AstNode::IntLiteral(1)),
    );
    assert_eq!(evaluate(&node), Err(InterpError::IntegerOverflow));
    let node = AstNode::Divide(
        Box::new(AstNode::IntLiteral(i32::MIN)),
        Box::new(AstNode::IntLiteral(-1)),
    );
    assert_eq!(evaluate(&node), Err(InterpError::IntegerOverflow));
}

#[test]
fn test_unexpected_token() {
    assert_eq!(interpret(""), Err(InterpError::UnexpectedToken));
    assert_eq!(interpret("(1"), Err(InterpError::UnexpectedToken));
    assert_eq!(interpret("+"), Err(InterpError::UnexpectedToken));
    assert_eq!(interpret("1 + *"), Err(InterpError::UnexpectedToken));
}

#[test]
fn test_invalid_assignment_target() {
    assert_eq!(interpret("1 = 2"), Err(InterpError::InvalidAssignmentTarget));
}

#[test]
fn test_unknown_identifier() {
    assert_eq!(interpret("x + 1"), Err(InterpError::UnknownIdentifier));
    let mut environment = Environment::new();
    assert_eq!(
        interpret_with_environment("y", &mut environment),
        Err(InterpError::UnknownIdentifier)
    );
}

#[test]
fn test_division_by_zero() {
    assert_eq!(interpret("1 / 0"), Err(InterpError::DivisionByZero));
}

#[test]
fn test_division_truncates_toward_zero() {
    let node = AstNode::Divide(
        Box::new(AstNode::IntLiteral(-7)),
        Box::new(AstNode::IntLiteral(2)),
    );
    assert_eq!(evaluate(&node), Ok(-3));
    let node = AstNode::Divide(
        Box::new(AstNode::IntLiteral(7)),
        Box::new(AstNode::IntLiteral(-2)),
    );
    assert_eq!(evaluate(&node), Ok(-3));
    let node = AstNode::Divide(
        Box::new(AstNode::IntLiteral(-8)),
        Box::new(AstNode::IntLiteral(-2)),
    );
    assert_eq!(evaluate(&node), Ok(4));
}

#[test]
fn test_assignment_on_the_left_is_visible_on_the_right() {
    let node = AstNode::Add(
        Box::new(AstNode::Assign(
            Box::new(AstNode::Identifier("x".to_string())),
            Box::new(AstNode::IntLiteral(5)),
        )),
        Box::new(AstNode::Identifier("x".to_string())),
    );
    assert_eq!(evaluate(&node), Ok(10));
}

#[test]
fn test_whitespace_is_skipped() {
    let tokens = tokenize_all(" \t1\r\n+ 2 ").unwrap();
    assert_eq!(
        tokens,
        vec![
            Token::Int(1),
            Token::Operator('+'),
            Token::Int(2),
            Token::EndOfInput,
        ]
    );
    assert_eq!(interpret("  1\t+\n2\r"), Ok(3));
}

#[test]
fn test_empty_input_scans_to_end_of_input() {
    assert_eq!(tokenize_all(""), Ok(vec![Token::EndOfInput]));
    assert_eq!(tokenize_all("   "), Ok(vec![Token::EndOfInput]));
}

#[test]
fn test_identifier_is_a_maximal_alphabetic_run() {
    let tokens = tokenize_all("abc xy1").unwrap();
    assert_eq!(
        tokens,
        vec![
            Token::Identifier("abc".to_string()),
            Token::Identifier("xy".to_string()),
            Token::Int(1),
            Token::EndOfInput,
        ]
    );
}

#[test]
fn test_identifier_spans_any_alphabetic_character() {
    let tokens = tokenize_all("a\u{e9} x").unwrap();
    assert_eq!(
        tokens,
        vec![
            Token::Identifier("a\u{e9}".to_string()),
            Token::Identifier("x".to_string()),
            Token::EndOfInput,
        ]
    );
    let mut environment = Environment::new();
    assert_eq!(
        interpret_with_environment("\u{e9} = 7", &mut environment),
        Ok(7)
    );
    assert_eq!(environment.get(&"\u{e9}".to_string()), Some(7));
}

#[test]
fn test_trailing_tokens_are_ignored() {
    assert_eq!(interpret("1 2"), Ok(1));
    assert_eq!(interpret("(1 + 2) 7"), Ok(3));
}

#[test]
fn test_interpret_expressions_empty_list_yields_zero() {
    assert_eq!(interpret_expressions(vec![]), Ok(0));
}

#[test]
fn test_interpret_expressions_stops_at_first_error() {
    assert_eq!(
        interpret_expressions(vec!["x = 1", "y", "x"]),
        Err(InterpError::UnknownIdentifier)
    );
}

#[test]
fn test_token_description() {
    assert_eq!(Token::Int(1).describe(), "Int(1)");
    assert_eq!(Token::Int(0).describe(), "Int(0)");
    assert_eq!(Token::Int(-12).describe(), "Int(-12)");
    assert_eq!(Token::Int(i32::MIN).describe(), "Int(-2147483648)");
    assert_eq!(Token::OpenParen.describe(), "OpenParen");
    assert_eq!(Token::ClosedParen.describe(), "ClosedParen");
    assert_eq!(Token::Operator('+').describe(), "Operator(+)");
    assert_eq!(
        Token::Identifier("abc".to_string()).describe(),
        "Identifier(abc)"
    );
    assert_eq!(Token::EndOfInput.describe(), "EndOfInput");
}
