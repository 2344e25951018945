//! Unit tests of values, tokens, environments and direct evaluation.

use mango::environment::Environment;
use mango::expression::Expression;
use mango::interpreter::Interpreter;
use mango::literal::{Fac, Literal, Pow};
use mango::token::Token;
use mango::token_type::TokenType;

#[test]
fn literal_addition() {
    assert_eq!(
        Literal::Number(2).add(Literal::Number(3)),
        Literal::Number(5)
    );
    assert_eq!(
        Literal::Str("a".to_string()).add(Literal::Str("b".to_string())),
        Literal::Str("ab".to_string())
    );
    assert_eq!(Literal::Boolean(true).add(Literal::Number(1)), Literal::Nil);
}

#[test]
fn literal_addition_overflow_is_nil() {
    assert_eq!(
        Literal::Number(i64::MAX).add(Literal::Number(1)),
        Literal::Nil
    );
    assert_eq!(
        Literal::Number(i64::MIN).sub(Literal::Number(1)),
        Literal::Nil
    );
}

#[test]
fn literal_multiplication_and_division() {
    assert_eq!(
        Literal::Number(6).mul(Literal::Number(7)),
        Literal::Number(42)
    );
    assert_eq!(
        Literal::Number(i64::MAX).mul(Literal::Number(2)),
        Literal::Nil
    );
    assert_eq!(
        Literal::Number(42).div(Literal::Number(6)),
        Literal::Number(7)
    );
    assert_eq!(Literal::Number(1).div(Literal::Number(0)), Literal::Nil);
    assert_eq!(
        Literal::Number(i64::MIN).div(Literal::Number(-1)),
        Literal::Nil
    );
    assert_eq!(
        Literal::Number(i64::MIN).div(Literal::Number(1)),
        Literal::Number(i64::MIN)
    );
}

#[test]
fn literal_negation() {
    assert_eq!(Literal::Number(5).neg(), Literal::Number(-5));
    assert_eq!(Literal::Number(i64::MIN).neg(), Literal::Nil);
    assert_eq!(Literal::Str("x".to_string()).neg(), Literal::Nil);
    assert_eq!(Literal::Boolean(true).not(), Literal::Boolean(false));
    assert_eq!(Literal::Number(1).not(), Literal::Boolean(false));
}

#[test]
fn literal_power() {
    assert_eq!(
        Literal::Number(2).pow(Literal::Number(10)),
        Literal::Number(1024)
    );
    assert_eq!(
        Literal::Number(9).pow(Literal::Number(0)),
        Literal::Number(1)
    );
    assert_eq!(Literal::Number(2).pow(Literal::Number(63)), Literal::Nil);
    assert_eq!(
        Literal::Number(-2).pow(Literal::Number(63)),
        Literal::Number(i64::MIN)
    );
    assert_eq!(Literal::Number(2).pow(Literal::Number(-1)), Literal::Nil);
}

#[test]
fn literal_factorial() {
    assert_eq!(Literal::Number(5).fac(), Literal::Number(120));
    assert_eq!(Literal::Number(0).fac(), Literal::Number(0));
    assert_eq!(Literal::Number(-10).fac(), Literal::Number(0));
    assert_eq!(Literal::Number(20).fac(), Literal::Number(2432902008176640000));
    assert_eq!(Literal::Number(21).fac(), Literal::Nil);
    assert_eq!(Literal::Str("x".to_string()).fac(), Literal::Nil);
}

#[test]
fn literal_comparisons() {
    assert_eq!(
        Literal::Number(1).lt(Literal::Number(2)),
        Literal::Boolean(true)
    );
    assert_eq!(
        Literal::Number(2).le(Literal::Number(2)),
        Literal::Boolean(true)
    );
    assert_eq!(
        Literal::Number(2).gt(Literal::Number(2)),
        Literal::Boolean(false)
    );
    assert_eq!(
        Literal::Number(3).ge(Literal::Number(2)),
        Literal::Boolean(true)
    );
    assert_eq!(
        Literal::Str("a".to_string()).lt(Literal::Str("b".to_string())),
        Literal::Boolean(false)
    );
}

#[test]
fn literal_equality_comparison() {
    assert_eq!(
        Literal::Number(1).eq_value(Literal::Number(1)),
        Literal::Boolean(true)
    );
    assert_eq!(
        Literal::Str("a".to_string()).eq_value(Literal::Str("a".to_string())),
        Literal::Boolean(true)
    );
    assert_eq!(
        Literal::Number(1).eq_value(Literal::Str("1".to_string())),
        Literal::Boolean(false)
    );
    assert_eq!(Literal::Nil.eq_value(Literal::Nil), Literal::Boolean(true));
}

#[test]
fn literal_text_forms() {
    assert_eq!(Literal::Number(42).to_text(), "42");
    assert_eq!(Literal::Number(-42).to_text(), "-42");
    assert_eq!(Literal::Number(i64::MIN).to_text(), "-9223372036854775808");
    assert_eq!(Literal::Boolean(true).to_text(), "true");
    assert_eq!(Literal::Boolean(false).to_text(), "false");
    assert_eq!(Literal::Str("verbatim".to_string()).to_text(), "verbatim");
    assert_eq!(Literal::Nil.to_text(), "None");
}

#[test]
fn token_without_payload_carries_nil() {
    let token = Token::new(TokenType::Semicolon, None);
    assert_eq!(token.kind, TokenType::Semicolon);
    assert!(matches!(token.literal, Literal::Nil));
}

#[test]
fn token_with_payload_keeps_it() {
    let token = Token::new(TokenType::Number, Some(Literal::Number(7)));
    assert_eq!(token.kind, TokenType::Number);
    assert_eq!(token.literal, Literal::Number(7));
}

#[test]
fn keywords_classify() {
    assert_eq!(TokenType::from("true".to_string()), TokenType::True);
    assert_eq!(TokenType::from("false".to_string()), TokenType::False);
    assert_eq!(TokenType::from("var".to_string()), TokenType::Var);
    assert_eq!(TokenType::from("print".to_string()), TokenType::Print);
    assert_eq!(TokenType::from("while".to_string()), TokenType::While);
    assert_eq!(TokenType::from("varx".to_string()), TokenType::Identifier);
    assert_eq!(TokenType::from("TRUE".to_string()), TokenType::Identifier);
}

#[test]
fn environment_defines_and_reads() {
    let mut env = Environment::new();
    env.define("a".to_string(), Literal::Number(1));
    assert_eq!(env.access(&"a".to_string()), Some(Literal::Number(1)));
    assert_eq!(env.access(&"b".to_string()), None);
}

#[test]
fn environment_redefines_in_place() {
    let mut env = Environment::new();
    env.define("a".to_string(), Literal::Number(1));
    env.define("a".to_string(), Literal::Number(2));
    assert_eq!(env.access(&"a".to_string()), Some(Literal::Number(2)));
}

#[test]
fn environment_reads_through_scopes() {
    let mut env = Environment::new();
    env.define("a".to_string(), Literal::Number(1));
    let mut child = Environment::from_enclosing(env);
    assert_eq!(child.access(&"a".to_string()), Some(Literal::Number(1)));
    child.define("a".to_string(), Literal::Number(2));
    assert_eq!(child.access(&"a".to_string()), Some(Literal::Number(2)));
}

#[test]
fn environment_assigns_through_scopes() {
    let mut env = Environment::new();
    env.define("a".to_string(), Literal::Number(1));
    let mut child = Environment::from_enclosing(env);
    let r = child.assign(&"a".to_string(), Literal::Number(9));
    assert_eq!(r, Some(Literal::Number(9)));
    assert_eq!(child.access(&"a".to_string()), Some(Literal::Number(9)));
}

#[test]
fn environment_assign_to_unknown_name_fails() {
    let mut env = Environment::new();
    assert_eq!(env.assign(&"a".to_string(), Literal::Number(1)), None);
}

#[test]
fn evaluate_comparison_expressions() {
    let mut interpreter = Interpreter::new();
    let less = Expression::Binary {
        left: Box::new(Expression::Literal(Literal::Number(1))),
        operator: Token::new(TokenType::Less, None),
        right: Box::new(Expression::Literal(Literal::Number(2))),
    };
    assert_eq!(interpreter.evaluate(&less), Ok(Literal::Boolean(true)));
    let equal = Expression::Binary {
        left: Box::new(Expression::Literal(Literal::Str("a".to_string()))),
        operator: Token::new(TokenType::EqualEqual, None),
        right: Box::new(Expression::Literal(Literal::Str("a".to_string()))),
    };
    assert_eq!(interpreter.evaluate(&equal), Ok(Literal::Boolean(true)));
    let mixed = Expression::Binary {
        left: Box::new(Expression::Literal(Literal::Number(1))),
        operator: Token::new(TokenType::GreaterEqual, None),
        right: Box::new(Expression::Literal(Literal::Str("1".to_string()))),
    };
    assert_eq!(interpreter.evaluate(&mixed), Ok(Literal::Boolean(false)));
}
