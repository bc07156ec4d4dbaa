use rlox::ast::Literal;
use rlox::environment::Environment;
use rlox::interpreter::{
    binary_result, check_arity, decided_by_left, decimal_text, equality_result, is_truthy,
    unary_result, InterpreterErrorKind,
};
use rlox::ast::{BinOp, LogOp, UnOp};
use rlox::number::Number;
use rlox::token::{Token, TokenKind};

fn ident(name: &str) -> Token {
    Token { value: TokenKind::Identifier(name.to_string()), length: name.len(), lexeme: name.to_string() }
}

fn text(s: &str) -> Literal {
    Literal::String(s.to_string())
}

fn as_text(v: Literal) -> String {
    match v {
        Literal::String(s) => s,
        other => panic!("not a string: {:?}", other),
    }
}

#[test]
fn define_then_get() {
    let mut env = Environment::new();
    env.define(0, "a".to_string(), text("one"));
    assert_eq!(as_text(env.get(0, &ident("a")).unwrap()), "one");
}

#[test]
fn define_overwrites_in_same_scope() {
    let mut env = Environment::new();
    env.define(0, "a".to_string(), text("one"));
    env.define(0, "a".to_string(), text("two"));
    assert_eq!(as_text(env.get(0, &ident("a")).unwrap()), "two");
}

#[test]
fn get_searches_enclosing_scopes() {
    let mut env = Environment::new();
    env.define(0, "a".to_string(), text("outer"));
    let inner = env.with_enclosing(0);
    let innermost = env.with_enclosing(inner);
    assert_eq!(inner, 1);
    assert_eq!(innermost, 2);
    assert_eq!(env.len(), 3);
    assert_eq!(as_text(env.get(innermost, &ident("a")).unwrap()), "outer");
    env.define(inner, "a".to_string(), text("inner"));
    assert_eq!(as_text(env.get(innermost, &ident("a")).unwrap()), "inner");
    assert_eq!(as_text(env.get(0, &ident("a")).unwrap()), "outer");
}

#[test]
fn get_undefined_fails() {
    let env = Environment::new();
    assert_eq!(env.get(0, &ident("nope")).unwrap_err(), "Undefined variable 'nope'.");
}

#[test]
fn assign_updates_nearest_binding() {
    let mut env = Environment::new();
    env.define(0, "a".to_string(), text("outer"));
    let inner = env.with_enclosing(0);
    assert!(env.assign(inner, "a", text("changed")).is_ok());
    assert_eq!(as_text(env.get(0, &ident("a")).unwrap()), "changed");
}

#[test]
fn assign_never_creates_a_binding() {
    let mut env = Environment::new();
    let inner = env.with_enclosing(0);
    assert_eq!(env.assign(inner, "a", text("x")).unwrap_err(), "Undefined variable 'a'.");
    assert!(env.get(inner, &ident("a")).is_err());
    assert!(env.get(0, &ident("a")).is_err());
}

#[test]
fn sibling_scopes_do_not_see_each_other() {
    let mut env = Environment::new();
    let left = env.with_enclosing(0);
    let right = env.with_enclosing(0);
    env.define(left, "a".to_string(), text("left"));
    assert!(env.get(right, &ident("a")).is_err());
}

#[test]
fn truthiness() {
    assert!(!is_truthy(&Literal::Nil));
    assert!(!is_truthy(&Literal::Bool(false)));
    assert!(is_truthy(&Literal::Bool(true)));
    assert!(is_truthy(&Literal::Number(Number { bits: 0 })));
    assert!(is_truthy(&text("")));
}

#[test]
fn equality_of_values() {
    assert!(equality_result(&Literal::Nil, &Literal::Nil, false));
    assert!(equality_result(&text("a"), &text("a"), false));
    assert!(!equality_result(&text("a"), &text("b"), true));
    assert!(!equality_result(&text("a"), &Literal::Nil, true));
    assert!(equality_result(&Literal::Bool(true), &Literal::Bool(true), false));
    let one = Literal::Number(Number { bits: 1 });
    assert!(equality_result(&one, &one, true));
    assert!(!equality_result(&one, &one, false));
}

fn message<T: std::fmt::Debug>(r: Result<T, InterpreterErrorKind>) -> String {
    match r {
        Err(InterpreterErrorKind::General(m)) => m,
        other => panic!("no runtime error: {:?}", other),
    }
}

#[test]
fn unary_results() {
    let n = Number { bits: 7 };
    let negated = Number { bits: 9 };
    assert!(matches!(unary_result(UnOp::BinNeg, &Literal::Number(n), negated), Ok(Literal::Number(Number { bits: 9 }))));
    assert_eq!(message(unary_result(UnOp::BinNeg, &text("a"), negated)), "Operand must be a number");
    assert!(matches!(unary_result(UnOp::LogNeg, &Literal::Nil, negated), Ok(Literal::Bool(true))));
    assert!(matches!(unary_result(UnOp::LogNeg, &text("a"), negated), Ok(Literal::Bool(false))));
}

#[test]
fn binary_results() {
    let a = Literal::Number(Number { bits: 1 });
    let b = Literal::Number(Number { bits: 2 });
    let host = Number { bits: 3 };
    assert!(matches!(binary_result(BinOp::Plus, &a, &b, host, false), Ok(Literal::Number(Number { bits: 3 }))));
    assert!(matches!(binary_result(BinOp::Lt, &a, &b, host, true), Ok(Literal::Bool(true))));
    assert!(matches!(binary_result(BinOp::Ne, &a, &b, host, true), Ok(Literal::Bool(true))));
    assert!(matches!(binary_result(BinOp::EqEq, &a, &b, host, false), Ok(Literal::Bool(false))));
    assert!(matches!(binary_result(BinOp::Ne, &text("a"), &text("a"), host, true), Ok(Literal::Bool(false))));
    assert_eq!(as_text(binary_result(BinOp::Plus, &text("a"), &text("b"), host, false).unwrap()), "ab");
    assert_eq!(
        message(binary_result(BinOp::Plus, &a, &text("b"), host, false)),
        "Operands must be two numbers or two strings"
    );
    assert_eq!(message(binary_result(BinOp::Divide, &a, &Literal::Nil, host, false)), "Operands must be numbers");
    assert_eq!(message(binary_result(BinOp::Ge, &text("a"), &text("b"), host, false)), "Operands must be numbers");
}

#[test]
fn logical_decisions() {
    assert!(decided_by_left(LogOp::And, &Literal::Nil));
    assert!(!decided_by_left(LogOp::And, &text("x")));
    assert!(decided_by_left(LogOp::Or, &text("x")));
    assert!(!decided_by_left(LogOp::Or, &Literal::Bool(false)));
}

#[test]
fn arity_messages() {
    assert!(check_arity(3, 3).is_ok());
    assert_eq!(message(check_arity(2, 10)), "Expected 2 arguments but got 10.");
    assert_eq!(message(check_arity(0, 255)), "Expected 0 arguments but got 255.");
}

#[test]
fn decimal_texts() {
    assert_eq!(decimal_text(0), "0");
    assert_eq!(decimal_text(9), "9");
    assert_eq!(decimal_text(10), "10");
    assert_eq!(decimal_text(1234567890), "1234567890");
}
