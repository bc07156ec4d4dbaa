use rlox::ast::{pretty_print, BinOp, Expr, ExprKind, Literal, Stmt, UnOp};
use rlox::callable::{Clock, LoxCallable, LoxFunction};
use rlox::interpreter::{
    clock_value, describe, is_equal, Callable, Interpreter, InterpreterErrorKind,
};
use rlox::lexer::tokenize;
use rlox::number::{Arithmetic, Number};
use rlox::parser::parse;
use rlox::token::{Token, TokenKind};
use std::rc::Rc;

struct Doubles;

fn number(x: f64) -> Number {
    Number { bits: x.to_bits() }
}

fn value(n: Number) -> f64 {
    f64::from_bits(n.bits)
}

impl Arithmetic for Doubles {
    fn parse(&self, digits: &str) -> Number {
        number(digits.parse::<f64>().unwrap())
    }
    fn from_seconds(&self, seconds: u64) -> Number {
        number(seconds as f64)
    }
    fn format(&self, n: Number) -> String {
        format!("{}", value(n))
    }
    fn negate(&self, n: Number) -> Number {
        number(-value(n))
    }
    fn sum(&self, a: Number, b: Number) -> Number {
        number(value(a) + value(b))
    }
    fn difference(&self, a: Number, b: Number) -> Number {
        number(value(a) - value(b))
    }
    fn product(&self, a: Number, b: Number) -> Number {
        number(value(a) * value(b))
    }
    fn quotient(&self, a: Number, b: Number) -> Number {
        number(value(a) / value(b))
    }
    fn less(&self, a: Number, b: Number) -> bool {
        value(a) < value(b)
    }
    fn less_or_equal(&self, a: Number, b: Number) -> bool {
        value(a) <= value(b)
    }
    fn greater(&self, a: Number, b: Number) -> bool {
        value(a) > value(b)
    }
    fn greater_or_equal(&self, a: Number, b: Number) -> bool {
        value(a) >= value(b)
    }
    fn equal(&self, a: Number, b: Number) -> bool {
        value(a) == value(b)
    }
}

fn program(source: &str) -> Vec<Stmt> {
    let parsed = parse(tokenize(source, &Doubles));
    assert!(parsed.errors.is_empty(), "{:?}", parsed.errors);
    parsed.statements
}

fn literal(l: Literal) -> Expr {
    Expr { kind: ExprKind::Literal(l) }
}

fn num(x: f64) -> Expr {
    literal(Literal::Number(number(x)))
}

fn message<T: std::fmt::Debug>(r: Result<T, InterpreterErrorKind>) -> String {
    match r {
        Err(InterpreterErrorKind::General(m)) => m,
        other => panic!("no runtime error: {:?}", other),
    }
}

#[test]
fn pretty_print_writes_prefix_form() {
    let expr = Expr {
        kind: ExprKind::Binary(
            BinOp::Multiply,
            Box::new(Expr { kind: ExprKind::Unary(UnOp::BinNeg, Box::new(num(123.0))) }),
            Box::new(Expr { kind: ExprKind::Grouping(Box::new(num(45.67))) }),
        ),
    };
    assert_eq!(pretty_print(&expr, &Doubles), "( * ( - 123) ( group 45.67))");
}

#[test]
fn pretty_print_of_each_node() {
    let stmts = program("a = f(1) or \"s\"; nil and !true;");
    let Stmt::Expression(first) = &stmts[0] else { panic!("no expression") };
    assert_eq!(pretty_print(first, &Doubles), "( = a ( or ( call ( var f)) \"s\"))");
    let Stmt::Expression(second) = &stmts[1] else { panic!("no expression") };
    assert_eq!(pretty_print(second, &Doubles), "( and nil ( ! true))");
}

#[test]
fn evaluate_literal_and_arithmetic() {
    let mut interpreter = Interpreter::new(Doubles);
    let value = interpreter.evaluate(&num(2.5)).unwrap();
    assert!(matches!(value, Literal::Number(n) if f64::from_bits(n.bits) == 2.5));
    let sum = Expr { kind: ExprKind::Binary(BinOp::Plus, Box::new(num(1.0)), Box::new(num(2.0))) };
    let value = interpreter.evaluate(&sum).unwrap();
    assert_eq!(describe(&value, &Doubles), "3");
}

#[test]
fn execute_prints_into_output() {
    let mut interpreter = Interpreter::new(Doubles);
    for stmt in program("print 1; print \"two\"; print nil; print true;").iter() {
        interpreter.execute(stmt).unwrap();
    }
    assert_eq!(interpreter.take_output(), vec!["1", "two", "nil", "true"]);
    assert!(interpreter.take_output().is_empty());
}

#[test]
fn return_is_a_signal_not_an_error() {
    let mut interpreter = Interpreter::new(Doubles);
    let stmts = program("return 7; return;");
    let first = interpreter.execute(&stmts[0]);
    assert!(matches!(first, Err(InterpreterErrorKind::Return(Some(Literal::Number(_))))));
    let second = interpreter.execute(&stmts[1]);
    assert!(matches!(second, Err(InterpreterErrorKind::Return(None))));
}

#[test]
fn execute_block_runs_in_given_scope_and_restores() {
    let mut interpreter = Interpreter::new(Doubles);
    let globals = interpreter.globals();
    assert_eq!(globals, 0);
    let stmts = program("var a = 1; var b = a + 1; print b; print missing; print 3;");
    let outcome = interpreter.execute_block(&stmts, globals);
    assert_eq!(message(outcome), "Undefined variable 'missing'.");
    assert_eq!(interpreter.take_output(), vec!["2"]);
    let after = program("print a;");
    interpreter.execute(&after[0]).unwrap();
    assert_eq!(interpreter.take_output(), vec!["1"]);
}

#[test]
fn budget_ends_endless_loops() {
    let mut interpreter = Interpreter::new(Doubles);
    interpreter.set_budget(1000);
    let stmts = program("var n = 0; while (true) n = n + 1; print n;");
    interpreter.execute(&stmts[0]).unwrap();
    assert_eq!(message(interpreter.execute(&stmts[1])), "Evaluation budget exhausted");
    assert_eq!(message(interpreter.execute(&stmts[2])), "Evaluation budget exhausted");
    interpreter.set_budget(10);
    interpreter.execute(&stmts[2]).unwrap();
    let printed = interpreter.take_output();
    assert_eq!(printed.len(), 1);
    assert!(printed[0].parse::<f64>().unwrap() > 100.0);
}

#[test]
fn budget_ends_endless_recursion() {
    let mut interpreter = Interpreter::new(Doubles);
    interpreter.set_budget(500);
    let stmts = program("fun f() { return f(); } f();");
    interpreter.execute(&stmts[0]).unwrap();
    assert_eq!(message(interpreter.execute(&stmts[1])), "Evaluation budget exhausted");
}

fn ident(name: &str) -> Token {
    Token { value: TokenKind::Identifier(name.to_string()), length: name.len(), lexeme: name.to_string() }
}

#[test]
fn callables_know_their_arity() {
    let function = LoxFunction::new(
        "f".to_string(),
        Rc::new(vec![ident("a"), ident("b")]),
        Rc::new(Vec::new()),
        0,
    );
    assert_eq!(function.arity(), 2);
    assert_eq!(Clock.arity(), 0);
    assert_eq!(LoxCallable::Function(function.clone()).arity(), 2);
    assert_eq!(LoxCallable::Other(Clock).arity(), 0);
    assert_eq!(describe(&Literal::Callable(LoxCallable::Function(function)), &Doubles), "<fn f>");
}

#[test]
fn function_call_binds_parameters_in_order() {
    let mut interpreter = Interpreter::new(Doubles);
    let body = program("print a; print b; return b;");
    let function = LoxFunction::new(
        "f".to_string(),
        Rc::new(vec![ident("a"), ident("b")]),
        Rc::new(body),
        0,
    );
    let args = vec![Literal::String("x".to_string()), Literal::Bool(false)];
    let value = function.call(&mut interpreter, &args).unwrap();
    assert!(matches!(value, Literal::Bool(false)));
    assert_eq!(interpreter.take_output(), vec!["x", "false"]);
    let clock = LoxCallable::Other(Clock).call(&mut interpreter, &Vec::new()).unwrap();
    assert!(matches!(clock, Literal::Number(n) if f64::from_bits(n.bits) > 1.0e9));
}

#[test]
fn equality_asks_the_host_for_numbers_only() {
    assert!(is_equal(&Literal::Number(number(0.0)), &Literal::Number(number(-0.0)), &Doubles));
    assert!(!is_equal(&Literal::Number(number(f64::NAN)), &Literal::Number(number(f64::NAN)), &Doubles));
    assert!(!is_equal(&Literal::Number(number(1.0)), &Literal::String("1".to_string()), &Doubles));
    assert!(is_equal(&Literal::Nil, &Literal::Nil, &Doubles));
}

#[test]
fn clock_value_is_the_reading() {
    let value = clock_value(number(12.5)).unwrap();
    assert!(matches!(value, Literal::Number(n) if f64::from_bits(n.bits) == 12.5));
}

struct Fixed;

impl Arithmetic for Fixed {
    fn parse(&self, _digits: &str) -> Number {
        number(0.0)
    }
    fn from_seconds(&self, seconds: u64) -> Number {
        Number { bits: if seconds > 1_000_000_000 { 77 } else { 33 } }
    }
    fn format(&self, n: Number) -> String {
        format!("{}", n.bits)
    }
    fn negate(&self, n: Number) -> Number {
        n
    }
    fn sum(&self, a: Number, _b: Number) -> Number {
        a
    }
    fn difference(&self, a: Number, _b: Number) -> Number {
        a
    }
    fn product(&self, a: Number, _b: Number) -> Number {
        a
    }
    fn quotient(&self, a: Number, _b: Number) -> Number {
        a
    }
    fn less(&self, _a: Number, _b: Number) -> bool {
        false
    }
    fn less_or_equal(&self, _a: Number, _b: Number) -> bool {
        false
    }
    fn greater(&self, _a: Number, _b: Number) -> bool {
        false
    }
    fn greater_or_equal(&self, _a: Number, _b: Number) -> bool {
        false
    }
    fn equal(&self, _a: Number, _b: Number) -> bool {
        false
    }
}

#[test]
fn clock_hands_the_seconds_to_the_host() {
    let mut interpreter = Interpreter::new(Fixed);
    let value = Clock.call(&mut interpreter, &Vec::new()).unwrap();
    assert!(matches!(value, Literal::Number(Number { bits: 77 })));
    assert!(interpreter.take_output().is_empty());
}
