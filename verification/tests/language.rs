use rlox::number::{Arithmetic, Number};
use rlox::runner::{LoxErrorType, RunReport, Runner};

struct Doubles;

fn value(n: Number) -> f64 {
    f64::from_bits(n.bits)
}

fn number(x: f64) -> Number {
    Number { bits: x.to_bits() }
}

impl Arithmetic for Doubles {
    fn parse(&self, digits: &str) -> Number {
        number(digits.parse::<f64>().unwrap())
    }
    fn from_seconds(&self, seconds: u64) -> Number {
        number(seconds as f64)
    }
    fn format(&self, n: Number) -> String {
        format!("{}", value(n))
    }
    fn negate(&self, n: Number) -> Number {
        number(-value(n))
    }
    fn sum(&self, a: Number, b: Number) -> Number {
        number(value(a) + value(b))
    }
    fn difference(&self, a: Number, b: Number) -> Number {
        number(value(a) - value(b))
    }
    fn product(&self, a: Number, b: Number) -> Number {
        number(value(a) * value(b))
    }
    fn quotient(&self, a: Number, b: Number) -> Number {
        number(value(a) / value(b))
    }
    fn less(&self, a: Number, b: Number) -> bool {
        value(a) < value(b)
    }
    fn less_or_equal(&self, a: Number, b: Number) -> bool {
        value(a) <= value(b)
    }
    fn greater(&self, a: Number, b: Number) -> bool {
        value(a) > value(b)
    }
    fn greater_or_equal(&self, a: Number, b: Number) -> bool {
        value(a) >= value(b)
    }
    fn equal(&self, a: Number, b: Number) -> bool {
        value(a) == value(b)
    }
}

fn run(source: &str) -> RunReport {
    let mut runner = Runner::new(Doubles);
    runner.run(source)
}

fn prints(source: &str) -> Vec<String> {
    let report = run(source);
    assert!(report.parse_errors.is_empty(), "{:?}", report.parse_errors);
    assert!(report.result.is_ok());
    report.output
}

fn runtime_error(source: &str) -> String {
    let report = run(source);
    assert!(report.parse_errors.is_empty(), "{:?}", report.parse_errors);
    let error = report.result.unwrap_err();
    assert!(matches!(error.error_type, LoxErrorType::RuntimeError));
    assert_eq!(error.line, 0);
    error.message
}

#[test]
fn arithmetic_follows_precedence() {
    assert_eq!(prints("print 1 + 2 * 3;"), vec!["7"]);
}

#[test]
fn variables_add_up() {
    assert_eq!(prints("var a = 1; var b = 2; print a + b;"), vec!["3"]);
}

#[test]
fn inner_scope_shadows_and_ends() {
    assert_eq!(
        prints("var a = \"hi\"; { var a = \"inner\"; print a; } print a;"),
        vec!["inner", "hi"]
    );
}

#[test]
fn function_returns_sum() {
    assert_eq!(prints("fun add(a,b){return a+b;} print add(3,4);"), vec!["7"]);
}

#[test]
fn closure_keeps_its_counter() {
    assert_eq!(
        prints(
            "fun mk(){var i=0; fun inc(){i=i+1; return i;} return inc;} var f = mk(); print f(); print f(); print f();"
        ),
        vec!["1", "2", "3"]
    );
}

#[test]
fn logical_operators_short_circuit() {
    assert_eq!(
        prints("print nil or \"x\"; print false or nil; print 1 and 2;"),
        vec!["x", "nil", "2"]
    );
}

#[test]
fn short_circuit_skips_right_operand() {
    assert_eq!(
        prints("var a = 1; true or (a = 2); false and (a = 3); print a;"),
        vec!["1"]
    );
}

#[test]
fn for_loop_counts() {
    assert_eq!(prints("for (var i=0; i<3; i=i+1) print i;"), vec!["0", "1", "2"]);
}

#[test]
fn for_loop_without_clauses_runs_until_return() {
    assert_eq!(
        prints("fun f(){ var i = 0; for (;;) { i = i + 1; if (i >= 4) return i; } } print f();"),
        vec!["4"]
    );
}

#[test]
fn runtime_error_halts_the_run() {
    let report = run("print 1 + \"a\"; print 2;");
    assert!(report.output.is_empty());
    let error = report.result.unwrap_err();
    assert_eq!(error.message, "Operands must be two numbers or two strings");
}

#[test]
fn statements_before_runtime_error_still_print() {
    let report = run("print 1; print -\"a\"; print 2;");
    assert_eq!(report.output, vec!["1"]);
    assert_eq!(report.result.unwrap_err().message, "Operand must be a number");
}

#[test]
fn self_assignment_changes_nothing() {
    assert_eq!(prints("var a = 5; a = a; print a;"), vec!["5"]);
    assert_eq!(prints("var a = \"s\"; a = a; a = a; print a;"), vec!["s"]);
}

#[test]
fn var_without_initializer_is_nil() {
    assert_eq!(prints("var a; print a;"), vec!["nil"]);
}

#[test]
fn define_twice_overwrites() {
    assert_eq!(prints("var a = 1; var a = 2; print a;"), vec!["2"]);
}

#[test]
fn assign_to_undefined_fails_and_creates_nothing() {
    assert_eq!(runtime_error("a = 1;"), "Undefined variable 'a'.");
    let mut runner = Runner::new(Doubles);
    assert!(runner.run("a = 1;").result.is_err());
    let report = runner.run("print a;");
    assert_eq!(report.result.unwrap_err().message, "Undefined variable 'a'.");
}

#[test]
fn assignment_reaches_enclosing_scope() {
    assert_eq!(prints("var a = 1; { a = 2; } print a;"), vec!["2"]);
}

#[test]
fn closure_sees_declaration_scope_not_call_site() {
    assert_eq!(
        prints(
            "var a = \"global\"; fun show() { print a; } { var a = \"block\"; show(); }"
        ),
        vec!["global"]
    );
}

#[test]
fn arguments_are_evaluated_left_to_right() {
    assert_eq!(
        prints(
            "var n = 0; fun next() { n = n + 1; return n; } fun pair(a, b) { print a; print b; } pair(next(), next());"
        ),
        vec!["1", "2"]
    );
}

#[test]
fn left_operand_is_evaluated_first() {
    assert_eq!(
        prints("var n = 0; fun next() { n = n + 1; return n; } print next() - next();"),
        vec!["-1"]
    );
}

#[test]
fn block_restores_scope_after_error() {
    let mut runner = Runner::new(Doubles);
    let report = runner.run("var a = 1; { var a = 2; print nope; }");
    assert_eq!(report.result.unwrap_err().message, "Undefined variable 'nope'.");
    let report = runner.run("print a;");
    assert_eq!(report.output, vec!["1"]);
}

#[test]
fn negation_inverts_truth() {
    assert_eq!(
        prints("print !true; print !false; print !nil; print !0; print !\"\";"),
        vec!["false", "true", "true", "false", "false"]
    );
}

#[test]
fn comparison_and_equality() {
    assert_eq!(
        prints(
            "print 1 < 2; print 2 <= 2; print 3 > 4; print 4 >= 5; print 1 == 1; print 1 != 1; print nil == nil; print \"a\" == \"a\"; print \"a\" == 1; print true != false;"
        ),
        vec!["true", "true", "false", "false", "true", "false", "true", "true", "false", "true"]
    );
}

#[test]
fn strings_concatenate() {
    assert_eq!(prints("print \"ab\" + \"cd\";"), vec!["abcd"]);
}

#[test]
fn division_by_zero_is_not_an_error() {
    assert_eq!(prints("print 1 / 0;"), vec!["inf"]);
    assert_eq!(prints("print 7 / 2;"), vec!["3.5"]);
}

#[test]
fn fraction_literal() {
    assert_eq!(prints("print 1.50 + 0.25;"), vec!["1.75"]);
}

#[test]
fn operands_must_be_numbers() {
    assert_eq!(runtime_error("print 1 - \"a\";"), "Operands must be numbers");
    assert_eq!(runtime_error("print nil * 2;"), "Operands must be numbers");
    assert_eq!(runtime_error("print 1 < \"a\";"), "Operands must be numbers");
}

#[test]
fn only_callables_can_be_called() {
    assert_eq!(runtime_error("var a = 1; a();"), "Can only call functions and classes");
}

#[test]
fn arity_is_checked() {
    assert_eq!(
        runtime_error("fun f(a, b) {} f(1);"),
        "Expected 2 arguments but got 1."
    );
    assert_eq!(runtime_error("clock(1, 2, 3);"), "Expected 0 arguments but got 3.");
}

#[test]
fn arguments_are_evaluated_before_arity_is_checked() {
    let mut runner = Runner::new(Doubles);
    let report = runner.run(
        "var n = 0; fun next() { n = n + 1; return n; } fun one(a) {} one(next(), next());",
    );
    assert_eq!(report.result.unwrap_err().message, "Expected 1 arguments but got 2.");
    assert_eq!(runner.run("print n;").output, vec!["2"]);
    let report = runner.run("one(missing, 2);");
    assert_eq!(report.result.unwrap_err().message, "Undefined variable 'missing'.");
}

#[test]
fn function_without_return_yields_nil() {
    assert_eq!(prints("fun f() {} print f();"), vec!["nil"]);
    assert_eq!(prints("fun f() { return; } print f();"), vec!["nil"]);
}

#[test]
fn callables_have_a_text() {
    assert_eq!(prints("fun f() {} print f; print clock;"), vec!["<fn f>", "<native fn>"]);
}

#[test]
fn clock_returns_a_number() {
    assert_eq!(prints("print clock() > 1000000000;"), vec!["true"]);
}

#[test]
fn recursion_works() {
    assert_eq!(
        prints("fun fib(n) { if (n < 2) return n; return fib(n - 1) + fib(n - 2); } print fib(10);"),
        vec!["55"]
    );
}

#[test]
fn while_loop_runs_until_false() {
    assert_eq!(
        prints("var i = 0; while (i < 3) { print i; i = i + 1; }"),
        vec!["0", "1", "2"]
    );
}

#[test]
fn if_else_branches() {
    assert_eq!(
        prints("if (nil) print 1; else print 2; if (0) print 3;"),
        vec!["2", "3"]
    );
}

#[test]
fn session_keeps_definitions_between_runs() {
    let mut runner = Runner::new(Doubles);
    assert!(runner.run("var a = 41;").result.is_ok());
    assert!(runner.run("fun up(x) { return x + 1; }").result.is_ok());
    let report = runner.run("print up(a);");
    assert_eq!(report.output, vec!["42"]);
}

#[test]
fn parse_error_skips_only_the_bad_statement() {
    let report = run("print 1; print +; print 2;");
    assert_eq!(report.parse_errors.len(), 1);
    assert!(report.result.is_ok());
    assert_eq!(report.output, vec!["1", "2"]);
}

#[test]
fn invalid_assignment_target_is_reported() {
    let report = run("1 = 2; print 3;");
    assert_eq!(report.parse_errors, vec!["Invalid assignment target"]);
    assert_eq!(report.output, vec!["3"]);
}

#[test]
fn return_at_top_level_is_ignored() {
    let report = run("return 1; print 2;");
    assert!(report.result.is_ok());
    assert_eq!(report.output, vec!["2"]);
}

#[test]
fn empty_source_does_nothing() {
    let report = run("");
    assert!(report.output.is_empty());
    assert!(report.parse_errors.is_empty());
    assert!(report.result.is_ok());
}

#[test]
fn comments_are_skipped() {
    assert_eq!(prints("// nothing here\nprint 1; // trailing\n"), vec!["1"]);
}
