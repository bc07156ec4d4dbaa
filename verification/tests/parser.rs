use rlox::ast::{BinOp, Expr, ExprKind, Literal, LogOp, Stmt, UnOp};
use rlox::lexer::tokenize;
use rlox::number::{Arithmetic, Number};
use rlox::parser::{desugar_for, make_assignment, parse, Parser, ParsingError};
use rlox::token::{Token, TokenKind};

struct Doubles;

fn number(x: f64) -> Number {
    Number { bits: x.to_bits() }
}

fn value(n: Number) -> f64 {
    f64::from_bits(n.bits)
}

impl Arithmetic for Doubles {
    fn parse(&self, digits: &str) -> Number {
        number(digits.parse::<f64>().unwrap())
    }
    fn from_seconds(&self, seconds: u64) -> Number {
        number(seconds as f64)
    }
    fn format(&self, n: Number) -> String {
        format!("{}", value(n))
    }
    fn negate(&self, n: Number) -> Number {
        number(-value(n))
    }
    fn sum(&self, a: Number, b: Number) -> Number {
        number(value(a) + value(b))
    }
    fn difference(&self, a: Number, b: Number) -> Number {
        number(value(a) - value(b))
    }
    fn product(&self, a: Number, b: Number) -> Number {
        number(value(a) * value(b))
    }
    fn quotient(&self, a: Number, b: Number) -> Number {
        number(value(a) / value(b))
    }
    fn less(&self, a: Number, b: Number) -> bool {
        value(a) < value(b)
    }
    fn less_or_equal(&self, a: Number, b: Number) -> bool {
        value(a) <= value(b)
    }
    fn greater(&self, a: Number, b: Number) -> bool {
        value(a) > value(b)
    }
    fn greater_or_equal(&self, a: Number, b: Number) -> bool {
        value(a) >= value(b)
    }
    fn equal(&self, a: Number, b: Number) -> bool {
        value(a) == value(b)
    }
}

fn statements(source: &str) -> Vec<Stmt> {
    let parsed = parse(tokenize(source, &Doubles));
    assert!(parsed.errors.is_empty(), "{:?}", parsed.errors);
    parsed.statements
}

fn errors(source: &str) -> Vec<String> {
    parse(tokenize(source, &Doubles)).errors
}

fn shape(e: &Expr) -> String {
    match &e.kind {
        ExprKind::Binary(op, l, r) => format!("({} {} {})", op.symbol(), shape(l), shape(r)),
        ExprKind::Logical(op, l, r) => format!("({} {} {})", op.symbol(), shape(l), shape(r)),
        ExprKind::Unary(op, e) => format!("({} {})", op.symbol(), shape(e)),
        ExprKind::Grouping(e) => format!("(group {})", shape(e)),
        ExprKind::Literal(Literal::Number(n)) => format!("{}", value(*n)),
        ExprKind::Literal(Literal::String(s)) => format!("{:?}", s),
        ExprKind::Literal(Literal::Bool(b)) => format!("{}", b),
        ExprKind::Literal(Literal::Nil) => "nil".to_string(),
        ExprKind::Literal(Literal::Callable(_)) => "callable".to_string(),
        ExprKind::Variable(t) => t.lexeme.clone(),
        ExprKind::Assign(t, e) => format!("(= {} {})", t.lexeme, shape(e)),
        ExprKind::Call(c, args) => {
            let args: Vec<String> = args.iter().map(shape).collect();
            format!("(call {} [{}])", shape(c), args.join(" "))
        }
    }
}

fn expression(source: &str) -> String {
    let stmts = statements(source);
    assert_eq!(stmts.len(), 1);
    match &stmts[0] {
        Stmt::Expression(e) => shape(e),
        other => panic!("not an expression statement: {:?}", other),
    }
}

#[test]
fn factor_binds_tighter_than_term() {
    assert_eq!(expression("1 + 2 * 3;"), "(+ 1 (* 2 3))");
    assert_eq!(expression("1 * 2 + 3;"), "(+ (* 1 2) 3)");
}

#[test]
fn binary_operators_group_to_the_left() {
    assert_eq!(expression("1 - 2 - 3;"), "(- (- 1 2) 3)");
    assert_eq!(expression("8 / 4 / 2;"), "(/ (/ 8 4) 2)");
    assert_eq!(expression("a or b or c;"), "(or (or a b) c)");
    assert_eq!(expression("a == b != c;"), "(!= (== a b) c)");
    assert_eq!(expression("a < b >= c;"), "(>= (< a b) c)");
}

#[test]
fn assignment_groups_to_the_right() {
    assert_eq!(expression("a = b = 3;"), "(= a (= b 3))");
}

#[test]
fn precedence_ladder() {
    assert_eq!(
        expression("a = b or c and d == e < f + g * -h;"),
        "(= a (or b (and c (== d (< e (+ f (* g (- h))))))))"
    );
}

#[test]
fn unary_and_grouping() {
    assert_eq!(expression("!-(1 + 2);"), "(! (- (group (+ 1 2))))");
}

#[test]
fn calls_chain() {
    assert_eq!(expression("f(1, x)(\"s\")();"), "(call (call (call f [1 x]) [\"s\"]) [])");
}

#[test]
fn literals() {
    assert_eq!(expression("true;"), "true");
    assert_eq!(expression("false;"), "false");
    assert_eq!(expression("nil;"), "nil");
    assert_eq!(expression("12.5;"), "12.5");
    assert_eq!(expression("\"s\";"), "\"s\"");
}

#[test]
fn for_becomes_block_and_while() {
    let stmts = statements("for (var i = 0; i < 3; i = i + 1) print i;");
    assert_eq!(stmts.len(), 1);
    let Stmt::Block(outer) = &stmts[0] else { panic!("no block") };
    assert_eq!(outer.len(), 2);
    assert!(matches!(&outer[0], Stmt::Var(name, Some(_)) if name.lexeme == "i"));
    let Stmt::While(condition, body) = &outer[1] else { panic!("no while") };
    assert_eq!(shape(condition), "(< i 3)");
    let Stmt::Block(inner) = &**body else { panic!("no inner block") };
    assert_eq!(inner.len(), 2);
    assert!(matches!(&inner[0], Stmt::Print(_)));
    assert!(matches!(&inner[1], Stmt::Expression(e) if shape(e) == "(= i (+ i 1))"));
}

#[test]
fn bare_for_is_a_while_over_true() {
    let stmts = statements("for (;;) print 1;");
    let Stmt::While(condition, body) = &stmts[0] else { panic!("no while") };
    assert_eq!(shape(condition), "true");
    assert!(matches!(&**body, Stmt::Print(_)));
}

fn ident(name: &str) -> Token {
    Token { value: TokenKind::Identifier(name.to_string()), length: name.len(), lexeme: name.to_string() }
}

fn nil() -> Expr {
    Expr { kind: ExprKind::Literal(Literal::Nil) }
}

#[test]
fn desugar_for_builds_each_shape() {
    let s = desugar_for(None, None, None, Stmt::Print(nil()));
    assert!(matches!(&s, Stmt::While(c, b) if shape(c) == "true" && matches!(&**b, Stmt::Print(_))));
    let s = desugar_for(Some(Stmt::Var(ident("i"), None)), Some(nil()), Some(nil()), Stmt::Print(nil()));
    let Stmt::Block(outer) = s else { panic!("no block") };
    assert!(matches!(&outer[0], Stmt::Var(..)));
    assert!(matches!(&outer[1], Stmt::While(c, b) if shape(c) == "nil" && matches!(&**b, Stmt::Block(v) if v.len() == 2)));
}

#[test]
fn make_assignment_accepts_only_variables() {
    let target = Expr { kind: ExprKind::Variable(ident("a")) };
    let made = make_assignment(target, nil()).unwrap();
    assert_eq!(shape(&made), "(= a nil)");
    let Err(ParsingError::GeneralError(message)) = make_assignment(nil(), nil()) else { panic!("accepted") };
    assert_eq!(message, "Invalid assignment target");
}

#[test]
fn function_declaration() {
    let stmts = statements("fun add(a, b) { return a + b; }");
    let Stmt::Function(name, params, body) = &stmts[0] else { panic!("no function") };
    assert_eq!(name.lexeme, "add");
    assert_eq!(params.len(), 2);
    assert_eq!(params[1].lexeme, "b");
    assert!(matches!(&body[0], Stmt::Return(k, Some(_)) if k.lexeme == "return"));
}

#[test]
fn if_with_else() {
    let stmts = statements("if (a) print 1; else { print 2; }");
    let Stmt::If(c, t, e) = &stmts[0] else { panic!("no if") };
    assert_eq!(shape(c), "a");
    assert!(matches!(&**t, Stmt::Print(_)));
    assert!(matches!(&**e, Some(Stmt::Block(v)) if v.len() == 1));
}

#[test]
fn error_messages() {
    assert_eq!(errors("var ;"), vec!["Expect variable name."]);
    assert_eq!(errors("var a = 1"), vec!["Expect ';' after variable declaration."]);
    assert_eq!(errors("print 1"), vec!["Expect ';' after value"]);
    assert_eq!(errors("1 = 2;"), vec!["Invalid assignment target"]);
    assert_eq!(errors("if 1"), vec!["Expect '(' after 'if'"]);
    assert_eq!(errors("if (1 print 2;"), vec!["Expect ')' after 'if'"]);
    assert_eq!(errors("fun (a) {}"), vec!["Expect function name."]);
    assert_eq!(errors("fun f a) {}"), vec!["Expect '(' after function name"]);
    assert_eq!(errors("fun f(1) {}"), vec!["Expect parameter name."]);
    assert_eq!(errors("fun f(a {}"), vec!["Expect ')' after parameters"]);
    assert_eq!(errors("fun f(a) print 1;"), vec!["Expect '{' before function body"]);
    assert_eq!(errors("{ print 1;"), vec!["Expect '}' after block."]);
    assert_eq!(errors("f(1;"), vec!["Expect ')' after arguments."]);
    assert_eq!(errors("for (;1) print 1;"), vec!["Expect ';' after loop conditions."]);
    assert_eq!(errors("for (;;1 print 1;"), vec!["Expect ')' after for clauses."]);
    assert_eq!(errors("return 1"), vec!["Expect ';' after return value"]);
    assert_eq!(errors("(1;"), vec!["Expected ')' after expression"]);
    assert_eq!(errors("print"), vec!["Unexpected EOF"]);
    assert_eq!(errors("print #;"), vec!["Unexpected token #"]);
}

fn many(item: &str, count: usize) -> String {
    vec![item; count].join(", ")
}

#[test]
fn at_most_255_arguments() {
    assert!(errors(&format!("f({});", many("1", 255))).is_empty());
    assert_eq!(
        errors(&format!("f({});", many("1", 256))),
        vec!["Can't have more than 255 arguments"]
    );
}

#[test]
fn at_most_255_parameters() {
    assert!(errors(&format!("fun f({}) {{}}", many("a", 255))).is_empty());
    assert_eq!(
        errors(&format!("fun f({}) {{}}", many("a", 256)))[0],
        "Can't have more than 255 parameters."
    );
}

#[test]
fn recovery_resumes_at_next_statement() {
    let parsed = parse(tokenize("var = 1; print 2; + ; var b = 3; ) ; if (b) print b;", &Doubles));
    assert_eq!(parsed.errors.len(), 3);
    assert_eq!(parsed.statements.len(), 3);
    assert!(matches!(&parsed.statements[0], Stmt::Print(_)));
    assert!(matches!(&parsed.statements[1], Stmt::Var(..)));
    assert!(matches!(&parsed.statements[2], Stmt::If(..)));
}

#[test]
fn recovery_discards_up_to_the_semicolon() {
    let parsed = parse(tokenize("print ; print 2; print 3;", &Doubles));
    assert_eq!(parsed.errors, vec!["Unexpected token ;"]);
    assert_eq!(parsed.statements.len(), 1);
}

#[test]
fn every_token_list_parses() {
    for source in ["", ";;;", ")))", "{{{{", "var var var", "fun fun", "\"open", "a.b.c", "1 2 3", "else"] {
        let parsed = parse(tokenize(source, &Doubles));
        assert!(parsed.statements.len() + parsed.errors.len() <= source.len() + 1);
    }
}

#[test]
fn parsing_stops_at_eof_token() {
    let parsed = parse(tokenize("print 1; \"open", &Doubles));
    assert!(parsed.errors.is_empty());
    assert_eq!(parsed.statements.len(), 1);
}

#[test]
fn parser_advance_skips_whitespace_tokens() {
    let space = Token { value: TokenKind::Whitespace, length: 1, lexeme: " ".to_string() };
    let mut parser = Parser::new(vec![space, ident("a")]);
    let token = parser.advance().unwrap();
    assert_eq!(token.lexeme, "a");
    assert!(parser.advance().is_none());
    assert!(parser.is_at_end());
}

#[test]
fn sync_stops_after_semicolon_or_before_keyword() {
    let mut parser = Parser::new(tokenize("a b ; c var d", &Doubles));
    parser.sync();
    assert!(matches!(parser.peek_kind(), Some(TokenKind::Identifier(n)) if n == "c"));
    parser.sync();
    assert!(matches!(parser.peek_kind(), Some(TokenKind::Var)));
}

#[test]
fn operators_come_from_token_kinds() {
    assert!(matches!(BinOp::from_kind(&TokenKind::Ne), Some(BinOp::Ne)));
    assert!(matches!(BinOp::from_kind(&TokenKind::Star), Some(BinOp::Multiply)));
    assert!(matches!(BinOp::from_kind(&TokenKind::Slash), Some(BinOp::Divide)));
    assert!(BinOp::from_kind(&TokenKind::Bang).is_none());
    assert!(matches!(UnOp::from_kind(&TokenKind::Bang), Some(UnOp::LogNeg)));
    assert!(matches!(UnOp::from_kind(&TokenKind::Minus), Some(UnOp::BinNeg)));
    assert!(UnOp::from_kind(&TokenKind::Plus).is_none());
    assert!(matches!(LogOp::from_kind(&TokenKind::And), Some(LogOp::And)));
    assert!(matches!(LogOp::from_kind(&TokenKind::Or), Some(LogOp::Or)));
    assert!(LogOp::from_kind(&TokenKind::Nil).is_none());
    assert_eq!(BinOp::Ge.symbol(), ">=");
    assert_eq!(UnOp::LogNeg.symbol(), "!");
    assert_eq!(LogOp::And.symbol(), "and");
}
