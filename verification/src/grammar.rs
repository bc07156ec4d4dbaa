//! The grammar: what each parsing function yields for a list of tokens,
//! stated as mathematical functions from the tokens and a position.

use crate::ast::{BinOp, ExprView, Literal, LogOp, StmtView, UnOp};
use crate::token::{Token, TokenKind};
use vstd::prelude::*;

verus! {

/// Most parameters a declaration, and most arguments a call, may have.
pub const MAX_ARITY: usize = 255;

/// What parsing one construct yields: the tree and the position after it,
/// or the message of the error and the position at which parsing stopped.
pub ghost enum Parse<T> {
    Done(T, int),
    Failed(Seq<char>, int),
}

/// What parsing a construct that can hold whole statements yields: its
/// result, and the messages of the statements inside that did not parse.
pub ghost struct Outcome<T> {
    pub result: Parse<T>,
    pub errors: Seq<Seq<char>>,
}

/// What parsing one declaration yields: the statement unless it did not
/// parse, the messages of all errors on the way, and the position at which
/// the next declaration starts.
pub ghost struct Declared {
    pub stmt: Option<StmtView>,
    pub errors: Seq<Seq<char>>,
    pub end: int,
}

/// What parsing a whole program yields.
pub ghost struct Program {
    pub statements: Seq<StmtView>,
    pub errors: Seq<Seq<char>>,
    pub end: int,
}

/// An outcome without errors inside.
pub open spec fn quietly<T>(result: Parse<T>) -> Outcome<T> {
    Outcome { result, errors: Seq::empty() }
}

/// A failure without errors inside.
pub open spec fn fail<T>(message: Seq<char>, at: int) -> Outcome<T> {
    Outcome { result: Parse::Failed(message, at), errors: Seq::empty() }
}

/// The kind of the token at `p`, if there is one.
pub open spec fn kind_at(ts: Seq<Token>, p: int) -> Option<TokenKind> {
    if 0 <= p < ts.len() {
        Some(ts[p].value)
    } else {
        None
    }
}

/// No statement starts at `p`: the tokens are used up or the token is
/// `Eof`.
pub open spec fn at_end(ts: Seq<Token>, p: int) -> bool {
    match kind_at(ts, p) {
        Some(TokenKind::Eof) | None => true,
        _ => false,
    }
}

/// `q` lies after `p` and not after the end: parsing from `p` to `q` made
/// progress.
pub open spec fn ahead(ts: Seq<Token>, p: int, q: int) -> bool {
    p < q <= ts.len()
}

/// True for the kinds at which a statement can begin, where error recovery
/// stops.
pub open spec fn starts_statement(kind: TokenKind) -> bool {
    kind is Class || kind is Fun || kind is Var || kind is For || kind is If || kind is While
        || kind is Print || kind is Return
}

/// First index at or after `pos` whose token is not whitespace; the number
/// of tokens if there is none.
pub open spec fn next_significant(tokens: Seq<Token>, pos: int) -> int
    decreases tokens.len() - pos,
{
    if 0 <= pos < tokens.len() && tokens[pos].value is Whitespace {
        next_significant(tokens, pos + 1)
    } else {
        pos
    }
}

/// Where error recovery that starts at `pos` stops: just after the next
/// semicolon, or before the next token at which a statement can begin, or
/// at the end.
pub open spec fn sync_end(tokens: Seq<Token>, pos: int) -> int
    decreases tokens.len() - pos,
{
    let at = next_significant(tokens, pos);
    if pos < 0 || at < pos || at >= tokens.len() {
        tokens.len() as int
    } else if tokens[at].value is Semicolon {
        at + 1
    } else if at + 1 >= tokens.len() || starts_statement(tokens[at + 1].value) {
        at + 1
    } else {
        sync_end(tokens, at + 1)
    }
}

/// An operator of one of the six levels of binary operators.
pub ghost enum Operator {
    Binary(BinOp),
    Logical(LogOp),
}

/// The operator that a token kind is at a level: level 0 holds `/ *`, 1
/// `- +`, 2 the four comparisons, 3 `!= ==`, 4 `and`, 5 `or`.
pub open spec fn operator_at(level: nat, kind: Option<TokenKind>) -> Option<Operator> {
    match kind {
        Some(TokenKind::Slash) => if level == 0 {
            Some(Operator::Binary(BinOp::Divide))
        } else {
            None
        },
        Some(TokenKind::Star) => if level == 0 {
            Some(Operator::Binary(BinOp::Multiply))
        } else {
            None
        },
        Some(TokenKind::Minus) => if level == 1 {
            Some(Operator::Binary(BinOp::Minus))
        } else {
            None
        },
        Some(TokenKind::Plus) => if level == 1 {
            Some(Operator::Binary(BinOp::Plus))
        } else {
            None
        },
        Some(TokenKind::Gt) => if level == 2 {
            Some(Operator::Binary(BinOp::Gt))
        } else {
            None
        },
        Some(TokenKind::Ge) => if level == 2 {
            Some(Operator::Binary(BinOp::Ge))
        } else {
            None
        },
        Some(TokenKind::Lt) => if level == 2 {
            Some(Operator::Binary(BinOp::Lt))
        } else {
            None
        },
        Some(TokenKind::Le) => if level == 2 {
            Some(Operator::Binary(BinOp::Le))
        } else {
            None
        },
        Some(TokenKind::Ne) => if level == 3 {
            Some(Operator::Binary(BinOp::Ne))
        } else {
            None
        },
        Some(TokenKind::EqEq) => if level == 3 {
            Some(Operator::Binary(BinOp::EqEq))
        } else {
            None
        },
        Some(TokenKind::And) => if level == 4 {
            Some(Operator::Logical(LogOp::And))
        } else {
            None
        },
        Some(TokenKind::Or) => if level == 5 {
            Some(Operator::Logical(LogOp::Or))
        } else {
            None
        },
        _ => None,
    }
}

/// The expression of an operator and its two operands.
pub open spec fn combine(op: Operator, left: ExprView, right: ExprView) -> ExprView {
    match op {
        Operator::Binary(op) => ExprView::Binary(op, Box::new(left), Box::new(right)),
        Operator::Logical(op) => ExprView::Logical(op, Box::new(left), Box::new(right)),
    }
}

/// primary → "true" | "false" | "nil" | NUMBER | STRING | "(" expression ")" | IDENT
pub open spec fn primary(ts: Seq<Token>, p: int) -> Parse<ExprView>
    decreases ts.len() - p, 7nat,
{
    let at = next_significant(ts, p);
    if at < p || at >= ts.len() {
        Parse::Failed("Unexpected EOF"@, ts.len() as int)
    } else {
        let token = ts[at];
        match token.value {
            TokenKind::Identifier(_) => Parse::Done(ExprView::Variable(token), at + 1),
            TokenKind::False => Parse::Done(ExprView::Literal(Literal::Bool(false)), at + 1),
            TokenKind::True => Parse::Done(ExprView::Literal(Literal::Bool(true)), at + 1),
            TokenKind::Nil => Parse::Done(ExprView::Literal(Literal::Nil), at + 1),
            TokenKind::Number(n) => Parse::Done(ExprView::Literal(Literal::Number(n)), at + 1),
            TokenKind::String(s) => Parse::Done(ExprView::Literal(Literal::String(s)), at + 1),
            TokenKind::LeftParen => match expression(ts, at + 1) {
                Parse::Done(inner, q) => if kind_at(ts, q) is Some && kind_at(ts, q)->0 is RightParen {
                    Parse::Done(ExprView::Grouping(Box::new(inner)), q + 1)
                } else {
                    Parse::Failed("Expected ')' after expression"@, q)
                },
                Parse::Failed(m, q) => Parse::Failed(m, q),
            },
            _ => Parse::Failed("Unexpected token "@ + token.lexeme@, at + 1),
        }
    }
}

/// The arguments of a call from `p` on, after those in `args`, and the
/// closing parenthesis.
pub open spec fn arguments(ts: Seq<Token>, p: int, callee: ExprView, args: Seq<ExprView>) -> Parse<
    ExprView,
>
    decreases ts.len() - p, 32nat,
{
    if args.len() >= MAX_ARITY {
        Parse::Failed("Can't have more than 255 arguments"@, p)
    } else {
        match expression(ts, p) {
            Parse::Done(argument, q) => {
                let more = args.push(argument);
                match kind_at(ts, q) {
                    Some(TokenKind::Comma) => if ahead(ts, p, q + 1) {
                        arguments(ts, q + 1, callee, more)
                    } else {
                        Parse::Failed(Seq::empty(), q)
                    },
                    Some(TokenKind::RightParen) => Parse::Done(
                        ExprView::Call(Box::new(callee), more),
                        q + 1,
                    ),
                    _ => Parse::Failed("Expect ')' after arguments."@, q),
                }
            },
            Parse::Failed(m, q) => Parse::Failed(m, q),
        }
    }
}

/// args → expression ( "," expression )*, after the opening parenthesis
/// and up to the closing one.
pub open spec fn finish_call(ts: Seq<Token>, p: int, callee: ExprView) -> Parse<ExprView>
    decreases ts.len() - p, 33nat,
{
    match kind_at(ts, p) {
        Some(TokenKind::RightParen) => Parse::Done(
            ExprView::Call(Box::new(callee), Seq::empty()),
            p + 1,
        ),
        _ => arguments(ts, p, callee, Seq::empty()),
    }
}

/// The calls that follow the callee `callee`, which ends at `p`.
pub open spec fn calls(ts: Seq<Token>, p: int, callee: ExprView) -> Parse<ExprView>
    decreases ts.len() - p, 0nat,
{
    match kind_at(ts, p) {
        Some(TokenKind::LeftParen) => match finish_call(ts, p + 1, callee) {
            Parse::Done(call, q) => if ahead(ts, p, q) {
                calls(ts, q, call)
            } else {
                Parse::Failed(Seq::empty(), q)
            },
            Parse::Failed(m, q) => Parse::Failed(m, q),
        },
        _ => Parse::Done(callee, p),
    }
}

/// call → primary ( "(" args? ")" )*
pub open spec fn call(ts: Seq<Token>, p: int) -> Parse<ExprView>
    decreases ts.len() - p, 8nat,
{
    match primary(ts, p) {
        Parse::Done(callee, q) => if ahead(ts, p, q) {
            calls(ts, q, callee)
        } else {
            Parse::Failed(Seq::empty(), q)
        },
        Parse::Failed(m, q) => Parse::Failed(m, q),
    }
}

/// unary → ( "!" | "-" ) unary | call
pub open spec fn unary(ts: Seq<Token>, p: int) -> Parse<ExprView>
    decreases ts.len() - p, 9nat,
{
    match kind_at(ts, p) {
        Some(TokenKind::Bang) => match unary(ts, p + 1) {
            Parse::Done(e, q) => Parse::Done(ExprView::Unary(UnOp::LogNeg, Box::new(e)), q),
            Parse::Failed(m, q) => Parse::Failed(m, q),
        },
        Some(TokenKind::Minus) => match unary(ts, p + 1) {
            Parse::Done(e, q) => Parse::Done(ExprView::Unary(UnOp::BinNeg, Box::new(e)), q),
            Parse::Failed(m, q) => Parse::Failed(m, q),
        },
        _ => call(ts, p),
    }
}

/// An operand of the operators of a level: a unary expression at level 0,
/// an expression of the level below otherwise.
pub open spec fn operand(level: nat, ts: Seq<Token>, p: int) -> Parse<ExprView>
    decreases ts.len() - p, 10 + 2 * level,
{
    if level == 0 {
        unary(ts, p)
    } else {
        binary((level - 1) as nat, ts, p)
    }
}

/// The operators of a level and their right operands that follow the left
/// operand `left`, which ends at `p`: each is folded into the left operand,
/// so the operators group to the left.
pub open spec fn operators(level: nat, ts: Seq<Token>, p: int, left: ExprView) -> Parse<ExprView>
    decreases ts.len() - p, 0nat,
{
    match operator_at(level, kind_at(ts, p)) {
        Some(op) => match operand(level, ts, p + 1) {
            Parse::Done(right, q) => if ahead(ts, p, q) {
                operators(level, ts, q, combine(op, left, right))
            } else {
                Parse::Failed(Seq::empty(), q)
            },
            Parse::Failed(m, q) => Parse::Failed(m, q),
        },
        None => Parse::Done(left, p),
    }
}

/// One level of binary operators: factor (level 0), term, comparison,
/// equality, logic_and and logic_or (level 5); each is
/// operand ( operator operand )*.
pub open spec fn binary(level: nat, ts: Seq<Token>, p: int) -> Parse<ExprView>
    decreases ts.len() - p, 11 + 2 * level,
{
    match operand(level, ts, p) {
        Parse::Done(left, q) => if ahead(ts, p, q) {
            operators(level, ts, q, left)
        } else {
            Parse::Failed(Seq::empty(), q)
        },
        Parse::Failed(m, q) => Parse::Failed(m, q),
    }
}

/// The assignment of `value` to `target`: only a variable can be assigned
/// to.
pub open spec fn assign_to(target: ExprView, value: ExprView, at: int) -> Parse<ExprView> {
    match target {
        ExprView::Variable(name) => Parse::Done(ExprView::Assign(name, Box::new(value)), at),
        _ => Parse::Failed("Invalid assignment target"@, at),
    }
}

/// assignment → IDENT "=" assignment | logic_or
pub open spec fn assignment(ts: Seq<Token>, p: int) -> Parse<ExprView>
    decreases ts.len() - p, 30nat,
{
    match binary(5, ts, p) {
        Parse::Done(target, q) => match kind_at(ts, q) {
            Some(TokenKind::Eq) => if ahead(ts, p, q + 1) {
                match assignment(ts, q + 1) {
                    Parse::Done(value, end) => assign_to(target, value, end),
                    Parse::Failed(m, end) => Parse::Failed(m, end),
                }
            } else {
                Parse::Failed(Seq::empty(), q)
            },
            _ => Parse::Done(target, q),
        },
        Parse::Failed(m, q) => Parse::Failed(m, q),
    }
}

/// expression → assignment
pub open spec fn expression(ts: Seq<Token>, p: int) -> Parse<ExprView>
    decreases ts.len() - p, 31nat,
{
    assignment(ts, p)
}

/// An expression and the semicolon that must follow it.
pub open spec fn terminated(ts: Seq<Token>, p: int, message: Seq<char>) -> Parse<ExprView> {
    match expression(ts, p) {
        Parse::Done(e, q) => match kind_at(ts, q) {
            Some(TokenKind::Semicolon) => Parse::Done(e, q + 1),
            _ => Parse::Failed(message, q),
        },
        Parse::Failed(m, q) => Parse::Failed(m, q),
    }
}

/// exprStmt → expression ";"
pub open spec fn expression_statement(ts: Seq<Token>, p: int) -> Parse<StmtView> {
    match terminated(ts, p, "Expect ';' after value"@) {
        Parse::Done(e, q) => Parse::Done(StmtView::Expression(e), q),
        Parse::Failed(m, q) => Parse::Failed(m, q),
    }
}

/// printStmt → expression ";", after the keyword.
pub open spec fn print_statement(ts: Seq<Token>, p: int) -> Parse<StmtView> {
    match terminated(ts, p, "Expect ';' after value"@) {
        Parse::Done(e, q) => Parse::Done(StmtView::Print(e), q),
        Parse::Failed(m, q) => Parse::Failed(m, q),
    }
}

/// returnStmt → expression? ";", after the keyword.
pub open spec fn return_statement(ts: Seq<Token>, p: int, keyword: Token) -> Parse<StmtView> {
    match kind_at(ts, p) {
        Some(TokenKind::Semicolon) => Parse::Done(StmtView::Return(keyword, None), p + 1),
        _ => match terminated(ts, p, "Expect ';' after return value"@) {
            Parse::Done(e, q) => Parse::Done(StmtView::Return(keyword, Some(e)), q),
            Parse::Failed(m, q) => Parse::Failed(m, q),
        },
    }
}

/// varDecl → IDENT ( "=" expression )? ";", after the keyword.
pub open spec fn var_declaration(ts: Seq<Token>, p: int) -> Parse<StmtView> {
    match kind_at(ts, p) {
        Some(TokenKind::Identifier(_)) => match kind_at(ts, p + 1) {
            Some(TokenKind::Eq) => match terminated(
                ts,
                p + 2,
                "Expect ';' after variable declaration."@,
            ) {
                Parse::Done(e, q) => Parse::Done(StmtView::Var(ts[p], Some(e)), q),
                Parse::Failed(m, q) => Parse::Failed(m, q),
            },
            Some(TokenKind::Semicolon) => Parse::Done(StmtView::Var(ts[p], None), p + 2),
            _ => Parse::Failed("Expect ';' after variable declaration."@, p + 1),
        },
        _ => Parse::Failed("Expect variable name."@, p),
    }
}

/// The statement that `for (initializer; condition; increment) body`
/// stands for: `{ initializer; while (condition) { body; increment; } }`,
/// each part left out where the `for` has none, and `true` for a missing
/// condition.
pub open spec fn for_loop(
    initializer: Option<StmtView>,
    condition: Option<ExprView>,
    increment: Option<ExprView>,
    body: StmtView,
) -> StmtView {
    let inner = match increment {
        Some(step) => StmtView::Block(seq![body, StmtView::Expression(step)]),
        None => body,
    };
    let test = match condition {
        Some(c) => c,
        None => ExprView::Literal(Literal::Bool(true)),
    };
    let repeat = StmtView::While(test, Box::new(inner));
    match initializer {
        Some(first) => StmtView::Block(seq![first, repeat]),
        None => repeat,
    }
}

/// The parameters of a function from `p` on, after those in `params`.
pub open spec fn parameters(ts: Seq<Token>, p: int, params: Seq<Token>) -> Parse<Seq<Token>>
    decreases ts.len() - p,
{
    if params.len() >= MAX_ARITY {
        Parse::Failed("Can't have more than 255 parameters."@, p)
    } else {
        match kind_at(ts, p) {
            Some(TokenKind::Identifier(_)) => match kind_at(ts, p + 1) {
                Some(TokenKind::Comma) => parameters(ts, p + 2, params.push(ts[p])),
                _ => Parse::Done(params.push(ts[p]), p + 1),
            },
            _ => Parse::Failed("Expect parameter name."@, p),
        }
    }
}

/// The parameter list of a function after the opening parenthesis, up to
/// and without the closing one.
pub open spec fn parameter_list(ts: Seq<Token>, p: int) -> Parse<Seq<Token>> {
    match kind_at(ts, p) {
        Some(TokenKind::RightParen) => Parse::Done(Seq::empty(), p),
        _ => parameters(ts, p, Seq::empty()),
    }
}

/// statement → printStmt | block | ifStmt | whileStmt | forStmt |
/// returnStmt | exprStmt
pub open spec fn statement(ts: Seq<Token>, p: int) -> Outcome<StmtView>
    decreases ts.len() - p, 40nat,
{
    match kind_at(ts, p) {
        Some(TokenKind::Print) => quietly(print_statement(ts, p + 1)),
        Some(TokenKind::LeftBrace) => {
            let inside = block(ts, p + 1, Seq::empty());
            Outcome {
                result: match inside.result {
                    Parse::Done(items, q) => Parse::Done(StmtView::Block(items), q),
                    Parse::Failed(m, q) => Parse::Failed(m, q),
                },
                errors: inside.errors,
            }
        },
        Some(TokenKind::If) => if_statement(ts, p + 1),
        Some(TokenKind::While) => while_statement(ts, p + 1),
        Some(TokenKind::For) => for_statement(ts, p + 1),
        Some(TokenKind::Return) => quietly(return_statement(ts, p + 1, ts[p])),
        _ => quietly(expression_statement(ts, p)),
    }
}

/// ifStmt → "(" expression ")" statement ( "else" statement )?, after the
/// keyword.
pub open spec fn if_statement(ts: Seq<Token>, p: int) -> Outcome<StmtView>
    decreases ts.len() - p, 39nat,
{
    match kind_at(ts, p) {
        Some(TokenKind::LeftParen) => match expression(ts, p + 1) {
            Parse::Done(condition, q) => match kind_at(ts, q) {
                Some(TokenKind::RightParen) => if ahead(ts, p, q + 1) {
                    let then = statement(ts, q + 1);
                    match then.result {
                        Parse::Done(then_branch, q2) => match kind_at(ts, q2) {
                            Some(TokenKind::Else) => if ahead(ts, p, q2 + 1) {
                                let other = statement(ts, q2 + 1);
                                Outcome {
                                    result: match other.result {
                                        Parse::Done(else_branch, q3) => Parse::Done(
                                            StmtView::If(
                                                condition,
                                                Box::new(then_branch),
                                                Some(Box::new(else_branch)),
                                            ),
                                            q3,
                                        ),
                                        Parse::Failed(m, q3) => Parse::Failed(m, q3),
                                    },
                                    errors: then.errors + other.errors,
                                }
                            } else {
                                fail(Seq::empty(), q2)
                            },
                            _ => Outcome {
                                result: Parse::Done(
                                    StmtView::If(condition, Box::new(then_branch), None),
                                    q2,
                                ),
                                errors: then.errors,
                            },
                        },
                        Parse::Failed(m, q2) => Outcome {
                            result: Parse::Failed(m, q2),
                            errors: then.errors,
                        },
                    }
                } else {
                    fail(Seq::empty(), q)
                },
                _ => fail("Expect ')' after 'if'"@, q),
            },
            Parse::Failed(m, q) => fail(m, q),
        },
        _ => fail("Expect '(' after 'if'"@, p),
    }
}

/// whileStmt → "(" expression ")" statement, after the keyword.
pub open spec fn while_statement(ts: Seq<Token>, p: int) -> Outcome<StmtView>
    decreases ts.len() - p, 39nat,
{
    match kind_at(ts, p) {
        Some(TokenKind::LeftParen) => match expression(ts, p + 1) {
            Parse::Done(condition, q) => match kind_at(ts, q) {
                Some(TokenKind::RightParen) => if ahead(ts, p, q + 1) {
                    let body = statement(ts, q + 1);
                    Outcome {
                        result: match body.result {
                            Parse::Done(b, q2) => Parse::Done(
                                StmtView::While(condition, Box::new(b)),
                                q2,
                            ),
                            Parse::Failed(m, q2) => Parse::Failed(m, q2),
                        },
                        errors: body.errors,
                    }
                } else {
                    fail(Seq::empty(), q)
                },
                _ => fail("Expect ')' after 'while'"@, q),
            },
            Parse::Failed(m, q) => fail(m, q),
        },
        _ => fail("Expect '(' after 'while'"@, p),
    }
}

/// The first clause of a `for`, after the opening parenthesis: nothing, a
/// variable declaration, or an expression statement.
pub open spec fn for_initializer(ts: Seq<Token>, p: int) -> Parse<Option<StmtView>> {
    match kind_at(ts, p) {
        Some(TokenKind::Semicolon) => Parse::Done(None, p + 1),
        Some(TokenKind::Var) => match var_declaration(ts, p + 1) {
            Parse::Done(s, q) => Parse::Done(Some(s), q),
            Parse::Failed(m, q) => Parse::Failed(m, q),
        },
        _ => match expression_statement(ts, p) {
            Parse::Done(s, q) => Parse::Done(Some(s), q),
            Parse::Failed(m, q) => Parse::Failed(m, q),
        },
    }
}

/// A clause of a `for` that may be empty: nothing where the token `closer`
/// stands, which is not consumed, or an expression.
pub open spec fn for_clause(ts: Seq<Token>, p: int, semicolon: bool) -> Parse<Option<ExprView>> {
    let empty = match kind_at(ts, p) {
        Some(TokenKind::Semicolon) => semicolon,
        Some(TokenKind::RightParen) => !semicolon,
        _ => false,
    };
    if empty {
        Parse::Done(None, p)
    } else {
        match expression(ts, p) {
            Parse::Done(e, q) => Parse::Done(Some(e), q),
            Parse::Failed(m, q) => Parse::Failed(m, q),
        }
    }
}

/// forStmt → "(" ( varDecl | exprStmt | ";" ) expression? ";" expression?
/// ")" statement, after the keyword; the result is the `while` it stands
/// for.
pub open spec fn for_statement(ts: Seq<Token>, p: int) -> Outcome<StmtView>
    decreases ts.len() - p, 39nat,
{
    match kind_at(ts, p) {
        Some(TokenKind::LeftParen) => match for_initializer(ts, p + 1) {
            Parse::Done(initializer, q1) => match for_clause(ts, q1, true) {
                Parse::Done(condition, q2) => match kind_at(ts, q2) {
                    Some(TokenKind::Semicolon) => match for_clause(ts, q2 + 1, false) {
                        Parse::Done(increment, q3) => match kind_at(ts, q3) {
                            Some(TokenKind::RightParen) => if ahead(ts, p, q3 + 1) {
                                let body = statement(ts, q3 + 1);
                                Outcome {
                                    result: match body.result {
                                        Parse::Done(b, q4) => Parse::Done(
                                            for_loop(initializer, condition, increment, b),
                                            q4,
                                        ),
                                        Parse::Failed(m, q4) => Parse::Failed(m, q4),
                                    },
                                    errors: body.errors,
                                }
                            } else {
                                fail(Seq::empty(), q3)
                            },
                            _ => fail("Expect ')' after for clauses."@, q3),
                        },
                        Parse::Failed(m, q3) => fail(m, q3),
                    },
                    _ => fail("Expect ';' after loop conditions."@, q2),
                },
                Parse::Failed(m, q2) => fail(m, q2),
            },
            Parse::Failed(m, q1) => fail(m, q1),
        },
        _ => fail("Expect '(' after 'for'"@, p),
    }
}

/// function → IDENT "(" params? ")" block, after the keyword; `kind` names
/// what is declared in the messages.
pub open spec fn function(ts: Seq<Token>, p: int, kind: Seq<char>) -> Outcome<StmtView>
    decreases ts.len() - p, 39nat,
{
    match kind_at(ts, p) {
        Some(TokenKind::Identifier(_)) => match kind_at(ts, p + 1) {
            Some(TokenKind::LeftParen) => match parameter_list(ts, p + 2) {
                Parse::Done(params, q) => match kind_at(ts, q) {
                    Some(TokenKind::RightParen) => match kind_at(ts, q + 1) {
                        Some(TokenKind::LeftBrace) => if ahead(ts, p, q + 2) {
                            let body = block(ts, q + 2, Seq::empty());
                            Outcome {
                                result: match body.result {
                                    Parse::Done(items, end) => Parse::Done(
                                        StmtView::Function(ts[p], params, items),
                                        end,
                                    ),
                                    Parse::Failed(m, end) => Parse::Failed(m, end),
                                },
                                errors: body.errors,
                            }
                        } else {
                            fail(Seq::empty(), q)
                        },
                        _ => fail("Expect '{' before "@ + kind + " body"@, q + 1),
                    },
                    _ => fail("Expect ')' after parameters"@, q),
                },
                Parse::Failed(m, q) => fail(m, q),
            },
            _ => fail("Expect '(' after "@ + kind + " name"@, p + 1),
        },
        _ => fail("Expect "@ + kind + " name."@, p),
    }
}

/// block → "{" declaration* "}", after the opening brace and after the
/// statements in `items`.
pub open spec fn block(ts: Seq<Token>, p: int, items: Seq<StmtView>) -> Outcome<Seq<StmtView>>
    decreases ts.len() - p, 42nat,
{
    match kind_at(ts, p) {
        Some(TokenKind::RightBrace) => quietly(Parse::Done(items, p + 1)),
        Some(TokenKind::Eof) | None => fail("Expect '}' after block."@, p),
        _ => {
            let first = declaration(ts, p);
            if ahead(ts, p, first.end) {
                let rest = block(
                    ts,
                    first.end,
                    match first.stmt {
                        Some(s) => items.push(s),
                        None => items,
                    },
                );
                Outcome { result: rest.result, errors: first.errors + rest.errors }
            } else {
                fail(Seq::empty(), p)
            }
        },
    }
}

/// declaration → "var" varDecl | "fun" function | statement. A
/// declaration that does not parse adds its message to the errors and
/// yields no statement; the next one starts where error recovery stops.
pub open spec fn declaration(ts: Seq<Token>, p: int) -> Declared
    decreases ts.len() - p, 41nat,
{
    let outcome = match kind_at(ts, p) {
        Some(TokenKind::Var) => quietly(var_declaration(ts, p + 1)),
        Some(TokenKind::Fun) => function(ts, p + 1, "function"@),
        _ => statement(ts, p),
    };
    match outcome.result {
        Parse::Done(s, q) => Declared { stmt: Some(s), errors: outcome.errors, end: q },
        Parse::Failed(m, q) => Declared {
            stmt: None,
            errors: outcome.errors.push(m),
            end: sync_end(ts, q),
        },
    }
}

/// program → declaration* EOF, after the statements in `items`.
pub open spec fn program(ts: Seq<Token>, p: int, items: Seq<StmtView>) -> Program
    decreases ts.len() - p,
{
    if at_end(ts, p) {
        Program { statements: items, errors: Seq::empty(), end: p }
    } else {
        let first = declaration(ts, p);
        if ahead(ts, p, first.end) {
            let rest = program(
                ts,
                first.end,
                match first.stmt {
                    Some(s) => items.push(s),
                    None => items,
                },
            );
            Program { statements: rest.statements, errors: first.errors + rest.errors, end: rest.end }
        } else {
            Program { statements: items, errors: Seq::empty(), end: p }
        }
    }
}

} // verus!
