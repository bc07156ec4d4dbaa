//! The parser: recursive descent with one token of lookahead.

use crate::ast::{
    expr_views, lemma_block_view, lemma_call_view, lemma_expr_views_push, lemma_function_view,
    lemma_stmt_views_push, opt_expr_view, opt_stmt_view, stmt_views, BinOp, Expr, ExprKind, ExprView,
    Literal, LogOp, Stmt, StmtView, UnOp,
};
use crate::grammar;
use crate::grammar::{next_significant, starts_statement, sync_end, Parse, MAX_ARITY};
use crate::token::{Token, TokenKind};
use std::rc::Rc;
use vstd::prelude::*;
use vstd::string::StringExecFns;

verus! {

/// Why a statement could not be parsed.
#[derive(Debug)]
pub enum ParsingError {
    GeneralError(String),
}

/// What the parser guarantees of every expression it builds: a variable or
/// an assignment target is named by an identifier token, a call has at most
/// 255 arguments, no literal is a callable, and no binary operator is the
/// single `=`, which is the assignment's.
pub open spec fn expr_ok(e: Expr) -> bool
    decreases e,
{
    match e.kind {
        ExprKind::Binary(op, l, r) => !(op is Eq) && expr_ok(*l) && expr_ok(*r),
        ExprKind::Call(callee, args) => expr_ok(*callee) && args@.len() <= MAX_ARITY && forall|
            i: int,
        |
            0 <= i < args@.len() ==> expr_ok(#[trigger] args@[i]),
        ExprKind::Grouping(inner) => expr_ok(*inner),
        ExprKind::Literal(l) => !(l is Callable),
        ExprKind::Logical(_, l, r) => expr_ok(*l) && expr_ok(*r),
        ExprKind::Unary(_, inner) => expr_ok(*inner),
        ExprKind::Variable(name) => name.is_identifier(),
        ExprKind::Assign(name, value) => name.is_identifier() && expr_ok(*value),
    }
}

/// `expr_ok` of an expression that may be absent.
pub open spec fn opt_expr_ok(e: Option<Expr>) -> bool {
    match e {
        Some(e) => expr_ok(e),
        None => true,
    }
}

/// Every token of the list is an identifier.
pub open spec fn all_identifiers(tokens: Seq<Token>) -> bool {
    forall|i: int| 0 <= i < tokens.len() ==> (#[trigger] tokens[i]).is_identifier()
}

/// What the parser guarantees of every statement it builds: variables and
/// functions are named by identifier tokens, a function has at most 255
/// parameters, each an identifier, and every expression inside is
/// `expr_ok`.
pub open spec fn stmt_ok(s: Stmt) -> bool
    decreases s,
{
    match s {
        Stmt::Expression(e) => expr_ok(e),
        Stmt::Print(e) => expr_ok(e),
        Stmt::Var(name, init) => name.is_identifier() && opt_expr_ok(init),
        Stmt::Block(stmts) => forall|i: int|
            0 <= i < stmts@.len() ==> stmt_ok(#[trigger] stmts@[i]),
        Stmt::If(c, t, e) => expr_ok(c) && stmt_ok(*t) && match *e {
            Some(e) => stmt_ok(e),
            None => true,
        },
        Stmt::While(c, body) => expr_ok(c) && stmt_ok(*body),
        Stmt::Function(name, params, body) => name.is_identifier() && params@.len() <= MAX_ARITY
            && all_identifiers(params@) && forall|i: int|
            0 <= i < body@.len() ==> stmt_ok(#[trigger] body@[i]),
        Stmt::Return(_, value) => opt_expr_ok(value),
    }
}

/// Every statement of the list is `stmt_ok`.
pub open spec fn all_ok(stmts: Seq<Stmt>) -> bool {
    forall|i: int| 0 <= i < stmts.len() ==> stmt_ok(#[trigger] stmts[i])
}

/// The texts of a list of messages.
pub open spec fn texts(messages: Seq<String>) -> Seq<Seq<char>> {
    Seq::new(messages.len(), |i: int| messages[i]@)
}

/// Builds the statement a `for` stands for; there is no `for` in the tree.
pub fn desugar_for(
    initializer: Option<Stmt>,
    condition: Option<Expr>,
    increment: Option<Expr>,
    body: Stmt,
) -> (s: Stmt)
    ensures
        s@ == grammar::for_loop(
            opt_stmt_view(initializer),
            opt_expr_view(condition),
            opt_expr_view(increment),
            body@,
        ),
        (stmt_ok(body) && opt_expr_ok(condition) && opt_expr_ok(increment) && match initializer {
            Some(first) => stmt_ok(first),
            None => true,
        }) ==> stmt_ok(s),
{
    let ghost parts_ok = stmt_ok(body) && opt_expr_ok(condition) && opt_expr_ok(increment);
    let inner = match increment {
        Some(step) => {
            let mut stmts: Vec<Stmt> = Vec::new();
            stmts.push(body);
            stmts.push(Stmt::Expression(step));
            assert(stmts@ =~= seq![body, Stmt::Expression(step)]);
            assert(parts_ok ==> stmt_ok(stmts@[1]));
            assert(parts_ok ==> all_ok(stmts@));
            proof {
                lemma_block_view(stmts);
                assert(stmt_views(stmts@) =~= seq![body@, StmtView::Expression(step@)]);
            }
            Stmt::Block(stmts)
        },
        None => body,
    };
    assert(parts_ok ==> stmt_ok(inner));
    let test = match condition {
        Some(c) => c,
        None => Expr { kind: ExprKind::Literal(Literal::Bool(true)) },
    };
    assert(parts_ok ==> expr_ok(test));
    let repeat = Stmt::While(test, Box::new(inner));
    assert(parts_ok ==> stmt_ok(repeat));
    match initializer {
        Some(first) => {
            let mut stmts: Vec<Stmt> = Vec::new();
            stmts.push(first);
            stmts.push(repeat);
            assert(parts_ok && stmt_ok(first) ==> all_ok(stmts@));
            proof {
                lemma_block_view(stmts);
                assert(stmt_views(stmts@) =~= seq![first@, repeat@]);
            }
            Stmt::Block(stmts)
        },
        None => repeat,
    }
}

/// Builds the assignment of `value` to `target`: only a variable can be
/// assigned to.
pub fn make_assignment(target: Expr, value: Expr) -> (r: Result<Expr, ParsingError>)
    ensures
        match target.kind {
            ExprKind::Variable(name) => r == Ok::<Expr, ParsingError>(
                Expr { kind: ExprKind::Assign(name, Box::new(value)) },
            ),
            _ => match r {
                Err(ParsingError::GeneralError(m)) => m@ == "Invalid assignment target"@,
                Ok(_) => false,
            },
        },
{
    match target.kind {
        ExprKind::Variable(name) => Ok(Expr { kind: ExprKind::Assign(name, Box::new(value)) }),
        _ => Err(ParsingError::GeneralError(String::from_str("Invalid assignment target"))),
    }
}

/// Skipping whitespace tokens stays inside the list and ends at a token
/// that is none, or at the end.
pub proof fn lemma_next_significant(tokens: Seq<Token>, pos: int)
    requires
        0 <= pos <= tokens.len(),
    ensures
        pos <= next_significant(tokens, pos) <= tokens.len(),
        next_significant(tokens, pos) < tokens.len() ==> !(tokens[next_significant(
            tokens,
            pos,
        )].value is Whitespace),
    decreases tokens.len() - pos,
{
    if pos < tokens.len() && tokens[pos].value is Whitespace {
        lemma_next_significant(tokens, pos + 1);
    }
}

fn failure<T>(message: &str) -> (r: Result<T, ParsingError>)
    ensures
        match r {
            Err(ParsingError::GeneralError(m)) => m@ == message@,
            Ok(_) => false,
        },
{
    Err(ParsingError::GeneralError(String::from_str(message)))
}

fn is_statement_start(kind: &TokenKind) -> (b: bool)
    ensures
        b == starts_statement(*kind),
{
    match kind {
        TokenKind::Class
        | TokenKind::Fun
        | TokenKind::Var
        | TokenKind::For
        | TokenKind::If
        | TokenKind::While
        | TokenKind::Print
        | TokenKind::Return => true,
        _ => false,
    }
}

/// A parser over a list of tokens. Errors are collected, not printed.
pub struct Parser {
    tokens: Vec<Token>,
    pos: usize,
    errors: Vec<String>,
}

impl Parser {
    /// The tokens being parsed.
    pub closed spec fn tokens(&self) -> Seq<Token> {
        self.tokens@
    }

    /// Index of the next token.
    pub closed spec fn position(&self) -> int {
        self.pos as int
    }

    /// Messages of the errors found so far, oldest first.
    pub closed spec fn errors(&self) -> Seq<String> {
        self.errors@
    }

    pub open spec fn well_formed(&self) -> bool {
        0 <= self.position() <= self.tokens().len()
    }

    /// `self` is `before` after some parsing: the same tokens, a position
    /// that did not move back, and the same errors with new ones after
    /// them.
    pub open spec fn advanced(&self, before: &Parser) -> bool {
        &&& self.well_formed()
        &&& self.tokens() == before.tokens()
        &&& before.position() <= self.position()
        &&& before.errors().is_prefix_of(self.errors())
    }

    /// `advanced`, and no error was added.
    pub open spec fn quiet(&self, before: &Parser) -> bool {
        &&& self.advanced(before)
        &&& self.errors() == before.errors()
    }

    /// The errors are those of `before` and then `added`.
    pub open spec fn reported(&self, before: &Parser, added: Seq<Seq<char>>) -> bool {
        texts(self.errors()) =~= texts(before.errors()) + added
    }

    /// The result `r` and the position are what the grammar says.
    pub open spec fn yields_expr(&self, r: Result<Expr, ParsingError>, expected: Parse<ExprView>) -> bool {
        match (r, expected) {
            (Ok(e), Parse::Done(v, q)) => e@ == v && self.position() == q,
            (Err(ParsingError::GeneralError(m)), Parse::Failed(message, q)) => m@ == message
                && self.position() == q,
            _ => false,
        }
    }

    /// The result `r` and the position are what the grammar says.
    pub open spec fn yields_stmt(&self, r: Result<Stmt, ParsingError>, expected: Parse<StmtView>) -> bool {
        match (r, expected) {
            (Ok(s), Parse::Done(v, q)) => s@ == v && self.position() == q,
            (Err(ParsingError::GeneralError(m)), Parse::Failed(message, q)) => m@ == message
                && self.position() == q,
            _ => false,
        }
    }

    /// The result `r` and the position are what the grammar says.
    pub open spec fn yields_stmts(
        &self,
        r: Result<Vec<Stmt>, ParsingError>,
        expected: Parse<Seq<StmtView>>,
    ) -> bool {
        match (r, expected) {
            (Ok(s), Parse::Done(v, q)) => stmt_views(s@) == v && self.position() == q,
            (Err(ParsingError::GeneralError(m)), Parse::Failed(message, q)) => m@ == message
                && self.position() == q,
            _ => false,
        }
    }

    /// The kind of the next token, if there is one.
    pub open spec fn peek(&self) -> Option<TokenKind> {
        grammar::kind_at(self.tokens(), self.position())
    }

    /// No statement starts here: the input is used up or the next token is
    /// `Eof`.
    pub open spec fn at_end(&self) -> bool {
        grammar::at_end(self.tokens(), self.position())
    }

    pub fn new(tokens: Vec<Token>) -> (parser: Parser)
        ensures
            parser.well_formed(),
            parser.tokens() == tokens@,
            parser.position() == 0,
            parser.errors().len() == 0,
    {
        Parser { tokens, pos: 0, errors: Vec::new() }
    }

    /// The messages of the errors found so far, oldest first.
    pub fn take_errors(self) -> (errors: Vec<String>)
        ensures
            errors@ == self.errors(),
    {
        self.errors
    }

    /// program → declaration* EOF. Parses statements until the input is
    /// used up or an `Eof` token is next. A statement that does not parse
    /// adds one message to the errors and nothing to the result.
    pub fn parse(&mut self) -> (statements: Vec<Stmt>)
        requires
            old(self).well_formed(),
        ensures
            final(self).advanced(old(self)),
            final(self).at_end(),
            all_ok(statements@),
            ({
                let program = grammar::program(old(self).tokens(), old(self).position(), Seq::empty());
                &&& stmt_views(statements@) == program.statements
                &&& final(self).reported(old(self), program.errors)
                &&& final(self).position() == program.end
            }),
    {
        let ghost ts = self.tokens();
        let ghost target = grammar::program(ts, self.position(), Seq::empty());
        let mut statements: Vec<Stmt> = Vec::new();
        assert(stmt_views(statements@) =~= Seq::<StmtView>::empty());
        while !self.is_at_end()
            invariant
                self.advanced(old(self)),
                ts == old(self).tokens(),
                target == grammar::program(ts, old(self).position(), Seq::empty()),
                all_ok(statements@),
                ({
                    let now = grammar::program(ts, self.position(), stmt_views(statements@));
                    &&& now.statements == target.statements
                    &&& now.end == target.end
                    &&& texts(self.errors()) + now.errors =~= texts(old(self).errors())
                        + target.errors
                }),
            decreases self.tokens@.len() - self.pos,
        {
            let ghost before = stmt_views(statements@);
            let ghost first = grammar::declaration(ts, self.position());
            let ghost seen = texts(self.errors());
            let ghost here = self.position();
            if let Some(stmt) = self.declaration() {
                proof {
                    lemma_stmt_views_push(statements@, stmt);
                }
                statements.push(stmt);
            }
            proof {
                let now = grammar::program(ts, self.position(), stmt_views(statements@));
                let was = grammar::program(ts, here, before);
                assert(was.errors =~= first.errors + now.errors);
                assert(texts(self.errors()) =~= seen + first.errors);
                assert(texts(self.errors()) + now.errors =~= seen + was.errors);
            }
        }
        proof {
            let now = grammar::program(ts, self.position(), stmt_views(statements@));
            assert(now.errors =~= Seq::<Seq<char>>::empty());
            assert(texts(self.errors()) + now.errors =~= texts(self.errors()));
        }
        statements
    }

    pub fn peek_kind(&self) -> (kind: Option<&TokenKind>)
        requires
            self.well_formed(),
        ensures
            match kind {
                Some(k) => self.peek() == Some(*k),
                None => self.peek().is_none(),
            },
    {
        if self.pos < self.tokens.len() {
            Some(&self.tokens[self.pos].value)
        } else {
            None
        }
    }

    /// Consumes tokens up to and including the next one that is not
    /// whitespace, and returns that one.
    pub fn advance(&mut self) -> (token: Option<Token>)
        requires
            old(self).well_formed(),
        ensures
            final(self).quiet(old(self)),
            ({
                let at = next_significant(old(self).tokens(), old(self).position());
                if at < old(self).tokens().len() {
                    token == Some(old(self).tokens()[at]) && final(self).position() == at + 1
                } else {
                    token.is_none() && final(self).position() == old(self).tokens().len()
                }
            }),
            old(self).position() <= next_significant(old(self).tokens(), old(self).position()),
            old(self).position() < old(self).tokens().len() ==> final(self).position() > old(
                self,
            ).position(),
            match old(self).peek() {
                Some(kind) => !(kind is Whitespace) ==> token == Some(
                    old(self).tokens()[old(self).position()],
                ) && final(self).position() == old(self).position() + 1,
                None => token.is_none(),
            },
    {
        proof {
            lemma_next_significant(self.tokens@, self.pos as int);
        }
        while self.pos < self.tokens.len()
            invariant
                self.quiet(old(self)),
                next_significant(self.tokens@, self.pos as int) == next_significant(
                    old(self).tokens@,
                    old(self).pos as int,
                ),
                old(self).pos < self.pos ==> self.tokens@[self.pos - 1].value is Whitespace,
            decreases self.tokens@.len() - self.pos,
        {
            let token = self.tokens[self.pos].clone();
            self.pos += 1;
            match token.value {
                TokenKind::Whitespace => {},
                _ => {
                    return Some(token);
                },
            }
        }
        None
    }

    pub fn is_at_end(&self) -> (b: bool)
        requires
            self.well_formed(),
        ensures
            b == self.at_end(),
    {
        match self.peek_kind() {
            Some(TokenKind::Eof) | None => true,
            _ => false,
        }
    }

    /// Error recovery: discards tokens up to the next plausible start of a
    /// statement.
    pub fn sync(&mut self)
        requires
            old(self).well_formed(),
        ensures
            final(self).quiet(old(self)),
            final(self).position() == sync_end(old(self).tokens(), old(self).position()),
            old(self).position() < old(self).tokens().len() ==> final(self).position() > old(
                self,
            ).position(),
    {
        loop
            invariant
                self.quiet(old(self)),
                sync_end(self.tokens@, self.pos as int) == sync_end(
                    old(self).tokens@,
                    old(self).pos as int,
                ),
                old(self).pos < old(self).tokens@.len() ==> (self.pos > old(self).pos || self.pos
                    < self.tokens@.len()),
            decreases self.tokens@.len() - self.pos,
        {
            proof {
                lemma_next_significant(self.tokens@, self.pos as int);
            }
            let token = match self.advance() {
                Some(t) => t,
                None => {
                    return ;
                },
            };
            if let TokenKind::Semicolon = token.value {
                return ;
            }
            match self.peek_kind() {
                Some(kind) => {
                    if is_statement_start(kind) {
                        return ;
                    }
                },
                None => {
                    return ;
                },
            }
        }
    }

    /// declaration → "var" varDecl | "fun" function | statement. On an
    /// error the message is recorded, the parser recovers, and the result is
    /// `None`.
    pub fn declaration(&mut self) -> (r: Option<Stmt>)
        requires
            old(self).well_formed(),
        ensures
            final(self).advanced(old(self)),
            old(self).position() < old(self).tokens().len() ==> final(self).position() > old(
                self,
            ).position(),
            ({
                let declared = grammar::declaration(old(self).tokens(), old(self).position());
                &&& opt_stmt_view(r) == declared.stmt
                &&& final(self).position() == declared.end
                &&& final(self).reported(old(self), declared.errors)
            }),
            match r {
                Some(s) => stmt_ok(s),
                None => final(self).errors().len() > old(self).errors().len(),
            },
        decreases old(self).tokens().len() - old(self).position(), 20nat,
    {
        let result = match self.peek_kind() {
            Some(TokenKind::Var) => {
                self.advance();
                self.var_declaration()
            },
            Some(TokenKind::Fun) => {
                self.advance();
                self.function("function")
            },
            _ => self.statement(),
        };
        match result {
            Ok(v) => Some(v),
            Err(ParsingError::GeneralError(e)) => {
                let ghost seen = self.errors@;
                self.errors.push(e);
                assert(texts(self.errors@) =~= texts(seen).push(e@));
                self.sync();
                None
            },
        }
    }

    /// function → IDENT "(" params? ")" block, after the keyword.
    pub fn function(&mut self, kind: &str) -> (r: Result<Stmt, ParsingError>)
        requires
            old(self).well_formed(),
        ensures
            final(self).advanced(old(self)),
            ({
                let outcome = grammar::function(old(self).tokens(), old(self).position(), kind@);
                &&& final(self).yields_stmt(r, outcome.result)
                &&& final(self).reported(old(self), outcome.errors)
            }),
            match r {
                Ok(s) => stmt_ok(s) && s is Function && final(self).position() > old(self).position(),
                Err(_) => true,
            },
        decreases old(self).tokens().len() - old(self).position(), 19nat,
    {
        let ghost ts = self.tokens();
        let name = match self.peek_kind() {
            Some(TokenKind::Identifier(_)) => self.advance().unwrap(),
            _ => {
                let mut message = String::from_str("Expect ");
                message.append(kind);
                message.append(" name.");
                return Err(ParsingError::GeneralError(message));
            },
        };
        match self.peek_kind() {
            Some(TokenKind::LeftParen) => {
                self.advance();
            },
            _ => {
                let mut message = String::from_str("Expect '(' after ");
                message.append(kind);
                message.append(" name");
                return Err(ParsingError::GeneralError(message));
            },
        }
        let ghost start = self.position();
        let mut params: Vec<Token> = Vec::new();
        match self.peek_kind() {
            Some(TokenKind::RightParen) => {},
            _ => {
                loop
                    invariant_except_break
                        grammar::parameters(ts, self.position(), params@) == grammar::parameter_list(
                            ts,
                            start,
                        ),
                    invariant
                        self.quiet(old(self)),
                        ts == old(self).tokens(),
                        start == old(self).position() + 2,
                        old(self).peek() matches Some(TokenKind::Identifier(_)),
                        grammar::kind_at(ts, old(self).position() + 1) matches Some(
                            TokenKind::LeftParen,
                        ),
                        self.pos >= start,
                        params@.len() <= MAX_ARITY,
                        all_identifiers(params@),
                    ensures
                        grammar::parameter_list(ts, start) == Parse::Done(params@, self.position()),
                    decreases self.tokens@.len() - self.pos,
                {
                    if params.len() >= MAX_ARITY {
                        return failure("Can't have more than 255 parameters.");
                    }
                    match self.peek_kind() {
                        Some(TokenKind::Identifier(_)) => {
                            let param = self.advance().unwrap();
                            params.push(param);
                        },
                        _ => {
                            return failure("Expect parameter name.");
                        },
                    }
                    match self.peek_kind() {
                        Some(TokenKind::Comma) => {
                            self.advance();
                        },
                        _ => {
                            break ;
                        },
                    }
                }
            },
        }
        match self.peek_kind() {
            Some(TokenKind::RightParen) => {
                self.advance();
            },
            _ => {
                return failure("Expect ')' after parameters");
            },
        }
        match self.peek_kind() {
            Some(TokenKind::LeftBrace) => {
                self.advance();
                let body = match self.block() {
                    Ok(body) => body,
                    Err(e) => {
                        return Err(e);
                    },
                };
                let params = Rc::new(params);
                let body = Rc::new(body);
                proof {
                    lemma_function_view(name, params, body);
                }
                Ok(Stmt::Function(name, params, body))
            },
            _ => {
                let mut message = String::from_str("Expect '{' before ");
                message.append(kind);
                message.append(" body");
                Err(ParsingError::GeneralError(message))
            },
        }
    }

    /// varDecl → IDENT ( "=" expression )? ";", after the keyword.
    pub fn var_declaration(&mut self) -> (r: Result<Stmt, ParsingError>)
        requires
            old(self).well_formed(),
        ensures
            final(self).quiet(old(self)),
            final(self).yields_stmt(
                r,
                grammar::var_declaration(old(self).tokens(), old(self).position()),
            ),
            match r {
                Ok(s) => stmt_ok(s) && s is Var && final(self).position() > old(self).position(),
                Err(_) => true,
            },
        decreases old(self).tokens().len() - old(self).position(), 19nat,
    {
        match self.peek_kind() {
            Some(TokenKind::Identifier(_)) => {
                let name = self.advance().unwrap();
                let initializer = if let Some(TokenKind::Eq) = self.peek_kind() {
                    self.advance();
                    match self.expression() {
                        Ok(e) => Some(e),
                        Err(e) => {
                            return Err(e);
                        },
                    }
                } else {
                    None
                };
                match self.peek_kind() {
                    Some(TokenKind::Semicolon) => {
                        self.advance();
                        Ok(Stmt::Var(name, initializer))
                    },
                    _ => failure("Expect ';' after variable declaration."),
                }
            },
            _ => failure("Expect variable name."),
        }
    }

    /// statement → printStmt | block | ifStmt | whileStmt | forStmt |
    /// returnStmt | exprStmt
    pub fn statement(&mut self) -> (r: Result<Stmt, ParsingError>)
        requires
            old(self).well_formed(),
        ensures
            final(self).advanced(old(self)),
            ({
                let outcome = grammar::statement(old(self).tokens(), old(self).position());
                &&& final(self).yields_stmt(r, outcome.result)
                &&& final(self).reported(old(self), outcome.errors)
            }),
            match r {
                Ok(s) => stmt_ok(s) && final(self).position() > old(self).position(),
                Err(_) => true,
            },
        decreases old(self).tokens().len() - old(self).position(), 19nat,
    {
        match self.peek_kind() {
            Some(TokenKind::Print) => {
                self.advance();
                self.print_statement()
            },
            Some(TokenKind::LeftBrace) => {
                self.advance();
                match self.block() {
                    Ok(stmts) => {
                        proof {
                            lemma_block_view(stmts);
                        }
                        Ok(Stmt::Block(stmts))
                    },
                    Err(e) => Err(e),
                }
            },
            Some(TokenKind::If) => {
                self.advance();
                self.if_statement()
            },
            Some(TokenKind::While) => {
                self.advance();
                self.while_statement()
            },
            Some(TokenKind::For) => {
                self.advance();
                self.for_statement()
            },
            Some(TokenKind::Return) => {
                let token = self.advance().unwrap();
                self.return_statement(token)
            },
            _ => self.expression_statement(),
        }
    }

    /// ifStmt → "(" expression ")" statement ( "else" statement )?, after
    /// the keyword.
    pub fn if_statement(&mut self) -> (r: Result<Stmt, ParsingError>)
        requires
            old(self).well_formed(),
        ensures
            final(self).advanced(old(self)),
            ({
                let outcome = grammar::if_statement(old(self).tokens(), old(self).position());
                &&& final(self).yields_stmt(r, outcome.result)
                &&& final(self).reported(old(self), outcome.errors)
            }),
            match r {
                Ok(s) => stmt_ok(s) && s is If && final(self).position() > old(self).position(),
                Err(_) => true,
            },
        decreases old(self).tokens().len() - old(self).position(), 18nat,
    {
        match self.peek_kind() {
            Some(TokenKind::LeftParen) => {
                self.advance();
            },
            _ => {
                return failure("Expect '(' after 'if'");
            },
        }
        let condition = match self.expression() {
            Ok(e) => e,
            Err(e) => {
                return Err(e);
            },
        };
        match self.peek_kind() {
            Some(TokenKind::RightParen) => {
                self.advance();
            },
            _ => {
                return failure("Expect ')' after 'if'");
            },
        }
        let ghost seen = texts(self.errors@);
        let ghost then = grammar::statement(self.tokens(), self.position());
        let then_branch = match self.statement() {
            Ok(s) => s,
            Err(e) => {
                return Err(e);
            },
        };
        let else_branch = match self.peek_kind() {
            Some(TokenKind::Else) => {
                self.advance();
                let ghost other = grammar::statement(self.tokens(), self.position());
                match self.statement() {
                    Ok(s) => {
                        assert(texts(self.errors@) =~= seen + (then.errors + other.errors));
                        Some(s)
                    },
                    Err(e) => {
                        assert(texts(self.errors@) =~= seen + (then.errors + other.errors));
                        return Err(e);
                    },
                }
            },
            _ => None,
        };
        Ok(Stmt::If(condition, Box::new(then_branch), Box::new(else_branch)))
    }

    /// whileStmt → "(" expression ")" statement, after the keyword.
    pub fn while_statement(&mut self) -> (r: Result<Stmt, ParsingError>)
        requires
            old(self).well_formed(),
        ensures
            final(self).advanced(old(self)),
            ({
                let outcome = grammar::while_statement(old(self).tokens(), old(self).position());
                &&& final(self).yields_stmt(r, outcome.result)
                &&& final(self).reported(old(self), outcome.errors)
            }),
            match r {
                Ok(s) => stmt_ok(s) && s is While && final(self).position() > old(self).position(),
                Err(_) => true,
            },
        decreases old(self).tokens().len() - old(self).position(), 18nat,
    {
        match self.peek_kind() {
            Some(TokenKind::LeftParen) => {
                self.advance();
            },
            _ => {
                return failure("Expect '(' after 'while'");
            },
        }
        let condition = match self.expression() {
            Ok(e) => e,
            Err(e) => {
                return Err(e);
            },
        };
        match self.peek_kind() {
            Some(TokenKind::RightParen) => {
                self.advance();
            },
            _ => {
                return failure("Expect ')' after 'while'");
            },
        }
        let body = match self.statement() {
            Ok(s) => s,
            Err(e) => {
                return Err(e);
            },
        };
        Ok(Stmt::While(condition, Box::new(body)))
    }

    /// forStmt → "(" ( varDecl | exprStmt | ";" ) expression? ";"
    /// expression? ")" statement, after the keyword. The result is the
    /// `while` the `for` stands for.
    pub fn for_statement(&mut self) -> (r: Result<Stmt, ParsingError>)
        requires
            old(self).well_formed(),
        ensures
            final(self).advanced(old(self)),
            ({
                let outcome = grammar::for_statement(old(self).tokens(), old(self).position());
                &&& final(self).yields_stmt(r, outcome.result)
                &&& final(self).reported(old(self), outcome.errors)
            }),
            match r {
                Ok(s) => stmt_ok(s) && final(self).position() > old(self).position(),
                Err(_) => true,
            },
        decreases old(self).tokens().len() - old(self).position(), 18nat,
    {
        match self.peek_kind() {
            Some(TokenKind::LeftParen) => {
                self.advance();
            },
            _ => {
                return failure("Expect '(' after 'for'");
            },
        }
        let initializer = match self.peek_kind() {
            Some(TokenKind::Semicolon) => {
                self.advance();
                None
            },
            Some(TokenKind::Var) => {
                self.advance();
                match self.var_declaration() {
                    Ok(s) => Some(s),
                    Err(e) => {
                        return Err(e);
                    },
                }
            },
            _ => match self.expression_statement() {
                Ok(s) => Some(s),
                Err(e) => {
                    return Err(e);
                },
            },
        };
        let condition = match self.peek_kind() {
            Some(TokenKind::Semicolon) => None,
            _ => match self.expression() {
                Ok(e) => Some(e),
                Err(e) => {
                    return Err(e);
                },
            },
        };
        match self.peek_kind() {
            Some(TokenKind::Semicolon) => {
                self.advance();
            },
            _ => {
                return failure("Expect ';' after loop conditions.");
            },
        }
        let increment = match self.peek_kind() {
            Some(TokenKind::RightParen) => None,
            _ => match self.expression() {
                Ok(e) => Some(e),
                Err(e) => {
                    return Err(e);
                },
            },
        };
        match self.peek_kind() {
            Some(TokenKind::RightParen) => {
                self.advance();
            },
            _ => {
                return failure("Expect ')' after for clauses.");
            },
        }
        let body = match self.statement() {
            Ok(s) => s,
            Err(e) => {
                return Err(e);
            },
        };
        Ok(desugar_for(initializer, condition, increment, body))
    }

    /// printStmt → expression ";", after the keyword.
    pub fn print_statement(&mut self) -> (r: Result<Stmt, ParsingError>)
        requires
            old(self).well_formed(),
        ensures
            final(self).quiet(old(self)),
            final(self).yields_stmt(
                r,
                grammar::print_statement(old(self).tokens(), old(self).position()),
            ),
            match r {
                Ok(s) => stmt_ok(s) && s is Print && final(self).position() > old(self).position(),
                Err(_) => true,
            },
        decreases old(self).tokens().len() - old(self).position(), 18nat,
    {
        let value = match self.expression() {
            Ok(e) => e,
            Err(e) => {
                return Err(e);
            },
        };
        match self.peek_kind() {
            Some(TokenKind::Semicolon) => {
                self.advance();
                Ok(Stmt::Print(value))
            },
            _ => failure("Expect ';' after value"),
        }
    }

    /// returnStmt → expression? ";", after the keyword, which is kept in
    /// the statement.
    pub fn return_statement(&mut self, keyword: Token) -> (r: Result<Stmt, ParsingError>)
        requires
            old(self).well_formed(),
        ensures
            final(self).quiet(old(self)),
            final(self).yields_stmt(
                r,
                grammar::return_statement(old(self).tokens(), old(self).position(), keyword),
            ),
            match r {
                Ok(s) => stmt_ok(s) && final(self).position() > old(self).position(),
                Err(_) => true,
            },
        decreases old(self).tokens().len() - old(self).position(), 18nat,
    {
        let value = match self.peek_kind() {
            Some(TokenKind::Semicolon) => None,
            _ => match self.expression() {
                Ok(e) => Some(e),
                Err(e) => {
                    return Err(e);
                },
            },
        };
        match self.peek_kind() {
            Some(TokenKind::Semicolon) => {
                self.advance();
                Ok(Stmt::Return(keyword, value))
            },
            _ => failure("Expect ';' after return value"),
        }
    }

    /// exprStmt → expression ";"
    pub fn expression_statement(&mut self) -> (r: Result<Stmt, ParsingError>)
        requires
            old(self).well_formed(),
        ensures
            final(self).quiet(old(self)),
            final(self).yields_stmt(
                r,
                grammar::expression_statement(old(self).tokens(), old(self).position()),
            ),
            match r {
                Ok(s) => stmt_ok(s) && s is Expression && final(self).position() > old(
                    self,
                ).position(),
                Err(_) => true,
            },
        decreases old(self).tokens().len() - old(self).position(), 18nat,
    {
        let expr = match self.expression() {
            Ok(e) => e,
            Err(e) => {
                return Err(e);
            },
        };
        match self.peek_kind() {
            Some(TokenKind::Semicolon) => {
                self.advance();
                Ok(Stmt::Expression(expr))
            },
            _ => failure("Expect ';' after value"),
        }
    }

    /// block → "{" declaration* "}", after the opening brace.
    pub fn block(&mut self) -> (r: Result<Vec<Stmt>, ParsingError>)
        requires
            old(self).well_formed(),
        ensures
            final(self).advanced(old(self)),
            ({
                let outcome = grammar::block(old(self).tokens(), old(self).position(), Seq::empty());
                &&& final(self).yields_stmts(r, outcome.result)
                &&& final(self).reported(old(self), outcome.errors)
            }),
            match r {
                Ok(stmts) => all_ok(stmts@) && final(self).position() > old(self).position(),
                Err(_) => true,
            },
        decreases old(self).tokens().len() - old(self).position(), 21nat,
    {
        let ghost ts = self.tokens();
        let ghost target = grammar::block(ts, self.position(), Seq::empty());
        let mut stmts: Vec<Stmt> = Vec::new();
        assert(stmt_views(stmts@) =~= Seq::<StmtView>::empty());
        assert(texts(self.errors()) + target.errors =~= texts(old(self).errors()) + target.errors);
        while !self.is_at_end()
            invariant
                self.advanced(old(self)),
                ts == old(self).tokens(),
                target == grammar::block(ts, old(self).position(), Seq::empty()),
                all_ok(stmts@),
                ({
                    let now = grammar::block(ts, self.position(), stmt_views(stmts@));
                    &&& now.result == target.result
                    &&& texts(self.errors()) + now.errors =~= texts(old(self).errors())
                        + target.errors
                }),
            ensures
                self.at_end() || self.peek() matches Some(TokenKind::RightBrace),
            decreases self.tokens@.len() - self.pos,
        {
            match self.peek_kind() {
                Some(TokenKind::RightBrace) => {
                    break ;
                },
                _ => {
                    let ghost before = stmt_views(stmts@);
                    let ghost first = grammar::declaration(ts, self.position());
                    let ghost seen = texts(self.errors());
                    let ghost here = self.position();
                    if let Some(declaration) = self.declaration() {
                        proof {
                            lemma_stmt_views_push(stmts@, declaration);
                        }
                        stmts.push(declaration);
                    }
                    proof {
                        let now = grammar::block(ts, self.position(), stmt_views(stmts@));
                        let was = grammar::block(ts, here, before);
                        assert(was.errors =~= first.errors + now.errors);
                        assert(texts(self.errors()) =~= seen + first.errors);
                        assert(texts(self.errors()) + now.errors =~= seen + was.errors);
                    }
                },
            }
        }
        proof {
            let now = grammar::block(ts, self.position(), stmt_views(stmts@));
            assert(now.errors =~= Seq::<Seq<char>>::empty());
            assert(texts(self.errors()) + now.errors =~= texts(self.errors()));
        }
        if let Some(TokenKind::RightBrace) = self.peek_kind() {
            self.advance();
            Ok(stmts)
        } else {
            failure("Expect '}' after block.")
        }
    }

    /// expression → assignment
    pub fn expression(&mut self) -> (r: Result<Expr, ParsingError>)
        requires
            old(self).well_formed(),
        ensures
            final(self).quiet(old(self)),
            final(self).yields_expr(r, grammar::expression(old(self).tokens(), old(self).position())),
            match r {
                Ok(e) => expr_ok(e) && final(self).position() > old(self).position(),
                Err(_) => true,
            },
        decreases old(self).tokens().len() - old(self).position(), 17nat,
    {
        self.assignment()
    }

    /// assignment → IDENT "=" assignment | logic_or. Assignments group to
    /// the right.
    pub fn assignment(&mut self) -> (r: Result<Expr, ParsingError>)
        requires
            old(self).well_formed(),
        ensures
            final(self).quiet(old(self)),
            final(self).yields_expr(r, grammar::assignment(old(self).tokens(), old(self).position())),
            match r {
                Ok(e) => expr_ok(e) && final(self).position() > old(self).position(),
                Err(_) => true,
            },
        decreases old(self).tokens().len() - old(self).position(), 16nat,
    {
        let expr = match self.or() {
            Ok(e) => e,
            Err(e) => {
                return Err(e);
            },
        };
        match self.peek_kind() {
            Some(TokenKind::Eq) => {
                self.advance();
                let value = match self.assignment() {
                    Ok(e) => e,
                    Err(e) => {
                        return Err(e);
                    },
                };
                make_assignment(expr, value)
            },
            _ => Ok(expr),
        }
    }

    /// factor → unary ( ( "/" | "*" ) unary )*
    pub fn factor(&mut self) -> (r: Result<Expr, ParsingError>)
        requires
            old(self).well_formed(),
        ensures
            final(self).quiet(old(self)),
            final(self).yields_expr(r, grammar::binary(0, old(self).tokens(), old(self).position())),
            match r {
                Ok(e) => expr_ok(e) && final(self).position() > old(self).position(),
                Err(_) => true,
            },
        decreases old(self).tokens().len() - old(self).position(), 10nat,
    {
        let ghost ts = self.tokens();
        let ghost target = grammar::binary(0, ts, self.position());
        proof {
            assert(grammar::operand(0, ts, self.position()) == grammar::unary(ts, self.position()));
        }
        let mut expr = match self.unary() {
            Ok(e) => e,
            Err(e) => {
                return Err(e);
            },
        };
        loop
            invariant
                self.quiet(old(self)),
                ts == old(self).tokens(),
                target == grammar::binary(0, ts, old(self).position()),
                self.pos > old(self).pos,
                expr_ok(expr),
                grammar::operators(0, ts, self.position(), expr@) == target,
            ensures
                target == Parse::Done(expr@, self.position()),
            decreases self.tokens@.len() - self.pos,
        {
            let op = match self.peek_kind() {
                Some(TokenKind::Slash) => BinOp::Divide,
                Some(TokenKind::Star) => BinOp::Multiply,
                _ => {
                    break ;
                },
            };
            self.advance();
            proof {
                assert(grammar::operand(0, ts, self.position()) == grammar::unary(ts, self.position()));
            }
            let right = match self.unary() {
                Ok(e) => e,
                Err(e) => {
                    return Err(e);
                },
            };
            expr = Expr { kind: ExprKind::Binary(op, Box::new(expr), Box::new(right)) };
        }
        Ok(expr)
    }

    /// term → factor ( ( "-" | "+" ) factor )*
    pub fn term(&mut self) -> (r: Result<Expr, ParsingError>)
        requires
            old(self).well_formed(),
        ensures
            final(self).quiet(old(self)),
            final(self).yields_expr(r, grammar::binary(1, old(self).tokens(), old(self).position())),
            match r {
                Ok(e) => expr_ok(e) && final(self).position() > old(self).position(),
                Err(_) => true,
            },
        decreases old(self).tokens().len() - old(self).position(), 11nat,
    {
        let ghost ts = self.tokens();
        let ghost target = grammar::binary(1, ts, self.position());
        proof {
            assert(grammar::operand(1, ts, self.position()) == grammar::binary(0, ts, self.position()));
        }
        let mut expr = match self.factor() {
            Ok(e) => e,
            Err(e) => {
                return Err(e);
            },
        };
        loop
            invariant
                self.quiet(old(self)),
                ts == old(self).tokens(),
                target == grammar::binary(1, ts, old(self).position()),
                self.pos > old(self).pos,
                expr_ok(expr),
                grammar::operators(1, ts, self.position(), expr@) == target,
            ensures
                target == Parse::Done(expr@, self.position()),
            decreases self.tokens@.len() - self.pos,
        {
            let op = match self.peek_kind() {
                Some(TokenKind::Minus) => BinOp::Minus,
                Some(TokenKind::Plus) => BinOp::Plus,
                _ => {
                    break ;
                },
            };
            self.advance();
            proof {
                assert(grammar::operand(1, ts, self.position()) == grammar::binary(0, ts, self.position()));
            }
            let right = match self.factor() {
                Ok(e) => e,
                Err(e) => {
                    return Err(e);
                },
            };
            expr = Expr { kind: ExprKind::Binary(op, Box::new(expr), Box::new(right)) };
        }
        Ok(expr)
    }

    /// comparison → term ( ( ">" | ">=" | "<" | "<=" ) term )*
    pub fn comparison(&mut self) -> (r: Result<Expr, ParsingError>)
        requires
            old(self).well_formed(),
        ensures
            final(self).quiet(old(self)),
            final(self).yields_expr(r, grammar::binary(2, old(self).tokens(), old(self).position())),
            match r {
                Ok(e) => expr_ok(e) && final(self).position() > old(self).position(),
                Err(_) => true,
            },
        decreases old(self).tokens().len() - old(self).position(), 12nat,
    {
        let ghost ts = self.tokens();
        let ghost target = grammar::binary(2, ts, self.position());
        proof {
            assert(grammar::operand(2, ts, self.position()) == grammar::binary(1, ts, self.position()));
        }
        let mut expr = match self.term() {
            Ok(e) => e,
            Err(e) => {
                return Err(e);
            },
        };
        loop
            invariant
                self.quiet(old(self)),
                ts == old(self).tokens(),
                target == grammar::binary(2, ts, old(self).position()),
                self.pos > old(self).pos,
                expr_ok(expr),
                grammar::operators(2, ts, self.position(), expr@) == target,
            ensures
                target == Parse::Done(expr@, self.position()),
            decreases self.tokens@.len() - self.pos,
        {
            let op = match self.peek_kind() {
                Some(TokenKind::Gt) => BinOp::Gt,
                Some(TokenKind::Ge) => BinOp::Ge,
                Some(TokenKind::Lt) => BinOp::Lt,
                Some(TokenKind::Le) => BinOp::Le,
                _ => {
                    break ;
                },
            };
            self.advance();
            proof {
                assert(grammar::operand(2, ts, self.position()) == grammar::binary(1, ts, self.position()));
            }
            let right = match self.term() {
                Ok(e) => e,
                Err(e) => {
                    return Err(e);
                },
            };
            expr = Expr { kind: ExprKind::Binary(op, Box::new(expr), Box::new(right)) };
        }
        Ok(expr)
    }

    /// equality → comparison ( ( "!=" | "==" ) comparison )*
    pub fn equality(&mut self) -> (r: Result<Expr, ParsingError>)
        requires
            old(self).well_formed(),
        ensures
            final(self).quiet(old(self)),
            final(self).yields_expr(r, grammar::binary(3, old(self).tokens(), old(self).position())),
            match r {
                Ok(e) => expr_ok(e) && final(self).position() > old(self).position(),
                Err(_) => true,
            },
        decreases old(self).tokens().len() - old(self).position(), 13nat,
    {
        let ghost ts = self.tokens();
        let ghost target = grammar::binary(3, ts, self.position());
        proof {
            assert(grammar::operand(3, ts, self.position()) == grammar::binary(2, ts, self.position()));
        }
        let mut expr = match self.comparison() {
            Ok(e) => e,
            Err(e) => {
                return Err(e);
            },
        };
        loop
            invariant
                self.quiet(old(self)),
                ts == old(self).tokens(),
                target == grammar::binary(3, ts, old(self).position()),
                self.pos > old(self).pos,
                expr_ok(expr),
                grammar::operators(3, ts, self.position(), expr@) == target,
            ensures
                target == Parse::Done(expr@, self.position()),
            decreases self.tokens@.len() - self.pos,
        {
            let op = match self.peek_kind() {
                Some(TokenKind::Ne) => BinOp::Ne,
                Some(TokenKind::EqEq) => BinOp::EqEq,
                _ => {
                    break ;
                },
            };
            self.advance();
            proof {
                assert(grammar::operand(3, ts, self.position()) == grammar::binary(2, ts, self.position()));
            }
            let right = match self.comparison() {
                Ok(e) => e,
                Err(e) => {
                    return Err(e);
                },
            };
            expr = Expr { kind: ExprKind::Binary(op, Box::new(expr), Box::new(right)) };
        }
        Ok(expr)
    }

    /// logic_and → equality ( "and" equality )*
    pub fn and(&mut self) -> (r: Result<Expr, ParsingError>)
        requires
            old(self).well_formed(),
        ensures
            final(self).quiet(old(self)),
            final(self).yields_expr(r, grammar::binary(4, old(self).tokens(), old(self).position())),
            match r {
                Ok(e) => expr_ok(e) && final(self).position() > old(self).position(),
                Err(_) => true,
            },
        decreases old(self).tokens().len() - old(self).position(), 14nat,
    {
        let ghost ts = self.tokens();
        let ghost target = grammar::binary(4, ts, self.position());
        proof {
            assert(grammar::operand(4, ts, self.position()) == grammar::binary(3, ts, self.position()));
        }
        let mut expr = match self.equality() {
            Ok(e) => e,
            Err(e) => {
                return Err(e);
            },
        };
        loop
            invariant
                self.quiet(old(self)),
                ts == old(self).tokens(),
                target == grammar::binary(4, ts, old(self).position()),
                self.pos > old(self).pos,
                expr_ok(expr),
                grammar::operators(4, ts, self.position(), expr@) == target,
            ensures
                target == Parse::Done(expr@, self.position()),
            decreases self.tokens@.len() - self.pos,
        {
            let op = match self.peek_kind() {
                Some(TokenKind::And) => LogOp::And,
                _ => {
                    break ;
                },
            };
            self.advance();
            proof {
                assert(grammar::operand(4, ts, self.position()) == grammar::binary(3, ts, self.position()));
            }
            let right = match self.equality() {
                Ok(e) => e,
                Err(e) => {
                    return Err(e);
                },
            };
            expr = Expr { kind: ExprKind::Logical(op, Box::new(expr), Box::new(right)) };
        }
        Ok(expr)
    }

    /// logic_or → logic_and ( "or" logic_and )*
    pub fn or(&mut self) -> (r: Result<Expr, ParsingError>)
        requires
            old(self).well_formed(),
        ensures
            final(self).quiet(old(self)),
            final(self).yields_expr(r, grammar::binary(5, old(self).tokens(), old(self).position())),
            match r {
                Ok(e) => expr_ok(e) && final(self).position() > old(self).position(),
                Err(_) => true,
            },
        decreases old(self).tokens().len() - old(self).position(), 15nat,
    {
        let ghost ts = self.tokens();
        let ghost target = grammar::binary(5, ts, self.position());
        proof {
            assert(grammar::operand(5, ts, self.position()) == grammar::binary(4, ts, self.position()));
        }
        let mut expr = match self.and() {
            Ok(e) => e,
            Err(e) => {
                return Err(e);
            },
        };
        loop
            invariant
                self.quiet(old(self)),
                ts == old(self).tokens(),
                target == grammar::binary(5, ts, old(self).position()),
                self.pos > old(self).pos,
                expr_ok(expr),
                grammar::operators(5, ts, self.position(), expr@) == target,
            ensures
                target == Parse::Done(expr@, self.position()),
            decreases self.tokens@.len() - self.pos,
        {
            let op = match self.peek_kind() {
                Some(TokenKind::Or) => LogOp::Or,
                _ => {
                    break ;
                },
            };
            self.advance();
            proof {
                assert(grammar::operand(5, ts, self.position()) == grammar::binary(4, ts, self.position()));
            }
            let right = match self.and() {
                Ok(e) => e,
                Err(e) => {
                    return Err(e);
                },
            };
            expr = Expr { kind: ExprKind::Logical(op, Box::new(expr), Box::new(right)) };
        }
        Ok(expr)
    }

    /// unary → ( "!" | "-" ) unary | call
    pub fn unary(&mut self) -> (r: Result<Expr, ParsingError>)
        requires
            old(self).well_formed(),
        ensures
            final(self).quiet(old(self)),
            final(self).yields_expr(r, grammar::unary(old(self).tokens(), old(self).position())),
            match r {
                Ok(e) => expr_ok(e) && final(self).position() > old(self).position(),
                Err(_) => true,
            },
        decreases old(self).tokens().len() - old(self).position(), 9nat,
    {
        let op = match self.peek_kind() {
            Some(TokenKind::Bang) => UnOp::LogNeg,
            Some(TokenKind::Minus) => UnOp::BinNeg,
            _ => {
                return self.call();
            },
        };
        self.advance();
        let right = match self.unary() {
            Ok(e) => e,
            Err(e) => {
                return Err(e);
            },
        };
        Ok(Expr { kind: ExprKind::Unary(op, Box::new(right)) })
    }

    /// call → primary ( "(" args? ")" )*
    pub fn call(&mut self) -> (r: Result<Expr, ParsingError>)
        requires
            old(self).well_formed(),
        ensures
            final(self).quiet(old(self)),
            final(self).yields_expr(r, grammar::call(old(self).tokens(), old(self).position())),
            match r {
                Ok(e) => expr_ok(e) && final(self).position() > old(self).position(),
                Err(_) => true,
            },
        decreases old(self).tokens().len() - old(self).position(), 8nat,
    {
        let ghost ts = self.tokens();
        let ghost target = grammar::call(ts, self.position());
        let mut expr = match self.primary() {
            Ok(e) => e,
            Err(e) => {
                return Err(e);
            },
        };
        loop
            invariant
                self.quiet(old(self)),
                ts == old(self).tokens(),
                target == grammar::call(ts, old(self).position()),
                self.pos > old(self).pos,
                expr_ok(expr),
                grammar::calls(ts, self.position(), expr@) == target,
            ensures
                target == Parse::Done(expr@, self.position()),
            decreases self.tokens@.len() - self.pos,
        {
            match self.peek_kind() {
                Some(TokenKind::LeftParen) => {
                    self.advance();
                    expr = match self.finish_call(expr) {
                        Ok(e) => e,
                        Err(e) => {
                            return Err(e);
                        },
                    };
                },
                _ => {
                    break ;
                },
            }
        }
        Ok(expr)
    }

    /// args → expression ( "," expression )*, after the opening
    /// parenthesis, and the closing one.
    pub fn finish_call(&mut self, callee: Expr) -> (r: Result<Expr, ParsingError>)
        requires
            old(self).well_formed(),
            expr_ok(callee),
        ensures
            final(self).quiet(old(self)),
            final(self).yields_expr(
                r,
                grammar::finish_call(old(self).tokens(), old(self).position(), callee@),
            ),
            match r {
                Ok(e) => expr_ok(e) && final(self).position() > old(self).position(),
                Err(_) => true,
            },
        decreases old(self).tokens().len() - old(self).position(), 18nat,
    {
        let ghost ts = self.tokens();
        let ghost target = grammar::finish_call(ts, self.position(), callee@);
        let mut arguments: Vec<Expr> = Vec::new();
        assert(expr_views(arguments@) =~= Seq::<ExprView>::empty());
        match self.peek_kind() {
            Some(TokenKind::RightParen) => {},
            _ => {
                loop
                    invariant_except_break
                        grammar::arguments(ts, self.position(), callee@, expr_views(arguments@))
                            == target,
                    invariant
                        self.quiet(old(self)),
                        ts == old(self).tokens(),
                        target == grammar::finish_call(ts, old(self).position(), callee@),
                        expr_ok(callee),
                        arguments@.len() <= MAX_ARITY,
                        forall|i: int| 0 <= i < arguments@.len() ==> expr_ok(#[trigger] arguments@[i]),
                    ensures
                        match self.peek() {
                            Some(TokenKind::RightParen) => target == Parse::<ExprView>::Done(
                                ExprView::Call(Box::new(callee@), expr_views(arguments@)),
                                self.position() + 1,
                            ),
                            _ => target == Parse::<ExprView>::Failed(
                                "Expect ')' after arguments."@,
                                self.position(),
                            ),
                        },
                        self.position() > old(self).position(),
                    decreases self.tokens@.len() - self.pos,
                {
                    if arguments.len() >= MAX_ARITY {
                        return failure("Can't have more than 255 arguments");
                    }
                    let argument = match self.expression() {
                        Ok(e) => e,
                        Err(e) => {
                            return Err(e);
                        },
                    };
                    proof {
                        lemma_expr_views_push(arguments@, argument);
                    }
                    arguments.push(argument);
                    match self.peek_kind() {
                        Some(TokenKind::Comma) => {
                            self.advance();
                        },
                        _ => {
                            break ;
                        },
                    }
                }
            },
        }
        match self.peek_kind() {
            Some(TokenKind::RightParen) => {
                self.advance();
                proof {
                    lemma_call_view(callee, arguments);
                }
                Ok(Expr { kind: ExprKind::Call(Box::new(callee), arguments) })
            },
            _ => failure("Expect ')' after arguments."),
        }
    }

    /// primary → "true" | "false" | "nil" | NUMBER | STRING
    /// | "(" expression ")" | IDENT
    pub fn primary(&mut self) -> (r: Result<Expr, ParsingError>)
        requires
            old(self).well_formed(),
        ensures
            final(self).quiet(old(self)),
            final(self).yields_expr(r, grammar::primary(old(self).tokens(), old(self).position())),
            match r {
                Ok(e) => expr_ok(e) && final(self).position() > old(self).position(),
                Err(_) => true,
            },
        decreases old(self).tokens().len() - old(self).position(), 7nat,
    {
        let token = match self.advance() {
            Some(token) => token,
            None => {
                return failure("Unexpected EOF");
            },
        };
        if token.names_something() {
            return Ok(Expr { kind: ExprKind::Variable(token) });
        }
        match token.value {
            TokenKind::False => Ok(Expr { kind: ExprKind::Literal(Literal::Bool(false)) }),
            TokenKind::True => Ok(Expr { kind: ExprKind::Literal(Literal::Bool(true)) }),
            TokenKind::Nil => Ok(Expr { kind: ExprKind::Literal(Literal::Nil) }),
            TokenKind::Number(n) => Ok(Expr { kind: ExprKind::Literal(Literal::Number(n)) }),
            TokenKind::String(s) => Ok(Expr { kind: ExprKind::Literal(Literal::String(s)) }),
            TokenKind::LeftParen => {
                let expr = match self.expression() {
                    Ok(e) => e,
                    Err(e) => {
                        return Err(e);
                    },
                };
                match self.peek_kind() {
                    Some(TokenKind::RightParen) => {
                        self.advance();
                        Ok(Expr { kind: ExprKind::Grouping(Box::new(expr)) })
                    },
                    _ => failure("Expected ')' after expression"),
                }
            },
            _ => {
                let mut message = String::from_str("Unexpected token ");
                message.append(token.lexeme.as_str());
                Err(ParsingError::GeneralError(message))
            },
        }
    }
}

/// What parsing a list of tokens gives: the statements that parsed, and the
/// messages of the errors, oldest first.
pub struct Parsed {
    pub statements: Vec<Stmt>,
    pub errors: Vec<String>,
}

/// Parses a whole list of tokens. Every list has a result: what does not
/// parse is reported in `errors` and left out of `statements`.
pub fn parse(tokens: Vec<Token>) -> (parsed: Parsed)
    ensures
        all_ok(parsed.statements@),
        stmt_views(parsed.statements@) == grammar::program(tokens@, 0, Seq::empty()).statements,
        texts(parsed.errors@) == grammar::program(tokens@, 0, Seq::empty()).errors,
{
    let mut parser = Parser::new(tokens);
    let statements = parser.parse();
    let errors = parser.take_errors();
    proof {
        let program = grammar::program(tokens@, 0, Seq::empty());
        assert(texts(Seq::<String>::empty()) + program.errors =~= program.errors);
        assert(texts(errors@) =~= program.errors);
    }
    Parsed { statements, errors }
}

} // verus!
