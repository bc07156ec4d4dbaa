//! A session: one interpreter that runs one piece of source after another.

use crate::ast::{stmt_views, Stmt};
use crate::grammar;
use crate::interpreter::{grows, lemma_grows_transitive, Interpreter, InterpreterErrorKind, DEFAULT_BUDGET};
use crate::lexer::{tokenize, tokens_from, views};
use crate::number::Arithmetic;
use crate::parser::{all_ok, parse, texts};
use crate::semantics::{executes, halt, witness, Machine};
use crate::token::Token;
use vstd::prelude::*;

verus! {

/// The stage at which a run failed.
#[derive(Debug, Clone, Copy)]
pub enum LoxErrorType {
    LexingError,
    ParsingError,
    RuntimeError,
}

/// Why a run stopped early. Tokens carry no line numbers, so `line` is 0.
#[derive(Debug)]
pub struct LoxError {
    pub error_type: LoxErrorType,
    pub line: usize,
    pub message: String,
}

/// Everything one run produced: the printed lines in order, the messages
/// of the statements that did not parse, and how the run ended.
pub struct RunReport {
    pub output: Vec<String>,
    pub parse_errors: Vec<String>,
    pub result: Result<(), LoxError>,
}

/// How a run goes on after a statement: a runtime error stops it, and
/// anything else, a stray `return` too, lets the next statement run.
pub open spec fn stops_run(stop: Option<InterpreterErrorKind>) -> bool {
    stop matches Some(InterpreterErrorKind::General(_))
}

/// Turns the outcome of one statement into the error that ends the run, if
/// it ends it.
pub fn error_of(outcome: Result<(), InterpreterErrorKind>) -> (error: Option<LoxError>)
    ensures
        error.is_some() == stops_run(halt(outcome)),
        match (outcome, error) {
            (Err(InterpreterErrorKind::General(message)), Some(e)) => e.message == message && e.line
                == 0 && e.error_type is RuntimeError,
            _ => true,
        },
{
    match outcome {
        Err(InterpreterErrorKind::General(message)) => Some(
            LoxError { error_type: LoxErrorType::RuntimeError, line: 0, message },
        ),
        _ => None,
    }
}

/// The first `n` statements of a program were executed in order, each from
/// the state the one before left behind, and none ended with a runtime
/// error.
pub open spec fn went_on(pre: Machine, stmts: Seq<Stmt>, n: nat, post: Machine) -> bool
    decreases n,
{
    if n == 0 || n > stmts.len() {
        post == pre
    } else {
        exists|k: nat, m: Machine, stop: Option<InterpreterErrorKind>|
            #[trigger] witness((k, m, stop)) && n == k + 1 && went_on(pre, stmts, k, m) && executes(
                m,
                stmts[k as int],
                post,
                stop,
            ) && !stops_run(stop)
    }
}

/// A program run from `pre` ends in `post`: without a failure after all of
/// its statements, or with the message of the first runtime error, after
/// which no statement is executed.
pub open spec fn program_runs(
    pre: Machine,
    stmts: Seq<Stmt>,
    post: Machine,
    failure: Option<Seq<char>>,
) -> bool {
    match failure {
        None => went_on(pre, stmts, stmts.len(), post),
        Some(message) => exists|i: nat, m: Machine, text: String|
            #[trigger] witness((i, m, text)) && i < stmts.len() && went_on(pre, stmts, i, m)
                && executes(m, stmts[i as int], post, Some(InterpreterErrorKind::General(text)))
                && text@ == message,
    }
}

/// The message of the error a run ended with, if it ended with one.
pub open spec fn failure_text(result: Result<(), LoxError>) -> Option<Seq<char>> {
    match result {
        Ok(_) => None,
        Err(e) => Some(e.message@),
    }
}

pub struct Runner<A: Arithmetic> {
    interpreter: Interpreter<A>,
}

impl<A: Arithmetic> Runner<A> {
    /// The session's interpreter.
    pub closed spec fn interpreter(&self) -> Interpreter<A> {
        self.interpreter
    }

    /// Between runs the global scope is the current one and nothing printed
    /// is left over.
    pub open spec fn well_formed(&self) -> bool {
        &&& self.interpreter().well_formed()
        &&& self.interpreter().current() == 0
        &&& self.interpreter().printed().len() == 0
    }

    /// A fresh session: a global scope that binds `clock`.
    pub fn new(numbers: A) -> (runner: Self)
        ensures
            runner.well_formed(),
            runner.interpreter().store().len() == 1,
    {
        Runner { interpreter: Interpreter::new(numbers) }
    }

    /// Lexes, parses and executes `code`. Statements that do not parse are
    /// reported and skipped; the first runtime error ends the run, and the
    /// statements after it are not executed. What the run defined stays
    /// defined for the next one.
    pub fn run(&mut self, code: &str) -> (report: RunReport)
        requires
            old(self).well_formed(),
        ensures
            final(self).well_formed(),
            grows(old(self).interpreter().store(), final(self).interpreter().store()),
            match report.result {
                Ok(()) => true,
                Err(e) => e.error_type is RuntimeError && e.line == 0,
            },
            exists|tokens: Seq<Token>, stmts: Seq<Stmt>|
                #[trigger] witness((tokens, stmts)) && views(tokens) == tokens_from(code@, 0)
                    && stmt_views(stmts) == grammar::program(tokens, 0, Seq::empty()).statements
                    && texts(report.parse_errors@) == grammar::program(
                    tokens,
                    0,
                    Seq::empty(),
                ).errors && program_runs(
                    Machine { fuel: DEFAULT_BUDGET as nat, ..old(self).interpreter().machine() },
                    stmts,
                    Machine {
                        printed: texts(report.output@),
                        ..final(self).interpreter().machine()
                    },
                    failure_text(report.result),
                ),
    {
        let tokens = tokenize(code, self.interpreter.numbers());
        let ghost lexed = tokens@;
        let parsed = parse(tokens);
        let stmts = parsed.statements;
        self.interpreter.set_budget(DEFAULT_BUDGET);
        let ghost start = self.interpreter.machine();
        let mut failure: Option<LoxError> = None;
        let mut i: usize = 0;
        while i < stmts.len() && failure.is_none()
            invariant
                i <= stmts@.len(),
                all_ok(stmts@),
                self.interpreter.well_formed(),
                self.interpreter.current() == 0,
                grows(old(self).interpreter().store(), self.interpreter.store()),
                match failure {
                    Some(e) => e.error_type is RuntimeError && e.line == 0 && program_runs(
                        start,
                        stmts@,
                        self.interpreter.machine(),
                        Some(e.message@),
                    ),
                    None => went_on(start, stmts@, i as nat, self.interpreter.machine()),
                },
            decreases stmts@.len() - i + (if failure.is_none() { 1int } else { 0int }),
        {
            let ghost mid = self.interpreter.store();
            let ghost m = self.interpreter.machine();
            let outcome = self.interpreter.execute(&stmts[i]);
            let ghost stop = halt(outcome);
            proof {
                lemma_grows_transitive(
                    old(self).interpreter().store(),
                    mid,
                    self.interpreter.store(),
                );
                assert(executes(m, stmts@[i as int], self.interpreter.machine(), halt(outcome)));
                match stop {
                    Some(InterpreterErrorKind::General(text)) => {
                        assert(witness((i as nat, m, text)));
                    },
                    _ => {
                        assert(witness((i as nat, m, stop)));
                        assert(went_on(
                            start,
                            stmts@,
                            (i + 1) as nat,
                            self.interpreter.machine(),
                        ));
                    },
                }
            }
            failure = error_of(outcome);
            i += 1;
        }
        let ghost ended = self.interpreter.machine();
        let output = self.interpreter.take_output();
        let report = RunReport {
            output,
            parse_errors: parsed.errors,
            result: match failure {
                Some(e) => Err(e),
                None => Ok(()),
            },
        };
        proof {
            assert(witness((lexed, stmts@)));
            assert(ended == (Machine {
                printed: texts(report.output@),
                ..self.interpreter.machine()
            }));
        }
        report
    }
}

} // verus!
