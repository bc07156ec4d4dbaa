//! The evaluator: statements and expressions against a chain of scopes.

use crate::ast::{BinOp, Expr, ExprKind, Literal, LogOp, Stmt, UnOp};
use crate::callable::{share, unix_seconds, Clock, LoxCallable, LoxFunction};
use crate::environment::{
    bind, chained, lemma_resolve_holds, lookup, resolve, Environment, ScopeView,
};
use crate::number::{Arithmetic, Number};
use crate::parser::{all_identifiers, all_ok, expr_ok, stmt_ok, texts};
use crate::semantics::{
    applies, bind_all, calls, enter, evaluates, executes, gathered, last_round, nest, prints, ran,
    repeated, returned, runs, second_operand, spend, halt, witness, Machine,
};
use vstd::prelude::*;
use vstd::string::StringExecFns;

verus! {

/// How evaluation ends when it does not end with a value: a runtime error,
/// or the signal that carries the value of a `return` to the call it
/// returns from.
#[derive(Debug)]
pub enum InterpreterErrorKind {
    General(String),
    Return(Option<Literal>),
}

/// Steps a fresh interpreter may take in one run before it gives up.
pub const DEFAULT_BUDGET: u64 = 0xffff_ffff_ffff_ffff;

/// `Nil` and `false` count as false; everything else counts as true.
pub open spec fn truthy(value: Literal) -> bool {
    match value {
        Literal::Nil => false,
        Literal::Bool(b) => b,
        _ => true,
    }
}

pub fn is_truthy(val: &Literal) -> (b: bool)
    ensures
        b == truthy(*val),
{
    match val {
        Literal::Nil => false,
        Literal::Bool(b) => *b,
        _ => true,
    }
}

/// Equality of two values, given what the host says of the two numbers
/// where both are numbers: values of different types are unequal, and so are
/// callables.
pub open spec fn equal_values(lhs: Literal, rhs: Literal, numbers_equal: bool) -> bool {
    match (lhs, rhs) {
        (Literal::Nil, Literal::Nil) => true,
        (Literal::Number(_), Literal::Number(_)) => numbers_equal,
        (Literal::String(a), Literal::String(b)) => a@ == b@,
        (Literal::Bool(a), Literal::Bool(b)) => a == b,
        _ => false,
    }
}

/// Decides equality from the two values and the host's verdict on numbers.
pub fn equality_result(lhs: &Literal, rhs: &Literal, numbers_equal: bool) -> (b: bool)
    ensures
        b == equal_values(*lhs, *rhs, numbers_equal),
{
    match (lhs, rhs) {
        (Literal::Nil, Literal::Nil) => true,
        (Literal::Number(_), Literal::Number(_)) => numbers_equal,
        (Literal::String(a), Literal::String(b)) => *a == *b,
        (Literal::Bool(a), Literal::Bool(b)) => *a == *b,
        _ => false,
    }
}

/// Equality of two values. The host is asked only where both are numbers;
/// in every other case the result does not depend on it.
pub fn is_equal<A: Arithmetic>(lhs: &Literal, rhs: &Literal, numbers: &A) -> (b: bool)
    ensures
        !(lhs is Number && rhs is Number) ==> b == equal_values(*lhs, *rhs, false),
{
    let verdict = match (lhs, rhs) {
        (Literal::Number(a), Literal::Number(b)) => numbers.equal(*a, *b),
        _ => false,
    };
    equality_result(lhs, rhs, verdict)
}

pub open spec fn operand_message() -> Seq<char> {
    "Operand must be a number"@
}

pub open spec fn operands_message() -> Seq<char> {
    "Operands must be numbers"@
}

pub open spec fn addition_message() -> Seq<char> {
    "Operands must be two numbers or two strings"@
}

pub open spec fn not_callable_message() -> Seq<char> {
    "Can only call functions and classes"@
}

pub open spec fn exhausted_message() -> Seq<char> {
    "Evaluation budget exhausted"@
}

/// `e` is the runtime error with the text `message`.
pub open spec fn is_general(e: InterpreterErrorKind, message: Seq<char>) -> bool {
    match e {
        InterpreterErrorKind::General(m) => m@ == message,
        InterpreterErrorKind::Return(_) => false,
    }
}

/// `r` is the failure with the runtime error `message`.
pub open spec fn fails_with<T>(r: Result<T, InterpreterErrorKind>, message: Seq<char>) -> bool {
    match r {
        Ok(_) => false,
        Err(e) => is_general(e, message),
    }
}

fn general<T>(message: &str) -> (r: Result<T, InterpreterErrorKind>)
    ensures
        fails_with(r, message@),
{
    Err(InterpreterErrorKind::General(String::from_str(message)))
}

/// The decimal digit for a value below ten.
pub open spec fn digit_char(d: nat) -> char {
    if d == 0 {
        '0'
    } else if d == 1 {
        '1'
    } else if d == 2 {
        '2'
    } else if d == 3 {
        '3'
    } else if d == 4 {
        '4'
    } else if d == 5 {
        '5'
    } else if d == 6 {
        '6'
    } else if d == 7 {
        '7'
    } else if d == 8 {
        '8'
    } else {
        '9'
    }
}

/// A natural number in decimal, without leading zeros.
pub open spec fn decimal(n: nat) -> Seq<char>
    decreases n,
{
    if n < 10 {
        seq![digit_char(n)]
    } else {
        decimal(n / 10).push(digit_char(n % 10))
    }
}

fn digit(d: usize) -> (c: char)
    requires
        d < 10,
    ensures
        c == digit_char(d as nat),
{
    if d == 0 {
        '0'
    } else if d == 1 {
        '1'
    } else if d == 2 {
        '2'
    } else if d == 3 {
        '3'
    } else if d == 4 {
        '4'
    } else if d == 5 {
        '5'
    } else if d == 6 {
        '6'
    } else if d == 7 {
        '7'
    } else if d == 8 {
        '8'
    } else {
        '9'
    }
}

/// Writes a count in decimal.
pub fn decimal_text(n: usize) -> (text: String)
    ensures
        text@ == decimal(n as nat),
    decreases n,
{
    if n < 10 {
        let mut text = String::new();
        text.push(digit(n));
        assert(text@ =~= seq![digit_char(n as nat)]);
        text
    } else {
        let mut text = decimal_text(n / 10);
        text.push(digit(n % 10));
        text
    }
}

/// The text of the error for a call with the wrong number of arguments.
pub open spec fn arity_message(expected: nat, got: nat) -> Seq<char> {
    "Expected "@ + decimal(expected) + " arguments but got "@ + decimal(got) + "."@
}

/// Checks the number of arguments of a call against the callee's arity.
pub fn check_arity(expected: usize, got: usize) -> (r: Result<(), InterpreterErrorKind>)
    ensures
        expected == got ==> r.is_ok(),
        expected != got ==> fails_with(r, arity_message(expected as nat, got as nat)),
{
    if expected == got {
        Ok(())
    } else {
        let mut message = String::from_str("Expected ");
        message.append(decimal_text(expected).as_str());
        message.append(" arguments but got ");
        message.append(decimal_text(got).as_str());
        message.append(".");
        Err(InterpreterErrorKind::General(message))
    }
}

/// What a unary operator yields for an operand, given the host's negation
/// of the operand where it is a number. `!` yields the opposite of the
/// operand's truth; `-` takes a number.
pub open spec fn is_unary_result(
    op: UnOp,
    operand: Literal,
    negated: Number,
    r: Result<Literal, InterpreterErrorKind>,
) -> bool {
    match op {
        UnOp::LogNeg => r == Ok::<Literal, InterpreterErrorKind>(Literal::Bool(!truthy(operand))),
        UnOp::BinNeg => match operand {
            Literal::Number(_) => r == Ok::<Literal, InterpreterErrorKind>(Literal::Number(negated)),
            _ => fails_with(r, operand_message()),
        },
    }
}

/// Decides the result of a unary operator from the operand and the host's
/// negation.
pub fn unary_result(op: UnOp, operand: &Literal, negated: Number) -> (r: Result<
    Literal,
    InterpreterErrorKind,
>)
    ensures
        is_unary_result(op, *operand, negated, r),
{
    match op {
        UnOp::LogNeg => Ok(Literal::Bool(!is_truthy(operand))),
        UnOp::BinNeg => match operand {
            Literal::Number(_) => Ok(Literal::Number(negated)),
            _ => general("Operand must be a number"),
        },
    }
}

/// True for the four operators that compute a number from two numbers.
pub open spec fn is_arithmetic(op: BinOp) -> bool {
    op is Plus || op is Minus || op is Multiply || op is Divide
}

/// True for the four operators that order two numbers.
pub open spec fn is_ordering(op: BinOp) -> bool {
    op is Gt || op is Ge || op is Lt || op is Le
}

/// What a binary operator yields for two operands, given what the host
/// computed where both are numbers: `number` for the arithmetic operators,
/// `truth` for the comparisons.
pub open spec fn is_binary_result(
    op: BinOp,
    left: Literal,
    right: Literal,
    number: Number,
    truth: bool,
    r: Result<Literal, InterpreterErrorKind>,
) -> bool {
    match op {
        BinOp::EqEq => r == Ok::<Literal, InterpreterErrorKind>(
            Literal::Bool(equal_values(left, right, truth)),
        ),
        BinOp::Ne => r == Ok::<Literal, InterpreterErrorKind>(
            Literal::Bool(!equal_values(left, right, !truth)),
        ),
        BinOp::Plus => match (left, right) {
            (Literal::Number(_), Literal::Number(_)) => r == Ok::<Literal, InterpreterErrorKind>(
                Literal::Number(number),
            ),
            (Literal::String(a), Literal::String(b)) => match r {
                Ok(Literal::String(joined)) => joined@ == a@ + b@,
                _ => false,
            },
            _ => fails_with(r, addition_message()),
        },
        BinOp::Minus | BinOp::Multiply | BinOp::Divide => match (left, right) {
            (Literal::Number(_), Literal::Number(_)) => r == Ok::<Literal, InterpreterErrorKind>(
                Literal::Number(number),
            ),
            _ => fails_with(r, operands_message()),
        },
        BinOp::Gt | BinOp::Ge | BinOp::Lt | BinOp::Le => match (left, right) {
            (Literal::Number(_), Literal::Number(_)) => r == Ok::<Literal, InterpreterErrorKind>(
                Literal::Bool(truth),
            ),
            _ => fails_with(r, operands_message()),
        },
        BinOp::Eq => false,
    }
}

/// Decides the result of a binary operator from the operands and what the
/// host computed for them. For `!=` the host's verdict is the inequality of
/// the two numbers.
pub fn binary_result(op: BinOp, left: &Literal, right: &Literal, number: Number, truth: bool) -> (r:
    Result<Literal, InterpreterErrorKind>)
    requires
        !(op is Eq),
    ensures
        is_binary_result(op, *left, *right, number, truth, r),
{
    match op {
        BinOp::EqEq => Ok(Literal::Bool(equality_result(left, right, truth))),
        BinOp::Ne => Ok(Literal::Bool(!equality_result(left, right, !truth))),
        BinOp::Plus => match (left, right) {
            (Literal::Number(_), Literal::Number(_)) => Ok(Literal::Number(number)),
            (Literal::String(a), Literal::String(b)) => {
                let mut joined = a.clone();
                joined.append(b.as_str());
                Ok(Literal::String(joined))
            },
            _ => general("Operands must be two numbers or two strings"),
        },
        BinOp::Minus | BinOp::Multiply | BinOp::Divide => match (left, right) {
            (Literal::Number(_), Literal::Number(_)) => Ok(Literal::Number(number)),
            _ => general("Operands must be numbers"),
        },
        BinOp::Gt | BinOp::Ge | BinOp::Lt | BinOp::Le => match (left, right) {
            (Literal::Number(_), Literal::Number(_)) => Ok(Literal::Bool(truth)),
            _ => general("Operands must be numbers"),
        },
        BinOp::Eq => general("Operands must be numbers"),
    }
}

/// Whether a logical operator is decided by its left operand alone: `and`
/// by a false one, `or` by a true one. The right operand is then not
/// evaluated, and the left one is the result.
pub open spec fn short_circuits(op: LogOp, left: Literal) -> bool {
    match op {
        LogOp::And => !truthy(left),
        LogOp::Or => truthy(left),
    }
}

pub fn decided_by_left(op: LogOp, left: &Literal) -> (b: bool)
    ensures
        b == short_circuits(op, *left),
{
    match op {
        LogOp::And => !is_truthy(left),
        LogOp::Or => is_truthy(left),
    }
}

/// The canonical text of a value that is no number, as `print` writes it.
pub open spec fn text_of(value: Literal) -> Seq<char> {
    match value {
        Literal::Nil => "nil"@,
        Literal::Bool(b) => if b {
            "true"@
        } else {
            "false"@
        },
        Literal::String(s) => s@,
        Literal::Callable(LoxCallable::Function(f)) => "<fn "@ + f.name@ + ">"@,
        Literal::Callable(LoxCallable::Other(_)) => "<native fn>"@,
        Literal::Number(_) => Seq::empty(),
    }
}

/// The canonical text of a value. A number's text is the host's.
pub fn describe<A: Arithmetic>(value: &Literal, numbers: &A) -> (text: String)
    ensures
        !(value is Number) ==> text@ == text_of(*value),
{
    match value {
        Literal::Nil => String::from_str("nil"),
        Literal::Bool(b) => if *b {
            String::from_str("true")
        } else {
            String::from_str("false")
        },
        Literal::String(s) => s.clone(),
        Literal::Number(n) => numbers.format(*n),
        Literal::Callable(LoxCallable::Function(f)) => {
            let mut text = String::from_str("<fn ");
            text.append(f.name.as_str());
            text.append(">");
            text
        },
        Literal::Callable(LoxCallable::Other(_)) => String::from_str("<native fn>"),
    }
}

/// A value that can live in a store of `scopes` scopes: a function value
/// closes over one of them, and its declaration is as the parser builds
/// them.
pub open spec fn value_ok(value: Literal, scopes: int) -> bool {
    match value {
        Literal::Callable(LoxCallable::Function(f)) => 0 <= f.closure < scopes && all_identifiers(
            f.params@,
        ) && all_ok(f.body@),
        _ => true,
    }
}

/// Every value bound anywhere in the store can live in it.
pub open spec fn store_ok(store: Seq<ScopeView>) -> bool {
    forall|i: int, name: Seq<char>|
        0 <= i < store.len() && #[trigger] store[i].bindings.dom().contains(name) ==> value_ok(
            store[i].bindings[name],
            store.len() as int,
        )
}

/// `after` is `before` with scopes added and names bound or rebound: no
/// scope is removed or moved, and no name loses its binding.
pub open spec fn grows(before: Seq<ScopeView>, after: Seq<ScopeView>) -> bool {
    &&& before.len() <= after.len()
    &&& forall|i: int|
        0 <= i < before.len() ==> (#[trigger] after[i]).enclosing == before[i].enclosing
            && before[i].bindings.dom().subset_of(after[i].bindings.dom())
}

pub proof fn lemma_bind_keeps_store(store: Seq<ScopeView>, scope: int, name: Seq<char>, value: Literal)
    requires
        store_ok(store),
        chained(store),
        0 <= scope < store.len(),
        value_ok(value, store.len() as int),
    ensures
        store_ok(bind(store, scope, name, value)),
        chained(bind(store, scope, name, value)),
        grows(store, bind(store, scope, name, value)),
{
    let after = bind(store, scope, name, value);
    assert forall|i: int, key: Seq<char>|
        0 <= i < after.len() && #[trigger] after[i].bindings.dom().contains(key) implies value_ok(
        after[i].bindings[key],
        after.len() as int,
    ) by {
        if i == scope && key == name {
        } else {
            assert(store[i].bindings.dom().contains(key));
        }
    }
    assert forall|i: int| 0 <= i < after.len() implies match (#[trigger] after[i]).enclosing {
        Some(e) => 0 <= e < i,
        None => true,
    } by {
        assert(after[i].enclosing == store[i].enclosing);
    }
}

pub proof fn lemma_push_keeps_store(store: Seq<ScopeView>, enclosing: int)
    requires
        store_ok(store),
        chained(store),
        0 <= enclosing < store.len(),
    ensures
        store_ok(store.push(ScopeView { enclosing: Some(enclosing), bindings: Map::empty() })),
        chained(store.push(ScopeView { enclosing: Some(enclosing), bindings: Map::empty() })),
        grows(store, store.push(ScopeView { enclosing: Some(enclosing), bindings: Map::empty() })),
{
    let after = store.push(ScopeView { enclosing: Some(enclosing), bindings: Map::empty() });
    assert forall|i: int, key: Seq<char>|
        0 <= i < after.len() && #[trigger] after[i].bindings.dom().contains(key) implies value_ok(
        after[i].bindings[key],
        after.len() as int,
    ) by {
        if i < store.len() {
            assert(store[i].bindings.dom().contains(key));
        }
    }
    assert forall|i: int| 0 <= i < after.len() implies match (#[trigger] after[i]).enclosing {
        Some(e) => 0 <= e < i,
        None => true,
    } by {
        if i < store.len() {
            assert(after[i].enclosing == store[i].enclosing);
        }
    }
}

pub proof fn lemma_lookup_ok(store: Seq<ScopeView>, scope: int, name: Seq<char>)
    requires
        store_ok(store),
    ensures
        match lookup(store, scope, name) {
            Some(value) => value_ok(value, store.len() as int),
            None => true,
        },
{
    lemma_resolve_holds(store, scope, name);
}

pub proof fn lemma_grows_transitive(a: Seq<ScopeView>, b: Seq<ScopeView>, c: Seq<ScopeView>)
    requires
        grows(a, b),
        grows(b, c),
    ensures
        grows(a, c),
{
    assert forall|i: int| 0 <= i < a.len() implies (#[trigger] c[i]).enclosing == a[i].enclosing
        && a[i].bindings.dom().subset_of(c[i].bindings.dom()) by {
        assert(b[i].enclosing == a[i].enclosing);
    }
}

/// The evaluator: a store of scopes, the scope that is current, what has
/// been printed, and the host's arithmetic.
pub struct Interpreter<A: Arithmetic> {
    scopes: Environment,
    environment: usize,
    globals: usize,
    output: Vec<String>,
    budget: u64,
    numbers: A,
}

impl<A: Arithmetic> Interpreter<A> {
    /// The scopes, by index.
    pub closed spec fn store(&self) -> Seq<ScopeView> {
        self.scopes@
    }

    /// Index of the scope that is current.
    pub closed spec fn current(&self) -> int {
        self.environment as int
    }

    /// Index of the global scope.
    pub closed spec fn global_scope(&self) -> int {
        self.globals as int
    }

    /// The lines printed so far and not yet taken.
    pub closed spec fn printed(&self) -> Seq<String> {
        self.output@
    }

    /// Steps left before evaluation gives up.
    pub closed spec fn fuel(&self) -> nat {
        self.budget as nat
    }

    pub closed spec fn scopes_consistent(&self) -> bool {
        self.scopes.well_formed()
    }

    /// The state as the semantics sees it.
    pub open spec fn machine(&self) -> Machine {
        Machine {
            store: self.store(),
            current: self.current(),
            printed: texts(self.printed()),
            fuel: self.fuel(),
        }
    }

    /// The invariant every interpreter keeps.
    pub open spec fn well_formed(&self) -> bool {
        &&& self.scopes_consistent()
        &&& chained(self.store())
        &&& store_ok(self.store())
        &&& 0 <= self.current() < self.store().len()
        &&& self.global_scope() == 0
    }

    /// `self` is `before` after some evaluation: the same current scope, a
    /// store that grew, more printed lines after the old ones, and no more
    /// fuel than before.
    pub open spec fn follows(&self, before: &Self) -> bool {
        &&& self.well_formed()
        &&& self.current() == before.current()
        &&& grows(before.store(), self.store())
        &&& before.printed().is_prefix_of(self.printed())
        &&& self.fuel() <= before.fuel()
    }

    /// `self` differs from `before` in its fuel at most.
    pub open spec fn same_state(&self, before: &Self) -> bool {
        &&& self.store() == before.store()
        &&& self.current() == before.current()
        &&& self.printed() == before.printed()
    }

    /// A fresh interpreter: one scope, the global one, which is current and
    /// binds the native function `clock`.
    pub fn new(numbers: A) -> (interpreter: Self)
        ensures
            interpreter.well_formed(),
            interpreter.current() == 0,
            interpreter.fuel() == DEFAULT_BUDGET,
            interpreter.printed().len() == 0,
            interpreter.store() == seq![
                ScopeView {
                    enclosing: None,
                    bindings: Map::<Seq<char>, Literal>::empty().insert(
                        "clock"@,
                        Literal::Callable(LoxCallable::Other(Clock)),
                    ),
                },
            ],
    {
        let mut scopes = Environment::new();
        let ghost empty = scopes@;
        assert(store_ok(empty));
        proof {
            lemma_bind_keeps_store(
                empty,
                0,
                "clock"@,
                Literal::Callable(LoxCallable::Other(Clock)),
            );
        }
        scopes.define(0, String::from_str("clock"), Literal::Callable(LoxCallable::Other(Clock)));
        assert(scopes@ =~= seq![
            ScopeView {
                enclosing: None,
                bindings: Map::<Seq<char>, Literal>::empty().insert(
                    "clock"@,
                    Literal::Callable(LoxCallable::Other(Clock)),
                ),
            },
        ]);
        Interpreter {
            scopes,
            environment: 0,
            globals: 0,
            output: Vec::new(),
            budget: DEFAULT_BUDGET,
            numbers,
        }
    }

    /// Sets the number of steps evaluation may still take.
    pub fn set_budget(&mut self, budget: u64)
        ensures
            final(self).same_state(old(self)),
            final(self).fuel() == budget,
            old(self).well_formed() ==> final(self).well_formed(),
    {
        self.budget = budget;
    }

    /// Hands out the lines printed since the last call.
    pub fn take_output(&mut self) -> (lines: Vec<String>)
        ensures
            lines@ == old(self).printed(),
            final(self).printed().len() == 0,
            final(self).store() == old(self).store(),
            final(self).current() == old(self).current(),
            final(self).fuel() == old(self).fuel(),
            old(self).well_formed() ==> final(self).well_formed(),
    {
        let mut lines: Vec<String> = Vec::new();
        core::mem::swap(&mut lines, &mut self.output);
        lines
    }

    /// The host's arithmetic.
    pub closed spec fn host(&self) -> A {
        self.numbers
    }

    /// The host's arithmetic.
    pub fn numbers(&self) -> (numbers: &A)
        ensures
            *numbers == self.host(),
    {
        &self.numbers
    }

    /// Index of the global scope.
    pub fn globals(&self) -> (scope: usize)
        ensures
            scope == self.global_scope(),
    {
        self.globals
    }

    /// Spends one step; without fuel there is none to spend.
    fn step(&mut self) -> (r: Result<(), InterpreterErrorKind>)
        ensures
            final(self).same_state(old(self)),
            old(self).well_formed() ==> final(self).well_formed(),
            old(self).fuel() == 0 ==> fails_with(r, exhausted_message()) && final(self).fuel() == 0,
            old(self).fuel() > 0 ==> r.is_ok() && final(self).fuel() == old(self).fuel() - 1,
    {
        if self.budget == 0 {
            general("Evaluation budget exhausted")
        } else {
            self.budget = self.budget - 1;
            Ok(())
        }
    }

    /// Executes one statement: what happens is what `executes` says.
    pub fn execute(&mut self, stmt: &Stmt) -> (r: Result<(), InterpreterErrorKind>)
        requires
            old(self).well_formed(),
            stmt_ok(*stmt),
        ensures
            final(self).follows(old(self)),
            executes(old(self).machine(), *stmt, final(self).machine(), halt(r)),
            r.is_ok() ==> final(self).fuel() < old(self).fuel(),
            match r {
                Err(InterpreterErrorKind::Return(Some(value))) => value_ok(
                    value,
                    final(self).store().len() as int,
                ),
                _ => true,
            },
        decreases old(self).fuel(), 0nat,
    {
        let ghost pre = self.machine();
        match self.step() {
            Ok(()) => {},
            Err(e) => {
                return Err(e);
            },
        }
        let ghost s = self.machine();
        assert(s == spend(pre));
        match stmt {
            Stmt::Print(expr) => {
                let value = match self.evaluate(expr) {
                    Ok(v) => v,
                    Err(e) => {
                        return Err(e);
                    },
                };
                let ghost m = self.machine();
                let line = describe(&value, &self.numbers);
                let ghost seen = self.output@;
                self.output.push(line);
                proof {
                    assert(texts(self.output@) =~= texts(seen).push(line@));
                    assert(texts(self.output@).drop_last() =~= texts(seen));
                    assert(prints(m, value, self.machine()));
                    assert(evaluates(s, *expr, m, Ok(value)));
                    assert(witness((m, value)));
                }
                Ok(())
            },
            Stmt::Expression(expr) => {
                match self.evaluate(expr) {
                    Ok(v) => {
                        assert(evaluates(s, *expr, self.machine(), Ok(v)));
                        assert(witness(v));
                        Ok(())
                    },
                    Err(e) => Err(e),
                }
            },
            Stmt::Var(name, initializer) => {
                let value = match initializer {
                    Some(init) => match self.evaluate(init) {
                        Ok(v) => {
                            assert(evaluates(s, *init, self.machine(), Ok(v)));
                            v
                        },
                        Err(e) => {
                            return Err(e);
                        },
                    },
                    None => Literal::Nil,
                };
                let ghost m = self.machine();
                proof {
                    lemma_bind_keeps_store(self.store(), self.current(), name.lexeme@, value);
                    lemma_grows_transitive(
                        old(self).store(),
                        self.store(),
                        bind(self.store(), self.current(), name.lexeme@, value),
                    );
                }
                self.scopes.define(self.environment, name.lexeme.clone(), value);
                assert(self.machine() == (Machine {
                    store: bind(m.store, m.current, name.lexeme@, value),
                    ..m
                }));
                assert(witness((m, value)));
                Ok(())
            },
            Stmt::Block(stmts) => {
                proof {
                    lemma_push_keeps_store(self.store(), self.current());
                }
                let ghost before = self.store();
                let scope = self.scopes.with_enclosing(self.environment);
                proof {
                    lemma_grows_transitive(old(self).store(), before, self.store());
                }
                let ghost mid = self.store();
                let ghost entered = enter(self.machine(), scope as int);
                let r = self.execute_block(stmts, scope);
                proof {
                    lemma_grows_transitive(old(self).store(), mid, self.store());
                    assert(entered == (Machine {
                        store: nest(s.store, s.current),
                        current: s.store.len() as int,
                        ..s
                    }));
                }
                r
            },
            Stmt::If(condition, then_stmt, else_stmt) => {
                let test = match self.evaluate(condition) {
                    Ok(v) => v,
                    Err(e) => {
                        return Err(e);
                    },
                };
                let ghost mid = self.store();
                let ghost m = self.machine();
                assert(evaluates(s, *condition, m, Ok(test)));
                assert(witness((m, test)));
                if is_truthy(&test) {
                    let r = self.execute(then_stmt);
                    proof {
                        lemma_grows_transitive(old(self).store(), mid, self.store());
                    }
                    r
                } else {
                    match &**else_stmt {
                        Some(stmt) => {
                            let r = self.execute(stmt);
                            proof {
                                lemma_grows_transitive(old(self).store(), mid, self.store());
                            }
                            r
                        },
                        None => Ok(()),
                    }
                }
            },
            Stmt::While(condition, body) => {
                let ghost mut rounds: nat = 0;
                loop
                    invariant
                        self.follows(old(self)),
                        self.fuel() < old(self).fuel(),
                        pre == old(self).machine(),
                        s == spend(pre),
                        pre.fuel > 0,
                        stmt_ok(*stmt),
                        *stmt == Stmt::While(*condition, *body),
                        repeated(s, *condition, **body, rounds, self.machine()),
                    decreases self.fuel(),
                {
                    let ghost start = self.store();
                    let ghost m = self.machine();
                    let test = match self.evaluate(condition) {
                        Ok(v) => v,
                        Err(e) => {
                            proof {
                                lemma_grows_transitive(old(self).store(), start, self.store());
                                assert(last_round(m, *condition, **body, self.machine(), Some(e)));
                                assert(witness((rounds, m)));
                            }
                            return Err(e);
                        },
                    };
                    proof {
                        lemma_grows_transitive(old(self).store(), start, self.store());
                    }
                    let ghost tested = self.machine();
                    assert(evaluates(m, *condition, tested, Ok(test)));
                    if !is_truthy(&test) {
                        proof {
                            assert(witness(test));
                            assert(last_round(m, *condition, **body, self.machine(), None));
                            assert(witness((rounds, m)));
                        }
                        return Ok(());
                    }
                    let ghost mid = self.store();
                    let r = self.execute(body);
                    proof {
                        lemma_grows_transitive(old(self).store(), mid, self.store());
                    }
                    match r {
                        Ok(()) => {
                            proof {
                                assert(executes(tested, **body, self.machine(), None));
                                assert(witness((rounds, m, tested, test)));
                                assert(repeated(
                                    s,
                                    *condition,
                                    **body,
                                    rounds + 1,
                                    self.machine(),
                                ));
                                rounds = rounds + 1;
                            }
                        },
                        Err(e) => {
                            proof {
                                assert(executes(tested, **body, self.machine(), Some(e)));
                                assert(witness((tested, test)));
                                assert(last_round(m, *condition, **body, self.machine(), Some(e)));
                                assert(witness((rounds, m)));
                            }
                            return Err(e);
                        },
                    }
                }
            },
            Stmt::Function(name, params, body) => {
                let func = LoxFunction::new(
                    name.lexeme.clone(),
                    share(params),
                    share(body),
                    self.environment,
                );
                let value = Literal::Callable(LoxCallable::Function(func));
                proof {
                    lemma_bind_keeps_store(self.store(), self.current(), name.lexeme@, value);
                }
                self.scopes.define(self.environment, name.lexeme.clone(), value);
                Ok(())
            },
            Stmt::Return(_, value) => {
                let value = match value {
                    Some(value) => match self.evaluate(value) {
                        Ok(v) => Some(v),
                        Err(e) => {
                            return Err(e);
                        },
                    },
                    None => None,
                };
                Err(InterpreterErrorKind::Return(value))
            },
        }
    }

    /// Executes statements in the scope `environment`, and makes the scope
    /// that was current before current again, however the statements end.
    pub fn execute_block(&mut self, stmts: &Vec<Stmt>, environment: usize) -> (r: Result<
        (),
        InterpreterErrorKind,
    >)
        requires
            old(self).well_formed(),
            all_ok(stmts@),
            environment < old(self).store().len(),
        ensures
            final(self).follows(old(self)),
            runs(
                enter(old(self).machine(), environment as int),
                stmts@,
                enter(final(self).machine(), environment as int),
                halt(r),
            ),
            match r {
                Err(InterpreterErrorKind::Return(Some(value))) => value_ok(
                    value,
                    final(self).store().len() as int,
                ),
                _ => true,
            },
        decreases old(self).fuel(), 1nat,
    {
        let ghost start = enter(self.machine(), environment as int);
        let previous = self.environment;
        self.environment = environment;
        let mut err: Option<InterpreterErrorKind> = None;
        let mut i: usize = 0;
        while i < stmts.len() && err.is_none()
            invariant
                i <= stmts@.len(),
                all_ok(stmts@),
                self.well_formed(),
                self.current() == environment,
                previous == old(self).current(),
                start == enter(old(self).machine(), environment as int),
                grows(old(self).store(), self.store()),
                old(self).printed().is_prefix_of(self.printed()),
                self.fuel() <= old(self).fuel(),
                match err {
                    Some(e) => runs(start, stmts@, self.machine(), Some(e)),
                    None => ran(start, stmts@, i as nat, self.machine()),
                },
                match err {
                    Some(InterpreterErrorKind::Return(Some(value))) => value_ok(
                        value,
                        self.store().len() as int,
                    ),
                    _ => true,
                },
            decreases stmts@.len() - i + (if err.is_none() { 1int } else { 0int }),
        {
            let ghost mid = self.store();
            let ghost m = self.machine();
            match self.execute(&stmts[i]) {
                Ok(()) => {
                    proof {
                        assert(executes(m, stmts@[i as int], self.machine(), None));
                        assert(witness((i as nat, m)));
                        assert(ran(start, stmts@, (i + 1) as nat, self.machine()));
                    }
                    i += 1;
                },
                Err(e) => {
                    proof {
                        assert(executes(m, stmts@[i as int], self.machine(), Some(e)));
                        assert(witness((i as nat, m)));
                        assert(runs(start, stmts@, self.machine(), Some(e)));
                    }
                    err = Some(e);
                },
            }
            proof {
                lemma_grows_transitive(old(self).store(), mid, self.store());
            }
        }
        let ghost ended = self.machine();
        self.environment = previous;
        assert(enter(self.machine(), environment as int) == ended);
        match err {
            Some(e) => Err(e),
            None => Ok(()),
        }
    }

    /// Evaluates an expression to a value: what happens is what `evaluates`
    /// says.
    pub fn evaluate(&mut self, expr: &Expr) -> (r: Result<Literal, InterpreterErrorKind>)
        requires
            old(self).well_formed(),
            expr_ok(*expr),
        ensures
            final(self).follows(old(self)),
            evaluates(old(self).machine(), *expr, final(self).machine(), r),
            match r {
                Ok(value) => value_ok(value, final(self).store().len() as int) && final(self).fuel()
                    < old(self).fuel(),
                Err(e) => e is General,
            },
        decreases old(self).fuel(), 0nat,
    {
        let ghost pre = self.machine();
        match self.step() {
            Ok(()) => {},
            Err(e) => {
                return Err(e);
            },
        }
        let ghost s = self.machine();
        assert(s == spend(pre));
        match &expr.kind {
            ExprKind::Literal(l) => Ok(l.clone()),
            ExprKind::Grouping(inner) => self.evaluate(inner),
            ExprKind::Variable(name) => {
                proof {
                    lemma_lookup_ok(self.store(), self.current(), name.lexeme@);
                }
                match self.scopes.get(self.environment, name) {
                    Ok(value) => Ok(value),
                    Err(message) => Err(InterpreterErrorKind::General(message)),
                }
            },
            ExprKind::Assign(name, source) => {
                let value = match self.evaluate(source) {
                    Ok(v) => v,
                    Err(e) => {
                        return Err(e);
                    },
                };
                let ghost mid = self.store();
                let ghost m = self.machine();
                proof {
                    lemma_resolve_holds(mid, self.current(), name.lexeme@);
                    match resolve(mid, self.current(), name.lexeme@) {
                        Some(holder) => {
                            lemma_bind_keeps_store(mid, holder, name.lexeme@, value);
                            lemma_grows_transitive(
                                old(self).store(),
                                mid,
                                bind(mid, holder, name.lexeme@, value),
                            );
                        },
                        None => {},
                    }
                }
                let copy = value.clone();
                let outcome = self.scopes.assign(self.environment, name.lexeme.as_str(), copy);
                assert(evaluates(s, **source, m, Ok(value)));
                assert(witness((m, value)));
                match outcome {
                    Ok(()) => Ok(value),
                    Err(message) => Err(InterpreterErrorKind::General(message)),
                }
            },
            ExprKind::Call(callee, arguments) => {
                let callee_v = match self.evaluate(callee) {
                    Ok(Literal::Callable(callable)) => callable,
                    Ok(other) => {
                        assert(evaluates(s, **callee, self.machine(), Ok(other)));
                        assert(witness((self.machine(), other)));
                        return general("Can only call functions and classes");
                    },
                    Err(e) => {
                        return Err(e);
                    },
                };
                let ghost m = self.machine();
                assert(evaluates(s, **callee, m, Ok(Literal::Callable(callee_v))));
                assert(witness((m, Literal::Callable(callee_v))));
                let mut arguments_v: Vec<Literal> = Vec::new();
                let mut i: usize = 0;
                assert(gathered(m, arguments@, 0, m, arguments_v@));
                while i < arguments.len()
                    invariant
                        i <= arguments@.len(),
                        arguments_v@.len() == i,
                        self.follows(old(self)),
                        self.fuel() < old(self).fuel(),
                        self.fuel() <= m.fuel,
                        m.fuel < pre.fuel,
                        pre == old(self).machine(),
                        s == spend(pre),
                        pre.fuel > 0,
                        evaluates(s, **callee, m, Ok(Literal::Callable(callee_v))),
                        expr_ok(*expr),
                        expr.kind == ExprKind::Call(*callee, *arguments),
                        value_ok(Literal::Callable(callee_v), self.store().len() as int),
                        gathered(m, arguments@, i as nat, self.machine(), arguments_v@),
                        forall|j: int|
                            0 <= j < arguments_v@.len() ==> value_ok(
                                #[trigger] arguments_v@[j],
                                self.store().len() as int,
                            ),
                    decreases arguments@.len() - i,
                {
                    let ghost mid = self.store();
                    let ghost before = self.machine();
                    let ghost earlier = arguments_v@;
                    let value = match self.evaluate(&arguments[i]) {
                        Ok(v) => v,
                        Err(e) => {
                            proof {
                                lemma_grows_transitive(old(self).store(), mid, self.store());
                                assert(evaluates(
                                    before,
                                    arguments@[i as int],
                                    self.machine(),
                                    Err(e),
                                ));
                                assert(witness((i as nat, before, earlier)));
                                assert(calls(
                                    m,
                                    callee_v,
                                    arguments@,
                                    self.machine(),
                                    Err::<Literal, InterpreterErrorKind>(e),
                                ));
                                assert(witness((m, Literal::Callable(callee_v))));
                            }
                            return Err(e);
                        },
                    };
                    proof {
                        lemma_grows_transitive(old(self).store(), mid, self.store());
                    }
                    arguments_v.push(value);
                    proof {
                        assert(evaluates(before, arguments@[i as int], self.machine(), Ok(value)));
                        assert(arguments_v@ == earlier.push(value));
                        assert(witness((i as nat, before, earlier, value)));
                        assert(gathered(
                            m,
                            arguments@,
                            (i + 1) as nat,
                            self.machine(),
                            arguments_v@,
                        ));
                    }
                    i += 1;
                }
                let ghost mid = self.store();
                let ghost ready = self.machine();
                match check_arity(callee_v.arity(), arguments.len()) {
                    Ok(()) => {},
                    Err(e) => {
                        proof {
                            assert(witness((ready, arguments_v@)));
                            assert(calls(
                                m,
                                callee_v,
                                arguments@,
                                self.machine(),
                                Err::<Literal, InterpreterErrorKind>(e),
                            ));
                            assert(witness((m, Literal::Callable(callee_v))));
                        }
                        return Err(e);
                    },
                }
                let r = callee_v.call(self, &arguments_v);
                proof {
                    lemma_grows_transitive(old(self).store(), mid, self.store());
                    assert(applies(ready, callee_v, arguments_v@, self.machine(), r));
                    assert(witness((ready, arguments_v@)));
                    assert(calls(m, callee_v, arguments@, self.machine(), r));
                    assert(witness((m, Literal::Callable(callee_v))));
                }
                r
            },
            ExprKind::Unary(op, inner) => {
                let right = match self.evaluate(inner) {
                    Ok(v) => v,
                    Err(e) => {
                        return Err(e);
                    },
                };
                let negated = match &right {
                    Literal::Number(n) => self.numbers.negate(*n),
                    _ => Number { bits: 0 },
                };
                let r = unary_result(*op, &right, negated);
                proof {
                    assert(evaluates(s, **inner, self.machine(), Ok(right)));
                    assert(is_unary_result(*op, right, negated, r));
                    assert(witness((right, negated)));
                }
                r
            },
            ExprKind::Logical(op, lhs, rhs) => {
                let left = match self.evaluate(lhs) {
                    Ok(v) => v,
                    Err(e) => {
                        return Err(e);
                    },
                };
                let ghost m = self.machine();
                assert(evaluates(s, **lhs, m, Ok(left)));
                assert(witness((m, left)));
                if decided_by_left(*op, &left) {
                    Ok(left)
                } else {
                    let ghost mid = self.store();
                    let r = self.evaluate(rhs);
                    proof {
                        lemma_grows_transitive(old(self).store(), mid, self.store());
                    }
                    r
                }
            },
            ExprKind::Binary(op, lhs, rhs) => {
                let left = match self.evaluate(lhs) {
                    Ok(v) => v,
                    Err(e) => {
                        return Err(e);
                    },
                };
                let ghost mid = self.store();
                let ghost m = self.machine();
                assert(evaluates(s, **lhs, m, Ok(left)));
                assert(witness((m, left)));
                let right = match self.evaluate(rhs) {
                    Ok(v) => v,
                    Err(e) => {
                        proof {
                            lemma_grows_transitive(old(self).store(), mid, self.store());
                            assert(second_operand(
                                m,
                                *op,
                                left,
                                **rhs,
                                self.machine(),
                                Err::<Literal, InterpreterErrorKind>(e),
                            ));
                        }
                        return Err(e);
                    },
                };
                proof {
                    lemma_grows_transitive(old(self).store(), mid, self.store());
                }
                let r = apply_binary(*op, &left, &right, &self.numbers);
                proof {
                    assert(evaluates(m, **rhs, self.machine(), Ok(right)));
                    let (n, t) = choose|n: Number, t: bool|
                        is_binary_result(*op, left, right, n, t, r);
                    assert(witness((right, n, t)));
                    assert(second_operand(m, *op, left, **rhs, self.machine(), r));
                }
                r
            },
        }
    }
}

/// Asks the host for what a binary operator needs where both operands are
/// numbers, and decides the result with `binary_result`.
pub fn apply_binary<A: Arithmetic>(op: BinOp, left: &Literal, right: &Literal, numbers: &A) -> (r:
    Result<Literal, InterpreterErrorKind>)
    requires
        !(op is Eq),
    ensures
        exists|number: Number, truth: bool| is_binary_result(op, *left, *right, number, truth, r),
        match r {
            Ok(value) => !(value is Callable),
            Err(e) => e is General,
        },
{
    let mut number = Number { bits: 0 };
    let mut truth = false;
    match (left, right) {
        (Literal::Number(a), Literal::Number(b)) => {
            match op {
                BinOp::Plus => {
                    number = numbers.sum(*a, *b);
                },
                BinOp::Minus => {
                    number = numbers.difference(*a, *b);
                },
                BinOp::Multiply => {
                    number = numbers.product(*a, *b);
                },
                BinOp::Divide => {
                    number = numbers.quotient(*a, *b);
                },
                BinOp::Gt => {
                    truth = numbers.greater(*a, *b);
                },
                BinOp::Ge => {
                    truth = numbers.greater_or_equal(*a, *b);
                },
                BinOp::Lt => {
                    truth = numbers.less(*a, *b);
                },
                BinOp::Le => {
                    truth = numbers.less_or_equal(*a, *b);
                },
                BinOp::EqEq => {
                    truth = numbers.equal(*a, *b);
                },
                BinOp::Ne => {
                    truth = !numbers.equal(*a, *b);
                },
                BinOp::Eq => {},
            }
        },
        _ => {},
    }
    let r = binary_result(op, left, right, number, truth);
    assert(is_binary_result(op, *left, *right, number, truth, r));
    r
}

/// What a call of the clock yields for the number that the host made of
/// the seconds read: that number, and never an error.
pub fn clock_value(reading: Number) -> (r: Result<Literal, InterpreterErrorKind>)
    ensures
        r == Ok::<Literal, InterpreterErrorKind>(Literal::Number(reading)),
{
    Ok(Literal::Number(reading))
}

/// Anything that can be called: it has an arity and can be applied to
/// that many values.
pub trait Callable {
    /// The callable as a value of the language.
    spec fn as_callable(&self) -> LoxCallable;

    /// Number of arguments a call must pass.
    fn arity(&self) -> (n: usize)
        ensures
            n == self.as_callable().arity_of(),
    ;

    /// Applies the callable to `args`.
    fn call<A: Arithmetic>(&self, interpreter: &mut Interpreter<A>, args: &Vec<Literal>) -> (r:
        Result<Literal, InterpreterErrorKind>)
        requires
            old(interpreter).well_formed(),
            value_ok(
                Literal::Callable(self.as_callable()),
                old(interpreter).store().len() as int,
            ),
            args@.len() == self.as_callable().arity_of(),
            forall|j: int|
                0 <= j < args@.len() ==> value_ok(
                    #[trigger] args@[j],
                    old(interpreter).store().len() as int,
                ),
        ensures
            final(interpreter).follows(old(interpreter)),
            applies(
                old(interpreter).machine(),
                self.as_callable(),
                args@,
                final(interpreter).machine(),
                r,
            ),
            match r {
                Ok(value) => value_ok(value, final(interpreter).store().len() as int),
                Err(e) => e is General,
            },
        decreases old(interpreter).fuel(), 3nat,
    ;
}

impl Callable for LoxFunction {
    open spec fn as_callable(&self) -> LoxCallable {
        LoxCallable::Function(*self)
    }

    fn arity(&self) -> (n: usize) {
        self.params.len()
    }

    /// Calls the function: a new scope inside the scope the function closed
    /// over binds each parameter to its argument, and the body runs there.
    /// The result is the value a `return` carried, or `Nil`.
    fn call<A: Arithmetic>(&self, interpreter: &mut Interpreter<A>, args: &Vec<Literal>) -> (r:
        Result<Literal, InterpreterErrorKind>)
        decreases old(interpreter).fuel(), 2nat,
    {
        proof {
            lemma_push_keeps_store(interpreter.store(), self.closure as int);
        }
        let ghost pre = interpreter.machine();
        let scope = interpreter.scopes.with_enclosing(self.closure);
        let ghost pushed = interpreter.store();
        let mut i: usize = 0;
        while i < self.params.len()
            invariant
                i <= self.params@.len(),
                args@.len() == self.params@.len(),
                interpreter.well_formed(),
                interpreter.current() == old(interpreter).current(),
                interpreter.printed() == old(interpreter).printed(),
                interpreter.fuel() == old(interpreter).fuel(),
                grows(old(interpreter).store(), interpreter.store()),
                interpreter.store().len() == old(interpreter).store().len() + 1,
                scope == old(interpreter).store().len(),
                pushed == nest(old(interpreter).store(), self.closure as int),
                interpreter.store() == bind_all(pushed, scope as int, self.params@, args@, i as nat),
                forall|j: int|
                    0 <= j < args@.len() ==> value_ok(
                        #[trigger] args@[j],
                        old(interpreter).store().len() as int,
                    ),
            decreases self.params@.len() - i,
        {
            let ghost mid = interpreter.store();
            let value = args[i].clone();
            proof {
                lemma_bind_keeps_store(mid, scope as int, self.params@[i as int].lexeme@, value);
                lemma_grows_transitive(
                    old(interpreter).store(),
                    mid,
                    bind(mid, scope as int, self.params@[i as int].lexeme@, value),
                );
            }
            interpreter.scopes.define(scope, self.params[i].lexeme.clone(), value);
            i += 1;
        }
        let ghost mid = interpreter.store();
        let ghost entered = enter(interpreter.machine(), scope as int);
        let body = interpreter.execute_block(&self.body, scope);
        proof {
            lemma_grows_transitive(old(interpreter).store(), mid, interpreter.store());
            assert(runs(entered, self.body@, enter(interpreter.machine(), scope as int), halt(body)));
        }
        let r = match body {
            Err(InterpreterErrorKind::Return(value)) => Ok(
                match value {
                    Some(value) => value,
                    None => Literal::Nil,
                },
            ),
            Err(e) => Err(e),
            Ok(()) => Ok(Literal::Nil),
        };
        assert(returned(halt(body), r));
        assert(witness(halt(body)));
        r
    }
}

impl Callable for Clock {
    open spec fn as_callable(&self) -> LoxCallable {
        LoxCallable::Other(*self)
    }

    fn arity(&self) -> (n: usize) {
        0
    }

    /// Reads the clock: the result is the number that the host's
    /// `from_seconds` gave for the count of seconds that the system clock
    /// showed. The call takes no step and changes nothing.
    fn call<A: Arithmetic>(&self, interpreter: &mut Interpreter<A>, args: &Vec<Literal>) -> (r:
        Result<Literal, InterpreterErrorKind>)
        ensures
            final(interpreter).machine() == old(interpreter).machine(),
            final(interpreter).host() == old(interpreter).host(),
            match r {
                Ok(Literal::Number(reading)) => exists|seconds: u64|
                    #[trigger] witness(seconds) && call_ensures(
                        A::from_seconds,
                        (&old(interpreter).host(), seconds),
                        reading,
                    ),
                _ => false,
            },
        decreases old(interpreter).fuel(), 2nat,
    {
        let seconds = unix_seconds();
        let reading = interpreter.numbers.from_seconds(seconds);
        assert(witness(seconds));
        clock_value(reading)
    }
}

impl Callable for LoxCallable {
    open spec fn as_callable(&self) -> LoxCallable {
        *self
    }

    fn arity(&self) -> (n: usize) {
        match self {
            LoxCallable::Function(f) => f.arity(),
            LoxCallable::Other(c) => c.arity(),
        }
    }

    /// Calls a function of the language or a native one.
    fn call<A: Arithmetic>(&self, interpreter: &mut Interpreter<A>, args: &Vec<Literal>) -> (r:
        Result<Literal, InterpreterErrorKind>)
        decreases old(interpreter).fuel(), 3nat,
    {
        match self {
            LoxCallable::Function(fun) => fun.call(interpreter, args),
            LoxCallable::Other(fun) => fun.call(interpreter, args),
        }
    }
}

} // verus!
