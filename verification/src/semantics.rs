//! What evaluation means: relations between the state before, a piece of
//! syntax, the state after and the result. The host's arithmetic may answer
//! anything, so a relation holds for every answer it could give.

use crate::ast::{Expr, ExprKind, Literal, Stmt};
use crate::callable::{LoxCallable, LoxFunction};
use crate::environment::{bind, lookup, resolve, undefined_message, ScopeView};
use crate::interpreter::{
    arity_message, exhausted_message, fails_with, is_binary_result, is_general, is_unary_result,
    not_callable_message, short_circuits, text_of, truthy, InterpreterErrorKind,
};
use crate::number::Number;
use crate::token::Token;
use vstd::prelude::*;

verus! {

/// The state of an evaluator: the scopes, the index of the current one, the
/// lines printed, and the steps left.
pub ghost struct Machine {
    pub store: Seq<ScopeView>,
    pub current: int,
    pub printed: Seq<Seq<char>>,
    pub fuel: nat,
}

/// Marks the values that show a relation to hold. It is true of every
/// value, and gives the prover a term to look for where a relation says
/// that some values exist.
pub open spec fn witness<T>(chosen: T) -> bool {
    true
}

/// The state after one step was spent.
pub open spec fn spend(pre: Machine) -> Machine {
    Machine { fuel: (pre.fuel - 1) as nat, ..pre }
}

/// The state with another scope current.
pub open spec fn enter(pre: Machine, scope: int) -> Machine {
    Machine { current: scope, ..pre }
}

/// The store with a new, empty scope inside `enclosing`.
pub open spec fn nest(store: Seq<ScopeView>, enclosing: int) -> Seq<ScopeView> {
    store.push(ScopeView { enclosing: Some(enclosing), bindings: Map::empty() })
}

/// The store after the first `n` parameters were bound, in order, to their
/// arguments in `scope`.
pub open spec fn bind_all(
    store: Seq<ScopeView>,
    scope: int,
    params: Seq<Token>,
    args: Seq<Literal>,
    n: nat,
) -> Seq<ScopeView>
    decreases n,
{
    if n == 0 || n > params.len() || n > args.len() {
        store
    } else {
        bind(
            bind_all(store, scope, params, args, (n - 1) as nat),
            scope,
            params[n - 1].lexeme@,
            args[n - 1],
        )
    }
}

/// What a call yields from how the function's body ended: the value a
/// `return` carried, `Nil` after a `return` without one or after the last
/// statement, and a runtime error unchanged.
pub open spec fn returned(
    body: Option<InterpreterErrorKind>,
    r: Result<Literal, InterpreterErrorKind>,
) -> bool {
    match body {
        None => r == Ok::<Literal, InterpreterErrorKind>(Literal::Nil),
        Some(InterpreterErrorKind::Return(Some(value))) => r == Ok::<Literal, InterpreterErrorKind>(
            value,
        ),
        Some(InterpreterErrorKind::Return(None)) => r == Ok::<Literal, InterpreterErrorKind>(
            Literal::Nil,
        ),
        Some(InterpreterErrorKind::General(m)) => r == Err::<Literal, InterpreterErrorKind>(
            InterpreterErrorKind::General(m),
        ),
    }
}

/// How a statement ended: normally, or with the error or signal that ends
/// the statements around it too.
pub open spec fn halt(r: Result<(), InterpreterErrorKind>) -> Option<InterpreterErrorKind> {
    match r {
        Ok(_) => None,
        Err(e) => Some(e),
    }
}

/// `post` is `m` with one more line printed, the text of `value`. The text
/// of a number is the host's.
pub open spec fn prints(m: Machine, value: Literal, post: Machine) -> bool {
    &&& post.store == m.store
    &&& post.current == m.current
    &&& post.fuel == m.fuel
    &&& post.printed.len() == m.printed.len() + 1
    &&& post.printed.drop_last() == m.printed
    &&& !(value is Number) ==> post.printed.last() == text_of(value)
}

/// Evaluating `e` in the state `pre` can end in the state `post` with the
/// result `r`. The left operand is evaluated before the right one, which
/// sees what the left one did; `and` and `or` do not evaluate the right one
/// where the left one decides; a call evaluates the callee, then the
/// arguments from left to right.
pub open spec fn evaluates(
    pre: Machine,
    e: Expr,
    post: Machine,
    r: Result<Literal, InterpreterErrorKind>,
) -> bool
    decreases pre.fuel, 0nat, 0nat,
{
    if pre.fuel == 0 {
        post == pre && fails_with(r, exhausted_message())
    } else {
        let s = spend(pre);
        match e.kind {
            ExprKind::Literal(l) => post == s && r == Ok::<Literal, InterpreterErrorKind>(l),
            ExprKind::Grouping(inner) => evaluates(s, *inner, post, r),
            ExprKind::Variable(name) => post == s && match lookup(s.store, s.current, name.lexeme@) {
                Some(value) => r == Ok::<Literal, InterpreterErrorKind>(value),
                None => fails_with(r, undefined_message(name.lexeme@)),
            },
            ExprKind::Assign(name, value) => (r is Err && evaluates(s, *value, post, r)) || exists|
                m: Machine,
                v: Literal,
            |
                #[trigger] witness((m, v)) && evaluates(s, *value, m, Ok(v)) && match resolve(
                    m.store,
                    m.current,
                    name.lexeme@,
                ) {
                    Some(holder) => post == (Machine {
                        store: bind(m.store, holder, name.lexeme@, v),
                        ..m
                    }) && r == Ok::<Literal, InterpreterErrorKind>(v),
                    None => post == m && fails_with(r, undefined_message(name.lexeme@)),
                },
            ExprKind::Unary(op, inner) => (r is Err && evaluates(s, *inner, post, r)) || exists|
                v: Literal,
                n: Number,
            |
                #[trigger] witness((v, n)) && evaluates(s, *inner, post, Ok(v)) && is_unary_result(
                    op,
                    v,
                    n,
                    r,
                ),
            ExprKind::Logical(op, l, rhs) => (r is Err && evaluates(s, *l, post, r)) || exists|
                m: Machine,
                v: Literal,
            |
                #[trigger] witness((m, v)) && evaluates(s, *l, m, Ok(v)) && if short_circuits(op, v) {
                    post == m && r == Ok::<Literal, InterpreterErrorKind>(v)
                } else {
                    m.fuel < pre.fuel && evaluates(m, *rhs, post, r)
                },
            ExprKind::Binary(op, l, rhs) => (r is Err && evaluates(s, *l, post, r)) || exists|
                m: Machine,
                vl: Literal,
            |
                #[trigger] witness((m, vl)) && evaluates(s, *l, m, Ok(vl)) && m.fuel < pre.fuel
                    && second_operand(
                    m,
                    op,
                    vl,
                    *rhs,
                    post,
                    r,
                ),
            ExprKind::Call(callee, args) => (r is Err && evaluates(s, *callee, post, r)) || exists|
                m: Machine,
                c: Literal,
            |
                #[trigger] witness((m, c)) && evaluates(s, *callee, m, Ok(c)) && m.fuel < pre.fuel
                    && match c {
                    Literal::Callable(f) => calls(m, f, args@, post, r),
                    _ => post == m && fails_with(r, not_callable_message()),
                },
        }
    }
}

/// The right operand of a binary operator is evaluated in the state the
/// left one left, and the operator is applied to the two values.
pub open spec fn second_operand(
    m: Machine,
    op: crate::ast::BinOp,
    left: Literal,
    rhs: Expr,
    post: Machine,
    r: Result<Literal, InterpreterErrorKind>,
) -> bool
    decreases m.fuel, 1nat, 0nat,
{
    (r is Err && evaluates(m, rhs, post, r)) || exists|right: Literal, n: Number, t: bool|
        #[trigger] witness((right, n, t)) && evaluates(m, rhs, post, Ok(right)) && is_binary_result(
            op,
            left,
            right,
            n,
            t,
            r,
        )
}

/// The arguments are evaluated from left to right; an argument that fails
/// ends the call. Then their number is held against the callee's arity, and
/// the callee is applied to their values.
pub open spec fn calls(
    m: Machine,
    callee: LoxCallable,
    args: Seq<Expr>,
    post: Machine,
    r: Result<Literal, InterpreterErrorKind>,
) -> bool
    decreases m.fuel, 4nat, 0nat,
{
    (exists|i: nat, before: Machine, values: Seq<Literal>|
        #[trigger] witness((i, before, values)) && i < args.len() && gathered(
            m,
            args,
            i,
            before,
            values,
        ) && before.fuel <= m.fuel
            && r is Err && evaluates(before, args[i as int], post, r)) || exists|
        ready: Machine,
        values: Seq<Literal>,
    |
        #[trigger] witness((ready, values)) && gathered(m, args, args.len(), ready, values)
            && ready.fuel <= m.fuel && if callee.arity_of() != args.len() {
            post == ready && fails_with(r, arity_message(callee.arity_of(), args.len()))
        } else {
            applies(ready, callee, values, post, r)
        }
}

/// The first `n` arguments were evaluated in order, each in the state the
/// one before left, and gave `values`.
pub open spec fn gathered(
    pre: Machine,
    args: Seq<Expr>,
    n: nat,
    post: Machine,
    values: Seq<Literal>,
) -> bool
    decreases pre.fuel, 2nat, n,
{
    if n == 0 || n > args.len() {
        post == pre && values == Seq::<Literal>::empty()
    } else {
        exists|k: nat, m: Machine, earlier: Seq<Literal>, v: Literal|
            #[trigger] witness((k, m, earlier, v)) && n == k + 1 && gathered(pre, args, k, m, earlier)
                && m.fuel <= pre.fuel && evaluates(m, args[k as int], post, Ok(v)) && values
                == earlier.push(v)
    }
}

/// Applying a callable to values: a function of the language runs its body
/// in a new scope inside the scope it closed over, with each parameter
/// bound to its argument, and the scope that was current is current again
/// afterwards; the native clock yields some number.
pub open spec fn applies(
    pre: Machine,
    callee: LoxCallable,
    args: Seq<Literal>,
    post: Machine,
    r: Result<Literal, InterpreterErrorKind>,
) -> bool
    decreases pre.fuel, 3nat, 0nat,
{
    match callee {
        LoxCallable::Other(_) => post == pre && r is Ok && r->Ok_0 is Number,
        LoxCallable::Function(f) => {
            let scope = pre.store.len() as int;
            let entered = Machine {
                store: bind_all(
                    nest(pre.store, f.closure as int),
                    scope,
                    f.params@,
                    args,
                    f.params@.len(),
                ),
                current: scope,
                ..pre
            };
            post.current == pre.current && exists|body: Option<InterpreterErrorKind>|
                #[trigger] witness(body) && runs(entered, f.body@, enter(post, scope), body)
                    && returned(body, r)
        },
    }
}

/// Executing `s` in the state `pre` can end in the state `post` with the
/// result `r`.
pub open spec fn executes(
    pre: Machine,
    stmt: Stmt,
    post: Machine,
    r: Option<InterpreterErrorKind>,
) -> bool
    decreases pre.fuel, 0nat, 0nat,
{
    if pre.fuel == 0 {
        post == pre && r is Some && is_general(r->0, exhausted_message())
    } else {
        let s = spend(pre);
        match stmt {
            Stmt::Expression(e) => match r {
                None => exists|v: Literal| #[trigger] witness(v) && evaluates(s, e, post, Ok(v)),
                Some(err) => evaluates(s, e, post, Err(err)),
            },
            Stmt::Print(e) => match r {
                None => exists|m: Machine, v: Literal|
                    #[trigger] witness((m, v)) && evaluates(s, e, m, Ok(v)) && prints(m, v, post),
                Some(err) => evaluates(s, e, post, Err(err)),
            },
            Stmt::Var(name, None) => r is None && post == (Machine {
                store: bind(s.store, s.current, name.lexeme@, Literal::Nil),
                ..s
            }),
            Stmt::Var(name, Some(init)) => match r {
                None => exists|m: Machine, v: Literal|
                    #[trigger] witness((m, v)) && evaluates(s, init, m, Ok(v)) && post == (Machine {
                        store: bind(m.store, m.current, name.lexeme@, v),
                        ..m
                    }),
                Some(err) => evaluates(s, init, post, Err(err)),
            },
            Stmt::Block(stmts) => post.current == pre.current && runs(
                Machine { store: nest(s.store, s.current), current: s.store.len() as int, ..s },
                stmts@,
                enter(post, s.store.len() as int),
                r,
            ),
            Stmt::If(condition, then_branch, else_branch) => (match r {
                Some(err) => evaluates(s, condition, post, Err(err)),
                None => false,
            }) || exists|m: Machine, v: Literal|
                #[trigger] witness((m, v)) && evaluates(s, condition, m, Ok(v)) && m.fuel < pre.fuel
                    && if truthy(v) {
                    executes(m, *then_branch, post, r)
                } else {
                    match *else_branch {
                        Some(other) => executes(m, other, post, r),
                        None => post == m && r is None,
                    }
                },
            Stmt::While(condition, body) => exists|n: nat, m: Machine|
                #[trigger] witness((n, m)) && repeated(s, condition, *body, n, m) && m.fuel <= s.fuel
                    && last_round(
                    m,
                    condition,
                    *body,
                    post,
                    r,
                ),
            Stmt::Function(name, params, body) => r is None && post == (Machine {
                store: bind(
                    s.store,
                    s.current,
                    name.lexeme@,
                    Literal::Callable(
                        LoxCallable::Function(
                            LoxFunction { name: name.lexeme, params, body, closure: s.current as usize },
                        ),
                    ),
                ),
                ..s
            }),
            Stmt::Return(_, None) => post == s && r == Some(InterpreterErrorKind::Return(None)),
            Stmt::Return(_, Some(value)) => match r {
                None => false,
                Some(InterpreterErrorKind::Return(Some(v))) => evaluates(s, value, post, Ok(v)),
                Some(InterpreterErrorKind::Return(None)) => false,
                Some(InterpreterErrorKind::General(m)) => evaluates(
                    s,
                    value,
                    post,
                    Err(InterpreterErrorKind::General(m)),
                ),
            },
        }
    }
}

/// The loop went round `n` times: each time the condition was true and the
/// body ended normally.
pub open spec fn repeated(pre: Machine, condition: Expr, body: Stmt, n: nat, post: Machine) -> bool
    decreases pre.fuel, 1nat, n,
{
    if n == 0 {
        post == pre
    } else {
        exists|k: nat, m: Machine, tested: Machine, v: Literal|
            #[trigger] witness((k, m, tested, v)) && n == k + 1 && repeated(pre, condition, body, k, m)
                && m.fuel <= pre.fuel && evaluates(m, condition, tested, Ok(v)) && truthy(v)
                && tested.fuel <= pre.fuel && executes(tested, body, post, None)
    }
}

/// The round that ends a loop: the condition is false or fails, or the
/// body does not end normally.
pub open spec fn last_round(
    m: Machine,
    condition: Expr,
    body: Stmt,
    post: Machine,
    r: Option<InterpreterErrorKind>,
) -> bool
    decreases m.fuel, 1nat, 0nat,
{
    match r {
        None => exists|v: Literal|
            #[trigger] witness(v) && evaluates(m, condition, post, Ok(v)) && !truthy(v),
        Some(err) => evaluates(m, condition, post, Err(err)) || exists|tested: Machine, v: Literal|
            #[trigger] witness((tested, v)) && evaluates(m, condition, tested, Ok(v)) && truthy(v)
                && tested.fuel <= m.fuel && executes(tested, body, post, Some(err)),
    }
}

/// The first `n` statements were executed in order and each ended
/// normally.
pub open spec fn ran(pre: Machine, stmts: Seq<Stmt>, n: nat, post: Machine) -> bool
    decreases pre.fuel, 1nat, n,
{
    if n == 0 || n > stmts.len() {
        post == pre
    } else {
        exists|k: nat, m: Machine|
            #[trigger] witness((k, m)) && n == k + 1 && ran(pre, stmts, k, m) && m.fuel <= pre.fuel
                && executes(
                m,
                stmts[k as int],
                post,
                None,
            )
    }
}

/// Executing the statements in order: all of them end normally, or the
/// first that does not ends the list with its result.
pub open spec fn runs(
    pre: Machine,
    stmts: Seq<Stmt>,
    post: Machine,
    r: Option<InterpreterErrorKind>,
) -> bool
    decreases pre.fuel, 2nat, 0nat,
{
    match r {
        None => ran(pre, stmts, stmts.len(), post),
        Some(err) => exists|i: nat, m: Machine|
            #[trigger] witness((i, m)) && i < stmts.len() && ran(pre, stmts, i, m) && m.fuel
                <= pre.fuel && executes(
                m,
                stmts[i as int],
                post,
                Some(err),
            ),
    }
}

/// The left operand of a binary operator is evaluated first, from the
/// state the expression starts in; the right operand is evaluated
/// afterwards, from the state the left one left behind, and only if the
/// left one gave a value.
pub proof fn law_binary_left_then_right(
    pre: Machine,
    e: Expr,
    post: Machine,
    r: Result<Literal, InterpreterErrorKind>,
)
    requires
        pre.fuel > 0,
        e.kind is Binary,
        evaluates(pre, e, post, r),
    ensures
        (r is Err && evaluates(spend(pre), *e.kind->Binary_1, post, r)) || exists|
            m: Machine,
            left: Literal,
            right: Result<Literal, InterpreterErrorKind>,
        |
            #[trigger] witness((m, left, right)) && evaluates(
                spend(pre),
                *e.kind->Binary_1,
                m,
                Ok(left),
            ) && evaluates(m, *e.kind->Binary_2, post, right),
{
    let l = *e.kind->Binary_1;
    let rhs = *e.kind->Binary_2;
    let op = e.kind->Binary_0;
    if !(r is Err && evaluates(spend(pre), l, post, r)) {
        let (m, left) = choose|m: Machine, left: Literal|
            #[trigger] witness((m, left)) && evaluates(spend(pre), l, m, Ok(left)) && m.fuel
                < pre.fuel && second_operand(m, op, left, rhs, post, r);
        if r is Err && evaluates(m, rhs, post, r) {
            assert(witness((m, left, r)));
        } else {
            let (right, n, t) = choose|right: Literal, n: Number, t: bool|
                #[trigger] witness((right, n, t)) && evaluates(m, rhs, post, Ok(right))
                    && is_binary_result(op, left, right, n, t, r);
            assert(witness((m, left, Ok::<Literal, InterpreterErrorKind>(right))));
        }
    }
}

/// The left operand of `and` and `or` is evaluated first. Where it decides
/// the result, the right operand is not evaluated: the result is the left
/// value itself and the state is the one the left operand left behind.
/// Otherwise the right operand is evaluated from that state and gives the
/// result.
pub proof fn law_logical_short_circuit(
    pre: Machine,
    e: Expr,
    post: Machine,
    r: Result<Literal, InterpreterErrorKind>,
)
    requires
        pre.fuel > 0,
        e.kind is Logical,
        evaluates(pre, e, post, r),
    ensures
        (r is Err && evaluates(spend(pre), *e.kind->Logical_1, post, r)) || exists|
            m: Machine,
            left: Literal,
        |
            #[trigger] witness((m, left)) && evaluates(spend(pre), *e.kind->Logical_1, m, Ok(left))
                && if short_circuits(e.kind->Logical_0, left) {
                post == m && r == Ok::<Literal, InterpreterErrorKind>(left)
            } else {
                evaluates(m, *e.kind->Logical_2, post, r)
            },
{
    let l = *e.kind->Logical_1;
    let rhs = *e.kind->Logical_2;
    let op = e.kind->Logical_0;
    if !(r is Err && evaluates(spend(pre), l, post, r)) {
        let (m, left) = choose|m: Machine, left: Literal|
            #[trigger] witness((m, left)) && evaluates(spend(pre), l, m, Ok(left))
                && if short_circuits(op, left) {
                post == m && r == Ok::<Literal, InterpreterErrorKind>(left)
            } else {
                m.fuel < pre.fuel && evaluates(m, rhs, post, r)
            };
        assert(witness((m, left)));
    }
}

/// Arguments are evaluated from left to right: argument `k` is evaluated
/// in the state that the arguments before it left behind, and its value
/// comes after theirs.
pub proof fn law_arguments_left_to_right(
    pre: Machine,
    args: Seq<Expr>,
    k: nat,
    post: Machine,
    values: Seq<Literal>,
)
    requires
        k < args.len(),
        gathered(pre, args, k + 1, post, values),
    ensures
        exists|m: Machine, earlier: Seq<Literal>, v: Literal|
            #[trigger] witness((m, earlier, v)) && gathered(pre, args, k, m, earlier) && evaluates(
                m,
                args[k as int],
                post,
                Ok(v),
            ) && values == earlier.push(v),
{
    let (j, m, earlier, v) = choose|j: nat, m: Machine, earlier: Seq<Literal>, v: Literal|
        #[trigger] witness((j, m, earlier, v)) && k + 1 == j + 1 && gathered(pre, args, j, m, earlier)
            && m.fuel <= pre.fuel && evaluates(m, args[j as int], post, Ok(v)) && values
            == earlier.push(v);
    assert(witness((m, earlier, v)));
}

/// A block leaves the scope that was current before it current again,
/// however it ends: normally, with a runtime error, or with a `return`.
pub proof fn law_block_restores_scope(
    pre: Machine,
    stmt: Stmt,
    post: Machine,
    r: Option<InterpreterErrorKind>,
)
    requires
        stmt is Block,
        executes(pre, stmt, post, r),
    ensures
        post.current == pre.current,
{
}

/// A call leaves the scope that was current before it current again,
/// however the function's body ends.
pub proof fn law_call_restores_scope(
    pre: Machine,
    callee: LoxCallable,
    args: Seq<Literal>,
    post: Machine,
    r: Result<Literal, InterpreterErrorKind>,
)
    requires
        applies(pre, callee, args, post, r),
    ensures
        post.current == pre.current,
{
}

/// A variable declared without an initializer is bound to `Nil` in the
/// current scope.
pub proof fn law_var_without_initializer(
    pre: Machine,
    name: Token,
    post: Machine,
    r: Option<InterpreterErrorKind>,
)
    requires
        pre.fuel > 0,
        0 <= pre.current < pre.store.len(),
        executes(pre, Stmt::Var(name, None), post, r),
    ensures
        r is None,
        post.store == bind(pre.store, pre.current, name.lexeme@, Literal::Nil),
        lookup(post.store, post.current, name.lexeme@) == Some(Literal::Nil),
{
}

/// A function declaration binds the function's name, in the current
/// scope, to a function value that closes over that scope: the scope
/// current at the declaration.
pub proof fn law_function_closes_over_declaration_scope(
    pre: Machine,
    stmt: Stmt,
    post: Machine,
    r: Option<InterpreterErrorKind>,
)
    requires
        pre.fuel > 0,
        0 <= pre.current < pre.store.len(),
        pre.current <= usize::MAX,
        stmt is Function,
        executes(pre, stmt, post, r),
    ensures
        r is None,
        match lookup(post.store, post.current, stmt->Function_0.lexeme@) {
            Some(Literal::Callable(LoxCallable::Function(f))) => f.closure == pre.current
                && f.params == stmt->Function_1 && f.body == stmt->Function_2,
            _ => false,
        },
{
}

/// Binding parameters changes no scope's encloser.
pub proof fn lemma_bind_all_keeps_enclosers(
    store: Seq<ScopeView>,
    scope: int,
    params: Seq<Token>,
    args: Seq<Literal>,
    n: nat,
)
    requires
        0 <= scope < store.len(),
    ensures
        bind_all(store, scope, params, args, n).len() == store.len(),
        forall|i: int|
            0 <= i < store.len() ==> (#[trigger] bind_all(store, scope, params, args, n)[i]).enclosing
                == store[i].enclosing,
    decreases n,
{
    if !(n == 0 || n > params.len() || n > args.len()) {
        lemma_bind_all_keeps_enclosers(store, scope, params, args, (n - 1) as nat);
    }
}

/// The body of a function runs in a new scope whose encloser is the scope
/// the function closed over, whatever scope is current where it is called.
pub proof fn law_call_runs_inside_closure(
    pre: Machine,
    f: LoxFunction,
    args: Seq<Literal>,
    post: Machine,
    r: Result<Literal, InterpreterErrorKind>,
)
    requires
        applies(pre, LoxCallable::Function(f), args, post, r),
    ensures
        exists|entered: Machine, body: Option<InterpreterErrorKind>|
            #[trigger] witness((entered, body)) && entered.current == pre.store.len()
                && entered.store.len() == pre.store.len() + 1
                && entered.store[entered.current].enclosing == Some(f.closure as int) && runs(
                entered,
                f.body@,
                enter(post, entered.current),
                body,
            ) && returned(body, r),
{
    let scope = pre.store.len() as int;
    let entered = Machine {
        store: bind_all(nest(pre.store, f.closure as int), scope, f.params@, args, f.params@.len()),
        current: scope,
        ..pre
    };
    let body = choose|body: Option<InterpreterErrorKind>|
        #[trigger] witness(body) && runs(entered, f.body@, enter(post, scope), body) && returned(
            body,
            r,
        );
    lemma_bind_all_keeps_enclosers(
        nest(pre.store, f.closure as int),
        scope,
        f.params@,
        args,
        f.params@.len(),
    );
    assert(witness((entered, body)));
}

/// Assigning a variable its own value changes nothing that can be
/// observed: every name in every scope is bound to what it was bound to
/// before.
pub proof fn law_self_assignment_changes_no_binding(
    store: Seq<ScopeView>,
    scope: int,
    name: Seq<char>,
)
    requires
        0 <= scope < store.len(),
        resolve(store, scope, name) is Some,
    ensures
        ({
            let holder = resolve(store, scope, name)->0;
            let value = lookup(store, scope, name)->0;
            bind(store, holder, name, value) == store
        }),
{
    crate::environment::lemma_resolve_holds(store, scope, name);
    let holder = resolve(store, scope, name)->0;
    let value = store[holder].bindings[name];
    assert(store[holder].bindings.insert(name, value) =~= store[holder].bindings);
    assert(bind(store, holder, name, value) =~= store);
}

} // verus!
