//! Callable values: functions of the language and the native clock.

use crate::ast::Stmt;
use crate::token::Token;
use std::rc::Rc;
use vstd::prelude::*;

verus! {

/// `Rc::clone` makes a second pointer to the same allocation, so the copy
/// is the value it was made from.
#[verifier::external_body]
pub(crate) fn share<T>(rc: &Rc<T>) -> (r: Rc<T>)
    ensures
        r == *rc,
{
    Rc::clone(rc)
}

/// `SystemTime::elapsed` of `UNIX_EPOCH`: the time since the epoch by the
/// system clock, in whole seconds; zero where the clock is set before the
/// epoch. The result depends on when the call is made, so nothing is
/// promised of it.
#[verifier::external_body]
pub(crate) fn unix_seconds() -> u64 {
    match std::time::UNIX_EPOCH.elapsed() {
        Ok(elapsed) => elapsed.as_secs(),
        Err(_) => 0,
    }
}

/// A function of the language: its declaration and the scope that was
/// current when the declaration was executed.
#[derive(Debug)]
pub struct LoxFunction {
    pub name: String,
    pub params: Rc<Vec<Token>>,
    pub body: Rc<Vec<Stmt>>,
    pub closure: usize,
}

impl LoxFunction {
    pub fn new(name: String, params: Rc<Vec<Token>>, body: Rc<Vec<Stmt>>, closure: usize) -> (f:
        LoxFunction)
        ensures
            f == (LoxFunction { name, params, body, closure }),
    {
        LoxFunction { name, params, body, closure }
    }
}

impl Clone for LoxFunction {
    fn clone(&self) -> (r: Self)
        ensures
            r == *self,
    {
        LoxFunction {
            name: self.name.clone(),
            params: share(&self.params),
            body: share(&self.body),
            closure: self.closure,
        }
    }
}

/// The native function `clock`: seconds since the Unix epoch.
#[derive(Clone, Copy, Debug)]
pub struct Clock;

/// Anything that can be called: a function of the language or a native.
#[derive(Debug)]
pub enum LoxCallable {
    Function(LoxFunction),
    Other(Clock),
}

impl Clone for LoxCallable {
    fn clone(&self) -> (r: Self)
        ensures
            r == *self,
    {
        match self {
            LoxCallable::Function(f) => LoxCallable::Function(f.clone()),
            LoxCallable::Other(_) => LoxCallable::Other(Clock),
        }
    }
}

impl LoxCallable {
    /// Number of arguments a call must pass.
    pub open spec fn arity_of(self) -> nat {
        match self {
            LoxCallable::Function(f) => f.params@.len(),
            LoxCallable::Other(_) => 0,
        }
    }
}

} // verus!
