//! Numbers of the language, and the arithmetic the library asks of its host.

use vstd::prelude::*;

verus! {

/// A number of the language: an IEEE-754 double, held as its 64 bits. The
/// library moves numbers around and never looks inside; every operation on
/// them is one of [`Arithmetic`].
#[derive(Clone, Copy, Debug)]
pub struct Number {
    pub bits: u64,
}

/// Double-precision arithmetic, supplied by whoever runs the interpreter.
///
/// No method promises anything about its result, so everything the library
/// proves holds for every implementation.
pub trait Arithmetic {
    /// The number a literal of decimal digits, with an optional fraction,
    /// denotes.
    fn parse(&self, digits: &str) -> Number;

    /// The number nearest to a count of seconds.
    fn from_seconds(&self, seconds: u64) -> Number;

    /// The shortest decimal text that reads back as the same number.
    fn format(&self, n: Number) -> String;

    fn negate(&self, n: Number) -> Number;

    fn sum(&self, a: Number, b: Number) -> Number;

    fn difference(&self, a: Number, b: Number) -> Number;

    fn product(&self, a: Number, b: Number) -> Number;

    fn quotient(&self, a: Number, b: Number) -> Number;

    fn less(&self, a: Number, b: Number) -> bool;

    fn less_or_equal(&self, a: Number, b: Number) -> bool;

    fn greater(&self, a: Number, b: Number) -> bool;

    fn greater_or_equal(&self, a: Number, b: Number) -> bool;

    fn equal(&self, a: Number, b: Number) -> bool;
}

} // verus!
