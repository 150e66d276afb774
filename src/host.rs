use vstd::prelude::*;

use crate::values::NumberValue;

verus! {

/// What the embedder supplies to the evaluator: the number domain (IEEE-754
/// binary64 arithmetic, which the language inherits from its host) and the
/// primitive effects behind the builtin functions.
///
/// Nothing is assumed of the results: every contract of the evaluator holds
/// whatever an implementation returns.
pub trait Host {
    /// The number written by a literal or given to `int`, if the text is one.
    fn parse_number(&self, text: &str) -> Option<NumberValue>;

    /// `lhs op rhs` for one of `+ - * / %`.
    fn arithmetic(&self, operator: char, lhs: NumberValue, rhs: NumberValue) -> NumberValue;

    fn number_equals(&self, lhs: NumberValue, rhs: NumberValue) -> bool;

    fn number_less(&self, lhs: NumberValue, rhs: NumberValue) -> bool;

    /// Whether the number counts as false (it is zero).
    fn number_is_zero(&self, n: NumberValue) -> bool;

    /// The canonical text of a number (`5` for five, `2.5`).
    fn number_text(&self, n: NumberValue) -> String;

    /// How often `"s" * n` repeats `s`: `n` rounded down, and 0 for a
    /// negative or undefined number.
    fn repeat_count(&self, n: NumberValue) -> usize;

    /// A list index: `n` truncated toward zero.
    fn index_of(&self, n: NumberValue) -> i64;

    /// Writes text to the standard output.
    fn write(&mut self, text: &str);

    /// Reads one line of standard input, with its line break.
    fn read_line(&mut self) -> String;

    /// Seconds since the Unix epoch.
    fn now(&mut self) -> NumberValue;

    /// Blocks for the given number of seconds.
    fn sleep(&mut self, seconds: NumberValue);

    /// Ends the process with the given status code.
    fn exit(&mut self, code: NumberValue);

    /// Reports a non-fatal error; evaluation goes on.
    fn report(&mut self, message: &str);
}

} // verus!
