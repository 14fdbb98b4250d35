use vstd::prelude::*;

use crate::atom::Builtin;

verus! {

/// What the interpreter needs from the machine it runs on: arithmetic on
/// IEEE-754 doubles, which travel through the library as their bit patterns,
/// and a place to write output.
pub trait Host {
    /// The double nearest to a decimal literal that the reader accepted.
    fn read_number(&self, text: &str) -> u64;

    /// A count as a double.
    fn count_to_number(&self, n: usize) -> u64;

    /// `+`, `-`, `*`, `/` or `%` on two doubles (`op` is one of these).
    fn arithmetic(&self, op: Builtin, a: u64, b: u64) -> u64;

    /// `<`, `<=`, `>` or `>=` on two doubles (`op` is one of these).
    fn compare(&self, op: Builtin, a: u64, b: u64) -> bool;

    /// The shortest decimal text that reads back as the double.
    fn show_number(&self, n: u64) -> String;

    /// Writes text to the program's output.
    fn emit(&mut self, text: &str);
}

} // verus!
