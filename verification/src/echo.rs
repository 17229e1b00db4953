//! The three stages where each hands its input on as it is: a line comes
//! back unchanged.

use vstd::prelude::*;

verus! {

/// Reads a line, which is the line itself.
pub fn read(input: &str) -> (output: &str)
    ensures
        output@ == input@,
{
    input
}

/// Evaluates a line, which is the line itself.
pub fn eval(input: &str) -> (output: &str)
    ensures
        output@ == input@,
{
    input
}

/// Prints a line, which is the line itself.
pub fn print(input: &str) -> (output: &str)
    ensures
        output@ == input@,
{
    input
}

/// Reads, evaluates and prints a line: gives the line back.
pub fn rep(input: &str) -> (output: &str)
    ensures
        output@ == input@,
{
    print(eval(read(input)))
}

} // verus!
