//! Read, evaluate, print: the three stages that one line of input goes
//! through, and their composition.

use vstd::prelude::*;
use crate::printer::{pr_str, render};
use crate::reader::{read_str, term_of};
use crate::types::{MalError, MalType};

verus! {

/// Reads the first form of `input`.
pub fn read(input: &str) -> (result: Result<MalType, MalError>)
    ensures
        match term_of(input@) {
            Some(term) => result matches Ok(value) && value@ == term,
            None => result == Err::<MalType, MalError>(MalError::Eof),
        },
{
    read_str(input)
}

/// Evaluates a term, which at this stage is the term itself.
pub fn eval(input: &MalType) -> (output: MalType)
    ensures
        output@ == input@,
{
    input.clone()
}

/// Renders a term to text.
pub fn print(input: &MalType) -> (text: String)
    ensures
        text@ == render(input@),
{
    pr_str(input)
}

/// Reads the first form of `input`, evaluates it and renders what comes out.
///
/// Fails with `Eof` where `input` holds no complete form.
pub fn rep(input: &str) -> (output: Result<String, MalError>)
    ensures
        match term_of(input@) {
            Some(term) => output matches Ok(text) && text@ == render(term),
            None => output == Err::<String, MalError>(MalError::Eof),
        },
{
    match read(input) {
        Ok(value) => Ok(print(&eval(&value))),
        Err(e) => Err(e),
    }
}

} // verus!
