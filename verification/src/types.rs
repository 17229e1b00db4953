//! The terms that the reader produces, and their mathematical model.

use vstd::prelude::*;

verus! {

/// A term as a mathematical value: what a `MalType` stands for in contracts.
pub ghost enum Term {
    /// An exact signed integer.
    Integer(int),
    /// An identifier, by its text.
    Symbol(Seq<char>),
    /// An ordered, finite sequence of terms.
    List(Seq<Term>),
}

/// A parsed term.
#[derive(Debug, PartialEq)]
pub enum MalType {
    /// An exact signed integer.
    Integer(isize),
    /// An identifier, by its text.
    Symbol(String),
    /// An ordered, finite sequence of terms.
    List(Vec<MalType>),
}

/// Why reading failed.
#[derive(Clone, Copy, Debug, PartialEq, Eq)]
pub enum MalError {
    /// The input ended before a form was complete.
    Eof,
}

impl MalError {
    /// The words that tell a user of this error.
    pub fn message(&self) -> (text: &'static str)
        ensures
            text@ == "EOF"@,
    {
        match self {
            MalError::Eof => "EOF",
        }
    }
}

impl View for MalType {
    type V = Term;

    open spec fn view(&self) -> Term
        decreases self,
    {
        match self {
            MalType::Integer(n) => Term::Integer(*n as int),
            MalType::Symbol(s) => Term::Symbol(s@),
            MalType::List(items) => Term::List(terms(items@)),
        }
    }
}

/// The terms that a sequence of values stands for, one for one.
pub open spec fn terms(values: Seq<MalType>) -> Seq<Term>
    decreases values,
{
    Seq::new(
        values.len(),
        |i: int|
            if 0 <= i < values.len() {
                values[i]@
            } else {
                Term::Integer(0)
            },
    )
}

impl Clone for MalType {
    /// A copy that stands for the same term.
    fn clone(&self) -> (out: Self)
        ensures
            out@ == self@,
        decreases self,
    {
        match self {
            MalType::Integer(n) => MalType::Integer(*n),
            MalType::Symbol(s) => MalType::Symbol(s.clone()),
            MalType::List(items) => {
                let mut copies: Vec<MalType> = Vec::new();
                let mut i: usize = 0;
                while i < items.len()
                    invariant
                        self is List,
                        self->List_0 == *items,
                        i <= items.len(),
                        copies.len() == i,
                        forall|j: int| 0 <= j < i ==> copies[j]@ == items[j]@,
                    decreases items.len() - i,
                {
                    let copy = items[i].clone();
                    copies.push(copy);
                    i += 1;
                }
                assert(terms(copies@) =~= terms(items@));
                MalType::List(copies)
            },
        }
    }
}

} // verus!
