//! The printer: from a term back to text.

use vstd::prelude::*;
use vstd::string::StringExecFns;
use crate::integer::{decimal, integer_text};
use crate::text::push_char;
use crate::types::{terms, MalType, Term};

verus! {

/// The text of a term: an integer in decimal, a symbol as it is, a list as
/// its items between `(` and `)`.
pub open spec fn render(term: Term) -> Seq<char>
    decreases term,
{
    match term {
        Term::Integer(n) => decimal(n),
        Term::Symbol(s) => s,
        Term::List(items) => seq!['('] + render_items(items) + seq![')'],
    }
}

/// The texts of `items` with one space between each two neighbours.
pub open spec fn render_items(items: Seq<Term>) -> Seq<char>
    decreases items,
{
    if items.len() == 0 {
        Seq::empty()
    } else if items.len() == 1 {
        render(items[0])
    } else {
        render_items(items.drop_last()) + seq![' '] + render(items.last())
    }
}

/// Renders a term to text, without escaping anything.
pub fn pr_str(input: &MalType) -> (text: String)
    ensures
        text@ == render(input@),
    decreases input,
{
    match input {
        MalType::Integer(n) => integer_text(*n),
        MalType::Symbol(s) => s.clone(),
        MalType::List(values) => {
            let mut text = String::new();
            push_char(&mut text, '(');
            let mut i: usize = 0;
            while i < values.len()
                invariant
                    input is List,
                    input->List_0 == *values,
                    i <= values.len(),
                    text@ == seq!['('] + render_items(terms(values@).take(i as int)),
                decreases values.len() - i,
            {
                if i > 0 {
                    push_char(&mut text, ' ');
                }
                let part = pr_str(&values[i]);
                text.append(part.as_str());
                proof {
                    let done = terms(values@).take(i + 1);
                    assert(done.drop_last() =~= terms(values@).take(i as int));
                    assert(text@ =~= seq!['('] + render_items(done));
                }
                i += 1;
            }
            push_char(&mut text, ')');
            assert(terms(values@).take(i as int) =~= terms(values@));
            text
        },
    }
}

} // verus!
