//! The reader: from tokens to one term.

use vstd::prelude::*;
use crate::integer::{integer_value, parse_integer};
use crate::text::{chars_of, is_single};
use crate::tokenizer::{texts, tokenize, tokens_of, Token};
use crate::types::{terms, MalError, MalType, Term};

verus! {

/// The token that opens a list.
pub open spec fn open_marker() -> Seq<char> {
    seq!['(']
}

/// The token that closes a list.
pub open spec fn close_marker() -> Seq<char> {
    seq![')']
}

/// The term that one token stands for by itself: an integer where the whole
/// token is an integer literal that an `isize` can hold, and else the symbol
/// with the token's text.
pub open spec fn atom(token: Seq<char>) -> Term {
    match integer_value(token) {
        Some(v) => Term::Integer(v),
        None => Term::Symbol(token),
    }
}

/// The form at the front of `tokens` and the tokens that follow it, or `None`
/// where `tokens` ends before the form is complete.
pub open spec fn parse_form(tokens: Seq<Seq<char>>) -> Option<(Term, Seq<Seq<char>>)>
    decreases tokens.len(), 0int,
{
    if tokens.len() == 0 {
        None
    } else if tokens[0] == open_marker() {
        match parse_items(tokens.drop_first()) {
            Some((items, rest)) => Some((Term::List(items), rest)),
            None => None,
        }
    } else {
        Some((atom(tokens[0]), tokens.drop_first()))
    }
}

/// The forms at the front of `tokens` up to the first that is the symbol
/// `)`, which is left out, and the tokens that follow that one; `None` where
/// `tokens` ends before it.
///
/// A form takes at least one token (`lemma_parse_form_consumes`), so the
/// branch that compares the lengths is never the one that gives `None`.
pub open spec fn parse_items(tokens: Seq<Seq<char>>) -> Option<(Seq<Term>, Seq<Seq<char>>)>
    decreases tokens.len(), 1int,
{
    match parse_form(tokens) {
        None => None,
        Some((first, rest)) => if first == Term::Symbol(close_marker()) {
            Some((Seq::empty(), rest))
        } else if rest.len() >= tokens.len() {
            None
        } else {
            match parse_items(rest) {
                Some((others, after)) => Some((seq![first] + others, after)),
                None => None,
            }
        },
    }
}

/// The term that the first form of `text` stands for, or `None` where `text`
/// holds no complete form.
pub open spec fn term_of(text: Seq<char>) -> Option<Term> {
    match parse_form(tokens_of(text)) {
        Some((term, _)) => Some(term),
        None => None,
    }
}

/// A form takes at least one token, and what follows it is what the tokens
/// hold from some place on.
pub proof fn lemma_parse_form_consumes(tokens: Seq<Seq<char>>)
    ensures
        parse_form(tokens) matches Some((_, rest)) ==> rest.len() < tokens.len() && rest
            == tokens.skip(tokens.len() - rest.len()),
    decreases tokens.len(), 0int,
{
    if tokens.len() > 0 && tokens[0] == open_marker() {
        lemma_parse_items_consumes(tokens.drop_first());
    }
}

/// The items of a list and its closing token take at least one token, and
/// what follows them is what the tokens hold from some place on.
pub proof fn lemma_parse_items_consumes(tokens: Seq<Seq<char>>)
    ensures
        parse_items(tokens) matches Some((_, rest)) ==> rest.len() < tokens.len() && rest
            == tokens.skip(tokens.len() - rest.len()),
    decreases tokens.len(), 1int,
{
    lemma_parse_form_consumes(tokens);
    match parse_form(tokens) {
        Some((first, behind)) => {
            if first != Term::Symbol(close_marker()) {
                lemma_parse_items_consumes(behind);
            }
        },
        None => {},
    }
}

/// What is read depends on the tokens that it takes and on no other: with
/// the tokens behind some later place left out, the same form is read.
pub proof fn lemma_parse_form_of_front(tokens: Seq<Seq<char>>, k: int)
    requires
        parse_form(tokens) matches Some((_, rest)) && tokens.len() - rest.len() <= k
            <= tokens.len(),
    ensures
        parse_form(tokens) matches Some((term, rest)) && parse_form(tokens.take(k)) == Some(
            (term, rest.take(k - (tokens.len() - rest.len()))),
        ),
    decreases tokens.len(), 0int,
{
    lemma_parse_form_consumes(tokens);
    if tokens[0] == open_marker() {
        lemma_parse_items_of_front(tokens.drop_first(), k - 1);
    }
    assert(tokens.take(k).drop_first() =~= tokens.drop_first().take(k - 1));
}

/// The items of a list depend on the tokens that they and the closing
/// token take and on no other.
pub proof fn lemma_parse_items_of_front(tokens: Seq<Seq<char>>, k: int)
    requires
        parse_items(tokens) matches Some((_, rest)) && tokens.len() - rest.len() <= k
            <= tokens.len(),
    ensures
        parse_items(tokens) matches Some((items, rest)) && parse_items(tokens.take(k)) == Some(
            (items, rest.take(k - (tokens.len() - rest.len()))),
        ),
    decreases tokens.len(), 1int,
{
    let (first, behind) = parse_form(tokens)->0;
    let taken = tokens.len() - behind.len();
    lemma_parse_form_consumes(tokens);
    if first == Term::Symbol(close_marker()) {
        lemma_parse_form_of_front(tokens, k);
    } else {
        lemma_parse_items_consumes(behind);
        lemma_parse_form_of_front(tokens, k);
        lemma_parse_items_of_front(behind, k - taken);
    }
}

/// A form that is cut short is no form: where the tokens end before the
/// last token of a form, nothing is read, and no part of a list either.
pub proof fn lemma_cut_short_form_is_none(tokens: Seq<Seq<char>>, k: int)
    requires
        parse_form(tokens) matches Some((_, rest)) && 0 <= k < tokens.len() - rest.len(),
    ensures
        parse_form(tokens.take(k)) is None,
    decreases tokens.len(), 0int,
{
    if k > 0 && tokens[0] == open_marker() {
        lemma_cut_short_items_are_none(tokens.drop_first(), k - 1);
        assert(tokens.take(k).drop_first() =~= tokens.drop_first().take(k - 1));
    }
}

/// The items of a list that is cut short are no items: where the tokens end
/// before the closing token, nothing is read.
pub proof fn lemma_cut_short_items_are_none(tokens: Seq<Seq<char>>, k: int)
    requires
        parse_items(tokens) matches Some((_, rest)) && 0 <= k < tokens.len() - rest.len(),
    ensures
        parse_items(tokens.take(k)) is None,
    decreases tokens.len(), 1int,
{
    let (first, behind) = parse_form(tokens)->0;
    let taken = tokens.len() - behind.len();
    lemma_parse_form_consumes(tokens);
    if k < taken {
        lemma_cut_short_form_is_none(tokens, k);
    } else {
        lemma_parse_items_consumes(behind);
        lemma_parse_form_of_front(tokens, k);
        lemma_cut_short_items_are_none(behind, k - taken);
    }
}

/// Whether no list in `term`, at any depth, holds the symbol `)` as an item.
pub open spec fn holds_no_close_marker(term: Term) -> bool
    decreases term,
{
    match term {
        Term::List(items) => forall|i: int|
            0 <= i < items.len() ==> {
                &&& #[trigger] items[i] != Term::Symbol(close_marker())
                &&& holds_no_close_marker(items[i])
            },
        _ => true,
    }
}

/// The `)` that ends a list is no item of it: no list that is read holds the
/// symbol `)`.
pub proof fn lemma_close_marker_stays_out(tokens: Seq<Seq<char>>)
    ensures
        parse_form(tokens) matches Some((term, _)) ==> holds_no_close_marker(term),
    decreases tokens.len(), 0int,
{
    if tokens.len() > 0 && tokens[0] == open_marker() {
        lemma_close_marker_stays_out_of_items(tokens.drop_first());
    }
}

/// No item that is read for a list is the symbol `)` or holds it in a list.
pub proof fn lemma_close_marker_stays_out_of_items(tokens: Seq<Seq<char>>)
    ensures
        parse_items(tokens) matches Some((items, _)) ==> forall|i: int|
            0 <= i < items.len() ==> {
                &&& #[trigger] items[i] != Term::Symbol(close_marker())
                &&& holds_no_close_marker(items[i])
            },
    decreases tokens.len(), 1int,
{
    lemma_close_marker_stays_out(tokens);
    match parse_form(tokens) {
        Some((first, behind)) => {
            if first != Term::Symbol(close_marker()) && behind.len() < tokens.len() {
                lemma_close_marker_stays_out_of_items(behind);
            }
        },
        None => {},
    }
}

/// A cursor over a sequence of tokens: it holds the lookahead, which is the
/// token to come next, if there is one, and the tokens behind it.
pub struct Reader {
    head: Option<Token>,
    /// The tokens behind the lookahead, the last to come first.
    tail: Vec<Token>,
}

impl View for Reader {
    type V = Seq<Seq<char>>;

    /// The tokens that remain, the lookahead first.
    closed spec fn view(&self) -> Seq<Seq<char>> {
        match self.head {
            Some(token) => seq![token@] + texts(self.tail@).reverse(),
            None => Seq::empty(),
        }
    }
}

impl Reader {
    /// A cursor in front of the first of `tokens`.
    pub fn new(tokens: Vec<Token>) -> (reader: Self)
        ensures
            reader@ == texts(tokens@),
    {
        let ghost all = texts(tokens@);
        let mut tokens = tokens;
        let mut tail: Vec<Token> = Vec::new();
        while tokens.len() > 0
            invariant
                texts(tokens@) + texts(tail@).reverse() == all,
            decreases tokens.len(),
        {
            let token = tokens.pop().unwrap();
            tail.push(token);
        }
        let head = tail.pop();
        Reader { head, tail }
    }

    /// Hands out the lookahead and moves the cursor behind it.
    pub fn next(&mut self) -> (token: Option<Token>)
        ensures
            match token {
                Some(t) => old(self)@.len() > 0 && t@ == old(self)@[0] && final(self)@ == old(
                    self,
                )@.drop_first(),
                None => old(self)@.len() == 0 && final(self)@ == old(self)@,
            },
    {
        if self.head.is_none() {
            return None;
        }
        let mut token = self.tail.pop();
        std::mem::swap(&mut self.head, &mut token);
        token
    }

    /// The lookahead, which stays where it is.
    pub fn peek(&self) -> (token: Option<&Token>)
        ensures
            match token {
                Some(t) => self@.len() > 0 && t@ == self@[0],
                None => self@.len() == 0,
            },
    {
        self.head.as_ref()
    }
}

/// What `parse_items` gives for a list of which `front` has been read
/// already, `parsed` being what it gives for the tokens after `front`.
pub open spec fn after_front(
    front: Seq<Term>,
    parsed: Option<(Seq<Term>, Seq<Seq<char>>)>,
) -> Option<(Seq<Term>, Seq<Seq<char>>)> {
    match parsed {
        Some((items, rest)) => Some((front + items, rest)),
        None => None,
    }
}

/// Whether `value` is the symbol `)`.
fn is_close(value: &MalType) -> (b: bool)
    ensures
        b == (value@ == Term::Symbol(close_marker())),
{
    match value {
        MalType::Symbol(s) => is_single(s.as_str(), ')'),
        _ => false,
    }
}

/// Reads the lookahead as a term by itself.
pub fn read_atom(reader: &mut Reader) -> (value: MalType)
    requires
        old(reader)@.len() > 0,
    ensures
        value@ == atom(old(reader)@[0]),
        final(reader)@ == old(reader)@.drop_first(),
{
    let token = reader.next().unwrap();
    let chars = chars_of(token.0.as_str());
    match parse_integer(&chars) {
        Some(n) => MalType::Integer(n),
        None => MalType::Symbol(token.0),
    }
}

/// Reads one form: a list where the lookahead is `(`, and else the
/// lookahead by itself.
///
/// Fails with `Eof`, and with no token left, where the tokens end before the
/// form is complete.
pub fn read_form(reader: &mut Reader) -> (result: Result<MalType, MalError>)
    ensures
        match parse_form(old(reader)@) {
            Some((term, rest)) => result matches Ok(value) && value@ == term && final(reader)@
                == rest,
            None => result == Err::<MalType, MalError>(MalError::Eof) && final(reader)@.len() == 0,
        },
    decreases old(reader)@.len(), 0int,
{
    let is_open = match reader.peek() {
        Some(token) => is_single(token.0.as_str(), '('),
        None => {
            return Err(MalError::Eof);
        },
    };
    if is_open {
        let _ = reader.next();
        read_list(reader)
    } else {
        Ok(read_atom(reader))
    }
}

/// Reads the forms of a list whose `(` has been read, up to its `)`.
///
/// Fails with `Eof`, and with no token left, where the tokens end before the
/// `)`.
pub fn read_list(reader: &mut Reader) -> (result: Result<MalType, MalError>)
    ensures
        match parse_items(old(reader)@) {
            Some((items, rest)) => result matches Ok(value) && value@ == Term::List(items)
                && final(reader)@ == rest,
            None => result == Err::<MalType, MalError>(MalError::Eof) && final(reader)@.len() == 0,
        },
    decreases old(reader)@.len(), 1int,
{
    let mut values: Vec<MalType> = Vec::new();
    loop
        invariant
            reader@.len() <= old(reader)@.len(),
            parse_items(old(reader)@) == after_front(terms(values@), parse_items(reader@)),
        decreases reader@.len(),
    {
        proof {
            lemma_parse_form_consumes(reader@);
        }
        match read_form(reader) {
            Err(e) => {
                return Err(e);
            },
            Ok(value) => {
                if is_close(&value) {
                    return Ok(MalType::List(values));
                }
                values.push(value);
            },
        }
    }
}

/// Reads the first form of `input`.
///
/// Fails with `Eof` where `input` holds no token, or ends before the form
/// that it starts is complete. What follows the first form is left unread.
pub fn read_str(input: &str) -> (result: Result<MalType, MalError>)
    ensures
        match term_of(input@) {
            Some(term) => result matches Ok(value) && value@ == term,
            None => result == Err::<MalType, MalError>(MalError::Eof),
        },
{
    let mut reader = Reader::new(tokenize(input));
    read_form(&mut reader)
}

} // verus!
