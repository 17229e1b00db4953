//! Printing a term and reading the text again.
//!
//! The text of a term reads back as that term for the terms that the reader
//! itself can give and that hold no comment inside a list: a comment goes on
//! to the end of its line, so inside a list it would take the rest of the
//! list with it.

use vstd::prelude::*;
use crate::charset::{is_separator, is_symbol_char};
use crate::integer::{
    decimal, digits_of, integer_value, is_digit, lemma_digits_of, lemma_literal_of_decimal,
};
use crate::lexeme::{
    closes_at_end, ends_by_itself, is_bare_run, is_closed_string, is_comment, is_lone_token,
    lemma_symbol_run_window, lemma_tokens_are_well_cut, well_cut,
};
use crate::printer::{render, render_items};
use crate::reader::{
    after_front, close_marker, lemma_parse_form_consumes, lemma_parse_items_consumes,
    open_marker, parse_form, parse_items, term_of,
};
use crate::tokenizer::{lemma_runs_end_in_text, string_run, token_len, tokens_from, tokens_of};
use crate::types::Term;

verus! {

/// The symbols that the reader gives for a token inside a list, but for
/// comments: a marker other than the two parentheses, a closed string
/// literal, or a bare run that is no integer literal.
pub open spec fn is_list_symbol(s: Seq<char>) -> bool {
    &&& ends_by_itself(s)
    &&& s != open_marker()
    &&& s != close_marker()
    &&& integer_value(s) is None
}

/// The terms that the reader gives for a form inside a list, but for those
/// that hold a comment.
pub open spec fn fits_in_list(term: Term) -> bool
    decreases term,
{
    match term {
        Term::Integer(n) => isize::MIN <= n <= isize::MAX,
        Term::Symbol(s) => is_list_symbol(s),
        Term::List(items) => forall|i: int|
            0 <= i < items.len() ==> fits_in_list(#[trigger] items[i]),
    }
}

/// The terms that the reader gives, but for those that hold a comment inside
/// a list: what fits in a list, and the symbol of any one token but `(`.
pub open spec fn reads_back(term: Term) -> bool {
    ||| fits_in_list(term)
    ||| term matches Term::Symbol(s) && is_lone_token(s) && s != open_marker() && integer_value(s)
        is None
}

/// The tokens that spell a term.
pub open spec fn spelling(term: Term) -> Seq<Seq<char>>
    decreases term,
{
    match term {
        Term::Integer(n) => seq![decimal(n)],
        Term::Symbol(s) => seq![s],
        Term::List(items) => seq![open_marker()] + spelling_of_items(items) + seq![close_marker()],
    }
}

/// The tokens that spell the items of a list, one after the other.
pub open spec fn spelling_of_items(items: Seq<Term>) -> Seq<Seq<char>>
    decreases items,
{
    if items.len() == 0 {
        Seq::empty()
    } else {
        spelling_of_items(items.drop_last()) + spelling(items.last())
    }
}

/// The spelling of a term is not empty.
proof fn lemma_spelling_is_not_empty(term: Term)
    ensures
        spelling(term).len() > 0,
{
}

/// The reader gives a term back from its spelling and goes on behind it.
pub proof fn lemma_parse_spelling(term: Term, more: Seq<Seq<char>>)
    requires
        fits_in_list(term),
    ensures
        parse_form(spelling(term) + more) == Some((term, more)),
    decreases term, 0int,
{
    let tokens = spelling(term) + more;
    match term {
        Term::Integer(n) => {
            lemma_literal_of_decimal(n);
            lemma_decimal_is_bare_run(n);
            assert(decimal(n)[0] != '(');
        },
        Term::Symbol(_) => {},
        Term::List(items) => {
            let closing = seq![close_marker()] + more;
            assert(tokens.drop_first() =~= spelling_of_items(items) + closing);
            lemma_parse_spelling_of_items(items, closing);
            assert(close_marker()[0] == ')');
            assert(parse_form(closing) == Some((Term::Symbol(close_marker()), more)));
        },
    }
}

/// The reader gives the items of a list back from their spelling and goes on
/// behind them.
pub proof fn lemma_parse_spelling_of_items(items: Seq<Term>, more: Seq<Seq<char>>)
    requires
        forall|i: int| 0 <= i < items.len() ==> fits_in_list(#[trigger] items[i]),
    ensures
        parse_items(spelling_of_items(items) + more) == after_front(items, parse_items(more)),
    decreases items, 1int,
{
    if items.len() > 0 {
        let front = items.drop_last();
        let last = items.last();
        let tail = spelling(last) + more;
        assert(spelling_of_items(items) + more =~= spelling_of_items(front) + tail);
        lemma_parse_spelling_of_items(front, tail);
        lemma_parse_spelling(last, more);
        lemma_spelling_is_not_empty(last);
    }
}

/// The decimal text of an integer is a bare run.
pub proof fn lemma_decimal_is_bare_run(n: int)
    ensures
        is_bare_run(decimal(n)),
{
    let s = decimal(n);
    if n < 0 {
        lemma_digits_of((-n) as nat);
        let d = digits_of((-n) as nat);
        assert forall|i: int| 0 <= i < s.len() implies is_symbol_char(#[trigger] s[i]) by {
            if i > 0 {
                assert(is_digit(d[i - 1]));
            }
        }
    } else {
        lemma_digits_of(n as nat);
        assert forall|i: int| 0 <= i < s.len() implies is_symbol_char(#[trigger] s[i]) by {
            assert(is_digit(s[i]));
        }
    }
}

/// `w` stands in `s` at place `p`.
pub open spec fn stands_at(s: Seq<char>, p: nat, w: Seq<char>) -> bool {
    &&& p + w.len() <= s.len()
    &&& forall|i: int| 0 <= i < w.len() ==> s[p + i] == #[trigger] w[i]
}

/// A place where a marker, a closed string or a bare run cannot go on: the
/// end of the text, a space, or a closing parenthesis.
pub open spec fn token_stops(s: Seq<char>, q: nat) -> bool {
    q >= s.len() || s[q as int] == ' ' || s[q as int] == ')'
}

/// Where a closed string literal stands in a text, the literal ends in the
/// text where it ends by itself.
proof fn lemma_string_run_closed(s: Seq<char>, p: nat, w: Seq<char>, q: nat)
    requires
        stands_at(s, p, w),
        closes_at_end(w, q),
    ensures
        q + string_run(s, p + q) == w.len(),
    decreases w.len() - q,
{
    if w[q as int] == '\\' {
        lemma_string_run_closed(s, p, w, q + 2);
    } else if w[q as int] != '"' {
        lemma_string_run_closed(s, p, w, q + 1);
    }
}

/// Where a marker, a closed string or a bare run stands in a text and
/// cannot go on behind its end, it is the token that starts there.
proof fn lemma_token_in_text(s: Seq<char>, p: nat, w: Seq<char>)
    requires
        ends_by_itself(w),
        stands_at(s, p, w),
        token_stops(s, p + w.len()),
    ensures
        p < s.len(),
        !is_separator(s[p as int]),
        token_len(s, p) == w.len(),
        s.subrange(p as int, (p + w.len()) as int) == w,
{
    if is_bare_run(w) {
        assert(is_symbol_char(w[0]));
        assert forall|i: int| p + 1 <= i < p + w.len() implies is_symbol_char(#[trigger] s[i]) by {
            assert(s[p + (i - p)] == w[i - p]);
        }
        lemma_symbol_run_window(s, p + 1, (w.len() - 1) as nat);
    } else if is_closed_string(w) {
        lemma_string_run_closed(s, p, w, 1);
    }
}

/// Where a token starts at `p`, the tokens from `p` on are that one and
/// those behind it.
proof fn lemma_tokens_at_token(s: Seq<char>, p: nat)
    requires
        p < s.len(),
        !is_separator(s[p as int]),
    ensures
        tokens_from(s, p) == seq![s.subrange(p as int, (p + token_len(s, p)) as int)] + tokens_from(
            s,
            p + token_len(s, p),
        ),
{
}

/// A separator changes nothing in the tokens that follow it.
proof fn lemma_tokens_behind_separator(s: Seq<char>, p: nat)
    requires
        p < s.len(),
        is_separator(s[p as int]),
    ensures
        tokens_from(s, p) == tokens_from(s, p + 1),
{
}

/// Where the text of a term stands in a text and no token can go on behind
/// it, the tokens from there on are the spelling of the term and those
/// behind it.
pub proof fn lemma_tokens_of_rendered(term: Term, s: Seq<char>, p: nat)
    requires
        fits_in_list(term),
        stands_at(s, p, render(term)),
        token_stops(s, p + render(term).len()),
    ensures
        tokens_from(s, p) == spelling(term) + tokens_from(s, p + render(term).len()),
    decreases term, 0int,
{
    let w = render(term);
    match term {
        Term::Integer(n) => {
            lemma_decimal_is_bare_run(n);
            lemma_token_in_text(s, p, w);
            lemma_tokens_at_token(s, p);
        },
        Term::Symbol(text) => {
            lemma_token_in_text(s, p, w);
            lemma_tokens_at_token(s, p);
        },
        Term::List(items) => {
            let inner = render_items(items);
            let close = p + 1 + inner.len();
            assert(s[p + 0int] == w[0]);
            assert(s[p + (1 + inner.len() as int)] == w[1 + inner.len() as int]);
            assert(stands_at(s, p + 1, inner)) by {
                assert forall|i: int| 0 <= i < inner.len() implies s[p + 1 + i] == #[trigger] inner[i] by {
                    assert(s[p + (1 + i)] == w[1 + i]);
                }
            }
            lemma_tokens_at_token(s, p);
            assert(s.subrange(p as int, p + 1int) =~= open_marker());
            lemma_tokens_of_rendered_items(items, s, p + 1);
            lemma_tokens_at_token(s, close);
            assert(s.subrange(close as int, close + 1int) =~= close_marker());
        },
    }
}

/// Where the text of the items of a list stands in a text and no token can
/// go on behind it, the tokens from there on are the spelling of the items
/// and those behind them.
pub proof fn lemma_tokens_of_rendered_items(items: Seq<Term>, s: Seq<char>, p: nat)
    requires
        forall|i: int| 0 <= i < items.len() ==> fits_in_list(#[trigger] items[i]),
        stands_at(s, p, render_items(items)),
        token_stops(s, p + render_items(items).len()),
    ensures
        tokens_from(s, p) == spelling_of_items(items) + tokens_from(
            s,
            p + render_items(items).len(),
        ),
    decreases items, 1int,
{
    let w = render_items(items);
    if items.len() == 1 {
        lemma_tokens_of_rendered(items[0], s, p);
        assert(spelling_of_items(items.drop_last()) =~= Seq::<Seq<char>>::empty());
    } else if items.len() > 1 {
        let front = items.drop_last();
        let last = items.last();
        let gap = p + render_items(front).len();
        assert(stands_at(s, p, render_items(front))) by {
            assert forall|i: int| 0 <= i < render_items(front).len() implies s[p + i]
                == #[trigger] render_items(front)[i] by {
                assert(s[p + i] == w[i]);
            }
        }
        assert(s[gap as int] == ' ') by {
            assert(s[p + render_items(front).len() as int] == w[render_items(front).len() as int]);
        }
        lemma_tokens_of_rendered_items(front, s, p);
        lemma_tokens_behind_separator(s, gap);
        assert(stands_at(s, gap + 1, render(last))) by {
            assert forall|i: int| 0 <= i < render(last).len() implies s[gap + 1 + i]
                == #[trigger] render(last)[i] by {
                assert(s[p + (render_items(front).len() + 1 + i)] == w[render_items(front).len()
                    + 1 + i]);
            }
        }
        lemma_tokens_of_rendered(last, s, gap + 1);
    }
}

/// The text of a term reads back as the term, with no token left over: for
/// the terms that the reader gives from text and that hold no comment
/// inside a list. So printing what was read from the printed text gives the
/// printed text again.
pub proof fn lemma_read_after_print(term: Term)
    requires
        reads_back(term),
    ensures
        parse_form(tokens_of(render(term))) == Some((term, Seq::<Seq<char>>::empty())),
        term_of(render(term)) == Some(term),
        term_of(render(term)) matches Some(again) && render(again) == render(term),
{
    let s = render(term);
    let none = Seq::<Seq<char>>::empty();
    if fits_in_list(term) {
        lemma_tokens_of_rendered(term, s, 0);
        assert(tokens_from(s, s.len()) =~= none) by {
            lemma_runs_end_in_text(s, s.len());
        }
        lemma_parse_spelling(term, none);
    } else {
        lemma_tokens_at_token(s, 0);
        assert(tokens_from(s, s.len()) =~= none) by {
            lemma_runs_end_in_text(s, s.len());
        }
        assert(s.subrange(0, s.len() as int) =~= s);
    }
}

/// Whether a term is no comment and holds none.
pub open spec fn comment_free(term: Term) -> bool
    decreases term,
{
    match term {
        Term::Integer(_) => true,
        Term::Symbol(s) => !is_comment(s),
        Term::List(items) => forall|i: int|
            0 <= i < items.len() ==> comment_free(#[trigger] items[i]),
    }
}

/// Whether no list in a term holds a comment.
pub open spec fn no_comment_in_a_list(term: Term) -> bool {
    term is List ==> comment_free(term)
}

/// What is left of well cut tokens from some token on is well cut.
proof fn lemma_well_cut_rest(tokens: Seq<Seq<char>>, k: int)
    requires
        well_cut(tokens),
        0 <= k <= tokens.len(),
    ensures
        well_cut(tokens.skip(k)),
{
    let rest = tokens.skip(k);
    assert forall|i: int| 0 <= i < rest.len() implies {
        &&& is_lone_token(#[trigger] rest[i])
        &&& i + 1 < rest.len() ==> (is_comment(rest[i]) || ends_by_itself(rest[i]))
    } by {
        assert(rest[i] == tokens[k + i]);
    }
}

/// What holds of the form that is read from well cut tokens.
proof fn lemma_form_from_well_cut(tokens: Seq<Seq<char>>)
    requires
        well_cut(tokens),
        parse_form(tokens) is Some,
    ensures
        ({
            let (term, rest) = parse_form(tokens)->0;
            &&& term is Integer ==> fits_in_list(term)
            &&& term is List && comment_free(term) ==> fits_in_list(term)
            &&& term matches Term::Symbol(s) ==> {
                &&& s == tokens[0]
                &&& s != open_marker()
                &&& integer_value(s) is None
                &&& rest == tokens.drop_first()
            }
        }),
    decreases tokens.len(), 0int,
{
    if tokens[0] == open_marker() {
        lemma_well_cut_rest(tokens, 1);
        lemma_items_from_well_cut(tokens.drop_first());
    }
}

/// What holds of the items that are read from well cut tokens.
proof fn lemma_items_from_well_cut(tokens: Seq<Seq<char>>)
    requires
        well_cut(tokens),
        parse_items(tokens) is Some,
    ensures
        ({
            let (items, _) = parse_items(tokens)->0;
            forall|i: int|
                0 <= i < items.len() && comment_free(#[trigger] items[i]) ==> fits_in_list(
                    items[i],
                )
        }),
    decreases tokens.len(), 1int,
{
    let (items, _) = parse_items(tokens)->0;
    let (first, behind) = parse_form(tokens)->0;
    lemma_form_from_well_cut(tokens);
    lemma_parse_form_consumes(tokens);
    if first != Term::Symbol(close_marker()) {
        let (others, _) = parse_items(behind)->0;
        lemma_well_cut_rest(tokens, tokens.len() - behind.len());
        lemma_items_from_well_cut(behind);
        lemma_parse_items_consumes(behind);
        assert forall|i: int| 0 <= i < items.len() && comment_free(
            #[trigger] items[i],
        ) implies fits_in_list(items[i]) by {
            if i == 0 {
                // The first item is no last token: the items behind it, or
                // at least the closing token, follow.
                assert(is_lone_token(tokens[0]));
            } else {
                assert(items[i] == others[i - 1]);
            }
        }
    }
}

/// Every term that is read from a text reads back from its own text, but
/// for those with a comment inside a list.
pub proof fn lemma_what_is_read_reads_back(s: Seq<char>)
    requires
        term_of(s) matches Some(term) && no_comment_in_a_list(term),
    ensures
        term_of(s) matches Some(term) && reads_back(term),
{
    lemma_tokens_are_well_cut(s, 0);
    lemma_form_from_well_cut(tokens_of(s));
}

/// What is read from a text, printed and read again is the same term, and
/// so has the same text when printed again: for every text whose first form
/// holds no comment inside a list.
pub proof fn lemma_print_read_print(s: Seq<char>)
    requires
        term_of(s) matches Some(term) && no_comment_in_a_list(term),
    ensures
        term_of(s) matches Some(term) && term_of(render(term)) == Some(term),
{
    lemma_what_is_read_reads_back(s);
    lemma_read_after_print(term_of(s)->0);
}

} // verus!
