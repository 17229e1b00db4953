//! The kinds of tokens, and what holds of the tokens that the tokenizer
//! gives.

use vstd::prelude::*;
use crate::charset::{is_separator, is_structural, is_symbol_char};
use crate::tokenizer::{
    lemma_runs_end_in_text, lemma_token_len_bounds, line_run, separator_run, string_run,
    symbol_run, token_len, tokens_from,
};

verus! {

/// A bare run: one or more symbol characters.
pub open spec fn is_bare_run(s: Seq<char>) -> bool {
    &&& s.len() > 0
    &&& forall|i: int| 0 <= i < s.len() ==> is_symbol_char(#[trigger] s[i])
}

/// The splice marker, or one structural character.
pub open spec fn is_marker(s: Seq<char>) -> bool {
    ||| s == seq!['~', '@']
    ||| s.len() == 1 && is_structural(s[0])
}

/// Whether the string literal that `s` is in at place `p` is closed by the
/// last character of `s` and by none before it.
pub open spec fn closes_at_end(s: Seq<char>, p: nat) -> bool
    decreases s.len() - p,
{
    if p >= s.len() {
        false
    } else if s[p as int] == '"' {
        p + 1 == s.len()
    } else if s[p as int] == '\\' {
        p + 1 < s.len() && closes_at_end(s, p + 2)
    } else {
        closes_at_end(s, p + 1)
    }
}

/// A string literal with its closing quote.
pub open spec fn is_closed_string(s: Seq<char>) -> bool {
    &&& s.len() > 0
    &&& s[0] == '"'
    &&& closes_at_end(s, 1)
}

/// A comment.
pub open spec fn is_comment(s: Seq<char>) -> bool {
    s.len() > 0 && s[0] == ';'
}

/// Text that, standing alone, is cut into one token, itself.
pub open spec fn is_lone_token(s: Seq<char>) -> bool {
    &&& s.len() > 0
    &&& !is_separator(s[0])
    &&& token_len(s, 0) == s.len()
}

/// A token that ends by itself, whatever follows it: a marker, a closed
/// string literal or a bare run.
pub open spec fn ends_by_itself(s: Seq<char>) -> bool {
    is_marker(s) || is_closed_string(s) || is_bare_run(s)
}

/// A run of separators ends at the end of the text or before a character
/// that is no separator.
pub proof fn lemma_separator_run_stops(s: Seq<char>, p: nat)
    ensures
        p + separator_run(s, p) < s.len() ==> !is_separator(s[(p + separator_run(s, p)) as int]),
    decreases s.len() - p,
{
    if p < s.len() && is_separator(s[p as int]) {
        lemma_separator_run_stops(s, p + 1);
    }
}

/// A run of symbol characters holds symbol characters.
pub proof fn lemma_symbol_run_holds_symbol_chars(s: Seq<char>, p: nat)
    ensures
        forall|i: int| p <= i < p + symbol_run(s, p) ==> is_symbol_char(#[trigger] s[i]),
    decreases s.len() - p,
{
    if p < s.len() && is_symbol_char(s[p as int]) {
        lemma_symbol_run_holds_symbol_chars(s, p + 1);
    }
}

/// A run of `k` symbol characters with no symbol character behind it.
pub proof fn lemma_symbol_run_window(s: Seq<char>, p: nat, k: nat)
    requires
        p + k <= s.len(),
        forall|i: int| p <= i < p + k ==> is_symbol_char(#[trigger] s[i]),
        p + k == s.len() || !is_symbol_char(s[(p + k) as int]),
    ensures
        symbol_run(s, p) == k,
    decreases k,
{
    if k > 0 {
        lemma_symbol_run_window(s, p + 1, (k - 1) as nat);
    }
}

/// The rest of a line, cut out of the text, is the rest of a line.
proof fn lemma_line_run_alone(s: Seq<char>, from: nat, to: nat, q: nat)
    requires
        from + q <= to <= s.len(),
        from + q + line_run(s, from + q) == to,
    ensures
        line_run(s.subrange(from as int, to as int), q) == to - from - q,
    decreases to - from - q,
{
    if from + q < to {
        lemma_line_run_alone(s, from, to, q + 1);
    }
}

/// The rest of a bare run, cut out of the text, is the rest of a bare run.
proof fn lemma_symbol_run_alone(s: Seq<char>, from: nat, to: nat, q: nat)
    requires
        from + q <= to <= s.len(),
        from + q + symbol_run(s, from + q) == to,
    ensures
        symbol_run(s.subrange(from as int, to as int), q) == to - from - q,
    decreases to - from - q,
{
    if from + q < to {
        lemma_symbol_run_alone(s, from, to, q + 1);
    }
}

/// The rest of a string literal, cut out of the text, is the rest of a
/// string literal, and a closed one where the text goes on behind it.
proof fn lemma_string_run_alone(s: Seq<char>, from: nat, to: nat, q: nat)
    requires
        from + q <= to <= s.len(),
        from + q + string_run(s, from + q) == to,
    ensures
        string_run(s.subrange(from as int, to as int), q) == to - from - q,
        to < s.len() ==> closes_at_end(s.subrange(from as int, to as int), q),
    decreases to - from - q,
{
    if from + q < s.len() {
        let c = s[(from + q) as int];
        if c == '\\' {
            if from + q + 1 < s.len() {
                lemma_string_run_alone(s, from, to, q + 2);
            }
        } else if c != '"' {
            lemma_string_run_alone(s, from, to, q + 1);
        }
    }
}

/// The token that starts at `p`, cut out of the text, is one token by
/// itself. Where the text goes on behind it, it is a comment or ends by
/// itself.
pub proof fn lemma_token_alone(s: Seq<char>, p: nat)
    requires
        p < s.len(),
        !is_separator(s[p as int]),
    ensures
        is_lone_token(s.subrange(p as int, (p + token_len(s, p)) as int)),
        p + token_len(s, p) < s.len() ==> {
            let w = s.subrange(p as int, (p + token_len(s, p)) as int);
            is_comment(w) || ends_by_itself(w)
        },
{
    let to = p + token_len(s, p);
    let w = s.subrange(p as int, to as int);
    let c = s[p as int];
    lemma_token_len_bounds(s, p);
    if c == '~' && p + 1 < s.len() && s[p + 1 as int] == '@' {
        assert(w =~= seq!['~', '@']);
    } else if is_structural(c) {
        // One structural character, a marker.
    } else if c == '"' {
        lemma_string_run_alone(s, p, to, 1);
    } else if c == ';' {
        lemma_line_run_alone(s, p, to, 1);
    } else {
        lemma_symbol_run_alone(s, p, to, 1);
        lemma_symbol_run_holds_symbol_chars(s, p + 1);
        assert forall|i: int| 0 <= i < w.len() implies is_symbol_char(#[trigger] w[i]) by {
            assert(w[i] == s[p + i]);
        }
    }
}

/// What holds of a sequence of tokens that the tokenizer gives: each is one
/// token by itself, and each but the last is a comment or ends by itself.
pub open spec fn well_cut(tokens: Seq<Seq<char>>) -> bool {
    forall|i: int|
        0 <= i < tokens.len() ==> {
            &&& is_lone_token(#[trigger] tokens[i])
            &&& i + 1 < tokens.len() ==> (is_comment(tokens[i]) || ends_by_itself(tokens[i]))
        }
}

/// The tokens of a text are well cut.
pub proof fn lemma_tokens_are_well_cut(s: Seq<char>, p: nat)
    ensures
        well_cut(tokens_from(s, p)),
    decreases s.len() - p,
{
    let start = p + separator_run(s, p);
    let tokens = tokens_from(s, p);
    if start < s.len() {
        let end = start + token_len(s, start);
        let rest = tokens_from(s, end);
        lemma_separator_run_stops(s, p);
        lemma_token_len_bounds(s, start);
        lemma_token_alone(s, start);
        lemma_tokens_are_well_cut(s, end);
        if end >= s.len() {
            lemma_runs_end_in_text(s, s.len());
        }
        assert forall|i: int| 0 <= i < tokens.len() implies {
            &&& is_lone_token(#[trigger] tokens[i])
            &&& i + 1 < tokens.len() ==> (is_comment(tokens[i]) || ends_by_itself(tokens[i]))
        } by {
            if i > 0 {
                assert(tokens[i] == rest[i - 1]);
            }
        }
    }
}

} // verus!
