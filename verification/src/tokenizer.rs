//! The tokenizer: from text to the sequence of its tokens.
//!
//! A token is the longest piece of text that one rule of the grammar takes,
//! the rules being tried in this order at the first character that is no
//! separator:
//!
//! 1. the splice marker `~@`;
//! 2. one structural character;
//! 3. a string literal, from `"` to the first `"` behind it that is not the
//!    second character of an escape (a backslash and the character after
//!    it), or to the end of the text where none closes it;
//! 4. a comment, from `;` to the end of the line;
//! 5. a bare run of symbol characters.

use vstd::prelude::*;
use crate::charset::{
    is_separator, is_structural, is_symbol_char, separator, structural, symbol_char,
};
use crate::text::{chars_of, string_of};

verus! {

/// One lexeme: the text that one rule of the grammar matched.
#[derive(Debug)]
pub struct Token(pub String);

impl View for Token {
    type V = Seq<char>;

    open spec fn view(&self) -> Seq<char> {
        self.0@
    }
}

impl PartialEq for Token {
    fn eq(&self, other: &Token) -> (same: bool) {
        self.0 == other.0
    }
}

impl vstd::std_specs::cmp::PartialEqSpecImpl for Token {
    open spec fn obeys_eq_spec() -> bool {
        true
    }

    open spec fn eq_spec(&self, other: &Token) -> bool {
        self.0@ == other.0@
    }
}

/// The texts of a sequence of tokens.
pub open spec fn texts(tokens: Seq<Token>) -> Seq<Seq<char>> {
    tokens.map_values(|t: Token| t@)
}

/// How many separators stand at `p` and after it without a break.
pub open spec fn separator_run(s: Seq<char>, p: nat) -> nat
    decreases s.len() - p,
{
    if p < s.len() && is_separator(s[p as int]) {
        1 + separator_run(s, p + 1)
    } else {
        0
    }
}

/// How many symbol characters stand at `p` and after it without a break.
pub open spec fn symbol_run(s: Seq<char>, p: nat) -> nat
    decreases s.len() - p,
{
    if p < s.len() && is_symbol_char(s[p as int]) {
        1 + symbol_run(s, p + 1)
    } else {
        0
    }
}

/// How many characters stand at `p` and after it before the line ends.
pub open spec fn line_run(s: Seq<char>, p: nat) -> nat
    decreases s.len() - p,
{
    if p < s.len() && s[p as int] != '\n' {
        1 + line_run(s, p + 1)
    } else {
        0
    }
}

/// How many characters the rest of a string literal takes, `p` being a place
/// after its opening quote: up to and with the first `"` that is not the
/// second character of an escape, an escape being a backslash and the
/// character after it. Where the text ends first, all that is left.
pub open spec fn string_run(s: Seq<char>, p: nat) -> nat
    decreases s.len() - p,
{
    if p >= s.len() {
        0
    } else if s[p as int] == '"' {
        1
    } else if s[p as int] == '\\' {
        if p + 1 < s.len() {
            2 + string_run(s, p + 2)
        } else {
            1
        }
    } else {
        1 + string_run(s, p + 1)
    }
}

/// The length of the token that starts at `p`, where `s[p]` is no separator.
pub open spec fn token_len(s: Seq<char>, p: nat) -> nat {
    let c = s[p as int];
    if c == '~' && p + 1 < s.len() && s[p + 1 as int] == '@' {
        2
    } else if is_structural(c) {
        1
    } else if c == '"' {
        1 + string_run(s, p + 1)
    } else if c == ';' {
        1 + line_run(s, p + 1)
    } else {
        1 + symbol_run(s, p + 1)
    }
}

/// No run goes beyond the end of the text.
pub proof fn lemma_runs_end_in_text(s: Seq<char>, p: nat)
    requires
        p <= s.len(),
    ensures
        p + separator_run(s, p) <= s.len(),
        p + symbol_run(s, p) <= s.len(),
        p + line_run(s, p) <= s.len(),
        p + string_run(s, p) <= s.len(),
    decreases s.len() - p,
{
    if p < s.len() {
        lemma_runs_end_in_text(s, p + 1);
        if p + 1 < s.len() {
            lemma_runs_end_in_text(s, p + 2);
        }
    }
}

/// A token holds at least one character and ends in the text.
pub proof fn lemma_token_len_bounds(s: Seq<char>, p: nat)
    requires
        p < s.len(),
    ensures
        1 <= token_len(s, p),
        p + token_len(s, p) <= s.len(),
{
    lemma_runs_end_in_text(s, p + 1);
}

/// The tokens of `s` from place `p` on.
pub open spec fn tokens_from(s: Seq<char>, p: nat) -> Seq<Seq<char>>
    decreases s.len() - p,
{
    let start = p + separator_run(s, p);
    if start >= s.len() {
        Seq::empty()
    } else {
        let end = start + token_len(s, start);
        proof {
            lemma_token_len_bounds(s, start);
        }
        seq![s.subrange(start as int, end as int)] + tokens_from(s, end)
    }
}

/// The tokens of `s`, in the order in which they stand in it.
pub open spec fn tokens_of(s: Seq<char>) -> Seq<Seq<char>> {
    tokens_from(s, 0)
}

/// Text that holds separators only, whitespace and commas, holds no token.
pub proof fn lemma_separators_hold_no_token(s: Seq<char>)
    requires
        forall|i: int| 0 <= i < s.len() ==> is_separator(#[trigger] s[i]),
    ensures
        tokens_of(s) == Seq::<Seq<char>>::empty(),
{
    lemma_separator_run_to_end(s, 0);
}

/// Where separators only stand from `p` on, their run goes to the end.
proof fn lemma_separator_run_to_end(s: Seq<char>, p: nat)
    requires
        p <= s.len(),
        forall|i: int| p <= i < s.len() ==> is_separator(#[trigger] s[i]),
    ensures
        p + separator_run(s, p) == s.len(),
    decreases s.len() - p,
{
    if p < s.len() {
        lemma_separator_run_to_end(s, p + 1);
    }
}

/// Text that holds no token holds separators only.
pub proof fn lemma_no_token_means_separators(s: Seq<char>)
    requires
        tokens_of(s).len() == 0,
    ensures
        forall|i: int| 0 <= i < s.len() ==> is_separator(#[trigger] s[i]),
{
    lemma_runs_end_in_text(s, 0);
    lemma_separator_run_holds_separators(s, 0);
}

/// A run of separators holds separators.
proof fn lemma_separator_run_holds_separators(s: Seq<char>, p: nat)
    ensures
        forall|i: int| p <= i < p + separator_run(s, p) ==> is_separator(#[trigger] s[i]),
    decreases s.len() - p,
{
    if p < s.len() && is_separator(s[p as int]) {
        lemma_separator_run_holds_separators(s, p + 1);
    }
}

/// No token is empty.
pub proof fn lemma_tokens_are_not_empty(s: Seq<char>, p: nat)
    ensures
        forall|i: int| 0 <= i < tokens_from(s, p).len() ==> (#[trigger] tokens_from(s, p)[i]).len() > 0,
    decreases s.len() - p,
{
    let start = p + separator_run(s, p);
    if start < s.len() {
        let end = start + token_len(s, start);
        lemma_token_len_bounds(s, start);
        lemma_tokens_are_not_empty(s, end);
        assert forall|i: int| 0 <= i < tokens_from(s, p).len() implies (#[trigger] tokens_from(
            s,
            p,
        )[i]).len() > 0 by {
            if i > 0 {
                assert(tokens_from(s, p)[i] == tokens_from(s, end)[i - 1]);
            }
        }
    }
}

/// The place of the first character at `p` or after it that is no separator,
/// or the end of the text.
fn skip_separators(chars: &Vec<char>, p: usize) -> (end: usize)
    requires
        p <= chars.len(),
    ensures
        end == p + separator_run(chars@, p as nat),
        end <= chars.len(),
{
    let mut i: usize = p;
    while i < chars.len() && separator(chars[i])
        invariant
            p <= i <= chars.len(),
            p + separator_run(chars@, p as nat) == i + separator_run(chars@, i as nat),
        decreases chars.len() - i,
    {
        i += 1;
    }
    i
}

/// The place after the bare run that goes on at `p`.
fn scan_symbol(chars: &Vec<char>, p: usize) -> (end: usize)
    requires
        p <= chars.len(),
    ensures
        end == p + symbol_run(chars@, p as nat),
        end <= chars.len(),
{
    let mut i: usize = p;
    while i < chars.len() && symbol_char(chars[i])
        invariant
            p <= i <= chars.len(),
            p + symbol_run(chars@, p as nat) == i + symbol_run(chars@, i as nat),
        decreases chars.len() - i,
    {
        i += 1;
    }
    i
}

/// The place after the comment that goes on at `p`.
fn scan_line(chars: &Vec<char>, p: usize) -> (end: usize)
    requires
        p <= chars.len(),
    ensures
        end == p + line_run(chars@, p as nat),
        end <= chars.len(),
{
    let mut i: usize = p;
    while i < chars.len() && chars[i] != '\n'
        invariant
            p <= i <= chars.len(),
            p + line_run(chars@, p as nat) == i + line_run(chars@, i as nat),
        decreases chars.len() - i,
    {
        i += 1;
    }
    i
}

/// The place after the string literal that goes on at `p`.
fn scan_string(chars: &Vec<char>, p: usize) -> (end: usize)
    requires
        p <= chars.len(),
    ensures
        end == p + string_run(chars@, p as nat),
        end <= chars.len(),
{
    let n = chars.len();
    let mut i: usize = p;
    while i < n
        invariant
            n == chars.len(),
            p <= i <= n,
            p + string_run(chars@, p as nat) == i + string_run(chars@, i as nat),
        decreases n - i,
    {
        let c = chars[i];
        if c == '"' {
            return i + 1;
        } else if c == '\\' {
            if i + 1 < n {
                i += 2;
            } else {
                return i + 1;
            }
        } else {
            i += 1;
        }
    }
    i
}

/// The place after the token that starts at `p`.
fn scan_token(chars: &Vec<char>, p: usize) -> (end: usize)
    requires
        p < chars.len(),
    ensures
        end == p + token_len(chars@, p as nat),
        p < end <= chars.len(),
{
    let c = chars[p];
    if c == '~' && p + 1 < chars.len() && chars[p + 1] == '@' {
        p + 2
    } else if structural(c) {
        p + 1
    } else if c == '"' {
        scan_string(chars, p + 1)
    } else if c == ';' {
        scan_line(chars, p + 1)
    } else {
        scan_symbol(chars, p + 1)
    }
}

/// Cuts `input` into its tokens.
///
/// Separators are skipped and belong to no token; every token holds at least
/// one character; the tokens come in the order in which they stand in
/// `input`. A string literal that nothing closes is one token up to the end
/// of `input`, and a comment is a token like any other.
pub fn tokenize(input: &str) -> (tokens: Vec<Token>)
    ensures
        texts(tokens@) == tokens_of(input@),
        forall|i: int| 0 <= i < tokens.len() ==> (#[trigger] tokens[i])@.len() > 0,
{
    proof {
        lemma_tokens_are_not_empty(input@, 0);
    }
    let chars = chars_of(input);
    let n = chars.len();
    let mut tokens: Vec<Token> = Vec::new();
    let mut i: usize = 0;
    loop
        invariant
            n == chars.len(),
            chars@ == input@,
            i <= n,
            texts(tokens@) + tokens_from(chars@, i as nat) == tokens_of(input@),
        ensures
            texts(tokens@) == tokens_of(input@),
        decreases n - i,
    {
        let start = skip_separators(&chars, i);
        if start >= n {
            break ;
        }
        let end = scan_token(&chars, start);
        tokens.push(Token(string_of(&chars, start, end)));
        i = end;
    }
    assert forall|i: int| 0 <= i < tokens.len() implies (#[trigger] tokens[i])@.len() > 0 by {
        assert(texts(tokens@)[i] == tokens[i]@);
    }
    tokens
}

} // verus!
