//! Moving between `str`, `String` and vectors of characters.

use vstd::prelude::*;

verus! {

/// The characters of `text`, in order.
pub fn chars_of(text: &str) -> (chars: Vec<char>)
    ensures
        chars@ == text@,
{
    let mut chars: Vec<char> = Vec::new();
    for c in it: text.chars()
        invariant
            it.seq() == text@,
            chars@ == it.seq().take(it.index()),
    {
        chars.push(c);
    }
    chars
}

/// Whether `text` is the one character `c` and nothing else.
pub fn is_single(text: &str, c: char) -> (b: bool)
    ensures
        b == (text@ == seq![c]),
{
    let mut it = text.chars();
    let first = it.next();
    let second = it.next();
    let b = match first {
        Some(x) => x == c && second.is_none(),
        None => false,
    };
    assert(b ==> text@ =~= seq![c]);
    b
}

/// `String::push` of the standard library: appends the one character `c` to
/// `text` and leaves what was there in place.
#[verifier::external_body]
pub(crate) fn push_char(text: &mut String, c: char)
    ensures
        final(text)@ == old(text)@.push(c),
{
    text.push(c)
}

/// The characters `chars[from..to]` as a `String`.
pub fn string_of(chars: &Vec<char>, from: usize, to: usize) -> (text: String)
    requires
        from <= to <= chars.len(),
    ensures
        text@ == chars@.subrange(from as int, to as int),
{
    let mut text = String::new();
    let mut i: usize = from;
    while i < to
        invariant
            from <= i <= to <= chars.len(),
            text@ == chars@.subrange(from as int, i as int),
        decreases to - i,
    {
        push_char(&mut text, chars[i]);
        i += 1;
    }
    text
}

} // verus!
