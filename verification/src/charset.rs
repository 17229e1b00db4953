//! Character classes of the notation.

use vstd::prelude::*;

verus! {

/// The code points with the Unicode property `White_Space`.
pub open spec fn is_whitespace(c: char) -> bool {
    let u = c as u32;
    ||| 0x09 <= u <= 0x0d
    ||| u == 0x20
    ||| u == 0x85
    ||| u == 0xa0
    ||| u == 0x1680
    ||| 0x2000 <= u <= 0x200a
    ||| u == 0x2028
    ||| u == 0x2029
    ||| u == 0x202f
    ||| u == 0x205f
    ||| u == 0x3000
}

/// What stands between tokens and belongs to none: whitespace and commas.
pub open spec fn is_separator(c: char) -> bool {
    is_whitespace(c) || c == ','
}

/// The characters that are a token by themselves wherever they stand.
pub open spec fn is_structural(c: char) -> bool {
    ||| c == '['
    ||| c == ']'
    ||| c == '{'
    ||| c == '}'
    ||| c == '('
    ||| c == ')'
    ||| c == '\''
    ||| c == '`'
    ||| c == '~'
    ||| c == '^'
    ||| c == '@'
}

/// The characters that a bare run (a symbol, a number, a keyword) is made of:
/// everything but separators, structural characters, the double quote and the
/// semicolon.
pub open spec fn is_symbol_char(c: char) -> bool {
    &&& !is_separator(c)
    &&& !is_structural(c)
    &&& c != '"'
    &&& c != ';'
}

/// Decides `is_whitespace`.
pub fn whitespace(c: char) -> (b: bool)
    ensures
        b == is_whitespace(c),
{
    let u: u32 = c as u32;
    (0x09 <= u && u <= 0x0d) || u == 0x20 || u == 0x85 || u == 0xa0 || u == 0x1680 || (0x2000 <= u
        && u <= 0x200a) || u == 0x2028 || u == 0x2029 || u == 0x202f || u == 0x205f || u == 0x3000
}

/// Decides `is_separator`.
pub fn separator(c: char) -> (b: bool)
    ensures
        b == is_separator(c),
{
    c == ',' || whitespace(c)
}

/// Decides `is_structural`.
pub fn structural(c: char) -> (b: bool)
    ensures
        b == is_structural(c),
{
    c == '[' || c == ']' || c == '{' || c == '}' || c == '(' || c == ')' || c == '\'' || c == '`'
        || c == '~' || c == '^' || c == '@'
}

/// Decides `is_symbol_char`.
pub fn symbol_char(c: char) -> (b: bool)
    ensures
        b == is_symbol_char(c),
{
    !separator(c) && !structural(c) && c != '"' && c != ';'
}

} // verus!
