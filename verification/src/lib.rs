//! A reader and printer for a small Lisp notation.
//!
//! Source text is cut into tokens, the tokens are assembled into one term
//! (an integer, a symbol or a list of terms), and a term is rendered back to
//! text. Every function carries a contract over a mathematical model of the
//! text (`Seq<char>`), of the tokens (`Seq<Seq<char>>`) and of the terms
//! (`Term`).

pub mod charset;
pub mod echo;
pub mod integer;
pub mod lexeme;
pub mod printer;
pub mod reader;
pub mod rep;
pub mod roundtrip;
pub mod text;
pub mod tokenizer;
pub mod types;

pub use crate::printer::pr_str;
pub use crate::reader::{read_atom, read_form, read_list, read_str, Reader};
pub use crate::rep::{eval, print, read, rep};
pub use crate::tokenizer::{tokenize, Token};
pub use crate::types::{MalError, MalType};
