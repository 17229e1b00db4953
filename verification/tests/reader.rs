use mal_reader::{
    read_atom, read_form, read_list, read_str, tokenize, MalError, MalType, Reader, Token,
};

fn num(n: isize) -> MalType {
    MalType::Integer(n)
}

fn sym(s: &str) -> MalType {
    MalType::Symbol(s.to_owned())
}

fn list(items: Vec<MalType>) -> MalType {
    MalType::List(items)
}

fn cursor(texts: &[&str]) -> Reader {
    Reader::new(texts.iter().map(|t| Token((*t).to_owned())).collect())
}

#[test]
fn test_read_str() {
    let input = "(1 2";
    assert_eq!(read_str(input), Err(MalError::Eof));
}

#[test]
fn no_token_is_eof() {
    assert_eq!(read_str(""), Err(MalError::Eof));
    assert_eq!(read_str("   "), Err(MalError::Eof));
    assert_eq!(read_str(" , , , "), Err(MalError::Eof));
}

#[test]
fn unterminated_lists_are_eof() {
    assert_eq!(read_str("("), Err(MalError::Eof));
    assert_eq!(read_str("(1 2"), Err(MalError::Eof));
    assert_eq!(read_str("(1 (2 3)"), Err(MalError::Eof));
    assert_eq!(read_str("((("), Err(MalError::Eof));
    assert_eq!(read_str("(1 \"2)"), Err(MalError::Eof));
    assert_eq!(read_str("(1 ;2)"), Err(MalError::Eof));
}

#[test]
fn atoms_are_integers_or_symbols() {
    assert_eq!(read_str("42"), Ok(num(42)));
    assert_eq!(read_str("abc"), Ok(sym("abc")));
    assert_eq!(read_str("-5"), Ok(num(-5)));
    assert_eq!(read_str("+5"), Ok(num(5)));
    assert_eq!(read_str("0"), Ok(num(0)));
    assert_eq!(read_str("-0"), Ok(num(0)));
    assert_eq!(read_str("007"), Ok(num(7)));
    assert_eq!(read_str("  12  "), Ok(num(12)));
}

#[test]
fn what_is_no_integer_literal_is_a_symbol() {
    assert_eq!(read_str("-"), Ok(sym("-")));
    assert_eq!(read_str("+"), Ok(sym("+")));
    assert_eq!(read_str("--5"), Ok(sym("--5")));
    assert_eq!(read_str("+-5"), Ok(sym("+-5")));
    assert_eq!(read_str("5-"), Ok(sym("5-")));
    assert_eq!(read_str("1.5"), Ok(sym("1.5")));
    assert_eq!(read_str("1e3"), Ok(sym("1e3")));
    assert_eq!(read_str("1_000"), Ok(sym("1_000")));
    assert_eq!(read_str("12a"), Ok(sym("12a")));
    assert_eq!(read_str("٣"), Ok(sym("٣")));
    assert_eq!(read_str("\"12\""), Ok(sym("\"12\"")));
    assert_eq!(read_str(";12"), Ok(sym(";12")));
    assert_eq!(read_str("~@"), Ok(sym("~@")));
    assert_eq!(read_str("["), Ok(sym("[")));
}

#[test]
fn integers_go_as_far_as_isize() {
    assert_eq!(read_str(&isize::MAX.to_string()), Ok(num(isize::MAX)));
    assert_eq!(read_str(&isize::MIN.to_string()), Ok(num(isize::MIN)));
    assert_eq!(read_str(&format!("+{}", isize::MAX)), Ok(num(isize::MAX)));
    assert_eq!(read_str(&format!("000{}", isize::MAX)), Ok(num(isize::MAX)));
    let above = (isize::MAX as i128 + 1).to_string();
    assert_eq!(read_str(&above), Ok(sym(&above)));
    let below = (isize::MIN as i128 - 1).to_string();
    assert_eq!(read_str(&below), Ok(sym(&below)));
    let long = "9".repeat(60);
    assert_eq!(read_str(&long), Ok(sym(&long)));
    let long_zero = "0".repeat(60);
    assert_eq!(read_str(&long_zero), Ok(num(0)));
    let mut padded = "-".to_owned();
    padded.push_str(&"0".repeat(60));
    padded.push_str("17");
    assert_eq!(read_str(&padded), Ok(num(-17)));
}

#[test]
fn integer_literals_agree_with_the_standard_parser() {
    let texts = [
        "0", "1", "-1", "+1", "10", "-10", "99", "100", "-", "+", "", "1-", "-+1", "0x10", " 1",
        "2147483647", "2147483648", "-2147483648", "-2147483649", "9223372036854775807",
        "9223372036854775808", "-9223372036854775808", "-9223372036854775809",
        "18446744073709551616", "00000000000000000000000000042", "١٢٣",
    ];
    for text in texts {
        if tokenize(text).len() != 1 || tokenize(text)[0].0 != text {
            continue;
        }
        let expected = match text.parse::<isize>() {
            Ok(n) => num(n),
            Err(_) => sym(text),
        };
        assert_eq!(read_str(text), Ok(expected));
    }
}

#[test]
fn empty_list() {
    assert_eq!(read_str("()"), Ok(list(vec![])));
    assert_eq!(read_str("( )"), Ok(list(vec![])));
    assert_eq!(read_str(" ( , ) "), Ok(list(vec![])));
}

#[test]
fn nested_lists() {
    assert_eq!(
        read_str("(1 (2 3) 4)"),
        Ok(list(vec![num(1), list(vec![num(2), num(3)]), num(4)]))
    );
    assert_eq!(read_str("(())"), Ok(list(vec![list(vec![])])));
    assert_eq!(
        read_str("(() (()) a)"),
        Ok(list(vec![list(vec![]), list(vec![list(vec![])]), sym("a")]))
    );
    assert_eq!(
        read_str("(+ 1 (* 2 -3))"),
        Ok(list(vec![sym("+"), num(1), list(vec![sym("*"), num(2), num(-3)])]))
    );
}

#[test]
fn lists_keep_every_other_token_as_an_atom() {
    assert_eq!(
        read_str("([1] {2} 'a `b ~c ~@d ^e @f \"s\")"),
        Ok(list(vec![
            sym("["),
            num(1),
            sym("]"),
            sym("{"),
            num(2),
            sym("}"),
            sym("'"),
            sym("a"),
            sym("`"),
            sym("b"),
            sym("~"),
            sym("c"),
            sym("~@"),
            sym("d"),
            sym("^"),
            sym("e"),
            sym("@"),
            sym("f"),
            sym("\"s\""),
        ]))
    );
    assert_eq!(read_str("(a ;c\n b)"), Ok(list(vec![sym("a"), sym(";c"), sym("b")])));
}

#[test]
fn only_the_first_form_is_read() {
    assert_eq!(read_str("1 2"), Ok(num(1)));
    assert_eq!(read_str("(1) (2"), Ok(list(vec![num(1)])));
    assert_eq!(read_str("a )"), Ok(sym("a")));
    assert_eq!(read_str("() )"), Ok(list(vec![])));
}

#[test]
fn a_close_marker_outside_a_list_is_a_symbol() {
    assert_eq!(read_str(")"), Ok(sym(")")));
    assert_eq!(read_str(") 1"), Ok(sym(")")));
}

#[test]
fn a_failed_read_leaves_nothing_behind() {
    assert_eq!(read_str("(1 2"), Err(MalError::Eof));
    assert_eq!(read_str("(1 2)"), Ok(list(vec![num(1), num(2)])));
    assert_eq!(read_str("3)"), Ok(num(3)));
}

#[test]
fn cursor_hands_out_tokens_in_order() {
    let mut reader = cursor(&["(", "a", ")"]);
    assert_eq!(reader.peek(), Some(&Token("(".to_owned())));
    assert_eq!(reader.peek(), Some(&Token("(".to_owned())));
    assert_eq!(reader.next(), Some(Token("(".to_owned())));
    assert_eq!(reader.peek(), Some(&Token("a".to_owned())));
    assert_eq!(reader.next(), Some(Token("a".to_owned())));
    assert_eq!(reader.next(), Some(Token(")".to_owned())));
    assert_eq!(reader.peek(), None);
    assert_eq!(reader.next(), None);
    assert_eq!(reader.next(), None);
    assert_eq!(reader.peek(), None);
}

#[test]
fn cursor_over_nothing() {
    let mut reader = Reader::new(vec![]);
    assert_eq!(reader.peek(), None);
    assert_eq!(reader.next(), None);
}

#[test]
fn read_atom_takes_one_token() {
    let mut reader = cursor(&["12", "ab", "(", ")", ""]);
    assert_eq!(read_atom(&mut reader), num(12));
    assert_eq!(read_atom(&mut reader), sym("ab"));
    assert_eq!(read_atom(&mut reader), sym("("));
    assert_eq!(read_atom(&mut reader), sym(")"));
    assert_eq!(read_atom(&mut reader), sym(""));
    assert_eq!(reader.peek(), None);
}

#[test]
fn read_form_moves_the_cursor_behind_the_form() {
    let mut reader = cursor(&["(", "1", "(", "2", ")", ")", "x", "(", "y"]);
    assert_eq!(read_form(&mut reader), Ok(list(vec![num(1), list(vec![num(2)])])));
    assert_eq!(reader.peek(), Some(&Token("x".to_owned())));
    assert_eq!(read_form(&mut reader), Ok(sym("x")));
    assert_eq!(read_form(&mut reader), Err(MalError::Eof));
    assert_eq!(reader.peek(), None);
    assert_eq!(read_form(&mut reader), Err(MalError::Eof));
}

#[test]
fn read_form_opens_a_list_only_at_the_open_marker() {
    let mut reader = cursor(&["(a", ")"]);
    assert_eq!(read_form(&mut reader), Ok(sym("(a")));
    assert_eq!(read_form(&mut reader), Ok(sym(")")));
    let mut empty_token = cursor(&["", "1"]);
    assert_eq!(read_form(&mut empty_token), Ok(sym("")));
    assert_eq!(read_form(&mut empty_token), Ok(num(1)));
}

#[test]
fn read_list_reads_up_to_the_close_marker() {
    let mut reader = cursor(&["1", "2", ")", "3"]);
    assert_eq!(read_list(&mut reader), Ok(list(vec![num(1), num(2)])));
    assert_eq!(reader.peek(), Some(&Token("3".to_owned())));
    let mut at_once = cursor(&[")"]);
    assert_eq!(read_list(&mut at_once), Ok(list(vec![])));
    assert_eq!(at_once.peek(), None);
    let mut open = cursor(&["1", "(", "2", ")"]);
    assert_eq!(read_list(&mut open), Err(MalError::Eof));
    assert_eq!(open.peek(), None);
    let mut nothing = cursor(&[]);
    assert_eq!(read_list(&mut nothing), Err(MalError::Eof));
}

#[test]
fn deep_nesting() {
    let depth = 200;
    let mut input = "(".repeat(depth);
    input.push_str(&")".repeat(depth));
    let mut expected = list(vec![]);
    for _ in 1..depth {
        expected = list(vec![expected]);
    }
    assert_eq!(read_str(&input), Ok(expected));
    assert_eq!(read_str(&input[..input.len() - 1]), Err(MalError::Eof));
}

#[test]
fn the_close_marker_is_no_item() {
    fn holds_close(term: &MalType) -> bool {
        match term {
            MalType::List(items) => {
                items.iter().any(|item| *item == sym(")") || holds_close(item))
            }
            _ => false,
        }
    }
    for input in ["()", "(a)", "(a (b) c)", "((()))", "(a ) b)", "(( ) )", "([ ] { })"] {
        let term = read_str(input).unwrap();
        assert!(!holds_close(&term), "input {:?}", input);
    }
    assert_eq!(read_str("(a ) b)"), Ok(list(vec![sym("a")])));
}

#[test]
fn a_form_cut_short_is_eof_and_a_longer_text_reads_the_same() {
    for input in ["(1 (2 3) 4)", "((a) (b (c)) ())", "(+ 1 2)", "x", "()"] {
        let whole = read_str(input).unwrap();
        let texts: Vec<String> = tokenize(input).into_iter().map(|t| t.0).collect();
        for k in 0..texts.len() {
            let front: Vec<&str> = texts[..k].iter().map(|t| t.as_str()).collect();
            assert_eq!(read_form(&mut cursor(&front)), Err(MalError::Eof), "{:?}", front);
        }
        let mut longer: Vec<&str> = texts.iter().map(|t| t.as_str()).collect();
        longer.extend(["(", "more", ")", ")"]);
        let mut reader = cursor(&longer);
        assert_eq!(read_form(&mut reader), Ok(whole));
        assert_eq!(reader.peek(), Some(&Token("(".to_owned())));
    }
}
