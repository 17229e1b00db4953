use mal_reader::echo;
use mal_reader::integer::{integer_text, parse_integer};
use mal_reader::text::{chars_of, is_single, string_of};
use mal_reader::{eval, pr_str, print, read, read_str, rep, MalError, MalType};

fn num(n: isize) -> MalType {
    MalType::Integer(n)
}

fn sym(s: &str) -> MalType {
    MalType::Symbol(s.to_owned())
}

fn list(items: Vec<MalType>) -> MalType {
    MalType::List(items)
}

#[test]
fn integers_print_in_decimal() {
    assert_eq!(pr_str(&num(0)), "0");
    assert_eq!(pr_str(&num(7)), "7");
    assert_eq!(pr_str(&num(42)), "42");
    assert_eq!(pr_str(&num(-5)), "-5");
    assert_eq!(pr_str(&num(1000)), "1000");
    assert_eq!(pr_str(&num(-1090)), "-1090");
    assert_eq!(pr_str(&num(isize::MAX)), isize::MAX.to_string());
    assert_eq!(pr_str(&num(isize::MIN)), isize::MIN.to_string());
}

#[test]
fn integer_text_agrees_with_the_standard_formatter() {
    let values = [0, 1, -1, 9, 10, 11, 99, 100, 101, -9, -10, -100, 12345, -67890, isize::MAX,
        isize::MIN, isize::MAX - 1, isize::MIN + 1];
    for n in values {
        assert_eq!(integer_text(n), n.to_string());
        assert_eq!(parse_integer(&chars_of(&integer_text(n))), Some(n));
    }
}

#[test]
fn symbols_print_as_they_are() {
    assert_eq!(pr_str(&sym("abc")), "abc");
    assert_eq!(pr_str(&sym("")), "");
    assert_eq!(pr_str(&sym("a b")), "a b");
    assert_eq!(pr_str(&sym("\"q\\\"\"")), "\"q\\\"\"");
    assert_eq!(pr_str(&sym(")")), ")");
}

#[test]
fn lists_print_between_parentheses() {
    assert_eq!(pr_str(&list(vec![])), "()");
    assert_eq!(pr_str(&list(vec![num(1)])), "(1)");
    assert_eq!(pr_str(&list(vec![num(1), num(2)])), "(1 2)");
    assert_eq!(
        pr_str(&list(vec![num(1), list(vec![num(2), num(3)]), num(4)])),
        "(1 (2 3) 4)"
    );
    assert_eq!(pr_str(&list(vec![list(vec![]), list(vec![])])), "(() ())");
    assert_eq!(pr_str(&list(vec![sym("+"), num(-1), sym("x")])), "(+ -1 x)");
    assert_eq!(pr_str(&list(vec![sym(""), sym("")])), "( )");
}

#[test]
fn empty_list_reads_and_prints() {
    let term = read_str("()").unwrap();
    assert_eq!(term, list(vec![]));
    assert_eq!(pr_str(&term), "()");
}

#[test]
fn printing_and_reading_again_gives_the_same_text() {
    let terms = vec![
        num(0),
        num(-12),
        num(isize::MIN),
        sym("abc"),
        sym("+"),
        sym("~@"),
        sym("\"a b\""),
        sym(")"),
        list(vec![]),
        list(vec![num(1), list(vec![num(2), num(3)]), num(4)]),
        list(vec![sym("def!"), sym("x"), list(vec![sym("+"), num(1), num(-2)])]),
        list(vec![sym("["), sym("\"s (\""), sym("]"), list(vec![list(vec![])])]),
    ];
    for term in terms {
        let text = pr_str(&term);
        let again = read_str(&text).unwrap();
        assert_eq!(again, term);
        assert_eq!(pr_str(&again), text);
    }
}

#[test]
fn reading_and_printing_puts_text_in_one_shape() {
    assert_eq!(pr_str(&read_str("  ( 1,2 ,, (3   4) )  ").unwrap()), "(1 2 (3 4))");
    assert_eq!(pr_str(&read_str("+7").unwrap()), "7");
    assert_eq!(pr_str(&read_str("(007 -0)").unwrap()), "(7 0)");
    let once = pr_str(&read_str("(a (b c) \"d e\" 12)").unwrap());
    assert_eq!(pr_str(&read_str(&once).unwrap()), once);
}

#[test]
fn clone_gives_an_equal_term() {
    let term = list(vec![num(1), list(vec![sym("a"), list(vec![])]), sym("b")]);
    assert_eq!(term.clone(), term);
    assert_eq!(num(3).clone(), num(3));
    assert_eq!(sym("x").clone(), sym("x"));
}

#[test]
fn stages() {
    assert_eq!(read("(1 2)"), Ok(list(vec![num(1), num(2)])));
    assert_eq!(read("(1 2"), Err(MalError::Eof));
    let term = list(vec![sym("a"), num(1)]);
    assert_eq!(eval(&term), term);
    assert_eq!(print(&term), "(a 1)");
}

#[test]
fn rep_reads_and_prints() {
    assert_eq!(rep("(1 (2 3) 4)"), Ok("(1 (2 3) 4)".to_owned()));
    assert_eq!(rep("  abc  "), Ok("abc".to_owned()));
    assert_eq!(rep("( + 1,2 )"), Ok("(+ 1 2)".to_owned()));
    assert_eq!(rep("-5"), Ok("-5".to_owned()));
    assert_eq!(rep("()"), Ok("()".to_owned()));
    assert_eq!(rep("(1 2"), Err(MalError::Eof));
    assert_eq!(rep(""), Err(MalError::Eof));
}

#[test]
fn echo_gives_the_line_back() {
    assert_eq!(echo::read("(1 2"), "(1 2");
    assert_eq!(echo::eval("abc"), "abc");
    assert_eq!(echo::print(""), "");
    assert_eq!(echo::rep("hello, world\n"), "hello, world\n");
}

#[test]
fn text_helpers() {
    assert_eq!(chars_of("aλ→"), vec!['a', 'λ', '→']);
    assert_eq!(chars_of(""), Vec::<char>::new());
    let chars = chars_of("hello");
    assert_eq!(string_of(&chars, 1, 4), "ell");
    assert_eq!(string_of(&chars, 2, 2), "");
    assert_eq!(string_of(&chars, 0, 5), "hello");
    assert!(is_single("(", '('));
    assert!(!is_single("(", ')'));
    assert!(!is_single("", '('));
    assert!(!is_single("((", '('));
    assert!(!is_single("(a", '('));
}

#[test]
fn the_error_has_its_words() {
    assert_eq!(MalError::Eof.message(), "EOF");
    assert_eq!(rep("(").map_err(|e| e.message()), Err("EOF"));
}

#[test]
fn a_comment_inside_a_list_does_not_read_back() {
    let term = read_str("(a ;c\n)").unwrap();
    assert_eq!(term, list(vec![sym("a"), sym(";c")]));
    assert_eq!(pr_str(&term), "(a ;c)");
    assert_eq!(read_str("(a ;c)"), Err(MalError::Eof));
}

#[test]
fn one_token_alone_reads_back_as_its_symbol() {
    for text in [";c", "; a (comment", "\"open", "\"open\\", ")", "]", "~@", "\"closed\""] {
        let term = read_str(text).unwrap();
        assert_eq!(term, sym(text));
        assert_eq!(pr_str(&term), text);
    }
}
