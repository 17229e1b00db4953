use mal_reader::tokenize;
use regex::Regex;

/// The pattern that is commonly used to cut this notation into tokens, the
/// token being the first group.
const PATTERN: &str = r#"[\s,]*(~@|[\[\]{}()'`~^@]|"(?:\\.|[^\\"])*"?|;.*|[^\s\[\]{}('"`,;)]+)"#;

fn by_pattern(pattern: &Regex, input: &str) -> Vec<String> {
    pattern.captures_iter(input).map(|c| c[1].to_owned()).collect()
}

fn by_grammar(input: &str) -> Vec<String> {
    tokenize(input).into_iter().map(|t| t.0).collect()
}

/// The two places where the pattern and the grammar part ways: the pattern
/// lets `~`, `^` and `@` go on in a bare run, and in a string literal it
/// takes a backslash for an escape only where a character other than a line
/// break follows.
fn apart(input: &str, tokens: &[String]) -> bool {
    input.contains("\\\n") || input.ends_with('\\') || tokens.iter().any(|t| {
        let first = t.chars().next().unwrap();
        !"[]{}()'`~^@\";".contains(first) && t.contains(['~', '^', '@'])
    })
}

fn check_all(pattern: &Regex, alphabet: &[char], length: usize, input: &mut String, seen: &mut usize) {
    let expected = by_pattern(pattern, input);
    if !apart(input, &expected) {
        assert_eq!(by_grammar(input), expected, "input {:?}", input);
        *seen += 1;
    }
    if length == 0 {
        return;
    }
    for c in alphabet {
        input.push(*c);
        check_all(pattern, alphabet, length - 1, input, seen);
        input.pop();
    }
}

#[test]
fn agrees_with_the_pattern_on_every_short_input() {
    let pattern = Regex::new(PATTERN).unwrap();
    let alphabet = [' ', ',', '\n', '(', ')', '~', '@', '"', '\\', ';', 'a', '1'];
    let mut seen = 0;
    check_all(&pattern, &alphabet, 4, &mut String::new(), &mut seen);
    assert!(seen > 15000);
}

#[test]
fn agrees_with_the_pattern_on_longer_inputs() {
    let pattern = Regex::new(PATTERN).unwrap();
    let inputs = [
        "(def! fib (fn* (n) (if (< n 2) n (+ (fib (- n 1)) (fib (- n 2))))))",
        "  ( + 1,2 ,,, 3 ) ; and a comment\n(next line)",
        "'(1 `(2 ~x ~@ys) ^{:a 1} @atom)",
        "[1 2 {\"key\" \"a \\\"quoted\\\" value\"}]",
        "\"never closed ( ; , ~@",
        "\"a\\\\\" \"b\\\\\\\"\" c",
        ";; only a comment",
        "\u{a0}x\u{2003}y\u{3000}z\u{85}",
        "-12 +34 5.6 :kw sym-bol? *star* <= λ",
        "\"line one\nline two\" after",
        "",
        " , \t\r\n",
    ];
    for input in inputs {
        let expected = by_pattern(&pattern, input);
        assert!(!apart(input, &expected));
        assert_eq!(by_grammar(input), expected, "input {:?}", input);
    }
}

#[test]
fn parts_from_the_pattern_where_the_grammar_says_so() {
    let pattern = Regex::new(PATTERN).unwrap();
    assert_eq!(by_pattern(&pattern, "a~b"), vec!["a~b"]);
    assert_eq!(by_grammar("a~b"), vec!["a", "~", "b"]);
    assert_eq!(by_pattern(&pattern, "\"a\\"), vec!["\"a", "\\"]);
    assert_eq!(by_grammar("\"a\\"), vec!["\"a\\"]);
    assert_eq!(by_pattern(&pattern, "\"a\\\nb\""), vec!["\"a", "\\", "b", "\""]);
    assert_eq!(by_grammar("\"a\\\nb\""), vec!["\"a\\\nb\""]);
}
