use rusty_scheme::tokenize;
use rusty_scheme::Token::{Boolean, CloseParen, Identifier, Integer, OpenParen, Quote, String};

fn id(s: &str) -> rusty_scheme::Token {
    Identifier(s.to_string())
}

#[test]
fn test_simple_lexing() {
    assert_eq!(tokenize("(+ 2 3)").unwrap(),
               vec![OpenParen, id("+"), Integer(2), Integer(3), CloseParen]);
}

#[test]
fn test_multi_digit_integers() {
    assert_eq!(tokenize("(+ 21 325)").unwrap(),
               vec![OpenParen, id("+"), Integer(21), Integer(325), CloseParen]);
}

#[test]
fn test_subtraction() {
    assert_eq!(tokenize("(- 7 42)").unwrap(),
               vec![OpenParen, id("-"), Integer(7), Integer(42), CloseParen]);
}

#[test]
fn test_negative_integers() {
    assert_eq!(tokenize("(+ -8 +2 -33)").unwrap(),
               vec![OpenParen, id("+"), Integer(-8), Integer(2), Integer(-33), CloseParen]);
}

#[test]
fn test_booleans() {
    assert_eq!(tokenize("#t").unwrap(),
               vec![Boolean(true)]);
    assert_eq!(tokenize("#f").unwrap(),
               vec![Boolean(false)]);
}

#[test]
fn test_identifiers() {
    for identifier in ["*", "<", "<=", "if", "while", "$t$%*=:t059s"].iter() {
        assert_eq!(tokenize(*identifier).unwrap(),
                   vec![id(identifier)]);
    }
}

#[test]
fn test_strings() {
    assert_eq!(tokenize("\"hello\"").unwrap(),
               vec![String("hello".to_string())]);
    assert_eq!(tokenize("\"a _ $ snthoeau(*&G#$()*^!\"").unwrap(),
               vec![String("a _ $ snthoeau(*&G#$()*^!".to_string())]);
    assert_eq!(tokenize("\"truncated").err().unwrap().to_string().as_str(),
               "SyntaxError: Expected end quote, but found EOF instead (line: 1, column: 11)");
}

#[test]
fn test_whitespace() {
    assert_eq!(tokenize("(+ 1 1)\n(+\n    2\t2 \n )\r\n  \n").unwrap(),
               vec![OpenParen, id("+"), Integer(1), Integer(1), CloseParen,
                    OpenParen, id("+"), Integer(2), Integer(2), CloseParen]);
}

#[test]
fn test_bad_syntax() {
    assert_eq!(tokenize("(\\)").err().unwrap().to_string().as_str(),
               "SyntaxError: Unexpected character: \\ (line: 1, column: 2)");
}

#[test]
fn test_delimiter_checking() {
    assert_eq!(tokenize("(+-)").err().unwrap().to_string().as_str(),
               "SyntaxError: Unexpected character when looking for a delimiter: - (line: 1, column: 3)");

    assert_eq!(tokenize("(-22+)").err().unwrap().to_string().as_str(),
               "SyntaxError: Unexpected character when looking for a delimiter: + (line: 1, column: 5)");

    assert_eq!(tokenize("(22+)").err().unwrap().to_string().as_str(),
               "SyntaxError: Unexpected character when looking for a delimiter: + (line: 1, column: 4)");

    assert_eq!(tokenize("(+ 2 3)\n(+ 1 2-)").err().unwrap().to_string().as_str(),
               "SyntaxError: Unexpected character when looking for a delimiter: - (line: 2, column: 7)");
}

#[test]
fn test_quoting() {
    assert_eq!(tokenize("'(a)").unwrap(),
               vec![Quote, OpenParen, id("a"), CloseParen]);
    assert_eq!(tokenize("'('a 'b)").unwrap(),
               vec![Quote, OpenParen, Quote, id("a"), Quote, id("b"), CloseParen]);
    assert_eq!(tokenize("(list 'a b)").unwrap(),
               vec![OpenParen, id("list"), Quote, id("a"), id("b"), CloseParen]);
}

#[test]
fn test_complex_code_block() {
    assert_eq!(tokenize("(define (list-of-squares n)\n  (let loop ((i n) (res (list)))\n    (if (< i 0)\n        res\n        (loop (- i 1) (cons (* i i) res)))))").unwrap(),
               vec![OpenParen, id("define"), OpenParen, id("list-of-squares"), id("n"), CloseParen, OpenParen, id("let"), id("loop"), OpenParen, OpenParen, id("i"), id("n"), CloseParen, OpenParen, id("res"), OpenParen, id("list"), CloseParen, CloseParen, CloseParen, OpenParen, id("if"), OpenParen, id("<"), id("i"), Integer(0), CloseParen, id("res"), OpenParen, id("loop"), OpenParen, id("-"), id("i"), Integer(1), CloseParen, OpenParen, id("cons"), OpenParen, id("*"), id("i"), id("i"), CloseParen, id("res"), CloseParen, CloseParen, CloseParen, CloseParen, CloseParen]);
}

#[test]
fn lexes_integer_limits() {
    assert_eq!(tokenize("9223372036854775807 -9223372036854775808").unwrap(),
               vec![Integer(i64::MAX), Integer(i64::MIN)]);
}

#[test]
fn rejects_integer_out_of_range() {
    assert_eq!(tokenize("(+ 1 9223372036854775808)").err().unwrap().to_string().as_str(),
               "SyntaxError: Integer literal out of range (line: 1, column: 6)");
    assert_eq!(tokenize("-9223372036854775809").err().unwrap().to_string().as_str(),
               "SyntaxError: Integer literal out of range (line: 1, column: 1)");
}

#[test]
fn rejects_bad_boolean() {
    assert_eq!(tokenize("#x").err().unwrap().to_string().as_str(),
               "SyntaxError: Unexpected character when looking for t/f (line: 1, column: 2)");
    assert_eq!(tokenize("#").err().unwrap().to_string().as_str(),
               "SyntaxError: Unexpected character when looking for t/f (line: 1, column: 2)");
}

#[test]
fn lexes_empty_input_and_parens_after_tokens() {
    assert_eq!(tokenize("").unwrap(), vec![]);
    assert_eq!(tokenize("(#t)").unwrap(), vec![OpenParen, Boolean(true), CloseParen]);
    assert_eq!(tokenize("(\"x\")").unwrap(), vec![OpenParen, String("x".to_string()), CloseParen]);
}

#[test]
fn reports_columns_after_newlines() {
    let e = tokenize("a\n\nb ~").err().unwrap();
    assert_eq!(e.line, 3);
    assert_eq!(e.column, 3);
    assert_eq!(e.message, "Unexpected character: ~");
}
