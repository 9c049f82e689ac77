use sul::{tokenize, LispType, Location, Token, TokenType};

fn same_value(a: &LispType, b: &LispType) -> bool {
    match (a, b) {
        (LispType::Integer(x), LispType::Integer(y)) => x == y,
        (LispType::Str(x), LispType::Str(y)) => x == y,
        (LispType::Floating(x), LispType::Floating(y)) => x == y,
        (LispType::Nil, LispType::Nil) => true,
        _ => false,
    }
}

fn same_token(a: &Token, b: &Token) -> bool {
    a.loc == b.loc
        && match (&a.dat, &b.dat) {
            (TokenType::OpenParens, TokenType::OpenParens) => true,
            (TokenType::CloseParens, TokenType::CloseParens) => true,
            (TokenType::Recognizable(x), TokenType::Recognizable(y)) => same_value(x, y),
            (TokenType::Ident(x), TokenType::Ident(y)) => x == y,
            _ => false,
        }
}

fn assert_same_tokens(expected: &[Token], found: &[Token]) {
    assert_eq!(expected.len(), found.len(), "{:?} against {:?}", expected, found);
    for (e, f) in expected.iter().zip(found.iter()) {
        assert!(same_token(e, f), "{:?} against {:?}", e, f);
    }
}

fn at(file: &str, line: usize, col: usize, dat: TokenType) -> Token {
    Token { loc: Location { filename: file.to_string(), line, col }, dat }
}

fn number(i: isize) -> TokenType {
    TokenType::Recognizable(LispType::Integer(i))
}

fn ident(s: &str) -> TokenType {
    TokenType::Ident(s.to_string())
}

#[test]
fn test_tokenizer() {
    let expected_res = [
        Token {
            loc: Location { filename: "-".to_string(), line: 0, col: 0 },
            dat: TokenType::OpenParens,
        },
        Token {
            loc: Location { filename: "-".to_string(), line: 0, col: 1 },
            dat: TokenType::Ident("+".to_string()),
        },
        Token {
            loc: Location { filename: "-".to_string(), line: 0, col: 3 },
            dat: TokenType::OpenParens,
        },
        Token {
            loc: Location { filename: "-".to_string(), line: 0, col: 4 },
            dat: TokenType::Ident("-".to_string()),
        },
        Token {
            loc: Location { filename: "-".to_string(), line: 0, col: 6 },
            dat: TokenType::Recognizable(LispType::Integer(1)),
        },
        Token {
            loc: Location { filename: "-".to_string(), line: 0, col: 8 },
            dat: TokenType::Recognizable(LispType::Integer(23)),
        },
        Token {
            loc: Location { filename: "-".to_string(), line: 0, col: 11 },
            dat: TokenType::Recognizable(LispType::Integer(23423423)),
        },
        Token {
            loc: Location { filename: "-".to_string(), line: 0, col: 19 },
            dat: TokenType::CloseParens,
        },
        Token {
            loc: Location { filename: "-".to_string(), line: 0, col: 21 },
            dat: TokenType::Recognizable(LispType::Str("sliijioo".to_string())),
        },
        Token {
            loc: Location { filename: "-".to_string(), line: 0, col: 31 },
            dat: TokenType::CloseParens,
        },
    ];
    let found = tokenize("(+ (- 1 23 23423423) \"sliijioo\")", "-").unwrap();
    assert_same_tokens(&expected_res, &found);
}

#[test]
fn tokens_of_a_sum() {
    let found = tokenize("(+ 34 35)", "-").unwrap();
    let expected = [
        at("-", 0, 0, TokenType::OpenParens),
        at("-", 0, 1, ident("+")),
        at("-", 0, 3, number(34)),
        at("-", 0, 6, number(35)),
        at("-", 0, 8, TokenType::CloseParens),
    ];
    assert_same_tokens(&expected, &found);
}

#[test]
fn empty_source_has_no_tokens() {
    assert!(tokenize("", "f").unwrap().is_empty());
    assert!(tokenize("   \n \t \n", "f").unwrap().is_empty());
}

#[test]
fn columns_count_from_the_trimmed_line() {
    let found = tokenize("   (a)  \n\t(b)", "f").unwrap();
    let expected = [
        at("f", 0, 0, TokenType::OpenParens),
        at("f", 0, 1, ident("a")),
        at("f", 0, 2, TokenType::CloseParens),
        at("f", 1, 0, TokenType::OpenParens),
        at("f", 1, 1, ident("b")),
        at("f", 1, 2, TokenType::CloseParens),
    ];
    assert_same_tokens(&expected, &found);
}

#[test]
fn columns_are_byte_offsets() {
    let found = tokenize("(é x)", "f").unwrap();
    let expected = [
        at("f", 0, 0, TokenType::OpenParens),
        at("f", 0, 1, ident("é")),
        at("f", 0, 4, ident("x")),
        at("f", 0, 5, TokenType::CloseParens),
    ];
    assert_same_tokens(&expected, &found);
}

#[test]
fn open_paren_does_not_end_a_pending_token() {
    let found = tokenize("ab(cd)", "f").unwrap();
    let expected = [
        at("f", 0, 2, TokenType::OpenParens),
        at("f", 0, 3, ident("abcd")),
        at("f", 0, 5, TokenType::CloseParens),
    ];
    assert_same_tokens(&expected, &found);
}

#[test]
fn text_without_an_end_is_no_token() {
    assert!(tokenize("abc", "f").unwrap().is_empty());
    assert!(tokenize("\"abc", "f").unwrap().is_empty());
}

#[test]
fn a_pending_token_goes_on_over_lines() {
    let found = tokenize("ab\ncd )", "f").unwrap();
    let expected = [at("f", 0, 0, ident("abcd")), at("f", 1, 3, TokenType::CloseParens)];
    assert_same_tokens(&expected, &found);
}

#[test]
fn carriage_returns_end_lines_too() {
    let found = tokenize("(a\r\nb )\r\n", "f").unwrap();
    let expected = [
        at("f", 0, 0, TokenType::OpenParens),
        at("f", 0, 1, ident("ab")),
        at("f", 1, 2, TokenType::CloseParens),
    ];
    assert_same_tokens(&expected, &found);
}

#[test]
fn a_quote_starts_anew() {
    let found = tokenize("ab\"c d\" e )", "f").unwrap();
    let expected = [
        at("f", 0, 2, TokenType::Recognizable(LispType::Str("c d".to_string()))),
        at("f", 0, 7, ident("e")),
        at("f", 0, 10, TokenType::CloseParens),
    ];
    assert_same_tokens(&expected, &found);
}

#[test]
fn string_keeps_parentheses_and_spaces() {
    let found = tokenize("(print \"( a )\")", "f").unwrap();
    let expected = [
        at("f", 0, 0, TokenType::OpenParens),
        at("f", 0, 1, ident("print")),
        at("f", 0, 7, TokenType::Recognizable(LispType::Str("( a )".to_string()))),
        at("f", 0, 14, TokenType::CloseParens),
    ];
    assert_same_tokens(&expected, &found);
}

#[test]
fn empty_string_literal() {
    let found = tokenize("\"\" ", "f").unwrap();
    let expected = [at("f", 0, 0, TokenType::Recognizable(LispType::Str(String::new())))];
    assert_same_tokens(&expected, &found);
}

#[test]
fn close_paren_after_spaces_stands_at_the_pending_start() {
    let found = tokenize("(a   )", "f").unwrap();
    let expected = [
        at("f", 0, 0, TokenType::OpenParens),
        at("f", 0, 1, ident("a")),
        at("f", 0, 3, TokenType::CloseParens),
    ];
    assert_same_tokens(&expected, &found);
}

#[test]
fn open_paren_after_spaces_stands_where_it_is() {
    let found = tokenize("(   (", "f").unwrap();
    let expected = [at("f", 0, 0, TokenType::OpenParens), at("f", 0, 4, TokenType::OpenParens)];
    assert_same_tokens(&expected, &found);
}

#[test]
fn tabs_are_no_separators() {
    let found = tokenize("(a\tb \t )", "f").unwrap();
    let expected = [
        at("f", 0, 0, TokenType::OpenParens),
        at("f", 0, 1, ident("a\tb")),
        at("f", 0, 5, TokenType::CloseParens),
    ];
    assert_same_tokens(&expected, &found);
}

#[test]
fn capacity_is_a_fifth_of_the_bytes() {
    assert_eq!(sul::lexer::guess_capacity(""), 0);
    assert_eq!(sul::lexer::guess_capacity("(+ 34 35)"), 1);
    assert_eq!(sul::lexer::guess_capacity("ééééé"), 2);
}
