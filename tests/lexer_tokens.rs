use lexer::{lookup_ident, Lexer, Token};

fn lex_all(input: &str) -> Vec<Token> {
    let mut l = Lexer::new(input);
    let mut out = Vec::new();
    loop {
        let t = l.next_token();
        let end = t == Token::EOF;
        out.push(t);
        if end {
            return out;
        }
    }
}

fn ident(s: &str) -> Token {
    Token::Ident(s.to_string())
}

#[test]
fn test_next_token() {
    let input = r#"let five = 5;
let ten = 10;

let add = fn(x, y) {
    x + y;
}

let result = add(five, ten);"#;

    let tests = vec![
        Token::Let,
        Token::Ident("five".to_string()),
        Token::Assign,
        Token::Int(5),
        Token::Semicolon,
        Token::Let,
        Token::Ident("ten".to_string()),
        Token::Assign,
        Token::Int(10),
        Token::Semicolon,
        Token::Let,
        Token::Ident("add".to_string()),
        Token::Assign,
        Token::Function,
        Token::Lparen,
        Token::Ident("x".to_string()),
        Token::Comma,
        Token::Ident("y".to_string()),
        Token::Rparen,
        Token::Lbrace,
        Token::Ident("x".to_string()),
        Token::Plus,
        Token::Ident("y".to_string()),
        Token::Semicolon,
        Token::Rbrace,
        Token::Let,
        Token::Ident("result".to_string()),
        Token::Assign,
        Token::Ident("add".to_string()),
        Token::Lparen,
        Token::Ident("five".to_string()),
        Token::Comma,
        Token::Ident("ten".to_string()),
        Token::Rparen,
        Token::Semicolon,
        Token::EOF,
    ];

    let mut l = Lexer::new(input);

    for tok in tests {
        assert_eq!(l.next_token(), tok)
    }
}

#[test]
fn end_of_input_repeats() {
    let mut l = Lexer::new("x");
    assert_eq!(l.next_token(), ident("x"));
    for _ in 0..5 {
        assert_eq!(l.next_token(), Token::EOF);
    }
}

#[test]
fn empty_input_is_only_end() {
    assert_eq!(lex_all(""), vec![Token::EOF]);
    let mut l = Lexer::new("");
    assert_eq!(l.next_token(), Token::EOF);
    assert_eq!(l.next_token(), Token::EOF);
}

#[test]
fn whitespace_only_is_only_end() {
    assert_eq!(lex_all(" \t\r\n  "), vec![Token::EOF]);
}

#[test]
fn letter_run_is_one_identifier() {
    assert_eq!(lex_all("foo_bar"), vec![ident("foo_bar"), Token::EOF]);
    assert_eq!(lex_all("lets"), vec![ident("lets"), Token::EOF]);
    assert_eq!(lex_all("Let fnx"), vec![ident("Let"), ident("fnx"), Token::EOF]);
}

#[test]
fn keywords_are_never_identifiers() {
    assert_eq!(lex_all("let fn"), vec![Token::Let, Token::Function, Token::EOF]);
    assert_eq!(lex_all("(fn)"), vec![Token::Lparen, Token::Function, Token::Rparen, Token::EOF]);
}

#[test]
fn digit_run_is_one_integer() {
    assert_eq!(lex_all("12345"), vec![Token::Int(12345), Token::EOF]);
    assert_eq!(lex_all("007"), vec![Token::Int(7), Token::EOF]);
    assert_eq!(lex_all("12ab"), vec![Token::Int(12), ident("ab"), Token::EOF]);
    assert_eq!(
        lex_all("9223372036854775807"),
        vec![Token::Int(i64::MAX), Token::EOF]
    );
}

#[test]
fn integer_too_large_saturates() {
    assert_eq!(
        lex_all("9223372036854775808"),
        vec![Token::Int(i64::MAX), Token::EOF]
    );
    assert_eq!(
        lex_all("123456789012345678901234567890 1"),
        vec![Token::Int(i64::MAX), Token::Int(1), Token::EOF]
    );
}

#[test]
fn whitespace_separates_tokens() {
    assert_eq!(lex_all("ab"), vec![ident("ab"), Token::EOF]);
    assert_eq!(lex_all("a b"), vec![ident("a"), ident("b"), Token::EOF]);
    assert_eq!(lex_all("  a\t\n b  "), vec![ident("a"), ident("b"), Token::EOF]);
    assert_eq!(lex_all("1 2"), vec![Token::Int(1), Token::Int(2), Token::EOF]);
}

#[test]
fn each_punctuation_alone() {
    let cases = vec![
        ("=", Token::Assign),
        (";", Token::Semicolon),
        ("(", Token::Lparen),
        (")", Token::Rparen),
        (",", Token::Comma),
        ("+", Token::Plus),
        ("{", Token::Lbrace),
        ("}", Token::Rbrace),
    ];
    for (text, tok) in cases {
        assert_eq!(lex_all(text), vec![tok, Token::EOF]);
    }
}

#[test]
fn illegal_character_then_resume() {
    assert_eq!(
        lex_all("a@b"),
        vec![ident("a"), Token::Illegal('@'), ident("b"), Token::EOF]
    );
    assert_eq!(
        lex_all("@@ 1"),
        vec![Token::Illegal('@'), Token::Illegal('@'), Token::Int(1), Token::EOF]
    );
}

#[test]
fn small_program_scenario() {
    let input = "let five = 5;\nlet add = fn(x, y) { x + y; }\nlet result = add(five, 10);\n";
    let expected = vec![
        Token::Let,
        ident("five"),
        Token::Assign,
        Token::Int(5),
        Token::Semicolon,
        Token::Let,
        ident("add"),
        Token::Assign,
        Token::Function,
        Token::Lparen,
        ident("x"),
        Token::Comma,
        ident("y"),
        Token::Rparen,
        Token::Lbrace,
        ident("x"),
        Token::Plus,
        ident("y"),
        Token::Semicolon,
        Token::Rbrace,
        Token::Let,
        ident("result"),
        Token::Assign,
        ident("add"),
        Token::Lparen,
        ident("five"),
        Token::Comma,
        Token::Int(10),
        Token::Rparen,
        Token::Semicolon,
        Token::EOF,
    ];
    assert_eq!(lex_all(input), expected);
}

#[test]
fn question_and_bang_continue_identifiers() {
    assert_eq!(lex_all("x? y!"), vec![ident("x?"), ident("y!"), Token::EOF]);
}

#[test]
fn unicode_letters_form_identifiers() {
    assert_eq!(lex_all("café"), vec![ident("café"), Token::EOF]);
    assert_eq!(lex_all("日本 x"), vec![ident("日本"), ident("x"), Token::EOF]);
    assert_eq!(lex_all("€"), vec![Token::Illegal('€'), Token::EOF]);
}

#[test]
fn unicode_whitespace_is_skipped() {
    assert_eq!(
        lex_all("a\u{00A0}b\u{3000}c"),
        vec![ident("a"), ident("b"), ident("c"), Token::EOF]
    );
}

#[test]
fn lookup_ident_classifies() {
    assert_eq!(lookup_ident("let".to_string()), Token::Let);
    assert_eq!(lookup_ident("fn".to_string()), Token::Function);
    assert_eq!(lookup_ident("le".to_string()), ident("le"));
    assert_eq!(lookup_ident("fnn".to_string()), ident("fnn"));
    assert_eq!(lookup_ident("LET".to_string()), ident("LET"));
}
