use vstd::prelude::*;
use vstd::string::StrSliceExecFns;

verus! {

/// One lexical unit of the language.
#[derive(Clone, Debug, PartialEq, Eq)]
pub enum Token {
    Illegal(char),
    EOF,
    Ident(String),
    Int(i64),
    Assign,
    Plus,
    Comma,
    Semicolon,
    Lparen,
    Rparen,
    Lbrace,
    Rbrace,
    Function,
    Let,
}

/// The mathematical value of a token: an identifier's text is a sequence of characters.
pub enum TokenView {
    Illegal(char),
    EOF,
    Ident(Seq<char>),
    Int(i64),
    Assign,
    Plus,
    Comma,
    Semicolon,
    Lparen,
    Rparen,
    Lbrace,
    Rbrace,
    Function,
    Let,
}

impl View for Token {
    type V = TokenView;

    open spec fn view(&self) -> TokenView {
        match self {
            Token::Illegal(c) => TokenView::Illegal(*c),
            Token::EOF => TokenView::EOF,
            Token::Ident(s) => TokenView::Ident(s@),
            Token::Int(v) => TokenView::Int(*v),
            Token::Assign => TokenView::Assign,
            Token::Plus => TokenView::Plus,
            Token::Comma => TokenView::Comma,
            Token::Semicolon => TokenView::Semicolon,
            Token::Lparen => TokenView::Lparen,
            Token::Rparen => TokenView::Rparen,
            Token::Lbrace => TokenView::Lbrace,
            Token::Rbrace => TokenView::Rbrace,
            Token::Function => TokenView::Function,
            Token::Let => TokenView::Let,
        }
    }
}

/// The reserved words and the tokens they stand for: `let` and `fn`.
pub open spec fn keyword(word: Seq<char>) -> Option<TokenView> {
    if word == seq!['l', 'e', 't'] {
        Some(TokenView::Let)
    } else if word == seq!['f', 'n'] {
        Some(TokenView::Function)
    } else {
        None
    }
}

/// The token for a word: its keyword when it is reserved, else an identifier holding it.
pub open spec fn classify_word(word: Seq<char>) -> TokenView {
    match keyword(word) {
        Some(t) => t,
        None => TokenView::Ident(word),
    }
}

/// Whether `word` is exactly the characters of `kw`.
fn spells(word: &str, kw: &str) -> (r: bool)
    ensures
        r == (word@ == kw@),
{
    let n = word.unicode_len();
    if n != kw.unicode_len() {
        return false;
    }
    let mut i: usize = 0;
    while i < n
        invariant
            n == word@.len() == kw@.len(),
            0 <= i <= n,
            word@.subrange(0, i as int) == kw@.subrange(0, i as int),
        decreases n - i,
    {
        if word.get_char(i) != kw.get_char(i) {
            assert(word@[i as int] != kw@[i as int]);
            return false;
        }
        assert(word@.subrange(0, i + 1) == word@.subrange(0, i as int).push(word@[i as int]));
        assert(kw@.subrange(0, i + 1) == kw@.subrange(0, i as int).push(kw@[i as int]));
        i = i + 1;
    }
    assert(word@ == word@.subrange(0, n as int));
    assert(kw@ == kw@.subrange(0, n as int));
    true
}

/// Classifies a scanned word: a reserved word gives its keyword token, any other word an
/// identifier that owns the word.
pub fn lookup_ident(ident: String) -> (r: Token)
    ensures
        r@ == classify_word(ident@),
{
    let let_kw = "let";
    let fn_kw = "fn";
    proof {
        reveal_strlit("let");
        reveal_strlit("fn");
        assert(let_kw@ =~= seq!['l', 'e', 't']);
        assert(fn_kw@ =~= seq!['f', 'n']);
    }
    if spells(ident.as_str(), let_kw) {
        Token::Let
    } else if spells(ident.as_str(), fn_kw) {
        Token::Function
    } else {
        Token::Ident(ident)
    }
}

} // verus!
