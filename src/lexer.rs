use vstd::prelude::*;

use crate::chars::{digit, is_digit, is_letter, is_whitespace, letter, whitespace};
use crate::token::{classify_word, keyword, lookup_ident, Token, TokenView};

verus! {

/// Relies on `str::chars`, collected into a `Vec`: the characters of the text, in order.
#[verifier::external_body]
fn chars_of(s: &str) -> (r: Vec<char>)
    ensures
        r@ == s@,
{
    s.chars().collect()
}

/// Relies on `String`'s `FromIterator<&char>`: a string of exactly these characters.
#[verifier::external_body]
fn string_of(cs: &Vec<char>) -> (r: String)
    ensures
        r@ == cs@,
{
    cs.iter().collect()
}

/// The first position at or after `i` that does not hold whitespace.
pub open spec fn skip_ws(s: Seq<char>, i: int) -> int
    decreases s.len() - i,
{
    if 0 <= i < s.len() && whitespace(s[i]) {
        skip_ws(s, i + 1)
    } else {
        i
    }
}

/// The first position at or after `i` that does not hold a letter.
pub open spec fn letters_end(s: Seq<char>, i: int) -> int
    decreases s.len() - i,
{
    if 0 <= i < s.len() && letter(s[i]) {
        letters_end(s, i + 1)
    } else {
        i
    }
}

/// The first position at or after `i` that does not hold a decimal digit.
pub open spec fn digits_end(s: Seq<char>, i: int) -> int
    decreases s.len() - i,
{
    if 0 <= i < s.len() && digit(s[i]) {
        digits_end(s, i + 1)
    } else {
        i
    }
}

pub open spec fn digit_value(c: char) -> int {
    (c as u32) as int - ('0' as u32) as int
}

/// The number that a run of decimal digits denotes.
pub open spec fn decimal_value(d: Seq<char>) -> int
    decreases d.len(),
{
    if d.len() == 0 {
        0
    } else {
        decimal_value(d.drop_last()) * 10 + digit_value(d.last())
    }
}

/// A non-negative number as an `i64`, with every value above `i64::MAX` taken to `i64::MAX`.
pub open spec fn saturate(v: int) -> i64 {
    if v > i64::MAX {
        i64::MAX
    } else {
        v as i64
    }
}

/// The single-character tokens.
pub open spec fn punctuation(c: char) -> Option<TokenView> {
    if c == '=' {
        Some(TokenView::Assign)
    } else if c == ';' {
        Some(TokenView::Semicolon)
    } else if c == '(' {
        Some(TokenView::Lparen)
    } else if c == ')' {
        Some(TokenView::Rparen)
    } else if c == ',' {
        Some(TokenView::Comma)
    } else if c == '+' {
        Some(TokenView::Plus)
    } else if c == '{' {
        Some(TokenView::Lbrace)
    } else if c == '}' {
        Some(TokenView::Rbrace)
    } else {
        None
    }
}

/// The token that scanning `s` from position `i` yields, and the position after it.
/// Whitespace is skipped first; then one character decides the token's kind. Letters and
/// digits extend to the end of their run; an integer literal too large for `i64` is `i64::MAX`.
pub open spec fn scan(s: Seq<char>, i: int) -> (TokenView, int) {
    let j = skip_ws(s, i);
    if j >= s.len() {
        (TokenView::EOF, j)
    } else {
        let c = s[j];
        if punctuation(c) is Some {
            (punctuation(c)->0, j + 1)
        } else if letter(c) {
            let e = letters_end(s, j + 1);
            (classify_word(s.subrange(j, e)), e)
        } else if digit(c) {
            let e = digits_end(s, j + 1);
            (TokenView::Int(saturate(decimal_value(s.subrange(j, e)))), e)
        } else {
            (TokenView::Illegal(c), j + 1)
        }
    }
}

proof fn lemma_decimal_value_nonneg(d: Seq<char>)
    requires
        forall|k: int| 0 <= k < d.len() ==> digit(#[trigger] d[k]),
    ensures
        decimal_value(d) >= 0,
    decreases d.len(),
{
    if d.len() > 0 {
        lemma_decimal_value_nonneg(d.drop_last());
    }
}

proof fn lemma_skip_ws_bounds(s: Seq<char>, i: int)
    requires
        0 <= i <= s.len(),
    ensures
        i <= skip_ws(s, i) <= s.len(),
    decreases s.len() - i,
{
    if i < s.len() && whitespace(s[i]) {
        lemma_skip_ws_bounds(s, i + 1);
    }
}

proof fn lemma_skip_ws_to(s: Seq<char>, i: int, j: int)
    requires
        0 <= i <= j <= s.len(),
        forall|k: int| i <= k < j ==> whitespace(#[trigger] s[k]),
    ensures
        skip_ws(s, i) == skip_ws(s, j),
    decreases j - i,
{
    if i < j {
        lemma_skip_ws_to(s, i + 1, j);
    }
}

proof fn lemma_letters_end_at(s: Seq<char>, i: int, e: int)
    requires
        0 <= i <= e <= s.len(),
        forall|k: int| i <= k < e ==> letter(#[trigger] s[k]),
        e == s.len() || !letter(s[e]),
    ensures
        letters_end(s, i) == e,
    decreases e - i,
{
    if i < e {
        lemma_letters_end_at(s, i + 1, e);
    }
}

proof fn lemma_digits_end_at(s: Seq<char>, i: int, e: int)
    requires
        0 <= i <= e <= s.len(),
        forall|k: int| i <= k < e ==> digit(#[trigger] s[k]),
        e == s.len() || !digit(s[e]),
    ensures
        digits_end(s, i) == e,
    decreases e - i,
{
    if i < e {
        lemma_digits_end_at(s, i + 1, e);
    }
}

/// Once scanning reaches the end of the text it stays there: the token is `EOF`, the cursor
/// stands at the end, and scanning again gives `EOF` at the same place, however often.
pub proof fn lemma_end_is_terminal(s: Seq<char>, i: int)
    requires
        0 <= i <= s.len(),
        scan(s, i).0 == TokenView::EOF,
    ensures
        scan(s, i).1 == s.len(),
        scan(s, s.len() as int) == (TokenView::EOF, s.len() as int),
{
    lemma_skip_ws_bounds(s, i);
    let j = skip_ws(s, i);
    if j < s.len() {
        let c = s[j];
        if punctuation(c) is None && letter(c) {
            let e = letters_end(s, j + 1);
            assert(classify_word(s.subrange(j, e)) != TokenView::EOF);
        }
    }
}

/// A maximal run of letters that starts where the whitespace before it ends, and is no
/// reserved word, is one identifier holding exactly that run; the cursor stops right after it.
pub proof fn lemma_word_is_identifier(s: Seq<char>, i: int, j: int, e: int)
    requires
        0 <= i <= j < e <= s.len(),
        forall|k: int| i <= k < j ==> whitespace(#[trigger] s[k]),
        !whitespace(s[j]),
        forall|k: int| j <= k < e ==> letter(#[trigger] s[k]),
        e == s.len() || !letter(s[e]),
        keyword(s.subrange(j, e)) is None,
    ensures
        scan(s, i) == (TokenView::Ident(s.subrange(j, e)), e),
{
    lemma_skip_ws_to(s, i, j);
    lemma_letters_end_at(s, j + 1, e);
}

/// A maximal run of decimal digits that starts where the whitespace before it ends is one
/// integer literal holding the run's decimal value (`i64::MAX` where that is larger); the
/// cursor stops right after it.
pub proof fn lemma_digits_are_integer(s: Seq<char>, i: int, j: int, e: int)
    requires
        0 <= i <= j < e <= s.len(),
        forall|k: int| i <= k < j ==> whitespace(#[trigger] s[k]),
        forall|k: int| j <= k < e ==> digit(#[trigger] s[k]),
        e == s.len() || !digit(s[e]),
    ensures
        scan(s, i) == (TokenView::Int(saturate(decimal_value(s.subrange(j, e)))), e),
        decimal_value(s.subrange(j, e)) <= i64::MAX ==> scan(s, i).0 == TokenView::Int(
            decimal_value(s.subrange(j, e)) as i64,
        ),
{
    lemma_skip_ws_to(s, i, j);
    lemma_digits_end_at(s, j + 1, e);
}

/// Whitespace yields no token of its own: scanning from anywhere in a stretch of whitespace
/// gives the same token, ending at the same place, as scanning from the end of the stretch.
pub proof fn lemma_whitespace_is_skipped(s: Seq<char>, i: int, k: int)
    requires
        0 <= i <= k <= s.len(),
        forall|m: int| i <= m < k ==> whitespace(#[trigger] s[m]),
    ensures
        scan(s, i) == scan(s, k),
{
    lemma_skip_ws_to(s, i, k);
}

proof fn lemma_letters_end_run(s: Seq<char>, i: int)
    requires
        0 <= i <= s.len(),
    ensures
        i <= letters_end(s, i) <= s.len(),
        forall|k: int| i <= k < letters_end(s, i) ==> letter(#[trigger] s[k]),
    decreases s.len() - i,
{
    if i < s.len() && letter(s[i]) {
        lemma_letters_end_run(s, i + 1);
    }
}

proof fn lemma_digits_end_run(s: Seq<char>, i: int)
    requires
        0 <= i <= s.len(),
    ensures
        i <= digits_end(s, i) <= s.len(),
        forall|k: int| i <= k < digits_end(s, i) ==> digit(#[trigger] s[k]),
    decreases s.len() - i,
{
    if i < s.len() && digit(s[i]) {
        lemma_digits_end_run(s, i + 1);
    }
}

proof fn lemma_skip_ws_stops(s: Seq<char>, i: int)
    requires
        0 <= i <= s.len(),
    ensures
        skip_ws(s, i) < s.len() ==> !whitespace(s[skip_ws(s, i)]),
    decreases s.len() - i,
{
    if i < s.len() && whitespace(s[i]) {
        lemma_skip_ws_stops(s, i + 1);
    }
}

/// No token takes in whitespace: from where a token starts to where the cursor stops after it,
/// no character is whitespace, so whitespace always ends the token before it. This is stated
/// for texts in which no character counts both as a letter and as whitespace.
pub proof fn lemma_tokens_hold_no_whitespace(s: Seq<char>, i: int)
    requires
        0 <= i <= s.len(),
        forall|k: int| 0 <= k < s.len() ==> !(letter(#[trigger] s[k]) && whitespace(s[k])),
    ensures
        forall|k: int| skip_ws(s, i) <= k < scan(s, i).1 ==> !whitespace(#[trigger] s[k]),
{
    lemma_skip_ws_bounds(s, i);
    lemma_skip_ws_stops(s, i);
    let j = skip_ws(s, i);
    if j < s.len() {
        lemma_letters_end_run(s, j + 1);
        lemma_digits_end_run(s, j + 1);
    }
}

/// Each of the eight punctuation characters, alone, is its own token and the end of input
/// follows it.
pub proof fn lemma_punctuation_alone(c: char)
    requires
        punctuation(c) is Some,
    ensures
        scan(seq![c], 0) == (punctuation(c)->0, 1int),
        scan(seq![c], 1) == (TokenView::EOF, 1int),
{
}

/// A character that begins no token is one `Illegal` token carrying it, and scanning goes on
/// with the character after it.
pub proof fn lemma_illegal_then_resume(s: Seq<char>, i: int, j: int)
    requires
        0 <= i <= j < s.len(),
        forall|k: int| i <= k < j ==> whitespace(#[trigger] s[k]),
        !whitespace(s[j]),
        punctuation(s[j]) is None,
        !letter(s[j]),
        !digit(s[j]),
    ensures
        scan(s, i) == (TokenView::Illegal(s[j]), j + 1),
{
    lemma_skip_ws_to(s, i, j);
}

/// A scanner over a text: the text's characters and a cursor that only moves forward.
pub struct Lexer {
    input: Vec<char>,
    pos: usize,
}

impl View for Lexer {
    /// The text, and the position of the cursor in it.
    type V = (Seq<char>, int);

    closed spec fn view(&self) -> (Seq<char>, int) {
        (self.input@, self.pos as int)
    }
}

impl Lexer {
    /// The cursor lies within the text or just after it.
    pub open spec fn wf(&self) -> bool {
        0 <= self@.1 <= self@.0.len()
    }

    /// A scanner at the start of `input`.
    pub fn new(input: &str) -> (r: Lexer)
        ensures
            r@ == (input@, 0int),
            r.wf(),
    {
        Lexer { input: chars_of(input), pos: 0 }
    }

    /// The next token of the text. Once the text is exhausted every call returns `EOF`.
    pub fn next_token(&mut self) -> (tok: Token)
        requires
            old(self).wf(),
        ensures
            final(self).wf(),
            final(self)@.0 == old(self)@.0,
            (tok@, final(self)@.1) == scan(old(self)@.0, old(self)@.1),
    {
        self.skip_whitespace();
        match self.read_char() {
            Some('=') => Token::Assign,
            Some(';') => Token::Semicolon,
            Some('(') => Token::Lparen,
            Some(')') => Token::Rparen,
            Some(',') => Token::Comma,
            Some('+') => Token::Plus,
            Some('{') => Token::Lbrace,
            Some('}') => Token::Rbrace,
            Some(ch) => {
                let ghost j = self.pos - 1;
                let ghost s = self.input@;
                proof {
                    lemma_letters_end_run(s, j + 1);
                    lemma_digits_end_run(s, j + 1);
                }
                if is_letter(ch) {
                    let ident = self.read_identifier(ch);
                    assert(s.subrange(j, self.pos as int) =~= seq![ch] + s.subrange(j + 1, self.pos as int));
                    lookup_ident(ident)
                } else if is_digit(ch) {
                    let n = self.read_number(ch);
                    assert(s.subrange(j, self.pos as int) =~= seq![ch] + s.subrange(j + 1, self.pos as int));
                    Token::Int(n)
                } else {
                    Token::Illegal(ch)
                }
            },
            None => Token::EOF,
        }
    }

    /// Consumes the character under the cursor, if any.
    fn read_char(&mut self) -> (r: Option<char>)
        requires
            old(self).wf(),
        ensures
            final(self).input@ == old(self).input@,
            old(self).pos < old(self).input.len() ==> r == Some(old(self).input@[old(self).pos as int])
                && final(self).pos == old(self).pos + 1,
            old(self).pos >= old(self).input.len() ==> r is None && final(self).pos == old(self).pos,
    {
        if self.pos < self.input.len() {
            let c = self.input[self.pos];
            self.pos = self.pos + 1;
            Some(c)
        } else {
            None
        }
    }

    /// The character under the cursor, if any, without consuming it.
    fn peak_char(&self) -> (r: Option<char>)
        requires
            self.wf(),
        ensures
            self.pos < self.input.len() ==> r == Some(self.input@[self.pos as int]),
            self.pos >= self.input.len() ==> r is None,
    {
        if self.pos < self.input.len() {
            Some(self.input[self.pos])
        } else {
            None
        }
    }

    /// Reads a word that begins with `ch` and goes on with the letters under the cursor.
    fn read_identifier(&mut self, ch: char) -> (r: String)
        requires
            old(self).wf(),
        ensures
            final(self).wf(),
            final(self).input@ == old(self).input@,
            final(self).pos == letters_end(old(self).input@, old(self).pos as int),
            r@ == seq![ch] + old(self).input@.subrange(old(self).pos as int, final(self).pos as int),
    {
        let ghost s = self.input@;
        let ghost start: int = self.pos as int;
        let mut identifier: Vec<char> = Vec::new();
        identifier.push(ch);
        assert(identifier@ =~= seq![ch] + s.subrange(start, self.pos as int));
        loop
            invariant
                self.wf(),
                self.input@ == s,
                0 <= start <= self.pos,
                letters_end(s, self.pos as int) == letters_end(s, start),
                identifier@ == seq![ch] + s.subrange(start, self.pos as int),
            ensures
                self.pos == letters_end(s, start),
            decreases s.len() - self.pos,
        {
            let c = match self.peak_char() {
                Some(c) => c,
                None => break,
            };
            if is_letter(c) {
                let ghost p0 = self.pos as int;
                let d = self.read_char().unwrap();
                identifier.push(d);
                assert(seq![ch] + s.subrange(start, p0 + 1) =~= (seq![ch] + s.subrange(start, p0)).push(s[p0]));
            } else {
                break;
            }
        }
        string_of(&identifier)
    }

    /// Reads a number whose first digit is `ch` and whose other digits are those under the
    /// cursor, and gives its value, or `i64::MAX` where the value is larger.
    fn read_number(&mut self, ch: char) -> (r: i64)
        requires
            old(self).wf(),
            digit(ch),
        ensures
            final(self).wf(),
            final(self).input@ == old(self).input@,
            final(self).pos == digits_end(old(self).input@, old(self).pos as int),
            r == saturate(decimal_value(seq![ch] + old(self).input@.subrange(old(self).pos as int, final(self).pos as int))),
    {
        let ghost s = self.input@;
        let ghost start: int = self.pos as int;
        let mut v: i64 = (ch as u32 - '0' as u32) as i64;
        proof {
            let d = seq![ch] + s.subrange(start, self.pos as int);
            assert(d.drop_last() =~= Seq::<char>::empty());
            assert(d.last() == ch);
            assert(decimal_value(d.drop_last()) == 0);
        }
        loop
            invariant
                self.wf(),
                self.input@ == s,
                digit(ch),
                0 <= start <= self.pos,
                digits_end(s, self.pos as int) == digits_end(s, start),
                forall|k: int| start <= k < self.pos ==> digit(#[trigger] s[k]),
                v == saturate(decimal_value(seq![ch] + s.subrange(start, self.pos as int))),
            ensures
                self.pos == digits_end(s, start),
            decreases s.len() - self.pos,
        {
            let c = match self.peak_char() {
                Some(c) => c,
                None => break,
            };
            if is_digit(c) {
                let _ = self.read_char();
                let d: i64 = (c as u32 - '0' as u32) as i64;
                let ghost before = seq![ch] + s.subrange(start, self.pos - 1);
                let ghost after = seq![ch] + s.subrange(start, self.pos as int);
                proof {
                    assert(after.drop_last() =~= before);
                    assert(after.last() == c);
                    assert forall|k: int| 0 <= k < before.len() implies digit(#[trigger] before[k]) by {
                        if k > 0 {
                            assert(before[k] == s[start + k - 1]);
                        }
                    }
                    lemma_decimal_value_nonneg(before);
                }
                if v > (i64::MAX - d) / 10 {
                    proof {
                        let bv = decimal_value(before);
                        assert(bv >= v);
                        assert(bv * 10 + d > i64::MAX) by (nonlinear_arith)
                            requires
                                bv >= v,
                                v > (i64::MAX - d) / 10,
                                0 <= d <= 9,
                        ;
                    }
                    v = i64::MAX;
                } else {
                    proof {
                        assert(v * 10 + d <= i64::MAX) by (nonlinear_arith)
                            requires
                                v <= (i64::MAX - d) / 10,
                                0 <= d <= 9,
                        ;
                    }
                    v = v * 10 + d;
                }
            } else {
                break;
            }
        }
        v
    }

    /// Moves the cursor past any whitespace.
    fn skip_whitespace(&mut self)
        requires
            old(self).wf(),
        ensures
            final(self).wf(),
            final(self).input@ == old(self).input@,
            final(self).pos == skip_ws(old(self).input@, old(self).pos as int),
    {
        let ghost s = self.input@;
        let ghost start = self.pos as int;
        loop
            invariant
                self.wf(),
                self.input@ == s,
                skip_ws(s, self.pos as int) == skip_ws(s, start),
            ensures
                self.pos == skip_ws(s, start),
            decreases s.len() - self.pos,
        {
            let c = match self.peak_char() {
                Some(c) => c,
                None => break,
            };
            if is_whitespace(c) {
                self.read_char();
            } else {
                break;
            }
        }
    }
}

} // verus!
