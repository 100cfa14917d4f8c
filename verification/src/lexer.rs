//! The lexer: a forward-only cursor over the input characters that hands out
//! one token per `next_token` call, ending in a repeatable end token.
//!
//! `next_token_s` is the mathematical description of one step: every call of
//! the executable `next_token` is proved to return exactly that token and to
//! leave the cursor exactly at that position.
use crate::token::{Tok, Token};
use vstd::prelude::*;

verus! {

broadcast use
    vstd::seq::group_seq_axioms,
    vstd::string::axiom_spec_iter,
    vstd::string::next_postcondition;

/// The character at position `p`, with NUL standing for end of input.
pub open spec fn char_at(s: Seq<char>, p: int) -> char {
    if 0 <= p < s.len() {
        s[p]
    } else {
        '\u{0}'
    }
}

/// ASCII whitespace, as skipped between tokens.
pub open spec fn is_ws_char(c: char) -> bool {
    c == ' ' || c == '\t' || c == '\n' || c == '\r' || c == '\u{c}'
}

/// An ASCII decimal digit.
pub open spec fn is_digit_char(c: char) -> bool {
    '0' <= c && c <= '9'
}

/// Whether a character may start or continue an identifier.
/// Named by the trusted wrapper around `char::is_alphabetic` below.
pub uninterp spec fn letter(c: char) -> bool;

/// Relies on `char::is_alphabetic`: a pure classification of the character
/// alone (the Unicode `Alphabetic` property); NUL is a control character and
/// not alphabetic.
#[verifier::external_body]
fn char_is_alphabetic(c: char) -> (r: bool)
    ensures
        r == letter(c),
        c == '\u{0}' ==> !r,
{
    c.is_alphabetic()
}

/// The first position at or after `p` that does not hold whitespace.
pub open spec fn skip_ws(s: Seq<char>, p: int) -> int
    decreases s.len() - p,
{
    if 0 <= p && p < s.len() && is_ws_char(s[p]) {
        skip_ws(s, p + 1)
    } else {
        p
    }
}

/// The first position at or after `p` that does not hold a letter.
pub open spec fn scan_letters(s: Seq<char>, p: int) -> int
    decreases s.len() - p,
{
    if 0 <= p && p < s.len() && letter(s[p]) {
        scan_letters(s, p + 1)
    } else {
        p
    }
}

/// The first position at or after `p` that does not hold a digit.
pub open spec fn scan_digits(s: Seq<char>, p: int) -> int
    decreases s.len() - p,
{
    if 0 <= p && p < s.len() && is_digit_char(s[p]) {
        scan_digits(s, p + 1)
    } else {
        p
    }
}

/// The position of the closing quote of a string literal started just before
/// `p`, or of a NUL character, or the end of input, whichever comes first.
pub open spec fn scan_str(s: Seq<char>, p: int) -> int
    decreases s.len() - p,
{
    if 0 <= p && p < s.len() && s[p] != '"' && s[p] != '\u{0}' {
        scan_str(s, p + 1)
    } else {
        p
    }
}

/// The numeric value of one digit character.
pub open spec fn digit_val(c: char) -> int {
    (c as u32) as int - 48
}

/// The value of a run of decimal digits, most significant first.
pub open spec fn digits_val(ds: Seq<char>) -> int
    decreases ds.len(),
{
    if ds.len() == 0 {
        0
    } else {
        digits_val(ds.drop_last()) * 10 + digit_val(ds.last())
    }
}

/// Classifies a finished identifier against the fixed keyword set.
pub open spec fn keyword_of(ident: Seq<char>) -> Tok {
    if ident == "fn"@ {
        Tok::Function
    } else if ident == "let"@ {
        Tok::Let
    } else if ident == "true"@ {
        Tok::True
    } else if ident == "false"@ {
        Tok::False
    } else if ident == "if"@ {
        Tok::If
    } else if ident == "else"@ {
        Tok::Else
    } else if ident == "return"@ {
        Tok::Return
    } else {
        Tok::Identifier(ident)
    }
}

/// One step of the lexer: the token starting at position `p` of `s`, and the
/// cursor position after it.
pub open spec fn next_token_s(s: Seq<char>, p: int) -> (Tok, int) {
    let q = skip_ws(s, p);
    let c = char_at(s, q);
    if q >= s.len() {
        (Tok::Eof, s.len() as int)
    } else if c == '=' {
        if char_at(s, q + 1) == '=' {
            (Tok::Eq, q + 2)
        } else {
            (Tok::Assign, q + 1)
        }
    } else if c == '!' {
        if char_at(s, q + 1) == '=' {
            (Tok::Ne, q + 2)
        } else {
            (Tok::Bang, q + 1)
        }
    } else if c == '+' {
        (Tok::Plus, q + 1)
    } else if c == '-' {
        (Tok::Minus, q + 1)
    } else if c == '*' {
        (Tok::Asterisk, q + 1)
    } else if c == '/' {
        (Tok::Slash, q + 1)
    } else if c == '<' {
        (Tok::Lt, q + 1)
    } else if c == '>' {
        (Tok::Gt, q + 1)
    } else if c == ',' {
        (Tok::Comma, q + 1)
    } else if c == ';' {
        (Tok::Semicolon, q + 1)
    } else if c == ':' {
        (Tok::Colon, q + 1)
    } else if c == '(' {
        (Tok::LParen, q + 1)
    } else if c == ')' {
        (Tok::RParen, q + 1)
    } else if c == '{' {
        (Tok::LBrace, q + 1)
    } else if c == '}' {
        (Tok::RBrace, q + 1)
    } else if c == '[' {
        (Tok::LBracket, q + 1)
    } else if c == ']' {
        (Tok::RBracket, q + 1)
    } else if c == '\u{0}' {
        (Tok::Eof, q + 1)
    } else if c == '"' {
        let e = scan_str(s, q + 1);
        let close = if e < s.len() {
            e + 1
        } else {
            e
        };
        (Tok::String(s.subrange(q + 1, e)), close)
    } else if letter(c) {
        let e = scan_letters(s, q);
        (keyword_of(s.subrange(q, e)), e)
    } else if is_digit_char(c) {
        let e = scan_digits(s, q);
        let v = digits_val(s.subrange(q, e));
        if v <= isize::MAX as int {
            (Tok::Integer(v), e)
        } else {
            (Tok::Illegal(s[q]), e)
        }
    } else {
        (Tok::Illegal(c), q + 1)
    }
}

proof fn lemma_skip_ws_bounds(s: Seq<char>, p: int)
    requires
        0 <= p <= s.len(),
    ensures
        p <= skip_ws(s, p) <= s.len(),
    decreases s.len() - p,
{
    if p < s.len() && is_ws_char(s[p]) {
        lemma_skip_ws_bounds(s, p + 1);
    }
}

proof fn lemma_scan_letters_bounds(s: Seq<char>, p: int)
    requires
        0 <= p <= s.len(),
    ensures
        p <= scan_letters(s, p) <= s.len(),
    decreases s.len() - p,
{
    if p < s.len() && letter(s[p]) {
        lemma_scan_letters_bounds(s, p + 1);
    }
}

proof fn lemma_scan_digits_bounds(s: Seq<char>, p: int)
    requires
        0 <= p <= s.len(),
    ensures
        p <= scan_digits(s, p) <= s.len(),
        forall|j: int| p <= j < scan_digits(s, p) ==> is_digit_char(#[trigger] s[j]),
    decreases s.len() - p,
{
    if p < s.len() && is_digit_char(s[p]) {
        lemma_scan_digits_bounds(s, p + 1);
    }
}

proof fn lemma_scan_str_bounds(s: Seq<char>, p: int)
    requires
        0 <= p <= s.len(),
    ensures
        p <= scan_str(s, p) <= s.len(),
    decreases s.len() - p,
{
    if p < s.len() && s[p] != '"' && s[p] != '\u{0}' {
        lemma_scan_str_bounds(s, p + 1);
    }
}

/// One lexer step stays inside the input and, unless it produced the end
/// token, makes progress.
pub proof fn lemma_next_token_advances(s: Seq<char>, p: int)
    requires
        0 <= p <= s.len(),
    ensures
        ({
            let (t, p2) = next_token_s(s, p);
            p <= p2 <= s.len() && (t != Tok::Eof ==> p2 > p)
        }),
{
    lemma_skip_ws_bounds(s, p);
    let q = skip_ws(s, p);
    if q < s.len() {
        let c = s[q];
        if letter(c) {
            lemma_scan_letters_bounds(s, q + 1);
        }
        if is_digit_char(c) {
            lemma_scan_digits_bounds(s, q + 1);
        }
        if c == '"' {
            lemma_scan_str_bounds(s, q + 1);
        }
    }
}

/// The whole token stream of the input from position `p` on, ending with the
/// first end token.
pub open spec fn lex_all(s: Seq<char>, p: int) -> Seq<Tok>
    recommends
        0 <= p <= s.len(),
    decreases s.len() - p,
    via lex_all_decreases
{
    let (t, p2) = next_token_s(s, p);
    if t == Tok::Eof || !(0 <= p <= s.len()) {
        seq![Tok::Eof]
    } else {
        seq![t] + lex_all(s, p2)
    }
}

#[via_fn]
proof fn lex_all_decreases(s: Seq<char>, p: int) {
    if 0 <= p <= s.len() {
        lemma_next_token_advances(s, p);
    }
}

/// The characters of the string, in order, as a vector.
fn str_to_chars(s: &str) -> (r: Vec<char>)
    ensures
        r@ == s@,
{
    let mut iter = s.chars();
    let mut out: Vec<char> = Vec::new();
    loop
        invariant
            vstd::std_specs::iter::IteratorSpec::obeys_prophetic_iter_laws(&iter),
            vstd::std_specs::iter::IteratorSpec::decrease(&iter) is Some,
            out@ + vstd::std_specs::iter::IteratorSpec::remaining(&iter) == s@,
        ensures
            out@ == s@,
        decreases vstd::std_specs::iter::IteratorSpec::decrease(&iter)->0,
    {
        let ghost pre = iter;
        match iter.next() {
            Some(c) => {
                let ghost out0 = out@;
                out.push(c);
                proof {
                    assert(out@ =~= out0.push(c));
                    assert(out@ + vstd::std_specs::iter::IteratorSpec::remaining(&iter) =~= out0
                        + vstd::std_specs::iter::IteratorSpec::remaining(&pre));
                }
            },
            None => {
                proof {
                    assert(out@ =~= s@);
                }
                break ;
            },
        }
    }
    out
}

/// The lexer: the input characters and a cursor into them.
pub struct Lexer {
    input: Vec<char>,
    position: usize,
    ch: char,
}

impl Lexer {
    /// The input character sequence this lexer was built over.
    pub closed spec fn text(self) -> Seq<char> {
        self.input@
    }

    /// The current cursor position.
    pub closed spec fn pos(self) -> int {
        self.position as int
    }

    /// The cursor is inside the input and the cached character matches it.
    pub closed spec fn wf(self) -> bool {
        self.position <= self.input@.len() && self.ch == char_at(
            self.input@,
            self.position as int,
        )
    }

    /// A well-formed lexer's cursor is inside its input.
    pub proof fn lemma_wf_bounds(self)
        requires
            self.wf(),
        ensures
            0 <= self.pos() <= self.text().len(),
    {
    }

    pub fn new(input: &str) -> (r: Lexer)
        ensures
            r.wf(),
            r.text() == input@,
            r.pos() == 0,
    {
        let chars = str_to_chars(input);
        let c: char = if chars.len() > 0 {
            chars[0]
        } else {
            '\u{0}'
        };
        Lexer { input: chars, position: 0, ch: c }
    }

    /// Advances the cursor one character, stopping at end of input.
    fn read_char(&mut self)
        requires
            old(self).wf(),
        ensures
            final(self).wf(),
            final(self).text() == old(self).text(),
            final(self).pos() == if old(self).pos() < old(self).text().len() {
                old(self).pos() + 1
            } else {
                old(self).pos()
            },
    {
        if self.position < self.input.len() {
            self.position = self.position + 1;
        }
        self.ch = if self.position < self.input.len() {
            self.input[self.position]
        } else {
            '\u{0}'
        };
    }

    /// The character after the cursor, NUL at end of input.
    fn peek_char(&self) -> (c: char)
        requires
            self.wf(),
        ensures
            c == char_at(self.text(), self.pos() + 1),
    {
        if self.position < self.input.len() && self.position + 1 < self.input.len() {
            self.input[self.position + 1]
        } else {
            '\u{0}'
        }
    }

    fn is_letter(&self) -> (r: bool)
        requires
            self.wf(),
        ensures
            r == letter(char_at(self.text(), self.pos())),
            char_at(self.text(), self.pos()) == '\u{0}' ==> !r,
    {
        char_is_alphabetic(self.ch)
    }

    fn is_digit(&self) -> (r: bool)
        requires
            self.wf(),
        ensures
            r == is_digit_char(char_at(self.text(), self.pos())),
    {
        '0' <= self.ch && self.ch <= '9'
    }

    fn skip_whitespace(&mut self)
        requires
            old(self).wf(),
        ensures
            final(self).wf(),
            final(self).text() == old(self).text(),
            final(self).pos() == skip_ws(old(self).text(), old(self).pos()),
    {
        while self.ch == ' ' || self.ch == '\t' || self.ch == '\n' || self.ch == '\r' || self.ch
            == '\u{c}'
            invariant
                self.wf(),
                self.text() == old(self).text(),
                skip_ws(self.text(), self.pos()) == skip_ws(old(self).text(), old(self).pos()),
            decreases self.text().len() - self.pos(),
        {
            self.read_char();
        }
    }

    /// Reads a maximal run of letters and classifies it against the keywords.
    fn read_identifier(&mut self) -> (t: Token)
        requires
            old(self).wf(),
            letter(char_at(old(self).text(), old(self).pos())),
        ensures
            final(self).wf(),
            final(self).text() == old(self).text(),
            final(self).pos() == scan_letters(old(self).text(), old(self).pos()),
            t@ == keyword_of(
                old(self).text().subrange(
                    old(self).pos(),
                    scan_letters(old(self).text(), old(self).pos()),
                ),
            ),
    {
        let ghost s = self.text();
        let ghost start = self.pos();
        let mut ident = String::new();
        proof {
            assert(ident@ =~= s.subrange(start, start));
        }
        while self.is_letter()
            invariant
                self.wf(),
                self.text() == s,
                0 <= start <= self.pos() <= s.len(),
                scan_letters(s, self.pos()) == scan_letters(s, start),
                ident@ == s.subrange(start, self.pos()),
            decreases s.len() - self.pos(),
        {
            proof {
                assert(self.pos() < s.len());
                assert(self.ch == s[self.pos()]);
            }
            crate::text::push_char(&mut ident, self.ch);
            proof {
                assert(ident@ =~= s.subrange(start, self.pos() + 1));
            }
            self.read_char();
        }
        proof {
            lemma_scan_letters_bounds(s, start);
        }
        let fn_kw = String::from_str("fn");
        let let_kw = String::from_str("let");
        let true_kw = String::from_str("true");
        let false_kw = String::from_str("false");
        let if_kw = String::from_str("if");
        let else_kw = String::from_str("else");
        let return_kw = String::from_str("return");
        if ident == fn_kw {
            Token::Function
        } else if ident == let_kw {
            Token::Let
        } else if ident == true_kw {
            Token::True
        } else if ident == false_kw {
            Token::False
        } else if ident == if_kw {
            Token::If
        } else if ident == else_kw {
            Token::Else
        } else if ident == return_kw {
            Token::Return
        } else {
            Token::Identifier(ident)
        }
    }

    /// Reads a maximal run of digits; a value beyond the integer range makes
    /// the run an illegal token carrying its first character.
    fn read_int(&mut self) -> (t: Token)
        requires
            old(self).wf(),
            is_digit_char(char_at(old(self).text(), old(self).pos())),
        ensures
            final(self).wf(),
            final(self).text() == old(self).text(),
            final(self).pos() == scan_digits(old(self).text(), old(self).pos()),
            t@ == ({
                let e = scan_digits(old(self).text(), old(self).pos());
                let v = digits_val(old(self).text().subrange(old(self).pos(), e));
                if v <= isize::MAX as int {
                    Tok::Integer(v)
                } else {
                    Tok::Illegal(old(self).text()[old(self).pos()])
                }
            }),
    {
        let ghost s = self.text();
        let ghost start = self.pos();
        let first = self.ch;
        let mut acc: u64 = 0;
        let mut over: bool = false;
        proof {
            lemma_scan_digits_bounds(s, start);
        }
        while self.is_digit()
            invariant
                self.wf(),
                self.text() == s,
                0 <= start <= self.pos() <= s.len(),
                scan_digits(s, self.pos()) == scan_digits(s, start),
                first == char_at(s, start),
                !over ==> acc as int == digits_val(s.subrange(start, self.pos())) && acc as int
                    <= isize::MAX as int,
                over ==> digits_val(s.subrange(start, self.pos())) > isize::MAX as int,
            decreases s.len() - self.pos(),
        {
            let ghost prefix = s.subrange(start, self.pos());
            let d: u64 = (self.ch as u32 - 48) as u64;
            proof {
                assert(s.subrange(start, self.pos() + 1).drop_last() =~= prefix);
                assert(digits_val(s.subrange(start, self.pos() + 1)) == digits_val(prefix) * 10
                    + digit_val(s[self.pos()]));
            }
            if !over {
                let limit: u64 = isize::MAX as u64;
                if acc > (limit - d) / 10 {
                    over = true;
                    proof {
                        assert(acc as int * 10 + d as int > limit as int) by {
                            vstd::arithmetic::div_mod::lemma_fundamental_div_mod(
                                limit as int - d as int,
                                10,
                            );
                        }
                    }
                } else {
                    proof {
                        assert(acc as int * 10 + d as int <= limit as int) by {
                            vstd::arithmetic::div_mod::lemma_fundamental_div_mod(
                                limit as int - d as int,
                                10,
                            );
                        }
                    }
                    acc = acc * 10 + d;
                }
            } else {
                proof {
                    assert(digits_val(prefix) * 10 >= digits_val(prefix));
                }
            }
            self.read_char();
        }
        if over {
            Token::Illegal(first)
        } else {
            Token::Integer(acc as isize)
        }
    }

    /// Reads a string literal's contents up to the closing quote; an
    /// unterminated literal silently consumes to end of input.
    fn read_string(&mut self) -> (t: Token)
        requires
            old(self).wf(),
            char_at(old(self).text(), old(self).pos()) == '"',
        ensures
            final(self).wf(),
            final(self).text() == old(self).text(),
            final(self).pos() == scan_str(old(self).text(), old(self).pos() + 1),
            t@ == Tok::String(
                old(self).text().subrange(
                    old(self).pos() + 1,
                    scan_str(old(self).text(), old(self).pos() + 1),
                ),
            ),
    {
        let ghost s = self.text();
        let ghost start = self.pos() + 1;
        self.read_char();
        let mut value = String::new();
        proof {
            assert(value@ =~= s.subrange(start, start));
        }
        while self.ch != '"' && self.ch != '\u{0}'
            invariant
                self.wf(),
                self.text() == s,
                0 <= start <= self.pos() <= s.len(),
                scan_str(s, self.pos()) == scan_str(s, start),
                value@ == s.subrange(start, self.pos()),
            decreases s.len() - self.pos(),
        {
            proof {
                assert(self.pos() < s.len());
                assert(self.ch == s[self.pos()]);
            }
            crate::text::push_char(&mut value, self.ch);
            proof {
                assert(value@ =~= s.subrange(start, self.pos() + 1));
            }
            self.read_char();
        }
        proof {
            lemma_scan_str_bounds(s, start);
        }
        Token::String(value)
    }

    /// Skips whitespace, then returns the next token of the input, leaving
    /// the cursor right after it.
    pub fn next_token(&mut self) -> (t: Token)
        requires
            old(self).wf(),
        ensures
            final(self).wf(),
            final(self).text() == old(self).text(),
            (t@, final(self).pos()) == next_token_s(old(self).text(), old(self).pos()),
    {
        self.skip_whitespace();
        proof {
            lemma_skip_ws_bounds(old(self).text(), old(self).pos());
        }
        let token: Token = match self.ch {
            '=' => {
                if self.peek_char() == '=' {
                    self.read_char();
                    Token::Eq
                } else {
                    Token::Assign
                }
            },
            '+' => Token::Plus,
            '-' => Token::Minus,
            '*' => Token::Asterisk,
            '/' => Token::Slash,
            '!' => {
                if self.peek_char() == '=' {
                    self.read_char();
                    Token::Ne
                } else {
                    Token::Bang
                }
            },
            '<' => Token::Lt,
            '>' => Token::Gt,
            ',' => Token::Comma,
            ';' => Token::Semicolon,
            ':' => Token::Colon,
            '(' => Token::LParen,
            ')' => Token::RParen,
            '{' => Token::LBrace,
            '}' => Token::RBrace,
            '[' => Token::LBracket,
            ']' => Token::RBracket,
            '\u{0}' => Token::Eof,
            '"' => self.read_string(),
            _ => {
                if self.is_letter() {
                    return self.read_identifier();
                } else if self.is_digit() {
                    return self.read_int();
                } else {
                    Token::Illegal(self.ch)
                }
            },
        };
        self.read_char();
        token
    }
}

} // verus!
