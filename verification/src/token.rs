//! Lexical tokens: the exec representation handed from the lexer to the
//! parser, its mathematical view, and the textual form used in diagnostics.
use crate::text::{dec_int, dec_isize, push_char};
use vstd::prelude::*;

verus! {

/// One lexical unit of source text.
#[derive(Debug, PartialEq, Eq)]
pub enum Token {
    /// A character no rule accepts.
    Illegal(char),
    /// End of input, repeatable.
    Eof,
    /// A name.
    Identifier(String),
    /// An integer literal.
    Integer(isize),
    /// A string literal's contents.
    String(String),
    /// `=`
    Assign,
    /// `+`
    Plus,
    /// `-`
    Minus,
    /// `*`
    Asterisk,
    /// `/`
    Slash,
    /// `!`
    Bang,
    /// `<`
    Lt,
    /// `>`
    Gt,
    /// `==`
    Eq,
    /// `!=`
    Ne,
    /// `,`
    Comma,
    /// `;`
    Semicolon,
    /// `:`
    Colon,
    /// `(`
    LParen,
    /// `)`
    RParen,
    /// `{`
    LBrace,
    /// `}`
    RBrace,
    /// `[`
    LBracket,
    /// `]`
    RBracket,
    /// `fn`
    Function,
    /// `let`
    Let,
    /// `true`
    True,
    /// `false`
    False,
    /// `if`
    If,
    /// `else`
    Else,
    /// `return`
    Return,
}

/// The mathematical view of a `Token`: payloads become sequences and
/// unbounded integers.
pub enum Tok {
    Illegal(char),
    Eof,
    Identifier(Seq<char>),
    Integer(int),
    String(Seq<char>),
    Assign,
    Plus,
    Minus,
    Asterisk,
    Slash,
    Bang,
    Lt,
    Gt,
    Eq,
    Ne,
    Comma,
    Semicolon,
    Colon,
    LParen,
    RParen,
    LBrace,
    RBrace,
    LBracket,
    RBracket,
    Function,
    Let,
    True,
    False,
    If,
    Else,
    Return,
}

impl View for Token {
    type V = Tok;

    open spec fn view(&self) -> Tok {
        match self {
            Token::Illegal(c) => Tok::Illegal(*c),
            Token::Eof => Tok::Eof,
            Token::Identifier(s) => Tok::Identifier(s@),
            Token::Integer(v) => Tok::Integer(*v as int),
            Token::String(s) => Tok::String(s@),
            Token::Assign => Tok::Assign,
            Token::Plus => Tok::Plus,
            Token::Minus => Tok::Minus,
            Token::Asterisk => Tok::Asterisk,
            Token::Slash => Tok::Slash,
            Token::Bang => Tok::Bang,
            Token::Lt => Tok::Lt,
            Token::Gt => Tok::Gt,
            Token::Eq => Tok::Eq,
            Token::Ne => Tok::Ne,
            Token::Comma => Tok::Comma,
            Token::Semicolon => Tok::Semicolon,
            Token::Colon => Tok::Colon,
            Token::LParen => Tok::LParen,
            Token::RParen => Tok::RParen,
            Token::LBrace => Tok::LBrace,
            Token::RBrace => Tok::RBrace,
            Token::LBracket => Tok::LBracket,
            Token::RBracket => Tok::RBracket,
            Token::Function => Tok::Function,
            Token::Let => Tok::Let,
            Token::True => Tok::True,
            Token::False => Tok::False,
            Token::If => Tok::If,
            Token::Else => Tok::Else,
            Token::Return => Tok::Return,
        }
    }
}

/// The textual form of a token, as it appears inside parser diagnostics.
pub open spec fn tok_text(t: Tok) -> Seq<char> {
    match t {
        Tok::Illegal(c) => "Illegal("@.push(c) + ")"@,
        Tok::Eof => "Eof"@,
        Tok::Identifier(s) => s,
        Tok::Integer(v) => "Int("@ + dec_int(v) + ")"@,
        Tok::String(s) => "String("@ + s + ")"@,
        Tok::Assign => "="@,
        Tok::Plus => "+"@,
        Tok::Minus => "-"@,
        Tok::Asterisk => "*"@,
        Tok::Slash => "/"@,
        Tok::Bang => "!"@,
        Tok::Lt => "<"@,
        Tok::Gt => ">"@,
        Tok::Eq => "=="@,
        Tok::Ne => "!="@,
        Tok::Comma => ","@,
        Tok::Semicolon => ";"@,
        Tok::Colon => ":"@,
        Tok::LParen => "("@,
        Tok::RParen => ")"@,
        Tok::LBrace => "{"@,
        Tok::RBrace => "}"@,
        Tok::LBracket => "["@,
        Tok::RBracket => "]"@,
        Tok::Function => "fn"@,
        Tok::Let => "let"@,
        Tok::True => "true"@,
        Tok::False => "false"@,
        Tok::If => "if"@,
        Tok::Else => "else"@,
        Tok::Return => "return"@,
    }
}

impl Token {
    /// A deep copy with the same view.
    pub fn duplicate(&self) -> (r: Token)
        ensures
            r@ == self@,
    {
        match self {
            Token::Illegal(c) => Token::Illegal(*c),
            Token::Eof => Token::Eof,
            Token::Identifier(s) => Token::Identifier(s.clone()),
            Token::Integer(v) => Token::Integer(*v),
            Token::String(s) => Token::String(s.clone()),
            Token::Assign => Token::Assign,
            Token::Plus => Token::Plus,
            Token::Minus => Token::Minus,
            Token::Asterisk => Token::Asterisk,
            Token::Slash => Token::Slash,
            Token::Bang => Token::Bang,
            Token::Lt => Token::Lt,
            Token::Gt => Token::Gt,
            Token::Eq => Token::Eq,
            Token::Ne => Token::Ne,
            Token::Comma => Token::Comma,
            Token::Semicolon => Token::Semicolon,
            Token::Colon => Token::Colon,
            Token::LParen => Token::LParen,
            Token::RParen => Token::RParen,
            Token::LBrace => Token::LBrace,
            Token::RBrace => Token::RBrace,
            Token::LBracket => Token::LBracket,
            Token::RBracket => Token::RBracket,
            Token::Function => Token::Function,
            Token::Let => Token::Let,
            Token::True => Token::True,
            Token::False => Token::False,
            Token::If => Token::If,
            Token::Else => Token::Else,
            Token::Return => Token::Return,
        }
    }

    /// Token equality, decided on the views.
    pub fn eq_token(&self, other: &Token) -> (r: bool)
        ensures
            r == (self@ == other@),
    {
        match (self, other) {
            (Token::Illegal(a), Token::Illegal(b)) => *a == *b,
            (Token::Eof, Token::Eof) => true,
            (Token::Identifier(a), Token::Identifier(b)) => *a == *b,
            (Token::Integer(a), Token::Integer(b)) => *a == *b,
            (Token::String(a), Token::String(b)) => *a == *b,
            (Token::Assign, Token::Assign) => true,
            (Token::Plus, Token::Plus) => true,
            (Token::Minus, Token::Minus) => true,
            (Token::Asterisk, Token::Asterisk) => true,
            (Token::Slash, Token::Slash) => true,
            (Token::Bang, Token::Bang) => true,
            (Token::Lt, Token::Lt) => true,
            (Token::Gt, Token::Gt) => true,
            (Token::Eq, Token::Eq) => true,
            (Token::Ne, Token::Ne) => true,
            (Token::Comma, Token::Comma) => true,
            (Token::Semicolon, Token::Semicolon) => true,
            (Token::Colon, Token::Colon) => true,
            (Token::LParen, Token::LParen) => true,
            (Token::RParen, Token::RParen) => true,
            (Token::LBrace, Token::LBrace) => true,
            (Token::RBrace, Token::RBrace) => true,
            (Token::LBracket, Token::LBracket) => true,
            (Token::RBracket, Token::RBracket) => true,
            (Token::Function, Token::Function) => true,
            (Token::Let, Token::Let) => true,
            (Token::True, Token::True) => true,
            (Token::False, Token::False) => true,
            (Token::If, Token::If) => true,
            (Token::Else, Token::Else) => true,
            (Token::Return, Token::Return) => true,
            _ => false,
        }
    }

    /// The textual form of this token, for diagnostics and display.
    pub fn to_text(&self) -> (r: String)
        ensures
            r@ == tok_text(self@),
    {
        match self {
            Token::Illegal(c) => {
                let mut s = String::from_str("Illegal(");
                push_char(&mut s, *c);
                s.append(")");
                s
            },
            Token::Eof => String::from_str("Eof"),
            Token::Identifier(v) => v.clone(),
            Token::Integer(v) => {
                let mut s = String::from_str("Int(");
                let digits = dec_isize(*v);
                s.append(digits.as_str());
                s.append(")");
                s
            },
            Token::String(v) => {
                let mut s = String::from_str("String(");
                s.append(v.as_str());
                s.append(")");
                s
            },
            Token::Assign => String::from_str("="),
            Token::Plus => String::from_str("+"),
            Token::Minus => String::from_str("-"),
            Token::Asterisk => String::from_str("*"),
            Token::Slash => String::from_str("/"),
            Token::Bang => String::from_str("!"),
            Token::Lt => String::from_str("<"),
            Token::Gt => String::from_str(">"),
            Token::Eq => String::from_str("=="),
            Token::Ne => String::from_str("!="),
            Token::Comma => String::from_str(","),
            Token::Semicolon => String::from_str(";"),
            Token::Colon => String::from_str(":"),
            Token::LParen => String::from_str("("),
            Token::RParen => String::from_str(")"),
            Token::LBrace => String::from_str("{"),
            Token::RBrace => String::from_str("}"),
            Token::LBracket => String::from_str("["),
            Token::RBracket => String::from_str("]"),
            Token::Function => String::from_str("fn"),
            Token::Let => String::from_str("let"),
            Token::True => String::from_str("true"),
            Token::False => String::from_str("false"),
            Token::If => String::from_str("if"),
            Token::Else => String::from_str("else"),
            Token::Return => String::from_str("return"),
        }
    }
}

} // verus!
