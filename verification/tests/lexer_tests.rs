use ronkey::lexer::Lexer;
use ronkey::token::Token;

#[test]
fn test_next_token() {
    let input = r#"
let five = 5;
let ten = 10;

let add = fn(x, y) {
    x + y;
};

let result = add(five, ten);
!-/*5;
5 < 10 > 5;

if (5 < 10) {
    return true;
} else {
    return false;
}

10 == 10;
10 != 9;
"foobar";
"foo bar";
[1, 2];
{"foo": "bar"};
"#;

    let tests = [
        Token::Let,
        Token::Identifier("five".to_string()),
        Token::Assign,
        Token::Integer(5),
        Token::Semicolon,
        Token::Let,
        Token::Identifier("ten".to_string()),
        Token::Assign,
        Token::Integer(10),
        Token::Semicolon,
        Token::Let,
        Token::Identifier("add".to_string()),
        Token::Assign,
        Token::Function,
        Token::LParen,
        Token::Identifier("x".to_string()),
        Token::Comma,
        Token::Identifier("y".to_string()),
        Token::RParen,
        Token::LBrace,
        Token::Identifier("x".to_string()),
        Token::Plus,
        Token::Identifier("y".to_string()),
        Token::Semicolon,
        Token::RBrace,
        Token::Semicolon,
        Token::Let,
        Token::Identifier("result".to_string()),
        Token::Assign,
        Token::Identifier("add".to_string()),
        Token::LParen,
        Token::Identifier("five".to_string()),
        Token::Comma,
        Token::Identifier("ten".to_string()),
        Token::RParen,
        Token::Semicolon,
        Token::Bang,
        Token::Minus,
        Token::Slash,
        Token::Asterisk,
        Token::Integer(5),
        Token::Semicolon,
        Token::Integer(5),
        Token::Lt,
        Token::Integer(10),
        Token::Gt,
        Token::Integer(5),
        Token::Semicolon,
        Token::If,
        Token::LParen,
        Token::Integer(5),
        Token::Lt,
        Token::Integer(10),
        Token::RParen,
        Token::LBrace,
        Token::Return,
        Token::True,
        Token::Semicolon,
        Token::RBrace,
        Token::Else,
        Token::LBrace,
        Token::Return,
        Token::False,
        Token::Semicolon,
        Token::RBrace,
        Token::Integer(10),
        Token::Eq,
        Token::Integer(10),
        Token::Semicolon,
        Token::Integer(10),
        Token::Ne,
        Token::Integer(9),
        Token::Semicolon,
        Token::String("foobar".to_string()),
        Token::Semicolon,
        Token::String("foo bar".to_string()),
        Token::Semicolon,
        Token::LBracket,
        Token::Integer(1),
        Token::Comma,
        Token::Integer(2),
        Token::RBracket,
        Token::Semicolon,
        Token::LBrace,
        Token::String("foo".to_string()),
        Token::Colon,
        Token::String("bar".to_string()),
        Token::RBrace,
        Token::Semicolon,
        Token::Eof,
    ];

    let mut lexer = Lexer::new(input);

    for test in tests.iter() {
        let token = lexer.next_token();
        assert_eq!(token, *test);
    }
}

#[test]
fn test_unterminated_string() {
    let mut lexer = Lexer::new(r#""abc"#);
    assert_eq!(lexer.next_token(), Token::String("abc".to_string()));
    assert_eq!(lexer.next_token(), Token::Eof);
    assert_eq!(lexer.next_token(), Token::Eof);
}

#[test]
fn test_illegal_tokens() {
    let mut lexer = Lexer::new("5 @ 7");
    assert_eq!(lexer.next_token(), Token::Integer(5));
    assert_eq!(lexer.next_token(), Token::Illegal('@'));
    assert_eq!(lexer.next_token(), Token::Integer(7));
    assert_eq!(lexer.next_token(), Token::Eof);
}

#[test]
fn test_integer_literal_out_of_range() {
    let mut lexer = Lexer::new("99999999999999999999");
    assert_eq!(lexer.next_token(), Token::Illegal('9'));
    assert_eq!(lexer.next_token(), Token::Eof);
}

#[test]
fn test_token_text() {
    assert_eq!(Token::Assign.to_text(), "=");
    assert_eq!(Token::Integer(42).to_text(), "Int(42)");
    assert_eq!(Token::Integer(-7).to_text(), "Int(-7)");
    assert_eq!(Token::Identifier("abc".to_string()).to_text(), "abc");
    assert_eq!(Token::String("abc".to_string()).to_text(), "String(abc)");
    assert_eq!(Token::Function.to_text(), "fn");
    assert_eq!(Token::Eof.to_text(), "Eof");
}
