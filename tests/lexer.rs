use slope::lexer::Lexer;
use slope::number::Real;
use slope::token::Token;
use slope::token::Token::{
    Assign, Bar, Colon, Comma, Division, Eof, Equals, Exponent, FuncFn, Identifier, Illegal, Integer,
    Intersection, LeftBrace, LeftParen, LeftSquareBracket, Let, LessThan, LessThanEquals, Minus, MinusPlus,
    Modulo, Multiply, NotEquals, Plus, PlusMinus, RightBrace, RightParen, RightSquareBracket, Semicolon,
    SetDifference, SymmetricDifference, Union,
};

fn dec(x: f64) -> Token {
    Token::Real(Real::parse(&format!("{}", x)).unwrap())
}

fn lex(s: &str) -> Vec<Token> {
    Lexer::new(s).tokens()
}

#[test]
fn two_plus_two() {
    assert_eq!(lex("four = 2 + 2"), vec![
        Identifier("four".into()),
        Assign,
        Integer(2),
        Plus,
        Integer(2),
        Eof
    ]);
}

#[test]
fn multiline_source_code() {
    assert_eq!(lex("
        pi = 3.14
        radius = 10
        area = pi * radius ^ 2
        area == 314.0
        "), vec![
        Identifier("pi".into()),
        Assign,
        dec(3.14),
        Identifier("radius".into()),
        Assign,
        Integer(10),
        Identifier("area".into()),
        Assign,
        Identifier("pi".into()),
        Multiply,
        Identifier("radius".into()),
        Exponent,
        Integer(2),
        Identifier("area".into()),
        Equals,
        dec(314.0),
        Eof
    ]);
}

#[test]
fn random() {
    assert_eq!(lex("/ *-+=/=^[]{}();:.,3.0pi%2-1+/-/+ -/+"), vec![
        Division,
        Multiply,
        Minus,
        Plus,
        NotEquals,
        Exponent,
        LeftSquareBracket,
        RightSquareBracket,
        LeftBrace,
        RightBrace,
        LeftParen,
        RightParen,
        Semicolon,
        Colon,
        Illegal(".".into()),
        Comma,
        dec(3.0),
        Identifier("pi".into()),
        Modulo,
        Integer(2),
        Minus,
        Integer(1),
        PlusMinus,
        Division,
        Plus,
        MinusPlus,
        Eof
    ]);
}

#[test]
fn function() {
    assert_eq!(lex("fn circleArea(radius) = radius ^ 2 * pi;"), vec![
        FuncFn,
        Identifier("circleArea".into()),
        LeftParen,
        Identifier("radius".into()),
        RightParen,
        Assign,
        Identifier("radius".into()),
        Exponent,
        Integer(2),
        Multiply,
        Identifier("pi".into()),
        Semicolon,
        Eof
    ]);
}

#[test]
fn negative_integer() {
    assert_eq!(lex("let negOne = -1;"), vec![
        Let,
        Identifier("negOne".into()),
        Assign,
        Minus,
        Integer(1),
        Semicolon,
        Eof
    ]);
}

#[test]
fn lex_fuction_declaration() {
    assert_eq!(lex("fn area(radius) = pi * radius ^ 2;"), vec![
        FuncFn,
        Identifier("area".into()),
        LeftParen,
        Identifier("radius".into()),
        RightParen,
        Assign,
        Identifier("pi".into()),
        Multiply,
        Identifier("radius".into()),
        Exponent,
        Integer(2),
        Semicolon,
        Eof
    ]);
}

#[test]
fn lex_abs_val() {
    assert_eq!(lex("|value|"), vec![
        Bar,
        Identifier("value".into()),
        Bar,
        Eof
    ]);
}

#[test]
fn lex_set_union() {
    assert_eq!(lex(r"A \/ B"), vec![
        Identifier("A".into()),
        Union,
        Identifier("B".into()),
        Eof
    ]);
}

#[test]
fn lex_set_intersection() {
    assert_eq!(lex(r"A /\ B"), vec![
        Identifier("A".into()),
        Intersection,
        Identifier("B".into()),
        Eof
    ]);
}

#[test]
fn lex_set_symmetric_difference() {
    assert_eq!(lex(r"A /_\ B"), vec![
        Identifier("A".into()),
        SymmetricDifference,
        Identifier("B".into()),
        Eof
    ]);
}

#[test]
fn lex_set_difference() {
    assert_eq!(lex(r"A \ B"), vec![
        Identifier("A".into()),
        SetDifference,
        Identifier("B".into()),
        Eof
    ]);
}

#[test]
fn lex_less_than() {
    assert_eq!(lex(r"A < B"), vec![
        Identifier("A".into()),
        LessThan,
        Identifier("B".into()),
        Eof
    ]);
}

#[test]
fn lex_less_than_equals() {
    assert_eq!(lex(r"A <= B"), vec![
        Identifier("A".into()),
        LessThanEquals,
        Identifier("B".into()),
        Eof
    ]);
}

#[test]
fn lex_leading_underscore_in_identifier() {
    assert_eq!(lex("_foobar"), vec![
        Illegal("_".into()),
        Identifier("foobar".into()),
        Eof
    ]);
}

#[test]
fn lex_set_literal() {
    assert_eq!(lex("{ 1, 2, 3 };"), vec![
        LeftBrace,
        Integer(1),
        Comma,
        Integer(2),
        Comma,
        Integer(3),
        RightBrace,
        Semicolon,
        Eof
    ]);
}

#[test]
fn comments_should_be_ignored() {
    assert_eq!(lex(r"A \ B  # hello there"), vec![
        Identifier("A".into()),
        SetDifference,
        Identifier("B".into()),
        Eof
    ]);
}

#[test]
fn comments_breaking_an_expression_should_be_ignored() {
    assert_eq!(lex(r"A + 
    # hello comment
    B"), vec![
        Identifier("A".into()),
        Plus,
        Identifier("B".into()),
        Eof
    ]);
}

#[test]
fn keywords_and_illegal_compounds() {
    assert_eq!(
        lex("if else not in as xor undefined =/x +/ ?"),
        vec![
            Token::If,
            Token::Else,
            Token::Not,
            Token::In,
            Token::As,
            Token::Xor,
            Token::Undefined,
            Illegal("=/x".into()),
            Illegal("+/ ".into()),
            Token::Question,
            Eof
        ]
    );
}

#[test]
fn empty_text_is_one_eof() {
    assert_eq!(lex(""), vec![Eof]);
    assert_eq!(lex("   # only a comment"), vec![Eof]);
}

#[test]
fn large_integers_become_decimals() {
    assert_eq!(lex("9223372036854775807"), vec![Integer(9223372036854775807), Eof]);
    assert_eq!(lex("9223372036854775808"), vec![Token::Real(Real::parse("9223372036854775808").unwrap()), Eof]);
}
