//! Lexical units.
use vstd::prelude::*;
use crate::number::Real;

verus! {

/// One lexical unit of the language. `Eof` ends every token stream.
#[derive(Debug, Clone, PartialEq)]
pub enum Token {
    Illegal(String),
    Eof,
    Identifier(String),
    Real(Real),
    Integer(i64),
    Plus,
    Minus,
    Exponent,
    Division,
    Multiply,
    LeftParen,
    RightParen,
    LeftBrace,
    RightBrace,
    LeftSquareBracket,
    RightSquareBracket,
    Comma,
    Semicolon,
    And,
    Or,
    Xor,
    True,
    False,
    Colon,
    If,
    Else,
    Modulo,
    Undefined,
    Assign,
    Equals,
    NotEquals,
    LessThan,
    LessThanEquals,
    GreaterThan,
    GreaterThanEquals,
    Not,
    Let,
    FuncFn,
    PlusMinus,
    MinusPlus,
    As,
    Question,
    In,
    Bang,
    Bar,
    FatArrow,
    SkinnyArrow,
    Union,
    Intersection,
    SymmetricDifference,
    SetDifference,
    For,
    Where,
    Import,
    Use,
    Export,
    Pub,
}

impl Token {
    /// The same token.
    pub fn copy(&self) -> (r: Token)
        ensures
            r == *self,
    {
        match self {
            Token::Illegal(v) => Token::Illegal(v.clone()),
            Token::Eof => Token::Eof,
            Token::Identifier(v) => Token::Identifier(v.clone()),
            Token::Real(v) => Token::Real(*v),
            Token::Integer(v) => Token::Integer(*v),
            Token::Plus => Token::Plus,
            Token::Minus => Token::Minus,
            Token::Exponent => Token::Exponent,
            Token::Division => Token::Division,
            Token::Multiply => Token::Multiply,
            Token::LeftParen => Token::LeftParen,
            Token::RightParen => Token::RightParen,
            Token::LeftBrace => Token::LeftBrace,
            Token::RightBrace => Token::RightBrace,
            Token::LeftSquareBracket => Token::LeftSquareBracket,
            Token::RightSquareBracket => Token::RightSquareBracket,
            Token::Comma => Token::Comma,
            Token::Semicolon => Token::Semicolon,
            Token::And => Token::And,
            Token::Or => Token::Or,
            Token::Xor => Token::Xor,
            Token::True => Token::True,
            Token::False => Token::False,
            Token::Colon => Token::Colon,
            Token::If => Token::If,
            Token::Else => Token::Else,
            Token::Modulo => Token::Modulo,
            Token::Undefined => Token::Undefined,
            Token::Assign => Token::Assign,
            Token::Equals => Token::Equals,
            Token::NotEquals => Token::NotEquals,
            Token::LessThan => Token::LessThan,
            Token::LessThanEquals => Token::LessThanEquals,
            Token::GreaterThan => Token::GreaterThan,
            Token::GreaterThanEquals => Token::GreaterThanEquals,
            Token::Not => Token::Not,
            Token::Let => Token::Let,
            Token::FuncFn => Token::FuncFn,
            Token::PlusMinus => Token::PlusMinus,
            Token::MinusPlus => Token::MinusPlus,
            Token::As => Token::As,
            Token::Question => Token::Question,
            Token::In => Token::In,
            Token::Bang => Token::Bang,
            Token::Bar => Token::Bar,
            Token::FatArrow => Token::FatArrow,
            Token::SkinnyArrow => Token::SkinnyArrow,
            Token::Union => Token::Union,
            Token::Intersection => Token::Intersection,
            Token::SymmetricDifference => Token::SymmetricDifference,
            Token::SetDifference => Token::SetDifference,
            Token::For => Token::For,
            Token::Where => Token::Where,
            Token::Import => Token::Import,
            Token::Use => Token::Use,
            Token::Export => Token::Export,
            Token::Pub => Token::Pub,
        }
    }
}

/// The keyword that a word spells, if any.
pub open spec fn spec_keyword(w: Seq<char>) -> Option<Token> {
    if w == seq!['a', 'n', 'd'] {
        Some(Token::And)
    } else if w == seq!['o', 'r'] {
        Some(Token::Or)
    } else if w == seq!['x', 'o', 'r'] {
        Some(Token::Xor)
    } else if w == seq!['t', 'r', 'u', 'e'] {
        Some(Token::True)
    } else if w == seq!['f', 'a', 'l', 's', 'e'] {
        Some(Token::False)
    } else if w == seq!['u', 'n', 'd', 'e', 'f', 'i', 'n', 'e', 'd'] {
        Some(Token::Undefined)
    } else if w == seq!['i', 'f'] {
        Some(Token::If)
    } else if w == seq!['e', 'l', 's', 'e'] {
        Some(Token::Else)
    } else if w == seq!['l', 'e', 't'] {
        Some(Token::Let)
    } else if w == seq!['f', 'n'] {
        Some(Token::FuncFn)
    } else if w == seq!['n', 'o', 't'] {
        Some(Token::Not)
    } else if w == seq!['a', 's'] {
        Some(Token::As)
    } else if w == seq!['i', 'n'] {
        Some(Token::In)
    } else if w == seq!['f', 'o', 'r'] {
        Some(Token::For)
    } else if w == seq!['w', 'h', 'e', 'r', 'e'] {
        Some(Token::Where)
    } else if w == seq!['i', 'm', 'p', 'o', 'r', 't'] {
        Some(Token::Import)
    } else if w == seq!['u', 's', 'e'] {
        Some(Token::Use)
    } else if w == seq!['e', 'x', 'p', 'o', 'r', 't'] {
        Some(Token::Export)
    } else if w == seq!['p', 'u', 'b'] {
        Some(Token::Pub)
    } else {
        None
    }
}

fn chars_equal(a: &Vec<char>, b: &[char]) -> (r: bool)
    ensures
        r == (a@ == b@),
{
    if a.len() != b.len() {
        return false;
    }
    let mut i: usize = 0;
    while i < a.len()
        invariant
            a.len() == b@.len(),
            i <= a.len(),
            forall|j: int| 0 <= j < i ==> a@[j] == b@[j],
        decreases a.len() - i,
    {
        if a[i] != b[i] {
            return false;
        }
        i = i + 1;
    }
    assert(a@ =~= b@);
    true
}

/// The keyword token that a word spells, if any.
pub fn keyword(w: &Vec<char>) -> (r: Option<Token>)
    ensures
        r == spec_keyword(w@),
{
    if chars_equal(w, &['a', 'n', 'd']) {
        Some(Token::And)
    } else if chars_equal(w, &['o', 'r']) {
        Some(Token::Or)
    } else if chars_equal(w, &['x', 'o', 'r']) {
        Some(Token::Xor)
    } else if chars_equal(w, &['t', 'r', 'u', 'e']) {
        Some(Token::True)
    } else if chars_equal(w, &['f', 'a', 'l', 's', 'e']) {
        Some(Token::False)
    } else if chars_equal(w, &['u', 'n', 'd', 'e', 'f', 'i', 'n', 'e', 'd']) {
        Some(Token::Undefined)
    } else if chars_equal(w, &['i', 'f']) {
        Some(Token::If)
    } else if chars_equal(w, &['e', 'l', 's', 'e']) {
        Some(Token::Else)
    } else if chars_equal(w, &['l', 'e', 't']) {
        Some(Token::Let)
    } else if chars_equal(w, &['f', 'n']) {
        Some(Token::FuncFn)
    } else if chars_equal(w, &['n', 'o', 't']) {
        Some(Token::Not)
    } else if chars_equal(w, &['a', 's']) {
        Some(Token::As)
    } else if chars_equal(w, &['i', 'n']) {
        Some(Token::In)
    } else if chars_equal(w, &['f', 'o', 'r']) {
        Some(Token::For)
    } else if chars_equal(w, &['w', 'h', 'e', 'r', 'e']) {
        Some(Token::Where)
    } else if chars_equal(w, &['i', 'm', 'p', 'o', 'r', 't']) {
        Some(Token::Import)
    } else if chars_equal(w, &['u', 's', 'e']) {
        Some(Token::Use)
    } else if chars_equal(w, &['e', 'x', 'p', 'o', 'r', 't']) {
        Some(Token::Export)
    } else if chars_equal(w, &['p', 'u', 'b']) {
        Some(Token::Pub)
    } else {
        None
    }
}

} // verus!
