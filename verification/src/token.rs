//! The lexical categories of the language.

use crate::number::Number;
use vstd::prelude::*;

verus! {

/// One lexical unit.
#[derive(Debug)]
pub enum Token {
    Identifier(String),
    Number(Number),
    StringLiteral(String),
    Operator(String),
    If,
    Else,
    While,
    Def,
    Return,
    Print,
    True,
    False,
    And,
    Or,
    Not,
    Assign,
    LeftParen,
    RightParen,
    LeftBracket,
    RightBracket,
    Comma,
    Colon,
    Newline,
    Indent,
    Dedent,
    EOF,
}

/// A token as a mathematical value: texts are sequences of characters.
pub enum TokenView {
    Identifier(Seq<char>),
    Number(Number),
    StringLiteral(Seq<char>),
    Operator(Seq<char>),
    If,
    Else,
    While,
    Def,
    Return,
    Print,
    True,
    False,
    And,
    Or,
    Not,
    Assign,
    LeftParen,
    RightParen,
    LeftBracket,
    RightBracket,
    Comma,
    Colon,
    Newline,
    Indent,
    Dedent,
    EOF,
}

impl View for Token {
    type V = TokenView;

    open spec fn view(&self) -> TokenView {
        match self {
            Token::Identifier(name) => TokenView::Identifier(name@),
            Token::Number(value) => TokenView::Number(*value),
            Token::StringLiteral(text) => TokenView::StringLiteral(text@),
            Token::Operator(symbol) => TokenView::Operator(symbol@),
            Token::If => TokenView::If,
            Token::Else => TokenView::Else,
            Token::While => TokenView::While,
            Token::Def => TokenView::Def,
            Token::Return => TokenView::Return,
            Token::Print => TokenView::Print,
            Token::True => TokenView::True,
            Token::False => TokenView::False,
            Token::And => TokenView::And,
            Token::Or => TokenView::Or,
            Token::Not => TokenView::Not,
            Token::Assign => TokenView::Assign,
            Token::LeftParen => TokenView::LeftParen,
            Token::RightParen => TokenView::RightParen,
            Token::LeftBracket => TokenView::LeftBracket,
            Token::RightBracket => TokenView::RightBracket,
            Token::Comma => TokenView::Comma,
            Token::Colon => TokenView::Colon,
            Token::Newline => TokenView::Newline,
            Token::Indent => TokenView::Indent,
            Token::Dedent => TokenView::Dedent,
            Token::EOF => TokenView::EOF,
        }
    }
}

impl TokenView {
    /// Equality of tokens: the same category and equal payloads, numbers
    /// being compared as numbers.
    pub open spec fn same(self, other: TokenView) -> bool {
        match (self, other) {
            (TokenView::Number(a), TokenView::Number(b)) => a.equals(b),
            (TokenView::Number(_), _) => false,
            (_, TokenView::Number(_)) => false,
            _ => self == other,
        }
    }
}

/// The views of a sequence of tokens, one for one.
pub open spec fn token_views(tokens: Seq<Token>) -> Seq<TokenView> {
    Seq::new(tokens.len(), |i: int| tokens[i]@)
}

impl Token {
    /// Whether two tokens are equal.
    pub fn same(&self, other: &Token) -> (r: bool)
        ensures
            r == self@.same(other@),
    {
        match (self, other) {
            (Token::Identifier(a), Token::Identifier(b)) => *a == *b,
            (Token::Number(a), Token::Number(b)) => a.is_equal(*b),
            (Token::StringLiteral(a), Token::StringLiteral(b)) => *a == *b,
            (Token::Operator(a), Token::Operator(b)) => *a == *b,
            (Token::If, Token::If) => true,
            (Token::Else, Token::Else) => true,
            (Token::While, Token::While) => true,
            (Token::Def, Token::Def) => true,
            (Token::Return, Token::Return) => true,
            (Token::Print, Token::Print) => true,
            (Token::True, Token::True) => true,
            (Token::False, Token::False) => true,
            (Token::And, Token::And) => true,
            (Token::Or, Token::Or) => true,
            (Token::Not, Token::Not) => true,
            (Token::Assign, Token::Assign) => true,
            (Token::LeftParen, Token::LeftParen) => true,
            (Token::RightParen, Token::RightParen) => true,
            (Token::LeftBracket, Token::LeftBracket) => true,
            (Token::RightBracket, Token::RightBracket) => true,
            (Token::Comma, Token::Comma) => true,
            (Token::Colon, Token::Colon) => true,
            (Token::Newline, Token::Newline) => true,
            (Token::Indent, Token::Indent) => true,
            (Token::Dedent, Token::Dedent) => true,
            (Token::EOF, Token::EOF) => true,
            _ => false,
        }
    }
}

impl Clone for Token {
    fn clone(&self) -> (r: Token)
        ensures
            r@ == self@,
    {
        match self {
            Token::Identifier(name) => Token::Identifier(name.clone()),
            Token::Number(value) => Token::Number(*value),
            Token::StringLiteral(text) => Token::StringLiteral(text.clone()),
            Token::Operator(symbol) => Token::Operator(symbol.clone()),
            Token::If => Token::If,
            Token::Else => Token::Else,
            Token::While => Token::While,
            Token::Def => Token::Def,
            Token::Return => Token::Return,
            Token::Print => Token::Print,
            Token::True => Token::True,
            Token::False => Token::False,
            Token::And => Token::And,
            Token::Or => Token::Or,
            Token::Not => Token::Not,
            Token::Assign => Token::Assign,
            Token::LeftParen => Token::LeftParen,
            Token::RightParen => Token::RightParen,
            Token::LeftBracket => Token::LeftBracket,
            Token::RightBracket => Token::RightBracket,
            Token::Comma => Token::Comma,
            Token::Colon => Token::Colon,
            Token::Newline => Token::Newline,
            Token::Indent => Token::Indent,
            Token::Dedent => Token::Dedent,
            Token::EOF => Token::EOF,
        }
    }
}

impl PartialEq for Token {
    fn eq(&self, other: &Token) -> (r: bool) {
        self.same(other)
    }
}

impl vstd::std_specs::cmp::PartialEqSpecImpl for Token {
    open spec fn obeys_eq_spec() -> bool {
        true
    }

    open spec fn eq_spec(&self, other: &Token) -> bool {
        self@.same(other@)
    }
}

} // verus!
