//! The ways in which lexing, parsing and evaluation fail.

use crate::token::{Token, TokenView};
use vstd::prelude::*;

verus! {

/// A failure of the lexer.
#[derive(Debug, Clone, Copy, PartialEq, Eq, Structural)]
pub enum LexError {
    /// A character that starts no token.
    UnexpectedCharacter(char),
}

/// A failure of the parser.
#[derive(Debug)]
pub enum ParseError {
    /// The grammar asks for one token and another stands there.
    Expected { expected: Token, found: Token },
    /// A name of a function or of a parameter is due and something else stands
    /// there.
    ExpectedName { found: Token },
    /// No expression starts with this token.
    UnexpectedToken { found: Token },
    /// The tokens end where an expression is due.
    UnexpectedEnd,
}

/// A failure of the parser as a mathematical value.
pub enum ParseErrorView {
    Expected { expected: TokenView, found: TokenView },
    ExpectedName { found: TokenView },
    UnexpectedToken { found: TokenView },
    UnexpectedEnd,
}

impl View for ParseError {
    type V = ParseErrorView;

    open spec fn view(&self) -> ParseErrorView {
        match self {
            ParseError::Expected { expected, found } => ParseErrorView::Expected {
                expected: expected@,
                found: found@,
            },
            ParseError::ExpectedName { found } => ParseErrorView::ExpectedName { found: found@ },
            ParseError::UnexpectedToken { found } => ParseErrorView::UnexpectedToken {
                found: found@,
            },
            ParseError::UnexpectedEnd => ParseErrorView::UnexpectedEnd,
        }
    }
}

/// A failure of the evaluation.
#[derive(Debug)]
pub enum EvalError {
    /// The operator is none that the language knows.
    UnknownOperator { operator: String },
    /// The operator does not take operands of these kinds.
    TypeMismatch { operator: String },
    /// A division by zero.
    DivisionByZero,
    /// A call of a name that is bound to no function.
    NotAFunction { name: String },
    /// A call with more or fewer arguments than the function has
    /// parameters.
    ArityMismatch { name: String, expected: usize, found: usize },
    /// The evaluation is nested deeper than the interpreter allows.
    DepthExceeded,
    /// A loop has run more often than the interpreter allows.
    IterationLimit,
}

/// A failure of the evaluation as a mathematical value.
pub enum EvalErrorView {
    UnknownOperator { operator: Seq<char> },
    TypeMismatch { operator: Seq<char> },
    DivisionByZero,
    NotAFunction { name: Seq<char> },
    ArityMismatch { name: Seq<char>, expected: nat, found: nat },
    DepthExceeded,
    IterationLimit,
}

impl View for EvalError {
    type V = EvalErrorView;

    open spec fn view(&self) -> EvalErrorView {
        match self {
            EvalError::UnknownOperator { operator } => EvalErrorView::UnknownOperator {
                operator: operator@,
            },
            EvalError::TypeMismatch { operator } => EvalErrorView::TypeMismatch {
                operator: operator@,
            },
            EvalError::DivisionByZero => EvalErrorView::DivisionByZero,
            EvalError::NotAFunction { name } => EvalErrorView::NotAFunction { name: name@ },
            EvalError::ArityMismatch { name, expected, found } => EvalErrorView::ArityMismatch {
                name: name@,
                expected: *expected as nat,
                found: *found as nat,
            },
            EvalError::DepthExceeded => EvalErrorView::DepthExceeded,
            EvalError::IterationLimit => EvalErrorView::IterationLimit,
        }
    }
}

/// A failure of a script: of its lexing, its parsing or its evaluation.
#[derive(Debug)]
pub enum ScriptError {
    Lex(LexError),
    Parse(ParseError),
    Eval(EvalError),
}

/// A failure of a script as a mathematical value.
pub enum ScriptErrorView {
    Lex(LexError),
    Parse(ParseErrorView),
    Eval(EvalErrorView),
}

impl View for ScriptError {
    type V = ScriptErrorView;

    open spec fn view(&self) -> ScriptErrorView {
        match self {
            ScriptError::Lex(e) => ScriptErrorView::Lex(*e),
            ScriptError::Parse(e) => ScriptErrorView::Parse(e@),
            ScriptError::Eval(e) => ScriptErrorView::Eval(e@),
        }
    }
}

} // verus!
