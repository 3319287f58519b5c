//! The whole way from a source text to its effects.

use crate::error::{ScriptError, ScriptErrorView};
use crate::interpreter::Interpreter;
use crate::lexer::{tokenize, tokens_of};
use crate::grammar::program_of;
use crate::parser::Parser;
use crate::semantics::{eval, Limits, State};
use crate::value::{Val, Value};
use vstd::prelude::*;

verus! {

/// What a script gives: its value or its failure, and the state it leaves.
pub struct Run {
    pub result: Result<Val, ScriptErrorView>,
    pub state: State,
}

/// What a source text does in a state: it is lexed, the tokens are parsed
/// as a program, and the program is evaluated. A text that does not lex or
/// parse leaves the state as it was.
pub open spec fn run(source: Seq<char>, state: State, limits: Limits) -> Run {
    match tokens_of(source) {
        Err(e) => Run { result: Err(ScriptErrorView::Lex(e)), state },
        Ok(tokens) => match program_of(tokens) {
            Err(e) => Run { result: Err(ScriptErrorView::Parse(e)), state },
            Ok(program) => {
                let o = eval(program, state, limits.depth, limits.iterations);
                Run {
                    result: match o.result {
                        Ok(v) => Ok(v),
                        Err(e) => Err(ScriptErrorView::Eval(e)),
                    },
                    state: o.state,
                }
            },
        },
    }
}

/// The view of a value or failure as a script hands it out.
pub open spec fn run_result(r: Result<Value, ScriptError>) -> Result<Val, ScriptErrorView> {
    match r {
        Ok(value) => Ok(value@),
        Err(e) => Err(e@),
    }
}

/// Runs a source text in an interpreter: the value of its last statement,
/// or the first failure. What it binds stays bound and what it prints is
/// added to the lines that the interpreter holds.
pub fn execute_code(code: &str, interpreter: &mut Interpreter) -> (r: Result<Value, ScriptError>)
    ensures
        final(interpreter)@.limits == old(interpreter)@.limits,
        run_result(r) == run(code@, old(interpreter)@.state, old(interpreter)@.limits).result,
        final(interpreter)@.state == run(
            code@,
            old(interpreter)@.state,
            old(interpreter)@.limits,
        ).state,
{
    let tokens = match tokenize(code) {
        Err(e) => {
            return Err(ScriptError::Lex(e));
        },
        Ok(tokens) => tokens,
    };
    let mut parser = Parser::new(tokens);
    let ast = match parser.parse() {
        Err(e) => {
            return Err(ScriptError::Parse(e));
        },
        Ok(ast) => ast,
    };
    match interpreter.interpret(&ast) {
        Err(e) => Err(ScriptError::Eval(e)),
        Ok(value) => Ok(value),
    }
}

} // verus!
