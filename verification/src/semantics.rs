//! What programs mean: the value of a syntax tree in an environment, the
//! environment it leaves, and the lines it prints.

use crate::ast::Node;
use crate::environment::lookup;
use crate::error::EvalErrorView;
use crate::value::{PrintedView, Val};
use vstd::prelude::*;

verus! {

/// What an evaluation works on: the bindings, and the lines printed so far.
pub struct State {
    pub env: Map<Seq<char>, Val>,
    pub output: Seq<PrintedView>,
}

/// What an evaluation gives: the value or the failure, and the state it
/// leaves. After a failure the state is that in which it came about.
pub struct Outcome {
    pub result: Result<Val, EvalErrorView>,
    pub state: State,
}

/// How far an evaluation may go: `depth` bounds the nesting of trees and
/// calls, `iterations` the number of times one loop runs its body.
pub struct Limits {
    pub depth: nat,
    pub iterations: nat,
}

/// The value of `left operator right`.
///
/// `+` adds two numbers or joins two strings; `- * / %` take numbers, and
/// `/` fails on a zero divisor; `< > <= >=` compare numbers; `==` and `!=`
/// compare any two values; `and` and `or` combine what the operands are as
/// conditions. Operands of other kinds are a type mismatch.
pub open spec fn binary_value(left: Val, operator: Seq<char>, right: Val) -> Result<
    Val,
    EvalErrorView,
> {
    let mismatch = Err::<Val, EvalErrorView>(EvalErrorView::TypeMismatch { operator });
    if operator == "+"@ {
        match (left, right) {
            (Val::Number(l), Val::Number(r)) => Ok(Val::Number(l.sum(r))),
            (Val::String(l), Val::String(r)) => Ok(Val::String(l + r)),
            _ => mismatch,
        }
    } else if operator == "-"@ {
        match (left, right) {
            (Val::Number(l), Val::Number(r)) => Ok(Val::Number(l.difference(r))),
            _ => mismatch,
        }
    } else if operator == "*"@ {
        match (left, right) {
            (Val::Number(l), Val::Number(r)) => Ok(Val::Number(l.product(r))),
            _ => mismatch,
        }
    } else if operator == "/"@ {
        match (left, right) {
            (Val::Number(l), Val::Number(r)) => if r.zero() {
                Err(EvalErrorView::DivisionByZero)
            } else {
                Ok(Val::Number(l.quotient(r)))
            },
            _ => mismatch,
        }
    } else if operator == "%"@ {
        match (left, right) {
            (Val::Number(l), Val::Number(r)) => Ok(Val::Number(l.rest(r))),
            _ => mismatch,
        }
    } else if operator == "=="@ {
        Ok(Val::Boolean(left.equals(right)))
    } else if operator == "!="@ {
        Ok(Val::Boolean(!left.equals(right)))
    } else if operator == "<"@ {
        match (left, right) {
            (Val::Number(l), Val::Number(r)) => Ok(Val::Boolean(l.below(r))),
            _ => mismatch,
        }
    } else if operator == ">"@ {
        match (left, right) {
            (Val::Number(l), Val::Number(r)) => Ok(Val::Boolean(r.below(l))),
            _ => mismatch,
        }
    } else if operator == "<="@ {
        match (left, right) {
            (Val::Number(l), Val::Number(r)) => Ok(Val::Boolean(l.at_most(r))),
            _ => mismatch,
        }
    } else if operator == ">="@ {
        match (left, right) {
            (Val::Number(l), Val::Number(r)) => Ok(Val::Boolean(r.at_most(l))),
            _ => mismatch,
        }
    } else if operator == "and"@ {
        Ok(Val::Boolean(left.truthy() && right.truthy()))
    } else if operator == "or"@ {
        Ok(Val::Boolean(left.truthy() || right.truthy()))
    } else {
        Err(EvalErrorView::UnknownOperator { operator })
    }
}

/// The value of `operator operand`: `-` negates a number, `+` leaves a
/// number as it is, `not` negates what the operand is as a condition.
pub open spec fn unary_value(operator: Seq<char>, operand: Val) -> Result<Val, EvalErrorView> {
    if operator == "-"@ {
        match operand {
            Val::Number(v) => Ok(Val::Number(v.negated())),
            _ => Err(EvalErrorView::TypeMismatch { operator }),
        }
    } else if operator == "+"@ {
        match operand {
            Val::Number(v) => Ok(Val::Number(v)),
            _ => Err(EvalErrorView::TypeMismatch { operator }),
        }
    } else if operator == "not"@ {
        Ok(Val::Boolean(!operand.truthy()))
    } else {
        Err(EvalErrorView::UnknownOperator { operator })
    }
}

/// What a call hands back from what its body gave: the value that a return
/// signal carries, and `Null` where the body ended without one.
pub open spec fn call_value(body: Result<Val, EvalErrorView>) -> Result<Val, EvalErrorView> {
    match body {
        Err(e) => Err(e),
        Ok(Val::ReturnValue(inner)) => Ok(*inner),
        Ok(_) => Ok(Val::Null),
    }
}

/// The value of a tree in a state.
///
/// Every tree uses up one level of `depth`, and so does every call; with
/// none left the evaluation fails.
pub open spec fn eval(node: Node, state: State, depth: nat, iterations: nat) -> Outcome
    decreases depth, 0nat,
{
    if depth == 0 {
        Outcome { result: Err(EvalErrorView::DepthExceeded), state }
    } else {
        let inner = (depth - 1) as nat;
        match node {
            Node::Program(statements) => eval_statements(
                statements,
                0,
                state,
                Val::Null,
                inner,
                iterations,
            ),
            Node::Block(statements) => {
                let o = eval_statements(statements, 0, state, Val::Null, inner, iterations);
                match o.result {
                    Ok(v) => if v is ReturnValue {
                        o
                    } else {
                        Outcome {
                            result: Ok(v),
                            state: State { env: state.env, output: o.state.output },
                        }
                    },
                    Err(_) => o,
                }
            },
            Node::Statement(expr) => eval(*expr, state, inner, iterations),
            Node::Number(value) => Outcome { result: Ok(Val::Number(value)), state },
            Node::String(text) => Outcome { result: Ok(Val::String(text)), state },
            Node::Boolean(value) => Outcome { result: Ok(Val::Boolean(value)), state },
            Node::Variable(name) => Outcome { result: Ok(lookup(state.env, name)), state },
            Node::Assignment { name, value } => {
                let o = eval(*value, state, inner, iterations);
                match o.result {
                    Ok(v) => Outcome {
                        result: Ok(v),
                        state: State { env: o.state.env.insert(name, v), output: o.state.output },
                    },
                    Err(_) => o,
                }
            },
            Node::BinaryOp { left, operator, right } => {
                let l = eval(*left, state, inner, iterations);
                match l.result {
                    Ok(left_value) => {
                        let r = eval(*right, l.state, inner, iterations);
                        match r.result {
                            Ok(right_value) => Outcome {
                                result: binary_value(left_value, operator, right_value),
                                state: r.state,
                            },
                            Err(_) => r,
                        }
                    },
                    Err(_) => l,
                }
            },
            Node::UnaryOp { operator, operand } => {
                let o = eval(*operand, state, inner, iterations);
                match o.result {
                    Ok(v) => Outcome { result: unary_value(operator, v), state: o.state },
                    Err(_) => o,
                }
            },
            Node::IfStatement { condition, then_branch, else_branch } => {
                let c = eval(*condition, state, inner, iterations);
                match c.result {
                    Ok(v) => if v.truthy() {
                        eval(*then_branch, c.state, inner, iterations)
                    } else {
                        match else_branch {
                            Some(branch) => eval(*branch, c.state, inner, iterations),
                            None => Outcome { result: Ok(Val::Null), state: c.state },
                        }
                    },
                    Err(_) => c,
                }
            },
            Node::WhileLoop { condition, body } => eval_loop(
                *condition,
                *body,
                state,
                Val::Null,
                inner,
                iterations,
                iterations,
            ),
            Node::FunctionDef { name, params, body } => {
                let function = Val::Function { params, body };
                Outcome {
                    result: Ok(function),
                    state: State { env: state.env.insert(name, function), output: state.output },
                }
            },
            Node::FunctionCall { name, args } => {
                match lookup(state.env, name) {
                    Val::Function { params, body } => {
                        if params.len() != args.len() {
                            Outcome {
                                result: Err(
                                    EvalErrorView::ArityMismatch {
                                        name,
                                        expected: params.len(),
                                        found: args.len(),
                                    },
                                ),
                                state,
                            }
                        } else {
                            let bound = eval_arguments(
                                params,
                                args,
                                0,
                                state,
                                state.env,
                                inner,
                                iterations,
                            );
                            match bound.result {
                                Err(e) => Outcome { result: Err(e), state: bound.state },
                                Ok(_) => {
                                    let b = eval(
                                        *body,
                                        State { env: bound.callee, output: bound.state.output },
                                        inner,
                                        iterations,
                                    );
                                    Outcome {
                                        result: call_value(b.result),
                                        state: State {
                                            env: bound.state.env,
                                            output: b.state.output,
                                        },
                                    }
                                },
                            }
                        }
                    },
                    _ => Outcome { result: Err(EvalErrorView::NotAFunction { name }), state },
                }
            },
            Node::Return(expr) => {
                let o = eval(*expr, state, inner, iterations);
                match o.result {
                    Ok(v) => Outcome { result: Ok(Val::ReturnValue(Box::new(v))), state: o.state },
                    Err(_) => o,
                }
            },
            Node::Print(expr) => {
                let o = eval(*expr, state, inner, iterations);
                match o.result {
                    Ok(v) => Outcome {
                        result: Ok(Val::Null),
                        state: State {
                            env: o.state.env,
                            output: o.state.output.push(v.printed()),
                        },
                    },
                    Err(_) => o,
                }
            },
        }
    }
}

/// The statements from index `from` on, one after the other, where `last`
/// is the value of the statement before: the value of the last statement,
/// or the first return signal, at which the rest is left out.
pub open spec fn eval_statements(
    statements: Seq<Node>,
    from: int,
    state: State,
    last: Val,
    depth: nat,
    iterations: nat,
) -> Outcome
    decreases depth, statements.len() - from + 1,
{
    if 0 <= from < statements.len() {
        let o = eval(statements[from], state, depth, iterations);
        match o.result {
            Ok(v) => if v is ReturnValue {
                o
            } else {
                eval_statements(statements, from + 1, o.state, v, depth, iterations)
            },
            Err(_) => o,
        }
    } else {
        Outcome { result: Ok(last), state }
    }
}

/// A loop that may run its body `left` more times, where `last` is the
/// value of the run before: as long as the condition holds the body is run;
/// the value is that of the last run, or the first return signal.
pub open spec fn eval_loop(
    condition: Node,
    body: Node,
    state: State,
    last: Val,
    depth: nat,
    iterations: nat,
    left: nat,
) -> Outcome
    decreases depth, left + 1,
{
    let c = eval(condition, state, depth, iterations);
    match c.result {
        Ok(v) => if !v.truthy() {
            Outcome { result: Ok(last), state: c.state }
        } else if left == 0 {
            Outcome { result: Err(EvalErrorView::IterationLimit), state: c.state }
        } else {
            let b = eval(body, c.state, depth, iterations);
            match b.result {
                Ok(value) => if value is ReturnValue {
                    b
                } else {
                    eval_loop(
                        condition,
                        body,
                        b.state,
                        value,
                        depth,
                        iterations,
                        (left - 1) as nat,
                    )
                },
                Err(_) => b,
            }
        },
        Err(_) => c,
    }
}

/// What the arguments of a call give: whether all were evaluated, the
/// caller's state after them, and the environment for the body.
pub struct Bound {
    pub result: Result<(), EvalErrorView>,
    pub state: State,
    pub callee: Map<Seq<char>, Val>,
}

/// The arguments from index `from` on, each evaluated in the caller's state
/// and bound to its parameter in the environment for the body.
pub open spec fn eval_arguments(
    params: Seq<Seq<char>>,
    args: Seq<Node>,
    from: int,
    state: State,
    callee: Map<Seq<char>, Val>,
    depth: nat,
    iterations: nat,
) -> Bound
    decreases depth, args.len() - from + 1,
{
    if 0 <= from < args.len() && from < params.len() {
        let o = eval(args[from], state, depth, iterations);
        match o.result {
            Ok(v) => eval_arguments(
                params,
                args,
                from + 1,
                o.state,
                callee.insert(params[from], v),
                depth,
                iterations,
            ),
            Err(e) => Bound { result: Err(e), state: o.state, callee },
        }
    } else {
        Bound { result: Ok(()), state, callee }
    }
}

} // verus!
