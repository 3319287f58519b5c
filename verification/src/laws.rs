//! Laws of the language, proved of its semantics.

use crate::ast::Node;
use crate::environment::lookup;
use crate::error::EvalErrorView;
use crate::number::Number;
use crate::grammar::{
    next_position,
    operator_on,
    parse_binary,
    parse_binary_rest,
    parse_expression,
    parse_atom,
    parse_operand,
    parse_unary,
    prefix_operator,
    token_at,
    Parsed,
};
use crate::semantics::{
    call_value,
    eval,
    eval_arguments,
    eval_loop,
    eval_statements,
    Outcome,
    State,
};
use crate::token::TokenView;
use crate::value::Val;
use vstd::prelude::*;

verus! {

/// What an assignment binds is what the name gives afterwards: where the
/// assignment gives a value, the variable of that name has this value in the
/// state that the assignment leaves.
pub proof fn law_assignment_round_trip(
    name: Seq<char>,
    value: Node,
    state: State,
    depth: nat,
    iterations: nat,
    later_depth: nat,
)
    requires
        later_depth > 0,
    ensures
        ({
            let bound = eval(
                Node::Assignment { name, value: Box::new(value) },
                state,
                depth,
                iterations,
            );
            bound.result is Ok ==> eval(Node::Variable(name), bound.state, later_depth, iterations)
                == (Outcome { result: bound.result, state: bound.state })
        }),
{
}

/// A name that is not bound is no failure: its value is `Null`, and the
/// state stays as it is.
pub proof fn law_unbound_is_null(name: Seq<char>, state: State, depth: nat, iterations: nat)
    requires
        depth > 0,
        !state.env.dom().contains(name),
    ensures
        eval(Node::Variable(name), state, depth, iterations) == (Outcome {
            result: Ok(Val::Null),
            state,
        }),
{
}

/// A call with more or fewer arguments than the function has parameters
/// fails, and does nothing before it fails: no argument is evaluated, nothing
/// is bound and nothing printed.
pub proof fn law_wrong_arity_fails(
    name: Seq<char>,
    args: Seq<Node>,
    state: State,
    depth: nat,
    iterations: nat,
)
    requires
        depth > 0,
        lookup(state.env, name) is Function,
        lookup(state.env, name)->Function_params.len() != args.len(),
    ensures
        eval(Node::FunctionCall { name, args }, state, depth, iterations) == (Outcome {
            result: Err(
                EvalErrorView::ArityMismatch {
                    name,
                    expected: lookup(state.env, name)->Function_params.len(),
                    found: args.len(),
                },
            ),
            state,
        }),
{
}

/// A call of a name that is bound to no function fails, and does nothing
/// before it fails.
pub proof fn law_call_needs_a_function(
    name: Seq<char>,
    args: Seq<Node>,
    state: State,
    depth: nat,
    iterations: nat,
)
    requires
        depth > 0,
        !(lookup(state.env, name) is Function),
    ensures
        eval(Node::FunctionCall { name, args }, state, depth, iterations) == (Outcome {
            result: Err(EvalErrorView::NotAFunction { name }),
            state,
        }),
{
}

/// A call cannot change what the caller has bound: where the arguments bind
/// nothing themselves, the environment after the call is that before it,
/// whatever the body did.
pub proof fn law_call_keeps_callers_bindings(
    name: Seq<char>,
    args: Seq<Node>,
    state: State,
    depth: nat,
    iterations: nat,
)
    requires
        forall|i: int| 0 <= i < args.len() ==> pure(#[trigger] args[i]),
    ensures
        eval(Node::FunctionCall { name, args }, state, depth, iterations).state.env == state.env,
{
    if depth > 0 {
        match lookup(state.env, name) {
            Val::Function { params, body } => {
                if params.len() == args.len() {
                    lemma_pure_arguments(
                        params,
                        args,
                        0,
                        state,
                        state.env,
                        (depth - 1) as nat,
                        iterations,
                    );
                }
            },
            _ => {},
        }
    }
}

/// Pure arguments leave the caller's state as it is.
proof fn lemma_pure_arguments(
    params: Seq<Seq<char>>,
    args: Seq<Node>,
    from: int,
    state: State,
    callee: Map<Seq<char>, Val>,
    depth: nat,
    iterations: nat,
)
    requires
        0 <= from,
        forall|i: int| 0 <= i < args.len() ==> pure(#[trigger] args[i]),
    ensures
        eval_arguments(params, args, from, state, callee, depth, iterations).state == state,
    decreases args.len() - from,
{
    if from < args.len() && from < params.len() {
        law_pure_keeps_state(args[from], state, depth, iterations);
        let o = eval(args[from], state, depth, iterations);
        if o.result is Ok {
            lemma_pure_arguments(
                params,
                args,
                from + 1,
                state,
                callee.insert(params[from], o.result->Ok_0),
                depth,
                iterations,
            );
        }
    }
}

/// The values that fail a condition: the boolean `false`, a zero of either
/// sign, the empty string and `Null`.
pub open spec fn falsy(v: Val) -> bool {
    ||| v == Val::Boolean(false)
    ||| (v is Number && v->Number_0.zero())
    ||| v == Val::String(Seq::<char>::empty())
    ||| v == Val::Null
}

/// A value holds as a condition unless it is `false`, a zero, the empty
/// string or `Null`: negative numbers, NaN, strings that are not empty,
/// functions and return signals all hold.
pub proof fn law_truthiness(v: Val)
    ensures
        v.truthy() <==> !falsy(v),
{
    match v {
        Val::String(s) => {
            assert(s.len() == 0 <==> s =~= Seq::<char>::empty());
        },
        _ => {},
    }
}

/// An `if` whose condition gives a value takes its first branch unless the
/// value is falsy; then it takes its `else` branch, and without one it is
/// `Null`. The branch is evaluated in the state that the condition left, and
/// what it leaves is what the `if` leaves.
pub proof fn law_if_takes_branch(
    condition: Node,
    then_branch: Node,
    else_branch: Option<Box<Node>>,
    state: State,
    depth: nat,
    iterations: nat,
)
    requires
        depth > 0,
        eval(condition, state, (depth - 1) as nat, iterations).result is Ok,
    ensures
        ({
            let inner = (depth - 1) as nat;
            let c = eval(condition, state, inner, iterations);
            let whole = eval(
                Node::IfStatement {
                    condition: Box::new(condition),
                    then_branch: Box::new(then_branch),
                    else_branch,
                },
                state,
                depth,
                iterations,
            );
            let v = c.result->Ok_0;
            &&& !falsy(v) ==> whole == eval(then_branch, c.state, inner, iterations)
            &&& falsy(v) && else_branch is Some ==> whole == eval(
                *else_branch->Some_0,
                c.state,
                inner,
                iterations,
            )
            &&& falsy(v) && else_branch is None ==> whole == (Outcome {
                result: Ok(Val::Null),
                state: c.state,
            })
        }),
{
    let c = eval(condition, state, (depth - 1) as nat, iterations);
    law_truthiness(c.result->Ok_0);
}

/// A block that ends without a return signal leaves the environment as it
/// found it: what was bound before keeps its value, and what the block bound
/// is gone. What it printed stays printed.
pub proof fn law_block_restores(statements: Seq<Node>, state: State, depth: nat, iterations: nat)
    ensures
        ({
            let o = eval(Node::Block(statements), state, depth, iterations);
            o.result is Ok && !(o.result->Ok_0 is ReturnValue) ==> o.state.env == state.env
        }),
{
}

/// The same statements as a program, with no block around them, leave the
/// environment that the last of them left.
pub proof fn law_program_keeps(statements: Seq<Node>, state: State, depth: nat, iterations: nat)
    requires
        depth > 0,
    ensures
        eval(Node::Program(statements), state, depth, iterations) == eval_statements(
            statements,
            0,
            state,
            Val::Null,
            (depth - 1) as nat,
            iterations,
        ),
{
}

/// An assignment that stands directly as the branch of an `if`, with no
/// block around it, stays in force after the `if`.
pub proof fn law_if_binding_persists(
    condition: Node,
    name: Seq<char>,
    value: Node,
    state: State,
    depth: nat,
    iterations: nat,
)
    requires
        depth > 0,
    ensures
        ({
            let inner = (depth - 1) as nat;
            let c = eval(condition, state, inner, iterations);
            let assignment = Node::Assignment { name, value: Box::new(value) };
            let bound = eval(assignment, c.state, inner, iterations);
            let whole = eval(
                Node::IfStatement {
                    condition: Box::new(condition),
                    then_branch: Box::new(assignment),
                    else_branch: None,
                },
                state,
                depth,
                iterations,
            );
            c.result is Ok && c.result->Ok_0.truthy() && bound.result is Ok ==> {
                &&& whole.result == bound.result
                &&& lookup(whole.state.env, name) == bound.result->Ok_0
            }
        }),
{
}

/// A loop whose condition holds and that may still run evaluates its body in
/// the state that the condition left, with no block around it, and goes on
/// from the state that the body left: what the body binds stays in force for
/// the next test of the condition.
pub proof fn law_loop_runs_in_place(
    condition: Node,
    body: Node,
    state: State,
    last: Val,
    depth: nat,
    iterations: nat,
    left: nat,
)
    requires
        left > 0,
    ensures
        ({
            let c = eval(condition, state, depth, iterations);
            let b = eval(body, c.state, depth, iterations);
            c.result is Ok && c.result->Ok_0.truthy() && b.result is Ok && !(b.result->Ok_0
                is ReturnValue) ==> eval_loop(condition, body, state, last, depth, iterations, left)
                == eval_loop(
                condition,
                body,
                b.state,
                b.result->Ok_0,
                depth,
                iterations,
                (left - 1) as nat,
            )
        }),
{
}

/// The expressions without effect: literals and variables, joined by unary
/// and binary operators. A call is none, for the body of a function may
/// print.
pub open spec fn pure(node: Node) -> bool
    decreases node,
{
    match node {
        Node::Number(_) => true,
        Node::String(_) => true,
        Node::Boolean(_) => true,
        Node::Variable(_) => true,
        Node::BinaryOp { left, operator, right } => pure(*left) && pure(*right),
        Node::UnaryOp { operator, operand } => pure(*operand),
        Node::Statement(expr) => pure(*expr),
        _ => false,
    }
}

/// A pure expression leaves the state as it found it: it binds nothing and
/// prints nothing, whether it gives a value or fails.
pub proof fn law_pure_keeps_state(node: Node, state: State, depth: nat, iterations: nat)
    requires
        pure(node),
    ensures
        eval(node, state, depth, iterations).state == state,
    decreases depth,
{
    if depth > 0 {
        let inner = (depth - 1) as nat;
        match node {
            Node::BinaryOp { left, operator, right } => {
                law_pure_keeps_state(*left, state, inner, iterations);
                law_pure_keeps_state(*right, state, inner, iterations);
            },
            Node::UnaryOp { operator, operand } => {
                law_pure_keeps_state(*operand, state, inner, iterations);
            },
            Node::Statement(expr) => {
                law_pure_keeps_state(*expr, state, inner, iterations);
            },
            _ => {},
        }
    }
}

/// To evaluate a pure expression a second time, in the state that the first
/// time left, gives the same value and leaves the same state.
pub proof fn law_pure_twice(node: Node, state: State, depth: nat, iterations: nat)
    requires
        pure(node),
    ensures
        ({
            let first = eval(node, state, depth, iterations);
            eval(node, first.state, depth, iterations) == first
        }),
{
    law_pure_keeps_state(node, state, depth, iterations);
}

/// The trees that hold no `print`.
pub open spec fn printless(node: Node) -> bool
    decreases node, 0int,
{
    match node {
        Node::Program(statements) => printless_from(statements, 0),
        Node::Block(statements) => printless_from(statements, 0),
        Node::Statement(expr) => printless(*expr),
        Node::Number(_) => true,
        Node::String(_) => true,
        Node::Boolean(_) => true,
        Node::Variable(_) => true,
        Node::BinaryOp { left, operator, right } => printless(*left) && printless(*right),
        Node::UnaryOp { operator, operand } => printless(*operand),
        Node::Assignment { name, value } => printless(*value),
        Node::IfStatement { condition, then_branch, else_branch } => {
            &&& printless(*condition)
            &&& printless(*then_branch)
            &&& match else_branch {
                Some(branch) => printless(*branch),
                None => true,
            }
        },
        Node::WhileLoop { condition, body } => printless(*condition) && printless(*body),
        Node::FunctionDef { name, params, body } => printless(*body),
        Node::FunctionCall { name, args } => printless_from(args, 0),
        Node::Return(expr) => printless(*expr),
        Node::Print(_) => false,
    }
}

/// The trees of a list from index `from` on hold no `print`.
pub open spec fn printless_from(nodes: Seq<Node>, from: int) -> bool
    decreases nodes, nodes.len() - from + 1,
{
    if 0 <= from < nodes.len() {
        printless(nodes[from]) && printless_from(nodes, from + 1)
    } else {
        true
    }
}

/// The values that hold no `print`: all but the functions whose body holds
/// one, and the return signals that carry such a function.
pub open spec fn printless_value(v: Val) -> bool
    decreases v,
{
    match v {
        Val::Function { params, body } => printless(*body),
        Val::ReturnValue(inner) => printless_value(*inner),
        _ => true,
    }
}

/// The environments in which no function prints.
pub open spec fn quiet(env: Map<Seq<char>, Val>) -> bool {
    forall|name: Seq<char>| env.dom().contains(name) ==> printless_value(#[trigger] env[name])
}

/// A tree without `print`, in an environment in which no function prints,
/// prints nothing; its value holds no `print`, and no function prints in the
/// environment it leaves.
proof fn lemma_printless(node: Node, state: State, depth: nat, iterations: nat)
    requires
        printless(node),
        quiet(state.env),
    ensures
        ({
            let o = eval(node, state, depth, iterations);
            &&& o.state.output == state.output
            &&& quiet(o.state.env)
            &&& o.result is Ok ==> printless_value(o.result->Ok_0)
        }),
    decreases depth, 0nat,
{
    if depth > 0 {
        let d = (depth - 1) as nat;
        let i = iterations;
        match node {
            Node::Program(statements) => {
                lemma_printless_statements(statements, 0, state, Val::Null, d, i);
            },
            Node::Block(statements) => {
                lemma_printless_statements(statements, 0, state, Val::Null, d, i);
            },
            Node::Statement(expr) => {
                lemma_printless(*expr, state, d, i);
            },
            Node::Assignment { name, value } => {
                lemma_printless(*value, state, d, i);
            },
            Node::BinaryOp { left, operator, right } => {
                lemma_printless(*left, state, d, i);
                lemma_printless(*right, eval(*left, state, d, i).state, d, i);
            },
            Node::UnaryOp { operator, operand } => {
                lemma_printless(*operand, state, d, i);
            },
            Node::IfStatement { condition, then_branch, else_branch } => {
                lemma_printless(*condition, state, d, i);
                let c = eval(*condition, state, d, i);
                lemma_printless(*then_branch, c.state, d, i);
                if else_branch is Some {
                    lemma_printless(*else_branch->Some_0, c.state, d, i);
                }
            },
            Node::WhileLoop { condition, body } => {
                lemma_printless_loop(*condition, *body, state, Val::Null, d, i, i);
            },
            Node::FunctionCall { name, args } => {
                match lookup(state.env, name) {
                    Val::Function { params, body } => {
                        if params.len() == args.len() {
                            lemma_printless_arguments(params, args, 0, state, state.env, d, i);
                            let bound = eval_arguments(params, args, 0, state, state.env, d, i);
                            lemma_printless(
                                *body,
                                State { env: bound.callee, output: bound.state.output },
                                d,
                                i,
                            );
                        }
                    },
                    _ => {},
                }
            },
            Node::Return(expr) => {
                lemma_printless(*expr, state, d, i);
            },
            _ => {},
        }
    }
}

/// Statements without `print` print nothing.
proof fn lemma_printless_statements(
    statements: Seq<Node>,
    from: int,
    state: State,
    last: Val,
    depth: nat,
    iterations: nat,
)
    requires
        0 <= from,
        printless_from(statements, from),
        quiet(state.env),
        printless_value(last),
    ensures
        ({
            let o = eval_statements(statements, from, state, last, depth, iterations);
            &&& o.state.output == state.output
            &&& quiet(o.state.env)
            &&& o.result is Ok ==> printless_value(o.result->Ok_0)
        }),
    decreases depth, statements.len() - from + 1,
{
    if from < statements.len() {
        lemma_printless(statements[from], state, depth, iterations);
        let o = eval(statements[from], state, depth, iterations);
        if o.result is Ok && !(o.result->Ok_0 is ReturnValue) {
            lemma_printless_statements(
                statements,
                from + 1,
                o.state,
                o.result->Ok_0,
                depth,
                iterations,
            );
        }
    }
}

/// A loop without `print` prints nothing.
proof fn lemma_printless_loop(
    condition: Node,
    body: Node,
    state: State,
    last: Val,
    depth: nat,
    iterations: nat,
    left: nat,
)
    requires
        printless(condition),
        printless(body),
        quiet(state.env),
        printless_value(last),
    ensures
        ({
            let o = eval_loop(condition, body, state, last, depth, iterations, left);
            &&& o.state.output == state.output
            &&& quiet(o.state.env)
            &&& o.result is Ok ==> printless_value(o.result->Ok_0)
        }),
    decreases depth, left + 1,
{
    lemma_printless(condition, state, depth, iterations);
    let c = eval(condition, state, depth, iterations);
    if c.result is Ok && c.result->Ok_0.truthy() && left > 0 {
        lemma_printless(body, c.state, depth, iterations);
        let b = eval(body, c.state, depth, iterations);
        if b.result is Ok && !(b.result->Ok_0 is ReturnValue) {
            lemma_printless_loop(
                condition,
                body,
                b.state,
                b.result->Ok_0,
                depth,
                iterations,
                (left - 1) as nat,
            );
        }
    }
}

/// Arguments without `print` print nothing, and no function prints in the
/// environment that they make for the body.
proof fn lemma_printless_arguments(
    params: Seq<Seq<char>>,
    args: Seq<Node>,
    from: int,
    state: State,
    callee: Map<Seq<char>, Val>,
    depth: nat,
    iterations: nat,
)
    requires
        0 <= from,
        printless_from(args, from),
        quiet(state.env),
        quiet(callee),
    ensures
        ({
            let bound = eval_arguments(params, args, from, state, callee, depth, iterations);
            &&& bound.state.output == state.output
            &&& quiet(bound.state.env)
            &&& quiet(bound.callee)
        }),
    decreases depth, args.len() - from + 1,
{
    if from < args.len() && from < params.len() {
        lemma_printless(args[from], state, depth, iterations);
        let o = eval(args[from], state, depth, iterations);
        if o.result is Ok {
            lemma_printless_arguments(
                params,
                args,
                from + 1,
                o.state,
                callee.insert(params[from], o.result->Ok_0),
                depth,
                iterations,
            );
        }
    }
}

/// The expressions: literals, variables and calls, joined by unary and
/// binary operators. They hold no assignment and no `print`.
pub open spec fn expression(node: Node) -> bool
    decreases node, 0int,
{
    match node {
        Node::Number(_) => true,
        Node::String(_) => true,
        Node::Boolean(_) => true,
        Node::Variable(_) => true,
        Node::BinaryOp { left, operator, right } => expression(*left) && expression(*right),
        Node::UnaryOp { operator, operand } => expression(*operand),
        Node::FunctionCall { name, args } => expressions_from(args, 0),
        _ => false,
    }
}

/// The trees of a list from index `from` on are expressions.
pub open spec fn expressions_from(nodes: Seq<Node>, from: int) -> bool
    decreases nodes, nodes.len() - from + 1,
{
    if 0 <= from < nodes.len() {
        expression(nodes[from]) && expressions_from(nodes, from + 1)
    } else {
        true
    }
}

/// An expression holds no `print`.
proof fn lemma_expression_printless(node: Node)
    requires
        expression(node),
    ensures
        printless(node),
    decreases node, 0int,
{
    match node {
        Node::BinaryOp { left, operator, right } => {
            lemma_expression_printless(*left);
            lemma_expression_printless(*right);
        },
        Node::UnaryOp { operator, operand } => {
            lemma_expression_printless(*operand);
        },
        Node::FunctionCall { name, args } => {
            lemma_expressions_printless(args, 0);
        },
        _ => {},
    }
}

/// Expressions hold no `print`.
proof fn lemma_expressions_printless(nodes: Seq<Node>, from: int)
    requires
        0 <= from,
        expressions_from(nodes, from),
    ensures
        printless_from(nodes, from),
    decreases nodes, nodes.len() - from + 1,
{
    if from < nodes.len() {
        lemma_expression_printless(nodes[from]);
        lemma_expressions_printless(nodes, from + 1);
    }
}

/// An expression, in an environment in which no function prints, leaves the
/// state as it found it, whether it gives a value or fails: it binds nothing
/// and prints nothing, and neither do the functions that it calls, for what
/// they bind is bound in an environment of their own.
pub proof fn law_expression_keeps_state(node: Node, state: State, depth: nat, iterations: nat)
    requires
        expression(node),
        quiet(state.env),
    ensures
        eval(node, state, depth, iterations).state == state,
    decreases depth, 0nat,
{
    if depth > 0 {
        let d = (depth - 1) as nat;
        let i = iterations;
        match node {
            Node::BinaryOp { left, operator, right } => {
                law_expression_keeps_state(*left, state, d, i);
                law_expression_keeps_state(*right, state, d, i);
            },
            Node::UnaryOp { operator, operand } => {
                law_expression_keeps_state(*operand, state, d, i);
            },
            Node::FunctionCall { name, args } => {
                match lookup(state.env, name) {
                    Val::Function { params, body } => {
                        if params.len() == args.len() {
                            lemma_expression_arguments(params, args, 0, state, state.env, d, i);
                            lemma_expressions_printless(args, 0);
                            lemma_printless_arguments(params, args, 0, state, state.env, d, i);
                            let bound = eval_arguments(params, args, 0, state, state.env, d, i);
                            lemma_printless(
                                *body,
                                State { env: bound.callee, output: bound.state.output },
                                d,
                                i,
                            );
                        }
                    },
                    _ => {},
                }
            },
            _ => {},
        }
    }
}

/// Arguments that are expressions leave the caller's state as it is.
proof fn lemma_expression_arguments(
    params: Seq<Seq<char>>,
    args: Seq<Node>,
    from: int,
    state: State,
    callee: Map<Seq<char>, Val>,
    depth: nat,
    iterations: nat,
)
    requires
        0 <= from,
        expressions_from(args, from),
        quiet(state.env),
    ensures
        eval_arguments(params, args, from, state, callee, depth, iterations).state == state,
    decreases depth, args.len() - from + 1,
{
    if from < args.len() && from < params.len() {
        law_expression_keeps_state(args[from], state, depth, iterations);
        let o = eval(args[from], state, depth, iterations);
        if o.result is Ok {
            lemma_expression_arguments(
                params,
                args,
                from + 1,
                state,
                callee.insert(params[from], o.result->Ok_0),
                depth,
                iterations,
            );
        }
    }
}

/// To evaluate an expression a second time, in the state that the first time
/// left, gives the same value and leaves the same state, where no function of
/// the environment prints.
pub proof fn law_expression_twice(node: Node, state: State, depth: nat, iterations: nat)
    requires
        expression(node),
        quiet(state.env),
    ensures
        ({
            let first = eval(node, state, depth, iterations);
            eval(node, first.state, depth, iterations) == first
        }),
{
    law_expression_keeps_state(node, state, depth, iterations);
}

/// The arithmetic expressions: numbers, joined by `+ - * / %` and the
/// prefixes `-` and `+`.
pub open spec fn arithmetic(node: Node) -> bool
    decreases node,
{
    match node {
        Node::Number(_) => true,
        Node::BinaryOp { left, operator, right } => {
            &&& arithmetic(*left)
            &&& arithmetic(*right)
            &&& (operator == "+"@ || operator == "-"@ || operator == "*"@ || operator == "/"@
                || operator == "%"@)
        },
        Node::UnaryOp { operator, operand } => {
            &&& arithmetic(*operand)
            &&& (operator == "-"@ || operator == "+"@)
        },
        _ => false,
    }
}

/// The number that an arithmetic expression stands for: each operator
/// applied to what its operands stand for, the left one first. A division by
/// zero has none.
pub open spec fn arithmetic_value(node: Node) -> Option<Number>
    decreases node,
{
    match node {
        Node::Number(value) => Some(value),
        Node::BinaryOp { left, operator, right } => match arithmetic_value(*left) {
            None => None,
            Some(l) => match arithmetic_value(*right) {
                None => None,
                Some(r) => if operator == "+"@ {
                    Some(l.sum(r))
                } else if operator == "-"@ {
                    Some(l.difference(r))
                } else if operator == "*"@ {
                    Some(l.product(r))
                } else if operator == "/"@ {
                    if r.zero() {
                        None
                    } else {
                        Some(l.quotient(r))
                    }
                } else {
                    Some(l.rest(r))
                },
            },
        },
        Node::UnaryOp { operator, operand } => match arithmetic_value(*operand) {
            None => None,
            Some(v) => if operator == "-"@ {
                Some(v.negated())
            } else {
                Some(v)
            },
        },
        _ => None,
    }
}

/// The number of levels of a tree of operators and operands.
pub open spec fn height(node: Node) -> nat
    decreases node,
{
    match node {
        Node::BinaryOp { left, operator, right } => {
            let l = height(*left);
            let r = height(*right);
            if l < r {
                r + 1
            } else {
                l + 1
            }
        },
        Node::UnaryOp { operator, operand } => height(*operand) + 1,
        _ => 1,
    }
}

/// An arithmetic expression that is not nested deeper than the limit has
/// the value that it stands for, in whatever state it is evaluated, and
/// fails with a division by zero where it stands for none.
pub proof fn law_arithmetic(node: Node, state: State, depth: nat, iterations: nat)
    requires
        arithmetic(node),
        depth >= height(node),
    ensures
        eval(node, state, depth, iterations).state == state,
        eval(node, state, depth, iterations).result == match arithmetic_value(node) {
            Some(value) => Ok::<Val, EvalErrorView>(Val::Number(value)),
            None => Err::<Val, EvalErrorView>(EvalErrorView::DivisionByZero),
        },
    decreases node,
{
    reveal_strlit("+");
    reveal_strlit("-");
    reveal_strlit("*");
    reveal_strlit("/");
    reveal_strlit("%");
    let inner = (depth - 1) as nat;
    match node {
        Node::BinaryOp { left, operator, right } => {
            law_arithmetic(*left, state, inner, iterations);
            law_arithmetic(*right, state, inner, iterations);
        },
        Node::UnaryOp { operator, operand } => {
            law_arithmetic(*operand, state, inner, iterations);
        },
        _ => {},
    }
}

/// A failure that a limit brought about.
pub open spec fn cut_off<T>(result: Result<T, EvalErrorView>) -> bool {
    result == Err::<T, EvalErrorView>(EvalErrorView::DepthExceeded) || result == Err::<
        T,
        EvalErrorView,
    >(EvalErrorView::IterationLimit)
}

/// The limits only cut evaluations off: one that ends within its limits
/// ends in the same way under any wider limits.
pub proof fn law_limits_only_cut_off(
    node: Node,
    state: State,
    depth: nat,
    iterations: nat,
    wider_depth: nat,
    wider_iterations: nat,
)
    requires
        depth <= wider_depth,
        iterations <= wider_iterations,
        !cut_off(eval(node, state, depth, iterations).result),
    ensures
        eval(node, state, wider_depth, wider_iterations) == eval(node, state, depth, iterations),
    decreases depth, 0nat,
{
    let d = (depth - 1) as nat;
    let w = (wider_depth - 1) as nat;
    let i = iterations;
    let j = wider_iterations;
    match node {
        Node::Program(statements) => {
            lemma_statements_within(statements, 0, state, Val::Null, d, i, w, j);
        },
        Node::Block(statements) => {
            lemma_statements_within(statements, 0, state, Val::Null, d, i, w, j);
        },
        Node::Statement(expr) => {
            law_limits_only_cut_off(*expr, state, d, i, w, j);
        },
        Node::Assignment { name, value } => {
            law_limits_only_cut_off(*value, state, d, i, w, j);
        },
        Node::BinaryOp { left, operator, right } => {
            law_limits_only_cut_off(*left, state, d, i, w, j);
            let l = eval(*left, state, d, i);
            if l.result is Ok {
                law_limits_only_cut_off(*right, l.state, d, i, w, j);
            }
        },
        Node::UnaryOp { operator, operand } => {
            law_limits_only_cut_off(*operand, state, d, i, w, j);
        },
        Node::IfStatement { condition, then_branch, else_branch } => {
            law_limits_only_cut_off(*condition, state, d, i, w, j);
            let c = eval(*condition, state, d, i);
            if c.result is Ok {
                if c.result->Ok_0.truthy() {
                    law_limits_only_cut_off(*then_branch, c.state, d, i, w, j);
                } else if else_branch is Some {
                    law_limits_only_cut_off(*else_branch->Some_0, c.state, d, i, w, j);
                }
            }
        },
        Node::WhileLoop { condition, body } => {
            lemma_loop_within(*condition, *body, state, Val::Null, d, i, i, w, j, j);
        },
        Node::FunctionCall { name, args } => {
            match lookup(state.env, name) {
                Val::Function { params, body } => {
                    if params.len() == args.len() {
                        lemma_arguments_within(params, args, 0, state, state.env, d, i, w, j);
                        let bound = eval_arguments(params, args, 0, state, state.env, d, i);
                        if bound.result is Ok {
                            let inner = State { env: bound.callee, output: bound.state.output };
                            law_limits_only_cut_off(*body, inner, d, i, w, j);
                        }
                    }
                },
                _ => {},
            }
        },
        Node::Return(expr) => {
            law_limits_only_cut_off(*expr, state, d, i, w, j);
        },
        Node::Print(expr) => {
            law_limits_only_cut_off(*expr, state, d, i, w, j);
        },
        _ => {},
    }
}

/// Statements that end within their limits end in the same way under
/// wider limits.
proof fn lemma_statements_within(
    statements: Seq<Node>,
    from: int,
    state: State,
    last: Val,
    depth: nat,
    iterations: nat,
    wider_depth: nat,
    wider_iterations: nat,
)
    requires
        depth <= wider_depth,
        iterations <= wider_iterations,
        !cut_off(eval_statements(statements, from, state, last, depth, iterations).result),
    ensures
        eval_statements(statements, from, state, last, wider_depth, wider_iterations)
            == eval_statements(statements, from, state, last, depth, iterations),
    decreases depth, statements.len() - from + 1,
{
    if 0 <= from < statements.len() {
        law_limits_only_cut_off(
            statements[from],
            state,
            depth,
            iterations,
            wider_depth,
            wider_iterations,
        );
        let o = eval(statements[from], state, depth, iterations);
        if o.result is Ok && !(o.result->Ok_0 is ReturnValue) {
            lemma_statements_within(
                statements,
                from + 1,
                o.state,
                o.result->Ok_0,
                depth,
                iterations,
                wider_depth,
                wider_iterations,
            );
        }
    }
}

/// A loop that ends within its limits ends in the same way under wider
/// limits.
proof fn lemma_loop_within(
    condition: Node,
    body: Node,
    state: State,
    last: Val,
    depth: nat,
    iterations: nat,
    left: nat,
    wider_depth: nat,
    wider_iterations: nat,
    wider_left: nat,
)
    requires
        depth <= wider_depth,
        iterations <= wider_iterations,
        left <= wider_left,
        !cut_off(eval_loop(condition, body, state, last, depth, iterations, left).result),
    ensures
        eval_loop(condition, body, state, last, wider_depth, wider_iterations, wider_left)
            == eval_loop(condition, body, state, last, depth, iterations, left),
    decreases depth, left + 1,
{
    law_limits_only_cut_off(condition, state, depth, iterations, wider_depth, wider_iterations);
    let c = eval(condition, state, depth, iterations);
    if c.result is Ok && c.result->Ok_0.truthy() && left > 0 {
        law_limits_only_cut_off(body, c.state, depth, iterations, wider_depth, wider_iterations);
        let b = eval(body, c.state, depth, iterations);
        if b.result is Ok && !(b.result->Ok_0 is ReturnValue) {
            lemma_loop_within(
                condition,
                body,
                b.state,
                b.result->Ok_0,
                depth,
                iterations,
                (left - 1) as nat,
                wider_depth,
                wider_iterations,
                (wider_left - 1) as nat,
            );
        }
    }
}

/// Arguments that are evaluated within their limits give the same under
/// wider limits.
proof fn lemma_arguments_within(
    params: Seq<Seq<char>>,
    args: Seq<Node>,
    from: int,
    state: State,
    callee: Map<Seq<char>, Val>,
    depth: nat,
    iterations: nat,
    wider_depth: nat,
    wider_iterations: nat,
)
    requires
        depth <= wider_depth,
        iterations <= wider_iterations,
        !cut_off(eval_arguments(params, args, from, state, callee, depth, iterations).result),
    ensures
        eval_arguments(params, args, from, state, callee, wider_depth, wider_iterations)
            == eval_arguments(params, args, from, state, callee, depth, iterations),
    decreases depth, args.len() - from + 1,
{
    if 0 <= from < args.len() && from < params.len() {
        law_limits_only_cut_off(
            args[from],
            state,
            depth,
            iterations,
            wider_depth,
            wider_iterations,
        );
        let o = eval(args[from], state, depth, iterations);
        if o.result is Ok {
            lemma_arguments_within(
                params,
                args,
                from + 1,
                o.state,
                callee.insert(params[from], o.result->Ok_0),
                depth,
                iterations,
                wider_depth,
                wider_iterations,
            );
        }
    }
}

/// `left operator right` as a tree.
pub open spec fn joined(left: Node, operator: Seq<char>, right: Node) -> Node {
    Node::BinaryOp { left: Box::new(left), operator, right: Box::new(right) }
}

/// A token is an operator on one level of precedence at most.
proof fn lemma_one_level(token: TokenView, j: int, k: int)
    requires
        0 <= j <= 5,
        0 <= k <= 5,
        operator_on(j, token) is Some,
        operator_on(k, token) is Some,
    ensures
        j == k,
{
    reveal_strlit("==");
    reveal_strlit("!=");
    reveal_strlit("<");
    reveal_strlit(">");
    reveal_strlit("<=");
    reveal_strlit(">=");
    reveal_strlit("+");
    reveal_strlit("-");
    reveal_strlit("*");
    reveal_strlit("/");
    reveal_strlit("%");
    assert("<="@.len() == 2 && "<="@[0] == '<' && "<="@[1] == '=');
    assert(">="@.len() == 2 && ">="@[0] == '>' && ">="@[1] == '=');
    assert("<"@.len() == 1 && "<"@[0] == '<');
    assert(">"@.len() == 1 && ">"@[0] == '>');
    assert("+"@.len() == 1 && "+"@[0] == '+');
    assert("-"@.len() == 1 && "-"@[0] == '-');
    assert("*"@.len() == 1 && "*"@[0] == '*');
    assert("/"@.len() == 1 && "/"@[0] == '/');
    assert("%"@.len() == 1 && "%"@[0] == '%');
}

/// No operator of the levels from `level` up stands at a token.
pub open spec fn quiet_from(token: TokenView, level: int) -> bool {
    forall|k: int| level <= k <= 5 ==> (#[trigger] operator_on(k, token)) is None
}

/// After a token of another level, no operator of the tighter levels stands.
proof fn lemma_quiet_above(token: TokenView, level: int)
    requires
        0 <= level <= 5,
        operator_on(level, token) is Some,
    ensures
        quiet_from(token, level + 1),
{
    assert forall|k: int| level + 1 <= k <= 5 implies (#[trigger] operator_on(k, token)) is None by {
        if operator_on(k, token) is Some {
            lemma_one_level(token, level, k);
        }
    }
}

/// Where no line break follows a token, the next position is the next one.
proof fn lemma_next_plain(tokens: Seq<TokenView>, position: int)
    requires
        0 <= position < tokens.len(),
        token_at(tokens, position + 1) != TokenView::Newline,
    ensures
        next_position(tokens, position) == position + 1,
{
}

/// A number that no operator of the levels from `level` up follows is an
/// expression of that level by itself, and an operand of the level before.
proof fn lemma_single(tokens: Seq<TokenView>, position: int, level: int, value: Number)
    requires
        0 <= level <= 6,
        0 <= position < tokens.len(),
        tokens[position] == TokenView::Number(value),
        token_at(tokens, position + 1) != TokenView::Newline,
        quiet_from(token_at(tokens, position + 1), level),
    ensures
        level <= 5 ==> parse_binary(tokens, position, level) == (Parsed {
            result: Ok(Node::Number(value)),
            position: position + 1,
        }),
        level >= 1 ==> parse_operand(tokens, position, level - 1) == (Parsed {
            result: Ok(Node::Number(value)),
            position: position + 1,
        }),
    decreases 6 - level,
{
    lemma_next_plain(tokens, position);
    let single = Parsed { result: Ok(Node::Number(value)), position: position + 1 };
    if level <= 5 {
        lemma_single(tokens, position, level + 1, value);
        if level >= 1 {
            assert(parse_operand(tokens, position, level - 1) == parse_binary(
                tokens,
                position,
                level,
            ));
        }
    } else {
        assert(parse_atom(tokens, position) == single);
    }
}

/// An expression of one level that no operator of the looser levels down to
/// `low` follows is an expression of each of those levels too.
proof fn lemma_lift(
    tokens: Seq<TokenView>,
    position: int,
    high: int,
    low: int,
    node: Node,
    end: int,
)
    requires
        0 <= low <= high <= 5,
        position <= end,
        parse_binary(tokens, position, high) == (Parsed { result: Ok(node), position: end }),
        forall|k: int| low <= k < high ==> (#[trigger] operator_on(k, token_at(tokens, end))) is None,
    ensures
        parse_binary(tokens, position, low) == (Parsed { result: Ok(node), position: end }),
        low < high ==> parse_operand(tokens, position, low) == (Parsed {
            result: Ok(node),
            position: end,
        }),
    decreases high - low,
{
    if low < high {
        lemma_lift(tokens, position, high, low + 1, node, end);
        assert(parse_binary_rest(tokens, end, low, node) == (Parsed {
            result: Ok(node),
            position: end,
        }));
    }
}

/// One operator of a level and the operand after it, with no operator of
/// the level behind, are joined to what stands before.
proof fn lemma_rest_once(
    tokens: Seq<TokenView>,
    position: int,
    level: int,
    left: Node,
    right: Node,
    end: int,
)
    requires
        0 <= level <= 5,
        0 <= position < tokens.len(),
        operator_on(level, tokens[position]) is Some,
        token_at(tokens, position + 1) != TokenView::Newline,
        position + 1 <= end,
        parse_operand(tokens, position + 1, level) == (Parsed {
            result: Ok(right),
            position: end,
        }),
        operator_on(level, token_at(tokens, end)) is None,
    ensures
        parse_binary_rest(tokens, position, level, left) == (Parsed {
            result: Ok(joined(left, operator_on(level, tokens[position])->Some_0, right)),
            position: end,
        }),
{
    lemma_next_plain(tokens, position);
    let operator = operator_on(level, tokens[position])->Some_0;
    let whole = joined(left, operator, right);
    assert(parse_binary_rest(tokens, end, level, whole) == (Parsed {
        result: Ok(whole),
        position: end,
    }));
}

/// Of two operators between three numbers the one of the tighter level
/// takes its operands first, and of two of the same level the left one:
/// `a op1 b op2 c` is `a op1 (b op2 c)` where `op2` is of a tighter level
/// than `op1`, and `(a op1 b) op2 c` otherwise.
pub proof fn law_precedence(
    a: Number,
    first: TokenView,
    b: Number,
    second: TokenView,
    c: Number,
    level1: int,
    level2: int,
)
    requires
        0 <= level1 <= 5,
        0 <= level2 <= 5,
        operator_on(level1, first) is Some,
        operator_on(level2, second) is Some,
    ensures
        ({
            let tokens = seq![
                TokenView::Number(a),
                first,
                TokenView::Number(b),
                second,
                TokenView::Number(c),
            ];
            let op1 = operator_on(level1, first)->Some_0;
            let op2 = operator_on(level2, second)->Some_0;
            parse_expression(tokens, 0) == (Parsed {
                result: Ok(
                    if level1 < level2 {
                        joined(Node::Number(a), op1, joined(Node::Number(b), op2, Node::Number(c)))
                    } else {
                        joined(joined(Node::Number(a), op1, Node::Number(b)), op2, Node::Number(c))
                    },
                ),
                position: 5,
            })
        }),
{
    let tokens = seq![
        TokenView::Number(a),
        first,
        TokenView::Number(b),
        second,
        TokenView::Number(c),
    ];
    let op1 = operator_on(level1, first)->Some_0;
    let op2 = operator_on(level2, second)->Some_0;
    let na = Node::Number(a);
    let nb = Node::Number(b);
    let nc = Node::Number(c);
    lemma_quiet_above(first, level1);
    lemma_quiet_above(second, level2);
    // the last number is an operand on every level
    lemma_single(tokens, 4, level2 + 1, c);
    lemma_single(tokens, 4, level1 + 1, c);
    if level1 < level2 {
        // b op2 c, on the level of op2 and on the looser ones down to that after op1
        lemma_single(tokens, 2, level2 + 1, b);
        lemma_rest_once(tokens, 3, level2, nb, nc, 5);
        let right = joined(nb, op2, nc);
        lemma_lift(tokens, 2, level2, level1 + 1, right, 5);
        // a, then op1 and what follows
        lemma_single(tokens, 0, level1 + 1, a);
        lemma_rest_once(tokens, 1, level1, na, right, 5);
        let whole = joined(na, op1, right);
        lemma_lift(tokens, 0, level1, 0, whole, 5);
    } else {
        // a op1 b on the level of op1
        assert(quiet_from(second, level1 + 1)) by {
            assert forall|k: int| level1 + 1 <= k <= 5 implies (#[trigger] operator_on(
                k,
                second,
            )) is None by {
                if operator_on(k, second) is Some {
                    lemma_one_level(second, level2, k);
                }
            }
        }
        lemma_single(tokens, 0, level1 + 1, a);
        let left = joined(na, op1, nb);
        let whole = joined(left, op2, nc);
        lemma_single(tokens, 2, level1 + 1, b);
        lemma_next_plain(tokens, 1);
        if level2 == level1 {
            lemma_one_level(second, level1, level2);
            lemma_rest_once(tokens, 3, level1, left, nc, 5);
            assert(parse_binary_rest(tokens, 1, level1, na) == (Parsed {
                result: Ok(whole),
                position: 5,
            }));
            lemma_lift(tokens, 0, level1, 0, whole, 5);
        } else {
            assert(operator_on(level1, second) is None) by {
                if operator_on(level1, second) is Some {
                    lemma_one_level(second, level1, level2);
                }
            }
            lemma_rest_once(tokens, 1, level1, na, nb, 3);
            assert forall|k: int| level2 + 1 <= k < level1 implies (#[trigger] operator_on(
                k,
                token_at(tokens, 3),
            )) is None by {
                if operator_on(k, second) is Some {
                    lemma_one_level(second, level2, k);
                }
            }
            lemma_lift(tokens, 0, level1, level2 + 1, left, 3);
            lemma_rest_once(tokens, 3, level2, left, nc, 5);
            lemma_lift(tokens, 0, level2, 0, whole, 5);
        }
    }
}

} // verus!
