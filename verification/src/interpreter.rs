//! The interpreter: a tree-walking evaluator that owns one environment.

use crate::ast::{clone_names, lemma_model_lists, name_views, node_views, ASTNode, Node};
use crate::environment::{lookup, Environment};
use crate::error::{EvalError, EvalErrorView};
use crate::semantics::{
    binary_value,
    eval,
    eval_arguments,
    eval_loop,
    eval_statements,
    unary_value,
    Limits,
    Outcome,
    State,
};
use crate::text::is_word;
use crate::value::{printed_views, Printed, PrintedView, Val, Value};
use vstd::prelude::*;

verus! {

/// The nesting that an interpreter allows unless it is told otherwise: the
/// widest that the limit can hold, which no tree and no run reaches.
pub const DEFAULT_MAX_DEPTH: u64 = 0xFFFF_FFFF_FFFF_FFFF;

/// The number of times that an interpreter lets one loop run its body
/// unless it is told otherwise.
pub const DEFAULT_MAX_ITERATIONS: u64 = 0xFFFF_FFFF_FFFF_FFFF;

/// An interpreter: the environment, the lines printed and not yet taken,
/// and the limits.
pub struct Interpreter {
    environment: Environment,
    output: Vec<Printed>,
    max_depth: u64,
    max_iterations: u64,
}

/// An interpreter as a mathematical value.
pub struct InterpreterView {
    pub state: State,
    pub limits: Limits,
}

impl View for Interpreter {
    type V = InterpreterView;

    closed spec fn view(&self) -> InterpreterView {
        InterpreterView {
            state: State { env: self.environment@, output: printed_views(self.output@) },
            limits: Limits {
                depth: self.max_depth as nat,
                iterations: self.max_iterations as nat,
            },
        }
    }
}

/// The view of a value or failure as the interpreter hands it out.
pub open spec fn value_result(r: Result<Value, EvalError>) -> Result<Val, EvalErrorView> {
    match r {
        Ok(value) => Ok(value@),
        Err(e) => Err(e@),
    }
}

/// An evaluation from the interpreter `pre` has led to `post` and given
/// `r`, as `want` says: the same value or failure and the same state, under
/// the same limits.
pub open spec fn evaluated(
    pre: InterpreterView,
    post: InterpreterView,
    r: Result<Value, EvalError>,
    want: Outcome,
) -> bool {
    &&& post.limits == pre.limits
    &&& post.state == want.state
    &&& value_result(r) == want.result
}

/// The value of `left operator right`.
pub fn evaluate_binary_op(left: &Value, operator: &str, right: &Value) -> (r: Result<
    Value,
    EvalError,
>)
    ensures
        value_result(r) == binary_value(left@, operator@, right@),
{
    if is_word(operator, "+") {
        match (left, right) {
            (Value::Number(l), Value::Number(r)) => Ok(Value::Number(l.plus(*r))),
            (Value::String(l), Value::String(r)) => Ok(
                Value::String(l.clone().concat(r.as_str())),
            ),
            _ => Err(EvalError::TypeMismatch { operator: String::from_str(operator) }),
        }
    } else if is_word(operator, "-") {
        match (left, right) {
            (Value::Number(l), Value::Number(r)) => Ok(Value::Number(l.minus(*r))),
            _ => Err(EvalError::TypeMismatch { operator: String::from_str(operator) }),
        }
    } else if is_word(operator, "*") {
        match (left, right) {
            (Value::Number(l), Value::Number(r)) => Ok(Value::Number(l.times(*r))),
            _ => Err(EvalError::TypeMismatch { operator: String::from_str(operator) }),
        }
    } else if is_word(operator, "/") {
        match (left, right) {
            (Value::Number(l), Value::Number(r)) => if r.is_zero() {
                Err(EvalError::DivisionByZero)
            } else {
                Ok(Value::Number(l.divided_by(*r)))
            },
            _ => Err(EvalError::TypeMismatch { operator: String::from_str(operator) }),
        }
    } else if is_word(operator, "%") {
        match (left, right) {
            (Value::Number(l), Value::Number(r)) => Ok(Value::Number(l.remainder(*r))),
            _ => Err(EvalError::TypeMismatch { operator: String::from_str(operator) }),
        }
    } else if is_word(operator, "==") {
        Ok(Value::Boolean(left.same(right)))
    } else if is_word(operator, "!=") {
        Ok(Value::Boolean(!left.same(right)))
    } else if is_word(operator, "<") {
        match (left, right) {
            (Value::Number(l), Value::Number(r)) => Ok(Value::Boolean(l.is_below(*r))),
            _ => Err(EvalError::TypeMismatch { operator: String::from_str(operator) }),
        }
    } else if is_word(operator, ">") {
        match (left, right) {
            (Value::Number(l), Value::Number(r)) => Ok(Value::Boolean(r.is_below(*l))),
            _ => Err(EvalError::TypeMismatch { operator: String::from_str(operator) }),
        }
    } else if is_word(operator, "<=") {
        match (left, right) {
            (Value::Number(l), Value::Number(r)) => Ok(Value::Boolean(l.is_at_most(*r))),
            _ => Err(EvalError::TypeMismatch { operator: String::from_str(operator) }),
        }
    } else if is_word(operator, ">=") {
        match (left, right) {
            (Value::Number(l), Value::Number(r)) => Ok(Value::Boolean(r.is_at_most(*l))),
            _ => Err(EvalError::TypeMismatch { operator: String::from_str(operator) }),
        }
    } else if is_word(operator, "and") {
        let l = left.is_truthy();
        let r = right.is_truthy();
        Ok(Value::Boolean(l && r))
    } else if is_word(operator, "or") {
        let l = left.is_truthy();
        let r = right.is_truthy();
        Ok(Value::Boolean(l || r))
    } else {
        Err(EvalError::UnknownOperator { operator: String::from_str(operator) })
    }
}

/// The value of `operator operand`.
pub fn evaluate_unary_op(operator: &str, operand: &Value) -> (r: Result<Value, EvalError>)
    ensures
        value_result(r) == unary_value(operator@, operand@),
{
    if is_word(operator, "-") {
        match operand {
            Value::Number(v) => Ok(Value::Number(v.negate())),
            _ => Err(EvalError::TypeMismatch { operator: String::from_str(operator) }),
        }
    } else if is_word(operator, "+") {
        match operand {
            Value::Number(v) => Ok(Value::Number(*v)),
            _ => Err(EvalError::TypeMismatch { operator: String::from_str(operator) }),
        }
    } else if is_word(operator, "not") {
        Ok(Value::Boolean(!operand.is_truthy()))
    } else {
        Err(EvalError::UnknownOperator { operator: String::from_str(operator) })
    }
}

impl Interpreter {
    /// An interpreter with an empty environment, nothing printed and the
    /// default limits, which guard against nothing: nesting and loops are
    /// bounded by the machine alone.
    pub fn new() -> (r: Interpreter)
        ensures
            r@.state.env == Map::<Seq<char>, Val>::empty(),
            r@.state.output == Seq::<PrintedView>::empty(),
            r@.limits == (Limits {
                depth: DEFAULT_MAX_DEPTH as nat,
                iterations: DEFAULT_MAX_ITERATIONS as nat,
            }),
    {
        Interpreter::with_limits(DEFAULT_MAX_DEPTH, DEFAULT_MAX_ITERATIONS)
    }

    /// An interpreter with an empty environment, nothing printed and the
    /// given limits, for a host that wants a failure in place of a run
    /// without end.
    pub fn with_limits(max_depth: u64, max_iterations: u64) -> (r: Interpreter)
        ensures
            r@.state.env == Map::<Seq<char>, Val>::empty(),
            r@.state.output == Seq::<PrintedView>::empty(),
            r@.limits == (Limits { depth: max_depth as nat, iterations: max_iterations as nat }),
    {
        let output: Vec<Printed> = Vec::new();
        Interpreter { environment: Environment::new(), output, max_depth, max_iterations }
    }

    /// Evaluates a tree in the interpreter's environment, within its
    /// limits. What the tree prints is added to the lines held.
    pub fn interpret(&mut self, node: &ASTNode) -> (r: Result<Value, EvalError>)
        ensures
            evaluated(
                old(self)@,
                final(self)@,
                r,
                eval(
                    node@,
                    old(self)@.state,
                    old(self)@.limits.depth,
                    old(self)@.limits.iterations,
                ),
            ),
    {
        let depth = self.max_depth;
        self.evaluate(node, depth)
    }

    /// Hands out the lines printed since the last call, and holds none
    /// after it.
    pub fn take_output(&mut self) -> (r: Vec<Printed>)
        ensures
            printed_views(r@) == old(self)@.state.output,
            final(self)@.state.output == Seq::<PrintedView>::empty(),
            final(self)@.state.env == old(self)@.state.env,
            final(self)@.limits == old(self)@.limits,
    {
        let mut lines: Vec<Printed> = Vec::new();
        core::mem::swap(&mut self.output, &mut lines);
        lines
    }

    /// A copy of the value that a name is bound to; `Null` where it is not
    /// bound.
    pub fn value_of(&self, name: &String) -> (r: Value)
        ensures
            r@ == lookup(self@.state.env, name@),
    {
        match self.environment.get(name) {
            Some(value) => value,
            None => Value::Null,
        }
    }

    /// Evaluates a tree with `depth` levels of nesting left.
    #[verifier::loop_isolation(false)]
    fn evaluate(&mut self, node: &ASTNode, depth: u64) -> (r: Result<Value, EvalError>)
        ensures
            evaluated(
                old(self)@,
                final(self)@,
                r,
                eval(node@, old(self)@.state, depth as nat, old(self)@.limits.iterations),
            ),
        decreases depth, 0nat,
    {
        if depth == 0 {
            return Err(EvalError::DepthExceeded);
        }
        let inner = depth - 1;
        proof {
            lemma_model_lists(node);
        }
        match node {
            ASTNode::Program(statements) => self.run_statements(statements, inner),
            ASTNode::Block(statements) => {
                let mut saved = self.environment.duplicate();
                match self.run_statements(statements, inner) {
                    Err(e) => Err(e),
                    Ok(value) => {
                        if value.is_return() {
                            Ok(value)
                        } else {
                            core::mem::swap(&mut self.environment, &mut saved);
                            Ok(value)
                        }
                    },
                }
            },
            ASTNode::Statement(expr) => self.evaluate(expr, inner),
            ASTNode::Number(value) => Ok(Value::Number(*value)),
            ASTNode::String(value) => Ok(Value::String(value.clone())),
            ASTNode::Boolean(value) => Ok(Value::Boolean(*value)),
            ASTNode::Variable(name) => Ok(self.value_of(name)),
            ASTNode::Assignment { name, value } => {
                match self.evaluate(value, inner) {
                    Err(e) => Err(e),
                    Ok(val) => {
                        self.environment.insert(name.clone(), val.duplicate());
                        Ok(val)
                    },
                }
            },
            ASTNode::BinaryOp { left, operator, right } => {
                match self.evaluate(left, inner) {
                    Err(e) => Err(e),
                    Ok(left_val) => match self.evaluate(right, inner) {
                        Err(e) => Err(e),
                        Ok(right_val) => evaluate_binary_op(
                            &left_val,
                            operator.as_str(),
                            &right_val,
                        ),
                    },
                }
            },
            ASTNode::UnaryOp { operator, operand } => {
                match self.evaluate(operand, inner) {
                    Err(e) => Err(e),
                    Ok(val) => evaluate_unary_op(operator.as_str(), &val),
                }
            },
            ASTNode::IfStatement { condition, then_branch, else_branch } => {
                match self.evaluate(condition, inner) {
                    Err(e) => Err(e),
                    Ok(cond_value) => {
                        if cond_value.is_truthy() {
                            self.evaluate(then_branch, inner)
                        } else {
                            match else_branch {
                                Some(else_node) => self.evaluate(else_node, inner),
                                None => Ok(Value::Null),
                            }
                        }
                    },
                }
            },
            ASTNode::WhileLoop { condition, body } => self.run_loop(condition, body, inner),
            ASTNode::FunctionDef { name, params, body } => {
                let func = Value::Function {
                    params: clone_names(params),
                    body: Box::new(body.duplicate()),
                };
                self.environment.insert(name.clone(), func.duplicate());
                Ok(func)
            },
            ASTNode::FunctionCall { name, args } => self.call(name, args, inner),
            ASTNode::Return(expr) => {
                match self.evaluate(expr, inner) {
                    Err(e) => Err(e),
                    Ok(val) => Ok(Value::ReturnValue(Box::new(val))),
                }
            },
            ASTNode::Print(expr) => {
                match self.evaluate(expr, inner) {
                    Err(e) => Err(e),
                    Ok(val) => {
                        let ghost before = printed_views(self.output@);
                        self.output.push(val.value_to_string());
                        assert(printed_views(self.output@) =~= before.push(val@.printed()));
                        Ok(Value::Null)
                    },
                }
            },
        }
    }

    /// Evaluates statements one after the other.
    #[verifier::loop_isolation(false)]
    fn run_statements(&mut self, statements: &Vec<ASTNode>, depth: u64) -> (r: Result<
        Value,
        EvalError,
    >)
        ensures
            evaluated(
                old(self)@,
                final(self)@,
                r,
                eval_statements(
                    node_views(statements@),
                    0,
                    old(self)@.state,
                    Val::Null,
                    depth as nat,
                    old(self)@.limits.iterations,
                ),
            ),
        decreases depth, 1nat,
    {
        let mut result = Value::Null;
        let mut i: usize = 0;
        while i < statements.len()
            invariant
                i <= statements.len(),
                self@.limits == old(self)@.limits,
                eval_statements(
                    node_views(statements@),
                    0,
                    old(self)@.state,
                    Val::Null,
                    depth as nat,
                    old(self)@.limits.iterations,
                ) == eval_statements(
                    node_views(statements@),
                    i as int,
                    self@.state,
                    result@,
                    depth as nat,
                    old(self)@.limits.iterations,
                ),
            decreases statements.len() - i,
        {
            match self.evaluate(&statements[i], depth) {
                Err(e) => {
                    return Err(e);
                },
                Ok(value) => {
                    if value.is_return() {
                        return Ok(value);
                    }
                    result = value;
                },
            }
            i += 1;
        }
        Ok(result)
    }

    /// Runs a loop.
    #[verifier::loop_isolation(false)]
    fn run_loop(&mut self, condition: &ASTNode, body: &ASTNode, depth: u64) -> (r: Result<
        Value,
        EvalError,
    >)
        ensures
            evaluated(
                old(self)@,
                final(self)@,
                r,
                eval_loop(
                    condition@,
                    body@,
                    old(self)@.state,
                    Val::Null,
                    depth as nat,
                    old(self)@.limits.iterations,
                    old(self)@.limits.iterations,
                ),
            ),
        decreases depth, 1nat,
    {
        let mut result = Value::Null;
        let mut left: u64 = self.max_iterations;
        loop
            invariant
                self@.limits == old(self)@.limits,
                eval_loop(
                    condition@,
                    body@,
                    old(self)@.state,
                    Val::Null,
                    depth as nat,
                    old(self)@.limits.iterations,
                    old(self)@.limits.iterations,
                ) == eval_loop(
                    condition@,
                    body@,
                    self@.state,
                    result@,
                    depth as nat,
                    old(self)@.limits.iterations,
                    left as nat,
                ),
            decreases left,
        {
            match self.evaluate(condition, depth) {
                Err(e) => {
                    return Err(e);
                },
                Ok(cond_value) => {
                    if !cond_value.is_truthy() {
                        return Ok(result);
                    }
                },
            }
            if left == 0 {
                return Err(EvalError::IterationLimit);
            }
            match self.evaluate(body, depth) {
                Err(e) => {
                    return Err(e);
                },
                Ok(value) => {
                    if value.is_return() {
                        return Ok(value);
                    }
                    result = value;
                },
            }
            left -= 1;
        }
    }

    /// Calls the function that a name is bound to.
    #[verifier::loop_isolation(false)]
    fn call(&mut self, name: &String, args: &Vec<ASTNode>, depth: u64) -> (r: Result<
        Value,
        EvalError,
    >)
        ensures
            evaluated(
                old(self)@,
                final(self)@,
                r,
                eval(
                    Node::FunctionCall { name: name@, args: node_views(args@) },
                    old(self)@.state,
                    (depth + 1) as nat,
                    old(self)@.limits.iterations,
                ),
            ),
        decreases depth, 1nat,
    {
        match self.environment.get(name) {
            Some(Value::Function { params, body }) => {
                if params.len() != args.len() {
                    return Err(
                        EvalError::ArityMismatch {
                            name: name.clone(),
                            expected: params.len(),
                            found: args.len(),
                        },
                    );
                }
                let mut callee = self.environment.duplicate();
                let mut i: usize = 0;
                while i < args.len()
                    invariant
                        i <= args.len(),
                        params.len() == args.len(),
                        self@.limits == old(self)@.limits,
                        eval_arguments(
                            name_views(params@),
                            node_views(args@),
                            0,
                            old(self)@.state,
                            old(self)@.state.env,
                            depth as nat,
                            old(self)@.limits.iterations,
                        ) == eval_arguments(
                            name_views(params@),
                            node_views(args@),
                            i as int,
                            self@.state,
                            callee@,
                            depth as nat,
                            old(self)@.limits.iterations,
                        ),
                    decreases args.len() - i,
                {
                    match self.evaluate(&args[i], depth) {
                        Err(e) => {
                            return Err(e);
                        },
                        Ok(val) => {
                            callee.insert(params[i].clone(), val);
                        },
                    }
                    i += 1;
                }
                core::mem::swap(&mut self.environment, &mut callee);
                let result = self.evaluate(&body, depth);
                core::mem::swap(&mut self.environment, &mut callee);
                match result {
                    Err(e) => Err(e),
                    Ok(Value::ReturnValue(val)) => Ok(*val),
                    Ok(_) => Ok(Value::Null),
                }
            },
            _ => Err(EvalError::NotAFunction { name: name.clone() }),
        }
    }
}

} // verus!
