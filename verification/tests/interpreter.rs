use scriptling::ast::ASTNode;
use scriptling::error::EvalError;
use scriptling::interpreter::{evaluate_binary_op, evaluate_unary_op, Interpreter};
use scriptling::number::Number;
use scriptling::value::{Printed, Value};

fn n(value: f64) -> ASTNode {
    ASTNode::Number(Number::from_bits(value.to_bits()))
}

fn s(text: &str) -> ASTNode {
    ASTNode::String(text.to_string())
}

fn var(name: &str) -> ASTNode {
    ASTNode::Variable(name.to_string())
}

fn bin(left: ASTNode, operator: &str, right: ASTNode) -> ASTNode {
    ASTNode::BinaryOp {
        left: Box::new(left),
        operator: operator.to_string(),
        right: Box::new(right),
    }
}

fn un(operator: &str, operand: ASTNode) -> ASTNode {
    ASTNode::UnaryOp { operator: operator.to_string(), operand: Box::new(operand) }
}

fn assign(name: &str, value: ASTNode) -> ASTNode {
    ASTNode::Assignment { name: name.to_string(), value: Box::new(value) }
}

fn call(name: &str, args: Vec<ASTNode>) -> ASTNode {
    ASTNode::FunctionCall { name: name.to_string(), args }
}

fn def(name: &str, params: &[&str], body: ASTNode) -> ASTNode {
    ASTNode::FunctionDef {
        name: name.to_string(),
        params: params.iter().map(|p| p.to_string()).collect(),
        body: Box::new(body),
    }
}

fn ret(expr: ASTNode) -> ASTNode {
    ASTNode::Return(Box::new(expr))
}

fn print(expr: ASTNode) -> ASTNode {
    ASTNode::Print(Box::new(expr))
}

fn when(condition: ASTNode, then_branch: ASTNode, else_branch: Option<ASTNode>) -> ASTNode {
    ASTNode::IfStatement {
        condition: Box::new(condition),
        then_branch: Box::new(then_branch),
        else_branch: else_branch.map(Box::new),
    }
}

fn repeat(condition: ASTNode, body: ASTNode) -> ASTNode {
    ASTNode::WhileLoop { condition: Box::new(condition), body: Box::new(body) }
}

fn num(value: f64) -> Value {
    Value::Number(Number::from_bits(value.to_bits()))
}

fn string(text: &str) -> Value {
    Value::String(text.to_string())
}

fn lines(interpreter: &mut Interpreter) -> Vec<String> {
    interpreter
        .take_output()
        .into_iter()
        .map(|line| match line {
            Printed::Text(text) => text,
            Printed::Number(value) => f64::from_bits(value.to_bits()).to_string(),
        })
        .collect()
}

fn eval(node: ASTNode) -> Result<Value, EvalError> {
    Interpreter::new().interpret(&node)
}

fn binary(left: Value, operator: &str, right: Value) -> Result<Value, EvalError> {
    evaluate_binary_op(&left, operator, &right)
}

fn function_value() -> Value {
    Value::Function { params: vec!["a".to_string()], body: Box::new(ASTNode::Block(vec![ret(var("a"))])) }
}

#[test]
fn literals_are_their_values() {
    assert_eq!(eval(n(2.5)).unwrap(), num(2.5));
    assert_eq!(eval(s("hi")).unwrap(), string("hi"));
    assert_eq!(eval(ASTNode::Boolean(true)).unwrap(), Value::Boolean(true));
    assert_eq!(eval(ASTNode::Statement(Box::new(n(1.0)))).unwrap(), num(1.0));
}

#[test]
fn unbound_name_is_null() {
    assert_eq!(eval(var("nothing")).unwrap(), Value::Null);
    assert_eq!(Interpreter::new().value_of(&"nothing".to_string()), Value::Null);
}

#[test]
fn assignment_binds_and_gives_the_value() {
    let mut interpreter = Interpreter::new();
    assert_eq!(interpreter.interpret(&assign("x", n(5.0))).unwrap(), num(5.0));
    assert_eq!(interpreter.interpret(&var("x")).unwrap(), num(5.0));
    assert_eq!(interpreter.interpret(&assign("x", s("now a text"))).unwrap(), string("now a text"));
    assert_eq!(interpreter.value_of(&"x".to_string()), string("now a text"));
    assert_eq!(interpreter.interpret(&assign("y", var("x"))).unwrap(), string("now a text"));
    assert_eq!(interpreter.value_of(&"x".to_string()), string("now a text"));
    assert_eq!(interpreter.value_of(&"y".to_string()), string("now a text"));
}

#[test]
fn addition_of_numbers_and_of_strings() {
    assert_eq!(binary(num(2.0), "+", num(3.0)).unwrap(), num(5.0));
    assert_eq!(binary(string("ab"), "+", string("cd")).unwrap(), string("abcd"));
    assert_eq!(binary(string(""), "+", string("")).unwrap(), string(""));
}

#[test]
fn arithmetic_operators() {
    assert_eq!(binary(num(2.0), "-", num(3.0)).unwrap(), num(-1.0));
    assert_eq!(binary(num(4.0), "*", num(2.5)).unwrap(), num(10.0));
    assert_eq!(binary(num(7.0), "/", num(2.0)).unwrap(), num(3.5));
    assert_eq!(binary(num(7.0), "%", num(3.0)).unwrap(), num(1.0));
    assert_eq!(binary(num(-7.0), "%", num(3.0)).unwrap(), num(-1.0));
}

#[test]
fn division_by_zero_is_an_error() {
    assert!(matches!(binary(num(1.0), "/", num(0.0)), Err(EvalError::DivisionByZero)));
    assert!(matches!(binary(num(1.0), "/", num(-0.0)), Err(EvalError::DivisionByZero)));
    assert!(matches!(binary(num(0.0), "/", num(0.0)), Err(EvalError::DivisionByZero)));
    assert!(matches!(eval(bin(n(1.0), "/", bin(n(2.0), "-", n(2.0)))), Err(EvalError::DivisionByZero)));
}

#[test]
fn remainder_by_zero_is_no_number() {
    match binary(num(1.0), "%", num(0.0)).unwrap() {
        Value::Number(value) => assert!(value.is_nan()),
        other => panic!("unexpected: {:?}", other),
    }
}

#[test]
fn operands_of_the_wrong_kind_are_a_type_mismatch() {
    for operator in ["+", "-", "*", "/", "%", "<", ">", "<=", ">="] {
        for (left, right) in [
            (num(1.0), string("a")),
            (string("a"), num(1.0)),
            (Value::Boolean(true), Value::Boolean(false)),
            (Value::Null, num(1.0)),
            (num(1.0), Value::Null),
        ] {
            match binary(left, operator, right) {
                Err(EvalError::TypeMismatch { operator: named }) => assert_eq!(named, operator),
                other => panic!("{}: unexpected {:?}", operator, other),
            }
        }
    }
    for operator in ["-", "*", "/", "%", "<", ">", "<=", ">="] {
        match binary(string("a"), operator, string("b")) {
            Err(EvalError::TypeMismatch { operator: named }) => assert_eq!(named, operator),
            other => panic!("{}: unexpected {:?}", operator, other),
        }
    }
}

#[test]
fn comparisons_of_numbers() {
    assert_eq!(binary(num(1.0), "<", num(2.0)).unwrap(), Value::Boolean(true));
    assert_eq!(binary(num(2.0), "<", num(2.0)).unwrap(), Value::Boolean(false));
    assert_eq!(binary(num(3.0), ">", num(2.0)).unwrap(), Value::Boolean(true));
    assert_eq!(binary(num(2.0), ">", num(2.0)).unwrap(), Value::Boolean(false));
    assert_eq!(binary(num(2.0), "<=", num(2.0)).unwrap(), Value::Boolean(true));
    assert_eq!(binary(num(3.0), "<=", num(2.0)).unwrap(), Value::Boolean(false));
    assert_eq!(binary(num(2.0), ">=", num(2.0)).unwrap(), Value::Boolean(true));
    assert_eq!(binary(num(1.0), ">=", num(2.0)).unwrap(), Value::Boolean(false));
    assert_eq!(binary(num(-1.0), "<", num(0.0)).unwrap(), Value::Boolean(true));
    assert_eq!(binary(num(f64::NAN), "<=", num(f64::NAN)).unwrap(), Value::Boolean(false));
    assert_eq!(binary(num(f64::NAN), ">=", num(1.0)).unwrap(), Value::Boolean(false));
}

#[test]
fn equality_within_a_kind() {
    assert_eq!(binary(num(1.0), "==", num(1.0)).unwrap(), Value::Boolean(true));
    assert_eq!(binary(num(1.0), "==", num(2.0)).unwrap(), Value::Boolean(false));
    assert_eq!(binary(num(1.0), "!=", num(2.0)).unwrap(), Value::Boolean(true));
    assert_eq!(binary(num(0.0), "==", num(-0.0)).unwrap(), Value::Boolean(true));
    assert_eq!(binary(num(f64::NAN), "==", num(f64::NAN)).unwrap(), Value::Boolean(false));
    assert_eq!(binary(num(f64::NAN), "!=", num(f64::NAN)).unwrap(), Value::Boolean(true));
    assert_eq!(binary(string("a"), "==", string("a")).unwrap(), Value::Boolean(true));
    assert_eq!(binary(string("a"), "==", string("b")).unwrap(), Value::Boolean(false));
    assert_eq!(binary(Value::Boolean(true), "==", Value::Boolean(true)).unwrap(), Value::Boolean(true));
    assert_eq!(binary(Value::Boolean(true), "!=", Value::Boolean(false)).unwrap(), Value::Boolean(true));
    assert_eq!(binary(Value::Null, "==", Value::Null).unwrap(), Value::Boolean(true));
    assert_eq!(binary(function_value(), "==", function_value()).unwrap(), Value::Boolean(true));
    let other = Value::Function { params: vec!["b".to_string()], body: Box::new(ASTNode::Block(vec![ret(var("a"))])) };
    assert_eq!(binary(function_value(), "==", other).unwrap(), Value::Boolean(false));
    let boxed = |v: Value| Value::ReturnValue(Box::new(v));
    assert_eq!(binary(boxed(num(1.0)), "==", boxed(num(1.0))).unwrap(), Value::Boolean(true));
    assert_eq!(binary(boxed(num(1.0)), "==", boxed(num(2.0))).unwrap(), Value::Boolean(false));
}

#[test]
fn values_of_two_kinds_are_not_equal() {
    assert_eq!(binary(num(1.0), "==", string("1")).unwrap(), Value::Boolean(false));
    assert_eq!(binary(num(1.0), "!=", string("1")).unwrap(), Value::Boolean(true));
    assert_eq!(binary(num(0.0), "==", Value::Boolean(false)).unwrap(), Value::Boolean(false));
    assert_eq!(binary(Value::Null, "==", Value::Boolean(false)).unwrap(), Value::Boolean(false));
    assert_eq!(binary(string(""), "==", Value::Null).unwrap(), Value::Boolean(false));
    assert_eq!(
        binary(Value::ReturnValue(Box::new(num(1.0))), "==", num(1.0)).unwrap(),
        Value::Boolean(false)
    );
}

#[test]
fn and_or_combine_conditions() {
    assert_eq!(binary(num(1.0), "and", string("a")).unwrap(), Value::Boolean(true));
    assert_eq!(binary(num(1.0), "and", num(0.0)).unwrap(), Value::Boolean(false));
    assert_eq!(binary(Value::Null, "or", string("")).unwrap(), Value::Boolean(false));
    assert_eq!(binary(Value::Null, "or", num(2.0)).unwrap(), Value::Boolean(true));
}

#[test]
fn and_or_evaluate_both_operands() {
    let mut interpreter = Interpreter::new();
    let program = ASTNode::Program(vec![
        def("noisy", &[], ASTNode::Block(vec![print(s("called")), ret(ASTNode::Boolean(true))])),
        bin(ASTNode::Boolean(false), "and", call("noisy", vec![])),
    ]);
    assert_eq!(interpreter.interpret(&program).unwrap(), Value::Boolean(false));
    assert_eq!(lines(&mut interpreter), vec!["called".to_string()]);
    let program = bin(ASTNode::Boolean(true), "or", call("noisy", vec![]));
    assert_eq!(interpreter.interpret(&program).unwrap(), Value::Boolean(true));
    assert_eq!(lines(&mut interpreter), vec!["called".to_string()]);
}

#[test]
fn operands_are_evaluated_left_before_right() {
    let mut interpreter = Interpreter::new();
    let tree = bin(assign("x", n(1.0)), "+", bin(var("x"), "*", n(10.0)));
    assert_eq!(interpreter.interpret(&tree).unwrap(), num(11.0));
    let tree = bin(bin(n(1.0), "/", n(0.0)), "+", assign("y", n(1.0)));
    assert!(matches!(interpreter.interpret(&tree), Err(EvalError::DivisionByZero)));
    assert_eq!(interpreter.value_of(&"y".to_string()), Value::Null);
}

#[test]
fn unknown_operators() {
    match binary(num(1.0), "**", num(2.0)) {
        Err(EvalError::UnknownOperator { operator }) => assert_eq!(operator, "**"),
        other => panic!("unexpected: {:?}", other),
    }
    match evaluate_unary_op("!", &num(1.0)) {
        Err(EvalError::UnknownOperator { operator }) => assert_eq!(operator, "!"),
        other => panic!("unexpected: {:?}", other),
    }
    assert!(matches!(eval(bin(n(1.0), "^", n(2.0))), Err(EvalError::UnknownOperator { .. })));
}

#[test]
fn unary_operators() {
    assert_eq!(evaluate_unary_op("-", &num(2.0)).unwrap(), num(-2.0));
    assert_eq!(evaluate_unary_op("+", &num(2.0)).unwrap(), num(2.0));
    assert_eq!(evaluate_unary_op("not", &num(2.0)).unwrap(), Value::Boolean(false));
    assert_eq!(evaluate_unary_op("not", &string("")).unwrap(), Value::Boolean(true));
    assert_eq!(evaluate_unary_op("not", &Value::Null).unwrap(), Value::Boolean(true));
    assert_eq!(eval(un("-", un("-", n(3.0)))).unwrap(), num(3.0));
    match evaluate_unary_op("-", &num(0.0)).unwrap() {
        Value::Number(value) => assert_eq!(value.to_bits(), (-0.0f64).to_bits()),
        other => panic!("unexpected: {:?}", other),
    }
    for operator in ["-", "+"] {
        match evaluate_unary_op(operator, &string("a")) {
            Err(EvalError::TypeMismatch { operator: named }) => assert_eq!(named, operator),
            other => panic!("unexpected: {:?}", other),
        }
    }
}

#[test]
fn truthiness_boundary() {
    assert!(!num(0.0).is_truthy());
    assert!(!num(-0.0).is_truthy());
    assert!(!string("").is_truthy());
    assert!(!Value::Boolean(false).is_truthy());
    assert!(!Value::Null.is_truthy());
    assert!(num(1.0).is_truthy());
    assert!(num(-1.0).is_truthy());
    assert!(num(0.5).is_truthy());
    assert!(num(f64::NAN).is_truthy());
    assert!(num(f64::NEG_INFINITY).is_truthy());
    assert!(string("0").is_truthy());
    assert!(string(" ").is_truthy());
    assert!(string("false").is_truthy());
    assert!(Value::Boolean(true).is_truthy());
    assert!(function_value().is_truthy());
    assert!(Value::ReturnValue(Box::new(Value::Null)).is_truthy());
    assert!(Value::ReturnValue(Box::new(Value::Boolean(false))).is_truthy());
}

#[test]
fn if_goes_by_truthiness() {
    let pick = |condition: ASTNode| eval(when(condition, s("then"), Some(s("else")))).unwrap();
    assert_eq!(pick(n(0.0)), string("else"));
    assert_eq!(pick(s("")), string("else"));
    assert_eq!(pick(ASTNode::Boolean(false)), string("else"));
    assert_eq!(pick(var("unbound")), string("else"));
    assert_eq!(pick(n(-1.0)), string("then"));
    assert_eq!(pick(n(0.001)), string("then"));
    assert_eq!(pick(s("x")), string("then"));
    assert_eq!(pick(ASTNode::Boolean(true)), string("then"));
    assert_eq!(pick(def("f", &[], n(1.0))), string("then"));
}

#[test]
fn if_without_else_is_null_when_the_condition_fails() {
    assert_eq!(eval(when(n(0.0), s("then"), None)).unwrap(), Value::Null);
    assert_eq!(eval(when(n(1.0), s("then"), None)).unwrap(), string("then"));
}

#[test]
fn program_gives_the_value_of_its_last_statement() {
    assert_eq!(eval(ASTNode::Program(vec![])).unwrap(), Value::Null);
    assert_eq!(eval(ASTNode::Program(vec![n(1.0), n(2.0)])).unwrap(), num(2.0));
}

#[test]
fn return_signal_ends_the_statements_around_it() {
    let mut interpreter = Interpreter::new();
    let program = ASTNode::Program(vec![print(n(1.0)), ret(n(2.0)), print(n(3.0))]);
    assert_eq!(interpreter.interpret(&program).unwrap(), Value::ReturnValue(Box::new(num(2.0))));
    assert_eq!(lines(&mut interpreter), vec!["1".to_string()]);
}

#[test]
fn binding_made_in_a_block_is_gone_after_it() {
    let mut interpreter = Interpreter::new();
    let tree = ASTNode::Block(vec![assign("inner", n(1.0)), var("inner")]);
    assert_eq!(interpreter.interpret(&tree).unwrap(), num(1.0));
    assert_eq!(interpreter.value_of(&"inner".to_string()), Value::Null);
}

#[test]
fn block_gives_outer_bindings_their_old_values_back() {
    let mut interpreter = Interpreter::new();
    interpreter.interpret(&assign("x", n(5.0))).unwrap();
    let tree = ASTNode::Block(vec![assign("x", n(7.0)), print(var("x"))]);
    assert_eq!(interpreter.interpret(&tree).unwrap(), Value::Null);
    assert_eq!(lines(&mut interpreter), vec!["7".to_string()]);
    assert_eq!(interpreter.value_of(&"x".to_string()), num(5.0));
}

#[test]
fn block_left_by_return_keeps_its_bindings() {
    let mut interpreter = Interpreter::new();
    let tree = ASTNode::Block(vec![assign("x", n(1.0)), ret(var("x")), assign("x", n(2.0))]);
    assert_eq!(interpreter.interpret(&tree).unwrap(), Value::ReturnValue(Box::new(num(1.0))));
    assert_eq!(interpreter.value_of(&"x".to_string()), num(1.0));
}

#[test]
fn program_node_keeps_its_bindings() {
    let mut interpreter = Interpreter::new();
    let tree = ASTNode::Program(vec![assign("x", n(1.0))]);
    interpreter.interpret(&tree).unwrap();
    assert_eq!(interpreter.value_of(&"x".to_string()), num(1.0));
}

#[test]
fn binding_made_directly_in_an_if_branch_stays() {
    let mut interpreter = Interpreter::new();
    interpreter.interpret(&when(n(1.0), assign("x", n(1.0)), None)).unwrap();
    assert_eq!(interpreter.value_of(&"x".to_string()), num(1.0));
    interpreter.interpret(&when(n(0.0), n(0.0), Some(assign("y", n(2.0))))).unwrap();
    assert_eq!(interpreter.value_of(&"y".to_string()), num(2.0));
}

#[test]
fn binding_made_in_a_block_branch_of_an_if_is_gone() {
    let mut interpreter = Interpreter::new();
    interpreter
        .interpret(&when(n(1.0), ASTNode::Block(vec![assign("x", n(1.0))]), None))
        .unwrap();
    assert_eq!(interpreter.value_of(&"x".to_string()), Value::Null);
}

#[test]
fn binding_made_directly_in_a_loop_body_stays() {
    let mut interpreter = Interpreter::new();
    interpreter.interpret(&assign("i", n(0.0))).unwrap();
    let tree = repeat(bin(var("i"), "<", n(3.0)), assign("i", bin(var("i"), "+", n(1.0))));
    assert_eq!(interpreter.interpret(&tree).unwrap(), num(3.0));
    assert_eq!(interpreter.value_of(&"i".to_string()), num(3.0));
}

#[test]
fn loop_sums_one_to_ten() {
    let mut interpreter = Interpreter::new();
    let tree = ASTNode::Program(vec![
        assign("i", n(0.0)),
        assign("total", n(0.0)),
        repeat(
            bin(var("i"), "<", n(10.0)),
            ASTNode::Program(vec![
                assign("i", bin(var("i"), "+", n(1.0))),
                assign("total", bin(var("total"), "+", var("i"))),
            ]),
        ),
        print(var("total")),
    ]);
    assert_eq!(interpreter.interpret(&tree).unwrap(), Value::Null);
    assert_eq!(lines(&mut interpreter), vec!["55".to_string()]);
    assert_eq!(interpreter.value_of(&"total".to_string()), num(55.0));
    assert_eq!(interpreter.value_of(&"i".to_string()), num(10.0));
}

#[test]
fn loop_that_never_runs_is_null() {
    assert_eq!(eval(repeat(n(0.0), n(1.0))).unwrap(), Value::Null);
}

#[test]
fn loop_with_a_block_body_makes_no_progress() {
    let mut interpreter = Interpreter::with_limits(100, 25);
    interpreter.interpret(&assign("i", n(0.0))).unwrap();
    let tree = repeat(
        bin(var("i"), "<", n(3.0)),
        ASTNode::Block(vec![assign("i", bin(var("i"), "+", n(1.0))), print(var("i"))]),
    );
    assert!(matches!(interpreter.interpret(&tree), Err(EvalError::IterationLimit)));
    assert_eq!(lines(&mut interpreter).len(), 25);
    assert_eq!(interpreter.value_of(&"i".to_string()), num(0.0));
}

#[test]
fn loop_within_its_limit() {
    let mut interpreter = Interpreter::with_limits(100, 3);
    interpreter.interpret(&assign("i", n(0.0))).unwrap();
    let tree = repeat(bin(var("i"), "<", n(3.0)), assign("i", bin(var("i"), "+", n(1.0))));
    assert_eq!(interpreter.interpret(&tree).unwrap(), num(3.0));
    interpreter.interpret(&assign("i", n(0.0))).unwrap();
    let tree = repeat(bin(var("i"), "<", n(4.0)), assign("i", bin(var("i"), "+", n(1.0))));
    assert!(matches!(interpreter.interpret(&tree), Err(EvalError::IterationLimit)));
    assert_eq!(interpreter.value_of(&"i".to_string()), num(3.0));
}

#[test]
fn return_leaves_a_loop() {
    let mut interpreter = Interpreter::new();
    let tree = repeat(ASTNode::Boolean(true), ret(n(4.0)));
    assert_eq!(interpreter.interpret(&tree).unwrap(), Value::ReturnValue(Box::new(num(4.0))));
}

#[test]
fn definition_binds_a_function_and_gives_it() {
    let mut interpreter = Interpreter::new();
    let body = ASTNode::Block(vec![ret(var("a"))]);
    let value = interpreter.interpret(&def("f", &["a"], body)).unwrap();
    assert_eq!(value, function_value());
    assert_eq!(interpreter.value_of(&"f".to_string()), function_value());
    interpreter.interpret(&assign("f", n(1.0))).unwrap();
    assert_eq!(interpreter.value_of(&"f".to_string()), num(1.0));
}

#[test]
fn call_binds_arguments_to_parameters() {
    let mut interpreter = Interpreter::new();
    interpreter
        .interpret(&def("sub", &["a", "b"], ASTNode::Block(vec![ret(bin(var("a"), "-", var("b")))])))
        .unwrap();
    assert_eq!(interpreter.interpret(&call("sub", vec![n(5.0), n(3.0)])).unwrap(), num(2.0));
    assert_eq!(interpreter.value_of(&"a".to_string()), Value::Null);
    assert_eq!(interpreter.value_of(&"b".to_string()), Value::Null);
}

#[test]
fn function_without_return_gives_null() {
    let mut interpreter = Interpreter::new();
    interpreter.interpret(&def("f", &[], ASTNode::Block(vec![n(42.0)]))).unwrap();
    assert_eq!(interpreter.interpret(&call("f", vec![])).unwrap(), Value::Null);
    interpreter.interpret(&def("g", &[], n(42.0))).unwrap();
    assert_eq!(interpreter.interpret(&call("g", vec![])).unwrap(), Value::Null);
}

#[test]
fn call_cannot_change_the_callers_bindings() {
    let mut interpreter = Interpreter::new();
    interpreter.interpret(&assign("x", n(1.0))).unwrap();
    interpreter
        .interpret(&def("f", &[], ASTNode::Program(vec![assign("x", n(2.0)), ret(var("x"))])))
        .unwrap();
    assert_eq!(interpreter.interpret(&call("f", vec![])).unwrap(), num(2.0));
    assert_eq!(interpreter.value_of(&"x".to_string()), num(1.0));
}

#[test]
fn body_runs_on_a_copy_of_the_callers_bindings() {
    let mut interpreter = Interpreter::new();
    interpreter.interpret(&assign("y", n(10.0))).unwrap();
    interpreter.interpret(&def("f", &[], ret(var("y")))).unwrap();
    assert_eq!(interpreter.interpret(&call("f", vec![])).unwrap(), num(10.0));
    interpreter.interpret(&def("g", &["y"], ret(var("y")))).unwrap();
    assert_eq!(interpreter.interpret(&call("g", vec![n(1.0)])).unwrap(), num(1.0));
    assert_eq!(interpreter.value_of(&"y".to_string()), num(10.0));
}

#[test]
fn arguments_are_evaluated_in_the_callers_environment() {
    let mut interpreter = Interpreter::new();
    interpreter.interpret(&def("f", &["a"], ret(var("x")))).unwrap();
    assert_eq!(interpreter.interpret(&call("f", vec![assign("x", n(3.0))])).unwrap(), Value::Null);
    assert_eq!(interpreter.value_of(&"x".to_string()), num(3.0));
}

#[test]
fn recursion() {
    let mut interpreter = Interpreter::new();
    let body = ASTNode::Block(vec![when(
        bin(var("n"), "<=", n(1.0)),
        ASTNode::Block(vec![ret(n(1.0))]),
        Some(ASTNode::Block(vec![ret(bin(
            var("n"),
            "*",
            call("factorial", vec![bin(var("n"), "-", n(1.0))]),
        ))])),
    )]);
    interpreter.interpret(&def("factorial", &["n"], body)).unwrap();
    assert_eq!(interpreter.interpret(&call("factorial", vec![n(5.0)])).unwrap(), num(120.0));
    assert_eq!(interpreter.interpret(&call("factorial", vec![n(1.0)])).unwrap(), num(1.0));
    assert_eq!(interpreter.interpret(&call("factorial", vec![n(10.0)])).unwrap(), num(3628800.0));
}

#[test]
fn calling_what_is_no_function() {
    match eval(call("missing", vec![])) {
        Err(EvalError::NotAFunction { name }) => assert_eq!(name, "missing"),
        other => panic!("unexpected: {:?}", other),
    }
    let mut interpreter = Interpreter::new();
    interpreter.interpret(&assign("x", n(1.0))).unwrap();
    match interpreter.interpret(&call("x", vec![n(1.0)])) {
        Err(EvalError::NotAFunction { name }) => assert_eq!(name, "x"),
        other => panic!("unexpected: {:?}", other),
    }
}

#[test]
fn wrong_number_of_arguments() {
    let mut interpreter = Interpreter::new();
    interpreter.interpret(&def("add", &["a", "b"], ret(bin(var("a"), "+", var("b"))))).unwrap();
    match interpreter.interpret(&call("add", vec![n(1.0)])) {
        Err(EvalError::ArityMismatch { name, expected, found }) => {
            assert_eq!(name, "add");
            assert_eq!(expected, 2);
            assert_eq!(found, 1);
        }
        other => panic!("unexpected: {:?}", other),
    }
    match interpreter.interpret(&call("add", vec![n(1.0), n(2.0), print(n(3.0))])) {
        Err(EvalError::ArityMismatch { name, expected, found }) => {
            assert_eq!(name, "add");
            assert_eq!(expected, 2);
            assert_eq!(found, 3);
        }
        other => panic!("unexpected: {:?}", other),
    }
    assert!(lines(&mut interpreter).is_empty());
}

#[test]
fn return_wraps_its_value() {
    assert_eq!(eval(ret(n(1.0))).unwrap(), Value::ReturnValue(Box::new(num(1.0))));
}

#[test]
fn print_writes_each_kind_of_value() {
    let mut interpreter = Interpreter::new();
    let program = ASTNode::Program(vec![
        print(n(5.0)),
        print(n(2.5)),
        print(n(-0.1)),
        print(bin(n(0.1), "+", n(0.2))),
        print(bin(n(1.0), "/", n(3.0))),
        print(s("as it stands")),
        print(s("")),
        print(ASTNode::Boolean(true)),
        print(ASTNode::Boolean(false)),
        print(var("unbound")),
        print(def("f", &[], n(1.0))),
        print(ret(n(7.0))),
        print(ret(ret(s("deep")))),
    ]);
    assert_eq!(interpreter.interpret(&program).unwrap(), Value::Null);
    assert_eq!(
        lines(&mut interpreter),
        vec![
            "5",
            "2.5",
            "-0.1",
            "0.30000000000000004",
            "0.3333333333333333",
            "as it stands",
            "",
            "true",
            "false",
            "null",
            "<function>",
            "7",
            "deep",
        ]
    );
}

#[test]
fn printed_form_of_a_value() {
    match num(2.0).value_to_string() {
        Printed::Number(value) => assert_eq!(value.to_bits(), 2.0f64.to_bits()),
        other => panic!("unexpected: {:?}", other),
    }
    match Value::Null.value_to_string() {
        Printed::Text(text) => assert_eq!(text, "null"),
        other => panic!("unexpected: {:?}", other),
    }
    match Value::ReturnValue(Box::new(Value::Boolean(true))).value_to_string() {
        Printed::Text(text) => assert_eq!(text, "true"),
        other => panic!("unexpected: {:?}", other),
    }
}

#[test]
fn taking_the_output_empties_it() {
    let mut interpreter = Interpreter::new();
    interpreter.interpret(&print(n(1.0))).unwrap();
    interpreter.interpret(&print(n(2.0))).unwrap();
    assert_eq!(lines(&mut interpreter), vec!["1".to_string(), "2".to_string()]);
    assert!(lines(&mut interpreter).is_empty());
    interpreter.interpret(&print(n(3.0))).unwrap();
    assert_eq!(lines(&mut interpreter), vec!["3".to_string()]);
}

#[test]
fn what_was_printed_before_a_failure_stays() {
    let mut interpreter = Interpreter::new();
    let program = ASTNode::Program(vec![
        assign("x", n(1.0)),
        print(var("x")),
        bin(n(1.0), "/", n(0.0)),
        print(n(2.0)),
    ]);
    assert!(matches!(interpreter.interpret(&program), Err(EvalError::DivisionByZero)));
    assert_eq!(lines(&mut interpreter), vec!["1".to_string()]);
    assert_eq!(interpreter.value_of(&"x".to_string()), num(1.0));
}

#[test]
fn nesting_beyond_the_limit_fails() {
    assert!(matches!(Interpreter::with_limits(0, 10).interpret(&n(1.0)), Err(EvalError::DepthExceeded)));
    assert_eq!(Interpreter::with_limits(1, 10).interpret(&n(1.0)).unwrap(), num(1.0));
    let tree = bin(n(1.0), "+", n(2.0));
    assert!(matches!(Interpreter::with_limits(1, 10).interpret(&tree), Err(EvalError::DepthExceeded)));
    assert_eq!(Interpreter::with_limits(2, 10).interpret(&tree).unwrap(), num(3.0));
}

#[test]
fn endless_recursion_fails_under_a_depth_limit() {
    let mut interpreter = Interpreter::with_limits(1000, 1000);
    interpreter.interpret(&def("f", &[], ret(call("f", vec![])))).unwrap();
    assert!(matches!(interpreter.interpret(&call("f", vec![])), Err(EvalError::DepthExceeded)));
    assert_eq!(interpreter.interpret(&n(1.0)).unwrap(), num(1.0));
}

#[test]
fn pure_expression_twice_gives_the_same() {
    let mut interpreter = Interpreter::new();
    interpreter.interpret(&assign("x", n(4.0))).unwrap();
    let tree = bin(bin(var("x"), "*", n(2.5)), "-", un("-", n(1.0)));
    let first = interpreter.interpret(&tree).unwrap();
    let second = interpreter.interpret(&tree).unwrap();
    assert_eq!(first, num(11.0));
    assert_eq!(second, first);
    assert_eq!(interpreter.value_of(&"x".to_string()), num(4.0));
    assert!(lines(&mut interpreter).is_empty());
}

#[test]
fn values_are_copied_whole() {
    let value = Value::ReturnValue(Box::new(function_value()));
    assert_eq!(value.clone(), value);
    assert_eq!(value.duplicate(), value);
    assert!(value.is_return());
    assert!(!function_value().is_return());
}

#[test]
fn expression_with_calls_twice_gives_the_same() {
    let mut interpreter = Interpreter::new();
    interpreter
        .interpret(&def(
            "add",
            &["a", "b"],
            ASTNode::Block(vec![assign("sum", bin(var("a"), "+", var("b"))), ret(var("sum"))]),
        ))
        .unwrap();
    interpreter.interpret(&assign("x", n(4.0))).unwrap();
    let tree = bin(call("add", vec![var("x"), n(3.0)]), "*", call("add", vec![n(1.0), n(1.0)]));
    let first = interpreter.interpret(&tree).unwrap();
    let second = interpreter.interpret(&tree).unwrap();
    assert_eq!(first, num(14.0));
    assert_eq!(second, first);
    assert_eq!(interpreter.value_of(&"x".to_string()), num(4.0));
    assert_eq!(interpreter.value_of(&"sum".to_string()), Value::Null);
    assert_eq!(interpreter.value_of(&"a".to_string()), Value::Null);
    assert!(lines(&mut interpreter).is_empty());
}

#[test]
fn call_of_a_function_that_prints_prints_each_time() {
    let mut interpreter = Interpreter::new();
    interpreter
        .interpret(&def("loud", &[], ASTNode::Program(vec![print(s("here")), ret(n(1.0))])))
        .unwrap();
    let tree = call("loud", vec![]);
    assert_eq!(interpreter.interpret(&tree).unwrap(), num(1.0));
    assert_eq!(interpreter.interpret(&tree).unwrap(), num(1.0));
    assert_eq!(lines(&mut interpreter), vec!["here".to_string(), "here".to_string()]);
}

#[test]
fn fresh_interpreter_has_no_depth_guard() {
    let mut tree = n(1.0);
    for _ in 0..1500 {
        tree = bin(tree, "+", n(1.0));
    }
    assert_eq!(Interpreter::new().interpret(&tree).unwrap(), num(1501.0));
    assert!(matches!(
        Interpreter::with_limits(1000, 10).interpret(&tree),
        Err(EvalError::DepthExceeded)
    ));
}

#[test]
fn deep_recursion_runs_on_a_fresh_interpreter() {
    let body = ASTNode::Block(vec![when(
        bin(var("n"), "<=", n(0.0)),
        ASTNode::Block(vec![ret(n(0.0))]),
        Some(ASTNode::Block(vec![ret(bin(
            n(1.0),
            "+",
            call("count", vec![bin(var("n"), "-", n(1.0))]),
        ))])),
    )]);
    let mut interpreter = Interpreter::new();
    interpreter.interpret(&def("count", &["n"], body)).unwrap();
    assert_eq!(interpreter.interpret(&call("count", vec![n(200.0)])).unwrap(), num(200.0));
}
