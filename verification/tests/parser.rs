use scriptling::ast::ASTNode;
use scriptling::error::ParseError;
use scriptling::lexer::tokenize;
use scriptling::number::Number;
use scriptling::parser::Parser;
use scriptling::token::Token;

fn parse(source: &str) -> Result<ASTNode, ParseError> {
    Parser::new(tokenize(source).unwrap()).parse()
}

fn program(statements: Vec<ASTNode>) -> ASTNode {
    ASTNode::Program(statements)
}

fn stmt(expr: ASTNode) -> ASTNode {
    ASTNode::Statement(Box::new(expr))
}

fn n(value: f64) -> ASTNode {
    ASTNode::Number(Number::from_bits(value.to_bits()))
}

fn var(name: &str) -> ASTNode {
    ASTNode::Variable(name.to_string())
}

fn bin(left: ASTNode, operator: &str, right: ASTNode) -> ASTNode {
    ASTNode::BinaryOp {
        left: Box::new(left),
        operator: operator.to_string(),
        right: Box::new(right),
    }
}

fn un(operator: &str, operand: ASTNode) -> ASTNode {
    ASTNode::UnaryOp { operator: operator.to_string(), operand: Box::new(operand) }
}

fn call(name: &str, args: Vec<ASTNode>) -> ASTNode {
    ASTNode::FunctionCall { name: name.to_string(), args }
}

fn assign(name: &str, value: ASTNode) -> ASTNode {
    ASTNode::Assignment { name: name.to_string(), value: Box::new(value) }
}

fn block(statements: Vec<ASTNode>) -> ASTNode {
    ASTNode::Block(statements)
}

fn expression(source: &str) -> ASTNode {
    match parse(source).unwrap() {
        ASTNode::Program(mut statements) => {
            assert_eq!(statements.len(), 1);
            match statements.remove(0) {
                ASTNode::Statement(expr) => *expr,
                other => panic!("not an expression statement: {:?}", other),
            }
        }
        other => panic!("not a program: {:?}", other),
    }
}

#[test]
fn no_tokens_make_the_empty_program() {
    assert_eq!(Parser::new(vec![]).parse().unwrap(), program(vec![]));
    assert_eq!(parse("").unwrap(), program(vec![]));
    assert_eq!(parse("# nothing").unwrap(), program(vec![]));
}

#[test]
fn multiplication_binds_tighter_than_addition() {
    assert_eq!(expression("1 + 2 * 3"), bin(n(1.0), "+", bin(n(2.0), "*", n(3.0))));
    assert_eq!(expression("1 * 2 + 3"), bin(bin(n(1.0), "*", n(2.0)), "+", n(3.0)));
}

#[test]
fn parentheses_group() {
    assert_eq!(expression("(1 + 2) * 3"), bin(bin(n(1.0), "+", n(2.0)), "*", n(3.0)));
    assert_eq!(expression("((x))"), var("x"));
}

#[test]
fn operators_of_one_level_join_from_the_left() {
    assert_eq!(expression("1 - 2 - 3"), bin(bin(n(1.0), "-", n(2.0)), "-", n(3.0)));
    assert_eq!(expression("8 / 4 % 3 * 2"), bin(bin(bin(n(8.0), "/", n(4.0)), "%", n(3.0)), "*", n(2.0)));
    assert_eq!(expression("a == b != c"), bin(bin(var("a"), "==", var("b")), "!=", var("c")));
    assert_eq!(expression("a or b or c"), bin(bin(var("a"), "or", var("b")), "or", var("c")));
}

#[test]
fn every_level_of_precedence() {
    assert_eq!(
        expression("a or b and c == d < e + f * -g"),
        bin(
            var("a"),
            "or",
            bin(
                var("b"),
                "and",
                bin(
                    var("c"),
                    "==",
                    bin(var("d"), "<", bin(var("e"), "+", bin(var("f"), "*", un("-", var("g"))))),
                ),
            ),
        )
    );
    assert_eq!(
        expression("a * b + c < d == e and f or g"),
        bin(
            bin(
                bin(bin(bin(bin(var("a"), "*", var("b")), "+", var("c")), "<", var("d")), "==", var("e")),
                "and",
                var("f"),
            ),
            "or",
            var("g"),
        )
    );
}

#[test]
fn comparison_operators() {
    assert_eq!(expression("a <= b"), bin(var("a"), "<=", var("b")));
    assert_eq!(expression("a >= b"), bin(var("a"), ">=", var("b")));
    assert_eq!(expression("a > b"), bin(var("a"), ">", var("b")));
    assert_eq!(expression("a != b"), bin(var("a"), "!=", var("b")));
}

#[test]
fn prefixes_nest_to_the_right() {
    assert_eq!(expression("- - x"), un("-", un("-", var("x"))));
    assert_eq!(expression("-+x"), un("-", un("+", var("x"))));
    assert_eq!(expression("not not x"), un("not", un("not", var("x"))));
    assert_eq!(expression("!x"), un("not", var("x")));
    assert_eq!(expression("not x and y"), bin(un("not", var("x")), "and", var("y")));
    assert_eq!(expression("-x * y"), bin(un("-", var("x")), "*", var("y")));
    assert_eq!(expression("a - -b"), bin(var("a"), "-", un("-", var("b"))));
}

#[test]
fn literals() {
    assert_eq!(expression("2.5"), n(2.5));
    assert_eq!(expression("\"hi\""), ASTNode::String("hi".to_string()));
    assert_eq!(expression("true"), ASTNode::Boolean(true));
    assert_eq!(expression("false"), ASTNode::Boolean(false));
}

#[test]
fn calls() {
    assert_eq!(expression("f()"), call("f", vec![]));
    assert_eq!(expression("f(1)"), call("f", vec![n(1.0)]));
    assert_eq!(expression("f(1, x + 2)"), call("f", vec![n(1.0), bin(var("x"), "+", n(2.0))]));
    assert_eq!(expression("f(g(1), 2)"), call("f", vec![call("g", vec![n(1.0)]), n(2.0)]));
    assert_eq!(expression("f(1) + 2"), bin(call("f", vec![n(1.0)]), "+", n(2.0)));
}

#[test]
fn assignment_needs_the_sign_right_after_the_name() {
    assert_eq!(parse("x = 1 + 2").unwrap(), program(vec![assign("x", bin(n(1.0), "+", n(2.0)))]));
    assert_eq!(parse("x == 1").unwrap(), program(vec![stmt(bin(var("x"), "==", n(1.0)))]));
    let tokens = vec![
        Token::Identifier("x".to_string()),
        Token::Newline,
        Token::Assign,
        Token::Number(Number::from_bits(1.0f64.to_bits())),
    ];
    match Parser::new(tokens).parse() {
        Err(ParseError::UnexpectedToken { found }) => assert_eq!(found, Token::Assign),
        other => panic!("unexpected: {:?}", other),
    }
}

#[test]
fn statements_follow_one_another() {
    assert_eq!(
        parse("x = 5\nprint x").unwrap(),
        program(vec![assign("x", n(5.0)), ASTNode::Print(Box::new(var("x")))])
    );
    assert_eq!(parse("\n\nx\n\n").unwrap(), program(vec![stmt(var("x"))]));
    assert_eq!(parse("x y").unwrap(), program(vec![stmt(var("x")), stmt(var("y"))]));
}

#[test]
fn line_breaks_inside_an_expression_are_passed_over() {
    assert_eq!(parse("x = 1 +\n2").unwrap(), program(vec![assign("x", bin(n(1.0), "+", n(2.0)))]));
    assert_eq!(parse("1\n+ 2").unwrap(), program(vec![stmt(bin(n(1.0), "+", n(2.0)))]));
}

#[test]
fn return_and_print() {
    assert_eq!(parse("return 1").unwrap(), program(vec![ASTNode::Return(Box::new(n(1.0)))]));
    assert_eq!(
        parse("print 1 + 2").unwrap(),
        program(vec![ASTNode::Print(Box::new(bin(n(1.0), "+", n(2.0))))])
    );
}

#[test]
fn if_with_and_without_else() {
    assert_eq!(
        parse("if x: y = 1").unwrap(),
        program(vec![ASTNode::IfStatement {
            condition: Box::new(var("x")),
            then_branch: Box::new(block(vec![assign("y", n(1.0))])),
            else_branch: None,
        }])
    );
    assert_eq!(
        parse("if x < 1: print 1 else: print 2").unwrap(),
        program(vec![ASTNode::IfStatement {
            condition: Box::new(bin(var("x"), "<", n(1.0))),
            then_branch: Box::new(block(vec![ASTNode::Print(Box::new(n(1.0)))])),
            else_branch: Some(Box::new(block(vec![ASTNode::Print(Box::new(n(2.0)))]))),
        }])
    );
    assert_eq!(
        parse("if x: y\nelse: z").unwrap(),
        program(vec![ASTNode::IfStatement {
            condition: Box::new(var("x")),
            then_branch: Box::new(block(vec![stmt(var("y"))])),
            else_branch: Some(Box::new(block(vec![stmt(var("z"))]))),
        }])
    );
}

#[test]
fn else_belongs_to_the_nearest_if() {
    assert_eq!(
        parse("if a: if b: c else: d").unwrap(),
        program(vec![ASTNode::IfStatement {
            condition: Box::new(var("a")),
            then_branch: Box::new(block(vec![ASTNode::IfStatement {
                condition: Box::new(var("b")),
                then_branch: Box::new(block(vec![stmt(var("c"))])),
                else_branch: Some(Box::new(block(vec![stmt(var("d"))]))),
            }])),
            else_branch: None,
        }])
    );
}

#[test]
fn while_loop() {
    assert_eq!(
        parse("while i < 3: i = i + 1").unwrap(),
        program(vec![ASTNode::WhileLoop {
            condition: Box::new(bin(var("i"), "<", n(3.0))),
            body: Box::new(block(vec![assign("i", bin(var("i"), "+", n(1.0)))])),
        }])
    );
}

#[test]
fn function_definitions() {
    assert_eq!(
        parse("def f(): return 1").unwrap(),
        program(vec![ASTNode::FunctionDef {
            name: "f".to_string(),
            params: vec![],
            body: Box::new(block(vec![ASTNode::Return(Box::new(n(1.0)))])),
        }])
    );
    assert_eq!(
        parse("def add(a, b): return a + b").unwrap(),
        program(vec![ASTNode::FunctionDef {
            name: "add".to_string(),
            params: vec!["a".to_string(), "b".to_string()],
            body: Box::new(block(vec![ASTNode::Return(Box::new(bin(var("a"), "+", var("b"))))])),
        }])
    );
}

#[test]
fn indent_after_a_colon_starts_no_block() {
    match parse("def add(a, b):\n    return a + b\nprint add(2, 3)") {
        Err(ParseError::UnexpectedToken { found }) => assert_eq!(found, Token::Indent),
        other => panic!("unexpected: {:?}", other),
    }
    match parse("if x:\n    y = 1\n") {
        Err(ParseError::UnexpectedToken { found }) => assert_eq!(found, Token::Indent),
        other => panic!("unexpected: {:?}", other),
    }
    let tokens = vec![
        Token::If,
        Token::True,
        Token::Colon,
        Token::Newline,
        Token::Indent,
        Token::Identifier("y".to_string()),
        Token::Dedent,
    ];
    match Parser::new(tokens).parse() {
        Err(ParseError::UnexpectedToken { found }) => assert_eq!(found, Token::Indent),
        other => panic!("unexpected: {:?}", other),
    }
}

#[test]
fn stray_dedent_is_an_error() {
    match parse("a\n  b\nc") {
        Err(ParseError::UnexpectedToken { found }) => assert_eq!(found, Token::Indent),
        other => panic!("unexpected: {:?}", other),
    }
    match Parser::new(vec![Token::Dedent]).parse() {
        Err(ParseError::UnexpectedToken { found }) => assert_eq!(found, Token::Dedent),
        other => panic!("unexpected: {:?}", other),
    }
}

#[test]
fn missing_operand_at_the_end() {
    assert!(matches!(parse("1 +"), Err(ParseError::UnexpectedEnd)));
    assert!(matches!(parse("x ="), Err(ParseError::UnexpectedEnd)));
    assert!(matches!(parse("print"), Err(ParseError::UnexpectedEnd)));
    assert!(matches!(parse("if x:"), Err(ParseError::UnexpectedEnd)));
    assert!(matches!(parse("f(1,"), Err(ParseError::UnexpectedEnd)));
    assert!(matches!(parse("-"), Err(ParseError::UnexpectedEnd)));
}

#[test]
fn missing_closing_parenthesis() {
    match parse("(1 + 2") {
        Err(ParseError::Expected { expected, found }) => {
            assert_eq!(expected, Token::RightParen);
            assert_eq!(found, Token::EOF);
        }
        other => panic!("unexpected: {:?}", other),
    }
    match parse("f(1 2)") {
        Err(ParseError::Expected { expected, found }) => {
            assert_eq!(expected, Token::RightParen);
            assert_eq!(found, Token::Number(Number::from_bits(2.0f64.to_bits())));
        }
        other => panic!("unexpected: {:?}", other),
    }
}

#[test]
fn missing_colon() {
    match parse("if x y") {
        Err(ParseError::Expected { expected, found }) => {
            assert_eq!(expected, Token::Colon);
            assert_eq!(found, Token::Identifier("y".to_string()));
        }
        other => panic!("unexpected: {:?}", other),
    }
    match parse("while x") {
        Err(ParseError::Expected { expected, found }) => {
            assert_eq!(expected, Token::Colon);
            assert_eq!(found, Token::EOF);
        }
        other => panic!("unexpected: {:?}", other),
    }
    match parse("if x: y else z") {
        Err(ParseError::Expected { expected, found }) => {
            assert_eq!(expected, Token::Colon);
            assert_eq!(found, Token::Identifier("z".to_string()));
        }
        other => panic!("unexpected: {:?}", other),
    }
}

#[test]
fn definition_needs_names() {
    match parse("def (a): a") {
        Err(ParseError::ExpectedName { found }) => assert_eq!(found, Token::LeftParen),
        other => panic!("unexpected: {:?}", other),
    }
    match parse("def f(1): a") {
        Err(ParseError::ExpectedName { found }) => {
            assert_eq!(found, Token::Number(Number::from_bits(1.0f64.to_bits())))
        }
        other => panic!("unexpected: {:?}", other),
    }
    match parse("def f(a,): a") {
        Err(ParseError::ExpectedName { found }) => assert_eq!(found, Token::RightParen),
        other => panic!("unexpected: {:?}", other),
    }
    match parse("def") {
        Err(ParseError::ExpectedName { found }) => assert_eq!(found, Token::EOF),
        other => panic!("unexpected: {:?}", other),
    }
    match parse("def f a") {
        Err(ParseError::Expected { expected, found }) => {
            assert_eq!(expected, Token::LeftParen);
            assert_eq!(found, Token::Identifier("a".to_string()));
        }
        other => panic!("unexpected: {:?}", other),
    }
    match parse("def f(a b): a") {
        Err(ParseError::Expected { expected, found }) => {
            assert_eq!(expected, Token::RightParen);
            assert_eq!(found, Token::Identifier("b".to_string()));
        }
        other => panic!("unexpected: {:?}", other),
    }
}

#[test]
fn tokens_that_start_no_expression() {
    match parse(")") {
        Err(ParseError::UnexpectedToken { found }) => assert_eq!(found, Token::RightParen),
        other => panic!("unexpected: {:?}", other),
    }
    match parse("1 + * 2") {
        Err(ParseError::UnexpectedToken { found }) => {
            assert_eq!(found, Token::Operator("*".to_string()))
        }
        other => panic!("unexpected: {:?}", other),
    }
    match parse("[1]") {
        Err(ParseError::UnexpectedToken { found }) => assert_eq!(found, Token::LeftBracket),
        other => panic!("unexpected: {:?}", other),
    }
    match parse("x = else") {
        Err(ParseError::UnexpectedToken { found }) => assert_eq!(found, Token::Else),
        other => panic!("unexpected: {:?}", other),
    }
}

#[test]
fn no_token_is_dropped_after_a_statement() {
    match parse("x = 1 )") {
        Err(ParseError::UnexpectedToken { found }) => assert_eq!(found, Token::RightParen),
        other => panic!("unexpected: {:?}", other),
    }
}

#[test]
fn end_of_input_token_ends_the_program() {
    let tokens = vec![
        Token::Identifier("x".to_string()),
        Token::EOF,
        Token::Identifier("y".to_string()),
    ];
    assert_eq!(Parser::new(tokens).parse().unwrap(), program(vec![stmt(var("x"))]));
}

#[test]
fn trees_compare_by_shape_and_content() {
    assert_eq!(bin(n(1.0), "+", n(2.0)), bin(n(1.0), "+", n(2.0)));
    assert_ne!(bin(n(1.0), "+", n(2.0)), bin(n(1.0), "-", n(2.0)));
    assert_ne!(program(vec![n(1.0)]), block(vec![n(1.0)]));
    assert_ne!(program(vec![n(1.0)]), program(vec![n(1.0), n(1.0)]));
    assert_eq!(n(0.0), n(-0.0));
    assert_ne!(n(f64::NAN), n(f64::NAN));
    let tree = call("f", vec![bin(var("a"), "*", n(2.0)), ASTNode::String("s".to_string())]);
    assert_eq!(tree.clone(), tree);
    assert_eq!(tree.duplicate(), tree);
}
