//! The grammar: what a sequence of tokens stands for. Statements go by
//! their first token; expressions have one level for each level of
//! precedence.

use crate::ast::Node;
use crate::error::ParseErrorView;
use crate::token::TokenView;
use vstd::prelude::*;

verus! {

/// The token at a position; past the end stands `EOF`.
pub open spec fn token_at(tokens: Seq<TokenView>, position: int) -> TokenView {
    if 0 <= position < tokens.len() {
        tokens[position]
    } else {
        TokenView::EOF
    }
}

/// The first position at or after `from` that holds no `Newline`.
pub open spec fn skip_newlines(tokens: Seq<TokenView>, from: int) -> int
    decreases tokens.len() - from,
{
    if 0 <= from < tokens.len() && tokens[from] == TokenView::Newline {
        skip_newlines(tokens, from + 1)
    } else {
        from
    }
}

/// The position after the token at `position`: line breaks that follow it
/// are passed over, and at the end of the tokens the position stays.
pub open spec fn next_position(tokens: Seq<TokenView>, position: int) -> int {
    if 0 <= position < tokens.len() {
        skip_newlines(tokens, position + 1)
    } else {
        position
    }
}

/// Passing over line breaks ends at or after its start, within the tokens.
pub proof fn lemma_skip_newlines_bounds(tokens: Seq<TokenView>, from: int)
    requires
        0 <= from <= tokens.len(),
    ensures
        from <= skip_newlines(tokens, from) <= tokens.len(),
        token_at(tokens, skip_newlines(tokens, from)) != TokenView::Newline,
    decreases tokens.len() - from,
{
    if from < tokens.len() && tokens[from] == TokenView::Newline {
        lemma_skip_newlines_bounds(tokens, from + 1);
    }
}

/// Before the end of the tokens the next position lies further on.
pub proof fn lemma_next_position(tokens: Seq<TokenView>, position: int)
    requires
        0 <= position <= tokens.len(),
    ensures
        position <= next_position(tokens, position) <= tokens.len(),
        position < tokens.len() ==> position < next_position(tokens, position),
{
    if position < tokens.len() {
        lemma_skip_newlines_bounds(tokens, position + 1);
    }
}

/// What a parse gives: the tree or the failure, and the position reached.
pub struct Parsed<T> {
    pub result: Result<T, ParseErrorView>,
    pub position: int,
}

/// `position`, but not before `from`. No parse ends before its start; the
/// grammar below says so wherever a step starts at the end of an earlier one.
pub open spec fn forward(position: int, from: int) -> int {
    if position < from {
        from
    } else {
        position
    }
}

/// The number of tokens from a position to the end.
pub open spec fn remaining(tokens: Seq<TokenView>, position: int) -> int {
    if position <= tokens.len() {
        tokens.len() - position
    } else {
        0
    }
}

/// The grammar's demand for one token: met, the position moves on.
pub open spec fn expect(tokens: Seq<TokenView>, position: int, expected: TokenView) -> Parsed<()> {
    if token_at(tokens, position).same(expected) {
        Parsed { result: Ok(()), position: next_position(tokens, position) }
    } else {
        Parsed {
            result: Err(
                ParseErrorView::Expected { expected, found: token_at(tokens, position) },
            ),
            position,
        }
    }
}

/// The operator that a token is on one level of precedence, from the
/// loosest level, 0 for `or`, to the tightest, 5 for `* / %`.
pub open spec fn operator_on(level: int, token: TokenView) -> Option<Seq<char>> {
    match token {
        TokenView::Or => if level == 0 {
            Some("or"@)
        } else {
            None
        },
        TokenView::And => if level == 1 {
            Some("and"@)
        } else {
            None
        },
        TokenView::Operator(op) => if level == 2 && (op == "=="@ || op == "!="@) {
            Some(op)
        } else if level == 3 && (op == "<"@ || op == ">"@ || op == "<="@ || op == ">="@) {
            Some(op)
        } else if level == 4 && (op == "+"@ || op == "-"@) {
            Some(op)
        } else if level == 5 && (op == "*"@ || op == "/"@ || op == "%"@) {
            Some(op)
        } else {
            None
        },
        _ => None,
    }
}

/// The prefix operator that a token is, if it is one.
pub open spec fn prefix_operator(token: TokenView) -> Option<Seq<char>> {
    match token {
        TokenView::Operator(op) => if op == "-"@ || op == "+"@ {
            Some(op)
        } else {
            None
        },
        TokenView::Not => Some("not"@),
        _ => None,
    }
}

/// The parameter names of a function definition from `position`, after
/// those in `names`: names separated by commas.
pub open spec fn parse_params(tokens: Seq<TokenView>, position: int, names: Seq<Seq<char>>) -> Parsed<
    Seq<Seq<char>>,
>
    decreases remaining(tokens, position),
{
    match token_at(tokens, position) {
        TokenView::Identifier(name) => {
            let after = next_position(tokens, position);
            if token_at(tokens, after) == TokenView::Comma {
                proof {
                    lemma_next_position(tokens, position);
                    lemma_next_position(tokens, after);
                }
                parse_params(tokens, next_position(tokens, after), names.push(name))
            } else {
                Parsed { result: Ok(names.push(name)), position: after }
            }
        },
        found => Parsed { result: Err(ParseErrorView::ExpectedName { found }), position },
    }
}

/// An atom: a literal, a variable, a call, or an expression in
/// parentheses.
pub open spec fn parse_atom(tokens: Seq<TokenView>, position: int) -> Parsed<Node>
    decreases remaining(tokens, position), 0int,
{
    let after = next_position(tokens, position);
    match token_at(tokens, position) {
        TokenView::Number(value) => Parsed { result: Ok(Node::Number(value)), position: after },
        TokenView::StringLiteral(text) => Parsed { result: Ok(Node::String(text)), position: after },
        TokenView::True => Parsed { result: Ok(Node::Boolean(true)), position: after },
        TokenView::False => Parsed { result: Ok(Node::Boolean(false)), position: after },
        TokenView::Identifier(name) => {
            if token_at(tokens, after) == TokenView::LeftParen {
                let first = next_position(tokens, after);
                let args = if token_at(tokens, first) == TokenView::RightParen {
                    Parsed { result: Ok(Seq::<Node>::empty()), position: first }
                } else {
                    parse_arguments(tokens, forward(first, position + 1), Seq::empty())
                };
                match args.result {
                    Err(e) => Parsed { result: Err(e), position: args.position },
                    Ok(list) => {
                        let close = expect(tokens, args.position, TokenView::RightParen);
                        match close.result {
                            Err(e) => Parsed { result: Err(e), position: close.position },
                            Ok(_) => Parsed {
                                result: Ok(Node::FunctionCall { name, args: list }),
                                position: close.position,
                            },
                        }
                    },
                }
            } else {
                Parsed { result: Ok(Node::Variable(name)), position: after }
            }
        },
        TokenView::LeftParen => {
            let inner = parse_binary(tokens, forward(after, position + 1), 0);
            match inner.result {
                Err(e) => Parsed { result: Err(e), position: inner.position },
                Ok(node) => {
                    let close = expect(tokens, inner.position, TokenView::RightParen);
                    match close.result {
                        Err(e) => Parsed { result: Err(e), position: close.position },
                        Ok(_) => Parsed { result: Ok(node), position: close.position },
                    }
                },
            }
        },
        TokenView::EOF => Parsed { result: Err(ParseErrorView::UnexpectedEnd), position },
        found => Parsed { result: Err(ParseErrorView::UnexpectedToken { found }), position },
    }
}

/// The arguments of a call from `position`, after those in `args`:
/// expressions separated by commas.
pub open spec fn parse_arguments(tokens: Seq<TokenView>, position: int, args: Seq<Node>) -> Parsed<
    Seq<Node>,
>
    decreases remaining(tokens, position), 20int,
{
    let arg = parse_binary(tokens, position, 0);
    match arg.result {
        Err(e) => Parsed { result: Err(e), position: arg.position },
        Ok(node) => {
            let end = forward(arg.position, position);
            if token_at(tokens, end) == TokenView::Comma {
                parse_arguments(
                    tokens,
                    forward(next_position(tokens, end), end + 1),
                    args.push(node),
                )
            } else {
                Parsed { result: Ok(args.push(node)), position: end }
            }
        },
    }
}

/// A unary expression: a prefix `-`, `+` or `not` before a unary
/// expression, or an atom.
pub open spec fn parse_unary(tokens: Seq<TokenView>, position: int) -> Parsed<Node>
    decreases remaining(tokens, position), 1int,
{
    match prefix_operator(token_at(tokens, position)) {
        Some(operator) => {
            let operand = parse_unary(
                tokens,
                forward(next_position(tokens, position), position + 1),
            );
            match operand.result {
                Err(e) => Parsed { result: Err(e), position: operand.position },
                Ok(node) => Parsed {
                    result: Ok(Node::UnaryOp { operator, operand: Box::new(node) }),
                    position: operand.position,
                },
            }
        },
        None => parse_atom(tokens, position),
    }
}

/// An operand of the binary operators of one level: an expression of the
/// next tighter level, and on the tightest a unary expression.
pub open spec fn parse_operand(tokens: Seq<TokenView>, position: int, level: int) -> Parsed<Node>
    decreases remaining(tokens, position), 3 + 3 * (5 - level),
    when 0 <= level <= 5
{
    if level < 5 {
        parse_binary(tokens, position, level + 1)
    } else {
        parse_unary(tokens, position)
    }
}

/// An expression of one level of precedence: operands of the next tighter
/// level, joined from the left by the operators of this level.
pub open spec fn parse_binary(tokens: Seq<TokenView>, position: int, level: int) -> Parsed<Node>
    decreases remaining(tokens, position), 4 + 3 * (5 - level),
    when 0 <= level <= 5
{
    let left = parse_operand(tokens, position, level);
    match left.result {
        Err(e) => Parsed { result: Err(e), position: left.position },
        Ok(node) => parse_binary_rest(tokens, forward(left.position, position), level, node),
    }
}

/// What follows the operand `left` on one level: as long as an operator of
/// the level stands there, it and the next operand are joined to what came
/// before.
pub open spec fn parse_binary_rest(
    tokens: Seq<TokenView>,
    position: int,
    level: int,
    left: Node,
) -> Parsed<Node>
    decreases remaining(tokens, position), 2 + 3 * (5 - level),
    when 0 <= level <= 5
{
    match operator_on(level, token_at(tokens, position)) {
        Some(operator) => {
            let start = forward(next_position(tokens, position), position + 1);
            let right = parse_operand(tokens, start, level);
            match right.result {
                Err(e) => Parsed { result: Err(e), position: right.position },
                Ok(node) => parse_binary_rest(
                    tokens,
                    forward(right.position, start),
                    level,
                    Node::BinaryOp { left: Box::new(left), operator, right: Box::new(node) },
                ),
            }
        },
        None => Parsed { result: Ok(left), position },
    }
}

/// An expression.
pub open spec fn parse_expression(tokens: Seq<TokenView>, position: int) -> Parsed<Node> {
    parse_binary(tokens, position, 0)
}

/// A statement: by its first token an `if`, a `while`, a definition, a
/// `return` or a `print`; a name followed directly by `=` starts an
/// assignment; anything else is an expression.
pub open spec fn parse_statement(tokens: Seq<TokenView>, position: int) -> Parsed<Node>
    decreases remaining(tokens, position), 22int,
{
    let after = forward(next_position(tokens, position), position + 1);
    match token_at(tokens, position) {
        TokenView::If => parse_if_statement(tokens, position),
        TokenView::While => parse_while_loop(tokens, position),
        TokenView::Def => parse_function_def(tokens, position),
        TokenView::Return => {
            let value = parse_binary(tokens, after, 0);
            match value.result {
                Err(e) => Parsed { result: Err(e), position: value.position },
                Ok(node) => Parsed {
                    result: Ok(Node::Return(Box::new(node))),
                    position: value.position,
                },
            }
        },
        TokenView::Print => {
            let value = parse_binary(tokens, after, 0);
            match value.result {
                Err(e) => Parsed { result: Err(e), position: value.position },
                Ok(node) => Parsed {
                    result: Ok(Node::Print(Box::new(node))),
                    position: value.position,
                },
            }
        },
        TokenView::Identifier(name) => {
            if token_at(tokens, position + 1) == TokenView::Assign {
                let value = parse_binary(
                    tokens,
                    forward(next_position(tokens, position + 1), position + 1),
                    0,
                );
                match value.result {
                    Err(e) => Parsed { result: Err(e), position: value.position },
                    Ok(node) => Parsed {
                        result: Ok(Node::Assignment { name, value: Box::new(node) }),
                        position: value.position,
                    },
                }
            } else {
                parse_expression_statement(tokens, position)
            }
        },
        _ => parse_expression_statement(tokens, position),
    }
}

/// An expression that stands as a statement.
pub open spec fn parse_expression_statement(tokens: Seq<TokenView>, position: int) -> Parsed<Node>
    decreases remaining(tokens, position), 21int,
{
    let value = parse_binary(tokens, position, 0);
    match value.result {
        Err(e) => Parsed { result: Err(e), position: value.position },
        Ok(node) => Parsed { result: Ok(Node::Statement(Box::new(node))), position: value.position },
    }
}

/// `if` condition `:` block, and after it, where an `else` follows, `else`
/// `:` block. The `if` stands at `position`.
pub open spec fn parse_if_statement(tokens: Seq<TokenView>, position: int) -> Parsed<Node>
    decreases remaining(tokens, position), 21int,
    when token_at(tokens, position) != TokenView::EOF
{
    let start = forward(next_position(tokens, position), position + 1);
    let condition = parse_binary(tokens, start, 0);
    match condition.result {
        Err(e) => Parsed { result: Err(e), position: condition.position },
        Ok(condition_node) => {
            let colon = expect(tokens, forward(condition.position, start), TokenView::Colon);
            match colon.result {
                Err(e) => Parsed { result: Err(e), position: colon.position },
                Ok(_) => {
                    let then_start = forward(colon.position, start);
                    let then_branch = parse_block(tokens, then_start);
                    match then_branch.result {
                        Err(e) => Parsed { result: Err(e), position: then_branch.position },
                        Ok(then_node) => {
                            let then_end = forward(then_branch.position, then_start);
                            if token_at(tokens, then_end) == TokenView::Else {
                                let colon2 = expect(
                                    tokens,
                                    next_position(tokens, then_end),
                                    TokenView::Colon,
                                );
                                match colon2.result {
                                    Err(e) => Parsed { result: Err(e), position: colon2.position },
                                    Ok(_) => {
                                        let else_branch = parse_block(
                                            tokens,
                                            forward(colon2.position, then_end),
                                        );
                                        match else_branch.result {
                                            Err(e) => Parsed {
                                                result: Err(e),
                                                position: else_branch.position,
                                            },
                                            Ok(else_node) => Parsed {
                                                result: Ok(
                                                    Node::IfStatement {
                                                        condition: Box::new(condition_node),
                                                        then_branch: Box::new(then_node),
                                                        else_branch: Some(Box::new(else_node)),
                                                    },
                                                ),
                                                position: else_branch.position,
                                            },
                                        }
                                    },
                                }
                            } else {
                                Parsed {
                                    result: Ok(
                                        Node::IfStatement {
                                            condition: Box::new(condition_node),
                                            then_branch: Box::new(then_node),
                                            else_branch: None,
                                        },
                                    ),
                                    position: then_end,
                                }
                            }
                        },
                    }
                },
            }
        },
    }
}

/// `while` condition `:` block. The `while` stands at `position`.
pub open spec fn parse_while_loop(tokens: Seq<TokenView>, position: int) -> Parsed<Node>
    decreases remaining(tokens, position), 21int,
    when token_at(tokens, position) != TokenView::EOF
{
    let start = forward(next_position(tokens, position), position + 1);
    let condition = parse_binary(tokens, start, 0);
    match condition.result {
        Err(e) => Parsed { result: Err(e), position: condition.position },
        Ok(condition_node) => {
            let colon = expect(tokens, forward(condition.position, start), TokenView::Colon);
            match colon.result {
                Err(e) => Parsed { result: Err(e), position: colon.position },
                Ok(_) => {
                    let body = parse_block(tokens, forward(colon.position, start));
                    match body.result {
                        Err(e) => Parsed { result: Err(e), position: body.position },
                        Ok(body_node) => Parsed {
                            result: Ok(
                                Node::WhileLoop {
                                    condition: Box::new(condition_node),
                                    body: Box::new(body_node),
                                },
                            ),
                            position: body.position,
                        },
                    }
                },
            }
        },
    }
}

/// The head of a definition, from `def` at `position` to the `:` before
/// the body: the function's name and its parameters' names.
pub open spec fn parse_function_head(tokens: Seq<TokenView>, position: int) -> Parsed<
    (Seq<char>, Seq<Seq<char>>),
> {
    let at_name = next_position(tokens, position);
    match token_at(tokens, at_name) {
        TokenView::Identifier(name) => {
            let open = expect(tokens, next_position(tokens, at_name), TokenView::LeftParen);
            match open.result {
                Err(e) => Parsed { result: Err(e), position: open.position },
                Ok(_) => {
                    let params = if token_at(tokens, open.position) == TokenView::RightParen {
                        Parsed { result: Ok(Seq::<Seq<char>>::empty()), position: open.position }
                    } else {
                        parse_params(tokens, open.position, Seq::empty())
                    };
                    match params.result {
                        Err(e) => Parsed { result: Err(e), position: params.position },
                        Ok(names) => {
                            let close = expect(tokens, params.position, TokenView::RightParen);
                            match close.result {
                                Err(e) => Parsed { result: Err(e), position: close.position },
                                Ok(_) => {
                                    let colon = expect(tokens, close.position, TokenView::Colon);
                                    match colon.result {
                                        Err(e) => Parsed {
                                            result: Err(e),
                                            position: colon.position,
                                        },
                                        Ok(_) => Parsed {
                                            result: Ok((name, names)),
                                            position: colon.position,
                                        },
                                    }
                                },
                            }
                        },
                    }
                },
            }
        },
        found => Parsed { result: Err(ParseErrorView::ExpectedName { found }), position: at_name },
    }
}

/// `def` name `(` parameters `)` `:` block. The `def` stands at `position`.
pub open spec fn parse_function_def(tokens: Seq<TokenView>, position: int) -> Parsed<Node>
    decreases remaining(tokens, position), 21int,
    when token_at(tokens, position) != TokenView::EOF
{
    let head = parse_function_head(tokens, position);
    match head.result {
        Err(e) => Parsed { result: Err(e), position: head.position },
        Ok(signature) => {
            let body = parse_block(tokens, forward(head.position, position + 1));
            match body.result {
                Err(e) => Parsed { result: Err(e), position: body.position },
                Ok(body_node) => Parsed {
                    result: Ok(
                        Node::FunctionDef {
                            name: signature.0,
                            params: signature.1,
                            body: Box::new(body_node),
                        },
                    ),
                    position: body.position,
                },
            }
        },
    }
}

/// A block: after a line break an `Indent`, statements up to a `Dedent` and
/// that `Dedent`; else one statement on the same line.
pub open spec fn parse_block(tokens: Seq<TokenView>, position: int) -> Parsed<Node>
    decreases remaining(tokens, position), 23int,
{
    if token_at(tokens, position) == TokenView::Newline {
        let indent = expect(tokens, next_position(tokens, position), TokenView::Indent);
        match indent.result {
            Err(e) => Parsed { result: Err(e), position: indent.position },
            Ok(_) => {
                let items = parse_block_items(
                    tokens,
                    forward(indent.position, position + 1),
                    Seq::empty(),
                );
                match items.result {
                    Err(e) => Parsed { result: Err(e), position: items.position },
                    Ok(statements) => {
                        let dedent = expect(tokens, items.position, TokenView::Dedent);
                        match dedent.result {
                            Err(e) => Parsed { result: Err(e), position: dedent.position },
                            Ok(_) => Parsed {
                                result: Ok(Node::Block(statements)),
                                position: dedent.position,
                            },
                        }
                    },
                }
            },
        }
    } else {
        let statement = parse_statement(tokens, position);
        match statement.result {
            Err(e) => Parsed { result: Err(e), position: statement.position },
            Ok(node) => Parsed {
                result: Ok(Node::Block(seq![node])),
                position: statement.position,
            },
        }
    }
}

/// The statements of an indented block from `position`, after those in
/// `statements`, up to the `Dedent` or the end of the tokens.
pub open spec fn parse_block_items(
    tokens: Seq<TokenView>,
    position: int,
    statements: Seq<Node>,
) -> Parsed<Seq<Node>>
    decreases remaining(tokens, position), 23int,
{
    match token_at(tokens, position) {
        TokenView::Dedent => Parsed { result: Ok(statements), position },
        TokenView::EOF => Parsed { result: Ok(statements), position },
        TokenView::Newline => parse_block_items(
            tokens,
            forward(next_position(tokens, position), position + 1),
            statements,
        ),
        _ => {
            let statement = parse_statement(tokens, position);
            match statement.result {
                Err(e) => Parsed { result: Err(e), position: statement.position },
                Ok(node) => parse_block_items(
                    tokens,
                    forward(statement.position, position + 1),
                    statements.push(node),
                ),
            }
        },
    }
}

/// The statements of a program from `position`, after those in
/// `statements`, up to the end of the tokens.
pub open spec fn parse_program(
    tokens: Seq<TokenView>,
    position: int,
    statements: Seq<Node>,
) -> Parsed<Node>
    decreases remaining(tokens, position),
{
    match token_at(tokens, position) {
        TokenView::EOF => Parsed { result: Ok(Node::Program(statements)), position },
        TokenView::Newline => parse_program(
            tokens,
            forward(next_position(tokens, position), position + 1),
            statements,
        ),
        _ => {
            let statement = parse_statement(tokens, position);
            match statement.result {
                Err(e) => Parsed { result: Err(e), position: statement.position },
                Ok(node) => parse_program(
                    tokens,
                    forward(statement.position, position + 1),
                    statements.push(node),
                ),
            }
        },
    }
}

/// A parse from `from` has ended at or after `from` and within `len` tokens,
/// and beyond `from` where it read something.
pub open spec fn moved<T>(from: int, parsed: Parsed<T>, len: nat) -> bool {
    &&& from <= parsed.position <= len
    &&& parsed.result is Ok ==> from < parsed.position
}

/// A parse from `from` has ended at or after `from` and within `len` tokens.
pub open spec fn stayed<T>(from: int, parsed: Parsed<T>, len: nat) -> bool {
    from <= parsed.position <= len
}

// What follows shows of each rule of the grammar that it never steps back.

proof fn lemma_expect_moves(tokens: Seq<TokenView>, position: int, expected: TokenView)
    requires
        0 <= position <= tokens.len(),
    ensures
        stayed(position, expect(tokens, position, expected), tokens.len()),
{
    lemma_next_position(tokens, position);
}

proof fn lemma_params_move(tokens: Seq<TokenView>, position: int, names: Seq<Seq<char>>)
    requires
        0 <= position <= tokens.len(),
    ensures
        moved(position, parse_params(tokens, position, names), tokens.len()),
    decreases remaining(tokens, position),
{
    lemma_next_position(tokens, position);
    let after = next_position(tokens, position);
    lemma_next_position(tokens, after);
    match token_at(tokens, position) {
        TokenView::Identifier(name) => {
            if token_at(tokens, after) == TokenView::Comma {
                lemma_params_move(tokens, next_position(tokens, after), names.push(name));
            }
        },
        _ => {},
    }
}

proof fn lemma_atom_moves(tokens: Seq<TokenView>, position: int)
    requires
        0 <= position <= tokens.len(),
    ensures
        moved(position, parse_atom(tokens, position), tokens.len()),
    decreases remaining(tokens, position), 0int,
{
    lemma_next_position(tokens, position);
    let after = next_position(tokens, position);
    lemma_next_position(tokens, after);
    match token_at(tokens, position) {
        TokenView::Identifier(name) => {
            if token_at(tokens, after) == TokenView::LeftParen {
                let first = next_position(tokens, after);
                if token_at(tokens, first) != TokenView::RightParen {
                    lemma_arguments_move(tokens, first, Seq::empty());
                    let args = parse_arguments(tokens, first, Seq::empty());
                    lemma_expect_moves(tokens, args.position, TokenView::RightParen);
                } else {
                    lemma_expect_moves(tokens, first, TokenView::RightParen);
                }
            }
        },
        TokenView::LeftParen => {
            lemma_binary_moves(tokens, after, 0);
            let inner = parse_binary(tokens, after, 0);
            lemma_expect_moves(tokens, inner.position, TokenView::RightParen);
        },
        _ => {},
    }
}

proof fn lemma_arguments_move(tokens: Seq<TokenView>, position: int, args: Seq<Node>)
    requires
        0 <= position <= tokens.len(),
    ensures
        moved(position, parse_arguments(tokens, position, args), tokens.len()),
    decreases remaining(tokens, position), 20int,
{
    lemma_binary_moves(tokens, position, 0);
    let arg = parse_binary(tokens, position, 0);
    if arg.result is Ok {
        let end = arg.position;
        if token_at(tokens, end) == TokenView::Comma {
            lemma_next_position(tokens, end);
            lemma_arguments_move(tokens, next_position(tokens, end), args.push(arg.result->Ok_0));
        }
    }
}

proof fn lemma_unary_moves(tokens: Seq<TokenView>, position: int)
    requires
        0 <= position <= tokens.len(),
    ensures
        moved(position, parse_unary(tokens, position), tokens.len()),
    decreases remaining(tokens, position), 1int,
{
    lemma_next_position(tokens, position);
    match prefix_operator(token_at(tokens, position)) {
        Some(operator) => {
            lemma_unary_moves(tokens, next_position(tokens, position));
        },
        None => {
            lemma_atom_moves(tokens, position);
        },
    }
}

proof fn lemma_operand_moves(tokens: Seq<TokenView>, position: int, level: int)
    requires
        0 <= position <= tokens.len(),
        0 <= level <= 5,
    ensures
        moved(position, parse_operand(tokens, position, level), tokens.len()),
    decreases remaining(tokens, position), 3 + 3 * (5 - level),
{
    if level < 5 {
        lemma_binary_moves(tokens, position, level + 1);
    } else {
        lemma_unary_moves(tokens, position);
    }
}

proof fn lemma_binary_moves(tokens: Seq<TokenView>, position: int, level: int)
    requires
        0 <= position <= tokens.len(),
        0 <= level <= 5,
    ensures
        moved(position, parse_binary(tokens, position, level), tokens.len()),
    decreases remaining(tokens, position), 4 + 3 * (5 - level),
{
    lemma_operand_moves(tokens, position, level);
    let left = parse_operand(tokens, position, level);
    if left.result is Ok {
        lemma_binary_rest_moves(tokens, left.position, level, left.result->Ok_0);
    }
}

proof fn lemma_binary_rest_moves(tokens: Seq<TokenView>, position: int, level: int, left: Node)
    requires
        0 <= position <= tokens.len(),
        0 <= level <= 5,
    ensures
        stayed(position, parse_binary_rest(tokens, position, level, left), tokens.len()),
    decreases remaining(tokens, position), 2 + 3 * (5 - level),
{
    match operator_on(level, token_at(tokens, position)) {
        Some(operator) => {
            lemma_next_position(tokens, position);
            let start = next_position(tokens, position);
            lemma_operand_moves(tokens, start, level);
            let right = parse_operand(tokens, start, level);
            if right.result is Ok {
                lemma_binary_rest_moves(
                    tokens,
                    right.position,
                    level,
                    Node::BinaryOp {
                        left: Box::new(left),
                        operator,
                        right: Box::new(right.result->Ok_0),
                    },
                );
            }
        },
        None => {},
    }
}

proof fn lemma_statement_moves(tokens: Seq<TokenView>, position: int)
    requires
        0 <= position <= tokens.len(),
    ensures
        moved(position, parse_statement(tokens, position), tokens.len()),
    decreases remaining(tokens, position), 22int,
{
    lemma_next_position(tokens, position);
    let after = next_position(tokens, position);
    match token_at(tokens, position) {
        TokenView::If => {
            lemma_if_moves(tokens, position);
        },
        TokenView::While => {
            lemma_while_moves(tokens, position);
        },
        TokenView::Def => {
            lemma_def_moves(tokens, position);
        },
        TokenView::Return => {
            lemma_binary_moves(tokens, after, 0);
        },
        TokenView::Print => {
            lemma_binary_moves(tokens, after, 0);
        },
        TokenView::Identifier(name) => {
            if token_at(tokens, position + 1) == TokenView::Assign {
                lemma_next_position(tokens, position + 1);
                lemma_binary_moves(tokens, next_position(tokens, position + 1), 0);
            } else {
                lemma_binary_moves(tokens, position, 0);
            }
        },
        _ => {
            lemma_binary_moves(tokens, position, 0);
        },
    }
}

proof fn lemma_if_moves(tokens: Seq<TokenView>, position: int)
    requires
        0 <= position <= tokens.len(),
        token_at(tokens, position) != TokenView::EOF,
    ensures
        moved(position, parse_if_statement(tokens, position), tokens.len()),
    decreases remaining(tokens, position), 21int,
{
    lemma_next_position(tokens, position);
    let start = next_position(tokens, position);
    lemma_binary_moves(tokens, start, 0);
    let condition = parse_binary(tokens, start, 0);
    if condition.result is Ok {
        lemma_expect_moves(tokens, condition.position, TokenView::Colon);
        let colon = expect(tokens, condition.position, TokenView::Colon);
        if colon.result is Ok {
            lemma_block_moves(tokens, colon.position);
            let then_branch = parse_block(tokens, colon.position);
            if then_branch.result is Ok {
                let then_end = then_branch.position;
                if token_at(tokens, then_end) == TokenView::Else {
                    lemma_next_position(tokens, then_end);
                    lemma_expect_moves(tokens, next_position(tokens, then_end), TokenView::Colon);
                    let colon2 = expect(tokens, next_position(tokens, then_end), TokenView::Colon);
                    if colon2.result is Ok {
                        lemma_block_moves(tokens, colon2.position);
                    }
                }
            }
        }
    }
}

proof fn lemma_while_moves(tokens: Seq<TokenView>, position: int)
    requires
        0 <= position <= tokens.len(),
        token_at(tokens, position) != TokenView::EOF,
    ensures
        moved(position, parse_while_loop(tokens, position), tokens.len()),
    decreases remaining(tokens, position), 21int,
{
    lemma_next_position(tokens, position);
    let start = next_position(tokens, position);
    lemma_binary_moves(tokens, start, 0);
    let condition = parse_binary(tokens, start, 0);
    if condition.result is Ok {
        lemma_expect_moves(tokens, condition.position, TokenView::Colon);
        let colon = expect(tokens, condition.position, TokenView::Colon);
        if colon.result is Ok {
            lemma_block_moves(tokens, colon.position);
        }
    }
}

proof fn lemma_head_moves(tokens: Seq<TokenView>, position: int)
    requires
        0 <= position < tokens.len(),
    ensures
        moved(position, parse_function_head(tokens, position), tokens.len()),
{
    lemma_next_position(tokens, position);
    let at_name = next_position(tokens, position);
    lemma_next_position(tokens, at_name);
    match token_at(tokens, at_name) {
        TokenView::Identifier(name) => {
            lemma_expect_moves(tokens, next_position(tokens, at_name), TokenView::LeftParen);
            let open = expect(tokens, next_position(tokens, at_name), TokenView::LeftParen);
            if open.result is Ok {
                if token_at(tokens, open.position) != TokenView::RightParen {
                    lemma_params_move(tokens, open.position, Seq::empty());
                }
                let params = if token_at(tokens, open.position) == TokenView::RightParen {
                    Parsed { result: Ok(Seq::<Seq<char>>::empty()), position: open.position }
                } else {
                    parse_params(tokens, open.position, Seq::empty())
                };
                if params.result is Ok {
                    lemma_expect_moves(tokens, params.position, TokenView::RightParen);
                    let close = expect(tokens, params.position, TokenView::RightParen);
                    if close.result is Ok {
                        lemma_expect_moves(tokens, close.position, TokenView::Colon);
                    }
                }
            }
        },
        _ => {},
    }
}

proof fn lemma_def_moves(tokens: Seq<TokenView>, position: int)
    requires
        0 <= position <= tokens.len(),
        token_at(tokens, position) != TokenView::EOF,
    ensures
        moved(position, parse_function_def(tokens, position), tokens.len()),
    decreases remaining(tokens, position), 21int,
{
    lemma_head_moves(tokens, position);
    let head = parse_function_head(tokens, position);
    if head.result is Ok {
        lemma_block_moves(tokens, head.position);
    }
}

proof fn lemma_block_moves(tokens: Seq<TokenView>, position: int)
    requires
        0 <= position <= tokens.len(),
    ensures
        moved(position, parse_block(tokens, position), tokens.len()),
    decreases remaining(tokens, position), 23int,
{
    if token_at(tokens, position) == TokenView::Newline {
        lemma_next_position(tokens, position);
        lemma_expect_moves(tokens, next_position(tokens, position), TokenView::Indent);
        let indent = expect(tokens, next_position(tokens, position), TokenView::Indent);
        if indent.result is Ok {
            lemma_block_items_move(tokens, indent.position, Seq::empty());
            let items = parse_block_items(tokens, indent.position, Seq::empty());
            if items.result is Ok {
                lemma_expect_moves(tokens, items.position, TokenView::Dedent);
            }
        }
    } else {
        lemma_statement_moves(tokens, position);
    }
}

proof fn lemma_block_items_move(tokens: Seq<TokenView>, position: int, statements: Seq<Node>)
    requires
        0 <= position <= tokens.len(),
    ensures
        stayed(position, parse_block_items(tokens, position, statements), tokens.len()),
    decreases remaining(tokens, position), 23int,
{
    match token_at(tokens, position) {
        TokenView::Dedent => {},
        TokenView::EOF => {},
        TokenView::Newline => {
            lemma_next_position(tokens, position);
            lemma_block_items_move(tokens, next_position(tokens, position), statements);
        },
        _ => {
            lemma_statement_moves(tokens, position);
            let statement = parse_statement(tokens, position);
            if statement.result is Ok {
                lemma_block_items_move(
                    tokens,
                    statement.position,
                    statements.push(statement.result->Ok_0),
                );
            }
        },
    }
}

/// No parse steps back: an expression, a statement and a block each end
/// within the tokens, at or after the place they were read from, and beyond
/// it where they were read at all. So the positions that the grammar moves
/// forward with `forward` are where they stand already.
pub proof fn law_parse_moves_forward(tokens: Seq<TokenView>, position: int)
    requires
        0 <= position <= tokens.len(),
    ensures
        moved(position, parse_expression(tokens, position), tokens.len()),
        moved(position, parse_statement(tokens, position), tokens.len()),
        moved(position, parse_block(tokens, position), tokens.len()),
{
    lemma_binary_moves(tokens, position, 0);
    lemma_statement_moves(tokens, position);
    lemma_block_moves(tokens, position);
}

/// A program is read to the end of the tokens: where it is read at all, an
/// `EOF` stands at the position reached, or the tokens are used up.
pub proof fn lemma_program_reads_all(tokens: Seq<TokenView>, position: int, statements: Seq<Node>)
    ensures
        ({
            let parsed = parse_program(tokens, position, statements);
            parsed.result is Ok ==> parsed.result->Ok_0 is Program && token_at(
                tokens,
                parsed.position,
            ) == TokenView::EOF
        }),
    decreases remaining(tokens, position),
{
    match token_at(tokens, position) {
        TokenView::EOF => {},
        TokenView::Newline => {
            lemma_program_reads_all(
                tokens,
                forward(next_position(tokens, position), position + 1),
                statements,
            );
        },
        _ => {
            let statement = parse_statement(tokens, position);
            if statement.result is Ok {
                lemma_program_reads_all(
                    tokens,
                    forward(statement.position, position + 1),
                    statements.push(statement.result->Ok_0),
                );
            }
        },
    }
}

/// The program that a sequence of tokens stands for.
pub open spec fn program_of(tokens: Seq<TokenView>) -> Result<Node, ParseErrorView> {
    parse_program(tokens, 0, Seq::empty()).result
}

} // verus!
