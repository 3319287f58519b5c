//! The parser: recursive descent over the tokens, one function for each
//! rule of the grammar.

use crate::ast::{lemma_model_lists, name_views, node_views, ASTNode, Node};
use crate::error::{ParseError, ParseErrorView};
use crate::grammar::{
    expect,
    lemma_program_reads_all,
    next_position,
    operator_on,
    parse_arguments,
    parse_atom,
    parse_binary,
    parse_binary_rest,
    parse_block,
    parse_block_items,
    parse_expression,
    parse_expression_statement,
    parse_function_def,
    parse_if_statement,
    parse_operand,
    parse_params,
    parse_program,
    parse_statement,
    parse_unary,
    parse_while_loop,
    prefix_operator,
    remaining,
    skip_newlines,
    token_at,
    Parsed,
};
use crate::text::is_word;
use crate::token::{token_views, Token, TokenView};
use vstd::prelude::*;

verus! {

/// The parser's state as a mathematical value.
pub struct ParserView {
    pub tokens: Seq<TokenView>,
    pub position: int,
}

impl ParserView {
    /// The cursor is within the tokens or at their end.
    pub open spec fn wf(self) -> bool {
        0 <= self.position <= self.tokens.len()
    }
}

/// A parser over one sequence of tokens.
pub struct Parser {
    tokens: Vec<Token>,
    position: usize,
    current_token: Token,
}

impl View for Parser {
    type V = ParserView;

    closed spec fn view(&self) -> ParserView {
        ParserView { tokens: token_views(self.tokens@), position: self.position as int }
    }
}

/// The view of a tree or failure as the parser hands it out.
pub open spec fn node_result(r: Result<ASTNode, ParseError>) -> Result<Node, ParseErrorView> {
    match r {
        Ok(node) => Ok(node@),
        Err(e) => Err(e@),
    }
}

/// A parse from the state `pre` has led to the state `post` and given `r`,
/// as the grammar's `want` says: the same tree or failure at the same
/// position, over the same tokens, never further back, and further on where
/// a tree was read.
pub open spec fn parsed_as(
    pre: ParserView,
    post: ParserView,
    r: Result<ASTNode, ParseError>,
    want: Parsed<Node>,
) -> bool {
    &&& post.tokens == pre.tokens
    &&& pre.position <= post.position <= pre.tokens.len()
    &&& r is Ok ==> pre.position < post.position
    &&& node_result(r) == want.result
    &&& post.position == want.position
}

/// Whether a token is a line break.
fn is_newline(token: &Token) -> (r: bool)
    ensures
        r == (token@ == TokenView::Newline),
{
    match token {
        Token::Newline => true,
        _ => false,
    }
}

/// The operator that a token is on one level of precedence.
fn operator_for(level: u8, token: &Token) -> (r: Option<String>)
    ensures
        match r {
            Some(op) => operator_on(level as int, token@) == Some(op@),
            None => operator_on(level as int, token@) is None,
        },
{
    match token {
        Token::Or => if level == 0 {
            Some(String::from_str("or"))
        } else {
            None
        },
        Token::And => if level == 1 {
            Some(String::from_str("and"))
        } else {
            None
        },
        Token::Operator(op) => {
            let found = if level == 2 {
                is_word(op.as_str(), "==") || is_word(op.as_str(), "!=")
            } else if level == 3 {
                is_word(op.as_str(), "<") || is_word(op.as_str(), ">") || is_word(op.as_str(), "<=") || is_word(op.as_str(), ">=")
            } else if level == 4 {
                is_word(op.as_str(), "+") || is_word(op.as_str(), "-")
            } else if level == 5 {
                is_word(op.as_str(), "*") || is_word(op.as_str(), "/") || is_word(op.as_str(), "%")
            } else {
                false
            };
            if found {
                Some(op.clone())
            } else {
                None
            }
        },
        _ => None,
    }
}

/// The prefix operator that a token is.
fn prefix_for(token: &Token) -> (r: Option<String>)
    ensures
        match r {
            Some(op) => prefix_operator(token@) == Some(op@),
            None => prefix_operator(token@) is None,
        },
{
    match token {
        Token::Operator(op) => if is_word(op.as_str(), "-") || is_word(op.as_str(), "+") {
            Some(op.clone())
        } else {
            None
        },
        Token::Not => Some(String::from_str("not")),
        _ => None,
    }
}

impl Parser {
    /// The token that the parser holds as its look-ahead.
    pub closed spec fn look_ahead(&self) -> TokenView {
        self.current_token@
    }

    /// The cursor is within the tokens or at their end, and the look-ahead
    /// is the token under it.
    pub open spec fn wf(&self) -> bool {
        &&& self@.wf()
        &&& self.look_ahead() == token_at(self@.tokens, self@.position)
    }

    /// A parser at the first of the tokens.
    pub fn new(tokens: Vec<Token>) -> (r: Parser)
        ensures
            r.wf(),
            r@ == (ParserView { tokens: token_views(tokens@), position: 0 }),
    {
        let first_token = if tokens.len() > 0 {
            tokens[0].clone()
        } else {
            Token::EOF
        };
        Parser { tokens, position: 0, current_token: first_token }
    }

    /// Moves to the next token that is no line break.
    fn advance(&mut self)
        requires
            old(self).wf(),
        ensures
            final(self).wf(),
            final(self)@ == (ParserView {
                position: next_position(old(self)@.tokens, old(self)@.position),
                ..old(self)@
            }),
            old(self)@.position <= final(self)@.position <= old(self)@.tokens.len(),
            old(self)@.position < old(self)@.tokens.len() ==> old(self)@.position
                < final(self)@.position,
    {
        if self.position >= self.tokens.len() {
            return ;
        }
        self.position += 1;
        loop
            invariant
                self.tokens == old(self).tokens,
                old(self).position < self.position <= self.tokens.len(),
                skip_newlines(self@.tokens, old(self).position + 1) == skip_newlines(
                    self@.tokens,
                    self.position as int,
                ),
            ensures
                self.wf(),
                self.tokens == old(self).tokens,
                old(self).position < self.position <= self.tokens.len(),
                self.position == skip_newlines(self@.tokens, old(self).position + 1),
            decreases self.tokens.len() - self.position,
        {
            if self.position >= self.tokens.len() {
                self.current_token = Token::EOF;
                break ;
            }
            self.current_token = self.tokens[self.position].clone();
            if !is_newline(&self.current_token) {
                break ;
            }
            self.position += 1;
        }
    }

    /// The token after the one under the cursor, line breaks included.
    fn peek_token(&self) -> (r: Token)
        requires
            self.wf(),
        ensures
            r@ == token_at(self@.tokens, self@.position + 1),
    {
        if self.position >= self.tokens.len() || self.position + 1 >= self.tokens.len() {
            Token::EOF
        } else {
            self.tokens[self.position + 1].clone()
        }
    }

    /// Passes the expected token, or fails and stays.
    fn expect(&mut self, expected: Token) -> (r: Result<(), ParseError>)
        requires
            old(self).wf(),
        ensures
            final(self).wf(),
            final(self)@.tokens == old(self)@.tokens,
            old(self)@.position <= final(self)@.position <= old(self)@.tokens.len(),
            ({
                let want = expect(old(self)@.tokens, old(self)@.position, expected@);
                &&& final(self)@.position == want.position
                &&& match r {
                    Ok(_) => want.result is Ok,
                    Err(e) => want.result == Err::<(), ParseErrorView>(e@),
                }
            }),
    {
        if self.current_token.same(&expected) {
            self.advance();
            Ok(())
        } else {
            Err(ParseError::Expected { expected, found: self.current_token.clone() })
        }
    }

    /// Parses an atom.
    #[verifier::loop_isolation(false)]
    fn parse_atom(&mut self) -> (r: Result<ASTNode, ParseError>)
        requires
            old(self).wf(),
        ensures
            final(self).wf(),
            parsed_as(
                old(self)@,
                final(self)@,
                r,
                parse_atom(old(self)@.tokens, old(self)@.position),
            ),
        decreases remaining(old(self)@.tokens, old(self)@.position), 0int,
    {
        match &self.current_token {
            Token::Number(value) => {
                let node = ASTNode::Number(*value);
                self.advance();
                Ok(node)
            },
            Token::StringLiteral(value) => {
                let node = ASTNode::String(value.clone());
                self.advance();
                Ok(node)
            },
            Token::True => {
                self.advance();
                Ok(ASTNode::Boolean(true))
            },
            Token::False => {
                self.advance();
                Ok(ASTNode::Boolean(false))
            },
            Token::Identifier(name) => {
                let var_name = name.clone();
                self.advance();
                if let Token::LeftParen = self.current_token {
                    self.advance();
                    let mut args: Vec<ASTNode> = Vec::new();
                    assert(node_views(args@) =~= Seq::<Node>::empty());
                    if !matches!(self.current_token, Token::RightParen) {
                        let ghost first = self@.position;
                        let mut more = true;
                        while more
                            invariant
                                self.wf(),
                                self@.tokens == old(self)@.tokens,
                                old(self)@.position < self@.position <= self@.tokens.len(),
                                parse_arguments(self@.tokens, first, Seq::empty()) == if more {
                                    parse_arguments(
                                        self@.tokens,
                                        self@.position,
                                        node_views(args@),
                                    )
                                } else {
                                    Parsed {
                                        result: Ok(node_views(args@)),
                                        position: self@.position,
                                    }
                                },
                            decreases remaining(self@.tokens, self@.position) + if more {
                                1int
                            } else {
                                0int
                            },
                        {
                            let ghost before = node_views(args@);
                            let arg = self.parse_expression();
                            match arg {
                                Err(e) => {
                                    return Err(e);
                                },
                                Ok(node) => {
                                    args.push(node);
                                    assert(node_views(args@) =~= before.push(node@));
                                },
                            }
                            if let Token::Comma = self.current_token {
                                self.advance();
                            } else {
                                more = false;
                            }
                        }
                    }
                    match self.expect(Token::RightParen) {
                        Err(e) => Err(e),
                        Ok(_) => {
                            let node = ASTNode::FunctionCall { name: var_name, args };
                            proof {
                                lemma_model_lists(&node);
                            }
                            Ok(node)
                        },
                    }
                } else {
                    Ok(ASTNode::Variable(var_name))
                }
            },
            Token::LeftParen => {
                self.advance();
                match self.parse_expression() {
                    Err(e) => Err(e),
                    Ok(expr) => match self.expect(Token::RightParen) {
                        Err(e) => Err(e),
                        Ok(_) => Ok(expr),
                    },
                }
            },
            Token::EOF => Err(ParseError::UnexpectedEnd),
            _ => Err(ParseError::UnexpectedToken { found: self.current_token.clone() }),
        }
    }

    /// Parses a unary expression.
    fn parse_unary(&mut self) -> (r: Result<ASTNode, ParseError>)
        requires
            old(self).wf(),
        ensures
            final(self).wf(),
            parsed_as(
                old(self)@,
                final(self)@,
                r,
                parse_unary(old(self)@.tokens, old(self)@.position),
            ),
        decreases remaining(old(self)@.tokens, old(self)@.position), 1int,
    {
        match prefix_for(&self.current_token) {
            Some(operator) => {
                self.advance();
                match self.parse_unary() {
                    Err(e) => Err(e),
                    Ok(operand) => Ok(ASTNode::UnaryOp { operator, operand: Box::new(operand) }),
                }
            },
            None => self.parse_atom(),
        }
    }

    /// Parses an operand of the operators of one level.
    fn parse_operand(&mut self, level: u8) -> (r: Result<ASTNode, ParseError>)
        requires
            old(self).wf(),
            level <= 5,
        ensures
            final(self).wf(),
            parsed_as(
                old(self)@,
                final(self)@,
                r,
                parse_operand(old(self)@.tokens, old(self)@.position, level as int),
            ),
        decreases remaining(old(self)@.tokens, old(self)@.position), 4 + 3 * (5 - level),
    {
        if level == 0 {
            self.parse_logic_and()
        } else if level == 1 {
            self.parse_equality()
        } else if level == 2 {
            self.parse_comparison()
        } else if level == 3 {
            self.parse_term()
        } else if level == 4 {
            self.parse_factor()
        } else {
            self.parse_unary()
        }
    }

    /// Parses an expression of one level of precedence.
    fn parse_level(&mut self, level: u8) -> (r: Result<ASTNode, ParseError>)
        requires
            old(self).wf(),
            level <= 5,
        ensures
            final(self).wf(),
            parsed_as(
                old(self)@,
                final(self)@,
                r,
                parse_binary(old(self)@.tokens, old(self)@.position, level as int),
            ),
        decreases remaining(old(self)@.tokens, old(self)@.position), 5 + 3 * (5 - level),
    {
        let mut node = match self.parse_operand(level) {
            Err(e) => {
                return Err(e);
            },
            Ok(node) => node,
        };
        loop
            invariant
                self.wf(),
                level <= 5,
                self@.tokens == old(self)@.tokens,
                old(self)@.position < self@.position <= self@.tokens.len(),
                parse_binary(old(self)@.tokens, old(self)@.position, level as int)
                    == parse_binary_rest(self@.tokens, self@.position, level as int, node@),
            decreases remaining(self@.tokens, self@.position),
        {
            match operator_for(level, &self.current_token) {
                None => {
                    return Ok(node);
                },
                Some(operator) => {
                    self.advance();
                    match self.parse_operand(level) {
                        Err(e) => {
                            return Err(e);
                        },
                        Ok(right) => {
                            node = ASTNode::BinaryOp {
                                left: Box::new(node),
                                operator,
                                right: Box::new(right),
                            };
                        },
                    }
                },
            }
        }
    }

    /// Parses an expression joined by `or`.
    fn parse_logic_or(&mut self) -> (r: Result<ASTNode, ParseError>)
        requires
            old(self).wf(),
        ensures
            final(self).wf(),
            parsed_as(
                old(self)@,
                final(self)@,
                r,
                parse_binary(old(self)@.tokens, old(self)@.position, 0),
            ),
        decreases remaining(old(self)@.tokens, old(self)@.position), 21int,
    {
        self.parse_level(0)
    }

    /// Parses an expression joined by `and`.
    fn parse_logic_and(&mut self) -> (r: Result<ASTNode, ParseError>)
        requires
            old(self).wf(),
        ensures
            final(self).wf(),
            parsed_as(
                old(self)@,
                final(self)@,
                r,
                parse_binary(old(self)@.tokens, old(self)@.position, 1),
            ),
        decreases remaining(old(self)@.tokens, old(self)@.position), 18int,
    {
        self.parse_level(1)
    }

    /// Parses an expression joined by `==` and `!=`.
    fn parse_equality(&mut self) -> (r: Result<ASTNode, ParseError>)
        requires
            old(self).wf(),
        ensures
            final(self).wf(),
            parsed_as(
                old(self)@,
                final(self)@,
                r,
                parse_binary(old(self)@.tokens, old(self)@.position, 2),
            ),
        decreases remaining(old(self)@.tokens, old(self)@.position), 15int,
    {
        self.parse_level(2)
    }

    /// Parses an expression joined by `<`, `>`, `<=` and `>=`.
    fn parse_comparison(&mut self) -> (r: Result<ASTNode, ParseError>)
        requires
            old(self).wf(),
        ensures
            final(self).wf(),
            parsed_as(
                old(self)@,
                final(self)@,
                r,
                parse_binary(old(self)@.tokens, old(self)@.position, 3),
            ),
        decreases remaining(old(self)@.tokens, old(self)@.position), 12int,
    {
        self.parse_level(3)
    }

    /// Parses an expression joined by `+` and `-`.
    fn parse_term(&mut self) -> (r: Result<ASTNode, ParseError>)
        requires
            old(self).wf(),
        ensures
            final(self).wf(),
            parsed_as(
                old(self)@,
                final(self)@,
                r,
                parse_binary(old(self)@.tokens, old(self)@.position, 4),
            ),
        decreases remaining(old(self)@.tokens, old(self)@.position), 9int,
    {
        self.parse_level(4)
    }

    /// Parses an expression joined by `*`, `/` and `%`.
    fn parse_factor(&mut self) -> (r: Result<ASTNode, ParseError>)
        requires
            old(self).wf(),
        ensures
            final(self).wf(),
            parsed_as(
                old(self)@,
                final(self)@,
                r,
                parse_binary(old(self)@.tokens, old(self)@.position, 5),
            ),
        decreases remaining(old(self)@.tokens, old(self)@.position), 6int,
    {
        self.parse_level(5)
    }

    /// Parses an expression.
    fn parse_expression(&mut self) -> (r: Result<ASTNode, ParseError>)
        requires
            old(self).wf(),
        ensures
            final(self).wf(),
            parsed_as(
                old(self)@,
                final(self)@,
                r,
                parse_expression(old(self)@.tokens, old(self)@.position),
            ),
        decreases remaining(old(self)@.tokens, old(self)@.position), 22int,
    {
        self.parse_logic_or()
    }

    /// Parses an expression that stands as a statement.
    fn parse_expression_statement(&mut self) -> (r: Result<ASTNode, ParseError>)
        requires
            old(self).wf(),
        ensures
            final(self).wf(),
            parsed_as(
                old(self)@,
                final(self)@,
                r,
                parse_expression_statement(old(self)@.tokens, old(self)@.position),
            ),
        decreases remaining(old(self)@.tokens, old(self)@.position), 23int,
    {
        match self.parse_expression() {
            Err(e) => Err(e),
            Ok(expr) => Ok(ASTNode::Statement(Box::new(expr))),
        }
    }

    /// Parses `return` and the expression after it.
    fn parse_return_statement(&mut self) -> (r: Result<ASTNode, ParseError>)
        requires
            old(self).wf(),
            token_at(old(self)@.tokens, old(self)@.position) == TokenView::Return,
        ensures
            final(self).wf(),
            parsed_as(
                old(self)@,
                final(self)@,
                r,
                parse_statement(old(self)@.tokens, old(self)@.position),
            ),
        decreases remaining(old(self)@.tokens, old(self)@.position), 23int,
    {
        self.advance();
        match self.parse_expression() {
            Err(e) => Err(e),
            Ok(value) => Ok(ASTNode::Return(Box::new(value))),
        }
    }

    /// Parses `print` and the expression after it.
    fn parse_print_statement(&mut self) -> (r: Result<ASTNode, ParseError>)
        requires
            old(self).wf(),
            token_at(old(self)@.tokens, old(self)@.position) == TokenView::Print,
        ensures
            final(self).wf(),
            parsed_as(
                old(self)@,
                final(self)@,
                r,
                parse_statement(old(self)@.tokens, old(self)@.position),
            ),
        decreases remaining(old(self)@.tokens, old(self)@.position), 23int,
    {
        self.advance();
        match self.parse_expression() {
            Err(e) => Err(e),
            Ok(value) => Ok(ASTNode::Print(Box::new(value))),
        }
    }

    /// Parses a name, `=` and the expression after it.
    fn parse_assignment(&mut self) -> (r: Result<ASTNode, ParseError>)
        requires
            old(self).wf(),
            token_at(old(self)@.tokens, old(self)@.position) is Identifier,
            token_at(old(self)@.tokens, old(self)@.position + 1) == TokenView::Assign,
        ensures
            final(self).wf(),
            parsed_as(
                old(self)@,
                final(self)@,
                r,
                parse_statement(old(self)@.tokens, old(self)@.position),
            ),
        decreases remaining(old(self)@.tokens, old(self)@.position), 23int,
    {
        match &self.current_token {
            Token::Identifier(name) => {
                let var_name = name.clone();
                proof {
                    reveal_with_fuel(skip_newlines, 2);
                }
                self.advance();
                match self.expect(Token::Assign) {
                    Err(e) => Err(e),
                    Ok(_) => match self.parse_expression() {
                        Err(e) => Err(e),
                        Ok(expr) => Ok(
                            ASTNode::Assignment { name: var_name, value: Box::new(expr) },
                        ),
                    },
                }
            },
            _ => Err(ParseError::ExpectedName { found: self.current_token.clone() }),
        }
    }

    /// Parses an `if` statement.
    fn parse_if_statement(&mut self) -> (r: Result<ASTNode, ParseError>)
        requires
            old(self).wf(),
            token_at(old(self)@.tokens, old(self)@.position) != TokenView::EOF,
        ensures
            final(self).wf(),
            parsed_as(
                old(self)@,
                final(self)@,
                r,
                parse_if_statement(old(self)@.tokens, old(self)@.position),
            ),
        decreases remaining(old(self)@.tokens, old(self)@.position), 24int,
    {
        self.advance();
        let condition = match self.parse_expression() {
            Err(e) => {
                return Err(e);
            },
            Ok(node) => node,
        };
        match self.expect(Token::Colon) {
            Err(e) => {
                return Err(e);
            },
            Ok(_) => {},
        }
        let then_branch = match self.parse_block() {
            Err(e) => {
                return Err(e);
            },
            Ok(node) => node,
        };
        let else_branch = if let Token::Else = self.current_token {
            self.advance();
            match self.expect(Token::Colon) {
                Err(e) => {
                    return Err(e);
                },
                Ok(_) => {},
            }
            match self.parse_block() {
                Err(e) => {
                    return Err(e);
                },
                Ok(node) => Some(Box::new(node)),
            }
        } else {
            None
        };
        Ok(
            ASTNode::IfStatement {
                condition: Box::new(condition),
                then_branch: Box::new(then_branch),
                else_branch,
            },
        )
    }

    /// Parses a `while` loop.
    fn parse_while_loop(&mut self) -> (r: Result<ASTNode, ParseError>)
        requires
            old(self).wf(),
            token_at(old(self)@.tokens, old(self)@.position) != TokenView::EOF,
        ensures
            final(self).wf(),
            parsed_as(
                old(self)@,
                final(self)@,
                r,
                parse_while_loop(old(self)@.tokens, old(self)@.position),
            ),
        decreases remaining(old(self)@.tokens, old(self)@.position), 24int,
    {
        self.advance();
        let condition = match self.parse_expression() {
            Err(e) => {
                return Err(e);
            },
            Ok(node) => node,
        };
        match self.expect(Token::Colon) {
            Err(e) => {
                return Err(e);
            },
            Ok(_) => {},
        }
        match self.parse_block() {
            Err(e) => Err(e),
            Ok(body) => Ok(
                ASTNode::WhileLoop { condition: Box::new(condition), body: Box::new(body) },
            ),
        }
    }

    /// Parses a function definition.
    #[verifier::loop_isolation(false)]
    fn parse_function_def(&mut self) -> (r: Result<ASTNode, ParseError>)
        requires
            old(self).wf(),
            token_at(old(self)@.tokens, old(self)@.position) != TokenView::EOF,
        ensures
            final(self).wf(),
            parsed_as(
                old(self)@,
                final(self)@,
                r,
                parse_function_def(old(self)@.tokens, old(self)@.position),
            ),
        decreases remaining(old(self)@.tokens, old(self)@.position), 24int,
    {
        self.advance();
        let name = match &self.current_token {
            Token::Identifier(name) => name.clone(),
            _ => {
                return Err(ParseError::ExpectedName { found: self.current_token.clone() });
            },
        };
        self.advance();
        match self.expect(Token::LeftParen) {
            Err(e) => {
                return Err(e);
            },
            Ok(_) => {},
        }
        let mut params: Vec<String> = Vec::new();
        assert(name_views(params@) =~= Seq::<Seq<char>>::empty());
        if !matches!(self.current_token, Token::RightParen) {
            let ghost first = self@.position;
            let mut more = true;
            while more
                invariant
                    self.wf(),
                    self@.tokens == old(self)@.tokens,
                    old(self)@.position < self@.position <= self@.tokens.len(),
                    parse_params(self@.tokens, first, Seq::empty()) == if more {
                        parse_params(self@.tokens, self@.position, name_views(params@))
                    } else {
                        Parsed { result: Ok(name_views(params@)), position: self@.position }
                    },
                decreases remaining(self@.tokens, self@.position) + if more {
                    1int
                } else {
                    0int
                },
            {
                let ghost before = name_views(params@);
                match &self.current_token {
                    Token::Identifier(name) => {
                        params.push(name.clone());
                        assert(name_views(params@) =~= before.push(name@));
                        self.advance();
                    },
                    _ => {
                        return Err(ParseError::ExpectedName { found: self.current_token.clone() });
                    },
                }
                if let Token::Comma = self.current_token {
                    self.advance();
                } else {
                    more = false;
                }
            }
        }
        match self.expect(Token::RightParen) {
            Err(e) => {
                return Err(e);
            },
            Ok(_) => {},
        }
        match self.expect(Token::Colon) {
            Err(e) => {
                return Err(e);
            },
            Ok(_) => {},
        }
        match self.parse_block() {
            Err(e) => Err(e),
            Ok(body) => Ok(ASTNode::FunctionDef { name, params, body: Box::new(body) }),
        }
    }

    /// Parses a block.
    #[verifier::loop_isolation(false)]
    fn parse_block(&mut self) -> (r: Result<ASTNode, ParseError>)
        requires
            old(self).wf(),
        ensures
            final(self).wf(),
            parsed_as(
                old(self)@,
                final(self)@,
                r,
                parse_block(old(self)@.tokens, old(self)@.position),
            ),
        decreases remaining(old(self)@.tokens, old(self)@.position), 26int,
    {
        if is_newline(&self.current_token) {
            self.advance();
            match self.expect(Token::Indent) {
                Err(e) => {
                    return Err(e);
                },
                Ok(_) => {},
            }
            let ghost first = self@.position;
            let mut statements: Vec<ASTNode> = Vec::new();
            assert(node_views(statements@) =~= Seq::<Node>::empty());
            let mut more = true;
            while more
                invariant
                    self.wf(),
                    self@.tokens == old(self)@.tokens,
                    old(self)@.position < self@.position <= self@.tokens.len(),
                    parse_block_items(self@.tokens, first, Seq::empty()) == if more {
                        parse_block_items(self@.tokens, self@.position, node_views(statements@))
                    } else {
                        Parsed { result: Ok(node_views(statements@)), position: self@.position }
                    },
                decreases remaining(self@.tokens, self@.position) + if more {
                    1int
                } else {
                    0int
                },
            {
                let ghost before = node_views(statements@);
                match &self.current_token {
                    Token::Dedent => {
                        more = false;
                    },
                    Token::EOF => {
                        more = false;
                    },
                    Token::Newline => {
                        self.advance();
                    },
                    _ => {
                        match self.parse_statement() {
                            Err(e) => {
                                return Err(e);
                            },
                            Ok(node) => {
                                statements.push(node);
                                assert(node_views(statements@) =~= before.push(node@));
                            },
                        }
                    },
                }
            }
            match self.expect(Token::Dedent) {
                Err(e) => Err(e),
                Ok(_) => {
                    let node = ASTNode::Block(statements);
                    proof {
                        lemma_model_lists(&node);
                    }
                    Ok(node)
                },
            }
        } else {
            match self.parse_statement() {
                Err(e) => Err(e),
                Ok(statement) => {
                    let mut statements: Vec<ASTNode> = Vec::new();
                    statements.push(statement);
                    assert(node_views(statements@) =~= seq![statement@]);
                    let node = ASTNode::Block(statements);
                    proof {
                        lemma_model_lists(&node);
                    }
                    Ok(node)
                },
            }
        }
    }

    /// Parses a statement.
    fn parse_statement(&mut self) -> (r: Result<ASTNode, ParseError>)
        requires
            old(self).wf(),
        ensures
            final(self).wf(),
            parsed_as(
                old(self)@,
                final(self)@,
                r,
                parse_statement(old(self)@.tokens, old(self)@.position),
            ),
        decreases remaining(old(self)@.tokens, old(self)@.position), 25int,
    {
        match &self.current_token {
            Token::If => self.parse_if_statement(),
            Token::While => self.parse_while_loop(),
            Token::Def => self.parse_function_def(),
            Token::Return => self.parse_return_statement(),
            Token::Print => self.parse_print_statement(),
            Token::Identifier(_) => {
                if let Token::Assign = self.peek_token() {
                    self.parse_assignment()
                } else {
                    self.parse_expression_statement()
                }
            },
            _ => self.parse_expression_statement(),
        }
    }

    /// Parses the tokens from the cursor to their end as a program: the
    /// statements in their order. Fails at the first place where the tokens
    /// do not fit the grammar; no token is passed over.
    #[verifier::loop_isolation(false)]
    pub fn parse(&mut self) -> (r: Result<ASTNode, ParseError>)
        requires
            old(self).wf(),
        ensures
            final(self).wf(),
            final(self)@.tokens == old(self)@.tokens,
            old(self)@.position <= final(self)@.position <= old(self)@.tokens.len(),
            r is Ok ==> r->Ok_0@ is Program && token_at(final(self)@.tokens, final(self)@.position)
                == TokenView::EOF,
            node_result(r) == parse_program(
                old(self)@.tokens,
                old(self)@.position,
                Seq::empty(),
            ).result,
            final(self)@.position == parse_program(
                old(self)@.tokens,
                old(self)@.position,
                Seq::empty(),
            ).position,
    {
        proof {
            lemma_program_reads_all(old(self)@.tokens, old(self)@.position, Seq::empty());
        }
        let mut statements: Vec<ASTNode> = Vec::new();
        assert(node_views(statements@) =~= Seq::<Node>::empty());
        let mut more = true;
        while more
            invariant
                self.wf(),
                self@.tokens == old(self)@.tokens,
                old(self)@.position <= self@.position <= self@.tokens.len(),
                parse_program(old(self)@.tokens, old(self)@.position, Seq::empty()) == if more {
                    parse_program(self@.tokens, self@.position, node_views(statements@))
                } else {
                    Parsed {
                        result: Ok(Node::Program(node_views(statements@))),
                        position: self@.position,
                    }
                },
            decreases remaining(self@.tokens, self@.position) + if more {
                1int
            } else {
                0int
            },
        {
            let ghost before = node_views(statements@);
            match &self.current_token {
                Token::EOF => {
                    more = false;
                },
                Token::Newline => {
                    self.advance();
                },
                _ => {
                    match self.parse_statement() {
                        Err(e) => {
                            return Err(e);
                        },
                        Ok(node) => {
                            statements.push(node);
                            assert(node_views(statements@) =~= before.push(node@));
                        },
                    }
                },
            }
        }
        let node = ASTNode::Program(statements);
        proof {
            lemma_model_lists(&node);
        }
        Ok(node)
    }
}

} // verus!
