//! The syntax tree.

use crate::number::Number;
use vstd::prelude::*;

verus! {

/// A node of the syntax tree. Every node owns its children.
#[derive(Debug)]
pub enum ASTNode {
    Program(Vec<ASTNode>),
    Statement(Box<ASTNode>),
    Block(Vec<ASTNode>),
    Number(Number),
    String(String),
    Boolean(bool),
    Variable(String),
    BinaryOp { left: Box<ASTNode>, operator: String, right: Box<ASTNode> },
    UnaryOp { operator: String, operand: Box<ASTNode> },
    Assignment { name: String, value: Box<ASTNode> },
    IfStatement {
        condition: Box<ASTNode>,
        then_branch: Box<ASTNode>,
        else_branch: Option<Box<ASTNode>>,
    },
    WhileLoop { condition: Box<ASTNode>, body: Box<ASTNode> },
    FunctionDef { name: String, params: Vec<String>, body: Box<ASTNode> },
    FunctionCall { name: String, args: Vec<ASTNode> },
    Return(Box<ASTNode>),
    Print(Box<ASTNode>),
}

/// A syntax tree as a mathematical value: texts are sequences of
/// characters, lists are sequences.
pub enum Node {
    Program(Seq<Node>),
    Statement(Box<Node>),
    Block(Seq<Node>),
    Number(Number),
    String(Seq<char>),
    Boolean(bool),
    Variable(Seq<char>),
    BinaryOp { left: Box<Node>, operator: Seq<char>, right: Box<Node> },
    UnaryOp { operator: Seq<char>, operand: Box<Node> },
    Assignment { name: Seq<char>, value: Box<Node> },
    IfStatement { condition: Box<Node>, then_branch: Box<Node>, else_branch: Option<Box<Node>> },
    WhileLoop { condition: Box<Node>, body: Box<Node> },
    FunctionDef { name: Seq<char>, params: Seq<Seq<char>>, body: Box<Node> },
    FunctionCall { name: Seq<char>, args: Seq<Node> },
    Return(Box<Node>),
    Print(Box<Node>),
}

/// The views of a list of names, one for one.
pub open spec fn name_views(names: Seq<String>) -> Seq<Seq<char>> {
    Seq::new(names.len(), |i: int| names[i]@)
}

/// The views of a list of nodes, one for one.
pub open spec fn node_views(nodes: Seq<ASTNode>) -> Seq<Node> {
    Seq::new(nodes.len(), |i: int| nodes[i]@)
}

impl ASTNode {
    /// The tree as a mathematical value.
    pub open spec fn model(&self) -> Node
        decreases self,
    {
        match self {
            ASTNode::Program(statements) => Node::Program(
                Seq::new(
                    statements.len() as nat,
                    |i: int|
                        if 0 <= i < statements.len() {
                            statements[i].model()
                        } else {
                            arbitrary()
                        },
                ),
            ),
            ASTNode::Statement(expr) => Node::Statement(Box::new(expr.model())),
            ASTNode::Block(statements) => Node::Block(
                Seq::new(
                    statements.len() as nat,
                    |i: int|
                        if 0 <= i < statements.len() {
                            statements[i].model()
                        } else {
                            arbitrary()
                        },
                ),
            ),
            ASTNode::Number(value) => Node::Number(*value),
            ASTNode::String(text) => Node::String(text@),
            ASTNode::Boolean(value) => Node::Boolean(*value),
            ASTNode::Variable(name) => Node::Variable(name@),
            ASTNode::BinaryOp { left, operator, right } => Node::BinaryOp {
                left: Box::new(left.model()),
                operator: operator@,
                right: Box::new(right.model()),
            },
            ASTNode::UnaryOp { operator, operand } => Node::UnaryOp {
                operator: operator@,
                operand: Box::new(operand.model()),
            },
            ASTNode::Assignment { name, value } => Node::Assignment {
                name: name@,
                value: Box::new(value.model()),
            },
            ASTNode::IfStatement { condition, then_branch, else_branch } => Node::IfStatement {
                condition: Box::new(condition.model()),
                then_branch: Box::new(then_branch.model()),
                else_branch: match else_branch {
                    Some(node) => Some(Box::new(node.model())),
                    None => None,
                },
            },
            ASTNode::WhileLoop { condition, body } => Node::WhileLoop {
                condition: Box::new(condition.model()),
                body: Box::new(body.model()),
            },
            ASTNode::FunctionDef { name, params, body } => Node::FunctionDef {
                name: name@,
                params: name_views(params@),
                body: Box::new(body.model()),
            },
            ASTNode::FunctionCall { name, args } => Node::FunctionCall {
                name: name@,
                args: Seq::new(
                    args.len() as nat,
                    |i: int|
                        if 0 <= i < args.len() {
                            args[i].model()
                        } else {
                            arbitrary()
                        },
                ),
            },
            ASTNode::Return(expr) => Node::Return(Box::new(expr.model())),
            ASTNode::Print(expr) => Node::Print(Box::new(expr.model())),
        }
    }
}

/// The lists inside a tree are modelled item by item.
pub proof fn lemma_model_lists(node: &ASTNode)
    ensures
        node matches ASTNode::Program(s) ==> node@ == Node::Program(node_views(s@)),
        node matches ASTNode::Block(s) ==> node@ == Node::Block(node_views(s@)),
        node matches ASTNode::FunctionCall { name, args } ==> node@ == (Node::FunctionCall {
            name: name@,
            args: node_views(args@),
        }),
{
    match node {
        ASTNode::Program(s) => {
            assert(node@->Program_0 =~= node_views(s@));
        },
        ASTNode::Block(s) => {
            assert(node@->Block_0 =~= node_views(s@));
        },
        ASTNode::FunctionCall { name, args } => {
            assert(node@->FunctionCall_args =~= node_views(args@));
        },
        _ => {},
    }
}

impl View for ASTNode {
    type V = Node;

    open spec fn view(&self) -> Node {
        self.model()
    }
}

/// Equality of two lists of trees from index `from` on, item by item.
pub open spec fn nodes_eq_from(a: Seq<Node>, b: Seq<Node>, from: int) -> bool
    decreases a, a.len() - from + 1,
{
    if 0 <= from < a.len() {
        node_eq(a[from], b[from]) && nodes_eq_from(a, b, from + 1)
    } else {
        true
    }
}

/// Equality of lists of trees: the same length, and equal item by item.
pub open spec fn nodes_eq(a: Seq<Node>, b: Seq<Node>) -> bool
    decreases a, a.len() + 2,
{
    a.len() == b.len() && nodes_eq_from(a, b, 0)
}

/// Equality of trees: the same shape, equal texts, and numbers that are
/// equal as numbers.
pub open spec fn node_eq(a: Node, b: Node) -> bool
    decreases a, 0int,
{
    match (a, b) {
        (Node::Program(x), Node::Program(y)) => nodes_eq(x, y),
        (Node::Statement(x), Node::Statement(y)) => node_eq(*x, *y),
        (Node::Block(x), Node::Block(y)) => nodes_eq(x, y),
        (Node::Number(x), Node::Number(y)) => x.equals(y),
        (Node::String(x), Node::String(y)) => x == y,
        (Node::Boolean(x), Node::Boolean(y)) => x == y,
        (Node::Variable(x), Node::Variable(y)) => x == y,
        (
            Node::BinaryOp { left: l1, operator: o1, right: r1 },
            Node::BinaryOp { left: l2, operator: o2, right: r2 },
        ) => node_eq(*l1, *l2) && o1 == o2 && node_eq(*r1, *r2),
        (
            Node::UnaryOp { operator: o1, operand: e1 },
            Node::UnaryOp { operator: o2, operand: e2 },
        ) => o1 == o2 && node_eq(*e1, *e2),
        (
            Node::Assignment { name: n1, value: v1 },
            Node::Assignment { name: n2, value: v2 },
        ) => n1 == n2 && node_eq(*v1, *v2),
        (
            Node::IfStatement { condition: c1, then_branch: t1, else_branch: e1 },
            Node::IfStatement { condition: c2, then_branch: t2, else_branch: e2 },
        ) => node_eq(*c1, *c2) && node_eq(*t1, *t2) && match (e1, e2) {
            (Some(x), Some(y)) => node_eq(*x, *y),
            (None, None) => true,
            _ => false,
        },
        (
            Node::WhileLoop { condition: c1, body: b1 },
            Node::WhileLoop { condition: c2, body: b2 },
        ) => node_eq(*c1, *c2) && node_eq(*b1, *b2),
        (
            Node::FunctionDef { name: n1, params: first_params, body: b1 },
            Node::FunctionDef { name: n2, params: second_params, body: b2 },
        ) => n1 == n2 && first_params == second_params && node_eq(*b1, *b2),
        (
            Node::FunctionCall { name: n1, args: a1 },
            Node::FunctionCall { name: n2, args: a2 },
        ) => n1 == n2 && nodes_eq(a1, a2),
        (Node::Return(x), Node::Return(y)) => node_eq(*x, *y),
        (Node::Print(x), Node::Print(y)) => node_eq(*x, *y),
        _ => false,
    }
}

/// A copy of a list of names.
pub fn clone_names(names: &Vec<String>) -> (r: Vec<String>)
    ensures
        name_views(r@) == name_views(names@),
{
    let mut out: Vec<String> = Vec::new();
    let mut i: usize = 0;
    while i < names.len()
        invariant
            i <= names.len(),
            out.len() == i,
            forall|k: int| 0 <= k < i ==> out[k]@ == names[k]@,
        decreases names.len() - i,
    {
        out.push(names[i].clone());
        i += 1;
    }
    out
}

/// Whether two lists of names are equal.
pub fn same_names(a: &Vec<String>, b: &Vec<String>) -> (r: bool)
    ensures
        r == (name_views(a@) == name_views(b@)),
{
    if a.len() != b.len() {
        return false;
    }
    let mut i: usize = 0;
    while i < a.len()
        invariant
            i <= a.len(),
            a.len() == b.len(),
            forall|k: int| 0 <= k < i ==> a[k]@ == b[k]@,
        decreases a.len() - i,
    {
        if a[i] != b[i] {
            assert(name_views(a@)[i as int] != name_views(b@)[i as int]);
            return false;
        }
        i += 1;
    }
    assert(name_views(a@) =~= name_views(b@));
    true
}

impl ASTNode {
    /// A copy of the tree.
    pub fn duplicate(&self) -> (r: ASTNode)
        ensures
            r@ == self@,
        decreases self, 0int,
    {
        proof {
            lemma_model_lists(self);
        }
        let r = match self {
            ASTNode::Program(statements) => ASTNode::Program(ASTNode::duplicate_all(statements)),
            ASTNode::Statement(expr) => ASTNode::Statement(Box::new(expr.duplicate())),
            ASTNode::Block(statements) => ASTNode::Block(ASTNode::duplicate_all(statements)),
            ASTNode::Number(value) => ASTNode::Number(*value),
            ASTNode::String(text) => ASTNode::String(text.clone()),
            ASTNode::Boolean(value) => ASTNode::Boolean(*value),
            ASTNode::Variable(name) => ASTNode::Variable(name.clone()),
            ASTNode::BinaryOp { left, operator, right } => ASTNode::BinaryOp {
                left: Box::new(left.duplicate()),
                operator: operator.clone(),
                right: Box::new(right.duplicate()),
            },
            ASTNode::UnaryOp { operator, operand } => ASTNode::UnaryOp {
                operator: operator.clone(),
                operand: Box::new(operand.duplicate()),
            },
            ASTNode::Assignment { name, value } => ASTNode::Assignment {
                name: name.clone(),
                value: Box::new(value.duplicate()),
            },
            ASTNode::IfStatement { condition, then_branch, else_branch } => ASTNode::IfStatement {
                condition: Box::new(condition.duplicate()),
                then_branch: Box::new(then_branch.duplicate()),
                else_branch: match else_branch {
                    Some(node) => Some(Box::new(node.duplicate())),
                    None => None,
                },
            },
            ASTNode::WhileLoop { condition, body } => ASTNode::WhileLoop {
                condition: Box::new(condition.duplicate()),
                body: Box::new(body.duplicate()),
            },
            ASTNode::FunctionDef { name, params, body } => ASTNode::FunctionDef {
                name: name.clone(),
                params: clone_names(params),
                body: Box::new(body.duplicate()),
            },
            ASTNode::FunctionCall { name, args } => ASTNode::FunctionCall {
                name: name.clone(),
                args: ASTNode::duplicate_all(args),
            },
            ASTNode::Return(expr) => ASTNode::Return(Box::new(expr.duplicate())),
            ASTNode::Print(expr) => ASTNode::Print(Box::new(expr.duplicate())),
        };
        proof {
            lemma_model_lists(&r);
        }
        r
    }

    /// Copies of the trees of a list.
    pub fn duplicate_all(nodes: &Vec<ASTNode>) -> (r: Vec<ASTNode>)
        ensures
            node_views(r@) == node_views(nodes@),
        decreases nodes, 1int,
    {
        let mut out: Vec<ASTNode> = Vec::new();
        let mut i: usize = 0;
        while i < nodes.len()
            invariant
                i <= nodes.len(),
                out.len() == i,
                forall|k: int| 0 <= k < i ==> out[k]@ == nodes[k]@,
            decreases nodes.len() - i,
        {
            out.push(nodes[i].duplicate());
            i += 1;
        }
        out
    }

    /// Whether two trees are equal.
    pub fn same(&self, other: &ASTNode) -> (r: bool)
        ensures
            r == node_eq(self@, other@),
        decreases self, 0int,
    {
        proof {
            lemma_model_lists(self);
            lemma_model_lists(other);
        }
        match (self, other) {
            (ASTNode::Program(x), ASTNode::Program(y)) => ASTNode::same_all(x, y),
            (ASTNode::Statement(x), ASTNode::Statement(y)) => x.same(y),
            (ASTNode::Block(x), ASTNode::Block(y)) => ASTNode::same_all(x, y),
            (ASTNode::Number(x), ASTNode::Number(y)) => x.is_equal(*y),
            (ASTNode::String(x), ASTNode::String(y)) => *x == *y,
            (ASTNode::Boolean(x), ASTNode::Boolean(y)) => *x == *y,
            (ASTNode::Variable(x), ASTNode::Variable(y)) => *x == *y,
            (
                ASTNode::BinaryOp { left: l1, operator: o1, right: r1 },
                ASTNode::BinaryOp { left: l2, operator: o2, right: r2 },
            ) => l1.same(l2) && *o1 == *o2 && r1.same(r2),
            (
                ASTNode::UnaryOp { operator: o1, operand: e1 },
                ASTNode::UnaryOp { operator: o2, operand: e2 },
            ) => *o1 == *o2 && e1.same(e2),
            (
                ASTNode::Assignment { name: n1, value: v1 },
                ASTNode::Assignment { name: n2, value: v2 },
            ) => *n1 == *n2 && v1.same(v2),
            (
                ASTNode::IfStatement { condition: c1, then_branch: t1, else_branch: e1 },
                ASTNode::IfStatement { condition: c2, then_branch: t2, else_branch: e2 },
            ) => c1.same(c2) && t1.same(t2) && match (e1, e2) {
                (Some(x), Some(y)) => x.same(y),
                (None, None) => true,
                _ => false,
            },
            (
                ASTNode::WhileLoop { condition: c1, body: b1 },
                ASTNode::WhileLoop { condition: c2, body: b2 },
            ) => c1.same(c2) && b1.same(b2),
            (
                ASTNode::FunctionDef { name: n1, params: first_params, body: b1 },
                ASTNode::FunctionDef { name: n2, params: second_params, body: b2 },
            ) => *n1 == *n2 && same_names(first_params, second_params) && b1.same(b2),
            (
                ASTNode::FunctionCall { name: n1, args: a1 },
                ASTNode::FunctionCall { name: n2, args: a2 },
            ) => *n1 == *n2 && ASTNode::same_all(a1, a2),
            (ASTNode::Return(x), ASTNode::Return(y)) => x.same(y),
            (ASTNode::Print(x), ASTNode::Print(y)) => x.same(y),
            _ => false,
        }
    }

    /// Whether two lists of trees are equal.
    pub fn same_all(a: &Vec<ASTNode>, b: &Vec<ASTNode>) -> (r: bool)
        ensures
            r == nodes_eq(node_views(a@), node_views(b@)),
        decreases a, 1int,
    {
        if a.len() != b.len() {
            return false;
        }
        let mut i: usize = 0;
        while i < a.len()
            invariant
                i <= a.len(),
                a.len() == b.len(),
                nodes_eq_from(node_views(a@), node_views(b@), 0) == nodes_eq_from(
                    node_views(a@),
                    node_views(b@),
                    i as int,
                ),
            decreases a.len() - i,
        {
            if !a[i].same(&b[i]) {
                return false;
            }
            i += 1;
        }
        true
    }
}

impl Clone for ASTNode {
    fn clone(&self) -> (r: ASTNode)
        ensures
            r@ == self@,
    {
        self.duplicate()
    }
}

impl PartialEq for ASTNode {
    fn eq(&self, other: &ASTNode) -> (r: bool) {
        self.same(other)
    }
}

impl vstd::std_specs::cmp::PartialEqSpecImpl for ASTNode {
    open spec fn obeys_eq_spec() -> bool {
        true
    }

    open spec fn eq_spec(&self, other: &ASTNode) -> bool {
        node_eq(self@, other@)
    }
}

} // verus!
