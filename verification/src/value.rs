//! The values that programs compute.

use crate::ast::{clone_names, name_views, node_eq, same_names, ASTNode, Node};
use crate::number::Number;
use vstd::prelude::*;

verus! {

/// A value at run time.
#[derive(Debug)]
pub enum Value {
    Number(Number),
    String(String),
    Boolean(bool),
    /// A function: the names of its parameters and its body.
    Function { params: Vec<String>, body: Box<ASTNode> },
    /// The signal by which `return` leaves the statements around it. No
    /// program can write one down.
    ReturnValue(Box<Value>),
    /// The absence of a value.
    Null,
}

/// A value as a mathematical value.
pub enum Val {
    Number(Number),
    String(Seq<char>),
    Boolean(bool),
    Function { params: Seq<Seq<char>>, body: Box<Node> },
    ReturnValue(Box<Val>),
    Null,
}

/// What `print` writes for a value: a text as it stands, or a number, which
/// is written in decimal.
#[derive(Debug)]
pub enum Printed {
    Text(String),
    Number(Number),
}

/// A printed line as a mathematical value.
pub enum PrintedView {
    Text(Seq<char>),
    Number(Number),
}

impl View for Printed {
    type V = PrintedView;

    open spec fn view(&self) -> PrintedView {
        match self {
            Printed::Text(text) => PrintedView::Text(text@),
            Printed::Number(value) => PrintedView::Number(*value),
        }
    }
}

/// The views of a list of printed lines, one for one.
pub open spec fn printed_views(lines: Seq<Printed>) -> Seq<PrintedView> {
    Seq::new(lines.len(), |i: int| lines[i]@)
}

impl Val {
    /// Whether a condition with this value holds: a boolean as it says, a
    /// number unless it is zero, a string unless it is empty, `Null` never,
    /// anything else always.
    pub open spec fn truthy(self) -> bool {
        match self {
            Val::Boolean(b) => b,
            Val::Number(n) => !n.zero(),
            Val::String(s) => s.len() != 0,
            Val::Null => false,
            _ => true,
        }
    }

    /// Equality of values: of the same kind and equal in what they hold,
    /// numbers as numbers and function bodies as trees. Values of two kinds
    /// are not equal.
    pub open spec fn equals(self, other: Val) -> bool
        decreases self,
    {
        match (self, other) {
            (Val::Number(a), Val::Number(b)) => a.equals(b),
            (Val::String(a), Val::String(b)) => a == b,
            (Val::Boolean(a), Val::Boolean(b)) => a == b,
            (
                Val::Function { params: first_params, body: b1 },
                Val::Function { params: second_params, body: b2 },
            ) => first_params == second_params && node_eq(*b1, *b2),
            (Val::ReturnValue(a), Val::ReturnValue(b)) => a.equals(*b),
            (Val::Null, Val::Null) => true,
            _ => false,
        }
    }

    /// What `print` writes for the value. A return signal is written as the
    /// value it carries.
    pub open spec fn printed(self) -> PrintedView
        decreases self,
    {
        match self {
            Val::Number(n) => PrintedView::Number(n),
            Val::String(s) => PrintedView::Text(s),
            Val::Boolean(b) => if b {
                PrintedView::Text("true"@)
            } else {
                PrintedView::Text("false"@)
            },
            Val::Null => PrintedView::Text("null"@),
            Val::Function { .. } => PrintedView::Text("<function>"@),
            Val::ReturnValue(inner) => inner.printed(),
        }
    }
}

impl Value {
    /// The value as a mathematical value.
    pub open spec fn model(&self) -> Val
        decreases self,
    {
        match self {
            Value::Number(n) => Val::Number(*n),
            Value::String(s) => Val::String(s@),
            Value::Boolean(b) => Val::Boolean(*b),
            Value::Function { params, body } => Val::Function {
                params: name_views(params@),
                body: Box::new(body.model()),
            },
            Value::ReturnValue(inner) => Val::ReturnValue(Box::new(inner.model())),
            Value::Null => Val::Null,
        }
    }

    /// A copy of the value.
    pub fn duplicate(&self) -> (r: Value)
        ensures
            r@ == self@,
        decreases self,
    {
        match self {
            Value::Number(n) => Value::Number(*n),
            Value::String(s) => Value::String(s.clone()),
            Value::Boolean(b) => Value::Boolean(*b),
            Value::Function { params, body } => Value::Function {
                params: clone_names(params),
                body: Box::new(body.duplicate()),
            },
            Value::ReturnValue(inner) => Value::ReturnValue(Box::new(inner.duplicate())),
            Value::Null => Value::Null,
        }
    }

    /// Whether two values are equal.
    pub fn same(&self, other: &Value) -> (r: bool)
        ensures
            r == self@.equals(other@),
        decreases self,
    {
        match (self, other) {
            (Value::Number(a), Value::Number(b)) => a.is_equal(*b),
            (Value::String(a), Value::String(b)) => *a == *b,
            (Value::Boolean(a), Value::Boolean(b)) => *a == *b,
            (
                Value::Function { params: first_params, body: b1 },
                Value::Function { params: second_params, body: b2 },
            ) => same_names(first_params, second_params) && b1.same(b2),
            (Value::ReturnValue(a), Value::ReturnValue(b)) => a.same(b),
            (Value::Null, Value::Null) => true,
            _ => false,
        }
    }

    /// Whether a condition with this value holds.
    pub fn is_truthy(&self) -> (r: bool)
        ensures
            r == self@.truthy(),
    {
        match self {
            Value::Boolean(b) => *b,
            Value::Number(n) => !n.is_zero(),
            Value::String(s) => s.as_str().unicode_len() != 0,
            Value::Null => false,
            _ => true,
        }
    }

    /// Whether the value is a return signal.
    pub fn is_return(&self) -> (r: bool)
        ensures
            r == (self@ is ReturnValue),
    {
        match self {
            Value::ReturnValue(_) => true,
            _ => false,
        }
    }

    /// What `print` writes for the value.
    pub fn value_to_string(&self) -> (r: Printed)
        ensures
            r@ == self@.printed(),
        decreases self,
    {
        match self {
            Value::Number(n) => Printed::Number(*n),
            Value::String(s) => Printed::Text(s.clone()),
            Value::Boolean(b) => if *b {
                Printed::Text(String::from_str("true"))
            } else {
                Printed::Text(String::from_str("false"))
            },
            Value::Null => Printed::Text(String::from_str("null")),
            Value::Function { .. } => Printed::Text(String::from_str("<function>")),
            Value::ReturnValue(inner) => inner.value_to_string(),
        }
    }
}

impl View for Value {
    type V = Val;

    open spec fn view(&self) -> Val {
        self.model()
    }
}

impl Clone for Value {
    fn clone(&self) -> (r: Value)
        ensures
            r@ == self@,
    {
        self.duplicate()
    }
}

impl PartialEq for Value {
    fn eq(&self, other: &Value) -> (r: bool) {
        self.same(other)
    }
}

impl vstd::std_specs::cmp::PartialEqSpecImpl for Value {
    open spec fn obeys_eq_spec() -> bool {
        true
    }

    open spec fn eq_spec(&self, other: &Value) -> bool {
        self@.equals(other@)
    }
}

} // verus!
