//! Column expressions: what a new column of the pixel table holds, written over
//! the columns that the table has already.
//!
//! A [`Formula`] is a plain tree. Its view is a [`Node`], the same tree over
//! mathematical values, and every contract of the scenes speaks of nodes.
use crate::number::Number;
use vstd::prelude::*;

verus! {

/// A binary operator.
#[derive(Clone, Copy, Debug, PartialEq, Eq, Structural)]
pub enum Operator {
    Plus,
    Minus,
    Times,
    Over,
    Less,
    Greater,
    GreaterEq,
    Equal,
    And,
    Or,
}

/// A mathematical expression tree.
pub enum Node {
    /// The column of that name.
    Column(Seq<char>),
    /// A double-precision number, by its bit pattern.
    Number(u64),
    /// The missing number.
    NullNumber,
    /// The index of a sphere.
    Index(i32),
    /// The missing index.
    NullIndex,
    Truth(bool),
    Binary(Operator, Box<Node>, Box<Node>),
    IsNull(Box<Node>),
    IsNotNull(Box<Node>),
    Sqrt(Box<Node>),
    Abs(Box<Node>),
    Power(Box<Node>, Box<Node>),
    /// The second where the first is true, else the third.
    Case(Box<Node>, Box<Node>, Box<Node>),
    /// The number as an unsigned integer of 32 bits.
    Converted(Box<Node>),
    /// The same under that name.
    Named(Box<Node>, Seq<char>),
}

/// An expression tree.
#[derive(Debug, PartialEq, Eq)]
pub enum Formula {
    Column(String),
    Number(Number),
    NullNumber,
    Index(i32),
    NullIndex,
    Truth(bool),
    Binary(Operator, Box<Formula>, Box<Formula>),
    IsNull(Box<Formula>),
    IsNotNull(Box<Formula>),
    Sqrt(Box<Formula>),
    Abs(Box<Formula>),
    Power(Box<Formula>, Box<Formula>),
    Case(Box<Formula>, Box<Formula>, Box<Formula>),
}

/// The column named `name`.
pub open spec fn column(name: Seq<char>) -> Node {
    Node::Column(name)
}

/// The number with the pattern `bits`.
pub open spec fn number(bits: u64) -> Node {
    Node::Number(bits)
}

impl Node {
    pub open spec fn binary(self, op: Operator, other: Node) -> Node {
        Node::Binary(op, Box::new(self), Box::new(other))
    }

    pub open spec fn plus(self, other: Node) -> Node {
        self.binary(Operator::Plus, other)
    }

    pub open spec fn minus(self, other: Node) -> Node {
        self.binary(Operator::Minus, other)
    }

    pub open spec fn times(self, other: Node) -> Node {
        self.binary(Operator::Times, other)
    }

    pub open spec fn over(self, other: Node) -> Node {
        self.binary(Operator::Over, other)
    }

    pub open spec fn lt(self, other: Node) -> Node {
        self.binary(Operator::Less, other)
    }

    pub open spec fn gt(self, other: Node) -> Node {
        self.binary(Operator::Greater, other)
    }

    pub open spec fn gt_eq(self, other: Node) -> Node {
        self.binary(Operator::GreaterEq, other)
    }

    pub open spec fn equals(self, other: Node) -> Node {
        self.binary(Operator::Equal, other)
    }

    pub open spec fn and(self, other: Node) -> Node {
        self.binary(Operator::And, other)
    }

    pub open spec fn or(self, other: Node) -> Node {
        self.binary(Operator::Or, other)
    }

    pub open spec fn is_null(self) -> Node {
        Node::IsNull(Box::new(self))
    }

    pub open spec fn is_not_null(self) -> Node {
        Node::IsNotNull(Box::new(self))
    }

    pub open spec fn sqrt(self) -> Node {
        Node::Sqrt(Box::new(self))
    }

    pub open spec fn abs(self) -> Node {
        Node::Abs(Box::new(self))
    }

    pub open spec fn power(self, exponent: Node) -> Node {
        Node::Power(Box::new(self), Box::new(exponent))
    }

    /// `value` where `self` is true, else `otherwise`.
    pub open spec fn case(self, value: Node, otherwise: Node) -> Node {
        Node::Case(Box::new(self), Box::new(value), Box::new(otherwise))
    }
}

impl Formula {
    /// The mathematical tree.
    pub open spec fn node(self) -> Node
        decreases self,
    {
        match self {
            Formula::Column(name) => Node::Column(name@),
            Formula::Number(number) => Node::Number(number.bits),
            Formula::NullNumber => Node::NullNumber,
            Formula::Index(index) => Node::Index(index),
            Formula::NullIndex => Node::NullIndex,
            Formula::Truth(truth) => Node::Truth(truth),
            Formula::Binary(op, a, b) => Node::Binary(op, Box::new(a.node()), Box::new(b.node())),
            Formula::IsNull(a) => Node::IsNull(Box::new(a.node())),
            Formula::IsNotNull(a) => Node::IsNotNull(Box::new(a.node())),
            Formula::Sqrt(a) => Node::Sqrt(Box::new(a.node())),
            Formula::Abs(a) => Node::Abs(Box::new(a.node())),
            Formula::Power(a, b) => Node::Power(Box::new(a.node()), Box::new(b.node())),
            Formula::Case(a, b, c) => Node::Case(
                Box::new(a.node()),
                Box::new(b.node()),
                Box::new(c.node()),
            ),
        }
    }

    /// A tree of its own with the same content.
    pub fn copy(&self) -> (expr: Formula)
        ensures
            expr@ == self@,
        decreases self,
    {
        match self {
            Formula::Column(name) => Formula::Column(name.clone()),
            Formula::Number(number) => Formula::Number(*number),
            Formula::NullNumber => Formula::NullNumber,
            Formula::Index(index) => Formula::Index(*index),
            Formula::NullIndex => Formula::NullIndex,
            Formula::Truth(truth) => Formula::Truth(*truth),
            Formula::Binary(op, a, b) => Formula::Binary(*op, Box::new(a.copy()), Box::new(b.copy())),
            Formula::IsNull(a) => Formula::IsNull(Box::new(a.copy())),
            Formula::IsNotNull(a) => Formula::IsNotNull(Box::new(a.copy())),
            Formula::Sqrt(a) => Formula::Sqrt(Box::new(a.copy())),
            Formula::Abs(a) => Formula::Abs(Box::new(a.copy())),
            Formula::Power(a, b) => Formula::Power(Box::new(a.copy()), Box::new(b.copy())),
            Formula::Case(a, b, c) => Formula::Case(
                Box::new(a.copy()),
                Box::new(b.copy()),
                Box::new(c.copy()),
            ),
        }
    }

    fn binary(self, op: Operator, other: Formula) -> (expr: Formula)
        ensures
            expr@ == self@.binary(op, other@),
    {
        Formula::Binary(op, Box::new(self), Box::new(other))
    }

    pub fn plus(self, other: Formula) -> (expr: Formula)
        ensures
            expr@ == self@.plus(other@),
    {
        self.binary(Operator::Plus, other)
    }

    pub fn minus(self, other: Formula) -> (expr: Formula)
        ensures
            expr@ == self@.minus(other@),
    {
        self.binary(Operator::Minus, other)
    }

    pub fn times(self, other: Formula) -> (expr: Formula)
        ensures
            expr@ == self@.times(other@),
    {
        self.binary(Operator::Times, other)
    }

    pub fn over(self, other: Formula) -> (expr: Formula)
        ensures
            expr@ == self@.over(other@),
    {
        self.binary(Operator::Over, other)
    }

    pub fn lt(self, other: Formula) -> (expr: Formula)
        ensures
            expr@ == self@.lt(other@),
    {
        self.binary(Operator::Less, other)
    }

    pub fn gt(self, other: Formula) -> (expr: Formula)
        ensures
            expr@ == self@.gt(other@),
    {
        self.binary(Operator::Greater, other)
    }

    pub fn gt_eq(self, other: Formula) -> (expr: Formula)
        ensures
            expr@ == self@.gt_eq(other@),
    {
        self.binary(Operator::GreaterEq, other)
    }

    pub fn equals(self, other: Formula) -> (expr: Formula)
        ensures
            expr@ == self@.equals(other@),
    {
        self.binary(Operator::Equal, other)
    }

    pub fn and(self, other: Formula) -> (expr: Formula)
        ensures
            expr@ == self@.and(other@),
    {
        self.binary(Operator::And, other)
    }

    pub fn or(self, other: Formula) -> (expr: Formula)
        ensures
            expr@ == self@.or(other@),
    {
        self.binary(Operator::Or, other)
    }

    pub fn is_null(self) -> (expr: Formula)
        ensures
            expr@ == self@.is_null(),
    {
        Formula::IsNull(Box::new(self))
    }

    pub fn is_not_null(self) -> (expr: Formula)
        ensures
            expr@ == self@.is_not_null(),
    {
        Formula::IsNotNull(Box::new(self))
    }

    pub fn sqrt(self) -> (expr: Formula)
        ensures
            expr@ == self@.sqrt(),
    {
        Formula::Sqrt(Box::new(self))
    }

    pub fn abs(self) -> (expr: Formula)
        ensures
            expr@ == self@.abs(),
    {
        Formula::Abs(Box::new(self))
    }

    pub fn power(self, exponent: Formula) -> (expr: Formula)
        ensures
            expr@ == self@.power(exponent@),
    {
        Formula::Power(Box::new(self), Box::new(exponent))
    }

    /// `value` where `self` is true, else `otherwise`.
    pub fn case(self, value: Formula, otherwise: Formula) -> (expr: Formula)
        ensures
            expr@ == self@.case(value@, otherwise@),
    {
        Formula::Case(Box::new(self), Box::new(value), Box::new(otherwise))
    }
}

impl View for Formula {
    type V = Node;

    open spec fn view(&self) -> Node {
        self.node()
    }
}

/// The column named `name`.
pub fn col(name: &str) -> (expr: Formula)
    ensures
        expr@ == column(name@),
{
    Formula::Column(name.to_owned())
}

/// A number.
pub fn lit(n: Number) -> (expr: Formula)
    ensures
        expr@ == number(n.bits),
{
    Formula::Number(n)
}

/// The number with the pattern `bits`.
pub fn num(bits: u64) -> (expr: Formula)
    ensures
        expr@ == number(bits),
{
    Formula::Number(Number { bits })
}

} // verus!
