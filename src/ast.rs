//! The syntax tree and what an expression evaluates to.
use vstd::prelude::*;

verus! {

/// A binary arithmetic operator.
#[derive(Clone, Copy, Debug, PartialEq, Eq, Structural)]
pub enum BinOp {
    Add,
    Sub,
    Mul,
    /// Signed division, the quotient truncated toward zero.
    Div,
}

/// A node of the syntax tree. Each operator node owns exactly two children;
/// a leaf holds a literal value.
#[derive(Debug, PartialEq, Eq)]
pub enum Node {
    Num(u32),
    Bin(BinOp, Box<Node>, Box<Node>),
}

/// The quotient of `a` by a nonzero `b`, truncated toward zero.
pub open spec fn trunc_div(a: int, b: int) -> int
    recommends
        b != 0,
{
    let q: int = vstd::math::abs(a) as int / vstd::math::abs(b) as int;
    if (a < 0) == (b < 0) {
        q
    } else {
        -q
    }
}

/// What an operator does to two integers; dividing by zero has no value.
pub open spec fn apply(op: BinOp, a: int, b: int) -> Option<int> {
    match op {
        BinOp::Add => Some(a + b),
        BinOp::Sub => Some(a - b),
        BinOp::Mul => Some(a * b),
        BinOp::Div => if b == 0 {
            None
        } else {
            Some(trunc_div(a, b))
        },
    }
}

/// The value of a tree in unbounded integers, or none where it divides by zero.
pub open spec fn eval(n: Node) -> Option<int>
    decreases n,
{
    match n {
        Node::Num(v) => Some(v as int),
        Node::Bin(op, l, r) => match (eval(*l), eval(*r)) {
            (Some(a), Some(b)) => apply(op, a, b),
            _ => None,
        },
    }
}

/// Builds an operator node over two subtrees.
pub fn new_node(op: BinOp, lhs: Node, rhs: Node) -> (r: Node)
    ensures
        r matches Node::Bin(o, a, b) && o == op && *a == lhs && *b == rhs,
{
    Node::Bin(op, Box::new(lhs), Box::new(rhs))
}

/// Builds a leaf holding a literal.
pub fn new_node_num(val: u32) -> (r: Node)
    ensures
        r == Node::Num(val),
{
    Node::Num(val)
}

} // verus!
