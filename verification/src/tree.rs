//! The finished expression tree.
//!
//! A tree is finite, immutable and unshared: every non-leaf node owns its
//! children outright, with exactly the arity its kind implies. Variables
//! appear only as dense integer indices into the ordered variable table
//! built during parsing; the tree never stores a name.

use vstd::prelude::*;

verus! {

/// One node of an expression tree, owning its children.
///
/// A 64-bit float literal keeps the decimal text it was scanned from
/// (digits with exactly one `.`); consumers convert it at the boundary.
/// The two root kinds differ only in their stated semantics: `IntRoot`
/// is the floored n-th root, `Root` the plain n-th root. For both, the
/// left child is the root degree and the right child the radicand.
#[derive(Debug, PartialEq)]
pub enum ExpressionTree {
    UnsignedIntLiteral(u64),
    SignedIntLiteral(i64),
    Float64Literal(String),
    TrueLiteral,
    FalseLiteral,
    Variable(usize),
    Negation(Box<ExpressionTree>),
    Reciprocal(Box<ExpressionTree>),
    Square(Box<ExpressionTree>),
    Cube(Box<ExpressionTree>),
    SquareRoot(Box<ExpressionTree>),
    CubeRoot(Box<ExpressionTree>),
    Addition(Box<ExpressionTree>, Box<ExpressionTree>),
    Subtraction(Box<ExpressionTree>, Box<ExpressionTree>),
    Multiplication(Box<ExpressionTree>, Box<ExpressionTree>),
    Division(Box<ExpressionTree>, Box<ExpressionTree>),
    IntDivision(Box<ExpressionTree>, Box<ExpressionTree>),
    Modulo(Box<ExpressionTree>, Box<ExpressionTree>),
    Power(Box<ExpressionTree>, Box<ExpressionTree>),
    Root(Box<ExpressionTree>, Box<ExpressionTree>),
    IntRoot(Box<ExpressionTree>, Box<ExpressionTree>),
}

/// The mathematical value of an [`ExpressionTree`]: the same shape with
/// literal text as a sequence of Unicode scalar values.
#[verifier::ext_equal]
pub enum TreeV {
    UnsignedIntLiteral(u64),
    SignedIntLiteral(i64),
    Float64Literal(Seq<char>),
    TrueLiteral,
    FalseLiteral,
    Variable(usize),
    Negation(Box<TreeV>),
    Reciprocal(Box<TreeV>),
    Square(Box<TreeV>),
    Cube(Box<TreeV>),
    SquareRoot(Box<TreeV>),
    CubeRoot(Box<TreeV>),
    Addition(Box<TreeV>, Box<TreeV>),
    Subtraction(Box<TreeV>, Box<TreeV>),
    Multiplication(Box<TreeV>, Box<TreeV>),
    Division(Box<TreeV>, Box<TreeV>),
    IntDivision(Box<TreeV>, Box<TreeV>),
    Modulo(Box<TreeV>, Box<TreeV>),
    Power(Box<TreeV>, Box<TreeV>),
    Root(Box<TreeV>, Box<TreeV>),
    IntRoot(Box<TreeV>, Box<TreeV>),
}

/// The view of a tree node, kind for kind.
pub open spec fn tree_view(t: ExpressionTree) -> TreeV
    decreases t,
{
    match t {
        ExpressionTree::UnsignedIntLiteral(v) => TreeV::UnsignedIntLiteral(v),
        ExpressionTree::SignedIntLiteral(v) => TreeV::SignedIntLiteral(v),
        ExpressionTree::Float64Literal(s) => TreeV::Float64Literal(s@),
        ExpressionTree::TrueLiteral => TreeV::TrueLiteral,
        ExpressionTree::FalseLiteral => TreeV::FalseLiteral,
        ExpressionTree::Variable(i) => TreeV::Variable(i),
        ExpressionTree::Negation(a) => TreeV::Negation(Box::new(tree_view(*a))),
        ExpressionTree::Reciprocal(a) => TreeV::Reciprocal(Box::new(tree_view(*a))),
        ExpressionTree::Square(a) => TreeV::Square(Box::new(tree_view(*a))),
        ExpressionTree::Cube(a) => TreeV::Cube(Box::new(tree_view(*a))),
        ExpressionTree::SquareRoot(a) => TreeV::SquareRoot(Box::new(tree_view(*a))),
        ExpressionTree::CubeRoot(a) => TreeV::CubeRoot(Box::new(tree_view(*a))),
        ExpressionTree::Addition(a, b) => TreeV::Addition(
            Box::new(tree_view(*a)),
            Box::new(tree_view(*b)),
        ),
        ExpressionTree::Subtraction(a, b) => TreeV::Subtraction(
            Box::new(tree_view(*a)),
            Box::new(tree_view(*b)),
        ),
        ExpressionTree::Multiplication(a, b) => TreeV::Multiplication(
            Box::new(tree_view(*a)),
            Box::new(tree_view(*b)),
        ),
        ExpressionTree::Division(a, b) => TreeV::Division(
            Box::new(tree_view(*a)),
            Box::new(tree_view(*b)),
        ),
        ExpressionTree::IntDivision(a, b) => TreeV::IntDivision(
            Box::new(tree_view(*a)),
            Box::new(tree_view(*b)),
        ),
        ExpressionTree::Modulo(a, b) => TreeV::Modulo(
            Box::new(tree_view(*a)),
            Box::new(tree_view(*b)),
        ),
        ExpressionTree::Power(a, b) => TreeV::Power(
            Box::new(tree_view(*a)),
            Box::new(tree_view(*b)),
        ),
        ExpressionTree::Root(a, b) => TreeV::Root(Box::new(tree_view(*a)), Box::new(tree_view(*b))),
        ExpressionTree::IntRoot(a, b) => TreeV::IntRoot(
            Box::new(tree_view(*a)),
            Box::new(tree_view(*b)),
        ),
    }
}

impl View for ExpressionTree {
    type V = TreeV;

    open spec fn view(&self) -> TreeV {
        tree_view(*self)
    }
}

} // verus!
