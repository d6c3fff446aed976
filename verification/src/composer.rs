//! The composition interface: the single seam between a finished
//! expression tree and any back end.
//!
//! A consumer supplies one operation per node kind; the engine folds a
//! tree bottom-up, handing each operation the already-reduced values of
//! the node's children. The order of that walk is not taken on faith:
//! the engine drives the consumer from [`postorder`], whose contract
//! pins the exact operation sequence of every tree, and
//! [`lemma_postorder_rebuilds`] shows that the sequence determines the
//! tree completely. A floating-point evaluator and an
//! interchange-format encoder are both written against this one trait;
//! an error from the consumer is propagated unchanged, never swallowed.

use vstd::prelude::*;
use crate::tree::ExpressionTree;
use crate::tree::TreeV;

verus! {

/// One operation per tree-node kind, folding a tree into values of `T`.
///
/// Each binary operation receives the reduced left and right children in
/// that order; for the two root kinds the left child is the root degree
/// and the right child the radicand. A float literal arrives as its
/// decimal text. `compose_variable` receives the variable's dense index
/// into the variable table; a consumer that cannot resolve an index
/// reports its own error rather than substituting a default.
pub trait Composer<T> {
    type Error;

    fn compose_unsigned_int_literal(&mut self, value: u64) -> Result<T, Self::Error>;

    fn compose_signed_int_literal(&mut self, value: i64) -> Result<T, Self::Error>;

    fn compose_float64_literal(&mut self, text: &str) -> Result<T, Self::Error>;

    fn compose_true_literal(&mut self) -> Result<T, Self::Error>;

    fn compose_false_literal(&mut self) -> Result<T, Self::Error>;

    fn compose_variable(&mut self, index: usize) -> Result<T, Self::Error>;

    fn compose_negation(&mut self, inner: T) -> Result<T, Self::Error>;

    fn compose_reciprocal(&mut self, inner: T) -> Result<T, Self::Error>;

    fn compose_square(&mut self, inner: T) -> Result<T, Self::Error>;

    fn compose_cube(&mut self, inner: T) -> Result<T, Self::Error>;

    fn compose_square_root(&mut self, inner: T) -> Result<T, Self::Error>;

    fn compose_cube_root(&mut self, inner: T) -> Result<T, Self::Error>;

    fn compose_addition(&mut self, lhs: T, rhs: T) -> Result<T, Self::Error>;

    fn compose_subtraction(&mut self, lhs: T, rhs: T) -> Result<T, Self::Error>;

    fn compose_multiplication(&mut self, lhs: T, rhs: T) -> Result<T, Self::Error>;

    fn compose_division(&mut self, lhs: T, rhs: T) -> Result<T, Self::Error>;

    fn compose_int_division(&mut self, lhs: T, rhs: T) -> Result<T, Self::Error>;

    fn compose_modulo(&mut self, lhs: T, rhs: T) -> Result<T, Self::Error>;

    fn compose_power(&mut self, lhs: T, rhs: T) -> Result<T, Self::Error>;

    fn compose_root(&mut self, lhs: T, rhs: T) -> Result<T, Self::Error>;

    fn compose_int_root(&mut self, lhs: T, rhs: T) -> Result<T, Self::Error>;
}

/// One step of the bottom-up walk over a tree: a leaf operation pushes
/// a value, a unary operation consumes the one value on top, a binary
/// operation consumes the top two (left below right).
#[derive(Debug, PartialEq)]
pub enum NodeOp {
    UnsignedIntLiteral(u64),
    SignedIntLiteral(i64),
    Float64Literal(String),
    TrueLiteral,
    FalseLiteral,
    Variable(usize),
    Negation,
    Reciprocal,
    Square,
    Cube,
    SquareRoot,
    CubeRoot,
    Addition,
    Subtraction,
    Multiplication,
    Division,
    IntDivision,
    Modulo,
    Power,
    Root,
    IntRoot,
}

/// The mathematical value of a [`NodeOp`].
#[verifier::ext_equal]
pub enum NodeOpV {
    UnsignedIntLiteral(u64),
    SignedIntLiteral(i64),
    Float64Literal(Seq<char>),
    TrueLiteral,
    FalseLiteral,
    Variable(usize),
    Negation,
    Reciprocal,
    Square,
    Cube,
    SquareRoot,
    CubeRoot,
    Addition,
    Subtraction,
    Multiplication,
    Division,
    IntDivision,
    Modulo,
    Power,
    Root,
    IntRoot,
}

impl View for NodeOp {
    type V = NodeOpV;

    open spec fn view(&self) -> NodeOpV {
        match self {
            NodeOp::UnsignedIntLiteral(v) => NodeOpV::UnsignedIntLiteral(*v),
            NodeOp::SignedIntLiteral(v) => NodeOpV::SignedIntLiteral(*v),
            NodeOp::Float64Literal(s) => NodeOpV::Float64Literal(s@),
            NodeOp::TrueLiteral => NodeOpV::TrueLiteral,
            NodeOp::FalseLiteral => NodeOpV::FalseLiteral,
            NodeOp::Variable(v) => NodeOpV::Variable(*v),
            NodeOp::Negation => NodeOpV::Negation,
            NodeOp::Reciprocal => NodeOpV::Reciprocal,
            NodeOp::Square => NodeOpV::Square,
            NodeOp::Cube => NodeOpV::Cube,
            NodeOp::SquareRoot => NodeOpV::SquareRoot,
            NodeOp::CubeRoot => NodeOpV::CubeRoot,
            NodeOp::Addition => NodeOpV::Addition,
            NodeOp::Subtraction => NodeOpV::Subtraction,
            NodeOp::Multiplication => NodeOpV::Multiplication,
            NodeOp::Division => NodeOpV::Division,
            NodeOp::IntDivision => NodeOpV::IntDivision,
            NodeOp::Modulo => NodeOpV::Modulo,
            NodeOp::Power => NodeOpV::Power,
            NodeOp::Root => NodeOpV::Root,
            NodeOp::IntRoot => NodeOpV::IntRoot,
        }
    }
}

/// The views of a sequence of operations.
pub open spec fn ops_view(v: Seq<NodeOp>) -> Seq<NodeOpV> {
    v.map(|i: int, op: NodeOp| op@)
}

/// The post-order operation sequence of a tree: each node's children
/// come before it, the left child's operations before the right's, and
/// the whole tree's root comes last.
pub open spec fn postorder_spec(t: TreeV) -> Seq<NodeOpV>
    decreases t,
{
    match t {
        TreeV::UnsignedIntLiteral(v) => seq![NodeOpV::UnsignedIntLiteral(v)],
        TreeV::SignedIntLiteral(v) => seq![NodeOpV::SignedIntLiteral(v)],
        TreeV::Float64Literal(s) => seq![NodeOpV::Float64Literal(s)],
        TreeV::TrueLiteral => seq![NodeOpV::TrueLiteral],
        TreeV::FalseLiteral => seq![NodeOpV::FalseLiteral],
        TreeV::Variable(v) => seq![NodeOpV::Variable(v)],
        TreeV::Negation(a) => postorder_spec(*a) + seq![NodeOpV::Negation],
        TreeV::Reciprocal(a) => postorder_spec(*a) + seq![NodeOpV::Reciprocal],
        TreeV::Square(a) => postorder_spec(*a) + seq![NodeOpV::Square],
        TreeV::Cube(a) => postorder_spec(*a) + seq![NodeOpV::Cube],
        TreeV::SquareRoot(a) => postorder_spec(*a) + seq![NodeOpV::SquareRoot],
        TreeV::CubeRoot(a) => postorder_spec(*a) + seq![NodeOpV::CubeRoot],
        TreeV::Addition(a, b) => postorder_spec(*a) + postorder_spec(*b) + seq![NodeOpV::Addition],
        TreeV::Subtraction(a, b) => postorder_spec(*a) + postorder_spec(*b) + seq![NodeOpV::Subtraction],
        TreeV::Multiplication(a, b) => postorder_spec(*a) + postorder_spec(*b) + seq![NodeOpV::Multiplication],
        TreeV::Division(a, b) => postorder_spec(*a) + postorder_spec(*b) + seq![NodeOpV::Division],
        TreeV::IntDivision(a, b) => postorder_spec(*a) + postorder_spec(*b) + seq![NodeOpV::IntDivision],
        TreeV::Modulo(a, b) => postorder_spec(*a) + postorder_spec(*b) + seq![NodeOpV::Modulo],
        TreeV::Power(a, b) => postorder_spec(*a) + postorder_spec(*b) + seq![NodeOpV::Power],
        TreeV::Root(a, b) => postorder_spec(*a) + postorder_spec(*b) + seq![NodeOpV::Root],
        TreeV::IntRoot(a, b) => postorder_spec(*a) + postorder_spec(*b) + seq![NodeOpV::IntRoot],
    }
}

/// One operation replayed over a stack of trees: a leaf pushes its
/// node, a unary or binary operation pops its children and pushes the
/// node built from them, and an operation with too few values on the
/// stack gets stuck.
pub open spec fn apply_op(op: NodeOpV, stack: Seq<TreeV>) -> Option<Seq<TreeV>> {
    match op {
        NodeOpV::UnsignedIntLiteral(v) => Some(stack.push(TreeV::UnsignedIntLiteral(v))),
        NodeOpV::SignedIntLiteral(v) => Some(stack.push(TreeV::SignedIntLiteral(v))),
        NodeOpV::Float64Literal(s) => Some(stack.push(TreeV::Float64Literal(s))),
        NodeOpV::TrueLiteral => Some(stack.push(TreeV::TrueLiteral)),
        NodeOpV::FalseLiteral => Some(stack.push(TreeV::FalseLiteral)),
        NodeOpV::Variable(v) => Some(stack.push(TreeV::Variable(v))),
        NodeOpV::Negation => {
            if stack.len() >= 1 {
                Some(stack.drop_last().push(TreeV::Negation(Box::new(stack.last()))))
            } else {
                None
            }
        },
        NodeOpV::Reciprocal => {
            if stack.len() >= 1 {
                Some(stack.drop_last().push(TreeV::Reciprocal(Box::new(stack.last()))))
            } else {
                None
            }
        },
        NodeOpV::Square => {
            if stack.len() >= 1 {
                Some(stack.drop_last().push(TreeV::Square(Box::new(stack.last()))))
            } else {
                None
            }
        },
        NodeOpV::Cube => {
            if stack.len() >= 1 {
                Some(stack.drop_last().push(TreeV::Cube(Box::new(stack.last()))))
            } else {
                None
            }
        },
        NodeOpV::SquareRoot => {
            if stack.len() >= 1 {
                Some(stack.drop_last().push(TreeV::SquareRoot(Box::new(stack.last()))))
            } else {
                None
            }
        },
        NodeOpV::CubeRoot => {
            if stack.len() >= 1 {
                Some(stack.drop_last().push(TreeV::CubeRoot(Box::new(stack.last()))))
            } else {
                None
            }
        },
        NodeOpV::Addition => {
            if stack.len() >= 2 {
                Some(
                    stack.subrange(0, stack.len() - 2).push(
                        TreeV::Addition(
                            Box::new(stack[stack.len() - 2]),
                            Box::new(stack[stack.len() - 1]),
                        ),
                    ),
                )
            } else {
                None
            }
        },
        NodeOpV::Subtraction => {
            if stack.len() >= 2 {
                Some(
                    stack.subrange(0, stack.len() - 2).push(
                        TreeV::Subtraction(
                            Box::new(stack[stack.len() - 2]),
                            Box::new(stack[stack.len() - 1]),
                        ),
                    ),
                )
            } else {
                None
            }
        },
        NodeOpV::Multiplication => {
            if stack.len() >= 2 {
                Some(
                    stack.subrange(0, stack.len() - 2).push(
                        TreeV::Multiplication(
                            Box::new(stack[stack.len() - 2]),
                            Box::new(stack[stack.len() - 1]),
                        ),
                    ),
                )
            } else {
                None
            }
        },
        NodeOpV::Division => {
            if stack.len() >= 2 {
                Some(
                    stack.subrange(0, stack.len() - 2).push(
                        TreeV::Division(
                            Box::new(stack[stack.len() - 2]),
                            Box::new(stack[stack.len() - 1]),
                        ),
                    ),
                )
            } else {
                None
            }
        },
        NodeOpV::IntDivision => {
            if stack.len() >= 2 {
                Some(
                    stack.subrange(0, stack.len() - 2).push(
                        TreeV::IntDivision(
                            Box::new(stack[stack.len() - 2]),
                            Box::new(stack[stack.len() - 1]),
                        ),
                    ),
                )
            } else {
                None
            }
        },
        NodeOpV::Modulo => {
            if stack.len() >= 2 {
                Some(
                    stack.subrange(0, stack.len() - 2).push(
                        TreeV::Modulo(
                            Box::new(stack[stack.len() - 2]),
                            Box::new(stack[stack.len() - 1]),
                        ),
                    ),
                )
            } else {
                None
            }
        },
        NodeOpV::Power => {
            if stack.len() >= 2 {
                Some(
                    stack.subrange(0, stack.len() - 2).push(
                        TreeV::Power(
                            Box::new(stack[stack.len() - 2]),
                            Box::new(stack[stack.len() - 1]),
                        ),
                    ),
                )
            } else {
                None
            }
        },
        NodeOpV::Root => {
            if stack.len() >= 2 {
                Some(
                    stack.subrange(0, stack.len() - 2).push(
                        TreeV::Root(
                            Box::new(stack[stack.len() - 2]),
                            Box::new(stack[stack.len() - 1]),
                        ),
                    ),
                )
            } else {
                None
            }
        },
        NodeOpV::IntRoot => {
            if stack.len() >= 2 {
                Some(
                    stack.subrange(0, stack.len() - 2).push(
                        TreeV::IntRoot(
                            Box::new(stack[stack.len() - 2]),
                            Box::new(stack[stack.len() - 1]),
                        ),
                    ),
                )
            } else {
                None
            }
        },
    }
}

/// A whole operation sequence replayed over a stack of trees, stopping
/// at the first stuck operation.
pub open spec fn rebuild(ops: Seq<NodeOpV>, stack: Seq<TreeV>) -> Option<Seq<TreeV>>
    decreases ops.len(),
{
    if ops.len() == 0 {
        Some(stack)
    } else {
        match apply_op(ops.first(), stack) {
            None => None,
            Some(s2) => rebuild(ops.drop_first(), s2),
        }
    }
}

/// Replaying splits over concatenation: the first part runs first, and
/// a stuck first part sticks the whole run.
proof fn lemma_rebuild_concat(a: Seq<NodeOpV>, b: Seq<NodeOpV>, stack: Seq<TreeV>)
    ensures
        rebuild(a + b, stack) == (match rebuild(a, stack) {
            Some(mid) => rebuild(b, mid),
            None => None,
        }),
    decreases a.len(),
{
    if a.len() == 0 {
        assert(a + b =~= b);
    } else {
        assert((a + b).first() == a.first());
        assert((a + b).drop_first() =~= a.drop_first() + b);
        match apply_op(a.first(), stack) {
            None => {},
            Some(s2) => {
                lemma_rebuild_concat(a.drop_first(), b, s2);
            },
        }
    }
}

/// Replaying a tree's whole post-order sequence pushes exactly that
/// tree.
proof fn lemma_postorder_rebuild_push(t: TreeV, rest: Seq<NodeOpV>, stack: Seq<TreeV>)
    ensures
        rebuild(postorder_spec(t) + rest, stack) == rebuild(rest, stack.push(t)),
    decreases t,
{
    match t {
        TreeV::UnsignedIntLiteral(v) => {
            assert((postorder_spec(t) + rest).first() == NodeOpV::UnsignedIntLiteral(v));
            assert((postorder_spec(t) + rest).drop_first() =~= rest);
        },
        TreeV::SignedIntLiteral(v) => {
            assert((postorder_spec(t) + rest).first() == NodeOpV::SignedIntLiteral(v));
            assert((postorder_spec(t) + rest).drop_first() =~= rest);
        },
        TreeV::Float64Literal(s) => {
            assert((postorder_spec(t) + rest).first() == NodeOpV::Float64Literal(s));
            assert((postorder_spec(t) + rest).drop_first() =~= rest);
        },
        TreeV::TrueLiteral => {
            assert((postorder_spec(t) + rest).first() == NodeOpV::TrueLiteral);
            assert((postorder_spec(t) + rest).drop_first() =~= rest);
        },
        TreeV::FalseLiteral => {
            assert((postorder_spec(t) + rest).first() == NodeOpV::FalseLiteral);
            assert((postorder_spec(t) + rest).drop_first() =~= rest);
        },
        TreeV::Variable(v) => {
            assert((postorder_spec(t) + rest).first() == NodeOpV::Variable(v));
            assert((postorder_spec(t) + rest).drop_first() =~= rest);
        },
        TreeV::Negation(a) => {
            lemma_postorder_rebuild_push(*a, seq![NodeOpV::Negation] + rest, stack);
            assert(postorder_spec(t) + rest =~= postorder_spec(*a) + (seq![NodeOpV::Negation]
                + rest));
            let s1 = stack.push(*a);
            assert((seq![NodeOpV::Negation] + rest).first() == NodeOpV::Negation);
            assert((seq![NodeOpV::Negation] + rest).drop_first() =~= rest);
            assert(s1.drop_last() =~= stack);
            assert(s1.last() == *a);
            assert(TreeV::Negation(Box::new(s1.last())) == t);
        },
        TreeV::Reciprocal(a) => {
            lemma_postorder_rebuild_push(*a, seq![NodeOpV::Reciprocal] + rest, stack);
            assert(postorder_spec(t) + rest =~= postorder_spec(*a) + (seq![NodeOpV::Reciprocal]
                + rest));
            let s1 = stack.push(*a);
            assert((seq![NodeOpV::Reciprocal] + rest).first() == NodeOpV::Reciprocal);
            assert((seq![NodeOpV::Reciprocal] + rest).drop_first() =~= rest);
            assert(s1.drop_last() =~= stack);
            assert(s1.last() == *a);
            assert(TreeV::Reciprocal(Box::new(s1.last())) == t);
        },
        TreeV::Square(a) => {
            lemma_postorder_rebuild_push(*a, seq![NodeOpV::Square] + rest, stack);
            assert(postorder_spec(t) + rest =~= postorder_spec(*a) + (seq![NodeOpV::Square]
                + rest));
            let s1 = stack.push(*a);
            assert((seq![NodeOpV::Square] + rest).first() == NodeOpV::Square);
            assert((seq![NodeOpV::Square] + rest).drop_first() =~= rest);
            assert(s1.drop_last() =~= stack);
            assert(s1.last() == *a);
            assert(TreeV::Square(Box::new(s1.last())) == t);
        },
        TreeV::Cube(a) => {
            lemma_postorder_rebuild_push(*a, seq![NodeOpV::Cube] + rest, stack);
            assert(postorder_spec(t) + rest =~= postorder_spec(*a) + (seq![NodeOpV::Cube]
                + rest));
            let s1 = stack.push(*a);
            assert((seq![NodeOpV::Cube] + rest).first() == NodeOpV::Cube);
            assert((seq![NodeOpV::Cube] + rest).drop_first() =~= rest);
            assert(s1.drop_last() =~= stack);
            assert(s1.last() == *a);
            assert(TreeV::Cube(Box::new(s1.last())) == t);
        },
        TreeV::SquareRoot(a) => {
            lemma_postorder_rebuild_push(*a, seq![NodeOpV::SquareRoot] + rest, stack);
            assert(postorder_spec(t) + rest =~= postorder_spec(*a) + (seq![NodeOpV::SquareRoot]
                + rest));
            let s1 = stack.push(*a);
            assert((seq![NodeOpV::SquareRoot] + rest).first() == NodeOpV::SquareRoot);
            assert((seq![NodeOpV::SquareRoot] + rest).drop_first() =~= rest);
            assert(s1.drop_last() =~= stack);
            assert(s1.last() == *a);
            assert(TreeV::SquareRoot(Box::new(s1.last())) == t);
        },
        TreeV::CubeRoot(a) => {
            lemma_postorder_rebuild_push(*a, seq![NodeOpV::CubeRoot] + rest, stack);
            assert(postorder_spec(t) + rest =~= postorder_spec(*a) + (seq![NodeOpV::CubeRoot]
                + rest));
            let s1 = stack.push(*a);
            assert((seq![NodeOpV::CubeRoot] + rest).first() == NodeOpV::CubeRoot);
            assert((seq![NodeOpV::CubeRoot] + rest).drop_first() =~= rest);
            assert(s1.drop_last() =~= stack);
            assert(s1.last() == *a);
            assert(TreeV::CubeRoot(Box::new(s1.last())) == t);
        },
        TreeV::Addition(a, b) => {
            lemma_postorder_rebuild_push(
                *a,
                postorder_spec(*b) + (seq![NodeOpV::Addition] + rest),
                stack,
            );
            lemma_postorder_rebuild_push(*b, seq![NodeOpV::Addition] + rest, stack.push(*a));
            assert(postorder_spec(t) + rest =~= postorder_spec(*a) + (postorder_spec(*b) + (
            seq![NodeOpV::Addition] + rest)));
            let s2 = stack.push(*a).push(*b);
            assert((seq![NodeOpV::Addition] + rest).first() == NodeOpV::Addition);
            assert((seq![NodeOpV::Addition] + rest).drop_first() =~= rest);
            assert(s2.subrange(0, s2.len() - 2) =~= stack);
            assert(s2[s2.len() - 2] == *a && s2[s2.len() - 1] == *b);
            assert(TreeV::Addition(Box::new(s2[s2.len() - 2]), Box::new(s2[s2.len() - 1])) == t);
        },
        TreeV::Subtraction(a, b) => {
            lemma_postorder_rebuild_push(
                *a,
                postorder_spec(*b) + (seq![NodeOpV::Subtraction] + rest),
                stack,
            );
            lemma_postorder_rebuild_push(*b, seq![NodeOpV::Subtraction] + rest, stack.push(*a));
            assert(postorder_spec(t) + rest =~= postorder_spec(*a) + (postorder_spec(*b) + (
            seq![NodeOpV::Subtraction] + rest)));
            let s2 = stack.push(*a).push(*b);
            assert((seq![NodeOpV::Subtraction] + rest).first() == NodeOpV::Subtraction);
            assert((seq![NodeOpV::Subtraction] + rest).drop_first() =~= rest);
            assert(s2.subrange(0, s2.len() - 2) =~= stack);
            assert(s2[s2.len() - 2] == *a && s2[s2.len() - 1] == *b);
            assert(TreeV::Subtraction(Box::new(s2[s2.len() - 2]), Box::new(s2[s2.len() - 1])) == t);
        },
        TreeV::Multiplication(a, b) => {
            lemma_postorder_rebuild_push(
                *a,
                postorder_spec(*b) + (seq![NodeOpV::Multiplication] + rest),
                stack,
            );
            lemma_postorder_rebuild_push(*b, seq![NodeOpV::Multiplication] + rest, stack.push(*a));
            assert(postorder_spec(t) + rest =~= postorder_spec(*a) + (postorder_spec(*b) + (
            seq![NodeOpV::Multiplication] + rest)));
            let s2 = stack.push(*a).push(*b);
            assert((seq![NodeOpV::Multiplication] + rest).first() == NodeOpV::Multiplication);
            assert((seq![NodeOpV::Multiplication] + rest).drop_first() =~= rest);
            assert(s2.subrange(0, s2.len() - 2) =~= stack);
            assert(s2[s2.len() - 2] == *a && s2[s2.len() - 1] == *b);
            assert(TreeV::Multiplication(Box::new(s2[s2.len() - 2]), Box::new(s2[s2.len() - 1])) == t);
        },
        TreeV::Division(a, b) => {
            lemma_postorder_rebuild_push(
                *a,
                postorder_spec(*b) + (seq![NodeOpV::Division] + rest),
                stack,
            );
            lemma_postorder_rebuild_push(*b, seq![NodeOpV::Division] + rest, stack.push(*a));
            assert(postorder_spec(t) + rest =~= postorder_spec(*a) + (postorder_spec(*b) + (
            seq![NodeOpV::Division] + rest)));
            let s2 = stack.push(*a).push(*b);
            assert((seq![NodeOpV::Division] + rest).first() == NodeOpV::Division);
            assert((seq![NodeOpV::Division] + rest).drop_first() =~= rest);
            assert(s2.subrange(0, s2.len() - 2) =~= stack);
            assert(s2[s2.len() - 2] == *a && s2[s2.len() - 1] == *b);
            assert(TreeV::Division(Box::new(s2[s2.len() - 2]), Box::new(s2[s2.len() - 1])) == t);
        },
        TreeV::IntDivision(a, b) => {
            lemma_postorder_rebuild_push(
                *a,
                postorder_spec(*b) + (seq![NodeOpV::IntDivision] + rest),
                stack,
            );
            lemma_postorder_rebuild_push(*b, seq![NodeOpV::IntDivision] + rest, stack.push(*a));
            assert(postorder_spec(t) + rest =~= postorder_spec(*a) + (postorder_spec(*b) + (
            seq![NodeOpV::IntDivision] + rest)));
            let s2 = stack.push(*a).push(*b);
            assert((seq![NodeOpV::IntDivision] + rest).first() == NodeOpV::IntDivision);
            assert((seq![NodeOpV::IntDivision] + rest).drop_first() =~= rest);
            assert(s2.subrange(0, s2.len() - 2) =~= stack);
            assert(s2[s2.len() - 2] == *a && s2[s2.len() - 1] == *b);
            assert(TreeV::IntDivision(Box::new(s2[s2.len() - 2]), Box::new(s2[s2.len() - 1])) == t);
        },
        TreeV::Modulo(a, b) => {
            lemma_postorder_rebuild_push(
                *a,
                postorder_spec(*b) + (seq![NodeOpV::Modulo] + rest),
                stack,
            );
            lemma_postorder_rebuild_push(*b, seq![NodeOpV::Modulo] + rest, stack.push(*a));
            assert(postorder_spec(t) + rest =~= postorder_spec(*a) + (postorder_spec(*b) + (
            seq![NodeOpV::Modulo] + rest)));
            let s2 = stack.push(*a).push(*b);
            assert((seq![NodeOpV::Modulo] + rest).first() == NodeOpV::Modulo);
            assert((seq![NodeOpV::Modulo] + rest).drop_first() =~= rest);
            assert(s2.subrange(0, s2.len() - 2) =~= stack);
            assert(s2[s2.len() - 2] == *a && s2[s2.len() - 1] == *b);
            assert(TreeV::Modulo(Box::new(s2[s2.len() - 2]), Box::new(s2[s2.len() - 1])) == t);
        },
        TreeV::Power(a, b) => {
            lemma_postorder_rebuild_push(
                *a,
                postorder_spec(*b) + (seq![NodeOpV::Power] + rest),
                stack,
            );
            lemma_postorder_rebuild_push(*b, seq![NodeOpV::Power] + rest, stack.push(*a));
            assert(postorder_spec(t) + rest =~= postorder_spec(*a) + (postorder_spec(*b) + (
            seq![NodeOpV::Power] + rest)));
            let s2 = stack.push(*a).push(*b);
            assert((seq![NodeOpV::Power] + rest).first() == NodeOpV::Power);
            assert((seq![NodeOpV::Power] + rest).drop_first() =~= rest);
            assert(s2.subrange(0, s2.len() - 2) =~= stack);
            assert(s2[s2.len() - 2] == *a && s2[s2.len() - 1] == *b);
            assert(TreeV::Power(Box::new(s2[s2.len() - 2]), Box::new(s2[s2.len() - 1])) == t);
        },
        TreeV::Root(a, b) => {
            lemma_postorder_rebuild_push(
                *a,
                postorder_spec(*b) + (seq![NodeOpV::Root] + rest),
                stack,
            );
            lemma_postorder_rebuild_push(*b, seq![NodeOpV::Root] + rest, stack.push(*a));
            assert(postorder_spec(t) + rest =~= postorder_spec(*a) + (postorder_spec(*b) + (
            seq![NodeOpV::Root] + rest)));
            let s2 = stack.push(*a).push(*b);
            assert((seq![NodeOpV::Root] + rest).first() == NodeOpV::Root);
            assert((seq![NodeOpV::Root] + rest).drop_first() =~= rest);
            assert(s2.subrange(0, s2.len() - 2) =~= stack);
            assert(s2[s2.len() - 2] == *a && s2[s2.len() - 1] == *b);
            assert(TreeV::Root(Box::new(s2[s2.len() - 2]), Box::new(s2[s2.len() - 1])) == t);
        },
        TreeV::IntRoot(a, b) => {
            lemma_postorder_rebuild_push(
                *a,
                postorder_spec(*b) + (seq![NodeOpV::IntRoot] + rest),
                stack,
            );
            lemma_postorder_rebuild_push(*b, seq![NodeOpV::IntRoot] + rest, stack.push(*a));
            assert(postorder_spec(t) + rest =~= postorder_spec(*a) + (postorder_spec(*b) + (
            seq![NodeOpV::IntRoot] + rest)));
            let s2 = stack.push(*a).push(*b);
            assert((seq![NodeOpV::IntRoot] + rest).first() == NodeOpV::IntRoot);
            assert((seq![NodeOpV::IntRoot] + rest).drop_first() =~= rest);
            assert(s2.subrange(0, s2.len() - 2) =~= stack);
            assert(s2[s2.len() - 2] == *a && s2[s2.len() - 1] == *b);
            assert(TreeV::IntRoot(Box::new(s2[s2.len() - 2]), Box::new(s2[s2.len() - 1])) == t);
        },
    }
}

/// The post-order sequence loses nothing: replaying it from an empty
/// stack rebuilds exactly the tree it came from, so the operations the
/// engine hands a consumer — their kinds, their payloads, their order —
/// determine the tree completely.
pub proof fn lemma_postorder_rebuilds(t: TreeV)
    ensures
        rebuild(postorder_spec(t), Seq::empty()) == Some(seq![t]),
{
    lemma_postorder_rebuild_push(t, Seq::empty(), Seq::empty());
    assert(postorder_spec(t) + Seq::<NodeOpV>::empty() =~= postorder_spec(t));
    assert(Seq::<TreeV>::empty().push(t) =~= seq![t]);
}

/// The post-order operation sequence of a tree, exactly
/// [`postorder_spec`]: children before parents, left before right, one
/// operation per node.
pub fn postorder(tree: &ExpressionTree) -> (r: Vec<NodeOp>)
    ensures
        ops_view(r@) == postorder_spec(tree@),
{
    let mut out: Vec<NodeOp> = Vec::new();
    proof {
        assert(ops_view(out@) =~= Seq::<NodeOpV>::empty());
    }
    postorder_into(tree, &mut out);
    proof {
        assert(Seq::<NodeOpV>::empty() + postorder_spec(tree@) =~= postorder_spec(tree@));
    }
    out
}

/// Appends a tree's post-order operations to an accumulator.
fn postorder_into(tree: &ExpressionTree, out: &mut Vec<NodeOp>)
    ensures
        ops_view(final(out)@) == ops_view(old(out)@) + postorder_spec(tree@),
    decreases *tree,
{
    match tree {
        ExpressionTree::UnsignedIntLiteral(v) => {
            out.push(NodeOp::UnsignedIntLiteral(*v));
            proof {
                assert(ops_view(out@) =~= ops_view(old(out)@) + postorder_spec(tree@));
            }
        },
        ExpressionTree::SignedIntLiteral(v) => {
            out.push(NodeOp::SignedIntLiteral(*v));
            proof {
                assert(ops_view(out@) =~= ops_view(old(out)@) + postorder_spec(tree@));
            }
        },
        ExpressionTree::Float64Literal(text) => {
            out.push(NodeOp::Float64Literal(text.clone()));
            proof {
                assert(ops_view(out@) =~= ops_view(old(out)@) + postorder_spec(tree@));
            }
        },
        ExpressionTree::TrueLiteral => {
            out.push(NodeOp::TrueLiteral);
            proof {
                assert(ops_view(out@) =~= ops_view(old(out)@) + postorder_spec(tree@));
            }
        },
        ExpressionTree::FalseLiteral => {
            out.push(NodeOp::FalseLiteral);
            proof {
                assert(ops_view(out@) =~= ops_view(old(out)@) + postorder_spec(tree@));
            }
        },
        ExpressionTree::Variable(v) => {
            out.push(NodeOp::Variable(*v));
            proof {
                assert(ops_view(out@) =~= ops_view(old(out)@) + postorder_spec(tree@));
            }
        },
        ExpressionTree::Negation(a) => {
            postorder_into(&**a, out);
            let ghost mid = ops_view(out@);
            out.push(NodeOp::Negation);
            proof {
                assert(ops_view(out@) =~= mid.push(NodeOpV::Negation));
                assert(postorder_spec(tree@) == postorder_spec((**a)@) + seq![NodeOpV::Negation]);
                assert(ops_view(out@) =~= ops_view(old(out)@) + postorder_spec(tree@));
            }
        },
        ExpressionTree::Reciprocal(a) => {
            postorder_into(&**a, out);
            let ghost mid = ops_view(out@);
            out.push(NodeOp::Reciprocal);
            proof {
                assert(ops_view(out@) =~= mid.push(NodeOpV::Reciprocal));
                assert(postorder_spec(tree@) == postorder_spec((**a)@) + seq![NodeOpV::Reciprocal]);
                assert(ops_view(out@) =~= ops_view(old(out)@) + postorder_spec(tree@));
            }
        },
        ExpressionTree::Square(a) => {
            postorder_into(&**a, out);
            let ghost mid = ops_view(out@);
            out.push(NodeOp::Square);
            proof {
                assert(ops_view(out@) =~= mid.push(NodeOpV::Square));
                assert(postorder_spec(tree@) == postorder_spec((**a)@) + seq![NodeOpV::Square]);
                assert(ops_view(out@) =~= ops_view(old(out)@) + postorder_spec(tree@));
            }
        },
        ExpressionTree::Cube(a) => {
            postorder_into(&**a, out);
            let ghost mid = ops_view(out@);
            out.push(NodeOp::Cube);
            proof {
                assert(ops_view(out@) =~= mid.push(NodeOpV::Cube));
                assert(postorder_spec(tree@) == postorder_spec((**a)@) + seq![NodeOpV::Cube]);
                assert(ops_view(out@) =~= ops_view(old(out)@) + postorder_spec(tree@));
            }
        },
        ExpressionTree::SquareRoot(a) => {
            postorder_into(&**a, out);
            let ghost mid = ops_view(out@);
            out.push(NodeOp::SquareRoot);
            proof {
                assert(ops_view(out@) =~= mid.push(NodeOpV::SquareRoot));
                assert(postorder_spec(tree@) == postorder_spec((**a)@) + seq![NodeOpV::SquareRoot]);
                assert(ops_view(out@) =~= ops_view(old(out)@) + postorder_spec(tree@));
            }
        },
        ExpressionTree::CubeRoot(a) => {
            postorder_into(&**a, out);
            let ghost mid = ops_view(out@);
            out.push(NodeOp::CubeRoot);
            proof {
                assert(ops_view(out@) =~= mid.push(NodeOpV::CubeRoot));
                assert(postorder_spec(tree@) == postorder_spec((**a)@) + seq![NodeOpV::CubeRoot]);
                assert(ops_view(out@) =~= ops_view(old(out)@) + postorder_spec(tree@));
            }
        },
        ExpressionTree::Addition(a, b) => {
            postorder_into(&**a, out);
            postorder_into(&**b, out);
            let ghost mid = ops_view(out@);
            out.push(NodeOp::Addition);
            proof {
                assert(ops_view(out@) =~= mid.push(NodeOpV::Addition));
                assert(postorder_spec(tree@) == postorder_spec((**a)@) + postorder_spec((**b)@)
                    + seq![NodeOpV::Addition]);
                assert(ops_view(out@) =~= ops_view(old(out)@) + postorder_spec(tree@));
            }
        },
        ExpressionTree::Subtraction(a, b) => {
            postorder_into(&**a, out);
            postorder_into(&**b, out);
            let ghost mid = ops_view(out@);
            out.push(NodeOp::Subtraction);
            proof {
                assert(ops_view(out@) =~= mid.push(NodeOpV::Subtraction));
                assert(postorder_spec(tree@) == postorder_spec((**a)@) + postorder_spec((**b)@)
                    + seq![NodeOpV::Subtraction]);
                assert(ops_view(out@) =~= ops_view(old(out)@) + postorder_spec(tree@));
            }
        },
        ExpressionTree::Multiplication(a, b) => {
            postorder_into(&**a, out);
            postorder_into(&**b, out);
            let ghost mid = ops_view(out@);
            out.push(NodeOp::Multiplication);
            proof {
                assert(ops_view(out@) =~= mid.push(NodeOpV::Multiplication));
                assert(postorder_spec(tree@) == postorder_spec((**a)@) + postorder_spec((**b)@)
                    + seq![NodeOpV::Multiplication]);
                assert(ops_view(out@) =~= ops_view(old(out)@) + postorder_spec(tree@));
            }
        },
        ExpressionTree::Division(a, b) => {
            postorder_into(&**a, out);
            postorder_into(&**b, out);
            let ghost mid = ops_view(out@);
            out.push(NodeOp::Division);
            proof {
                assert(ops_view(out@) =~= mid.push(NodeOpV::Division));
                assert(postorder_spec(tree@) == postorder_spec((**a)@) + postorder_spec((**b)@)
                    + seq![NodeOpV::Division]);
                assert(ops_view(out@) =~= ops_view(old(out)@) + postorder_spec(tree@));
            }
        },
        ExpressionTree::IntDivision(a, b) => {
            postorder_into(&**a, out);
            postorder_into(&**b, out);
            let ghost mid = ops_view(out@);
            out.push(NodeOp::IntDivision);
            proof {
                assert(ops_view(out@) =~= mid.push(NodeOpV::IntDivision));
                assert(postorder_spec(tree@) == postorder_spec((**a)@) + postorder_spec((**b)@)
                    + seq![NodeOpV::IntDivision]);
                assert(ops_view(out@) =~= ops_view(old(out)@) + postorder_spec(tree@));
            }
        },
        ExpressionTree::Modulo(a, b) => {
            postorder_into(&**a, out);
            postorder_into(&**b, out);
            let ghost mid = ops_view(out@);
            out.push(NodeOp::Modulo);
            proof {
                assert(ops_view(out@) =~= mid.push(NodeOpV::Modulo));
                assert(postorder_spec(tree@) == postorder_spec((**a)@) + postorder_spec((**b)@)
                    + seq![NodeOpV::Modulo]);
                assert(ops_view(out@) =~= ops_view(old(out)@) + postorder_spec(tree@));
            }
        },
        ExpressionTree::Power(a, b) => {
            postorder_into(&**a, out);
            postorder_into(&**b, out);
            let ghost mid = ops_view(out@);
            out.push(NodeOp::Power);
            proof {
                assert(ops_view(out@) =~= mid.push(NodeOpV::Power));
                assert(postorder_spec(tree@) == postorder_spec((**a)@) + postorder_spec((**b)@)
                    + seq![NodeOpV::Power]);
                assert(ops_view(out@) =~= ops_view(old(out)@) + postorder_spec(tree@));
            }
        },
        ExpressionTree::Root(a, b) => {
            postorder_into(&**a, out);
            postorder_into(&**b, out);
            let ghost mid = ops_view(out@);
            out.push(NodeOp::Root);
            proof {
                assert(ops_view(out@) =~= mid.push(NodeOpV::Root));
                assert(postorder_spec(tree@) == postorder_spec((**a)@) + postorder_spec((**b)@)
                    + seq![NodeOpV::Root]);
                assert(ops_view(out@) =~= ops_view(old(out)@) + postorder_spec(tree@));
            }
        },
        ExpressionTree::IntRoot(a, b) => {
            postorder_into(&**a, out);
            postorder_into(&**b, out);
            let ghost mid = ops_view(out@);
            out.push(NodeOp::IntRoot);
            proof {
                assert(ops_view(out@) =~= mid.push(NodeOpV::IntRoot));
                assert(postorder_spec(tree@) == postorder_spec((**a)@) + postorder_spec((**b)@)
                    + seq![NodeOpV::IntRoot]);
                assert(ops_view(out@) =~= ops_view(old(out)@) + postorder_spec(tree@));
            }
        },
    }
}

/// Folds a finished tree into one value of `T` by replaying the tree's
/// verified post-order sequence over a value stack: each leaf operation
/// pushes the consumer's value for it, each unary or binary operation
/// pops the values reduced from the node's children (left below right)
/// and pushes the consumer's result, and the one value left at the end
/// is returned.
///
/// The operation sequence is exactly `postorder_spec(tree@)` — that is
/// [`postorder`]'s contract, and [`lemma_postorder_rebuilds`] shows the
/// sequence determines the tree. What each operation returns lies
/// entirely with the consumer, whose implementations are outside this
/// library's proofs, so nothing further can be promised of the result;
/// a consumer that needs the walk itself folds [`postorder`] directly.
pub fn compose_expr_tree<T, C: Composer<T>>(tree: &ExpressionTree, composer: &mut C) -> Result<
    T,
    C::Error,
> {
    let ops = postorder(tree);
    let ghost spec_ops = postorder_spec(tree@);
    proof {
        lemma_postorder_rebuilds(tree@);
        assert(spec_ops.take(0) =~= Seq::<NodeOpV>::empty());
    }
    let mut stack: Vec<T> = Vec::new();
    let mut i: usize = 0;
    let length = ops.len();
    while i < length
        invariant
            spec_ops == postorder_spec(tree@),
            ops_view(ops@) == spec_ops,
            length == ops@.len(),
            rebuild(spec_ops, Seq::empty()) == Some(seq![tree@]),
            i <= length,
            rebuild(spec_ops.take(i as int), Seq::empty()) is Some,
            stack@.len() == rebuild(spec_ops.take(i as int), Seq::empty())->Some_0.len(),
        decreases length - i,
    {
        let ghost mid = rebuild(spec_ops.take(i as int), Seq::empty())->Some_0;
        let ghost op_spec = spec_ops[i as int];
        proof {
            assert(ops@[i as int]@ == ops_view(ops@)[i as int]);
            assert(spec_ops.take(i + 1) =~= spec_ops.take(i as int) + seq![op_spec]);
            lemma_rebuild_concat(spec_ops.take(i as int), seq![op_spec], Seq::empty());
            assert(seq![op_spec].first() == op_spec);
            assert(seq![op_spec].drop_first() =~= Seq::<NodeOpV>::empty());
            assert(spec_ops =~= spec_ops.take(i + 1) + spec_ops.skip(i + 1));
            lemma_rebuild_concat(spec_ops.take(i + 1), spec_ops.skip(i + 1), Seq::empty());
            assert(rebuild(spec_ops.take(i + 1), Seq::empty()) is Some);
            assert(apply_op(op_spec, mid) is Some);
            reveal_with_fuel(rebuild, 3);
            assert(rebuild(seq![op_spec].drop_first(), apply_op(op_spec, mid)->Some_0) == Some(
                apply_op(op_spec, mid)->Some_0,
            ));
            assert(rebuild(spec_ops.take(i + 1), Seq::empty())->Some_0 == apply_op(
                op_spec,
                mid,
            )->Some_0);
        }
        match &ops[i] {
            NodeOp::UnsignedIntLiteral(v) => {
                match composer.compose_unsigned_int_literal(*v) {
                    Ok(value) => stack.push(value),
                    Err(e) => {
                        return Err(e);
                    },
                }
            },
            NodeOp::SignedIntLiteral(v) => {
                match composer.compose_signed_int_literal(*v) {
                    Ok(value) => stack.push(value),
                    Err(e) => {
                        return Err(e);
                    },
                }
            },
            NodeOp::Float64Literal(text) => {
                match composer.compose_float64_literal(text.as_str()) {
                    Ok(value) => stack.push(value),
                    Err(e) => {
                        return Err(e);
                    },
                }
            },
            NodeOp::TrueLiteral => {
                match composer.compose_true_literal() {
                    Ok(value) => stack.push(value),
                    Err(e) => {
                        return Err(e);
                    },
                }
            },
            NodeOp::FalseLiteral => {
                match composer.compose_false_literal() {
                    Ok(value) => stack.push(value),
                    Err(e) => {
                        return Err(e);
                    },
                }
            },
            NodeOp::Variable(v) => {
                match composer.compose_variable(*v) {
                    Ok(value) => stack.push(value),
                    Err(e) => {
                        return Err(e);
                    },
                }
            },
            NodeOp::Negation => {
                proof {
                    assert(stack@.len() >= 1);
                }
                let inner = stack.pop().unwrap();
                match composer.compose_negation(inner) {
                    Ok(value) => stack.push(value),
                    Err(e) => {
                        return Err(e);
                    },
                }
            },
            NodeOp::Reciprocal => {
                proof {
                    assert(stack@.len() >= 1);
                }
                let inner = stack.pop().unwrap();
                match composer.compose_reciprocal(inner) {
                    Ok(value) => stack.push(value),
                    Err(e) => {
                        return Err(e);
                    },
                }
            },
            NodeOp::Square => {
                proof {
                    assert(stack@.len() >= 1);
                }
                let inner = stack.pop().unwrap();
                match composer.compose_square(inner) {
                    Ok(value) => stack.push(value),
                    Err(e) => {
                        return Err(e);
                    },
                }
            },
            NodeOp::Cube => {
                proof {
                    assert(stack@.len() >= 1);
                }
                let inner = stack.pop().unwrap();
                match composer.compose_cube(inner) {
                    Ok(value) => stack.push(value),
                    Err(e) => {
                        return Err(e);
                    },
                }
            },
            NodeOp::SquareRoot => {
                proof {
                    assert(stack@.len() >= 1);
                }
                let inner = stack.pop().unwrap();
                match composer.compose_square_root(inner) {
                    Ok(value) => stack.push(value),
                    Err(e) => {
                        return Err(e);
                    },
                }
            },
            NodeOp::CubeRoot => {
                proof {
                    assert(stack@.len() >= 1);
                }
                let inner = stack.pop().unwrap();
                match composer.compose_cube_root(inner) {
                    Ok(value) => stack.push(value),
                    Err(e) => {
                        return Err(e);
                    },
                }
            },
            NodeOp::Addition => {
                proof {
                    assert(stack@.len() >= 2);
                }
                let rhs = stack.pop().unwrap();
                let lhs = stack.pop().unwrap();
                match composer.compose_addition(lhs, rhs) {
                    Ok(value) => stack.push(value),
                    Err(e) => {
                        return Err(e);
                    },
                }
            },
            NodeOp::Subtraction => {
                proof {
                    assert(stack@.len() >= 2);
                }
                let rhs = stack.pop().unwrap();
                let lhs = stack.pop().unwrap();
                match composer.compose_subtraction(lhs, rhs) {
                    Ok(value) => stack.push(value),
                    Err(e) => {
                        return Err(e);
                    },
                }
            },
            NodeOp::Multiplication => {
                proof {
                    assert(stack@.len() >= 2);
                }
                let rhs = stack.pop().unwrap();
                let lhs = stack.pop().unwrap();
                match composer.compose_multiplication(lhs, rhs) {
                    Ok(value) => stack.push(value),
                    Err(e) => {
                        return Err(e);
                    },
                }
            },
            NodeOp::Division => {
                proof {
                    assert(stack@.len() >= 2);
                }
                let rhs = stack.pop().unwrap();
                let lhs = stack.pop().unwrap();
                match composer.compose_division(lhs, rhs) {
                    Ok(value) => stack.push(value),
                    Err(e) => {
                        return Err(e);
                    },
                }
            },
            NodeOp::IntDivision => {
                proof {
                    assert(stack@.len() >= 2);
                }
                let rhs = stack.pop().unwrap();
                let lhs = stack.pop().unwrap();
                match composer.compose_int_division(lhs, rhs) {
                    Ok(value) => stack.push(value),
                    Err(e) => {
                        return Err(e);
                    },
                }
            },
            NodeOp::Modulo => {
                proof {
                    assert(stack@.len() >= 2);
                }
                let rhs = stack.pop().unwrap();
                let lhs = stack.pop().unwrap();
                match composer.compose_modulo(lhs, rhs) {
                    Ok(value) => stack.push(value),
                    Err(e) => {
                        return Err(e);
                    },
                }
            },
            NodeOp::Power => {
                proof {
                    assert(stack@.len() >= 2);
                }
                let rhs = stack.pop().unwrap();
                let lhs = stack.pop().unwrap();
                match composer.compose_power(lhs, rhs) {
                    Ok(value) => stack.push(value),
                    Err(e) => {
                        return Err(e);
                    },
                }
            },
            NodeOp::Root => {
                proof {
                    assert(stack@.len() >= 2);
                }
                let rhs = stack.pop().unwrap();
                let lhs = stack.pop().unwrap();
                match composer.compose_root(lhs, rhs) {
                    Ok(value) => stack.push(value),
                    Err(e) => {
                        return Err(e);
                    },
                }
            },
            NodeOp::IntRoot => {
                proof {
                    assert(stack@.len() >= 2);
                }
                let rhs = stack.pop().unwrap();
                let lhs = stack.pop().unwrap();
                match composer.compose_int_root(lhs, rhs) {
                    Ok(value) => stack.push(value),
                    Err(e) => {
                        return Err(e);
                    },
                }
            },
        }
        proof {
            assert(stack@.len() == rebuild(spec_ops.take(i + 1), Seq::empty())->Some_0.len());
        }
        i = i + 1;
    }
    proof {
        assert(spec_ops.take(length as int) =~= spec_ops);
        assert(stack@.len() == 1);
    }
    let result = stack.pop().unwrap();
    Ok(result)
}

} // verus!
