//! The postfix-to-tree composer: reduces a postfix symbol sequence to
//! exactly one expression tree.
//!
//! The postfix sequence is consumed in reverse over a stack of partial
//! expression frames, each holding an operator alone, an operator with
//! its right operand, or an operator with both operands. A frame that
//! reaches both operands is composed into one tree node at once and fed
//! as an operand to the frame below it; when that empties the stack, the
//! tree is the result. A single operand with nothing else reduces to
//! itself. Anything left on the stack at the end is a failure.

use vstd::prelude::*;
use crate::error::ParseError;
use crate::symbols::PositionedOperator;
use crate::symbols::PositionedSymbol;
use crate::symbols::PositionedSymbolV;
use crate::symbols::Symbol;
use crate::symbols::SymbolV;
use crate::symbols::symbols_view;
use crate::token::Operator;
use crate::tree::ExpressionTree;
use crate::tree::TreeV;

verus! {

/// A partial expression: an operator that has seen none, one (the
/// right-hand, since the stream is reversed), or both of its operands.
#[derive(Debug, PartialEq)]
pub enum ExpressionInProgress {
    Operator { operator: PositionedOperator },
    RHS { operator: PositionedOperator, rhs: ExpressionTree },
    LHS { operator: PositionedOperator, lhs: ExpressionTree, rhs: ExpressionTree },
}

/// The mathematical value of an [`ExpressionInProgress`] frame.
#[verifier::ext_equal]
pub enum FrameV {
    Operator { operator: PositionedOperator },
    RHS { operator: PositionedOperator, rhs: TreeV },
    LHS { operator: PositionedOperator, lhs: TreeV, rhs: TreeV },
}

impl View for ExpressionInProgress {
    type V = FrameV;

    open spec fn view(&self) -> FrameV {
        match self {
            ExpressionInProgress::Operator { operator } => FrameV::Operator { operator: *operator },
            ExpressionInProgress::RHS { operator, rhs } => FrameV::RHS {
                operator: *operator,
                rhs: rhs@,
            },
            ExpressionInProgress::LHS { operator, lhs, rhs } => FrameV::LHS {
                operator: *operator,
                lhs: lhs@,
                rhs: rhs@,
            },
        }
    }
}

/// The views of a sequence of frames.
pub open spec fn frames_view(v: Seq<ExpressionInProgress>) -> Seq<FrameV> {
    v.map(|i: int, f: ExpressionInProgress| f@)
}

/// The tree node an operator composes its two operands into; only the
/// arithmetic operators have a binary meaning.
pub open spec fn compose_node(op: PositionedOperator, lhs: TreeV, rhs: TreeV) -> Result<
    TreeV,
    ParseError,
> {
    match op.operator {
        Operator::Asterisk => Ok(TreeV::Multiplication(Box::new(lhs), Box::new(rhs))),
        Operator::Slash => Ok(TreeV::Division(Box::new(lhs), Box::new(rhs))),
        Operator::DoubleSlash => Ok(TreeV::IntDivision(Box::new(lhs), Box::new(rhs))),
        Operator::Minus => Ok(TreeV::Subtraction(Box::new(lhs), Box::new(rhs))),
        Operator::Plus => Ok(TreeV::Addition(Box::new(lhs), Box::new(rhs))),
        Operator::Percent => Ok(TreeV::Modulo(Box::new(lhs), Box::new(rhs))),
        Operator::Caret => Ok(TreeV::Power(Box::new(lhs), Box::new(rhs))),
        Operator::DoubleAsterisk => Ok(TreeV::Power(Box::new(lhs), Box::new(rhs))),
        _ => Err(
            ParseError::IllegalBinaryOperator { op: op.operator, start: op.start, end: op.end },
        ),
    }
}

/// Feeding one operand into a frame: an operator takes it as its right
/// operand, a right-loaded frame takes it as its left operand. A full
/// frame never receives an operand.
pub open spec fn add_operand_spec(f: FrameV, t: TreeV) -> FrameV {
    match f {
        FrameV::Operator { operator } => FrameV::RHS { operator, rhs: t },
        FrameV::RHS { operator, rhs } => FrameV::LHS { operator, lhs: t, rhs },
        FrameV::LHS { .. } => f,
    }
}

/// What eagerly composing full frames leaves: a smaller stack whose top
/// is not full, or the finished tree once composing empties the stack.
pub enum ReduceOutV {
    More(Seq<FrameV>),
    Done(TreeV),
}

/// Composes the top frame as long as it is full, feeding each result to
/// the frame below.
pub open spec fn reduce(stack: Seq<FrameV>) -> Result<ReduceOutV, ParseError>
    decreases stack.len(),
{
    if stack.len() == 0 {
        Ok(ReduceOutV::More(stack))
    } else {
        match stack.last() {
            FrameV::LHS { operator, lhs, rhs } => match compose_node(operator, lhs, rhs) {
                Err(e) => Err(e),
                Ok(tree) => {
                    let rest = stack.drop_last();
                    if rest.len() == 0 {
                        Ok(ReduceOutV::Done(tree))
                    } else {
                        reduce(rest.drop_last().push(add_operand_spec(rest.last(), tree)))
                    }
                },
            },
            _ => Ok(ReduceOutV::More(stack)),
        }
    }
}

/// What composing the postfix sequence `syms`, consumed from its end,
/// over the frame stack `stack` yields.
pub open spec fn compose_run(syms: Seq<PositionedSymbolV>, stack: Seq<FrameV>) -> Result<
    TreeV,
    ParseError,
>
    decreases syms.len(),
{
    if syms.len() == 0 {
        Err(ParseError::UnreducedComposition)
    } else {
        let sv = syms.last();
        match sv.symbol {
            SymbolV::Operator(o) => compose_run(
                syms.drop_last(),
                stack.push(
                    FrameV::Operator {
                        operator: PositionedOperator { operator: o, start: sv.start, end: sv.end },
                    },
                ),
            ),
            SymbolV::Operand(t) => {
                if stack.len() == 0 {
                    if syms.len() == 1 {
                        Ok(t)
                    } else {
                        Err(ParseError::ExpectedOperatorInPostfix { start: sv.start, end: sv.end })
                    }
                } else {
                    match reduce(stack.drop_last().push(add_operand_spec(stack.last(), t))) {
                        Err(e) => Err(e),
                        Ok(ReduceOutV::Done(tree)) => Ok(tree),
                        Ok(ReduceOutV::More(st2)) => compose_run(syms.drop_last(), st2),
                    }
                }
            },
        }
    }
}

/// What composing a whole postfix sequence yields.
pub open spec fn compose_binary_spec(syms: Seq<PositionedSymbolV>) -> Result<TreeV, ParseError> {
    compose_run(syms, Seq::empty())
}

/// Resuming after a reduction: an error stops everything, a finished
/// tree is the result, a remaining stack continues with the remaining
/// symbols.
pub open spec fn continue_run(
    rest: Seq<PositionedSymbolV>,
    red: Result<ReduceOutV, ParseError>,
) -> Result<TreeV, ParseError> {
    match red {
        Err(e) => Err(e),
        Ok(ReduceOutV::Done(tree)) => Ok(tree),
        Ok(ReduceOutV::More(st)) => compose_run(rest, st),
    }
}

/// No frame in the stack is full.
pub open spec fn no_full_frame(frames: Seq<FrameV>) -> bool {
    forall|k: int| 0 <= k < frames.len() ==> !(#[trigger] frames[k] is LHS)
}

impl ExpressionInProgress {
    /// Feeds one operand into this frame.
    pub fn add_operand(self, operand: ExpressionTree) -> (r: ExpressionInProgress)
        requires
            !(self@ is LHS),
        ensures
            r@ == add_operand_spec(self@, operand@),
    {
        match self {
            ExpressionInProgress::Operator { operator } => ExpressionInProgress::RHS {
                operator,
                rhs: operand,
            },
            ExpressionInProgress::RHS { operator, rhs } => ExpressionInProgress::LHS {
                operator,
                lhs: operand,
                rhs,
            },
            ExpressionInProgress::LHS { operator, lhs, rhs } => ExpressionInProgress::LHS {
                operator,
                lhs,
                rhs,
            },
        }
    }

    /// Composes this full frame into one tree node.
    pub fn compose_into(self) -> (r: Result<ExpressionTree, ParseError>)
        requires
            self@ is LHS,
        ensures
            match r {
                Ok(t) => compose_node(self@->LHS_operator, self@->LHS_lhs, self@->LHS_rhs)
                    == Ok::<TreeV, ParseError>(t@),
                Err(e) => compose_node(self@->LHS_operator, self@->LHS_lhs, self@->LHS_rhs)
                    == Err::<TreeV, ParseError>(e),
            },
    {
        match self {
            ExpressionInProgress::LHS { operator, lhs, rhs } => compose_expression(
                operator,
                lhs,
                rhs,
            ),
            _ => Err(ParseError::UnreducedComposition),
        }
    }
}

/// Composes one binary node from an operator and its two operands.
pub fn compose_expression(
    operator: PositionedOperator,
    lhs: ExpressionTree,
    rhs: ExpressionTree,
) -> (r: Result<ExpressionTree, ParseError>)
    ensures
        match r {
            Ok(t) => compose_node(operator, lhs@, rhs@) == Ok::<TreeV, ParseError>(t@),
            Err(e) => compose_node(operator, lhs@, rhs@) == Err::<TreeV, ParseError>(e),
        },
{
    match operator.operator {
        Operator::Asterisk => Ok(ExpressionTree::Multiplication(Box::new(lhs), Box::new(rhs))),
        Operator::Slash => Ok(ExpressionTree::Division(Box::new(lhs), Box::new(rhs))),
        Operator::DoubleSlash => Ok(ExpressionTree::IntDivision(Box::new(lhs), Box::new(rhs))),
        Operator::Minus => Ok(ExpressionTree::Subtraction(Box::new(lhs), Box::new(rhs))),
        Operator::Plus => Ok(ExpressionTree::Addition(Box::new(lhs), Box::new(rhs))),
        Operator::Percent => Ok(ExpressionTree::Modulo(Box::new(lhs), Box::new(rhs))),
        Operator::Caret => Ok(ExpressionTree::Power(Box::new(lhs), Box::new(rhs))),
        Operator::DoubleAsterisk => Ok(ExpressionTree::Power(Box::new(lhs), Box::new(rhs))),
        _ => Err(
            ParseError::IllegalBinaryOperator {
                op: operator.operator,
                start: operator.start,
                end: operator.end,
            },
        ),
    }
}

/// Reduces a postfix symbol sequence to one expression tree.
pub fn compose_binary_expressions(postfix_symbols: Vec<PositionedSymbol>) -> (r: Result<
    ExpressionTree,
    ParseError,
>)
    ensures
        match r {
            Ok(t) => compose_binary_spec(symbols_view(postfix_symbols@)) == Ok::<
                TreeV,
                ParseError,
            >(t@),
            Err(e) => compose_binary_spec(symbols_view(postfix_symbols@)) == Err::<
                TreeV,
                ParseError,
            >(e),
        },
{
    let ghost input = symbols_view(postfix_symbols@);
    let mut rest = postfix_symbols;
    let mut stack: Vec<ExpressionInProgress> = Vec::new();
    proof {
        assert(frames_view(stack@) =~= Seq::<FrameV>::empty());
    }
    loop
        invariant
            input == symbols_view(postfix_symbols@),
            no_full_frame(frames_view(stack@)),
            compose_run(input, Seq::empty()) == compose_run(
                symbols_view(rest@),
                frames_view(stack@),
            ),
        decreases rest@.len(),
    {
        let ghost syms_before = symbols_view(rest@);
        let ghost frames_before = frames_view(stack@);
        let popped = rest.pop();
        let ps = match popped {
            Some(ps) => ps,
            None => {
                proof {
                    assert(syms_before =~= Seq::<PositionedSymbolV>::empty());
                }
                return Err(ParseError::UnreducedComposition);
            },
        };
        proof {
            assert(symbols_view(rest@) =~= syms_before.drop_last());
            assert(ps@ == syms_before.last());
        }
        let ghost sv = ps@;
        let PositionedSymbol { symbol, start: sym_start, end: sym_end } = ps;
        match symbol {
            Symbol::Operator(o) => {
                stack.push(
                    ExpressionInProgress::Operator {
                        operator: PositionedOperator { operator: o, start: sym_start, end: sym_end },
                    },
                );
                proof {
                    assert(frames_view(stack@) =~= frames_before.push(
                        FrameV::Operator {
                            operator: PositionedOperator {
                                operator: o,
                                start: sv.start,
                                end: sv.end,
                            },
                        },
                    ));
                }
            },
            Symbol::Operand(tree) => {
                let stack_len = stack.len();
                if stack_len == 0 {
                    if rest.len() == 0 {
                        proof {
                            assert(compose_run(syms_before, frames_before) == Ok::<
                                TreeV,
                                ParseError,
                            >(tree@));
                        }
                        return Ok(tree);
                    } else {
                        return Err(
                            ParseError::ExpectedOperatorInPostfix {
                                start: sym_start,
                                end: sym_end,
                            },
                        );
                    }
                }
                let top = match stack.pop() {
                    Some(f) => f,
                    None => {
                        return Err(ParseError::UnreducedComposition);
                    },
                };
                proof {
                    assert(top@ == frames_before.last());
                    assert(frames_view(stack@) =~= frames_before.drop_last());
                }
                let fed = top.add_operand(tree);
                stack.push(fed);
                proof {
                    assert(frames_view(stack@) =~= frames_before.drop_last().push(
                        add_operand_spec(frames_before.last(), tree@),
                    ));
                }
                let ghost after_feed = frames_view(stack@);
                proof {
                    assert(no_full_frame(frames_view(stack@).drop_last())) by {
                        assert(frames_view(stack@).drop_last() =~= frames_before.drop_last());
                    }
                }
                loop
                    invariant
                        input == symbols_view(postfix_symbols@),
                        no_full_frame(frames_view(stack@).drop_last()),
                        compose_run(input, Seq::empty()) == continue_run(
                            symbols_view(rest@),
                            reduce(frames_view(stack@)),
                        ),
                    ensures
                        input == symbols_view(postfix_symbols@),
                        no_full_frame(frames_view(stack@)),
                        compose_run(input, Seq::empty()) == continue_run(
                            symbols_view(rest@),
                            reduce(frames_view(stack@)),
                        ),
                    decreases stack@.len(),
                {
                    let ghost frames_now = frames_view(stack@);
                    let inner_len = stack.len();
                    if inner_len == 0 {
                        proof {
                            assert(no_full_frame(frames_now));
                        }
                        break ;
                    }
                    let is_full = match &stack[inner_len - 1] {
                        ExpressionInProgress::LHS { .. } => true,
                        _ => false,
                    };
                    if !is_full {
                        proof {
                            assert(reduce(frames_now) == Ok::<ReduceOutV, ParseError>(
                                ReduceOutV::More(frames_now),
                            ));
                            assert(no_full_frame(frames_now)) by {
                                assert(!(frames_now.last() is LHS));
                                assert(forall|k: int|
                                    0 <= k < frames_now.len() - 1 ==> frames_now.drop_last()[k]
                                        == frames_now[k]);
                            }
                        }
                        break ;
                    }
                    let full = match stack.pop() {
                        Some(f) => f,
                        None => {
                            return Err(ParseError::UnreducedComposition);
                        },
                    };
                    proof {
                        assert(full@ == frames_now.last());
                        assert(frames_view(stack@) =~= frames_now.drop_last());
                    }
                    let composed = match full.compose_into() {
                        Ok(t) => t,
                        Err(e) => {
                            proof {
                                assert(reduce(frames_now) == Err::<ReduceOutV, ParseError>(e));
                            }
                            return Err(e);
                        },
                    };
                    if stack.len() == 0 {
                        proof {
                            assert(reduce(frames_now) == Ok::<ReduceOutV, ParseError>(
                                ReduceOutV::Done(composed@),
                            ));
                        }
                        return Ok(composed);
                    }
                    let below = match stack.pop() {
                        Some(f) => f,
                        None => {
                            return Err(ParseError::UnreducedComposition);
                        },
                    };
                    proof {
                        assert(below@ == frames_now.drop_last().last());
                        assert(frames_view(stack@) =~= frames_now.drop_last().drop_last());
                        assert(!(below@ is LHS));
                    }
                    let fed_below = below.add_operand(composed);
                    stack.push(fed_below);
                    proof {
                        assert(frames_view(stack@) =~= frames_now.drop_last().drop_last().push(
                            add_operand_spec(
                                frames_now.drop_last().last(),
                                compose_node(
                                    frames_now.last()->LHS_operator,
                                    frames_now.last()->LHS_lhs,
                                    frames_now.last()->LHS_rhs,
                                )->Ok_0,
                            ),
                        ));
                        assert(reduce(frames_now) == reduce(frames_view(stack@)));
                        assert(no_full_frame(frames_view(stack@).drop_last())) by {
                            assert(frames_view(stack@).drop_last() =~= frames_now.drop_last()
                                .drop_last());
                            assert(forall|k: int|
                                0 <= k < frames_now.drop_last().len() - 1 ==> frames_now
                                    .drop_last().drop_last()[k] == frames_now.drop_last()[k]);
                        }
                    }
                }
            },
        }
    }
}

} // verus!
