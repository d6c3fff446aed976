//! The unary folder: eliminates every operator that stands where an
//! operand is expected by folding it into the following operand.
//!
//! A two-state machine walks the symbol sequence. While an operand is
//! expected, operators are collected on a pending stack; when the operand
//! arrives, the pending operators are applied to it nearest-pushed first,
//! so `- - x` becomes `negate(negate(x))`. Only `+` (a no-op) and `-` (a
//! negation node) are legal prefix operators. While an operator is
//! expected, an operator passes through unchanged as a binary candidate
//! and an operand is rejected.
//!
//! A sequence that ends while an operand is still expected is incomplete;
//! the one exception is a trailing binary candidate with no precedence
//! tier, which is left for the infix-to-postfix stage so that it is
//! reported as an illegal binary operator.

use vstd::prelude::*;
use crate::error::ParseError;
use crate::symbols::PositionedOperator;
use crate::symbols::PositionedSymbol;
use crate::symbols::PositionedSymbolV;
use crate::symbols::Symbol;
use crate::symbols::SymbolV;
use crate::symbols::symbols_view;
use crate::token::Operator;
use crate::token::spec_binary_precedence;
use crate::tree::ExpressionTree;
use crate::tree::TreeV;

verus! {

/// The folder's state: whether an operand is expected, the pending
/// prefix operators, and the symbols emitted so far.
#[verifier::ext_equal]
pub struct UnaryStateV {
    pub expect_operand: bool,
    pub pending: Seq<PositionedOperator>,
    pub out: Seq<PositionedSymbolV>,
}

/// The folder's initial state: an operand is expected first.
pub open spec fn unary_init() -> UnaryStateV {
    UnaryStateV { expect_operand: true, pending: Seq::empty(), out: Seq::empty() }
}

/// Applies one prefix operator to an operand: `+` leaves it unchanged,
/// `-` wraps it in a negation node, anything else is illegal.
pub open spec fn unary_wrap(expr: TreeV, op: PositionedOperator) -> Result<TreeV, ParseError> {
    if op.operator == Operator::Plus {
        Ok(expr)
    } else if op.operator == Operator::Minus {
        Ok(TreeV::Negation(Box::new(expr)))
    } else {
        Err(ParseError::IllegalUnaryOperator { op: op.operator, start: op.start, end: op.end })
    }
}

/// Applies a whole pending stack to an operand, nearest-pushed first.
pub open spec fn apply_pending(expr: TreeV, pending: Seq<PositionedOperator>) -> Result<
    TreeV,
    ParseError,
>
    decreases pending.len(),
{
    if pending.len() == 0 {
        Ok(expr)
    } else {
        match unary_wrap(expr, pending.last()) {
            Ok(wrapped) => apply_pending(wrapped, pending.drop_last()),
            Err(e) => Err(e),
        }
    }
}

/// One step of the folder on the next symbol.
pub open spec fn unary_step(st: UnaryStateV, sv: PositionedSymbolV) -> Result<
    UnaryStateV,
    ParseError,
> {
    match sv.symbol {
        SymbolV::Operator(op) => {
            if st.expect_operand {
                Ok(
                    UnaryStateV {
                        expect_operand: true,
                        pending: st.pending.push(
                            PositionedOperator { operator: op, start: sv.start, end: sv.end },
                        ),
                        out: st.out,
                    },
                )
            } else {
                Ok(UnaryStateV { expect_operand: true, pending: st.pending, out: st.out.push(sv) })
            }
        },
        SymbolV::Operand(tree) => {
            if st.expect_operand {
                match apply_pending(tree, st.pending) {
                    Ok(wrapped) => Ok(
                        UnaryStateV {
                            expect_operand: false,
                            pending: Seq::empty(),
                            out: st.out.push(
                                PositionedSymbolV {
                                    symbol: SymbolV::Operand(wrapped),
                                    start: if st.pending.len() == 0 {
                                        sv.start
                                    } else {
                                        st.pending[0].start
                                    },
                                    end: sv.end,
                                },
                            ),
                        },
                    ),
                    Err(e) => Err(e),
                }
            } else {
                Err(ParseError::ExpectedOperator { start: sv.start, end: sv.end })
            }
        },
    }
}

/// The folder's state after the whole prefix `syms`, from state `st`.
pub open spec fn unary_run(syms: Seq<PositionedSymbolV>, st: UnaryStateV) -> Result<
    UnaryStateV,
    ParseError,
>
    decreases syms.len(),
{
    if syms.len() == 0 {
        Ok(st)
    } else {
        match unary_run(syms.drop_last(), st) {
            Ok(st2) => unary_step(st2, syms.last()),
            Err(e) => Err(e),
        }
    }
}

/// What folding a whole symbol sequence yields: the sequence with every
/// prefix operator folded into its operand, or the error that stops it.
pub open spec fn fold_unaries(syms: Seq<PositionedSymbolV>) -> Result<
    Seq<PositionedSymbolV>,
    ParseError,
> {
    match unary_run(syms, unary_init()) {
        Ok(st) => {
            if !st.expect_operand {
                Ok(st.out)
            } else if st.out.len() == 0 || st.pending.len() > 0 {
                Err(ParseError::IncompleteExpression)
            } else {
                match st.out.last().symbol {
                    SymbolV::Operator(op) => {
                        if spec_binary_precedence(op) is Some {
                            Err(ParseError::IncompleteExpression)
                        } else {
                            Ok(st.out)
                        }
                    },
                    SymbolV::Operand(_) => Err(ParseError::IncompleteExpression),
                }
            }
        },
        Err(e) => Err(e),
    }
}

/// Applies one prefix operator to an operand.
pub fn wrap(expr: ExpressionTree, unary_operator: PositionedOperator) -> (r: Result<
    ExpressionTree,
    ParseError,
>)
    ensures
        match r {
            Ok(t) => unary_wrap(expr@, unary_operator) == Ok::<TreeV, ParseError>(t@),
            Err(e) => unary_wrap(expr@, unary_operator) == Err::<TreeV, ParseError>(e),
        },
{
    match unary_operator.operator {
        Operator::Plus => Ok(expr),
        Operator::Minus => Ok(ExpressionTree::Negation(Box::new(expr))),
        _ => Err(
            ParseError::IllegalUnaryOperator {
                op: unary_operator.operator,
                start: unary_operator.start,
                end: unary_operator.end,
            },
        ),
    }
}

/// Folding stops at the first error: once a prefix of the run has
/// failed, the whole run fails with that error.
proof fn lemma_unary_run_extends_error(syms: Seq<PositionedSymbolV>, i: int, st0: UnaryStateV)
    requires
        0 <= i <= syms.len(),
        unary_run(syms.take(i), st0) is Err,
    ensures
        unary_run(syms, st0) == unary_run(syms.take(i), st0),
    decreases syms.len() - i,
{
    if i < syms.len() {
        assert(syms.take(i + 1).drop_last() =~= syms.take(i));
        lemma_unary_run_extends_error(syms, i + 1, st0);
    } else {
        assert(syms.take(i) =~= syms);
    }
}

/// Rewrites a symbol sequence, folding every prefix operator into the
/// operand that follows it.
pub fn compose_unary_expressions(symbols: Vec<PositionedSymbol>) -> (r: Result<
    Vec<PositionedSymbol>,
    ParseError,
>)
    ensures
        match r {
            Ok(v) => fold_unaries(symbols_view(symbols@)) == Ok::<Seq<PositionedSymbolV>, ParseError>(
                symbols_view(v@),
            ),
            Err(e) => fold_unaries(symbols_view(symbols@)) == Err::<
                Seq<PositionedSymbolV>,
                ParseError,
            >(e),
        },
{
    let ghost input = symbols_view(symbols@);
    let mut rest = symbols;
    let mut out: Vec<PositionedSymbol> = Vec::new();
    let mut pending: Vec<PositionedOperator> = Vec::new();
    let mut expect_operand = true;
    let mut i: usize = 0;
    let length = rest.len();
    proof {
        assert(input.take(0) =~= Seq::<PositionedSymbolV>::empty());
        assert(symbols_view(out@) =~= Seq::<PositionedSymbolV>::empty());
    }
    while i < length
        invariant
            input == symbols_view(symbols@),
            i <= length,
            length == input.len(),
            rest@.len() == length - i,
            symbols_view(rest@) == input.skip(i as int),
            unary_run(input.take(i as int), unary_init()) == Ok::<UnaryStateV, ParseError>(
                UnaryStateV {
                    expect_operand: expect_operand,
                    pending: pending@,
                    out: symbols_view(out@),
                },
            ),
        decreases length - i,
    {
        let ghost st = UnaryStateV {
            expect_operand: expect_operand,
            pending: pending@,
            out: symbols_view(out@),
        };
        proof {
            assert(input.take(i + 1).drop_last() =~= input.take(i as int));
            assert(input.take(i + 1).last() == input[i as int]);
            assert(symbols_view(rest@)[0] == input[i as int]);
        }
        let ghost prev_rest = rest@;
        let ps = rest.remove(0);
        proof {
            assert forall|k: int| 0 <= k < rest@.len() implies #[trigger] symbols_view(rest@)[k]
                == input.skip(i + 1)[k] by {
                assert(rest@[k] == prev_rest[k + 1]);
                assert(symbols_view(prev_rest)[k + 1] == input.skip(i as int)[k + 1]);
            }
            assert(symbols_view(rest@) =~= input.skip(i + 1));
            assert(ps@ == symbols_view(prev_rest)[0]);
            assert(ps@ == input[i as int]);
        }
        let ghost sv = ps@;
        let PositionedSymbol { symbol, start: sym_start, end: sym_end } = ps;
        match symbol {
            Symbol::Operator(op) => {
                if expect_operand {
                    pending.push(
                        PositionedOperator { operator: op, start: sym_start, end: sym_end },
                    );
                    proof {
                        assert(unary_step(st, sv) == Ok::<UnaryStateV, ParseError>(
                            UnaryStateV {
                                expect_operand: true,
                                pending: pending@,
                                out: symbols_view(out@),
                            },
                        ));
                    }
                } else {
                    expect_operand = true;
                    out.push(
                        PositionedSymbol {
                            symbol: Symbol::Operator(op),
                            start: sym_start,
                            end: sym_end,
                        },
                    );
                    proof {
                        assert(symbols_view(out@) =~= st.out.push(sv));
                    }
                }
            },
            Symbol::Operand(expr) => {
                if expect_operand {
                    let start = if pending.len() == 0 {
                        sym_start
                    } else {
                        pending[0].start
                    };
                    let ghost full_pending = pending@;
                    let ghost tree0 = expr@;
                    let mut wrapped = expr;
                    let mut failure: Option<ParseError> = None;
                    loop
                        invariant_except_break
                            failure is None,
                            apply_pending(tree0, full_pending) == apply_pending(
                                wrapped@,
                                pending@,
                            ),
                        ensures
                            match failure {
                                None => pending@.len() == 0 && apply_pending(tree0, full_pending)
                                    == Ok::<TreeV, ParseError>(wrapped@),
                                Some(e) => apply_pending(tree0, full_pending) == Err::<
                                    TreeV,
                                    ParseError,
                                >(e),
                            },
                        decreases pending@.len(),
                    {
                        match pending.pop() {
                            None => {
                                break ;
                            },
                            Some(op) => {
                                match wrap(wrapped, op) {
                                    Ok(w2) => {
                                        wrapped = w2;
                                    },
                                    Err(e) => {
                                        failure = Some(e);
                                        wrapped = ExpressionTree::FalseLiteral;
                                        break ;
                                    },
                                }
                            },
                        }
                    }
                    if let Some(e) = failure {
                        proof {
                            assert(unary_step(st, sv) == Err::<UnaryStateV, ParseError>(e));
                            assert(unary_run(input.take(i + 1), unary_init()) == Err::<
                                UnaryStateV,
                                ParseError,
                            >(e));
                            lemma_unary_run_extends_error(input, i + 1, unary_init());
                        }
                        return Err(e);
                    }
                    expect_operand = false;
                    out.push(
                        PositionedSymbol {
                            symbol: Symbol::Operand(wrapped),
                            start,
                            end: sym_end,
                        },
                    );
                    proof {
                        assert(symbols_view(out@) =~= st.out.push(
                            PositionedSymbolV {
                                symbol: SymbolV::Operand(
                                    apply_pending(tree0, full_pending)->Ok_0,
                                ),
                                start: if st.pending.len() == 0 {
                                    sv.start
                                } else {
                                    st.pending[0].start
                                },
                                end: sv.end,
                            },
                        ));
                        assert(pending@ =~= Seq::<PositionedOperator>::empty());
                    }
                } else {
                    proof {
                        assert(unary_step(st, sv) == Err::<UnaryStateV, ParseError>(
                            ParseError::ExpectedOperator { start: sv.start, end: sv.end },
                        ));
                        lemma_unary_run_extends_error(input, i + 1, unary_init());
                    }
                    return Err(ParseError::ExpectedOperator { start: sym_start, end: sym_end });
                }
            },
        }
        i = i + 1;
    }
    proof {
        assert(input.take(length as int) =~= input);
    }
    if !expect_operand {
        Ok(out)
    } else if out.len() == 0 || pending.len() > 0 {
        Err(ParseError::IncompleteExpression)
    } else {
        proof {
            assert(symbols_view(out@).last() == out@[out@.len() - 1]@);
        }
        let trailing_illegal = match &out[out.len() - 1].symbol {
            Symbol::Operator(op) => op.binary_precedence().is_some(),
            Symbol::Operand(_) => true,
        };
        if trailing_illegal {
            Err(ParseError::IncompleteExpression)
        } else {
            Ok(out)
        }
    }
}

} // verus!
