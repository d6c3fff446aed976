//! The infix-to-postfix converter: a shunting-yard pass over the folded
//! symbol sequence.
//!
//! Operands go straight to the output. Each operator pops every stacked
//! operator whose precedence tier is greater than *or equal to* its own
//! before being stacked itself; the `>=` tie-break makes every operator,
//! exponentiation included, left-associative. An operator with no binary
//! precedence tier is rejected here. When the input is exhausted the
//! remaining stacked operators are popped to the output in stack order.

use vstd::prelude::*;
use crate::error::ParseError;
use crate::symbols::PositionedOperator;
use crate::symbols::PositionedSymbol;
use crate::symbols::PositionedSymbolV;
use crate::symbols::Symbol;
use crate::symbols::SymbolV;
use crate::symbols::symbols_view;
use crate::token::Operator;
use crate::token::spec_binary_precedence;

verus! {

/// The converter's state: the postfix output so far and the operator
/// stack.
#[verifier::ext_equal]
pub struct ShuntStateV {
    pub out: Seq<PositionedSymbolV>,
    pub stack: Seq<PositionedOperator>,
}

/// The converter's initial state.
pub open spec fn shunt_init() -> ShuntStateV {
    ShuntStateV { out: Seq::empty(), stack: Seq::empty() }
}

/// The precedence tier used for stack comparisons: tier 0 for operators
/// with no binary meaning, so they never win a `>=` comparison.
pub open spec fn tier(op: Operator) -> usize {
    match spec_binary_precedence(op) {
        Some(t) => t,
        None => 0,
    }
}

/// A stacked operator turned back into an output symbol.
pub open spec fn op_symbol(op: PositionedOperator) -> PositionedSymbolV {
    PositionedSymbolV { symbol: SymbolV::Operator(op.operator), start: op.start, end: op.end }
}

/// Pops every stacked operator whose tier is at least `prec` to the
/// output.
pub open spec fn pop_ge(st: ShuntStateV, prec: usize) -> ShuntStateV
    decreases st.stack.len(),
{
    if st.stack.len() == 0 {
        st
    } else if tier(st.stack.last().operator) >= prec {
        pop_ge(
            ShuntStateV { out: st.out.push(op_symbol(st.stack.last())), stack: st.stack.drop_last() },
            prec,
        )
    } else {
        st
    }
}

/// One step of the converter on the next symbol.
pub open spec fn shunt_step(st: ShuntStateV, sv: PositionedSymbolV) -> Result<
    ShuntStateV,
    ParseError,
> {
    match sv.symbol {
        SymbolV::Operand(_) => Ok(ShuntStateV { out: st.out.push(sv), stack: st.stack }),
        SymbolV::Operator(op) => match spec_binary_precedence(op) {
            None => Err(ParseError::IllegalBinaryOperator { op, start: sv.start, end: sv.end }),
            Some(prec) => {
                let st2 = pop_ge(st, prec);
                Ok(
                    ShuntStateV {
                        out: st2.out,
                        stack: st2.stack.push(
                            PositionedOperator { operator: op, start: sv.start, end: sv.end },
                        ),
                    },
                )
            },
        },
    }
}

/// The converter's state after the whole prefix `syms`, from state `st`.
pub open spec fn shunt_run(syms: Seq<PositionedSymbolV>, st: ShuntStateV) -> Result<
    ShuntStateV,
    ParseError,
>
    decreases syms.len(),
{
    if syms.len() == 0 {
        Ok(st)
    } else {
        match shunt_run(syms.drop_last(), st) {
            Ok(st2) => shunt_step(st2, syms.last()),
            Err(e) => Err(e),
        }
    }
}

/// Pops the whole remaining stack to the output, in stack order.
pub open spec fn drain(st: ShuntStateV) -> Seq<PositionedSymbolV>
    decreases st.stack.len(),
{
    if st.stack.len() == 0 {
        st.out
    } else {
        drain(
            ShuntStateV { out: st.out.push(op_symbol(st.stack.last())), stack: st.stack.drop_last() },
        )
    }
}

/// What converting a whole symbol sequence to postfix yields.
pub open spec fn shunting_spec(syms: Seq<PositionedSymbolV>) -> Result<
    Seq<PositionedSymbolV>,
    ParseError,
> {
    match shunt_run(syms, shunt_init()) {
        Ok(st) => Ok(drain(st)),
        Err(e) => Err(e),
    }
}

/// Conversion stops at the first error: once a prefix of the run has
/// failed, the whole run fails with that error.
proof fn lemma_shunt_run_extends_error(syms: Seq<PositionedSymbolV>, i: int, st0: ShuntStateV)
    requires
        0 <= i <= syms.len(),
        shunt_run(syms.take(i), st0) is Err,
    ensures
        shunt_run(syms, st0) == shunt_run(syms.take(i), st0),
    decreases syms.len() - i,
{
    if i < syms.len() {
        assert(syms.take(i + 1).drop_last() =~= syms.take(i));
        lemma_shunt_run_extends_error(syms, i + 1, st0);
    } else {
        assert(syms.take(i) =~= syms);
    }
}

/// Converts a folded symbol sequence from infix to postfix order.
pub fn shunting_yard_algorithm(symbols: Vec<PositionedSymbol>) -> (r: Result<
    Vec<PositionedSymbol>,
    ParseError,
>)
    ensures
        match r {
            Ok(v) => shunting_spec(symbols_view(symbols@)) == Ok::<
                Seq<PositionedSymbolV>,
                ParseError,
            >(symbols_view(v@)),
            Err(e) => shunting_spec(symbols_view(symbols@)) == Err::<
                Seq<PositionedSymbolV>,
                ParseError,
            >(e),
        },
{
    let ghost input = symbols_view(symbols@);
    let mut rest = symbols;
    let mut output: Vec<PositionedSymbol> = Vec::new();
    let mut operator_stack: Vec<PositionedOperator> = Vec::new();
    let mut i: usize = 0;
    let length = rest.len();
    proof {
        assert(input.take(0) =~= Seq::<PositionedSymbolV>::empty());
        assert(symbols_view(output@) =~= Seq::<PositionedSymbolV>::empty());
    }
    while i < length
        invariant
            input == symbols_view(symbols@),
            i <= length,
            length == input.len(),
            rest@.len() == length - i,
            symbols_view(rest@) == input.skip(i as int),
            shunt_run(input.take(i as int), shunt_init()) == Ok::<ShuntStateV, ParseError>(
                ShuntStateV { out: symbols_view(output@), stack: operator_stack@ },
            ),
        decreases length - i,
    {
        let ghost st = ShuntStateV { out: symbols_view(output@), stack: operator_stack@ };
        proof {
            assert(input.take(i + 1).drop_last() =~= input.take(i as int));
            assert(input.take(i + 1).last() == input[i as int]);
        }
        let ghost prev_rest = rest@;
        let ps = rest.remove(0);
        proof {
            assert forall|k: int| 0 <= k < rest@.len() implies #[trigger] symbols_view(rest@)[k]
                == input.skip(i + 1)[k] by {
                assert(rest@[k] == prev_rest[k + 1]);
                assert(symbols_view(prev_rest)[k + 1] == input.skip(i as int)[k + 1]);
            }
            assert(symbols_view(rest@) =~= input.skip(i + 1));
            assert(ps@ == symbols_view(prev_rest)[0]);
            assert(ps@ == input[i as int]);
        }
        let ghost sv = ps@;
        let PositionedSymbol { symbol, start: sym_start, end: sym_end } = ps;
        match symbol {
            Symbol::Operand(expr) => {
                output.push(
                    PositionedSymbol { symbol: Symbol::Operand(expr), start: sym_start, end: sym_end },
                );
                proof {
                    assert(symbols_view(output@) =~= st.out.push(sv));
                }
            },
            Symbol::Operator(op) => {
                let precedence = match op.binary_precedence() {
                    Some(p) => p,
                    None => {
                        proof {
                            assert(shunt_step(st, sv) == Err::<ShuntStateV, ParseError>(
                                ParseError::IllegalBinaryOperator {
                                    op,
                                    start: sv.start,
                                    end: sv.end,
                                },
                            ));
                            lemma_shunt_run_extends_error(input, i + 1, shunt_init());
                        }
                        return Err(
                            ParseError::IllegalBinaryOperator {
                                op,
                                start: sym_start,
                                end: sym_end,
                            },
                        );
                    },
                };
                loop
                    invariant
                        1 <= precedence,
                        pop_ge(st, precedence) == pop_ge(
                            ShuntStateV { out: symbols_view(output@), stack: operator_stack@ },
                            precedence,
                        ),
                    ensures
                        pop_ge(st, precedence) == (ShuntStateV {
                            out: symbols_view(output@),
                            stack: operator_stack@,
                        }),
                    decreases operator_stack@.len(),
                {
                    let ghost cur = ShuntStateV {
                        out: symbols_view(output@),
                        stack: operator_stack@,
                    };
                    let stack_len = operator_stack.len();
                    if stack_len == 0 {
                        break ;
                    }
                    let top = operator_stack[stack_len - 1];
                    let keep_popping = match top.operator.binary_precedence() {
                        Some(t) => t >= precedence,
                        None => false,
                    };
                    if keep_popping {
                        operator_stack.pop();
                        output.push(
                            PositionedSymbol {
                                symbol: Symbol::Operator(top.operator),
                                start: top.start,
                                end: top.end,
                            },
                        );
                        proof {
                            assert(symbols_view(output@) =~= cur.out.push(op_symbol(top)));
                            assert(pop_ge(cur, precedence) == pop_ge(
                                ShuntStateV {
                                    out: symbols_view(output@),
                                    stack: operator_stack@,
                                },
                                precedence,
                            ));
                        }
                    } else {
                        proof {
                            assert(tier(top.operator) < precedence);
                            assert(pop_ge(cur, precedence) == cur);
                        }
                        break ;
                    }
                }
                operator_stack.push(
                    PositionedOperator { operator: op, start: sym_start, end: sym_end },
                );
                proof {
                    assert(shunt_step(st, sv) == Ok::<ShuntStateV, ParseError>(
                        ShuntStateV { out: symbols_view(output@), stack: operator_stack@ },
                    ));
                }
            },
        }
        i = i + 1;
    }
    proof {
        assert(input.take(length as int) =~= input);
    }
    let ghost st_done = ShuntStateV { out: symbols_view(output@), stack: operator_stack@ };
    loop
        invariant
            drain(st_done) == drain(
                ShuntStateV { out: symbols_view(output@), stack: operator_stack@ },
            ),
        ensures
            operator_stack@.len() == 0,
            drain(st_done) == symbols_view(output@),
        decreases operator_stack@.len(),
    {
        let ghost cur = ShuntStateV { out: symbols_view(output@), stack: operator_stack@ };
        match operator_stack.pop() {
            None => {
                break ;
            },
            Some(top) => {
                output.push(
                    PositionedSymbol {
                        symbol: Symbol::Operator(top.operator),
                        start: top.start,
                        end: top.end,
                    },
                );
                proof {
                    assert(symbols_view(output@) =~= cur.out.push(op_symbol(top)));
                }
            },
        }
    }
    Ok(output)
}

} // verus!
