//! Symbols: tokens reinterpreted for parsing.
//!
//! A symbol is either an operand (a ready expression sub-tree) or an
//! operator, and carries the source span it originated from.

use vstd::prelude::*;
use crate::token::Operator;
use crate::tree::ExpressionTree;
use crate::tree::TreeV;

verus! {

/// A token reinterpreted as either an operand or an operator.
#[derive(Debug, PartialEq)]
pub enum Symbol {
    Operand(ExpressionTree),
    Operator(Operator),
}

/// The mathematical value of a [`Symbol`].
#[verifier::ext_equal]
pub enum SymbolV {
    Operand(TreeV),
    Operator(Operator),
}

impl View for Symbol {
    type V = SymbolV;

    open spec fn view(&self) -> SymbolV {
        match self {
            Symbol::Operand(t) => SymbolV::Operand(t@),
            Symbol::Operator(op) => SymbolV::Operator(*op),
        }
    }
}

/// A symbol together with the half-open source span it originated from.
#[derive(Debug, PartialEq)]
pub struct PositionedSymbol {
    pub symbol: Symbol,
    pub start: usize,
    pub end: usize,
}

/// The mathematical value of a [`PositionedSymbol`].
#[verifier::ext_equal]
pub struct PositionedSymbolV {
    pub symbol: SymbolV,
    pub start: usize,
    pub end: usize,
}

impl View for PositionedSymbol {
    type V = PositionedSymbolV;

    open spec fn view(&self) -> PositionedSymbolV {
        PositionedSymbolV { symbol: self.symbol@, start: self.start, end: self.end }
    }
}

/// An operator together with the span of its token.
#[derive(Debug, Clone, Copy, PartialEq, Eq, Structural)]
pub struct PositionedOperator {
    pub operator: Operator,
    pub start: usize,
    pub end: usize,
}

/// The views of a sequence of positioned symbols.
pub open spec fn symbols_view(v: Seq<PositionedSymbol>) -> Seq<PositionedSymbolV> {
    v.map(|i: int, ps: PositionedSymbol| ps@)
}

/// Removes every `None` from a vector of options, keeping the order of
/// the remaining values.
pub fn to_cleaned_symbols<S>(symbols: &mut Vec<Option<S>>)
    ensures
        final(symbols)@ == old(symbols)@.filter(|s: Option<S>| s is Some),
{
    let ghost input = symbols@;
    let mut cleaned: Vec<Option<S>> = Vec::new();
    proof {
        reveal(Seq::filter);
        assert(input.take(0) =~= Seq::<Option<S>>::empty());
    }
    let mut i: usize = 0;
    let length = symbols.len();
    while i < length
        invariant
            i <= length,
            length == input.len(),
            symbols@ == input.skip(i as int),
            cleaned@ == input.take(i as int).filter(|s: Option<S>| s is Some),
        decreases length - i,
    {
        proof {
            reveal(Seq::filter);
            assert(input.take(i + 1).drop_last() =~= input.take(i as int));
            assert(input.take(i + 1).last() == input[i as int]);
            assert(input.skip(i as int)[0] == input[i as int]);
        }
        let element = symbols.remove(0);
        proof {
            assert(symbols@ =~= input.skip(i + 1));
        }
        if element.is_some() {
            cleaned.push(element);
        }
        i = i + 1;
    }
    *symbols = cleaned;
    proof {
        assert(input.take(length as int) =~= input);
    }
}

} // verus!
