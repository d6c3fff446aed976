//! The symbolizer and the whole-pipeline parser.
//!
//! The symbolizer turns tokens into symbols: operator tokens become
//! operator symbols, literal tokens become literal operands, an
//! identifier is interned in the shared variable table and becomes a
//! variable operand, and a parenthesized group is parsed recursively by
//! the whole pipeline into one already-composed operand. A `)` closes
//! the current nested call and is a fatal error at the top level; input
//! that ends inside an open parenthesis is rejected as unterminated.
//!
//! The parser chains the stages: symbolize, fold prefix operators,
//! convert to postfix, compose one tree.

use vstd::prelude::*;
use vstd::string::StringExecFns;
use crate::compose::compose_binary_expressions;
use crate::compose::compose_binary_spec;
use crate::error::ParseError;
use crate::shunting::shunting_spec;
use crate::shunting::shunting_yard_algorithm;
use crate::symbols::PositionedSymbol;
use crate::symbols::PositionedSymbolV;
use crate::symbols::Symbol;
use crate::symbols::SymbolV;
use crate::symbols::symbols_view;
use crate::token::Operator;
use crate::token::Token;
use crate::token::TokenV;
use crate::tokenizer::LexStep;
use crate::tokenizer::PositionedToken;
use crate::tokenizer::PositionedTokenV;
use crate::tokenizer::last_end;
use crate::tokenizer::next_step;
use crate::tokenizer::token_run;
use crate::tokenizer::tokenize;
use crate::tokenizer::tokens_view;
use crate::tree::ExpressionTree;
use crate::tree::TreeV;
use crate::unary::compose_unary_expressions;
use crate::unary::fold_unaries;
use crate::variables::intern_spec;
use crate::variables::intern_variable;
use crate::variables::names_view;

verus! {

/// What symbolizing from one position yields: the symbols up to the end
/// of the current level, the variable table afterwards, and the position
/// just past the consumed tokens.
#[verifier::ext_equal]
pub struct SymbolsOut {
    pub symbols: Seq<PositionedSymbolV>,
    pub vars: Seq<Seq<char>>,
    pub next: int,
}

/// What parsing one expression from one position yields: the finished
/// tree, the variable table afterwards, and the position just past the
/// consumed tokens.
#[verifier::ext_equal]
pub struct ParseOut {
    pub tree: TreeV,
    pub vars: Seq<Seq<char>>,
    pub next: int,
}

/// Puts one symbol in front of a symbolizer outcome.
pub open spec fn prepend_sym(sv: PositionedSymbolV, r: Result<SymbolsOut, ParseError>) -> Result<
    SymbolsOut,
    ParseError,
> {
    match r {
        Ok(o) => Ok(SymbolsOut { symbols: seq![sv] + o.symbols, vars: o.vars, next: o.next }),
        Err(e) => Err(e),
    }
}

/// Puts a whole symbol prefix in front of a symbolizer outcome.
pub open spec fn prepend_all(
    syms: Seq<PositionedSymbolV>,
    r: Result<SymbolsOut, ParseError>,
) -> Result<SymbolsOut, ParseError> {
    match r {
        Ok(o) => Ok(SymbolsOut { symbols: syms + o.symbols, vars: o.vars, next: o.next }),
        Err(e) => Err(e),
    }
}

/// The offset just past the last token: where the input ends.
pub open spec fn end_offset(tokens: Seq<PositionedTokenV>) -> int {
    if tokens.len() == 0 {
        0
    } else {
        tokens.last().end as int
    }
}

/// An operator symbol made from a token.
pub open spec fn op_sym(op: Operator, t: PositionedTokenV) -> PositionedSymbolV {
    PositionedSymbolV { symbol: SymbolV::Operator(op), start: t.start, end: t.end }
}

/// An operand symbol made from a token.
pub open spec fn operand_sym(tree: TreeV, t: PositionedTokenV) -> PositionedSymbolV {
    PositionedSymbolV { symbol: SymbolV::Operand(tree), start: t.start, end: t.end }
}

/// What symbolizing `tokens` from position `i` with variable table
/// `vars` yields. `nested` says whether this level sits inside an open
/// parenthesis: only then does `)` close the level, and reaching the end
/// of input while nested is an unterminated parenthesis.
///
/// The one dead branch guards the recursion: a nested parse always
/// consumes at least its opening token, as [`lemma_parse_bounds`] shows.
pub open spec fn symbolize_spec(
    tokens: Seq<PositionedTokenV>,
    i: int,
    vars: Seq<Seq<char>>,
    nested: bool,
) -> Result<SymbolsOut, ParseError>
    decreases tokens.len() - i, 0int,
{
    if i < 0 || i >= tokens.len() {
        if nested {
            Err(ParseError::UnterminatedParenthesis { at: end_offset(tokens) as usize })
        } else {
            Ok(SymbolsOut { symbols: Seq::empty(), vars, next: i })
        }
    } else {
        let t = tokens[i];
        match t.token {
            TokenV::RightParenthesis => {
                if nested {
                    Ok(SymbolsOut { symbols: Seq::empty(), vars, next: i + 1 })
                } else {
                    Err(ParseError::UnexpectedClosingParenthesis { at: t.end })
                }
            },
            TokenV::LeftParenthesis => {
                match parse_expr_spec(tokens, i + 1, vars, true) {
                    Err(e) => Err(e),
                    Ok(p) => {
                        if i < p.next && p.next <= tokens.len() {
                            prepend_sym(
                                operand_sym(p.tree, t),
                                symbolize_spec(tokens, p.next, p.vars, nested),
                            )
                        } else {
                            Err(ParseError::UnreducedComposition)
                        }
                    },
                }
            },
            TokenV::Identifier(name) => prepend_sym(
                operand_sym(TreeV::Variable(intern_spec(vars, name).0 as usize), t),
                symbolize_spec(tokens, i + 1, intern_spec(vars, name).1, nested),
            ),
            TokenV::IntLiteral(v) => prepend_sym(
                operand_sym(TreeV::SignedIntLiteral(v), t),
                symbolize_spec(tokens, i + 1, vars, nested),
            ),
            TokenV::FloatLiteral(text) => prepend_sym(
                operand_sym(TreeV::Float64Literal(text), t),
                symbolize_spec(tokens, i + 1, vars, nested),
            ),
            TokenV::BoolLiteral(b) => prepend_sym(
                operand_sym(
                    TreeV::UnsignedIntLiteral(
                        if b {
                            1
                        } else {
                            0
                        },
                    ),
                    t,
                ),
                symbolize_spec(tokens, i + 1, vars, nested),
            ),
            TokenV::Plus => prepend_sym(
                op_sym(Operator::Plus, t),
                symbolize_spec(tokens, i + 1, vars, nested),
            ),
            TokenV::Minus => prepend_sym(
                op_sym(Operator::Minus, t),
                symbolize_spec(tokens, i + 1, vars, nested),
            ),
            TokenV::Asterisk => prepend_sym(
                op_sym(Operator::Asterisk, t),
                symbolize_spec(tokens, i + 1, vars, nested),
            ),
            TokenV::Slash => prepend_sym(
                op_sym(Operator::Slash, t),
                symbolize_spec(tokens, i + 1, vars, nested),
            ),
            TokenV::DoubleSlash => prepend_sym(
                op_sym(Operator::DoubleSlash, t),
                symbolize_spec(tokens, i + 1, vars, nested),
            ),
            TokenV::DoubleAsterisk => prepend_sym(
                op_sym(Operator::DoubleAsterisk, t),
                symbolize_spec(tokens, i + 1, vars, nested),
            ),
            TokenV::Backslash => prepend_sym(
                op_sym(Operator::Backslash, t),
                symbolize_spec(tokens, i + 1, vars, nested),
            ),
            TokenV::Percent => prepend_sym(
                op_sym(Operator::Percent, t),
                symbolize_spec(tokens, i + 1, vars, nested),
            ),
            TokenV::Caret => prepend_sym(
                op_sym(Operator::Caret, t),
                symbolize_spec(tokens, i + 1, vars, nested),
            ),
            TokenV::Comma => prepend_sym(
                op_sym(Operator::Comma, t),
                symbolize_spec(tokens, i + 1, vars, nested),
            ),
            TokenV::Period => prepend_sym(
                op_sym(Operator::Period, t),
                symbolize_spec(tokens, i + 1, vars, nested),
            ),
            TokenV::Equals => prepend_sym(
                op_sym(Operator::Equals, t),
                symbolize_spec(tokens, i + 1, vars, nested),
            ),
            TokenV::NotEquals => prepend_sym(
                op_sym(Operator::NotEquals, t),
                symbolize_spec(tokens, i + 1, vars, nested),
            ),
            TokenV::LessThan => prepend_sym(
                op_sym(Operator::LessThan, t),
                symbolize_spec(tokens, i + 1, vars, nested),
            ),
            TokenV::LessThanOrEqual => prepend_sym(
                op_sym(Operator::LessThanOrEqual, t),
                symbolize_spec(tokens, i + 1, vars, nested),
            ),
            TokenV::GreaterThan => prepend_sym(
                op_sym(Operator::GreaterThan, t),
                symbolize_spec(tokens, i + 1, vars, nested),
            ),
            TokenV::GreaterThanOrEqual => prepend_sym(
                op_sym(Operator::GreaterThanOrEqual, t),
                symbolize_spec(tokens, i + 1, vars, nested),
            ),
        }
    }
}

/// What parsing one whole expression from position `i` yields: the
/// symbolized level is folded, converted to postfix, and composed into
/// one tree.
pub open spec fn parse_expr_spec(
    tokens: Seq<PositionedTokenV>,
    i: int,
    vars: Seq<Seq<char>>,
    nested: bool,
) -> Result<ParseOut, ParseError>
    decreases tokens.len() - i, 1int,
{
    match symbolize_spec(tokens, i, vars, nested) {
        Err(e) => Err(e),
        Ok(o) => match fold_unaries(o.symbols) {
            Err(e) => Err(e),
            Ok(folded) => match shunting_spec(folded) {
                Err(e) => Err(e),
                Ok(postfix) => match compose_binary_spec(postfix) {
                    Err(e) => Err(e),
                    Ok(tree) => Ok(ParseOut { tree, vars: o.vars, next: o.next }),
                },
            },
        },
    }
}

/// A successful symbolizer outcome never steps backwards or past the end
/// of the tokens.
pub proof fn lemma_symbolize_bounds(
    tokens: Seq<PositionedTokenV>,
    i: int,
    vars: Seq<Seq<char>>,
    nested: bool,
)
    requires
        0 <= i <= tokens.len(),
    ensures
        symbolize_spec(tokens, i, vars, nested) matches Ok(o) ==> i <= o.next <= tokens.len(),
    decreases tokens.len() - i, 0int,
{
    if i < tokens.len() {
        let t = tokens[i];
        match t.token {
            TokenV::RightParenthesis => {},
            TokenV::LeftParenthesis => {
                lemma_parse_bounds(tokens, i + 1, vars, true);
                match parse_expr_spec(tokens, i + 1, vars, true) {
                    Ok(p) => {
                        if i < p.next && p.next <= tokens.len() {
                            lemma_symbolize_bounds(tokens, p.next, p.vars, nested);
                        }
                    },
                    Err(_) => {},
                }
            },
            TokenV::Identifier(name) => {
                lemma_symbolize_bounds(tokens, i + 1, intern_spec(vars, name).1, nested);
            },
            _ => {
                lemma_symbolize_bounds(tokens, i + 1, vars, nested);
            },
        }
    }
}

/// A successful parse never steps backwards or past the end of the
/// tokens, and inside a parenthesis it consumes at least one token.
pub proof fn lemma_parse_bounds(
    tokens: Seq<PositionedTokenV>,
    i: int,
    vars: Seq<Seq<char>>,
    nested: bool,
)
    requires
        0 <= i <= tokens.len(),
    ensures
        parse_expr_spec(tokens, i, vars, nested) matches Ok(p) ==> i <= p.next <= tokens.len(),
    decreases tokens.len() - i, 1int,
{
    lemma_symbolize_bounds(tokens, i, vars, nested);
}

/// Putting one more symbol in front associates with accumulation.
proof fn lemma_prepend_step(
    acc: Seq<PositionedSymbolV>,
    sv: PositionedSymbolV,
    r: Result<SymbolsOut, ParseError>,
)
    ensures
        prepend_all(acc.push(sv), r) == prepend_all(acc, prepend_sym(sv, r)),
{
    match r {
        Ok(o) => {
            assert(acc.push(sv) + o.symbols =~= acc + (seq![sv] + o.symbols));
            assert(prepend_all(acc.push(sv), r)->Ok_0 =~= prepend_all(
                acc,
                prepend_sym(sv, r),
            )->Ok_0);
        },
        Err(_) => {},
    }
}

/// A prefix of a prefix is a prefix: the variable table only ever
/// grows, so an old table stays a prefix through any chain of appends.
proof fn lemma_prefix_chain(a: Seq<Seq<char>>, b: Seq<Seq<char>>, c: Seq<Seq<char>>)
    requires
        a.is_prefix_of(b),
        b.is_prefix_of(c),
    ensures
        a.is_prefix_of(c),
{
    assert(c.subrange(0, a.len() as int) =~= a) by {
        assert(forall|k: int|
            0 <= k < a.len() ==> c.subrange(0, a.len() as int)[k] == #[trigger] a[k]) by {
            assert(forall|k: int|
                0 <= k < a.len() ==> a[k] == b.subrange(0, a.len() as int)[k]);
            assert(forall|k: int|
                0 <= k < b.len() ==> b[k] == c.subrange(0, b.len() as int)[k]);
        }
    }
}

/// Converts the tokens from `*position` on into one level of symbols,
/// interning identifiers into the shared variable table and parsing each
/// parenthesized group recursively into one operand.
pub fn into_symbols(
    tokens: &Vec<PositionedToken>,
    position: &mut usize,
    variables: &mut Vec<String>,
    in_parenthesis: bool,
) -> (r: Result<Vec<PositionedSymbol>, ParseError>)
    requires
        *old(position) <= tokens@.len(),
    ensures
        *final(position) <= tokens@.len(),
        names_view(old(variables)@).is_prefix_of(names_view(final(variables)@)),
        match r {
            Ok(v) => symbolize_spec(
                tokens_view(tokens@),
                *old(position) as int,
                names_view(old(variables)@),
                in_parenthesis,
            ) == Ok::<SymbolsOut, ParseError>(
                SymbolsOut {
                    symbols: symbols_view(v@),
                    vars: names_view(final(variables)@),
                    next: *final(position) as int,
                },
            ),
            Err(e) => symbolize_spec(
                tokens_view(tokens@),
                *old(position) as int,
                names_view(old(variables)@),
                in_parenthesis,
            ) == Err::<SymbolsOut, ParseError>(e),
        },
    decreases tokens@.len() - *old(position), 0int,
{
    let ghost tv = tokens_view(tokens@);
    let ghost i0 = *position as int;
    let ghost vars0 = names_view(variables@);
    let mut out: Vec<PositionedSymbol> = Vec::new();
    let length = tokens.len();
    proof {
        assert(symbols_view(out@) =~= Seq::<PositionedSymbolV>::empty());
        assert(prepend_all(symbols_view(out@), symbolize_spec(tv, i0, vars0, in_parenthesis))
            == symbolize_spec(tv, i0, vars0, in_parenthesis)) by {
            match symbolize_spec(tv, i0, vars0, in_parenthesis) {
                Ok(o) => {
                    assert(symbols_view(out@) + o.symbols =~= o.symbols);
                    assert(prepend_all(
                        symbols_view(out@),
                        symbolize_spec(tv, i0, vars0, in_parenthesis),
                    )->Ok_0 =~= o);
                },
                Err(_) => {},
            }
        }
    }
    proof {
        assert(names_view(variables@).subrange(0, vars0.len() as int) =~= vars0);
    }
    loop
        invariant
            tv == tokens_view(tokens@),
            i0 == *old(position) as int,
            vars0 == names_view(old(variables)@),
            vars0.is_prefix_of(names_view(variables@)),
            length == tokens@.len(),
            i0 <= *position as int <= length as int,
            prepend_all(
                symbols_view(out@),
                symbolize_spec(
                    tv,
                    *position as int,
                    names_view(variables@),
                    in_parenthesis,
                ),
            ) == symbolize_spec(tv, i0, vars0, in_parenthesis),
        decreases length - *position,
    {
        let ghost acc = symbols_view(out@);
        let ghost i = *position as int;
        let ghost vars_now = names_view(variables@);
        if *position >= length {
            if in_parenthesis {
                let at = if length == 0 {
                    0
                } else {
                    tokens[length - 1].end
                };
                proof {
                    assert(at as int == end_offset(tv));
                }
                return Err(ParseError::UnterminatedParenthesis { at });
            } else {
                proof {
                    assert(symbolize_spec(tv, i, vars_now, in_parenthesis) == Ok::<
                        SymbolsOut,
                        ParseError,
                    >(SymbolsOut { symbols: Seq::empty(), vars: vars_now, next: i }));
                    assert(acc + Seq::<PositionedSymbolV>::empty() =~= acc);
                }
                return Ok(out);
            }
        }
        let idx = *position;
        let ghost t = tv[i];
        proof {
            assert(t == tokens@[idx as int]@);
        }
        let sym_start = tokens[idx].start;
        let sym_end = tokens[idx].end;
        proof {
            assert(sym_start == t.start && sym_end == t.end);
        }
        *position = idx + 1;
        let symbol: Symbol = match &tokens[idx].token {
            Token::RightParenthesis => {
                if in_parenthesis {
                    proof {
                        assert(symbolize_spec(tv, i, vars_now, in_parenthesis) == Ok::<
                            SymbolsOut,
                            ParseError,
                        >(SymbolsOut { symbols: Seq::empty(), vars: vars_now, next: i + 1 }));
                        assert(acc + Seq::<PositionedSymbolV>::empty() =~= acc);
                    }
                    return Ok(out);
                } else {
                    return Err(ParseError::UnexpectedClosingParenthesis { at: sym_end });
                }
            },
            Token::LeftParenthesis => {
                let nested_tree = match into_expr_tree(tokens, position, variables, true) {
                    Ok(tree) => tree,
                    Err(e) => {
                        proof {
                            lemma_prefix_chain(vars0, vars_now, names_view(variables@));
                        }
                        return Err(e);
                    },
                };
                proof {
                    lemma_parse_bounds(tv, i + 1, vars_now, true);
                    lemma_prefix_chain(vars0, vars_now, names_view(variables@));
                }
                Symbol::Operand(nested_tree)
            },
            Token::Identifier(name) => {
                let owned = name.clone();
                let index = intern_variable(variables, owned);
                proof {
                    assert(vars_now.is_prefix_of(names_view(variables@))) by {
                        assert(names_view(variables@).subrange(0, vars_now.len() as int)
                            =~= vars_now);
                    }
                    lemma_prefix_chain(vars0, vars_now, names_view(variables@));
                }
                Symbol::Operand(ExpressionTree::Variable(index))
            },
            Token::IntLiteral(v) => Symbol::Operand(ExpressionTree::SignedIntLiteral(*v)),
            Token::FloatLiteral(text) => Symbol::Operand(
                ExpressionTree::Float64Literal(text.clone()),
            ),
            Token::BoolLiteral(b) => Symbol::Operand(
                ExpressionTree::UnsignedIntLiteral(
                    if *b {
                        1
                    } else {
                        0
                    },
                ),
            ),
            Token::Plus => Symbol::Operator(Operator::Plus),
            Token::Minus => Symbol::Operator(Operator::Minus),
            Token::Asterisk => Symbol::Operator(Operator::Asterisk),
            Token::Slash => Symbol::Operator(Operator::Slash),
            Token::DoubleSlash => Symbol::Operator(Operator::DoubleSlash),
            Token::DoubleAsterisk => Symbol::Operator(Operator::DoubleAsterisk),
            Token::Backslash => Symbol::Operator(Operator::Backslash),
            Token::Percent => Symbol::Operator(Operator::Percent),
            Token::Caret => Symbol::Operator(Operator::Caret),
            Token::Comma => Symbol::Operator(Operator::Comma),
            Token::Period => Symbol::Operator(Operator::Period),
            Token::Equals => Symbol::Operator(Operator::Equals),
            Token::NotEquals => Symbol::Operator(Operator::NotEquals),
            Token::LessThan => Symbol::Operator(Operator::LessThan),
            Token::LessThanOrEqual => Symbol::Operator(Operator::LessThanOrEqual),
            Token::GreaterThan => Symbol::Operator(Operator::GreaterThan),
            Token::GreaterThanOrEqual => Symbol::Operator(Operator::GreaterThanOrEqual),
        };
        out.push(PositionedSymbol { symbol, start: sym_start, end: sym_end });
        proof {
            let sv = out@[out@.len() - 1]@;
            assert(symbols_view(out@) =~= acc.push(sv));
            lemma_prepend_step(acc, sv, symbolize_spec(
                tv,
                *position as int,
                names_view(variables@),
                in_parenthesis,
            ));
            assert(symbolize_spec(tv, i, vars_now, in_parenthesis) == prepend_sym(
                sv,
                symbolize_spec(tv, *position as int, names_view(variables@), in_parenthesis),
            ));
        }
    }
}

/// Parses one expression from `*position` on: symbolizes the level,
/// folds the prefix operators, converts to postfix, and composes the
/// tree.
pub fn into_expr_tree(
    tokens: &Vec<PositionedToken>,
    position: &mut usize,
    variables: &mut Vec<String>,
    in_parenthesis: bool,
) -> (r: Result<ExpressionTree, ParseError>)
    requires
        *old(position) <= tokens@.len(),
    ensures
        *final(position) <= tokens@.len(),
        names_view(old(variables)@).is_prefix_of(names_view(final(variables)@)),
        match r {
            Ok(tree) => parse_expr_spec(
                tokens_view(tokens@),
                *old(position) as int,
                names_view(old(variables)@),
                in_parenthesis,
            ) == Ok::<ParseOut, ParseError>(
                ParseOut {
                    tree: tree@,
                    vars: names_view(final(variables)@),
                    next: *final(position) as int,
                },
            ),
            Err(e) => parse_expr_spec(
                tokens_view(tokens@),
                *old(position) as int,
                names_view(old(variables)@),
                in_parenthesis,
            ) == Err::<ParseOut, ParseError>(e),
        },
    decreases tokens@.len() - *old(position), 1int,
{
    let symbols = match into_symbols(tokens, position, variables, in_parenthesis) {
        Ok(v) => v,
        Err(e) => {
            return Err(e);
        },
    };
    let folded = match compose_unary_expressions(symbols) {
        Ok(v) => v,
        Err(e) => {
            return Err(e);
        },
    };
    let postfix = match shunting_yard_algorithm(folded) {
        Ok(v) => v,
        Err(e) => {
            return Err(e);
        },
    };
    match compose_binary_expressions(postfix) {
        Ok(tree) => Ok(tree),
        Err(e) => Err(e),
    }
}


/// At the top level the symbolizer stops only at the end of input: a
/// successful non-nested run consumes every token.
pub proof fn lemma_symbolize_consumes_all(
    tokens: Seq<PositionedTokenV>,
    i: int,
    vars: Seq<Seq<char>>,
)
    requires
        0 <= i <= tokens.len(),
    ensures
        symbolize_spec(tokens, i, vars, false) matches Ok(o) ==> o.next == tokens.len(),
    decreases tokens.len() - i,
{
    if i < tokens.len() {
        let t = tokens[i];
        match t.token {
            TokenV::RightParenthesis => {},
            TokenV::LeftParenthesis => {
                lemma_parse_bounds(tokens, i + 1, vars, true);
                match parse_expr_spec(tokens, i + 1, vars, true) {
                    Ok(p) => {
                        if i < p.next && p.next <= tokens.len() {
                            lemma_symbolize_consumes_all(tokens, p.next, p.vars);
                        }
                    },
                    Err(_) => {},
                }
            },
            TokenV::Identifier(name) => {
                lemma_symbolize_consumes_all(tokens, i + 1, intern_spec(vars, name).1);
            },
            _ => {
                lemma_symbolize_consumes_all(tokens, i + 1, vars);
            },
        }
    }
}

/// Parses one whole formula: tokenizes the text, then parses the tokens
/// from the start with a fresh variable table.
///
/// On success the returned tree and table are exactly what the parsing
/// relation yields on the exact token run of the input; on failure the
/// error is the lexical error the step relation yields, or the parse
/// error on the complete token run.
pub fn parse_formula(text: &str) -> (r: Result<(ExpressionTree, Vec<String>), ParseError>)
    ensures
        match r {
            Ok(pair) => exists|ts: Seq<PositionedTokenV>|
                {
                    &&& #[trigger] token_run(text@, ts)
                    &&& 0 <= last_end(ts) <= text@.len()
                    &&& next_step(text@, last_end(ts)) is None
                    &&& parse_expr_spec(ts, 0, Seq::empty(), false) == Ok::<ParseOut, ParseError>(
                        ParseOut {
                            tree: pair.0@,
                            vars: names_view(pair.1@),
                            next: ts.len() as int,
                        },
                    )
                },
            Err(e) => exists|ts: Seq<PositionedTokenV>|
                {
                    &&& #[trigger] token_run(text@, ts)
                    &&& 0 <= last_end(ts) <= text@.len()
                    &&& (next_step(text@, last_end(ts)) == Some(LexStep::Fail { err: e }) || (
                    next_step(text@, last_end(ts)) is None && parse_expr_spec(
                        ts,
                        0,
                        Seq::empty(),
                        false,
                    ) == Err::<ParseOut, ParseError>(e)))
                },
        },
{
    let owned = String::from_str(text);
    let tokens = match tokenize(owned) {
        Ok(v) => v,
        Err(e) => {
            return Err(e);
        },
    };
    let ghost ts = tokens_view(tokens@);
    let mut position: usize = 0;
    let mut variables: Vec<String> = Vec::new();
    proof {
        assert(names_view(variables@) =~= Seq::<Seq<char>>::empty());
    }
    match into_expr_tree(&tokens, &mut position, &mut variables, false) {
        Ok(tree) => {
            proof {
                lemma_symbolize_consumes_all(ts, 0, Seq::empty());
            }
            Ok((tree, variables))
        },
        Err(e) => Err(e),
    }
}

/// The pipeline on a single already-composed operand: folding, postfix
/// conversion and composition all leave it alone, and the tree comes
/// back as the result.
proof fn lemma_pipeline_single_operand(sv: PositionedSymbolV, tree: TreeV)
    requires
        sv.symbol == SymbolV::Operand(tree),
    ensures
        fold_unaries(seq![sv]) == Ok::<Seq<PositionedSymbolV>, ParseError>(seq![sv]),
        shunting_spec(seq![sv]) == Ok::<Seq<PositionedSymbolV>, ParseError>(seq![sv]),
        compose_binary_spec(seq![sv]) == Ok::<TreeV, ParseError>(tree),
{
    let one = seq![sv];
    assert(one.drop_last() =~= Seq::<PositionedSymbolV>::empty());
    assert(one.last() == sv);
    let st0 = crate::unary::unary_init();
    assert(crate::unary::unary_run(one.drop_last(), st0) == Ok::<
        crate::unary::UnaryStateV,
        ParseError,
    >(st0));
    assert(crate::unary::apply_pending(tree, st0.pending) == Ok::<TreeV, ParseError>(tree));
    match crate::unary::unary_run(one, st0) {
        Ok(st) => {
            assert(st.out =~= Seq::<PositionedSymbolV>::empty().push(
                PositionedSymbolV { symbol: SymbolV::Operand(tree), start: sv.start, end: sv.end },
            ));
            assert(st.out =~= one);
            assert(fold_unaries(one) == Ok::<Seq<PositionedSymbolV>, ParseError>(st.out));
        },
        Err(_) => {
            assert(false);
        },
    }
    let sh0 = crate::shunting::shunt_init();
    assert(crate::shunting::shunt_run(one.drop_last(), sh0) == Ok::<
        crate::shunting::ShuntStateV,
        ParseError,
    >(sh0));
    match crate::shunting::shunt_run(one, sh0) {
        Ok(st) => {
            assert(st.out =~= one);
            assert(st.stack =~= Seq::<crate::symbols::PositionedOperator>::empty());
            assert(crate::shunting::drain(st) == st.out);
            assert(shunting_spec(one) == Ok::<Seq<PositionedSymbolV>, ParseError>(one));
        },
        Err(_) => {
            assert(false);
        },
    }
    assert(crate::compose::compose_run(one, Seq::empty()) == Ok::<TreeV, ParseError>(tree));
}

/// Parenthesis nesting is transparent: however deep `v` is wrapped, each
/// nested level parses to the same literal node. `k` is the level's
/// start position; levels below the top sit inside an open parenthesis
/// and consume through their closing one.
proof fn lemma_nested_literal_level(
    tokens: Seq<PositionedTokenV>,
    n: int,
    v: i64,
    vars: Seq<Seq<char>>,
    k: int,
)
    requires
        0 <= n,
        1 <= k <= n,
        tokens.len() == 2 * n + 1,
        forall|j: int| 0 <= j < n ==> (#[trigger] tokens[j].token) is LeftParenthesis,
        tokens[n as int].token == TokenV::IntLiteral(v),
        forall|j: int| n < j <= 2 * n ==> (#[trigger] tokens[j].token) is RightParenthesis,
    ensures
        parse_expr_spec(tokens, k, vars, true) == Ok::<ParseOut, ParseError>(
            ParseOut { tree: TreeV::SignedIntLiteral(v), vars, next: 2 * n + 2 - k },
        ),
    decreases n - k,
{
    let lit = TreeV::SignedIntLiteral(v);
    if k == n {
        let t = tokens[n as int];
        let close = tokens[n + 1];
        assert(close.token is RightParenthesis);
        assert(symbolize_spec(tokens, n + 1, vars, true) == Ok::<SymbolsOut, ParseError>(
            SymbolsOut { symbols: Seq::empty(), vars, next: n + 2 },
        ));
        let sv = operand_sym(lit, t);
        assert(symbolize_spec(tokens, k, vars, true) == prepend_sym(
            sv,
            symbolize_spec(tokens, n + 1, vars, true),
        ));
        assert(seq![sv] + Seq::<PositionedSymbolV>::empty() =~= seq![sv]);
        assert(symbolize_spec(tokens, k, vars, true) == Ok::<SymbolsOut, ParseError>(
            SymbolsOut { symbols: seq![sv], vars, next: n + 2 },
        ));
        lemma_pipeline_single_operand(sv, lit);
    } else {
        lemma_nested_literal_level(tokens, n, v, vars, k + 1);
        let t = tokens[k];
        assert(t.token is LeftParenthesis);
        let p_next = 2 * n + 2 - (k + 1);
        assert(k < p_next && p_next <= tokens.len());
        let close = tokens[p_next];
        assert(n < p_next <= 2 * n);
        assert(close.token is RightParenthesis);
        assert(symbolize_spec(tokens, p_next, vars, true) == Ok::<SymbolsOut, ParseError>(
            SymbolsOut { symbols: Seq::empty(), vars, next: p_next + 1 },
        ));
        let sv = operand_sym(lit, t);
        assert(symbolize_spec(tokens, k, vars, true) == prepend_sym(
            sv,
            symbolize_spec(tokens, p_next, vars, true),
        ));
        assert(seq![sv] + Seq::<PositionedSymbolV>::empty() =~= seq![sv]);
        lemma_pipeline_single_operand(sv, lit);
    }
}

/// Parenthesis nesting is transparent: `(((v)))` parses to the literal
/// node for `v` whatever the nesting depth, with the variable table and
/// every token untouched.
pub proof fn lemma_nested_literal(
    tokens: Seq<PositionedTokenV>,
    n: int,
    v: i64,
    vars: Seq<Seq<char>>,
)
    requires
        0 <= n,
        tokens.len() == 2 * n + 1,
        forall|j: int| 0 <= j < n ==> (#[trigger] tokens[j].token) is LeftParenthesis,
        tokens[n as int].token == TokenV::IntLiteral(v),
        forall|j: int| n < j <= 2 * n ==> (#[trigger] tokens[j].token) is RightParenthesis,
    ensures
        parse_expr_spec(tokens, 0, vars, false) == Ok::<ParseOut, ParseError>(
            ParseOut { tree: TreeV::SignedIntLiteral(v), vars, next: tokens.len() as int },
        ),
{
    let lit = TreeV::SignedIntLiteral(v);
    if n == 0 {
        let t = tokens[0];
        assert(symbolize_spec(tokens, 1, vars, false) == Ok::<SymbolsOut, ParseError>(
            SymbolsOut { symbols: Seq::empty(), vars, next: 1 },
        ));
        let sv = operand_sym(lit, t);
        assert(symbolize_spec(tokens, 0, vars, false) == prepend_sym(
            sv,
            symbolize_spec(tokens, 1, vars, false),
        ));
        assert(seq![sv] + Seq::<PositionedSymbolV>::empty() =~= seq![sv]);
        lemma_pipeline_single_operand(sv, lit);
    } else {
        lemma_nested_literal_level(tokens, n, v, vars, 1);
        let t = tokens[0];
        assert(t.token is LeftParenthesis);
        let p_next = 2 * n + 1;
        assert(symbolize_spec(tokens, p_next, vars, false) == Ok::<SymbolsOut, ParseError>(
            SymbolsOut { symbols: Seq::empty(), vars, next: p_next },
        ));
        let sv = operand_sym(lit, t);
        assert(symbolize_spec(tokens, 0, vars, false) == prepend_sym(
            sv,
            symbolize_spec(tokens, p_next, vars, false),
        ));
        assert(seq![sv] + Seq::<PositionedSymbolV>::empty() =~= seq![sv]);
        lemma_pipeline_single_operand(sv, lit);
    }
}


/// Every operator with a precedence tier composes two operands into a
/// tree node.
proof fn lemma_tiered_compose_ok(p: crate::symbols::PositionedOperator, l: TreeV, r: TreeV)
    requires
        crate::token::spec_binary_precedence(p.operator) is Some,
    ensures
        crate::compose::compose_node(p, l, r) is Ok,
{
}

/// Operators of one precedence tier associate to the left: the `>=`
/// tie-break of the infix-to-postfix conversion makes `a ~ b ~ c` parse
/// as `(a ~ b) ~ c` for any two operators `~` of equal tier,
/// exponentiation included. The prefix folder leaves such an alternating
/// sequence untouched, the conversion emits the first operator before
/// the second, and the composer builds the left node first.
pub proof fn lemma_equal_tiers_associate_left(
    a: PositionedSymbolV,
    o1: PositionedSymbolV,
    b: PositionedSymbolV,
    o2: PositionedSymbolV,
    c: PositionedSymbolV,
)
    requires
        a.symbol is Operand,
        b.symbol is Operand,
        c.symbol is Operand,
        o1.symbol is Operator,
        o2.symbol is Operator,
        crate::token::spec_binary_precedence(o1.symbol->Operator_0)
            == crate::token::spec_binary_precedence(o2.symbol->Operator_0),
        crate::token::spec_binary_precedence(o1.symbol->Operator_0) is Some,
    ensures
        ({
            let syms = seq![a, o1, b, o2, c];
            let postfix = seq![a, b, o1, c, o2];
            let p1 = crate::symbols::PositionedOperator {
                operator: o1.symbol->Operator_0,
                start: o1.start,
                end: o1.end,
            };
            let p2 = crate::symbols::PositionedOperator {
                operator: o2.symbol->Operator_0,
                start: o2.start,
                end: o2.end,
            };
            let left = crate::compose::compose_node(
                p1,
                a.symbol->Operand_0,
                b.symbol->Operand_0,
            )->Ok_0;
            let whole = crate::compose::compose_node(p2, left, c.symbol->Operand_0)->Ok_0;
            &&& fold_unaries(syms) == Ok::<Seq<PositionedSymbolV>, ParseError>(syms)
            &&& shunting_spec(syms) == Ok::<Seq<PositionedSymbolV>, ParseError>(postfix)
            &&& compose_binary_spec(postfix) == Ok::<TreeV, ParseError>(whole)
        }),
{
    match (a.symbol, b.symbol, c.symbol, o1.symbol, o2.symbol) {
        (
            SymbolV::Operand(ta),
            SymbolV::Operand(tb),
            SymbolV::Operand(tc),
            SymbolV::Operator(op1),
            SymbolV::Operator(op2),
        ) => {
            let p1 = crate::symbols::PositionedOperator {
                operator: op1,
                start: o1.start,
                end: o1.end,
            };
            let p2 = crate::symbols::PositionedOperator {
                operator: op2,
                start: o2.start,
                end: o2.end,
            };
            let prec = crate::token::spec_binary_precedence(op1)->Some_0;
            let s1 = seq![a];
            let s2 = seq![a, o1];
            let s3 = seq![a, o1, b];
            let s4 = seq![a, o1, b, o2];
            let s5 = seq![a, o1, b, o2, c];
            assert(s2.drop_last() =~= s1 && s2.last() == o1);
            assert(s3.drop_last() =~= s2 && s3.last() == b);
            assert(s4.drop_last() =~= s3 && s4.last() == o2);
            assert(s5.drop_last() =~= s4 && s5.last() == c);
            assert(s1.drop_last() =~= Seq::<PositionedSymbolV>::empty() && s1.last() == a);

            // The prefix folder emits every symbol unchanged.
            let u0 = crate::unary::unary_init();
            let u1 = crate::unary::UnaryStateV {
                expect_operand: false,
                pending: Seq::empty(),
                out: seq![a],
            };
            let u2 = crate::unary::UnaryStateV {
                expect_operand: true,
                pending: Seq::empty(),
                out: seq![a, o1],
            };
            let u3 = crate::unary::UnaryStateV {
                expect_operand: false,
                pending: Seq::empty(),
                out: seq![a, o1, b],
            };
            let u4 = crate::unary::UnaryStateV {
                expect_operand: true,
                pending: Seq::empty(),
                out: seq![a, o1, b, o2],
            };
            let u5 = crate::unary::UnaryStateV {
                expect_operand: false,
                pending: Seq::empty(),
                out: s5,
            };
            assert(crate::unary::unary_run(s1.drop_last(), u0) == Ok::<
                crate::unary::UnaryStateV,
                ParseError,
            >(u0));
            assert(crate::unary::apply_pending(ta, u0.pending) == Ok::<TreeV, ParseError>(ta));
            assert(crate::unary::unary_step(u0, a) matches Ok(st) && st =~= u1);
            assert(crate::unary::unary_step(u0, a) == Ok::<crate::unary::UnaryStateV, ParseError>(
                u1,
            )) by {
                assert((PositionedSymbolV {
                    symbol: SymbolV::Operand(ta),
                    start: a.start,
                    end: a.end,
                }) =~= a);
                assert(u0.out.push(a) =~= u1.out);
                assert(Seq::<crate::symbols::PositionedOperator>::empty() =~= u1.pending);
            }
            assert(crate::unary::unary_run(s1, u0) == Ok::<crate::unary::UnaryStateV, ParseError>(
                u1,
            ));
            assert(crate::unary::unary_step(u1, o1) == Ok::<crate::unary::UnaryStateV, ParseError>(
                u2,
            )) by {
                assert(u1.out.push(o1) =~= u2.out);
            }
            assert(crate::unary::unary_run(s2, u0) == Ok::<crate::unary::UnaryStateV, ParseError>(
                u2,
            ));
            assert(crate::unary::apply_pending(tb, u2.pending) == Ok::<TreeV, ParseError>(tb));
            assert(crate::unary::unary_step(u2, b) == Ok::<crate::unary::UnaryStateV, ParseError>(
                u3,
            )) by {
                assert((PositionedSymbolV {
                    symbol: SymbolV::Operand(tb),
                    start: b.start,
                    end: b.end,
                }) =~= b);
                assert(u2.out.push(b) =~= u3.out);
                assert(Seq::<crate::symbols::PositionedOperator>::empty() =~= u3.pending);
            }
            assert(crate::unary::unary_run(s3, u0) == Ok::<crate::unary::UnaryStateV, ParseError>(
                u3,
            ));
            assert(crate::unary::unary_step(u3, o2) == Ok::<crate::unary::UnaryStateV, ParseError>(
                u4,
            )) by {
                assert(u3.out.push(o2) =~= u4.out);
            }
            assert(crate::unary::unary_run(s4, u0) == Ok::<crate::unary::UnaryStateV, ParseError>(
                u4,
            ));
            assert(crate::unary::apply_pending(tc, u4.pending) == Ok::<TreeV, ParseError>(tc));
            assert(crate::unary::unary_step(u4, c) == Ok::<crate::unary::UnaryStateV, ParseError>(
                u5,
            )) by {
                assert((PositionedSymbolV {
                    symbol: SymbolV::Operand(tc),
                    start: c.start,
                    end: c.end,
                }) =~= c);
                assert(u4.out.push(c) =~= u5.out);
                assert(Seq::<crate::symbols::PositionedOperator>::empty() =~= u5.pending);
            }
            assert(crate::unary::unary_run(s5, u0) == Ok::<crate::unary::UnaryStateV, ParseError>(
                u5,
            ));
            assert(fold_unaries(s5) == Ok::<Seq<PositionedSymbolV>, ParseError>(s5));

            // The conversion pops the first operator when the second arrives.
            let h0 = crate::shunting::shunt_init();
            let h1 = crate::shunting::ShuntStateV { out: seq![a], stack: Seq::empty() };
            let h2 = crate::shunting::ShuntStateV { out: seq![a], stack: seq![p1] };
            let h3 = crate::shunting::ShuntStateV { out: seq![a, b], stack: seq![p1] };
            let h4 = crate::shunting::ShuntStateV { out: seq![a, b, o1], stack: seq![p2] };
            let h5 = crate::shunting::ShuntStateV { out: seq![a, b, o1, c], stack: seq![p2] };
            let postfix = seq![a, b, o1, c, o2];
            assert(crate::shunting::shunt_run(s1.drop_last(), h0) == Ok::<
                crate::shunting::ShuntStateV,
                ParseError,
            >(h0));
            assert(crate::shunting::shunt_step(h0, a) == Ok::<
                crate::shunting::ShuntStateV,
                ParseError,
            >(h1)) by {
                assert(h0.out.push(a) =~= h1.out);
                assert(h0.stack =~= h1.stack);
            }
            assert(crate::shunting::shunt_run(s1, h0) == Ok::<
                crate::shunting::ShuntStateV,
                ParseError,
            >(h1));
            assert(crate::shunting::pop_ge(h1, prec) == h1);
            assert(crate::shunting::shunt_step(h1, o1) == Ok::<
                crate::shunting::ShuntStateV,
                ParseError,
            >(h2)) by {
                assert(h1.stack.push(p1) =~= h2.stack);
                assert(h1.out =~= h2.out);
            }
            assert(crate::shunting::shunt_run(s2, h0) == Ok::<
                crate::shunting::ShuntStateV,
                ParseError,
            >(h2));
            assert(crate::shunting::shunt_step(h2, b) == Ok::<
                crate::shunting::ShuntStateV,
                ParseError,
            >(h3)) by {
                assert(h2.out.push(b) =~= h3.out);
            }
            assert(crate::shunting::shunt_run(s3, h0) == Ok::<
                crate::shunting::ShuntStateV,
                ParseError,
            >(h3));
            assert(crate::shunting::tier(p1.operator) == prec);
            assert(crate::shunting::op_symbol(p1) =~= o1);
            let h3p = crate::shunting::ShuntStateV { out: seq![a, b, o1], stack: Seq::empty() };
            assert(crate::shunting::pop_ge(h3, prec) == crate::shunting::pop_ge(h3p, prec)) by {
                assert(h3.out.push(crate::shunting::op_symbol(h3.stack.last())) =~= h3p.out);
                assert(h3.stack.drop_last() =~= h3p.stack);
            }
            assert(crate::shunting::pop_ge(h3p, prec) == h3p);
            assert(crate::shunting::shunt_step(h3, o2) == Ok::<
                crate::shunting::ShuntStateV,
                ParseError,
            >(h4)) by {
                assert(h3p.stack.push(p2) =~= h4.stack);
                assert(h3p.out =~= h4.out);
            }
            assert(crate::shunting::shunt_run(s4, h0) == Ok::<
                crate::shunting::ShuntStateV,
                ParseError,
            >(h4));
            assert(crate::shunting::shunt_step(h4, c) == Ok::<
                crate::shunting::ShuntStateV,
                ParseError,
            >(h5)) by {
                assert(h4.out.push(c) =~= h5.out);
            }
            assert(crate::shunting::shunt_run(s5, h0) == Ok::<
                crate::shunting::ShuntStateV,
                ParseError,
            >(h5));
            assert(crate::shunting::op_symbol(p2) =~= o2);
            let h5p = crate::shunting::ShuntStateV { out: postfix, stack: Seq::empty() };
            assert(crate::shunting::drain(h5) == crate::shunting::drain(h5p)) by {
                assert(h5.out.push(crate::shunting::op_symbol(h5.stack.last())) =~= h5p.out);
                assert(h5.stack.drop_last() =~= h5p.stack);
            }
            assert(crate::shunting::drain(h5p) == postfix);
            assert(shunting_spec(s5) == Ok::<Seq<PositionedSymbolV>, ParseError>(postfix));

            // The composer reduces the first operator's node before the
            // second's.
            lemma_tiered_compose_ok(p1, ta, tb);
            let t1 = crate::compose::compose_node(p1, ta, tb)->Ok_0;
            lemma_tiered_compose_ok(p2, t1, tc);
            let t2 = crate::compose::compose_node(p2, t1, tc)->Ok_0;
            let post1 = seq![a];
            let post2 = seq![a, b];
            let post3 = seq![a, b, o1];
            let post4 = seq![a, b, o1, c];
            assert(postfix.drop_last() =~= post4 && postfix.last() == o2);
            assert(post4.drop_last() =~= post3 && post4.last() == c);
            assert(post3.drop_last() =~= post2 && post3.last() == o1);
            assert(post2.drop_last() =~= post1 && post2.last() == b);
            assert(post1.drop_last() =~= Seq::<PositionedSymbolV>::empty() && post1.last() == a);
            let f_o2 = crate::compose::FrameV::Operator { operator: p2 };
            let f_rhs2 = crate::compose::FrameV::RHS { operator: p2, rhs: tc };
            let f_o1 = crate::compose::FrameV::Operator { operator: p1 };
            let f_rhs1 = crate::compose::FrameV::RHS { operator: p1, rhs: tb };
            let f_lhs1 = crate::compose::FrameV::LHS { operator: p1, lhs: ta, rhs: tb };
            let f_lhs2 = crate::compose::FrameV::LHS { operator: p2, lhs: t1, rhs: tc };
            let k0 = Seq::<crate::compose::FrameV>::empty();
            let k1 = seq![f_o2];
            let k2 = seq![f_rhs2];
            let k3 = seq![f_rhs2, f_o1];
            let k4 = seq![f_rhs2, f_rhs1];
            let k5 = seq![f_rhs2, f_lhs1];
            let k6 = seq![f_lhs2];
            assert(crate::compose::reduce(k2) == Ok::<crate::compose::ReduceOutV, ParseError>(
                crate::compose::ReduceOutV::More(k2),
            ));
            assert(crate::compose::reduce(k4) == Ok::<crate::compose::ReduceOutV, ParseError>(
                crate::compose::ReduceOutV::More(k4),
            ));
            assert(k6.drop_last() =~= k0);
            assert(crate::compose::reduce(k6) == Ok::<crate::compose::ReduceOutV, ParseError>(
                crate::compose::ReduceOutV::Done(t2),
            ));
            assert(k5.drop_last() =~= k2);
            assert(k2.drop_last() =~= k0);
            assert(crate::compose::add_operand_spec(k2.last(), t1) == f_lhs2);
            assert(crate::compose::reduce(k5) == Ok::<crate::compose::ReduceOutV, ParseError>(
                crate::compose::ReduceOutV::Done(t2),
            )) by {
                assert(crate::compose::reduce(k6) == Ok::<crate::compose::ReduceOutV, ParseError>(
                    crate::compose::ReduceOutV::Done(t2),
                ));
                assert(k2.drop_last().push(crate::compose::add_operand_spec(k2.last(), t1))
                    =~= k6);
            }
            assert(crate::compose::compose_run(post1, k4) == Ok::<TreeV, ParseError>(t2)) by {
                assert(k4.drop_last() =~= k2);
                assert(crate::compose::add_operand_spec(k4.last(), ta) == f_lhs1);
                assert(k4.drop_last().push(crate::compose::add_operand_spec(k4.last(), ta))
                    =~= k5);
            }
            assert(crate::compose::compose_run(post2, k3) == Ok::<TreeV, ParseError>(t2)) by {
                assert(k3.drop_last() =~= k2);
                assert(crate::compose::add_operand_spec(k3.last(), tb) == f_rhs1);
                assert(k3.drop_last().push(crate::compose::add_operand_spec(k3.last(), tb))
                    =~= k4);
            }
            assert(crate::compose::compose_run(post3, k2) == Ok::<TreeV, ParseError>(t2)) by {
                assert(k2.push(f_o1) =~= k3);
            }
            assert(crate::compose::compose_run(post4, k1) == Ok::<TreeV, ParseError>(t2)) by {
                assert(k1.drop_last() =~= k0);
                assert(crate::compose::add_operand_spec(k1.last(), tc) == f_rhs2);
                assert(k1.drop_last().push(crate::compose::add_operand_spec(k1.last(), tc))
                    =~= k2);
            }
            assert(crate::compose::compose_run(postfix, k0) == Ok::<TreeV, ParseError>(t2)) by {
                assert(k0.push(f_o2) =~= k1);
            }
            assert(compose_binary_spec(postfix) == Ok::<TreeV, ParseError>(t2));
        },
        _ => {
            assert(false);
        },
    }
}

} // verus!
