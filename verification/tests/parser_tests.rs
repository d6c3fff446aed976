use formula::error::ParseError;
use formula::parser::parse_formula;
use formula::token::Operator;
use formula::tree::ExpressionTree;

fn parse_ok(text: &str) -> (ExpressionTree, Vec<String>) {
    parse_formula(text).expect("parse should succeed")
}

fn parse_err(text: &str) -> ParseError {
    parse_formula(text).expect_err("parse should fail")
}

fn b(t: ExpressionTree) -> Box<ExpressionTree> {
    Box::new(t)
}

#[test]
fn a_single_literal_parses_to_its_node() {
    let (tree, vars) = parse_ok("5");
    assert_eq!(tree, ExpressionTree::SignedIntLiteral(5));
    assert!(vars.is_empty());
}

#[test]
fn parenthesis_nesting_is_transparent() {
    for depth in 0..8 {
        let text = format!("{}1{}", "(".repeat(depth), ")".repeat(depth));
        let (tree, vars) = parse_ok(&text);
        assert_eq!(tree, ExpressionTree::SignedIntLiteral(1));
        assert!(vars.is_empty());
    }
}

#[test]
fn repeated_variables_share_one_index() {
    let (tree, vars) = parse_ok("x + x");
    assert_eq!(
        tree,
        ExpressionTree::Addition(b(ExpressionTree::Variable(0)), b(ExpressionTree::Variable(0)))
    );
    assert_eq!(vars, vec![String::from("x")]);
}

#[test]
fn variables_are_indexed_in_first_occurrence_order() {
    let (tree, vars) = parse_ok("b + a + b");
    assert_eq!(vars, vec![String::from("b"), String::from("a")]);
    assert_eq!(
        tree,
        ExpressionTree::Addition(
            b(ExpressionTree::Addition(
                b(ExpressionTree::Variable(0)),
                b(ExpressionTree::Variable(1))
            )),
            b(ExpressionTree::Variable(0))
        )
    );
}

#[test]
fn multiplication_binds_tighter_than_addition() {
    let (tree, _) = parse_ok("1 + 2 * 3");
    assert_eq!(
        tree,
        ExpressionTree::Addition(
            b(ExpressionTree::SignedIntLiteral(1)),
            b(ExpressionTree::Multiplication(
                b(ExpressionTree::SignedIntLiteral(2)),
                b(ExpressionTree::SignedIntLiteral(3))
            ))
        )
    );
}

#[test]
fn subtraction_is_left_associative() {
    let (tree, _) = parse_ok("8 - 4 - 2");
    assert_eq!(
        tree,
        ExpressionTree::Subtraction(
            b(ExpressionTree::Subtraction(
                b(ExpressionTree::SignedIntLiteral(8)),
                b(ExpressionTree::SignedIntLiteral(4))
            )),
            b(ExpressionTree::SignedIntLiteral(2))
        )
    );
}

#[test]
fn exponentiation_is_left_associative_by_the_tie_break() {
    let (tree, _) = parse_ok("2 ^ 3 ^ 2");
    assert_eq!(
        tree,
        ExpressionTree::Power(
            b(ExpressionTree::Power(
                b(ExpressionTree::SignedIntLiteral(2)),
                b(ExpressionTree::SignedIntLiteral(3))
            )),
            b(ExpressionTree::SignedIntLiteral(2))
        )
    );
}

#[test]
fn both_power_spellings_build_a_power_node() {
    let (with_caret, _) = parse_ok("2 ^ 3");
    let (with_stars, _) = parse_ok("2 ** 3");
    assert_eq!(with_caret, with_stars);
    assert_eq!(
        with_caret,
        ExpressionTree::Power(
            b(ExpressionTree::SignedIntLiteral(2)),
            b(ExpressionTree::SignedIntLiteral(3))
        )
    );
}

#[test]
fn parentheses_override_precedence() {
    let (tree, _) = parse_ok("(1 + 2) * 3");
    assert_eq!(
        tree,
        ExpressionTree::Multiplication(
            b(ExpressionTree::Addition(
                b(ExpressionTree::SignedIntLiteral(1)),
                b(ExpressionTree::SignedIntLiteral(2))
            )),
            b(ExpressionTree::SignedIntLiteral(3))
        )
    );
}

#[test]
fn unary_chains_fold_nearest_first() {
    let (tree, _) = parse_ok("- - -5");
    assert_eq!(
        tree,
        ExpressionTree::Negation(b(ExpressionTree::Negation(b(ExpressionTree::Negation(b(
            ExpressionTree::SignedIntLiteral(5)
        ))))))
    );
    let (plus_minus, _) = parse_ok("+-5");
    assert_eq!(
        plus_minus,
        ExpressionTree::Negation(b(ExpressionTree::SignedIntLiteral(5)))
    );
}

#[test]
fn boolean_literals_become_unsigned_int_nodes() {
    let (tree, _) = parse_ok("true + false");
    assert_eq!(
        tree,
        ExpressionTree::Addition(
            b(ExpressionTree::UnsignedIntLiteral(1)),
            b(ExpressionTree::UnsignedIntLiteral(0))
        )
    );
}

#[test]
fn float_literals_reach_the_tree_as_text() {
    let (tree, _) = parse_ok("1.5 + x");
    assert_eq!(
        tree,
        ExpressionTree::Addition(
            b(ExpressionTree::Float64Literal(String::from("1.5"))),
            b(ExpressionTree::Variable(0))
        )
    );
}

#[test]
fn an_unterminated_parenthesis_is_rejected() {
    assert_eq!(parse_err("(1 + 2"), ParseError::UnterminatedParenthesis { at: 6 });
}

#[test]
fn an_unexpected_closing_parenthesis_is_rejected() {
    assert_eq!(parse_err("1 + )"), ParseError::UnexpectedClosingParenthesis { at: 5 });
}

#[test]
fn a_comma_between_operands_is_an_illegal_binary_operator() {
    assert_eq!(
        parse_err("1 ,"),
        ParseError::IllegalBinaryOperator { op: Operator::Comma, start: 2, end: 3 }
    );
}

#[test]
fn a_comparison_is_an_illegal_binary_operator() {
    assert_eq!(
        parse_err("1 != 2"),
        ParseError::IllegalBinaryOperator { op: Operator::NotEquals, start: 2, end: 4 }
    );
}

#[test]
fn a_star_in_prefix_position_is_an_illegal_unary_operator() {
    assert_eq!(
        parse_err("* 5"),
        ParseError::IllegalUnaryOperator { op: Operator::Asterisk, start: 0, end: 1 }
    );
}

#[test]
fn two_operands_in_a_row_are_rejected() {
    assert_eq!(parse_err("1 2"), ParseError::ExpectedOperator { start: 2, end: 3 });
}

#[test]
fn incomplete_expressions_are_rejected() {
    assert_eq!(parse_err(""), ParseError::IncompleteExpression);
    assert_eq!(parse_err("1 +"), ParseError::IncompleteExpression);
    assert_eq!(parse_err("()"), ParseError::IncompleteExpression);
    assert_eq!(parse_err("-"), ParseError::IncompleteExpression);
}

#[test]
fn a_lexical_error_stops_the_parse() {
    assert_eq!(parse_err("1 + #"), ParseError::UnexpectedCharacter { ch: '#', at: 4 });
}
