use formula::composer::Composer;
use formula::composer::compose_expr_tree;
use formula::parser::parse_formula;
use formula::tree::ExpressionTree;

/// The floating-point evaluator: composes every node kind into an `f64`,
/// looking variables up in a dense binding table.
struct FloatEvaluator {
    bindings: Vec<f64>,
}

impl Composer<f64> for FloatEvaluator {
    type Error = String;

    fn compose_unsigned_int_literal(&mut self, value: u64) -> Result<f64, String> {
        Ok(value as f64)
    }

    fn compose_signed_int_literal(&mut self, value: i64) -> Result<f64, String> {
        Ok(value as f64)
    }

    fn compose_float64_literal(&mut self, text: &str) -> Result<f64, String> {
        text.parse::<f64>().map_err(|e| format!("bad float literal {:?}: {}", text, e))
    }

    fn compose_true_literal(&mut self) -> Result<f64, String> {
        Ok(1.0)
    }

    fn compose_false_literal(&mut self) -> Result<f64, String> {
        Ok(0.0)
    }

    fn compose_variable(&mut self, index: usize) -> Result<f64, String> {
        self.bindings.get(index).copied().ok_or_else(|| format!("unbound variable {}", index))
    }

    fn compose_negation(&mut self, inner: f64) -> Result<f64, String> {
        Ok(-inner)
    }

    fn compose_reciprocal(&mut self, inner: f64) -> Result<f64, String> {
        Ok(1.0 / inner)
    }

    fn compose_square(&mut self, inner: f64) -> Result<f64, String> {
        Ok(inner.powi(2))
    }

    fn compose_cube(&mut self, inner: f64) -> Result<f64, String> {
        Ok(inner.powi(3))
    }

    fn compose_square_root(&mut self, inner: f64) -> Result<f64, String> {
        Ok(inner.sqrt())
    }

    fn compose_cube_root(&mut self, inner: f64) -> Result<f64, String> {
        Ok(inner.cbrt())
    }

    fn compose_addition(&mut self, lhs: f64, rhs: f64) -> Result<f64, String> {
        Ok(lhs + rhs)
    }

    fn compose_subtraction(&mut self, lhs: f64, rhs: f64) -> Result<f64, String> {
        Ok(lhs - rhs)
    }

    fn compose_multiplication(&mut self, lhs: f64, rhs: f64) -> Result<f64, String> {
        Ok(lhs * rhs)
    }

    fn compose_division(&mut self, lhs: f64, rhs: f64) -> Result<f64, String> {
        Ok(lhs / rhs)
    }

    fn compose_int_division(&mut self, lhs: f64, rhs: f64) -> Result<f64, String> {
        Ok((lhs / rhs).floor())
    }

    fn compose_modulo(&mut self, lhs: f64, rhs: f64) -> Result<f64, String> {
        Ok(lhs % rhs)
    }

    fn compose_power(&mut self, lhs: f64, rhs: f64) -> Result<f64, String> {
        Ok(lhs.powf(rhs))
    }

    fn compose_root(&mut self, lhs: f64, rhs: f64) -> Result<f64, String> {
        Ok(rhs.powf(1.0 / lhs))
    }

    fn compose_int_root(&mut self, lhs: f64, rhs: f64) -> Result<f64, String> {
        Ok(rhs.powf(1.0 / lhs).floor())
    }
}

fn eval_with(text: &str, bindings: &[f64]) -> f64 {
    let (tree, _vars) = parse_formula(text).expect("parse should succeed");
    let mut evaluator = FloatEvaluator { bindings: bindings.to_vec() };
    compose_expr_tree(&tree, &mut evaluator).expect("evaluation should succeed")
}

fn eval(text: &str) -> f64 {
    eval_with(text, &[])
}

#[test]
fn unary_chains_evaluate_right_to_left() {
    assert_eq!(eval("- - -5"), -5.0);
    assert_eq!(eval("+-5"), -5.0);
}

#[test]
fn left_associativity_of_subtraction() {
    assert_eq!(eval("8 - 4 - 2"), 2.0);
}

#[test]
fn end_to_end_with_bindings() {
    let (tree, vars) = parse_formula("x ^ 2 + 3 * y").expect("parse should succeed");
    assert_eq!(vars, vec![String::from("x"), String::from("y")]);
    let mut evaluator = FloatEvaluator { bindings: vec![4.0, 2.0] };
    assert_eq!(compose_expr_tree(&tree, &mut evaluator).unwrap(), 22.0);
}

#[test]
fn matches_a_reference_evaluation_on_arithmetic_formulas() {
    assert_eq!(eval("1 + 2 * 3"), 1.0 + 2.0 * 3.0);
    assert_eq!(eval("(1 + 2) * 3"), (1.0 + 2.0) * 3.0);
    assert_eq!(eval("7 / 2"), 7.0 / 2.0);
    assert_eq!(eval("7 // 2"), (7.0f64 / 2.0).floor());
    assert_eq!(eval("7 % 2"), 7.0f64 % 2.0);
    assert_eq!(eval("-7 // 2"), (-7.0f64 / 2.0).floor());
    assert_eq!(eval("2 * (3 + 4) - 5 / 2"), 2.0 * (3.0 + 4.0) - 5.0 / 2.0);
    assert_eq!(eval("10 - 2 - 3 - 4"), ((10.0 - 2.0) - 3.0) - 4.0);
}

#[test]
fn exponentiation_evaluates_left_associatively() {
    assert_eq!(eval("2 ^ 3 ^ 2"), 64.0);
    assert_eq!(eval("2 ** 3"), 8.0);
}

#[test]
fn float_literals_evaluate_to_their_value() {
    assert_eq!(eval("1.5 + .5"), 2.0);
    assert_eq!(eval("5. / 2"), 2.5);
}

#[test]
fn boolean_literals_evaluate_to_one_and_zero() {
    assert_eq!(eval("true + true + false"), 2.0);
}

#[test]
fn nested_parentheses_evaluate_to_the_inner_value() {
    assert_eq!(eval("(((1)))"), 1.0);
}

#[test]
fn an_unbound_variable_is_an_evaluation_error() {
    let (tree, vars) = parse_formula("x + 1").expect("parse should succeed");
    assert_eq!(vars.len(), 1);
    let mut evaluator = FloatEvaluator { bindings: vec![] };
    let err = compose_expr_tree(&tree, &mut evaluator).expect_err("must fail");
    assert_eq!(err, String::from("unbound variable 0"));
}

#[test]
fn every_node_kind_composes() {
    let mut evaluator = FloatEvaluator { bindings: vec![] };
    let tree = ExpressionTree::Root(
        Box::new(ExpressionTree::SignedIntLiteral(3)),
        Box::new(ExpressionTree::Cube(Box::new(ExpressionTree::SignedIntLiteral(2)))),
    );
    assert_eq!(compose_expr_tree(&tree, &mut evaluator).unwrap(), 8.0f64.powf(1.0 / 3.0));
    let floored = ExpressionTree::IntRoot(
        Box::new(ExpressionTree::SignedIntLiteral(2)),
        Box::new(ExpressionTree::Square(Box::new(ExpressionTree::SignedIntLiteral(3)))),
    );
    assert_eq!(compose_expr_tree(&floored, &mut evaluator).unwrap(), 3.0);
    let roots = ExpressionTree::Addition(
        Box::new(ExpressionTree::SquareRoot(Box::new(ExpressionTree::UnsignedIntLiteral(9)))),
        Box::new(ExpressionTree::CubeRoot(Box::new(ExpressionTree::SignedIntLiteral(27)))),
    );
    assert_eq!(compose_expr_tree(&roots, &mut evaluator).unwrap(), 6.0);
    let rest = ExpressionTree::Subtraction(
        Box::new(ExpressionTree::Reciprocal(Box::new(ExpressionTree::SignedIntLiteral(4)))),
        Box::new(ExpressionTree::Negation(Box::new(ExpressionTree::TrueLiteral))),
    );
    assert_eq!(compose_expr_tree(&rest, &mut evaluator).unwrap(), 1.25);
    let falsy = ExpressionTree::FalseLiteral;
    assert_eq!(compose_expr_tree(&falsy, &mut evaluator).unwrap(), 0.0);
}
