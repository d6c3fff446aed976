use formula::composer::Composer;
use formula::composer::NodeOp;
use formula::composer::compose_expr_tree;
use formula::composer::postorder;
use formula::parser::parse_formula;
use formula::tree::ExpressionTree;

#[test]
fn postorder_of_a_leaf_is_one_operation() {
    let (tree, _) = parse_formula("5").expect("parse should succeed");
    assert_eq!(postorder(&tree), vec![NodeOp::SignedIntLiteral(5)]);
}

#[test]
fn postorder_lists_children_before_parents() {
    let (tree, _) = parse_formula("1 + 2 * x").expect("parse should succeed");
    assert_eq!(
        postorder(&tree),
        vec![
            NodeOp::SignedIntLiteral(1),
            NodeOp::SignedIntLiteral(2),
            NodeOp::Variable(0),
            NodeOp::Multiplication,
            NodeOp::Addition,
        ]
    );
}

#[test]
fn postorder_puts_a_prefix_operator_after_its_operand() {
    let (tree, _) = parse_formula("-1.5").expect("parse should succeed");
    assert_eq!(
        postorder(&tree),
        vec![
            NodeOp::Float64Literal(String::from("1.5")),
            NodeOp::Negation,
        ]
    );
}

/// A consumer that rebuilds the tree node for node: the engine's walk
/// hands back exactly the tree it was given.
struct TreeRebuilder;

impl Composer<ExpressionTree> for TreeRebuilder {
    type Error = ();

    fn compose_unsigned_int_literal(&mut self, value: u64) -> Result<ExpressionTree, ()> {
        Ok(ExpressionTree::UnsignedIntLiteral(value))
    }

    fn compose_signed_int_literal(&mut self, value: i64) -> Result<ExpressionTree, ()> {
        Ok(ExpressionTree::SignedIntLiteral(value))
    }

    fn compose_float64_literal(&mut self, text: &str) -> Result<ExpressionTree, ()> {
        Ok(ExpressionTree::Float64Literal(String::from(text)))
    }

    fn compose_true_literal(&mut self) -> Result<ExpressionTree, ()> {
        Ok(ExpressionTree::TrueLiteral)
    }

    fn compose_false_literal(&mut self) -> Result<ExpressionTree, ()> {
        Ok(ExpressionTree::FalseLiteral)
    }

    fn compose_variable(&mut self, index: usize) -> Result<ExpressionTree, ()> {
        Ok(ExpressionTree::Variable(index))
    }

    fn compose_negation(&mut self, inner: ExpressionTree) -> Result<ExpressionTree, ()> {
        Ok(ExpressionTree::Negation(Box::new(inner)))
    }

    fn compose_reciprocal(&mut self, inner: ExpressionTree) -> Result<ExpressionTree, ()> {
        Ok(ExpressionTree::Reciprocal(Box::new(inner)))
    }

    fn compose_square(&mut self, inner: ExpressionTree) -> Result<ExpressionTree, ()> {
        Ok(ExpressionTree::Square(Box::new(inner)))
    }

    fn compose_cube(&mut self, inner: ExpressionTree) -> Result<ExpressionTree, ()> {
        Ok(ExpressionTree::Cube(Box::new(inner)))
    }

    fn compose_square_root(&mut self, inner: ExpressionTree) -> Result<ExpressionTree, ()> {
        Ok(ExpressionTree::SquareRoot(Box::new(inner)))
    }

    fn compose_cube_root(&mut self, inner: ExpressionTree) -> Result<ExpressionTree, ()> {
        Ok(ExpressionTree::CubeRoot(Box::new(inner)))
    }

    fn compose_addition(
        &mut self,
        lhs: ExpressionTree,
        rhs: ExpressionTree,
    ) -> Result<ExpressionTree, ()> {
        Ok(ExpressionTree::Addition(Box::new(lhs), Box::new(rhs)))
    }

    fn compose_subtraction(
        &mut self,
        lhs: ExpressionTree,
        rhs: ExpressionTree,
    ) -> Result<ExpressionTree, ()> {
        Ok(ExpressionTree::Subtraction(Box::new(lhs), Box::new(rhs)))
    }

    fn compose_multiplication(
        &mut self,
        lhs: ExpressionTree,
        rhs: ExpressionTree,
    ) -> Result<ExpressionTree, ()> {
        Ok(ExpressionTree::Multiplication(Box::new(lhs), Box::new(rhs)))
    }

    fn compose_division(
        &mut self,
        lhs: ExpressionTree,
        rhs: ExpressionTree,
    ) -> Result<ExpressionTree, ()> {
        Ok(ExpressionTree::Division(Box::new(lhs), Box::new(rhs)))
    }

    fn compose_int_division(
        &mut self,
        lhs: ExpressionTree,
        rhs: ExpressionTree,
    ) -> Result<ExpressionTree, ()> {
        Ok(ExpressionTree::IntDivision(Box::new(lhs), Box::new(rhs)))
    }

    fn compose_modulo(
        &mut self,
        lhs: ExpressionTree,
        rhs: ExpressionTree,
    ) -> Result<ExpressionTree, ()> {
        Ok(ExpressionTree::Modulo(Box::new(lhs), Box::new(rhs)))
    }

    fn compose_power(
        &mut self,
        lhs: ExpressionTree,
        rhs: ExpressionTree,
    ) -> Result<ExpressionTree, ()> {
        Ok(ExpressionTree::Power(Box::new(lhs), Box::new(rhs)))
    }

    fn compose_root(
        &mut self,
        lhs: ExpressionTree,
        rhs: ExpressionTree,
    ) -> Result<ExpressionTree, ()> {
        Ok(ExpressionTree::Root(Box::new(lhs), Box::new(rhs)))
    }

    fn compose_int_root(
        &mut self,
        lhs: ExpressionTree,
        rhs: ExpressionTree,
    ) -> Result<ExpressionTree, ()> {
        Ok(ExpressionTree::IntRoot(Box::new(lhs), Box::new(rhs)))
    }
}

#[test]
fn the_engine_walk_rebuilds_the_tree_it_was_given() {
    let (tree, vars) = parse_formula("-1.5 + 2 * (x // y) ^ true").expect("parse should succeed");
    assert_eq!(vars.len(), 2);
    let rebuilt = compose_expr_tree(&tree, &mut TreeRebuilder).expect("rebuilding cannot fail");
    assert_eq!(rebuilt, tree);
    let deep = ExpressionTree::Root(
        Box::new(ExpressionTree::SquareRoot(Box::new(ExpressionTree::UnsignedIntLiteral(9)))),
        Box::new(ExpressionTree::Reciprocal(Box::new(ExpressionTree::FalseLiteral))),
    );
    let rebuilt_deep = compose_expr_tree(&deep, &mut TreeRebuilder).expect("rebuilding cannot fail");
    assert_eq!(rebuilt_deep, deep);
}

/// Fails on every variable, like an evaluator with no bindings.
struct NoBindings;

impl Composer<u64> for NoBindings {
    type Error = usize;

    fn compose_unsigned_int_literal(&mut self, value: u64) -> Result<u64, usize> {
        Ok(value)
    }

    fn compose_signed_int_literal(&mut self, _value: i64) -> Result<u64, usize> {
        Ok(0)
    }

    fn compose_float64_literal(&mut self, _text: &str) -> Result<u64, usize> {
        Ok(0)
    }

    fn compose_true_literal(&mut self) -> Result<u64, usize> {
        Ok(1)
    }

    fn compose_false_literal(&mut self) -> Result<u64, usize> {
        Ok(0)
    }

    fn compose_variable(&mut self, index: usize) -> Result<u64, usize> {
        Err(index)
    }

    fn compose_negation(&mut self, inner: u64) -> Result<u64, usize> {
        Ok(inner)
    }

    fn compose_reciprocal(&mut self, inner: u64) -> Result<u64, usize> {
        Ok(inner)
    }

    fn compose_square(&mut self, inner: u64) -> Result<u64, usize> {
        Ok(inner)
    }

    fn compose_cube(&mut self, inner: u64) -> Result<u64, usize> {
        Ok(inner)
    }

    fn compose_square_root(&mut self, inner: u64) -> Result<u64, usize> {
        Ok(inner)
    }

    fn compose_cube_root(&mut self, inner: u64) -> Result<u64, usize> {
        Ok(inner)
    }

    fn compose_addition(&mut self, lhs: u64, rhs: u64) -> Result<u64, usize> {
        Ok(lhs.wrapping_add(rhs))
    }

    fn compose_subtraction(&mut self, lhs: u64, rhs: u64) -> Result<u64, usize> {
        Ok(lhs.wrapping_sub(rhs))
    }

    fn compose_multiplication(&mut self, lhs: u64, rhs: u64) -> Result<u64, usize> {
        Ok(lhs.wrapping_mul(rhs))
    }

    fn compose_division(&mut self, lhs: u64, _rhs: u64) -> Result<u64, usize> {
        Ok(lhs)
    }

    fn compose_int_division(&mut self, lhs: u64, _rhs: u64) -> Result<u64, usize> {
        Ok(lhs)
    }

    fn compose_modulo(&mut self, lhs: u64, _rhs: u64) -> Result<u64, usize> {
        Ok(lhs)
    }

    fn compose_power(&mut self, lhs: u64, _rhs: u64) -> Result<u64, usize> {
        Ok(lhs)
    }

    fn compose_root(&mut self, lhs: u64, _rhs: u64) -> Result<u64, usize> {
        Ok(lhs)
    }

    fn compose_int_root(&mut self, lhs: u64, _rhs: u64) -> Result<u64, usize> {
        Ok(lhs)
    }
}

#[test]
fn a_consumer_error_stops_the_walk() {
    let (tree, _) = parse_formula("1 + y").expect("parse should succeed");
    assert_eq!(compose_expr_tree(&tree, &mut NoBindings), Err(0));
}
