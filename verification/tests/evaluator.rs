use arith_expr::ast::evaluator::{apply, AstEvaluator, EvaluationError};
use arith_expr::ast::lexer::{TextSpan, Token, TokenKind};
use arith_expr::ast::{
    Ast, AstBinaryOperator, AstBinaryOperatorKind, AstExpression, AstExpressionKind,
    AstNumberExpression, AstStatement, AstStatementKind, AstVisitor,
};

fn operator(kind: AstBinaryOperatorKind) -> AstBinaryOperator {
    let (token_kind, literal) = match kind {
        AstBinaryOperatorKind::Add => (TokenKind::Plus, "+"),
        AstBinaryOperatorKind::Subtract => (TokenKind::Minus, "-"),
        AstBinaryOperatorKind::Multiply => (TokenKind::Asterisk, "*"),
        AstBinaryOperatorKind::Divide => (TokenKind::Slash, "/"),
    };
    AstBinaryOperator::new(kind, Token::new(token_kind, TextSpan::new(0, 1, literal.to_string())))
}

fn binary(left: AstExpression, kind: AstBinaryOperatorKind, right: AstExpression) -> AstExpression {
    AstExpression::binary(left, operator(kind), right)
}

fn number(value: i64) -> AstExpression {
    AstExpression::number(value)
}

fn value_of(expression: &AstExpression) -> (Option<i64>, Option<EvaluationError>) {
    let mut evaluator = AstEvaluator::new();
    evaluator.visit_expression(expression);
    (evaluator.last_value, evaluator.error)
}

#[test]
fn new_evaluator_holds_nothing() {
    let evaluator = AstEvaluator::new();
    assert_eq!(evaluator.last_value, None);
    assert_eq!(evaluator.error, None);
}

#[test]
fn operators_compute_exactly() {
    assert_eq!(apply(AstBinaryOperatorKind::Add, 2, 3), Ok(5));
    assert_eq!(apply(AstBinaryOperatorKind::Subtract, 2, 3), Ok(-1));
    assert_eq!(apply(AstBinaryOperatorKind::Multiply, -4, 3), Ok(-12));
    assert_eq!(apply(AstBinaryOperatorKind::Divide, 7, 2), Ok(3));
    assert_eq!(apply(AstBinaryOperatorKind::Divide, -7, 2), Ok(-3));
    assert_eq!(apply(AstBinaryOperatorKind::Divide, 7, -2), Ok(-3));
    assert_eq!(apply(AstBinaryOperatorKind::Divide, -7, -2), Ok(3));
    assert_eq!(apply(AstBinaryOperatorKind::Divide, 0, 5), Ok(0));
}

#[test]
fn operators_fail_on_overflow_and_zero_divisor() {
    let overflow = Err(EvaluationError::Overflow);
    assert_eq!(apply(AstBinaryOperatorKind::Add, i64::MAX, 1), overflow);
    assert_eq!(apply(AstBinaryOperatorKind::Add, i64::MIN, -1), overflow);
    assert_eq!(apply(AstBinaryOperatorKind::Subtract, i64::MIN, 1), overflow);
    assert_eq!(apply(AstBinaryOperatorKind::Subtract, 0, i64::MIN), overflow);
    assert_eq!(apply(AstBinaryOperatorKind::Multiply, i64::MAX, 2), overflow);
    assert_eq!(apply(AstBinaryOperatorKind::Multiply, i64::MIN, -1), overflow);
    assert_eq!(apply(AstBinaryOperatorKind::Divide, i64::MIN, -1), overflow);
    assert_eq!(apply(AstBinaryOperatorKind::Divide, 1, 0), Err(EvaluationError::DivisionByZero));
    assert_eq!(apply(AstBinaryOperatorKind::Divide, 0, 0), Err(EvaluationError::DivisionByZero));
    assert_eq!(apply(AstBinaryOperatorKind::Add, i64::MAX, 0), Ok(i64::MAX));
    assert_eq!(apply(AstBinaryOperatorKind::Divide, i64::MIN, 1), Ok(i64::MIN));
}

#[test]
fn tree_evaluates_bottom_up() {
    let tree = binary(
        number(7),
        AstBinaryOperatorKind::Subtract,
        binary(
            binary(
                AstExpression::parenthesis(binary(number(30), AstBinaryOperatorKind::Add, number(7))),
                AstBinaryOperatorKind::Multiply,
                number(8),
            ),
            AstBinaryOperatorKind::Divide,
            number(2),
        ),
    );
    assert_eq!(value_of(&tree), (Some(-141), None));
    assert_eq!(value_of(&number(-9)), (Some(-9), None));
    assert_eq!(value_of(&AstExpression::parenthesis(number(4))), (Some(4), None));
}

#[test]
fn left_failure_comes_first() {
    let tree = binary(
        binary(number(1), AstBinaryOperatorKind::Divide, number(0)),
        AstBinaryOperatorKind::Add,
        binary(number(i64::MAX), AstBinaryOperatorKind::Add, number(1)),
    );
    assert_eq!(value_of(&tree), (None, Some(EvaluationError::DivisionByZero)));
    let tree = binary(
        binary(number(i64::MAX), AstBinaryOperatorKind::Add, number(1)),
        AstBinaryOperatorKind::Add,
        binary(number(1), AstBinaryOperatorKind::Divide, number(0)),
    );
    assert_eq!(value_of(&tree), (None, Some(EvaluationError::Overflow)));
    let tree = binary(
        number(3),
        AstBinaryOperatorKind::Multiply,
        binary(number(1), AstBinaryOperatorKind::Divide, number(0)),
    );
    assert_eq!(value_of(&tree), (None, Some(EvaluationError::DivisionByZero)));
}

#[test]
fn visiting_twice_gives_the_same_result() {
    let tree = binary(number(6), AstBinaryOperatorKind::Multiply, number(7));
    let mut evaluator = AstEvaluator::new();
    evaluator.visit_expression(&tree);
    assert_eq!((evaluator.last_value, evaluator.error), (Some(42), None));
    evaluator.visit_expression(&tree);
    assert_eq!((evaluator.last_value, evaluator.error), (Some(42), None));
    assert_eq!(value_of(&tree), (Some(42), None));

    let failing = binary(number(6), AstBinaryOperatorKind::Divide, number(0));
    let mut evaluator = AstEvaluator::new();
    evaluator.visit_expression(&failing);
    assert_eq!((evaluator.last_value, evaluator.error), (None, Some(EvaluationError::DivisionByZero)));
    evaluator.visit_expression(&failing);
    assert_eq!((evaluator.last_value, evaluator.error), (None, Some(EvaluationError::DivisionByZero)));
}

#[test]
fn failure_stays() {
    let mut evaluator = AstEvaluator::new();
    evaluator.visit_expression(&binary(number(1), AstBinaryOperatorKind::Divide, number(0)));
    evaluator.visit_expression(&number(5));
    assert_eq!((evaluator.last_value, evaluator.error), (None, Some(EvaluationError::DivisionByZero)));
    evaluator.visit_number(&AstNumberExpression { number: 5 });
    assert_eq!((evaluator.last_value, evaluator.error), (None, Some(EvaluationError::DivisionByZero)));
}

#[test]
fn last_statement_gives_the_value() {
    let mut ast = Ast::new();
    ast.add_statement(AstStatement::expression(number(1)));
    ast.add_statement(AstStatement::new(AstStatementKind::ReturnStatement));
    ast.add_statement(AstStatement::expression(binary(
        number(2),
        AstBinaryOperatorKind::Add,
        number(3),
    )));
    ast.add_statement(AstStatement::new(AstStatementKind::IfStatement));
    assert_eq!(ast.statements().len(), 4);
    let mut evaluator = AstEvaluator::new();
    ast.visit(&mut evaluator);
    assert_eq!((evaluator.last_value, evaluator.error), (Some(5), None));
}

#[test]
fn statement_without_expression_changes_nothing() {
    let mut evaluator = AstEvaluator::new();
    for kind in [
        AstStatementKind::VariableDeclaration,
        AstStatementKind::FunctionDeclaration,
        AstStatementKind::IfStatement,
        AstStatementKind::WhileStatement,
        AstStatementKind::ForStatement,
        AstStatementKind::ReturnStatement,
    ] {
        evaluator.visit_statement(&AstStatement::new(kind));
        assert_eq!((evaluator.last_value, evaluator.error), (None, None));
    }
    let mut ast = Ast::new();
    ast.visit(&mut evaluator);
    assert_eq!((evaluator.last_value, evaluator.error), (None, None));
    ast.add_statement(AstStatement::new(AstStatementKind::WhileStatement));
    ast.visit(&mut evaluator);
    assert_eq!((evaluator.last_value, evaluator.error), (None, None));
}

#[test]
fn constructors_build_the_nodes() {
    let literal = AstExpression::new(AstExpressionKind::Number(AstNumberExpression { number: 3 }));
    assert!(matches!(literal.kind, AstExpressionKind::Number(AstNumberExpression { number: 3 })));
    let sum = binary(number(1), AstBinaryOperatorKind::Add, number(2));
    match &sum.kind {
        AstExpressionKind::Binary(node) => {
            assert!(matches!(node.left.kind, AstExpressionKind::Number(AstNumberExpression { number: 1 })));
            assert!(matches!(node.right.kind, AstExpressionKind::Number(AstNumberExpression { number: 2 })));
            assert_eq!(node.operator.kind, AstBinaryOperatorKind::Add);
        }
        _ => panic!("not a binary expression"),
    }
    let wrapped = AstExpression::parenthesis(number(9));
    match &wrapped.kind {
        AstExpressionKind::Parenthesis(node) => {
            assert!(matches!(node.expression.kind, AstExpressionKind::Number(AstNumberExpression { number: 9 })));
        }
        _ => panic!("not a parenthesized expression"),
    }
    let statement = AstStatement::expression(number(4));
    assert!(matches!(statement.kind, AstStatementKind::Expression(_)));
}

#[test]
fn precedence_table() {
    assert_eq!(operator(AstBinaryOperatorKind::Add).precedence(), 1);
    assert_eq!(operator(AstBinaryOperatorKind::Subtract).precedence(), 1);
    assert_eq!(operator(AstBinaryOperatorKind::Multiply).precedence(), 2);
    assert_eq!(operator(AstBinaryOperatorKind::Divide).precedence(), 2);
}

#[test]
fn program_visited_twice_gives_the_same_result() {
    let mut ast = Ast::new();
    ast.add_statement(AstStatement::expression(number(1)));
    ast.add_statement(AstStatement::expression(binary(
        number(8),
        AstBinaryOperatorKind::Divide,
        number(3),
    )));
    let mut evaluator = AstEvaluator::new();
    ast.visit(&mut evaluator);
    assert_eq!((evaluator.last_value, evaluator.error), (Some(2), None));
    ast.visit(&mut evaluator);
    assert_eq!((evaluator.last_value, evaluator.error), (Some(2), None));

    ast.add_statement(AstStatement::expression(binary(
        number(i64::MIN),
        AstBinaryOperatorKind::Subtract,
        number(1),
    )));
    ast.add_statement(AstStatement::expression(number(4)));
    ast.visit(&mut evaluator);
    assert_eq!((evaluator.last_value, evaluator.error), (None, Some(EvaluationError::Overflow)));
    ast.visit(&mut evaluator);
    assert_eq!((evaluator.last_value, evaluator.error), (None, Some(EvaluationError::Overflow)));
}
