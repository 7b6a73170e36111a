//! The evaluator: a visitor that folds a tree into one integer.
//!
//! Arithmetic is exact or it fails: a result that does not fit in `i64` is an
//! overflow, a zero divisor is a division by zero, and after a failure the
//! evaluator takes in nothing more. Division truncates toward zero.

use crate::ast::{
    after_statements, same_reading, AstBinaryExpression, AstBinaryOperatorKind, AstExpression,
    AstExpressionKind, AstNumberExpression, AstParenthesisExpression, AstStatement,
    AstStatementKind, AstVisitor,
};
use vstd::prelude::*;

verus! {

/// Why an evaluation produced no value.
#[derive(Debug, Clone, Copy, PartialEq, Eq, Structural)]
pub enum EvaluationError {
    /// The divisor of a division was zero.
    DivisionByZero,
    /// The exact result of an operation lies outside `i64`.
    Overflow,
}

/// The quotient of `left` by `right`, rounded toward zero, for `right != 0`.
pub open spec fn truncated_quotient(left: int, right: int) -> int {
    if left >= 0 {
        if right > 0 {
            left / right
        } else {
            -(left / (-right))
        }
    } else {
        if right > 0 {
            -((-left) / right)
        } else {
            (-left) / (-right)
        }
    }
}

/// `value` as an `i64`, or an overflow if it does not fit.
pub open spec fn fit_in_i64(value: int) -> Result<i64, EvaluationError> {
    if i64::MIN <= value <= i64::MAX {
        Ok(value as i64)
    } else {
        Err(EvaluationError::Overflow)
    }
}

/// What an operator makes of two operands.
pub open spec fn apply_operator(kind: AstBinaryOperatorKind, left: i64, right: i64) -> Result<
    i64,
    EvaluationError,
> {
    match kind {
        AstBinaryOperatorKind::Add => fit_in_i64(left + right),
        AstBinaryOperatorKind::Subtract => fit_in_i64(left - right),
        AstBinaryOperatorKind::Multiply => fit_in_i64(left * right),
        AstBinaryOperatorKind::Divide => if right == 0 {
            Err(EvaluationError::DivisionByZero)
        } else {
            fit_in_i64(truncated_quotient(left as int, right as int))
        },
    }
}

/// What an expression evaluates to. The left operand of an operator is
/// evaluated first, and the first failure is the failure of the whole.
pub open spec fn evaluate(expression: AstExpression) -> Result<i64, EvaluationError>
    decreases expression,
{
    match expression.kind {
        AstExpressionKind::Number(number) => Ok(number.number),
        AstExpressionKind::Binary(binary) => evaluate_binary(binary),
        AstExpressionKind::Parenthesis(parenthesis) => evaluate(*parenthesis.expression),
    }
}

/// What a binary expression evaluates to.
pub open spec fn evaluate_binary(binary: AstBinaryExpression) -> Result<i64, EvaluationError>
    decreases binary,
{
    match evaluate(*binary.left) {
        Err(error) => Err(error),
        Ok(left) => match evaluate(*binary.right) {
            Err(error) => Err(error),
            Ok(right) => apply_operator(binary.operator.kind, left, right),
        },
    }
}

/// Applies an operator to two operands.
pub fn apply(kind: AstBinaryOperatorKind, left: i64, right: i64) -> (result: Result<
    i64,
    EvaluationError,
>)
    ensures
        result == apply_operator(kind, left, right),
{
    let exact = match kind {
        AstBinaryOperatorKind::Add => left.checked_add(right),
        AstBinaryOperatorKind::Subtract => left.checked_sub(right),
        AstBinaryOperatorKind::Multiply => left.checked_mul(right),
        AstBinaryOperatorKind::Divide => {
            if right == 0 {
                return Err(EvaluationError::DivisionByZero);
            }
            left.checked_div(right)
        },
    };
    match exact {
        Some(value) => Ok(value),
        None => Err(EvaluationError::Overflow),
    }
}

/// The evaluator. `last_value` holds the value of what was visited last;
/// `error`, once set, says why there is none.
#[derive(Debug)]
pub struct AstEvaluator {
    pub last_value: Option<i64>,
    pub error: Option<EvaluationError>,
}

impl View for AstEvaluator {
    /// `None` before anything was evaluated, then the outcome of the last
    /// evaluation; a failure stays.
    type V = Option<Result<i64, EvaluationError>>;

    open spec fn view(&self) -> Self::V {
        match self.error {
            Some(error) => Some(Err(error)),
            None => match self.last_value {
                Some(value) => Some(Ok(value)),
                None => None,
            },
        }
    }
}

/// The evaluator's view after an evaluation with the given outcome: a failure
/// that is already there stays, anything else gives way to the outcome.
pub open spec fn record(
    state: Option<Result<i64, EvaluationError>>,
    outcome: Result<i64, EvaluationError>,
) -> Option<Result<i64, EvaluationError>> {
    match state {
        Some(Err(_)) => state,
        _ => Some(outcome),
    }
}

impl AstVisitor for AstEvaluator {
    open spec fn after_statement(state: Self::V, statement: AstStatement) -> Self::V {
        match statement.kind {
            AstStatementKind::Expression(expr) => record(state, evaluate(expr)),
            _ => state,
        }
    }

    open spec fn after_expression(state: Self::V, expression: AstExpression) -> Self::V {
        record(state, evaluate(expression))
    }

    open spec fn after_number(state: Self::V, number_expression: AstNumberExpression) -> Self::V {
        record(state, Ok(number_expression.number))
    }

    open spec fn after_binary_expression(
        state: Self::V,
        binary_expression: AstBinaryExpression,
    ) -> Self::V {
        record(state, evaluate_binary(binary_expression))
    }

    open spec fn after_parenthesis_expression(
        state: Self::V,
        parenthesis_expression: AstParenthesisExpression,
    ) -> Self::V {
        record(state, evaluate(*parenthesis_expression.expression))
    }

    fn visit_statement(&mut self, statement: &AstStatement)
        ensures
            final(self)@ == (match statement.kind {
                AstStatementKind::Expression(expr) => record(old(self)@, evaluate(expr)),
                _ => old(self)@,
            }),
    {
        self.do_visit_statement(statement);
        assert(self@ == Self::after_statement(old(self)@, *statement));
    }

    fn do_visit_expression(&mut self, expression: &AstExpression)
        ensures
            final(self)@ == record(old(self)@, evaluate(*expression)),
        decreases expression, 0int,
    {
        match &expression.kind {
            AstExpressionKind::Number(number) => self.visit_number(number),
            AstExpressionKind::Binary(expr) => self.visit_binary_expression(expr),
            AstExpressionKind::Parenthesis(expr) => self.visit_parenthesis_expression(expr),
        }
    }

    fn visit_expression(&mut self, expression: &AstExpression)
        ensures
            final(self)@ == record(old(self)@, evaluate(*expression)),
        decreases expression, 1int,
    {
        self.do_visit_expression(expression);
        assert(self@ == Self::after_expression(old(self)@, *expression));
    }

    fn visit_number(&mut self, number_expression: &AstNumberExpression)
        ensures
            final(self)@ == record(old(self)@, Ok(number_expression.number)),
    {
        if self.error.is_none() {
            self.last_value = Some(number_expression.number);
        }
        assert(self@ == Self::after_number(old(self)@, *number_expression));
    }

    /// Evaluates the left operand, then the right one, then applies the
    /// operator to the two values. The first failure ends the evaluation.
    fn visit_binary_expression(&mut self, binary_expression: &AstBinaryExpression)
        ensures
            final(self)@ == record(old(self)@, evaluate_binary(*binary_expression)),
        decreases binary_expression,
    {
        if self.error.is_none() {
            self.visit_expression(&binary_expression.left);
            assert(self@ == Some(evaluate(*binary_expression.left)));
            if self.error.is_none() {
                let left_value = self.last_value.unwrap();
                self.visit_expression(&binary_expression.right);
                assert(self@ == Some(evaluate(*binary_expression.right)));
                if self.error.is_none() {
                    let right_value = self.last_value.unwrap();
                    match apply(binary_expression.operator.kind, left_value, right_value) {
                        Ok(result) => {
                            self.last_value = Some(result);
                        },
                        Err(error) => {
                            self.last_value = None;
                            self.error = Some(error);
                        },
                    }
                }
            }
        }
        assert(self@ == Self::after_binary_expression(old(self)@, *binary_expression));
    }

    fn visit_parenthesis_expression(&mut self, parenthesis_expression: &AstParenthesisExpression)
        ensures
            final(self)@ == record(old(self)@, evaluate(*parenthesis_expression.expression)),
        decreases parenthesis_expression,
    {
        self.visit_expression(&parenthesis_expression.expression);
        assert(self@ == Self::after_parenthesis_expression(old(self)@, *parenthesis_expression));
    }
}

impl AstEvaluator {
    pub fn new() -> (evaluator: Self)
        ensures
            evaluator.last_value is None,
            evaluator.error is None,
            evaluator@ is None,
    {
        Self { last_value: None, error: None }
    }
}

/// Evaluating a tree a second time changes nothing: the evaluator is left as
/// the first evaluation left it. And what a tree evaluates to does not depend
/// on what was evaluated before it, unless that failed.
pub proof fn lemma_evaluation_repeats(
    state: Option<Result<i64, EvaluationError>>,
    other: Option<Result<i64, EvaluationError>>,
    expression: AstExpression,
)
    ensures
        AstEvaluator::after_expression(
            AstEvaluator::after_expression(state, expression),
            expression,
        ) == AstEvaluator::after_expression(state, expression),
        !(state matches Some(Err(_))) && !(other matches Some(Err(_)))
            ==> AstEvaluator::after_expression(state, expression) == AstEvaluator::after_expression(
            other,
            expression,
        ),
{
}

/// What evaluating a sequence of statements comes to: nothing if none of
/// them holds an expression, else the first failure, else the value of the
/// last expression.
pub open spec fn program_outcome(statements: Seq<AstStatement>) -> Option<
    Result<i64, EvaluationError>,
>
    decreases statements.len(),
{
    if statements.len() == 0 {
        None
    } else {
        let earlier = program_outcome(statements.drop_last());
        match (earlier, statements.last().kind) {
            (Some(Err(_)), _) => earlier,
            (_, AstStatementKind::Expression(expr)) => Some(evaluate(expr)),
            _ => earlier,
        }
    }
}

/// An evaluator that has visited a program holds the program's outcome,
/// unless it held a failure before, which stays, or the program has no
/// expression, which leaves it as it was.
pub proof fn lemma_program_evaluation(
    state: Option<Result<i64, EvaluationError>>,
    statements: Seq<AstStatement>,
)
    ensures
        after_statements::<AstEvaluator>(state, statements) == match (
            state,
            program_outcome(statements),
        ) {
            (Some(Err(_)), _) => state,
            (_, Some(outcome)) => Some(outcome),
            (_, None) => state,
        },
    decreases statements.len(),
{
    if statements.len() > 0 {
        lemma_program_evaluation(state, statements.drop_last());
    }
}

/// Evaluating a program a second time changes nothing: the evaluator is left
/// as the first evaluation left it.
pub proof fn lemma_program_evaluation_repeats(
    state: Option<Result<i64, EvaluationError>>,
    statements: Seq<AstStatement>,
)
    ensures
        after_statements::<AstEvaluator>(
            after_statements::<AstEvaluator>(state, statements),
            statements,
        ) == after_statements::<AstEvaluator>(state, statements),
{
    lemma_program_evaluation(state, statements);
    lemma_program_evaluation(after_statements::<AstEvaluator>(state, statements), statements);
}

/// What an expression evaluates to depends on how it reads alone, not on
/// the tokens that its operators keep.
pub proof fn lemma_same_reading_evaluates(one: AstExpression, other: AstExpression)
    requires
        same_reading(one, other),
    ensures
        evaluate(one) == evaluate(other),
    decreases one,
{
    match (one.kind, other.kind) {
        (AstExpressionKind::Binary(a), AstExpressionKind::Binary(b)) => {
            lemma_same_reading_evaluates(*a.left, *b.left);
            lemma_same_reading_evaluates(*a.right, *b.right);
            assert(evaluate_binary(a) == evaluate_binary(b));
        },
        (AstExpressionKind::Parenthesis(a), AstExpressionKind::Parenthesis(b)) => {
            lemma_same_reading_evaluates(*a.expression, *b.expression);
        },
        _ => {},
    }
}

} // verus!
