//! The syntax tree of an arithmetic expression, and the visitor interface
//! through which a consumer walks it.

pub mod diagnostics;
pub mod evaluator;
pub mod lexer;
pub mod parser;
pub mod printer;

use crate::ast::lexer::Token;
pub use crate::ast::printer::AstPrinter;
use crate::ast::printer::{
    lemma_printer_after_statements, line_views, render_statements, AstPrinterView,
};
use vstd::prelude::*;

verus! {

/// The four binary operators.
#[derive(Debug, Clone, Copy, PartialEq, Eq, Structural)]
pub enum AstBinaryOperatorKind {
    Add,
    Subtract,
    Multiply,
    Divide,
}

/// A binary operator together with the token it was read from.
#[derive(Debug)]
pub struct AstBinaryOperator {
    pub kind: AstBinaryOperatorKind,
    pub token: Token,
}

/// An integer literal.
#[derive(Debug)]
pub struct AstNumberExpression {
    pub number: i64,
}

/// Two operands joined by an operator.
#[derive(Debug)]
pub struct AstBinaryExpression {
    pub left: Box<AstExpression>,
    pub operator: AstBinaryOperator,
    pub right: Box<AstExpression>,
}

/// An expression between parentheses.
#[derive(Debug)]
pub struct AstParenthesisExpression {
    pub expression: Box<AstExpression>,
}

/// What an expression is.
#[derive(Debug)]
pub enum AstExpressionKind {
    Number(AstNumberExpression),
    Binary(AstBinaryExpression),
    Parenthesis(AstParenthesisExpression),
}

/// An expression.
#[derive(Debug)]
pub struct AstExpression {
    pub kind: AstExpressionKind,
}

/// The kinds of statement. Only an expression carries anything yet; a visitor
/// passes over the others.
#[derive(Debug)]
pub enum AstStatementKind {
    Expression(AstExpression),
    VariableDeclaration,
    FunctionDeclaration,
    IfStatement,
    WhileStatement,
    ForStatement,
    ReturnStatement,
}

/// A statement.
#[derive(Debug)]
pub struct AstStatement {
    pub kind: AstStatementKind,
}

/// How tightly an operator of the given kind binds: the additive ones 1, the
/// multiplicative ones 2.
pub open spec fn operator_precedence(kind: AstBinaryOperatorKind) -> u8 {
    match kind {
        AstBinaryOperatorKind::Add => 1,
        AstBinaryOperatorKind::Subtract => 1,
        AstBinaryOperatorKind::Multiply => 2,
        AstBinaryOperatorKind::Divide => 2,
    }
}

impl AstBinaryOperator {
    pub fn new(kind: AstBinaryOperatorKind, token: Token) -> (operator: Self)
        ensures
            operator == (AstBinaryOperator { kind, token }),
    {
        Self { kind, token }
    }

    pub fn precedence(&self) -> (precedence: u8)
        ensures
            precedence == operator_precedence(self.kind),
    {
        match self.kind {
            AstBinaryOperatorKind::Add => 1,
            AstBinaryOperatorKind::Subtract => 1,
            AstBinaryOperatorKind::Multiply => 2,
            AstBinaryOperatorKind::Divide => 2,
        }
    }
}

/// The expression that is the literal `number`.
pub open spec fn number_expression(number: i64) -> AstExpression {
    AstExpression { kind: AstExpressionKind::Number(AstNumberExpression { number }) }
}

/// The expression that applies `operator` to `left` and `right`.
pub open spec fn binary_expression(
    left: AstExpression,
    operator: AstBinaryOperator,
    right: AstExpression,
) -> AstExpression {
    AstExpression {
        kind: AstExpressionKind::Binary(
            AstBinaryExpression { left: Box::new(left), operator, right: Box::new(right) },
        ),
    }
}

/// The expression that is `expression` between parentheses.
pub open spec fn parenthesis_expression(expression: AstExpression) -> AstExpression {
    AstExpression {
        kind: AstExpressionKind::Parenthesis(
            AstParenthesisExpression { expression: Box::new(expression) },
        ),
    }
}

/// Whether two expressions read the same: the same tree of numbers,
/// operators and parentheses, whatever tokens their operators keep.
pub open spec fn same_reading(one: AstExpression, other: AstExpression) -> bool
    decreases one,
{
    match (one.kind, other.kind) {
        (AstExpressionKind::Number(a), AstExpressionKind::Number(b)) => a.number == b.number,
        (AstExpressionKind::Binary(a), AstExpressionKind::Binary(b)) => {
            &&& a.operator.kind == b.operator.kind
            &&& same_reading(*a.left, *b.left)
            &&& same_reading(*a.right, *b.right)
        },
        (AstExpressionKind::Parenthesis(a), AstExpressionKind::Parenthesis(b)) => same_reading(
            *a.expression,
            *b.expression,
        ),
        _ => false,
    }
}

/// Whether two expressions are the same tree, the tokens kept by their
/// operators compared as plain values.
pub open spec fn same_tree(one: AstExpression, other: AstExpression) -> bool
    decreases one,
{
    match (one.kind, other.kind) {
        (AstExpressionKind::Number(a), AstExpressionKind::Number(b)) => a.number == b.number,
        (AstExpressionKind::Binary(a), AstExpressionKind::Binary(b)) => {
            &&& a.operator.kind == b.operator.kind
            &&& a.operator.token@ == b.operator.token@
            &&& same_tree(*a.left, *b.left)
            &&& same_tree(*a.right, *b.right)
        },
        (AstExpressionKind::Parenthesis(a), AstExpressionKind::Parenthesis(b)) => same_tree(
            *a.expression,
            *b.expression,
        ),
        _ => false,
    }
}

/// The same tree reads the same.
pub proof fn lemma_same_tree_reads_same(one: AstExpression, other: AstExpression)
    requires
        same_tree(one, other),
    ensures
        same_reading(one, other),
    decreases one,
{
    match (one.kind, other.kind) {
        (AstExpressionKind::Binary(a), AstExpressionKind::Binary(b)) => {
            lemma_same_tree_reads_same(*a.left, *b.left);
            lemma_same_tree_reads_same(*a.right, *b.right);
        },
        (AstExpressionKind::Parenthesis(a), AstExpressionKind::Parenthesis(b)) => {
            lemma_same_tree_reads_same(*a.expression, *b.expression);
        },
        _ => {},
    }
}

impl AstExpression {
    pub fn new(kind: AstExpressionKind) -> (expression: Self)
        ensures
            expression == (AstExpression { kind }),
    {
        Self { kind }
    }

    pub fn number(number: i64) -> (expression: Self)
        ensures
            expression == number_expression(number),
    {
        Self::new(AstExpressionKind::Number(AstNumberExpression { number }))
    }

    pub fn binary(
        left: AstExpression,
        operator: AstBinaryOperator,
        right: AstExpression,
    ) -> (expression: Self)
        ensures
            expression == binary_expression(left, operator, right),
    {
        Self {
            kind: AstExpressionKind::Binary(
                AstBinaryExpression { left: Box::new(left), operator, right: Box::new(right) },
            ),
        }
    }

    pub fn parenthesis(expression: AstExpression) -> (parenthesized: Self)
        ensures
            parenthesized == parenthesis_expression(expression),
    {
        Self {
            kind: AstExpressionKind::Parenthesis(
                AstParenthesisExpression { expression: Box::new(expression) },
            ),
        }
    }
}

impl AstStatement {
    pub fn new(kind: AstStatementKind) -> (statement: Self)
        ensures
            statement == (AstStatement { kind }),
    {
        Self { kind }
    }

    pub fn expression(expr: AstExpression) -> (statement: Self)
        ensures
            statement == (AstStatement { kind: AstStatementKind::Expression(expr) }),
    {
        Self::new(AstStatementKind::Expression(expr))
    }
}

/// A consumer of the tree. Its view is what it has gathered so far; for each
/// kind of node a function says what the view becomes when that node is
/// visited, and the method for that kind brings the change about.
///
/// `do_visit_statement` and `do_visit_expression` only dispatch on the kind
/// of node: a statement without an expression leaves the visitor as it is.
/// The methods that descend into a node's children are written by each
/// visitor, which thereby decides what it does before, between and after
/// them, and gives the measure by which its descent ends. A visitor with
/// nothing of its own to do at a node visits the children in order: for a
/// statement or an expression it calls the dispatching method, for a binary
/// expression it visits the left operand and then the right one, for a
/// parenthesized expression what is enclosed.
pub trait AstVisitor: View + Sized {
    /// The view after a statement has been visited.
    spec fn after_statement(state: Self::V, statement: AstStatement) -> Self::V;

    /// The view after an expression has been visited.
    spec fn after_expression(state: Self::V, expression: AstExpression) -> Self::V;

    /// The view after a literal has been visited.
    spec fn after_number(state: Self::V, number_expression: AstNumberExpression) -> Self::V;

    /// The view after a binary expression has been visited, its operands
    /// included.
    spec fn after_binary_expression(
        state: Self::V,
        binary_expression: AstBinaryExpression,
    ) -> Self::V;

    /// The view after a parenthesized expression has been visited, what it
    /// encloses included.
    spec fn after_parenthesis_expression(
        state: Self::V,
        parenthesis_expression: AstParenthesisExpression,
    ) -> Self::V;

    /// Has the expression of an expression statement visited, and passes
    /// over a statement of any other kind.
    fn do_visit_statement(&mut self, statement: &AstStatement)
        ensures
            final(self)@ == (match statement.kind {
                AstStatementKind::Expression(expr) => Self::after_expression(old(self)@, expr),
                _ => old(self)@,
            }),
    {
        match &statement.kind {
            AstStatementKind::Expression(expr) => self.visit_expression(expr),
            AstStatementKind::VariableDeclaration => {},
            AstStatementKind::FunctionDeclaration => {},
            AstStatementKind::IfStatement => {},
            AstStatementKind::WhileStatement => {},
            AstStatementKind::ForStatement => {},
            AstStatementKind::ReturnStatement => {},
        }
    }

    /// Visits a statement.
    fn visit_statement(&mut self, statement: &AstStatement)
        ensures
            final(self)@ == Self::after_statement(old(self)@, *statement),
    ;

    /// Has an expression visited by the method for its kind.
    fn do_visit_expression(&mut self, expression: &AstExpression)
        ensures
            final(self)@ == (match expression.kind {
                AstExpressionKind::Number(number) => Self::after_number(old(self)@, number),
                AstExpressionKind::Binary(expr) => Self::after_binary_expression(
                    old(self)@,
                    expr,
                ),
                AstExpressionKind::Parenthesis(expr) => Self::after_parenthesis_expression(
                    old(self)@,
                    expr,
                ),
            }),
    ;

    /// Visits an expression.
    fn visit_expression(&mut self, expression: &AstExpression)
        ensures
            final(self)@ == Self::after_expression(old(self)@, *expression),
    ;

    /// Visits a literal.
    fn visit_number(&mut self, number_expression: &AstNumberExpression)
        ensures
            final(self)@ == Self::after_number(old(self)@, *number_expression),
    ;

    /// Visits a binary expression and its operands.
    fn visit_binary_expression(&mut self, binary_expression: &AstBinaryExpression)
        ensures
            final(self)@ == Self::after_binary_expression(old(self)@, *binary_expression),
    ;

    /// Visits a parenthesized expression and what it encloses.
    fn visit_parenthesis_expression(&mut self, parenthesis_expression: &AstParenthesisExpression)
        ensures
            final(self)@ == Self::after_parenthesis_expression(
                old(self)@,
                *parenthesis_expression,
            ),
    ;
}

/// The view of a visitor after it has visited `statements` in order.
pub open spec fn after_statements<V: AstVisitor>(
    state: V::V,
    statements: Seq<AstStatement>,
) -> V::V
    decreases statements.len(),
{
    if statements.len() == 0 {
        state
    } else {
        V::after_statement(
            after_statements::<V>(state, statements.drop_last()),
            statements.last(),
        )
    }
}

/// A program: its statements in source order.
#[derive(Debug)]
pub struct Ast {
    statements: Vec<AstStatement>,
}

impl View for Ast {
    type V = Seq<AstStatement>;

    closed spec fn view(&self) -> Seq<AstStatement> {
        self.statements@
    }
}

impl Ast {
    pub fn new() -> (ast: Self)
        ensures
            ast@ == Seq::<AstStatement>::empty(),
    {
        Self { statements: Vec::new() }
    }

    pub fn add_statement(&mut self, statement: AstStatement)
        ensures
            final(self)@ == old(self)@.push(statement),
    {
        self.statements.push(statement);
    }

    /// The statements, in source order.
    pub fn statements(&self) -> (statements: &Vec<AstStatement>)
        ensures
            statements@ == self@,
    {
        &self.statements
    }

    /// The program written down as indented lines, the statements at
    /// indentation 1.
    pub fn visualize(&self) -> (lines: Vec<String>)
        ensures
            line_views(lines@) == render_statements(self@, 1),
    {
        let mut printer = AstPrinter::new(1);
        self.visit(&mut printer);
        proof {
            lemma_printer_after_statements(
                AstPrinterView { indent: 1, lines: Seq::empty() },
                self@,
            );
            assert(Seq::<Seq<char>>::empty() + render_statements(self@, 1) =~= render_statements(
                self@,
                1,
            ));
        }
        printer.into_lines()
    }

    /// Has `visitor` visit every statement, first to last.
    pub fn visit<V: AstVisitor>(&self, visitor: &mut V)
        ensures
            final(visitor)@ == after_statements::<V>(old(visitor)@, self@),
    {
        let mut index: usize = 0;
        while index < self.statements.len()
            invariant
                index <= self.statements.len(),
                visitor@ == after_statements::<V>(
                    old(visitor)@,
                    self.statements@.take(index as int),
                ),
            decreases self.statements.len() - index,
        {
            visitor.visit_statement(&self.statements[index]);
            proof {
                let visited = self.statements@.take(index as int + 1);
                assert(visited.drop_last() =~= self.statements@.take(index as int));
            }
            index += 1;
        }
        assert(self.statements@.take(index as int) =~= self.statements@);
    }
}

} // verus!
