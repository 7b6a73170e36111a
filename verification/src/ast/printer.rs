//! The printer: a visitor that writes a tree down as indented lines, one
//! construct per line, children two columns to the right of their parent.
//!
//! The indentation is a `usize` and wraps around at its upper end.

use crate::ast::{
    same_reading, AstBinaryExpression, AstBinaryOperatorKind, AstExpression, AstExpressionKind,
    AstNumberExpression, AstParenthesisExpression, AstStatement, AstStatementKind, AstVisitor,
};
use crate::ast::lexer::{all_digits, decimal_value, lemma_decimal_value_push};
use vstd::prelude::*;

verus! {

/// The number of columns between a construct and its children.
pub const INDENT_LEVEL: usize = 2;

/// The character for a digit `0 <= d <= 9`.
pub open spec fn digit_char(digit: int) -> char {
    (digit + 0x30) as char
}

/// The decimal numeral of a natural number, without leading zeros.
pub open spec fn natural_text(value: nat) -> Seq<char>
    decreases value,
{
    if value < 10 {
        seq![digit_char(value as int)]
    } else {
        natural_text(value / 10).push(digit_char((value % 10) as int))
    }
}

/// The decimal numeral of an integer, with a minus sign if it is negative.
pub open spec fn integer_text(value: int) -> Seq<char> {
    if value < 0 {
        seq!['-'] + natural_text((-value) as nat)
    } else {
        natural_text(value as nat)
    }
}

/// The name under which the dump shows an operator.
pub open spec fn operator_name(kind: AstBinaryOperatorKind) -> Seq<char> {
    match kind {
        AstBinaryOperatorKind::Add => "Add"@,
        AstBinaryOperatorKind::Subtract => "Subtract"@,
        AstBinaryOperatorKind::Multiply => "Multiply"@,
        AstBinaryOperatorKind::Divide => "Divide"@,
    }
}

/// The indentation of the children of a construct indented by `indent`.
pub open spec fn deeper(indent: usize) -> usize {
    if indent + INDENT_LEVEL > usize::MAX {
        (indent + INDENT_LEVEL - usize::MAX - 1) as usize
    } else {
        (indent + INDENT_LEVEL) as usize
    }
}

/// A line: `indent` spaces, then `text`.
pub open spec fn line(indent: usize, text: Seq<char>) -> Seq<char> {
    Seq::new(indent as nat, |i: int| ' ') + text
}

/// The lines for a literal.
pub open spec fn render_number(number: AstNumberExpression, indent: usize) -> Seq<Seq<char>> {
    seq![line(indent, "Number: "@ + integer_text(number.number as int))]
}

/// The lines for an expression: its heading, then the lines of what it is.
pub open spec fn render_expression(expression: AstExpression, indent: usize) -> Seq<Seq<char>>
    decreases expression,
{
    seq![line(indent, "Expression"@)] + (match expression.kind {
        AstExpressionKind::Number(number) => render_number(number, deeper(indent)),
        AstExpressionKind::Binary(binary) => render_binary(binary, deeper(indent)),
        AstExpressionKind::Parenthesis(parenthesis) => render_parenthesis(
            parenthesis,
            deeper(indent),
        ),
    })
}

/// The lines for a binary expression: its heading, the operator, the left
/// operand, the right operand.
pub open spec fn render_binary(binary: AstBinaryExpression, indent: usize) -> Seq<Seq<char>>
    decreases binary,
{
    seq![
        line(indent, "Binary Expression"@),
        line(deeper(indent), "Operator: "@ + operator_name(binary.operator.kind)),
    ] + render_expression(*binary.left, deeper(indent)) + render_expression(
        *binary.right,
        deeper(indent),
    )
}

/// The lines for a parenthesized expression: its heading, then what it
/// encloses.
pub open spec fn render_parenthesis(
    parenthesis: AstParenthesisExpression,
    indent: usize,
) -> Seq<Seq<char>>
    decreases parenthesis,
{
    seq![line(indent, "Parenthesis Expression"@)] + render_expression(
        *parenthesis.expression,
        deeper(indent),
    )
}

/// The lines for a statement: its heading, then its expression if it has one.
pub open spec fn render_statement(statement: AstStatement, indent: usize) -> Seq<Seq<char>> {
    seq![line(indent, "Statement"@)] + (match statement.kind {
        AstStatementKind::Expression(expr) => render_expression(expr, deeper(indent)),
        _ => Seq::empty(),
    })
}

/// The lines for a sequence of statements.
pub open spec fn render_statements(statements: Seq<AstStatement>, indent: usize) -> Seq<
    Seq<char>,
>
    decreases statements.len(),
{
    if statements.len() == 0 {
        Seq::empty()
    } else {
        render_statements(statements.drop_last(), indent) + render_statement(
            statements.last(),
            indent,
        )
    }
}

/// The text of each of `lines`.
pub open spec fn line_views(lines: Seq<String>) -> Seq<Seq<char>> {
    lines.map_values(|text: String| text@)
}

/// The one-character text of a digit.
fn digit_text(digit: u64) -> (text: &'static str)
    requires
        digit < 10,
    ensures
        text@ == seq![digit_char(digit as int)],
{
    proof {
        reveal_strlit("0");
        reveal_strlit("1");
        reveal_strlit("2");
        reveal_strlit("3");
        reveal_strlit("4");
        reveal_strlit("5");
        reveal_strlit("6");
        reveal_strlit("7");
        reveal_strlit("8");
        reveal_strlit("9");
    }
    let text = if digit == 0 {
        "0"
    } else if digit == 1 {
        "1"
    } else if digit == 2 {
        "2"
    } else if digit == 3 {
        "3"
    } else if digit == 4 {
        "4"
    } else if digit == 5 {
        "5"
    } else if digit == 6 {
        "6"
    } else if digit == 7 {
        "7"
    } else if digit == 8 {
        "8"
    } else {
        "9"
    };
    assert(text@ =~= seq![digit_char(digit as int)]);
    text
}

/// Appends the decimal numeral of `value` to `text`.
fn append_natural(text: &mut String, value: u64)
    ensures
        final(text)@ == old(text)@ + natural_text(value as nat),
    decreases value,
{
    if value >= 10 {
        append_natural(text, value / 10);
    }
    text.append(digit_text(value % 10));
    proof {
        if value >= 10 {
            assert(text@ =~= old(text)@ + natural_text((value / 10) as nat).push(
                digit_char((value % 10) as int),
            ));
        }
    }
}

/// The decimal numeral of `value`.
pub fn integer_to_text(value: i64) -> (text: String)
    ensures
        text@ == integer_text(value as int),
{
    let mut text = String::new();
    if value < 0 {
        text.append("-");
        proof {
            reveal_strlit("-");
            assert(text@ =~= seq!['-']);
        }
        let magnitude: u64 = (-(value + 1)) as u64 + 1;
        append_natural(&mut text, magnitude);
    } else {
        append_natural(&mut text, value as u64);
        assert(text@ =~= natural_text(value as nat));
    }
    text
}

/// The numeral written for a natural number is made of digits and denotes
/// that number.
pub proof fn lemma_natural_text_denotes(value: nat)
    ensures
        natural_text(value).len() > 0,
        all_digits(natural_text(value)),
        decimal_value(natural_text(value)) == value,
    decreases value,
{
    if value < 10 {
        let numeral = natural_text(value);
        assert(numeral.drop_last() =~= Seq::<char>::empty());
        assert(decimal_value(numeral.drop_last()) == 0);
    } else {
        lemma_natural_text_denotes(value / 10);
        lemma_decimal_value_push(natural_text(value / 10), digit_char((value % 10) as int));
    }
}

/// What an `AstPrinter` holds, as plain values.
pub struct AstPrinterView {
    pub indent: usize,
    pub lines: Seq<Seq<char>>,
}

/// The printer: the indentation of the next construct, and the lines written
/// so far.
pub struct AstPrinter {
    indent: usize,
    lines: Vec<String>,
}

impl View for AstPrinter {
    type V = AstPrinterView;

    closed spec fn view(&self) -> AstPrinterView {
        AstPrinterView { indent: self.indent, lines: line_views(self.lines@) }
    }
}

/// The printer's view once `lines` have been written after those it holds.
pub open spec fn written(state: AstPrinterView, lines: Seq<Seq<char>>) -> AstPrinterView {
    AstPrinterView { indent: state.indent, lines: state.lines + lines }
}

impl AstPrinter {
    /// A printer that has written nothing and indents the next construct by
    /// `indent`.
    pub fn new(indent: usize) -> (printer: Self)
        ensures
            printer@ == (AstPrinterView { indent, lines: Seq::empty() }),
    {
        let printer = Self { indent, lines: Vec::new() };
        assert(printer@.lines =~= Seq::<Seq<char>>::empty());
        printer
    }

    /// The lines written so far.
    pub fn lines(&self) -> (lines: &Vec<String>)
        ensures
            line_views(lines@) == self@.lines,
    {
        &self.lines
    }

    /// Hands over the lines written so far.
    pub fn into_lines(self) -> (lines: Vec<String>)
        ensures
            line_views(lines@) == self@.lines,
    {
        self.lines
    }

    fn print_with_indent(&mut self, indent: usize, text: &str)
        ensures
            final(self)@ == written(old(self)@, seq![line(indent, text@)]),
    {
        let mut content = String::new();
        let mut column: usize = 0;
        assert(content@ =~= Seq::new(0nat, |i: int| ' '));
        while column < indent
            invariant
                column <= indent,
                content@ == Seq::new(column as nat, |i: int| ' '),
            decreases indent - column,
        {
            content.append(" ");
            column += 1;
            proof {
                reveal_strlit(" ");
                assert(content@ =~= Seq::new(column as nat, |i: int| ' '));
            }
        }
        content.append(text);
        self.lines.push(content);
        assert(self@.lines =~= old(self)@.lines + seq![line(indent, text@)]);
    }

    fn indent_deeper(&mut self)
        ensures
            final(self)@ == (AstPrinterView { indent: deeper(old(self)@.indent), ..old(self)@ }),
    {
        self.indent = self.indent.wrapping_add(INDENT_LEVEL);
    }

    fn indent_back(&mut self)
        ensures
            final(self)@.lines == old(self)@.lines,
            deeper(final(self)@.indent) == old(self)@.indent,
    {
        self.indent = self.indent.wrapping_sub(INDENT_LEVEL);
    }
}

/// The text of an operator's name.
fn operator_text(kind: AstBinaryOperatorKind) -> (text: &'static str)
    ensures
        text@ == operator_name(kind),
{
    match kind {
        AstBinaryOperatorKind::Add => "Add",
        AstBinaryOperatorKind::Subtract => "Subtract",
        AstBinaryOperatorKind::Multiply => "Multiply",
        AstBinaryOperatorKind::Divide => "Divide",
    }
}

/// Indentation that went two columns deeper from one place came from that
/// place.
proof fn lemma_deeper_injective(a: usize, b: usize)
    requires
        deeper(a) == deeper(b),
    ensures
        a == b,
{
}

impl AstVisitor for AstPrinter {
    open spec fn after_statement(state: AstPrinterView, statement: AstStatement) -> AstPrinterView {
        written(state, render_statement(statement, state.indent))
    }

    open spec fn after_expression(
        state: AstPrinterView,
        expression: AstExpression,
    ) -> AstPrinterView {
        written(state, render_expression(expression, state.indent))
    }

    open spec fn after_number(
        state: AstPrinterView,
        number_expression: AstNumberExpression,
    ) -> AstPrinterView {
        written(state, render_number(number_expression, state.indent))
    }

    open spec fn after_binary_expression(
        state: AstPrinterView,
        binary_expression: AstBinaryExpression,
    ) -> AstPrinterView {
        written(state, render_binary(binary_expression, state.indent))
    }

    open spec fn after_parenthesis_expression(
        state: AstPrinterView,
        parenthesis_expression: AstParenthesisExpression,
    ) -> AstPrinterView {
        written(state, render_parenthesis(parenthesis_expression, state.indent))
    }

    fn visit_statement(&mut self, statement: &AstStatement)
        ensures
            final(self)@ == written(old(self)@, render_statement(*statement, old(self)@.indent)),
    {
        let ghost before = self@;
        self.print_with_indent(self.indent, "Statement");
        self.indent_deeper();
        self.do_visit_statement(statement);
        self.indent_back();
        proof {
            lemma_deeper_injective(self@.indent, before.indent);
            assert(self@.lines =~= before.lines + render_statement(*statement, before.indent));
            assert(self@ == Self::after_statement(before, *statement));
        }
    }

    fn do_visit_expression(&mut self, expression: &AstExpression)
        ensures
            final(self)@ == written(
                old(self)@,
                match expression.kind {
                    AstExpressionKind::Number(number) => render_number(number, old(self)@.indent),
                    AstExpressionKind::Binary(binary) => render_binary(binary, old(self)@.indent),
                    AstExpressionKind::Parenthesis(parenthesis) => render_parenthesis(
                        parenthesis,
                        old(self)@.indent,
                    ),
                },
            ),
        decreases expression, 0int,
    {
        match &expression.kind {
            AstExpressionKind::Number(number) => self.visit_number(number),
            AstExpressionKind::Binary(expr) => self.visit_binary_expression(expr),
            AstExpressionKind::Parenthesis(expr) => self.visit_parenthesis_expression(expr),
        }
    }

    fn visit_expression(&mut self, expression: &AstExpression)
        ensures
            final(self)@ == written(old(self)@, render_expression(*expression, old(self)@.indent)),
        decreases expression, 1int,
    {
        let ghost before = self@;
        self.print_with_indent(self.indent, "Expression");
        self.indent_deeper();
        let ghost inside = self@;
        self.do_visit_expression(expression);
        proof {
            assert(inside.indent == deeper(before.indent));
            assert(self@ == written(
                inside,
                match expression.kind {
                    AstExpressionKind::Number(number) => render_number(number, inside.indent),
                    AstExpressionKind::Binary(binary) => render_binary(binary, inside.indent),
                    AstExpressionKind::Parenthesis(parenthesis) => render_parenthesis(
                        parenthesis,
                        inside.indent,
                    ),
                },
            ));
        }
        self.indent_back();
        proof {
            lemma_deeper_injective(self@.indent, before.indent);
            assert(self@.lines =~= before.lines + render_expression(*expression, before.indent));
            assert(self@ == Self::after_expression(before, *expression));
        }
    }

    fn visit_number(&mut self, number_expression: &AstNumberExpression)
        ensures
            final(self)@ == written(
                old(self)@,
                render_number(*number_expression, old(self)@.indent),
            ),
    {
        let mut text = String::from_str("Number: ");
        text.append(integer_to_text(number_expression.number).as_str());
        self.print_with_indent(self.indent, text.as_str());
        assert(self@ == Self::after_number(old(self)@, *number_expression));
    }

    fn visit_binary_expression(&mut self, binary_expression: &AstBinaryExpression)
        ensures
            final(self)@ == written(
                old(self)@,
                render_binary(*binary_expression, old(self)@.indent),
            ),
        decreases binary_expression,
    {
        let ghost before = self@;
        self.print_with_indent(self.indent, "Binary Expression");
        self.indent_deeper();
        let mut text = String::from_str("Operator: ");
        text.append(operator_text(binary_expression.operator.kind));
        self.print_with_indent(self.indent, text.as_str());
        let ghost inside = self@;
        self.visit_expression(&binary_expression.left);
        assert(self@ == written(
            inside,
            render_expression(*binary_expression.left, inside.indent),
        ));
        let ghost between = self@;
        self.visit_expression(&binary_expression.right);
        assert(self@ == written(
            between,
            render_expression(*binary_expression.right, between.indent),
        ));
        self.indent_back();
        proof {
            lemma_deeper_injective(self@.indent, before.indent);
            assert(self@.lines =~= before.lines + render_binary(
                *binary_expression,
                before.indent,
            ));
            assert(self@ == Self::after_binary_expression(before, *binary_expression));
        }
    }

    fn visit_parenthesis_expression(&mut self, parenthesis_expression: &AstParenthesisExpression)
        ensures
            final(self)@ == written(
                old(self)@,
                render_parenthesis(*parenthesis_expression, old(self)@.indent),
            ),
        decreases parenthesis_expression,
    {
        let ghost before = self@;
        self.print_with_indent(self.indent, "Parenthesis Expression");
        self.indent_deeper();
        let ghost inside = self@;
        self.visit_expression(&parenthesis_expression.expression);
        assert(self@ == written(
            inside,
            render_expression(*parenthesis_expression.expression, inside.indent),
        ));
        self.indent_back();
        proof {
            lemma_deeper_injective(self@.indent, before.indent);
            assert(self@.lines =~= before.lines + render_parenthesis(
                *parenthesis_expression,
                before.indent,
            ));
            assert(self@ == Self::after_parenthesis_expression(before, *parenthesis_expression));
        }
    }
}

/// A printer that visits statements in order writes their lines in order,
/// and ends with the indentation it began with.
pub proof fn lemma_printer_after_statements(state: AstPrinterView, statements: Seq<AstStatement>)
    ensures
        crate::ast::after_statements::<AstPrinter>(state, statements) == written(
            state,
            render_statements(statements, state.indent),
        ),
    decreases statements.len(),
{
    if statements.len() == 0 {
        assert(state.lines + Seq::<Seq<char>>::empty() =~= state.lines);
    } else {
        lemma_printer_after_statements(state, statements.drop_last());
        let earlier = render_statements(statements.drop_last(), state.indent);
        let last = render_statement(statements.last(), state.indent);
        assert((state.lines + earlier) + last =~= state.lines + (earlier + last));
    }
}

/// The lines for an expression depend on how it reads alone, not on the
/// tokens that its operators keep.
pub proof fn lemma_same_reading_renders(one: AstExpression, other: AstExpression, indent: usize)
    requires
        same_reading(one, other),
    ensures
        render_expression(one, indent) == render_expression(other, indent),
    decreases one,
{
    match (one.kind, other.kind) {
        (AstExpressionKind::Binary(a), AstExpressionKind::Binary(b)) => {
            lemma_same_reading_renders(*a.left, *b.left, deeper(deeper(indent)));
            lemma_same_reading_renders(*a.right, *b.right, deeper(deeper(indent)));
        },
        (AstExpressionKind::Parenthesis(a), AstExpressionKind::Parenthesis(b)) => {
            lemma_same_reading_renders(*a.expression, *b.expression, deeper(deeper(indent)));
        },
        _ => {},
    }
}

} // verus!
