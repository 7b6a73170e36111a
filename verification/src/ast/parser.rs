//! The parser: builds expressions from tokens by precedence climbing.
//!
//! The grammar is stated as functions on a token sequence and a position
//! (`parse_primary`, `parse_binary`, `parse_operators`); the parser's methods
//! return what those functions say. Three laws say what the functions come
//! to: a parsed expression is written with exactly the tokens passed over
//! (`lemma_parse_spells_tokens`), it is grouped by precedence, to the left
//! among equals (`lemma_parse_groups`), and every expression so grouped and so
//! written is the one that is found (`lemma_parse_finds_reading`). Past the
//! last token the parser sees the end of input.
//!
//! A parse fails at the first token that cannot go on the expression. The
//! failure is reported to the diagnostics, the offending token is passed over,
//! and no expression is returned. When `next_statement` returns `None` and has
//! reported nothing, the tokens have come to their end; `at_end` tells
//! beforehand.

use crate::ast::diagnostics::{
    unexpected_token_message, DiagnosticKind, DiagnosticView, DiagnosticsBag,
};
use crate::ast::lexer::{
    end_of_input_token, token_views, tokenize, tokens_of, TextSpan, TextSpanView, Token,
    TokenKind, TokenView,
};
use crate::ast::{
    binary_expression, number_expression, operator_precedence, parenthesis_expression,
    same_reading, same_tree, Ast,
    AstBinaryOperator, AstBinaryOperatorKind, AstExpression, AstExpressionKind, AstStatement,
    AstStatementKind,
};
use vstd::prelude::*;

verus! {

/// The kind of the token at `pos`; past the last token, the end of input.
pub open spec fn kind_at(tokens: Seq<Token>, pos: int) -> TokenKind {
    if 0 <= pos < tokens.len() {
        tokens[pos].kind
    } else {
        TokenKind::EOF
    }
}

/// The span of the token at `pos`; past the last token, the span of the
/// closing token.
pub open spec fn span_at(tokens: Seq<Token>, pos: int) -> TextSpanView {
    if 0 <= pos < tokens.len() {
        tokens[pos].span@
    } else {
        end_of_input_token().span
    }
}

/// The operator that a token of the given kind stands for, if any.
pub open spec fn operator_of(kind: TokenKind) -> Option<AstBinaryOperatorKind> {
    match kind {
        TokenKind::Plus => Some(AstBinaryOperatorKind::Add),
        TokenKind::Minus => Some(AstBinaryOperatorKind::Subtract),
        TokenKind::Asterisk => Some(AstBinaryOperatorKind::Multiply),
        TokenKind::Slash => Some(AstBinaryOperatorKind::Divide),
        _ => None,
    }
}

/// A token that cannot go on the expression: where it stands, and the kind
/// that was due in its place.
pub struct SyntaxError {
    pub expected: TokenKind,
    pub position: int,
}

/// The kind that stands for "a primary expression" in a report.
pub open spec fn primary_kind() -> TokenKind {
    TokenKind::Number(0)
}

/// A primary expression at `pos`: a number, or an expression between
/// parentheses. The result holds the expression and the position after it.
pub open spec fn parse_primary(tokens: Seq<Token>, pos: int) -> Result<
    (AstExpression, int),
    SyntaxError,
>
    decreases tokens.len() - pos, 0int,
{
    match kind_at(tokens, pos) {
        TokenKind::Number(number) => Ok((number_expression(number), pos + 1)),
        TokenKind::LParen => match parse_binary(tokens, pos + 1, 0) {
            Ok((inner, end)) => if kind_at(tokens, end) == TokenKind::RParen {
                Ok((parenthesis_expression(inner), end + 1))
            } else {
                Err(SyntaxError { expected: TokenKind::RParen, position: end })
            },
            Err(error) => Err(error),
        },
        _ => Err(SyntaxError { expected: primary_kind(), position: pos }),
    }
}

/// An expression at `pos` all of whose operators, outside parentheses, bind
/// more tightly than `floor`: a primary expression, then operators and
/// operands for as long as the next operator binds more tightly than `floor`.
///
/// A primary expression spans at least one token and ends within the tokens
/// (`lemma_parse_advances`); the definition says so for the sake of its own
/// termination.
pub open spec fn parse_binary(tokens: Seq<Token>, pos: int, floor: u8) -> Result<
    (AstExpression, int),
    SyntaxError,
>
    decreases tokens.len() - pos, 2int,
{
    match parse_primary(tokens, pos) {
        Ok((left, end)) => if pos < end <= tokens.len() {
            parse_operators(tokens, left, end, floor)
        } else {
            Ok((left, end))
        },
        Err(error) => Err(error),
    }
}

/// Goes on from `left`, an expression that ends before `pos`. If the token at
/// `pos` is an operator that binds more tightly than `floor`, its right
/// operand is the expression after it whose operators bind more tightly than
/// the operator itself; the two operands joined become the new `left`.
/// Otherwise the expression is `left` and ends here.
pub open spec fn parse_operators(
    tokens: Seq<Token>,
    left: AstExpression,
    pos: int,
    floor: u8,
) -> Result<(AstExpression, int), SyntaxError>
    decreases tokens.len() - pos, 1int,
{
    match operator_of(kind_at(tokens, pos)) {
        Some(kind) => if operator_precedence(kind) > floor {
            match parse_binary(tokens, pos + 1, operator_precedence(kind)) {
                Ok((right, end)) => if pos < end <= tokens.len() {
                    parse_operators(
                        tokens,
                        binary_expression(
                            left,
                            AstBinaryOperator { kind, token: tokens[pos] },
                            right,
                        ),
                        end,
                        floor,
                    )
                } else {
                    Ok((left, pos))
                },
                Err(error) => Err(error),
            }
        } else {
            Ok((left, pos))
        },
        None => Ok((left, pos)),
    }
}

/// A whole expression at `pos`.
pub open spec fn parse_expression(tokens: Seq<Token>, pos: int) -> Result<
    (AstExpression, int),
    SyntaxError,
> {
    parse_binary(tokens, pos, 0)
}

/// The expression of a successful parse.
pub open spec fn parsed_expression(outcome: Result<(AstExpression, int), SyntaxError>) -> Option<
    AstExpression,
> {
    match outcome {
        Ok((expression, _)) => Some(expression),
        Err(_) => None,
    }
}

/// The report of a syntax error.
pub open spec fn diagnostic_of(tokens: Seq<Token>, error: SyntaxError) -> DiagnosticView {
    DiagnosticView {
        message: unexpected_token_message(error.expected, kind_at(tokens, error.position)),
        span: span_at(tokens, error.position),
        kind: DiagnosticKind::Error,
    }
}

/// What a `Parser` holds, as plain values: its tokens, the position of the
/// current token, and the reports made so far.
pub struct ParserView {
    pub tokens: Seq<Token>,
    pub position: int,
    pub diagnostics: Seq<DiagnosticView>,
}

/// The position after the token at `pos`; there is none after the end.
pub open spec fn position_after(tokens: Seq<Token>, pos: int) -> int {
    if pos < tokens.len() {
        pos + 1
    } else {
        pos
    }
}

/// The parser after a parse with the given outcome. A success moves it past
/// the expression. A failure moves it past the offending token and adds one
/// report.
pub open spec fn parser_after(
    state: ParserView,
    outcome: Result<(AstExpression, int), SyntaxError>,
) -> ParserView {
    match outcome {
        Ok((_, end)) => ParserView { position: end, ..state },
        Err(error) => ParserView {
            position: position_after(state.tokens, error.position),
            diagnostics: state.diagnostics.push(diagnostic_of(state.tokens, error)),
            ..state
        },
    }
}

/// A successful parse spans at least one token and ends within the tokens; a
/// failed one fails at or after the token it began with.
pub proof fn lemma_parse_advances(tokens: Seq<Token>, pos: int, floor: u8)
    requires
        0 <= pos,
    ensures
        parse_primary(tokens, pos) matches Ok((_, end)) ==> pos < end <= tokens.len(),
        parse_primary(tokens, pos) matches Err(error) ==> pos <= error.position,
        parse_binary(tokens, pos, floor) matches Ok((_, end)) ==> pos < end <= tokens.len(),
        parse_binary(tokens, pos, floor) matches Err(error) ==> pos <= error.position,
    decreases tokens.len() - pos, 2int,
{
    lemma_primary_advances(tokens, pos);
    match parse_primary(tokens, pos) {
        Ok((left, end)) => {
            lemma_operators_advance(tokens, left, end, floor);
        },
        Err(_) => {},
    }
}

proof fn lemma_primary_advances(tokens: Seq<Token>, pos: int)
    requires
        0 <= pos,
    ensures
        parse_primary(tokens, pos) matches Ok((_, end)) ==> pos < end <= tokens.len(),
        parse_primary(tokens, pos) matches Err(error) ==> pos <= error.position,
    decreases tokens.len() - pos, 0int,
{
    if kind_at(tokens, pos) == TokenKind::LParen {
        lemma_parse_advances(tokens, pos + 1, 0);
    }
}

proof fn lemma_operators_advance(tokens: Seq<Token>, left: AstExpression, pos: int, floor: u8)
    requires
        0 <= pos <= tokens.len(),
    ensures
        parse_operators(tokens, left, pos, floor) matches Ok((_, end)) ==> pos <= end
            <= tokens.len(),
        parse_operators(tokens, left, pos, floor) matches Err(error) ==> pos <= error.position,
    decreases tokens.len() - pos, 1int,
{
    match operator_of(kind_at(tokens, pos)) {
        Some(kind) => {
            if operator_precedence(kind) > floor {
                lemma_parse_advances(tokens, pos + 1, operator_precedence(kind));
                match parse_binary(tokens, pos + 1, operator_precedence(kind)) {
                    Ok((right, end)) => {
                        let joined = binary_expression(
                            left,
                            AstBinaryOperator { kind, token: tokens[pos] },
                            right,
                        );
                        lemma_operators_advance(tokens, joined, end, floor);
                    },
                    Err(_) => {},
                }
            }
        },
        None => {},
    }
}

/// The kinds of the tokens that an expression is written with, in order.
pub open spec fn expression_kinds(expression: AstExpression) -> Seq<TokenKind>
    decreases expression,
{
    match expression.kind {
        AstExpressionKind::Number(number) => seq![TokenKind::Number(number.number)],
        AstExpressionKind::Binary(binary) => expression_kinds(*binary.left).push(
            binary.operator.token.kind,
        ) + expression_kinds(*binary.right),
        AstExpressionKind::Parenthesis(parenthesis) => (seq![TokenKind::LParen] + expression_kinds(
            *parenthesis.expression,
        )).push(TokenKind::RParen),
    }
}

/// The kinds of the tokens from `start` up to `end`.
pub open spec fn kinds_between(tokens: Seq<Token>, start: int, end: int) -> Seq<TokenKind> {
    tokens.subrange(start, end).map_values(|token: Token| token.kind)
}

/// A parsed expression is written with exactly the tokens that the parse
/// went over: nothing is dropped, added or reordered.
pub proof fn lemma_parse_spells_tokens(tokens: Seq<Token>, pos: int, floor: u8)
    requires
        0 <= pos,
    ensures
        parse_primary(tokens, pos) matches Ok((expression, end)) ==> expression_kinds(expression)
            == kinds_between(tokens, pos, end),
        parse_binary(tokens, pos, floor) matches Ok((expression, end)) ==> expression_kinds(
            expression,
        ) == kinds_between(tokens, pos, end),
    decreases tokens.len() - pos, 2int,
{
    lemma_primary_spells_tokens(tokens, pos);
    lemma_parse_advances(tokens, pos, floor);
    match parse_primary(tokens, pos) {
        Ok((left, end)) => {
            lemma_operators_spell_tokens(tokens, left, pos, end, floor);
        },
        Err(_) => {},
    }
}

proof fn lemma_primary_spells_tokens(tokens: Seq<Token>, pos: int)
    requires
        0 <= pos,
    ensures
        parse_primary(tokens, pos) matches Ok((expression, end)) ==> expression_kinds(expression)
            == kinds_between(tokens, pos, end),
    decreases tokens.len() - pos, 0int,
{
    match kind_at(tokens, pos) {
        TokenKind::Number(number) => {
            assert(kinds_between(tokens, pos, pos + 1) =~= seq![TokenKind::Number(number)]);
        },
        TokenKind::LParen => {
            lemma_parse_spells_tokens(tokens, pos + 1, 0);
            lemma_parse_advances(tokens, pos + 1, 0);
            match parse_binary(tokens, pos + 1, 0) {
                Ok((inner, end)) => {
                    if kind_at(tokens, end) == TokenKind::RParen {
                        assert(kinds_between(tokens, pos, end + 1) =~= (seq![TokenKind::LParen]
                            + kinds_between(tokens, pos + 1, end)).push(TokenKind::RParen));
                    }
                },
                Err(_) => {},
            }
        },
        _ => {},
    }
}

proof fn lemma_operators_spell_tokens(
    tokens: Seq<Token>,
    left: AstExpression,
    start: int,
    pos: int,
    floor: u8,
)
    requires
        0 <= start <= pos <= tokens.len(),
        expression_kinds(left) == kinds_between(tokens, start, pos),
    ensures
        parse_operators(tokens, left, pos, floor) matches Ok((expression, end))
            ==> expression_kinds(expression) == kinds_between(tokens, start, end),
    decreases tokens.len() - pos, 1int,
{
    match operator_of(kind_at(tokens, pos)) {
        Some(kind) => {
            if operator_precedence(kind) > floor {
                lemma_parse_spells_tokens(tokens, pos + 1, operator_precedence(kind));
                lemma_parse_advances(tokens, pos + 1, operator_precedence(kind));
                match parse_binary(tokens, pos + 1, operator_precedence(kind)) {
                    Ok((right, end)) => {
                        let joined = binary_expression(
                            left,
                            AstBinaryOperator { kind, token: tokens[pos] },
                            right,
                        );
                        assert(kinds_between(tokens, start, end) =~= kinds_between(
                            tokens,
                            start,
                            pos,
                        ).push(tokens[pos].kind) + kinds_between(tokens, pos + 1, end));
                        lemma_operators_spell_tokens(tokens, joined, start, end, floor);
                    },
                    Err(_) => {},
                }
            }
        },
        None => {},
    }
}

/// The operator at the top of an expression, if it is a binary expression.
pub open spec fn top_operator(expression: AstExpression) -> Option<AstBinaryOperatorKind> {
    match expression.kind {
        AstExpressionKind::Binary(binary) => Some(binary.operator.kind),
        _ => None,
    }
}

/// Whether an expression is grouped as precedence and association to the left
/// demand: no operand that is itself a binary expression, outside
/// parentheses, binds less tightly than the operator over it, and a right
/// operand binds more tightly. Each operator is the one its token stands for.
pub open spec fn well_grouped(expression: AstExpression) -> bool
    decreases expression,
{
    match expression.kind {
        AstExpressionKind::Number(_) => true,
        AstExpressionKind::Parenthesis(parenthesis) => well_grouped(*parenthesis.expression),
        AstExpressionKind::Binary(binary) => {
            &&& well_grouped(*binary.left)
            &&& well_grouped(*binary.right)
            &&& operator_of(binary.operator.token.kind) == Some(binary.operator.kind)
            &&& top_operator(*binary.left) matches Some(kind) ==> operator_precedence(kind)
                >= operator_precedence(binary.operator.kind)
            &&& top_operator(*binary.right) matches Some(kind) ==> operator_precedence(kind)
                > operator_precedence(binary.operator.kind)
        },
    }
}

/// Whether the token at `pos` is no operator that binds more tightly than
/// `floor`.
pub open spec fn stops_at(tokens: Seq<Token>, pos: int, floor: u8) -> bool {
    operator_of(kind_at(tokens, pos)) matches Some(kind) ==> operator_precedence(kind) <= floor
}

/// A parsed expression is well grouped, its top operator binds more tightly
/// than the floor it was parsed with, and it ends where no such operator
/// follows.
pub proof fn lemma_parse_groups(tokens: Seq<Token>, pos: int, floor: u8)
    requires
        0 <= pos,
    ensures
        parse_primary(tokens, pos) matches Ok((expression, _)) ==> well_grouped(expression)
            && top_operator(expression) is None,
        parse_binary(tokens, pos, floor) matches Ok((expression, end)) ==> ({
            &&& well_grouped(expression)
            &&& top_operator(expression) matches Some(kind) ==> operator_precedence(kind) > floor
            &&& stops_at(tokens, end, floor)
        }),
    decreases tokens.len() - pos, 2int,
{
    lemma_primary_groups(tokens, pos);
    lemma_parse_advances(tokens, pos, floor);
    match parse_primary(tokens, pos) {
        Ok((left, end)) => {
            lemma_operators_group(tokens, left, end, floor);
        },
        Err(_) => {},
    }
}

proof fn lemma_primary_groups(tokens: Seq<Token>, pos: int)
    requires
        0 <= pos,
    ensures
        parse_primary(tokens, pos) matches Ok((expression, _)) ==> well_grouped(expression)
            && top_operator(expression) is None,
    decreases tokens.len() - pos, 0int,
{
    if kind_at(tokens, pos) == TokenKind::LParen {
        lemma_parse_groups(tokens, pos + 1, 0);
    }
}

proof fn lemma_operators_group(tokens: Seq<Token>, left: AstExpression, pos: int, floor: u8)
    requires
        0 <= pos <= tokens.len(),
        well_grouped(left),
        top_operator(left) matches Some(kind) ==> operator_precedence(kind) > floor && stops_at(
            tokens,
            pos,
            operator_precedence(kind),
        ),
    ensures
        parse_operators(tokens, left, pos, floor) matches Ok((expression, end)) ==> ({
            &&& well_grouped(expression)
            &&& top_operator(expression) matches Some(kind) ==> operator_precedence(kind) > floor
            &&& stops_at(tokens, end, floor)
        }),
    decreases tokens.len() - pos, 1int,
{
    match operator_of(kind_at(tokens, pos)) {
        Some(kind) => {
            if operator_precedence(kind) > floor {
                lemma_parse_groups(tokens, pos + 1, operator_precedence(kind));
                lemma_parse_advances(tokens, pos + 1, operator_precedence(kind));
                match parse_binary(tokens, pos + 1, operator_precedence(kind)) {
                    Ok((right, end)) => {
                        let joined = binary_expression(
                            left,
                            AstBinaryOperator { kind, token: tokens[pos] },
                            right,
                        );
                        assert(well_grouped(joined));
                        lemma_operators_group(tokens, joined, end, floor);
                    },
                    Err(_) => {},
                }
            }
        },
        None => {},
    }
}

/// Where kinds of tokens are one run, a kind, and another run, the tokens
/// divide in the same way.
proof fn lemma_kinds_split(
    tokens: Seq<Token>,
    pos: int,
    end: int,
    before: Seq<TokenKind>,
    kind: TokenKind,
    after: Seq<TokenKind>,
)
    requires
        0 <= pos <= end <= tokens.len(),
        before.push(kind) + after == kinds_between(tokens, pos, end),
    ensures
        pos + before.len() + 1 + after.len() == end,
        before == kinds_between(tokens, pos, pos + before.len()),
        kind_at(tokens, pos + before.len()) == kind,
        after == kinds_between(tokens, pos + before.len() + 1, end),
{
    let whole = kinds_between(tokens, pos, end);
    let middle = pos + before.len();
    assert(whole.len() == end - pos);
    assert((before.push(kind) + after).len() == before.len() + 1 + after.len());
    assert(whole[before.len() as int] == kind);
    assert forall|i: int| 0 <= i < before.len() implies before[i] == kinds_between(
        tokens,
        pos,
        middle,
    )[i] by {
        assert(whole[i] == before[i]);
    }
    assert(before =~= kinds_between(tokens, pos, middle));
    assert forall|i: int| 0 <= i < after.len() implies after[i] == kinds_between(
        tokens,
        middle + 1,
        end,
    )[i] by {
        assert(whole[before.len() + 1 + i] == after[i]);
    }
    assert(after =~= kinds_between(tokens, middle + 1, end));
}

/// Every well-grouped reading of the tokens is the one that the parser
/// finds. If an expression is well grouped, is written with exactly the
/// tokens from `pos` up to `end`, has a top operator, if any, that binds more
/// tightly than `floor`, and is followed by no operator that binds more
/// tightly than `floor`, then the parse at `pos` succeeds, ends at `end` and
/// reads the same.
pub proof fn lemma_parse_finds_reading(
    tokens: Seq<Token>,
    pos: int,
    floor: u8,
    expression: AstExpression,
    end: int,
)
    requires
        0 <= pos <= end <= tokens.len(),
        well_grouped(expression),
        top_operator(expression) matches Some(kind) ==> operator_precedence(kind) > floor,
        expression_kinds(expression) == kinds_between(tokens, pos, end),
        stops_at(tokens, end, floor),
    ensures
        parse_binary(tokens, pos, floor) matches Ok((parsed, parsed_end)) && parsed_end == end
            && same_reading(parsed, expression),
    decreases expression, 2int,
{
    lemma_parse_reaches(tokens, pos, floor, expression, end);
}

proof fn lemma_primary_finds(tokens: Seq<Token>, pos: int, expression: AstExpression, end: int)
    requires
        0 <= pos <= end <= tokens.len(),
        well_grouped(expression),
        top_operator(expression) is None,
        expression_kinds(expression) == kinds_between(tokens, pos, end),
    ensures
        parse_primary(tokens, pos) matches Ok((parsed, parsed_end)) && parsed_end == end
            && same_reading(parsed, expression),
    decreases expression, 0int,
{
    let whole = kinds_between(tokens, pos, end);
    assert(whole.len() == end - pos);
    match expression.kind {
        AstExpressionKind::Number(number) => {
            assert(expression_kinds(expression).len() == 1);
            assert(whole[0] == TokenKind::Number(number.number));
        },
        AstExpressionKind::Parenthesis(parenthesis) => {
            let inner = *parenthesis.expression;
            lemma_kinds_split(
                tokens,
                pos,
                end,
                Seq::empty(),
                TokenKind::LParen,
                expression_kinds(inner).push(TokenKind::RParen),
            );
            lemma_kinds_split(
                tokens,
                pos + 1,
                end,
                expression_kinds(inner),
                TokenKind::RParen,
                Seq::empty(),
            );
            lemma_parse_finds_reading(tokens, pos + 1, 0, inner, end - 1);
        },
        AstExpressionKind::Binary(_) => {},
    }
}

/// The parse of a well-grouped reading goes through each expression on the
/// left edge of the reading: after the first primary expression, going on
/// from there comes to the same as going on from the whole reading.
proof fn lemma_parse_reaches(
    tokens: Seq<Token>,
    pos: int,
    floor: u8,
    expression: AstExpression,
    end: int,
) -> (reached: AstExpression)
    requires
        0 <= pos <= end <= tokens.len(),
        well_grouped(expression),
        expression_kinds(expression) == kinds_between(tokens, pos, end),
        top_operator(expression) matches Some(kind) ==> operator_precedence(kind) > floor
            && stops_at(tokens, end, operator_precedence(kind)),
    ensures
        same_reading(reached, expression),
        pos < end,
        parse_primary(tokens, pos) matches Ok((first, first_end)) && pos < first_end <= end
            && parse_operators(tokens, first, first_end, floor) == parse_operators(
            tokens,
            reached,
            end,
            floor,
        ),
        stops_at(tokens, end, floor) ==> parse_binary(tokens, pos, floor) == Ok::<
            (AstExpression, int),
            SyntaxError,
        >((reached, end)),
    decreases expression, 1int,
{
    match expression.kind {
        AstExpressionKind::Binary(binary) => {
            let left = *binary.left;
            let right = *binary.right;
            let kind = binary.operator.kind;
            let precedence = operator_precedence(kind);
            lemma_kinds_split(
                tokens,
                pos,
                end,
                expression_kinds(left),
                binary.operator.token.kind,
                expression_kinds(right),
            );
            let middle = pos + expression_kinds(left).len();
            let reached_left = lemma_parse_reaches(tokens, pos, floor, left, middle);
            lemma_parse_finds_reading(tokens, middle + 1, precedence, right, end);
            let parsed_right = parse_binary(tokens, middle + 1, precedence)->Ok_0.0;
            let joined = binary_expression(
                reached_left,
                AstBinaryOperator { kind, token: tokens[middle] },
                parsed_right,
            );
            assert(parse_operators(tokens, reached_left, middle, floor) == parse_operators(
                tokens,
                joined,
                end,
                floor,
            ));
            joined
        },
        _ => {
            lemma_primary_finds(tokens, pos, expression, end);
            lemma_parse_advances(tokens, pos, floor);
            parse_primary(tokens, pos)->Ok_0.0
        },
    }
}

/// Whether two parses came out alike: both failed at the same place for want
/// of the same kind, or both succeeded with the same tree and end.
pub open spec fn same_outcome(
    one: Result<(AstExpression, int), SyntaxError>,
    other: Result<(AstExpression, int), SyntaxError>,
) -> bool {
    match (one, other) {
        (Ok((a, end_a)), Ok((b, end_b))) => end_a == end_b && same_tree(a, b),
        (Err(a), Err(b)) => a == b,
        _ => false,
    }
}

/// A parse depends on its tokens as plain values alone: token sequences that
/// hold the same kinds and spans parse alike.
pub proof fn lemma_parse_alike(one: Seq<Token>, other: Seq<Token>, pos: int, floor: u8)
    requires
        0 <= pos,
        token_views(one) == token_views(other),
    ensures
        same_outcome(parse_primary(one, pos), parse_primary(other, pos)),
        same_outcome(parse_binary(one, pos, floor), parse_binary(other, pos, floor)),
    decreases one.len() - pos, 2int,
{
    lemma_views_alike(one, other, pos);
    lemma_primary_alike(one, other, pos);
    lemma_parse_advances(one, pos, floor);
    match (parse_primary(one, pos), parse_primary(other, pos)) {
        (Ok((a, end)), Ok((b, _))) => {
            lemma_operators_alike(one, other, a, b, end, floor);
        },
        _ => {},
    }
}

/// Token sequences with the same plain values have the same length and, at
/// each place, the same kind and span.
proof fn lemma_views_alike(one: Seq<Token>, other: Seq<Token>, pos: int)
    requires
        token_views(one) == token_views(other),
    ensures
        one.len() == other.len(),
        kind_at(one, pos) == kind_at(other, pos),
        span_at(one, pos) == span_at(other, pos),
        0 <= pos < one.len() ==> one[pos]@ == other[pos]@,
{
    assert(token_views(one).len() == one.len());
    assert(token_views(other).len() == other.len());
    if 0 <= pos < one.len() {
        assert(token_views(one)[pos] == one[pos]@);
        assert(token_views(other)[pos] == other[pos]@);
    }
}

proof fn lemma_primary_alike(one: Seq<Token>, other: Seq<Token>, pos: int)
    requires
        0 <= pos,
        token_views(one) == token_views(other),
    ensures
        same_outcome(parse_primary(one, pos), parse_primary(other, pos)),
    decreases one.len() - pos, 0int,
{
    lemma_views_alike(one, other, pos);
    if kind_at(one, pos) == TokenKind::LParen {
        lemma_parse_alike(one, other, pos + 1, 0);
        match parse_binary(one, pos + 1, 0) {
            Ok((_, end)) => {
                lemma_views_alike(one, other, end);
            },
            Err(_) => {},
        }
    }
}

proof fn lemma_operators_alike(
    one: Seq<Token>,
    other: Seq<Token>,
    left: AstExpression,
    other_left: AstExpression,
    pos: int,
    floor: u8,
)
    requires
        0 <= pos <= one.len(),
        token_views(one) == token_views(other),
        same_tree(left, other_left),
    ensures
        same_outcome(
            parse_operators(one, left, pos, floor),
            parse_operators(other, other_left, pos, floor),
        ),
    decreases one.len() - pos, 1int,
{
    lemma_views_alike(one, other, pos);
    match operator_of(kind_at(one, pos)) {
        Some(kind) => {
            if operator_precedence(kind) > floor {
                lemma_parse_alike(one, other, pos + 1, operator_precedence(kind));
                lemma_parse_advances(one, pos + 1, operator_precedence(kind));
                match (
                    parse_binary(one, pos + 1, operator_precedence(kind)),
                    parse_binary(other, pos + 1, operator_precedence(kind)),
                ) {
                    (Ok((right, end)), Ok((other_right, _))) => {
                        lemma_operators_alike(
                            one,
                            other,
                            binary_expression(
                                left,
                                AstBinaryOperator { kind, token: one[pos] },
                                right,
                            ),
                            binary_expression(
                                other_left,
                                AstBinaryOperator { kind, token: other[pos] },
                                other_right,
                            ),
                            end,
                            floor,
                        );
                    },
                    _ => {},
                }
            }
        },
        None => {},
    }
}

/// The tokens that a parser works on: all but whitespace, in order.
pub open spec fn without_whitespace_tokens(tokens: Seq<Token>) -> Seq<Token> {
    tokens.filter(|token: Token| token.kind != TokenKind::Whitespace)
}

/// The statement that a parse at `pos` yields: none where the tokens have
/// come to their end, else the outcome of parsing one expression.
pub open spec fn parse_statement(tokens: Seq<Token>, pos: int) -> Option<
    Result<(AstExpression, int), SyntaxError>,
> {
    if kind_at(tokens, pos) == TokenKind::EOF {
        None
    } else {
        Some(parse_expression(tokens, pos))
    }
}

/// The statements that parsing yields from `pos` on, up to the end of input
/// or the first failure.
pub open spec fn parse_statements(tokens: Seq<Token>, pos: int) -> Seq<AstStatement>
    decreases tokens.len() - pos,
{
    match parse_statement(tokens, pos) {
        Some(Ok((expression, end))) => if pos < end <= tokens.len() {
            seq![AstStatement { kind: AstStatementKind::Expression(expression) }]
                + parse_statements(tokens, end)
        } else {
            Seq::empty()
        },
        _ => Seq::empty(),
    }
}

/// The failure that ends the statements from `pos` on, if one does.
pub open spec fn first_failure(tokens: Seq<Token>, pos: int) -> Option<SyntaxError>
    decreases tokens.len() - pos,
{
    match parse_statement(tokens, pos) {
        Some(Ok((_, end))) => if pos < end <= tokens.len() {
            first_failure(tokens, end)
        } else {
            None
        },
        Some(Err(error)) => Some(error),
        None => None,
    }
}

/// The tokens of a sequence that are not whitespace, as plain values.
pub open spec fn significant_tokens(tokens: Seq<TokenView>) -> Seq<TokenView> {
    tokens.filter(|token: TokenView| token.kind != TokenKind::Whitespace)
}

/// Leaving out whitespace and taking the tokens as plain values can be done
/// in either order.
pub proof fn lemma_whitespace_filter_commutes(tokens: Seq<Token>)
    ensures
        token_views(without_whitespace_tokens(tokens)) == significant_tokens(token_views(tokens)),
    decreases tokens.len(),
{
    reveal(Seq::filter);
    if tokens.len() == 0 {
        assert(token_views(without_whitespace_tokens(tokens)) =~= Seq::<TokenView>::empty());
        assert(significant_tokens(token_views(tokens)) =~= Seq::<TokenView>::empty());
    } else {
        let earlier = tokens.drop_last();
        lemma_whitespace_filter_commutes(earlier);
        assert(token_views(tokens).drop_last() =~= token_views(earlier));
        assert(token_views(tokens).last() == tokens.last()@);
        if tokens.last().kind != TokenKind::Whitespace {
            assert(token_views(without_whitespace_tokens(earlier).push(tokens.last()))
                =~= token_views(without_whitespace_tokens(earlier)).push(tokens.last()@));
        }
    }
}

/// A cursor over tokens that hands out one statement per call.
pub struct Parser {
    tokens: Vec<Token>,
    current: usize,
    diagnostic_bag: DiagnosticsBag,
}

impl View for Parser {
    type V = ParserView;

    closed spec fn view(&self) -> ParserView {
        ParserView {
            tokens: self.tokens@,
            position: self.current as int,
            diagnostics: self.diagnostic_bag@,
        }
    }
}

impl Parser {
    /// A parser at the first of `tokens` that is not whitespace. It adds its
    /// reports to those in `diagnostic_bag`.
    pub fn new(tokens: Vec<Token>, diagnostic_bag: DiagnosticsBag) -> (parser: Self)
        ensures
            parser@.tokens == without_whitespace_tokens(tokens@),
            parser@.position == 0,
            parser@.diagnostics == diagnostic_bag@,
    {
        let mut filtered_tokens: Vec<Token> = Vec::new();
        let mut index: usize = 0;
        proof {
            reveal_with_fuel(Seq::filter, 1);
            assert(tokens@.take(0) =~= Seq::<Token>::empty());
        }
        while index < tokens.len()
            invariant
                index <= tokens.len(),
                filtered_tokens@ == without_whitespace_tokens(tokens@.take(index as int)),
            decreases tokens.len() - index,
        {
            proof {
                reveal_with_fuel(Seq::filter, 1);
                assert(tokens@.take(index as int + 1).drop_last() =~= tokens@.take(index as int));
            }
            if tokens[index].kind != TokenKind::Whitespace {
                filtered_tokens.push(tokens[index].clone());
            }
            index += 1;
        }
        assert(tokens@.take(index as int) =~= tokens@);
        Self { tokens: filtered_tokens, current: 0, diagnostic_bag }
    }

    /// A parser over the tokens of `input`, whitespace left out.
    pub fn from_input(input: &str, diagnostics_bag: DiagnosticsBag) -> (parser: Self)
        ensures
            token_views(parser@.tokens) == significant_tokens(tokens_of(input@)),
            parser@.position == 0,
            parser@.diagnostics == diagnostics_bag@,
    {
        let tokens = tokenize(input);
        proof {
            lemma_whitespace_filter_commutes(tokens@);
        }
        Self::new(tokens, diagnostics_bag)
    }

    /// Whether the tokens have come to their end, so that `next_statement`
    /// would return `None` and report nothing.
    pub fn at_end(&self) -> (ended: bool)
        ensures
            ended == (parse_statement(self@.tokens, self@.position) is None),
    {
        self.current_kind() == TokenKind::EOF
    }

    /// The reports made so far.
    pub fn diagnostics(&self) -> (bag: &DiagnosticsBag)
        ensures
            bag@ == self@.diagnostics,
    {
        &self.diagnostic_bag
    }

    /// Hands over the reports made so far.
    pub fn into_diagnostics(self) -> (bag: DiagnosticsBag)
        ensures
            bag@ == self@.diagnostics,
    {
        self.diagnostic_bag
    }

    /// Parses one statement. `None` with nothing reported is the end of the
    /// tokens; `None` with one more report is a statement that failed.
    pub fn next_statement(&mut self) -> (statement: Option<AstStatement>)
        ensures
            (match parse_statement(old(self)@.tokens, old(self)@.position) {
                None => statement is None && final(self)@ == old(self)@,
                Some(outcome) => {
                    &&& final(self)@ == parser_after(old(self)@, outcome)
                    &&& match outcome {
                        Ok((expression, _)) => statement == Some(
                            AstStatement { kind: AstStatementKind::Expression(expression) },
                        ),
                        Err(_) => statement is None,
                    }
                },
            }),
    {
        self.parse_statement()
    }

    /// Parses statements up to the end of the tokens or the first failure,
    /// and hands them over with all reports.
    pub fn parse_program(self) -> (program: (Ast, DiagnosticsBag))
        ensures
            program.0@ == parse_statements(self@.tokens, self@.position),
            program.1@ == (match first_failure(self@.tokens, self@.position) {
                Some(error) => self@.diagnostics.push(diagnostic_of(self@.tokens, error)),
                None => self@.diagnostics,
            }),
    {
        let mut parser = self;
        let mut ast = Ast::new();
        let ghost tokens = parser@.tokens;
        let ghost start = parser@.position;
        loop
            invariant_except_break
                parser@.tokens == tokens,
                parser@.diagnostics == self@.diagnostics,
                0 <= parser@.position,
                ast@ + parse_statements(tokens, parser@.position) == parse_statements(
                    tokens,
                    start,
                ),
                first_failure(tokens, parser@.position) == first_failure(tokens, start),
            invariant
                self@.tokens == tokens,
                self@.position == start,
            ensures
                ast@ == parse_statements(tokens, start),
                parser@.diagnostics == (match first_failure(tokens, start) {
                    Some(error) => self@.diagnostics.push(diagnostic_of(tokens, error)),
                    None => self@.diagnostics,
                }),
            decreases tokens.len() - parser@.position,
        {
            let ghost position = parser@.position;
            let ghost before = ast@;
            proof {
                lemma_parse_advances(tokens, position, 0);
            }
            match parser.next_statement() {
                Some(statement) => {
                    ast.add_statement(statement);
                    assert(before.push(statement) + parse_statements(tokens, parser@.position)
                        =~= before + parse_statements(tokens, position));
                },
                None => {
                    assert(before + parse_statements(tokens, position) =~= before);
                    break ;
                },
            }
        }
        (ast, parser.diagnostic_bag)
    }

    fn parse_statement(&mut self) -> (statement: Option<AstStatement>)
        ensures
            (match parse_statement(old(self)@.tokens, old(self)@.position) {
                None => statement is None && final(self)@ == old(self)@,
                Some(outcome) => {
                    &&& final(self)@ == parser_after(old(self)@, outcome)
                    &&& match outcome {
                        Ok((expression, _)) => statement == Some(
                            AstStatement { kind: AstStatementKind::Expression(expression) },
                        ),
                        Err(_) => statement is None,
                    }
                },
            }),
    {
        if self.at_end() {
            return None;
        }
        match self.parse_expression() {
            Some(expr) => Some(AstStatement::expression(expr)),
            None => None,
        }
    }

    fn parse_expression(&mut self) -> (expression: Option<AstExpression>)
        ensures
            final(self)@ == parser_after(
                old(self)@,
                parse_expression(old(self)@.tokens, old(self)@.position),
            ),
            expression == parsed_expression(
                parse_expression(old(self)@.tokens, old(self)@.position),
            ),
        decreases old(self)@.tokens.len() - old(self)@.position, 2int,
    {
        self.parse_binary_expression(0)
    }

    fn parse_binary_expression(&mut self, precedence: u8) -> (expression: Option<AstExpression>)
        ensures
            final(self)@ == parser_after(
                old(self)@,
                parse_binary(old(self)@.tokens, old(self)@.position, precedence),
            ),
            expression == parsed_expression(
                parse_binary(old(self)@.tokens, old(self)@.position, precedence),
            ),
        decreases old(self)@.tokens.len() - old(self)@.position, 1int,
    {
        let ghost tokens = self@.tokens;
        let ghost start = self@.position;
        proof {
            lemma_parse_advances(tokens, start, precedence);
        }
        let mut left = match self.parse_primary_expression() {
            Some(primary) => primary,
            None => {
                return None;
            },
        };
        loop
            invariant
                old(self)@.tokens == tokens,
                old(self)@.position == start,
                0 <= start,
                self@.tokens == tokens,
                self@.diagnostics == old(self)@.diagnostics,
                start < self@.position <= tokens.len(),
                parse_operators(tokens, left, self@.position, precedence) == parse_binary(
                    tokens,
                    start,
                    precedence,
                ),
            ensures
                self@ == parser_after(old(self)@, parse_binary(tokens, start, precedence)),
                parse_binary(tokens, start, precedence) matches Ok((parsed, _)) ==> parsed == left,
                parse_binary(tokens, start, precedence) is Ok,
            decreases tokens.len() - self@.position,
        {
            let ghost position = self@.position;
            let operator = match self.parse_operator() {
                Some(operator) => operator,
                None => {
                    break ;
                },
            };
            let operator_precedence = operator.precedence();
            if operator_precedence <= precedence {
                break ;
            }
            self.consume();
            proof {
                lemma_parse_advances(tokens, position + 1, operator_precedence);
            }
            let right = match self.parse_binary_expression(operator_precedence) {
                Some(right) => right,
                None => {
                    return None;
                },
            };
            left = AstExpression::binary(left, operator, right);
        }
        Some(left)
    }

    /// The operator that the current token stands for, if any. The token
    /// stays where it is.
    fn parse_operator(&self) -> (operator: Option<AstBinaryOperator>)
        ensures
            (match operator_of(kind_at(self@.tokens, self@.position)) {
                Some(kind) => operator == Some(
                    AstBinaryOperator { kind, token: self@.tokens[self@.position] },
                ),
                None => operator is None,
            }),
    {
        let token = match self.current() {
            Some(token) => token,
            None => {
                return None;
            },
        };
        let kind = match token.kind {
            TokenKind::Plus => AstBinaryOperatorKind::Add,
            TokenKind::Minus => AstBinaryOperatorKind::Subtract,
            TokenKind::Asterisk => AstBinaryOperatorKind::Multiply,
            TokenKind::Slash => AstBinaryOperatorKind::Divide,
            _ => {
                return None;
            },
        };
        Some(AstBinaryOperator::new(kind, token.clone()))
    }

    fn parse_primary_expression(&mut self) -> (expression: Option<AstExpression>)
        ensures
            final(self)@ == parser_after(
                old(self)@,
                parse_primary(old(self)@.tokens, old(self)@.position),
            ),
            expression == parsed_expression(parse_primary(old(self)@.tokens, old(self)@.position)),
        decreases old(self)@.tokens.len() - old(self)@.position, 0int,
    {
        let ghost tokens = self@.tokens;
        let ghost start = self@.position;
        let found = self.current_kind();
        match found {
            TokenKind::Number(number) => {
                self.consume();
                Some(AstExpression::number(number))
            },
            TokenKind::LParen => {
                self.consume();
                proof {
                    lemma_parse_advances(tokens, start + 1, 0);
                }
                let expr = match self.parse_expression() {
                    Some(expr) => expr,
                    None => {
                        return None;
                    },
                };
                let closing = self.current_kind();
                if closing != TokenKind::RParen {
                    self.report_unexpected(TokenKind::RParen);
                    return None;
                }
                self.consume();
                Some(AstExpression::parenthesis(expr))
            },
            _ => {
                self.report_unexpected(TokenKind::Number(0));
                None
            },
        }
    }

    /// Reports the current token as standing where one of kind `expected`
    /// was due, and passes over it.
    fn report_unexpected(&mut self, expected: TokenKind)
        ensures
            final(self)@ == parser_after(
                old(self)@,
                Err(SyntaxError { expected, position: old(self)@.position }),
            ),
    {
        let found = self.current_kind();
        let span = self.current_span();
        self.diagnostic_bag.report_unexpected_token(&expected, &found, span);
        self.consume();
    }

    /// The token `offset` places from the current one, if there is one.
    fn peek(&self, offset: isize) -> (token: Option<&Token>)
        ensures
            0 <= self@.position + offset < self@.tokens.len() ==> token == Some(
                &self@.tokens[self@.position + offset],
            ),
            !(0 <= self@.position + offset < self@.tokens.len()) ==> token is None,
    {
        if offset >= 0 {
            let ahead = offset as usize;
            if self.current < self.tokens.len() && ahead < self.tokens.len() - self.current {
                Some(&self.tokens[self.current + ahead])
            } else {
                None
            }
        } else {
            let back = (-(offset + 1)) as usize;
            if back < self.current && self.current - 1 - back < self.tokens.len() {
                Some(&self.tokens[self.current - 1 - back])
            } else {
                None
            }
        }
    }

    fn current(&self) -> (token: Option<&Token>)
        ensures
            self@.position < self@.tokens.len() ==> token == Some(
                &self@.tokens[self@.position],
            ),
            self@.position >= self@.tokens.len() ==> token is None,
    {
        self.peek(0)
    }

    /// The kind of the current token; past the last token, the end of input.
    fn current_kind(&self) -> (kind: TokenKind)
        ensures
            kind == kind_at(self@.tokens, self@.position),
    {
        match self.current() {
            Some(token) => token.kind,
            None => TokenKind::EOF,
        }
    }

    /// The span of the current token; past the last token, that of the
    /// closing token.
    fn current_span(&self) -> (span: TextSpan)
        ensures
            span@ == span_at(self@.tokens, self@.position),
    {
        match self.current() {
            Some(token) => token.span.clone(),
            None => {
                proof {
                    reveal_strlit("\0");
                }
                let literal = String::from_str("\0");
                assert(literal@ =~= seq!['\0']);
                TextSpan::new(0, 0, literal)
            },
        }
    }

    /// Passes over the current token, if there is one.
    fn consume(&mut self)
        ensures
            final(self)@ == (ParserView {
                position: position_after(old(self)@.tokens, old(self)@.position),
                ..old(self)@
            }),
    {
        if self.current < self.tokens.len() {
            self.current += 1;
        }
    }
}

} // verus!
