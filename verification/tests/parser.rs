use arith_expr::ast::diagnostics::{DiagnosticKind, DiagnosticsBag};
use arith_expr::ast::evaluator::{AstEvaluator, EvaluationError};
use arith_expr::ast::lexer::{TextSpan, Token, TokenKind};
use arith_expr::ast::parser::Parser;
use arith_expr::ast::{
    Ast, AstBinaryOperatorKind, AstExpression, AstExpressionKind, AstStatement, AstStatementKind,
};

fn shape(expression: &AstExpression) -> String {
    match &expression.kind {
        AstExpressionKind::Number(number) => format!("{}", number.number),
        AstExpressionKind::Binary(binary) => {
            let sign = match binary.operator.kind {
                AstBinaryOperatorKind::Add => "+",
                AstBinaryOperatorKind::Subtract => "-",
                AstBinaryOperatorKind::Multiply => "*",
                AstBinaryOperatorKind::Divide => "/",
            };
            format!("[{} {} {}]", shape(&binary.left), sign, shape(&binary.right))
        }
        AstExpressionKind::Parenthesis(inner) => format!("({})", shape(&inner.expression)),
    }
}

fn statement_shape(statement: &AstStatement) -> String {
    match &statement.kind {
        AstStatementKind::Expression(expression) => shape(expression),
        _ => String::from("?"),
    }
}

fn parse_all(input: &str) -> (Vec<String>, DiagnosticsBag) {
    let parser = Parser::from_input(input, DiagnosticsBag::new());
    let (ast, bag) = parser.parse_program();
    (ast.statements().iter().map(statement_shape).collect(), bag)
}

fn evaluate(input: &str) -> (Option<i64>, Option<EvaluationError>) {
    let mut parser = Parser::from_input(input, DiagnosticsBag::new());
    let mut ast = Ast::new();
    while let Some(statement) = parser.next_statement() {
        ast.add_statement(statement);
    }
    let mut evaluator = AstEvaluator::new();
    ast.visit(&mut evaluator);
    (evaluator.last_value, evaluator.error)
}

fn token(kind: TokenKind, at: usize, literal: &str) -> Token {
    Token::new(kind, TextSpan::new(at, at + literal.chars().count(), literal.to_string()))
}

#[test]
fn multiplication_binds_tighter_than_addition() {
    assert_eq!(parse_all("2 + 3 * 4").0, vec!["[2 + [3 * 4]]"]);
    assert_eq!(evaluate("2 + 3 * 4"), (Some(14), None));
    assert_eq!(parse_all("2 * 3 + 4").0, vec!["[[2 * 3] + 4]"]);
    assert_eq!(evaluate("2 * 3 + 4"), (Some(10), None));
}

#[test]
fn parentheses_override_precedence() {
    assert_eq!(parse_all("(2 + 3) * 4").0, vec!["[([2 + 3]) * 4]"]);
    assert_eq!(evaluate("(2 + 3) * 4"), (Some(20), None));
}

#[test]
fn equal_precedence_groups_to_the_left() {
    assert_eq!(parse_all("10 - 2 - 3").0, vec!["[[10 - 2] - 3]"]);
    assert_eq!(evaluate("10 - 2 - 3"), (Some(5), None));
    assert_eq!(parse_all("64 / 4 / 2").0, vec!["[[64 / 4] / 2]"]);
    assert_eq!(evaluate("64 / 4 / 2"), (Some(8), None));
    assert_eq!(parse_all("1 - 2 + 3 - 4").0, vec!["[[[1 - 2] + 3] - 4]"]);
}

#[test]
fn mixed_expression_evaluates() {
    assert_eq!(parse_all("7 - (30 + 7) * 8 / 2").0, vec!["[7 - [[([30 + 7]) * 8] / 2]]"]);
    assert_eq!(evaluate("7 - (30 + 7) * 8 / 2"), (Some(-141), None));
}

#[test]
fn unbalanced_parenthesis_yields_no_statement() {
    let mut parser = Parser::from_input("(1 + 2", DiagnosticsBag::new());
    assert!(parser.next_statement().is_none());
    let bag = parser.diagnostics();
    assert!(bag.has_errors());
    assert!(!bag.has_warnings());
    assert_eq!(bag.diagnostics.len(), 1);
    assert_eq!(bag.diagnostics[0].message, "Expected <)>, but found <EOF>");
    assert_eq!(bag.diagnostics[0].kind, DiagnosticKind::Error);
    assert_eq!(bag.diagnostics[0].span.literal(), "\0");
    assert!(parser.next_statement().is_none());
    assert_eq!(parser.diagnostics().diagnostics.len(), 1);
    let (statements, bag) = parse_all("(1 + 2");
    assert!(statements.is_empty());
    assert_eq!(bag.diagnostics.len(), 1);
}

#[test]
fn division_by_zero_fails() {
    assert_eq!(parse_all("1 / 0").0, vec!["[1 / 0]"]);
    assert_eq!(evaluate("1 / 0"), (None, Some(EvaluationError::DivisionByZero)));
}

#[test]
fn end_of_input_reports_nothing() {
    for input in ["", "   ", "\t\n"] {
        let mut parser = Parser::from_input(input, DiagnosticsBag::new());
        assert!(parser.next_statement().is_none());
        assert!(!parser.diagnostics().has_errors());
        assert!(parser.diagnostics().diagnostics.is_empty());
    }
    let mut parser = Parser::from_input("4", DiagnosticsBag::new());
    assert_eq!(parser.next_statement().map(|s| statement_shape(&s)), Some("4".to_string()));
    assert!(parser.next_statement().is_none());
    assert!(parser.diagnostics().diagnostics.is_empty());
}

#[test]
fn missing_operand_is_reported() {
    let (statements, bag) = parse_all("1 +");
    assert!(statements.is_empty());
    assert_eq!(bag.diagnostics.len(), 1);
    assert_eq!(bag.diagnostics[0].message, "Expected <Number>, but found <EOF>");

    let (statements, bag) = parse_all("1 + * 2");
    assert!(statements.is_empty());
    assert_eq!(bag.diagnostics[0].message, "Expected <Number>, but found <*>");
    assert_eq!(bag.diagnostics[0].span.start(), 4);
    assert_eq!(bag.diagnostics[0].span.end(), 5);
    assert_eq!(bag.diagnostics[0].span.literal(), "*");
}

#[test]
fn bad_character_is_rejected_by_the_parser() {
    let (statements, bag) = parse_all("2 + $");
    assert!(statements.is_empty());
    assert_eq!(bag.diagnostics.len(), 1);
    assert_eq!(bag.diagnostics[0].message, "Expected <Number>, but found <Bad>");
    assert_eq!(bag.diagnostics[0].span.literal(), "$");
}

#[test]
fn wrong_closing_token_is_reported() {
    let (statements, bag) = parse_all("(1 2)");
    assert!(statements.is_empty());
    assert_eq!(bag.diagnostics[0].message, "Expected <)>, but found <Number>");
    assert_eq!(bag.diagnostics[0].span.literal(), "2");
}

#[test]
fn statements_follow_one_another() {
    let (statements, bag) = parse_all("1 + 2 3 * 4");
    assert_eq!(statements, vec!["[1 + 2]", "[3 * 4]"]);
    assert!(bag.diagnostics.is_empty());
    assert_eq!(evaluate("1 + 2 3 * 4"), (Some(12), None));
}

#[test]
fn program_stops_at_the_first_failure() {
    let (statements, bag) = parse_all("1 + 2 ) 5");
    assert_eq!(statements, vec!["[1 + 2]"]);
    assert_eq!(bag.diagnostics.len(), 1);
    assert_eq!(bag.diagnostics[0].message, "Expected <Number>, but found <)>");
}

#[test]
fn parsing_goes_on_after_a_failed_statement() {
    let mut parser = Parser::from_input("1 + + 2", DiagnosticsBag::new());
    assert!(parser.next_statement().is_none());
    assert_eq!(parser.diagnostics().diagnostics.len(), 1);
    assert_eq!(parser.next_statement().map(|s| statement_shape(&s)), Some("2".to_string()));
    assert!(parser.next_statement().is_none());
    assert_eq!(parser.diagnostics().diagnostics.len(), 1);
}

#[test]
fn earlier_reports_are_kept() {
    let mut bag = DiagnosticsBag::new();
    bag.report_warning("early".to_string(), TextSpan::new(0, 0, String::new()));
    let mut parser = Parser::from_input("(", bag);
    assert!(parser.next_statement().is_none());
    let bag = parser.diagnostics();
    assert_eq!(bag.diagnostics.len(), 2);
    assert_eq!(bag.diagnostics[0].message, "early");
    assert_eq!(bag.diagnostics[1].message, "Expected <Number>, but found <EOF>");
    assert!(bag.has_errors());
    assert!(bag.has_warnings());
}

#[test]
fn parser_drops_whitespace_tokens() {
    let tokens = vec![
        token(TokenKind::Whitespace, 0, " "),
        token(TokenKind::Number(8), 1, "8"),
        token(TokenKind::Whitespace, 2, " "),
        token(TokenKind::Slash, 3, "/"),
        token(TokenKind::Number(2), 4, "2"),
        token(TokenKind::Whitespace, 5, " "),
    ];
    let mut parser = Parser::new(tokens, DiagnosticsBag::new());
    assert_eq!(parser.next_statement().map(|s| statement_shape(&s)), Some("[8 / 2]".to_string()));
    assert!(parser.next_statement().is_none());
    assert!(parser.diagnostics().diagnostics.is_empty());
}

#[test]
fn tokens_without_a_closing_token_end_at_their_end() {
    let mut parser = Parser::new(Vec::new(), DiagnosticsBag::new());
    assert!(parser.next_statement().is_none());
    assert!(parser.diagnostics().diagnostics.is_empty());

    let mut parser = Parser::new(vec![token(TokenKind::LParen, 0, "(")], DiagnosticsBag::new());
    assert!(parser.next_statement().is_none());
    assert_eq!(
        parser.diagnostics().diagnostics[0].message,
        "Expected <Number>, but found <EOF>"
    );
    assert_eq!(parser.diagnostics().diagnostics[0].span.literal(), "\0");
    assert!(parser.next_statement().is_none());
    assert_eq!(parser.diagnostics().diagnostics.len(), 1);
}

#[test]
fn operator_keeps_its_token() {
    let mut parser = Parser::from_input("3 * 4", DiagnosticsBag::new());
    let statement = parser.next_statement().unwrap();
    match statement.kind {
        AstStatementKind::Expression(expression) => match expression.kind {
            AstExpressionKind::Binary(binary) => {
                assert_eq!(binary.operator.kind, AstBinaryOperatorKind::Multiply);
                assert_eq!(binary.operator.precedence(), 2);
                assert_eq!(binary.operator.token.kind, TokenKind::Asterisk);
                assert_eq!(binary.operator.token.span.start(), 2);
                assert_eq!(binary.operator.token.span.end(), 3);
                assert_eq!(binary.operator.token.span.literal(), "*");
            }
            _ => panic!("not a binary expression"),
        },
        _ => panic!("not an expression"),
    }
}

#[test]
fn nested_parentheses() {
    assert_eq!(parse_all("((7))").0, vec!["((7))"]);
    assert_eq!(evaluate("((7))"), (Some(7), None));
    assert_eq!(evaluate("2 * (3 + (4 - 1)) * 5"), (Some(60), None));
}

#[test]
fn end_is_told_apart_from_failure() {
    let mut parser = Parser::from_input("1 )", DiagnosticsBag::new());
    assert!(!parser.at_end());
    assert!(parser.next_statement().is_some());
    assert!(!parser.at_end());
    assert!(parser.next_statement().is_none());
    assert_eq!(parser.diagnostics().diagnostics.len(), 1);
    assert!(parser.at_end());
    assert!(parser.next_statement().is_none());
    assert_eq!(parser.diagnostics().diagnostics.len(), 1);
    let bag = parser.into_diagnostics();
    assert_eq!(bag.diagnostics.len(), 1);
    assert_eq!(bag.diagnostics[0].message, "Expected <Number>, but found <)>");
    assert!(Parser::from_input(" ", DiagnosticsBag::new()).at_end());
}
