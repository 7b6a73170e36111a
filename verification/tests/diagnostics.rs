use arith_expr::ast::diagnostics::{Diagnostic, DiagnosticKind, DiagnosticsBag};
use arith_expr::ast::lexer::{TextSpan, TokenKind};

fn span() -> TextSpan {
    TextSpan::new(2, 5, "abc".to_string())
}

#[test]
fn diagnostic_constructors() {
    let error = Diagnostic::error("bad".to_string(), span());
    assert_eq!(error.message, "bad");
    assert_eq!(error.kind, DiagnosticKind::Error);
    assert_eq!(error.span.start(), 2);
    assert_eq!(error.span.end(), 5);
    assert_eq!(error.span.literal(), "abc");
    let warning = Diagnostic::warning("odd".to_string(), span());
    assert_eq!(warning.message, "odd");
    assert_eq!(warning.kind, DiagnosticKind::Warning);
    let made = Diagnostic::new("made".to_string(), span(), DiagnosticKind::Warning);
    assert_eq!(made.message, "made");
    assert_eq!(made.kind, DiagnosticKind::Warning);
    assert_eq!(made.span.length(), 3);
}

#[test]
fn empty_bag_has_nothing() {
    let bag = DiagnosticsBag::new();
    assert!(bag.diagnostics.is_empty());
    assert!(!bag.has_errors());
    assert!(!bag.has_warnings());
}

#[test]
fn reports_are_appended_in_order() {
    let mut bag = DiagnosticsBag::new();
    bag.report_warning("first".to_string(), span());
    assert!(!bag.has_errors());
    assert!(bag.has_warnings());
    bag.report_error("second".to_string(), span());
    assert!(bag.has_errors());
    assert!(bag.has_warnings());
    bag.report_warning("third".to_string(), span());
    let messages: Vec<&str> = bag.diagnostics.iter().map(|d| d.message.as_str()).collect();
    assert_eq!(messages, vec!["first", "second", "third"]);
    let kinds: Vec<DiagnosticKind> = bag.diagnostics.iter().map(|d| d.kind).collect();
    assert_eq!(
        kinds,
        vec![DiagnosticKind::Warning, DiagnosticKind::Error, DiagnosticKind::Warning]
    );
}

#[test]
fn only_errors() {
    let mut bag = DiagnosticsBag::new();
    bag.report_error("only".to_string(), span());
    assert!(bag.has_errors());
    assert!(!bag.has_warnings());
}

#[test]
fn unexpected_token_message() {
    let mut bag = DiagnosticsBag::new();
    bag.report_unexpected_token(&TokenKind::RParen, &TokenKind::Number(12), span());
    bag.report_unexpected_token(&TokenKind::Number(0), &TokenKind::EOF, span());
    bag.report_unexpected_token(&TokenKind::Plus, &TokenKind::Whitespace, span());
    assert_eq!(bag.diagnostics[0].message, "Expected <)>, but found <Number>");
    assert_eq!(bag.diagnostics[1].message, "Expected <Number>, but found <EOF>");
    assert_eq!(bag.diagnostics[2].message, "Expected <+>, but found <Whitespace>");
    assert_eq!(bag.diagnostics[0].kind, DiagnosticKind::Error);
    assert_eq!(bag.diagnostics[0].span.literal(), "abc");
    assert!(bag.has_errors());
    assert!(!bag.has_warnings());
}
