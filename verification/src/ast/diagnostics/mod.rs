//! The collection of reports that a run leaves behind: each a message, the
//! span it is about, and how severe it is. Reports are only ever added.

use crate::ast::lexer::{TextSpan, TextSpanView, TokenKind};
use vstd::prelude::*;

verus! {

/// How severe a report is.
#[derive(Debug, Clone, Copy, PartialEq, Eq, Structural)]
pub enum DiagnosticKind {
    Error,
    Warning,
}

/// What a `Diagnostic` holds, as plain values.
pub struct DiagnosticView {
    pub message: Seq<char>,
    pub span: TextSpanView,
    pub kind: DiagnosticKind,
}

/// One report.
#[derive(Debug)]
pub struct Diagnostic {
    pub message: String,
    pub span: TextSpan,
    pub kind: DiagnosticKind,
}

impl View for Diagnostic {
    type V = DiagnosticView;

    open spec fn view(&self) -> DiagnosticView {
        DiagnosticView { message: self.message@, span: self.span@, kind: self.kind }
    }
}

impl Diagnostic {
    pub fn new(message: String, span: TextSpan, kind: DiagnosticKind) -> (diagnostic: Self)
        ensures
            diagnostic == (Diagnostic { message, span, kind }),
    {
        Self { message, span, kind }
    }

    pub fn error(message: String, span: TextSpan) -> (diagnostic: Self)
        ensures
            diagnostic == (Diagnostic { message, span, kind: DiagnosticKind::Error }),
    {
        Self::new(message, span, DiagnosticKind::Error)
    }

    pub fn warning(message: String, span: TextSpan) -> (diagnostic: Self)
        ensures
            diagnostic == (Diagnostic { message, span, kind: DiagnosticKind::Warning }),
    {
        Self::new(message, span, DiagnosticKind::Warning)
    }
}

/// The message that reports a token of kind `found` where one of kind
/// `expected` was due.
pub open spec fn unexpected_token_message(expected: TokenKind, found: TokenKind) -> Seq<char> {
    "Expected <"@ + expected.name() + ">, but found <"@ + found.name() + ">"@
}

/// The reports of a run, oldest first.
pub struct DiagnosticsBag {
    pub diagnostics: Vec<Diagnostic>,
}

impl View for DiagnosticsBag {
    type V = Seq<DiagnosticView>;

    open spec fn view(&self) -> Seq<DiagnosticView> {
        self.diagnostics@.map_values(|diagnostic: Diagnostic| diagnostic@)
    }
}

impl DiagnosticsBag {
    pub fn new() -> (bag: Self)
        ensures
            bag@ == Seq::<DiagnosticView>::empty(),
    {
        let bag = Self { diagnostics: Vec::new() };
        assert(bag@ =~= Seq::<DiagnosticView>::empty());
        bag
    }

    pub fn report_error(&mut self, message: String, span: TextSpan)
        ensures
            final(self)@ == old(self)@.push(
                DiagnosticView { message: message@, span: span@, kind: DiagnosticKind::Error },
            ),
    {
        let diagnostic = Diagnostic::error(message, span);
        self.diagnostics.push(diagnostic);
        assert(self@ =~= old(self)@.push(diagnostic@));
    }

    pub fn report_warning(&mut self, message: String, span: TextSpan)
        ensures
            final(self)@ == old(self)@.push(
                DiagnosticView { message: message@, span: span@, kind: DiagnosticKind::Warning },
            ),
    {
        let diagnostic = Diagnostic::warning(message, span);
        self.diagnostics.push(diagnostic);
        assert(self@ =~= old(self)@.push(diagnostic@));
    }

    pub fn report_unexpected_token(
        &mut self,
        expected: &TokenKind,
        found: &TokenKind,
        span: TextSpan,
    )
        ensures
            final(self)@ == old(self)@.push(
                DiagnosticView {
                    message: unexpected_token_message(*expected, *found),
                    span: span@,
                    kind: DiagnosticKind::Error,
                },
            ),
    {
        let mut message = String::from_str("Expected <");
        message.append(expected.to_string().as_str());
        message.append(">, but found <");
        message.append(found.to_string().as_str());
        message.append(">");
        self.report_error(message, span);
    }

    pub fn has_errors(&self) -> (found: bool)
        ensures
            found == exists|i: int|
                0 <= i < self@.len() && (#[trigger] self@[i]).kind == DiagnosticKind::Error,
    {
        self.has_kind(DiagnosticKind::Error)
    }

    pub fn has_warnings(&self) -> (found: bool)
        ensures
            found == exists|i: int|
                0 <= i < self@.len() && (#[trigger] self@[i]).kind == DiagnosticKind::Warning,
    {
        self.has_kind(DiagnosticKind::Warning)
    }

    fn has_kind(&self, kind: DiagnosticKind) -> (found: bool)
        ensures
            found == exists|i: int| 0 <= i < self@.len() && (#[trigger] self@[i]).kind == kind,
    {
        let mut index: usize = 0;
        while index < self.diagnostics.len()
            invariant
                index <= self.diagnostics.len(),
                forall|i: int| 0 <= i < index ==> (#[trigger] self@[i]).kind != kind,
            decreases self.diagnostics.len() - index,
        {
            if self.diagnostics[index].kind == kind {
                assert(self@[index as int].kind == kind);
                return true;
            }
            index += 1;
        }
        false
    }
}

} // verus!
