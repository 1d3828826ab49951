use std::cell::Cell;
use std::ops::Range;

use diagrustic::context::DiagnosticContext;
use diagrustic::diagnostic::{Diagnostic, IntoDiagnostic};
use diagrustic::diagnostics::{Bounded, Diagnostics};
use diagrustic::level::DiagnosticLevel;
use diagrustic::source_map::SourceMap;

struct ParseError {
    span: Range<usize>,
}

impl IntoDiagnostic for ParseError {
    fn into_diagnostic(self, cx: DiagnosticContext<'_>) -> Diagnostic {
        let span = cx.span(self.span);

        cx.builder(DiagnosticLevel::Error)
            .set_primary("parse failed")
            .add_span(span)
            .span_label(span, "unexpected token")
            .build()
    }
}

struct Error<'count> {
    level: DiagnosticLevel,
    span: Range<usize>,
    built: Option<&'count Cell<usize>>,
}

impl IntoDiagnostic for Error<'_> {
    fn into_diagnostic(self, cx: DiagnosticContext<'_>) -> Diagnostic {
        if let Some(built) = self.built {
            built.set(built.get() + 1);
        }

        let span = cx.span(self.span);
        cx.builder(self.level)
            .set_primary("unexpected token")
            .add_span(span)
            .span_label(span, "unexpected token")
            .build()
    }
}

#[test]
fn error_type_converts_into_diagnostic() {
    let mut source_map = SourceMap::default();
    let source = source_map.add_source("input.rs", "let = 1;");
    let cx = DiagnosticContext::new(source);

    let diagnostic = ParseError { span: 4..5 }.into_diagnostic(cx);

    assert_eq!(diagnostic.level, DiagnosticLevel::Error);
    assert_eq!(diagnostic.primary.as_str(), "parse failed");
    assert_eq!(diagnostic.spans.len(), 1);
    assert_eq!(diagnostic.spans[0].start(), 4);
    assert_eq!(diagnostic.spans[0].end(), 5);
    assert_eq!(diagnostic.children.len(), 1);
    assert_eq!(diagnostic.children[0].message.as_str(), "unexpected token");
    assert_eq!(diagnostic.children[0].spans.len(), 1);
    assert_eq!(diagnostic.children[0].spans[0].start(), 4);
}

#[test]
fn report_stores_diagnostic_and_returns_id() {
    let mut source_map = SourceMap::default();
    let source = source_map.add_source("input.rs", "let = 1;");
    let cx = DiagnosticContext::new(source);
    let mut diagnostics = Diagnostics::default();

    let id = diagnostics.report(cx, Error { level: DiagnosticLevel::Warning, span: 4..5, built: None });

    assert_eq!(id.index(), 0);
    assert_eq!(diagnostics.len(), 1);
    assert_eq!(diagnostics.as_slice()[0].level, DiagnosticLevel::Warning);
    assert_eq!(diagnostics.as_slice()[0].spans[0].range(), 4..5);
}

#[test]
fn try_report_fails_before_building_when_capacity_is_full() {
    let mut source_map = SourceMap::default();
    let source = source_map.add_source("input.rs", "let = 1;");
    let cx = DiagnosticContext::new(source);
    let built = Cell::new(0);
    let mut diagnostics: Diagnostics<Bounded> = Diagnostics::with_capacity_in(0);

    let result = diagnostics.try_report(
        cx,
        Error { level: DiagnosticLevel::Error, span: 4..5, built: Some(&built) },
        |limit| limit,
    );

    assert_eq!(result, Err(0));
    assert_eq!(built.get(), 0);
    assert!(diagnostics.is_empty());
}

#[test]
fn error_recovery_without_file_id_plumbing() {
    struct RecoveringError<'source> {
        cx: DiagnosticContext<'source>,
        diagnostics: Diagnostics,
    }

    impl<'source> RecoveringError<'source> {
        fn new(cx: DiagnosticContext<'source>) -> Self {
            Self { cx, diagnostics: Diagnostics::new_in() }
        }

        fn recover(&mut self) {
            self.diagnostics
                .report(self.cx, Error { level: DiagnosticLevel::Error, span: 4..5, built: None });
            self.diagnostics.report(
                self.cx,
                Error { level: DiagnosticLevel::Warning, span: 12..13, built: None },
            );
        }
    }

    let mut source_map = SourceMap::default();
    let source = source_map.add_source("input.rs", "let = 1;\nfn {");
    let cx = DiagnosticContext::new(source);
    let mut error = RecoveringError::new(cx);

    error.recover();

    let diagnostics = error.diagnostics.as_slice();
    assert_eq!(diagnostics.len(), 2);
    assert_eq!(diagnostics[0].level, DiagnosticLevel::Error);
    assert_eq!(diagnostics[0].spans[0].range(), 4..5);
    assert_eq!(source_map.filename(diagnostics[0].spans[0].file_id()), Some("input.rs"));
    assert_eq!(diagnostics[1].level, DiagnosticLevel::Warning);
    assert_eq!(diagnostics[1].spans[0].range(), 12..13);
    assert_eq!(source_map.filename(diagnostics[1].spans[0].file_id()), Some("input.rs"));
}

#[test]
fn bounded_collection_fills_up_to_its_limit() {
    let mut source_map = SourceMap::default();
    let source = source_map.add_source("input.rs", "let = 1;");
    let cx = DiagnosticContext::new(source);
    let built = Cell::new(0);
    let mut diagnostics = Diagnostics::with_capacity_in(2);

    let first = diagnostics.try_report(
        cx,
        Error { level: DiagnosticLevel::Error, span: 4..5, built: Some(&built) },
        |limit| limit + 100,
    );
    let second = diagnostics.try_push(
        ParseError { span: 0..3 }.into_diagnostic(cx),
        |limit| limit + 100,
    );
    let third = diagnostics.try_report(
        cx,
        Error { level: DiagnosticLevel::Note, span: 4..5, built: Some(&built) },
        |limit| limit + 100,
    );

    assert_eq!(first.map(|id| id.index()), Ok(0));
    assert_eq!(second.map(|id| id.index()), Ok(1));
    assert_eq!(third, Err(102));
    assert_eq!(built.get(), 1);
    assert_eq!(diagnostics.len(), 2);
    assert_eq!(diagnostics.as_slice()[1].primary.as_str(), "parse failed");
}

#[test]
fn push_ids_are_positions_in_report_order() {
    let mut source_map = SourceMap::default();
    let source = source_map.add_source("input.rs", "let = 1;");
    let cx = DiagnosticContext::new(source);
    let mut diagnostics = Diagnostics::new_in();

    let a = diagnostics.push(ParseError { span: 4..5 }.into_diagnostic(cx));
    let b = diagnostics.report(cx, Error { level: DiagnosticLevel::Help, span: 0..3, built: None });

    assert_eq!(a.index(), 0);
    assert_eq!(b.index(), 1);
    assert!(!diagnostics.is_empty());
    let levels: Vec<DiagnosticLevel> = diagnostics.iter().map(|d| d.level).collect();
    assert_eq!(levels, vec![DiagnosticLevel::Error, DiagnosticLevel::Help]);
    let all = diagnostics.into_vec();
    assert_eq!(all.len(), 2);
    assert_eq!(all[1].spans[0].range(), 0..3);
}

#[test]
fn bounded_without_limit_accepts() {
    let mut source_map = SourceMap::default();
    let source = source_map.add_source("input.rs", "let = 1;");
    let cx = DiagnosticContext::new(source);
    let mut diagnostics = Diagnostics::new_bounded_in();

    let id = diagnostics.try_report(cx, ParseError { span: 4..5 }, |limit| limit);

    assert_eq!(id.map(|id| id.index()), Ok(0));
    assert_eq!(diagnostics.len(), 1);
}

#[test]
fn collection_iterates_by_reference() {
    let mut source_map = SourceMap::default();
    let source = source_map.add_source("input.rs", "let = 1;");
    let cx = DiagnosticContext::new(source);
    let mut diagnostics = Diagnostics::default();
    diagnostics.report(cx, Error { level: DiagnosticLevel::Note, span: 0..3, built: None });
    diagnostics.report(cx, Error { level: DiagnosticLevel::Error, span: 4..5, built: None });

    let mut levels = Vec::new();
    for diagnostic in &diagnostics {
        levels.push(diagnostic.level);
    }
    assert_eq!(levels, vec![DiagnosticLevel::Note, DiagnosticLevel::Error]);
}
