use diagrustic::Acow;
use diagrustic::applicability::Applicability;
use diagrustic::builder::DiagnosticBuilder;
use diagrustic::level::DiagnosticLevel;
use diagrustic::source_map::SourceMap;
use diagrustic::sub_diag::SubDiagnostic;
use diagrustic::suggestion::Suggestion;

#[test]
fn build_keeps_everything_set() {
    let mut source_map = SourceMap::default();
    let file = source_map.add_file("b.rs", "let x = 1;");
    let name = source_map.span(file, 4..5);
    let value = source_map.span(file, 8..9);

    let diag = DiagnosticBuilder::new(DiagnosticLevel::Warning)
        .set_primary("unused variable")
        .set_code(String::from("W1"))
        .add_span(name)
        .span_label_with(value, || String::from("lazy"))
        .span_label(name, "eager")
        .add_sub_diagnostic(SubDiagnostic::new_in(DiagnosticLevel::Note, "note"))
        .span_suggestion(name, "rename", "_x", Applicability::MaybeIncorrect)
        .build();

    assert_eq!(diag.level, DiagnosticLevel::Warning);
    assert_eq!(diag.primary.as_str(), "unused variable");
    assert_eq!(diag.code.as_ref().map(|c| c.as_str()), Some("W1"));
    assert_eq!(diag.spans, vec![name]);
    let messages: Vec<&str> = diag.children.iter().map(|c| c.message.as_str()).collect();
    assert_eq!(messages, vec!["eager", "note", "lazy"]);
    assert_eq!(diag.children[2].level, DiagnosticLevel::Help);
    assert_eq!(diag.children[2].spans, vec![value]);
    assert_eq!(diag.suggestions.len(), 1);
    match &diag.suggestions[0] {
        Suggestion::Replacement { span, message, replacement, applicability } => {
            assert_eq!(*span, name);
            assert_eq!(message.as_str(), "rename");
            assert_eq!(replacement.as_str(), "_x");
            assert_eq!(*applicability, Applicability::MaybeIncorrect);
        }
        Suggestion::MultiPart { .. } => panic!("expected a replacement"),
    }
}

#[test]
fn missing_primary_is_empty() {
    let diag = DiagnosticBuilder::new_in(DiagnosticLevel::Error).build();
    assert_eq!(diag.primary.as_str(), "");
    assert!(diag.code.is_none());
    assert!(diag.spans.is_empty());
    assert!(diag.children.is_empty());
    assert!(diag.suggestions.is_empty());
}

#[test]
fn acow_reads_back() {
    assert_eq!(Acow::from_str_in("text").as_str(), "text");
    assert_eq!(Acow::default().as_str(), "");
    assert_eq!(Acow::default(), Acow::Borrowed(""));
    let built = DiagnosticBuilder::new(DiagnosticLevel::Note).build();
    assert_eq!(built.primary, Acow::Borrowed(""));
    assert_eq!(Acow::Borrowed("lit").as_str(), "lit");
}

#[test]
fn levels_print_their_names() {
    assert_eq!(DiagnosticLevel::Error.as_str(), "error");
    assert_eq!(DiagnosticLevel::FailureNote.as_str(), "error");
    assert_eq!(DiagnosticLevel::Warning.as_str(), "warning");
    assert_eq!(DiagnosticLevel::Help.as_str(), "help");
    assert_eq!(DiagnosticLevel::Note.as_str(), "note");
    assert_eq!(DiagnosticLevel::Warning.as_style(), "\x1b[1m\x1b[33m");
    assert_eq!(DiagnosticLevel::Note.as_style(), "\x1b[1m\x1b[92m");
}

#[test]
fn acow_derefs_to_its_text() {
    let owned = Acow::from_str_in("owned text");
    let text: &str = owned.as_ref();
    assert_eq!(text, "owned text");
    assert_eq!(&*owned, "owned text");
    assert_eq!(owned.len(), 10);
}
