use diagrustic::applicability::Applicability;
use diagrustic::builder::DiagnosticBuilder;
use diagrustic::diagnostic::Diagnostic;
use diagrustic::level::DiagnosticLevel;
use diagrustic::source_map::SourceMap;
use diagrustic::styles::Palette;
use diagrustic::emit::suggestions_fit;
use diagrustic::span::Span;
use diagrustic::sub_diag::SubDiagnostic;
use diagrustic::suggestion::Suggestion;
use diagrustic::IntoAcow;
use diagrustic::{ColorChoice, DiagnosticFormat, EmitError, EmitterConfig, HumanRenderer};

fn render(diag: &Diagnostic, source_map: &SourceMap, color: ColorChoice) -> String {
    let mut renderer =
        HumanRenderer::new_in(EmitterConfig { format: DiagnosticFormat::Human, color });
    renderer.emit(diag, source_map).unwrap();
    renderer.into_output()
}

fn levels() -> String {
    levels_in(Palette::Ansi)
}

fn levels_in(palette: Palette) -> String {
    let mut source_map = SourceMap::default();
    let file_id = source_map.add_file("levels.rs", "let signal = 1;");
    let span = source_map.span(file_id, 4..10);

    let mut output = String::new();
    for (level, message) in [
        (DiagnosticLevel::Error, "error level"),
        (DiagnosticLevel::Warning, "warning level"),
        (DiagnosticLevel::Help, "help level"),
        (DiagnosticLevel::Note, "note level"),
    ] {
        let diag = DiagnosticBuilder::new(level)
            .set_primary(message)
            .add_span(span)
            .span_label(span, "level marker")
            .build();
        let config = EmitterConfig { format: DiagnosticFormat::Human, color: ColorChoice::Always };
        let mut renderer = HumanRenderer::with_palette(config, palette);
        renderer.emit(&diag, &source_map).unwrap();
        output.push_str(&renderer.take_output());
    }
    output
}

#[test]
fn styles_ansi_styles() {
    let output = levels();

    assert!(output.contains("\x1b[1m\x1b[33mwarning\x1b[0m"));
    assert!(output.contains("\x1b[1m\x1b[94m--> \x1b[0m"));
    assert!(!output.contains("\x1b[1m\x1b[93mwarning\x1b[0m"));
    assert!(!output.contains("\x1b[1m\x1b[96m--> \x1b[0m"));

    assert!(output.contains("\x1b[1m\x1b[91merror\x1b[0m"));
    assert!(output.contains("\x1b[1m\x1b[92mnote\x1b[0m"));
    assert!(output.contains("\x1b[1m\x1b[96mhelp\x1b[0m"));
}

#[test]
fn single_label_renders_exactly() {
    let mut source_map = SourceMap::default();
    let file_id = source_map.add_file("test.rs", "let x: i32 = \"hello\";");
    let expr_span = source_map.span(file_id, 13..20);

    let diag = DiagnosticBuilder::new(DiagnosticLevel::Error)
        .set_primary("mismatched types")
        .set_code("E0308")
        .add_span(expr_span)
        .span_label(expr_span, "expected `i32`, found `&str`")
        .build();

    let expected = format!(
        "error[E0308]: mismatched types\n --> test.rs:1:14\n  |\n1 | let x: i32 = \"hello\";\n  | {}^^^^^^^ expected `i32`, found `&str`\n  |\n\n",
        " ".repeat(13)
    );
    assert_eq!(render(&diag, &source_map, ColorChoice::Never), expected);
}

#[test]
fn no_span_diagnostic_is_headline_and_notes() {
    let source_map = SourceMap::default();
    let diag = DiagnosticBuilder::new(DiagnosticLevel::Warning)
        .set_primary("unused configuration")
        .add_sub_diagnostic(SubDiagnostic::new_in(DiagnosticLevel::Note, "set by default"))
        .add_sub_diagnostic(SubDiagnostic::new_in(DiagnosticLevel::Help, String::from("remove it")))
        .build();

    assert_eq!(
        render(&diag, &source_map, ColorChoice::Never),
        "warning: unused configuration\n  = note: set by default\n  = help: remove it\n\n"
    );
}

#[test]
fn failure_note_is_printed_as_error() {
    let source_map = SourceMap::default();
    let diag = DiagnosticBuilder::new(DiagnosticLevel::FailureNote).set_primary("aborting").build();

    assert_eq!(render(&diag, &source_map, ColorChoice::Never), "error: aborting\n\n");
}

#[test]
fn unsupported_formats_write_nothing() {
    let source_map = SourceMap::default();
    let diag = DiagnosticBuilder::new(DiagnosticLevel::Error).set_primary("boom").build();

    for format in [DiagnosticFormat::Short, DiagnosticFormat::Json] {
        let mut renderer =
            HumanRenderer::new_in(EmitterConfig { format, color: ColorChoice::Never });
        assert_eq!(renderer.emit(&diag, &source_map), Err(EmitError::Unsupported));
        assert_eq!(renderer.into_output(), "");
    }
}

#[test]
fn emit_appends_to_earlier_output() {
    let source_map = SourceMap::default();
    let first = DiagnosticBuilder::new(DiagnosticLevel::Error).set_primary("first").build();
    let second = DiagnosticBuilder::new(DiagnosticLevel::Note).set_primary("second").build();
    let mut renderer = HumanRenderer::new_in(EmitterConfig {
        format: DiagnosticFormat::Human,
        color: ColorChoice::Never,
    });

    renderer.emit(&first, &source_map).unwrap();
    renderer.emit(&second, &source_map).unwrap();

    assert_eq!(renderer.config().color, ColorChoice::Never);
    assert_eq!(renderer.take_output(), "error: first\n\nnote: second\n\n");
    assert_eq!(renderer.take_output(), "");
}

#[test]
fn colorless_output_has_no_escapes() {
    let mut source_map = SourceMap::default();
    let file_id = source_map.add_file("test.rs", "let x: i32 = \"hello\";");
    let type_span = source_map.span(file_id, 7..10);
    let expr_span = source_map.span(file_id, 13..20);

    let diag = DiagnosticBuilder::new(DiagnosticLevel::Error)
        .set_primary("mismatched types")
        .set_code("E0308")
        .add_span(expr_span)
        .span_label(expr_span, "expected `i32`, found `&str`")
        .span_label_with(type_span, || "due to this type annotation `i32`")
        .span_suggestion(
            type_span,
            "change the type to `&str`",
            "&str",
            Applicability::MachineApplicable,
        )
        .build();

    let plain = render(&diag, &source_map, ColorChoice::Never);
    let colored = render(&diag, &source_map, ColorChoice::Always);
    assert!(!plain.contains('\x1b'));
    assert!(colored.contains('\x1b'));
    assert!(plain.starts_with("error[E0308]: mismatched types\n --> test.rs:1:14\n"));
    assert!(plain.contains("due to this type annotation `i32`"));
    assert!(plain.contains("change the type to `&str`"));
    assert!(plain.contains("&str"));
}

#[test]
fn secondary_label_on_the_same_line_renders_exactly() {
    let mut source_map = SourceMap::default();
    let file_id = source_map.add_file("test.rs", "let x: i32 = \"hello\";");
    let type_span = source_map.span(file_id, 7..10);
    let expr_span = source_map.span(file_id, 13..20);

    let diag = DiagnosticBuilder::new(DiagnosticLevel::Error)
        .set_primary("mismatched types")
        .add_span(expr_span)
        .span_label(expr_span, "expected `i32`, found `&str`")
        .span_label(type_span, "due to this")
        .build();

    let pad = " ".repeat(7);
    let expected = format!(
        "error: mismatched types\n --> test.rs:1:14\n  |\n1 | let x: i32 = \"hello\";\n  | {pad}---   ^^^^^^^ expected `i32`, found `&str`\n  | {pad}|\n  | {pad}due to this\n  |\n\n"
    );
    assert_eq!(render(&diag, &source_map, ColorChoice::Never), expected);
}

#[test]
fn replacement_suggestion_renders_as_a_diff() {
    let mut source_map = SourceMap::default();
    let file_id = source_map.add_file("test.rs", "let x: i32 = \"hello\";");
    let type_span = source_map.span(file_id, 7..10);

    let diag = DiagnosticBuilder::new(DiagnosticLevel::Error)
        .set_primary("m")
        .span_suggestion(
            type_span,
            "change the type to `&str`",
            "&str",
            Applicability::MachineApplicable,
        )
        .build();

    assert_eq!(
        render(&diag, &source_map, ColorChoice::Never),
        "error: m\nhelp: change the type to `&str`\n  |\n1 - let x: i32 = \"hello\";\n1 + let x: &str = \"hello\";\n  |\n\n"
    );
}

#[test]
fn cross_line_span_renders_exactly() {
    let mut source_map = SourceMap::default();
    let file_id = source_map.add_file("cross.rs", "alpha\nbeta");
    let span = source_map.span(file_id, 2..8);
    let diag = DiagnosticBuilder::new(DiagnosticLevel::Error)
        .set_primary("span crosses a line boundary")
        .add_span(span)
        .span_label(span, "cross-line label")
        .build();

    assert_eq!(
        render(&diag, &source_map, ColorChoice::Never),
        "error: span crosses a line boundary\n --> cross.rs:1:3\n  |\n1 | alpha\n  |  _-\n2 | |beta\n  | |_^ cross-line label\n  |\n\n"
    );
}

#[test]
fn far_label_gets_its_own_window_with_a_header() {
    let mut source_map = SourceMap::default();
    let source = "first();\nline2();\nline3();\nline4();\nlast();";
    let file_id = source_map.add_file("far.rs", source);
    let first = source_map.span(file_id, 0..5);
    let last_start = source.find("last").unwrap();
    let last = source_map.span(file_id, last_start..last_start + 4);

    let mut last_note = SubDiagnostic::new_in(DiagnosticLevel::Note, "last label");
    last_note.spans.push(last);

    let diag = DiagnosticBuilder::new(DiagnosticLevel::Error)
        .set_primary("labels are far apart")
        .add_span(first)
        .span_label(first, "first label")
        .add_sub_diagnostic(last_note)
        .build();

    assert_eq!(
        render(&diag, &source_map, ColorChoice::Never),
        "error: labels are far apart\n --> far.rs:1:1\n  |\n1 | first();\n  | ^^^^^ first label\n  |\nnote: last label\n --> far.rs:5:1\n  |\n5 | last();\n  | ----\n  |\n\n"
    );
}

#[test]
fn styles_ansi_styles_windows_console() {
    let output = levels_in(Palette::WindowsConsole);

    assert!(output.contains("\x1b[1m\x1b[93mwarning\x1b[0m"));
    assert!(output.contains("\x1b[1m\x1b[96m--> \x1b[0m"));
    assert!(!output.contains("\x1b[1m\x1b[33mwarning\x1b[0m"));
    assert!(!output.contains("\x1b[1m\x1b[94m--> \x1b[0m"));

    assert!(output.contains("\x1b[1m\x1b[91merror\x1b[0m"));
    assert!(output.contains("\x1b[1m\x1b[92mnote\x1b[0m"));
    assert!(output.contains("\x1b[1m\x1b[96mhelp\x1b[0m"));
}

#[test]
fn default_renderer_uses_the_ansi_palette() {
    let renderer = HumanRenderer::new_in(EmitterConfig::default());
    assert_eq!(renderer.palette(), Palette::Ansi);
    assert_eq!(DiagnosticLevel::Warning.as_style_in(Palette::WindowsConsole), "\x1b[1m\x1b[93m");
    assert_eq!(DiagnosticLevel::Warning.as_style_in(Palette::Ansi), "\x1b[1m\x1b[33m");
    assert_eq!(DiagnosticLevel::Error.as_style_in(Palette::WindowsConsole), "\x1b[1m\x1b[91m");
}

#[test]
fn parts_without_a_diff_need_no_boundaries() {
    let mut source_map = SourceMap::default();
    let file = source_map.add_file("u.rs", "a\u{3c0}b");
    let parts = vec![
        (Span::new(file, 0..2), "x".into_acow()),
        (Span::new(file, 1..3), "y".into_acow()),
    ];
    let diag = DiagnosticBuilder::new(DiagnosticLevel::Error)
        .set_primary("m")
        .add_suggestion(Suggestion::MultiPart {
            parts,
            message: "overlapping".into_acow(),
            applicability: Applicability::MaybeIncorrect,
        })
        .span_suggestion(Span::new(file, 2..2), "inside", "z", Applicability::Unspecified)
        .build();

    assert!(suggestions_fit(&diag, &source_map));
    assert_eq!(
        render(&diag, &source_map, ColorChoice::Never),
        "error: m\nhelp: overlapping\nhelp: inside\n\n"
    );
}

#[test]
fn shown_diff_with_a_part_inside_a_character_does_not_fit() {
    let mut source_map = SourceMap::default();
    let file = source_map.add_file("u.rs", "a\u{3c0}bc");
    let parts = vec![
        (Span::new(file, 2..4), "y".into_acow()),
        (Span::new(file, 0..1), "x".into_acow()),
    ];
    let diag = DiagnosticBuilder::new(DiagnosticLevel::Error)
        .set_primary("m")
        .add_suggestion(Suggestion::MultiPart {
            parts,
            message: "split".into_acow(),
            applicability: Applicability::MaybeIncorrect,
        })
        .build();

    assert!(!suggestions_fit(&diag, &source_map));
}
