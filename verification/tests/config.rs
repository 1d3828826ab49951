use std::cell::Cell;

use diagrustic::config::str_eq_ignore_ascii_case;
use diagrustic::{ColorChoice, DiagnosticFormat, EmitterConfig};

#[test]
fn names_parse_ignoring_case() {
    assert_eq!(DiagnosticFormat::parse("human"), Some(DiagnosticFormat::Human));
    assert_eq!(DiagnosticFormat::parse("SHORT"), Some(DiagnosticFormat::Short));
    assert_eq!(DiagnosticFormat::parse("Json"), Some(DiagnosticFormat::Json));
    assert_eq!(DiagnosticFormat::parse("yaml"), None);
    assert_eq!(ColorChoice::parse("AUTO"), Some(ColorChoice::Auto));
    assert_eq!(ColorChoice::parse("always"), Some(ColorChoice::Always));
    assert_eq!(ColorChoice::parse("NeVeR"), Some(ColorChoice::Never));
    assert_eq!(ColorChoice::parse("sometimes"), None);
    assert_eq!("json".parse::<DiagnosticFormat>(), Ok(DiagnosticFormat::Json));
    assert_eq!("blue".parse::<ColorChoice>(), Err(()));
    assert!(str_eq_ignore_ascii_case("HeLLo", "hello"));
    assert!(!str_eq_ignore_ascii_case("hello", "hell"));
}

#[test]
fn defaults_are_human_and_auto() {
    assert_eq!(DiagnosticFormat::default(), DiagnosticFormat::Human);
    assert_eq!(ColorChoice::default(), ColorChoice::Auto);
    let config = EmitterConfig::default();
    assert_eq!(config.format, DiagnosticFormat::Human);
    assert_eq!(config.color, ColorChoice::Auto);
}

#[test]
fn build_applies_overrides_and_settles_auto() {
    let asked = Cell::new(0);
    let config = EmitterConfig::default().build(Some("short"), None, || {
        asked.set(asked.get() + 1);
        true
    });
    assert_eq!(config.format, DiagnosticFormat::Short);
    assert_eq!(config.color, ColorChoice::Always);
    assert_eq!(asked.get(), 1);

    let config = EmitterConfig::default().build(Some("bogus"), Some("auto"), || false);
    assert_eq!(config.format, DiagnosticFormat::Human);
    assert_eq!(config.color, ColorChoice::Never);
}

#[test]
fn build_asks_nothing_when_color_is_chosen() {
    let asked = Cell::new(0);
    let probe = || {
        asked.set(asked.get() + 1);
        true
    };
    let config = EmitterConfig { format: DiagnosticFormat::Json, color: ColorChoice::Auto }
        .build(None, Some("NEVER"), probe);
    assert_eq!(config.format, DiagnosticFormat::Json);
    assert_eq!(config.color, ColorChoice::Never);
    assert_eq!(asked.get(), 0);
}

#[test]
fn settled_config_settles_to_itself() {
    let settled = EmitterConfig::default().build(None, None, || true);
    let again = settled.build(None, None, || false);
    assert_eq!(again, settled);
}
