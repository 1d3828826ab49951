# diagrustic

Compiler-style diagnostics with verified contracts.

- `src/` is the library, verified with Verus: the source map (byte offsets to
  lines and columns), diagnostics and their builder, bounded and unbounded
  collections of reported diagnostics, and the human-readable renderer, whose
  output is specified character by character in `emit_text`. `src/laws.rs`
  states properties that relate several operations.
- `tests/` exercises the library on concrete inputs.
- `app/` is a small program that renders sample diagnostics to standard error;
  it reads the `DIAGRUSTIC_FORMAT` and `DIAGRUSTIC_COLOR` overrides and checks
  whether standard error is a color terminal.
