//! Compiler-style diagnostics: a source map that turns byte offsets into
//! lines and columns, diagnostic values with labels, notes and suggestions,
//! and a renderer that lays them out as annotated source text.
mod acow;

pub mod applicability;
pub mod builder;
pub mod config;
pub mod context;
pub mod diagnostic;
pub mod diagnostics;
pub mod emit;
pub mod labels;
pub mod laws;
pub mod level;
pub mod lines;
pub mod out;
pub mod seqs;
pub mod source_map;
pub mod span;
pub mod styles;
pub mod sub_diag;
pub mod suggest;
pub mod suggestion;
pub mod text;
pub mod width;
pub mod window;

pub use acow::{Acow, IntoAcow};
pub use config::{ColorChoice, DiagnosticFormat, EmitterConfig};
pub use emit::{EmitDiagnostic, EmitError};
pub use out::HumanRenderer;
