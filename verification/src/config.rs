//! How diagnostics are rendered: in which format and whether with colors.
use vstd::prelude::*;
use vstd::string::StringSliceAdditionalSpecFns;

verus! {

/// The byte `b` with ASCII upper case letters made lower case.
pub open spec fn ascii_lower(b: u8) -> u8 {
    if 65 <= b <= 90 {
        (b + 32) as u8
    } else {
        b
    }
}

/// Two byte strings are equal up to the case of ASCII letters.
pub open spec fn eq_ignore_ascii_case(a: Seq<u8>, b: Seq<u8>) -> bool {
    &&& a.len() == b.len()
    &&& forall|i: int| 0 <= i < a.len() ==> ascii_lower(#[trigger] a[i]) == ascii_lower(b[i])
}

/// Compares two strings ignoring the case of ASCII letters.
pub fn str_eq_ignore_ascii_case(a: &str, b: &str) -> (r: bool)
    ensures
        r == eq_ignore_ascii_case(a.spec_bytes(), b.spec_bytes()),
{
    let x = a.as_bytes();
    let y = b.as_bytes();
    if x.len() != y.len() {
        return false;
    }
    let mut i: usize = 0;
    while i < x.len()
        invariant
            x@ == a.spec_bytes(),
            y@ == b.spec_bytes(),
            x@.len() == y@.len(),
            i <= x@.len(),
            forall|j: int| 0 <= j < i ==> ascii_lower(#[trigger] x@[j]) == ascii_lower(y@[j]),
        decreases x@.len() - i,
    {
        let p = if 65 <= x[i] && x[i] <= 90 { x[i] + 32 } else { x[i] };
        let q = if 65 <= y[i] && y[i] <= 90 { y[i] + 32 } else { y[i] };
        if p != q {
            return false;
        }
        i += 1;
    }
    true
}

/// The layout diagnostics are rendered in.
#[derive(Debug, Clone, Copy, PartialEq, Eq, Structural)]
pub enum DiagnosticFormat {
    Human,
    Short,
    Json,
}

/// Whether rendered diagnostics carry terminal color codes.
#[derive(Debug, Clone, Copy, PartialEq, Eq, Structural)]
pub enum ColorChoice {
    Auto,
    Always,
    Never,
}

/// The format a name denotes, ignoring ASCII case.
pub open spec fn format_named(name: Seq<u8>) -> Option<DiagnosticFormat> {
    if eq_ignore_ascii_case(name, "human".spec_bytes()) {
        Some(DiagnosticFormat::Human)
    } else if eq_ignore_ascii_case(name, "short".spec_bytes()) {
        Some(DiagnosticFormat::Short)
    } else if eq_ignore_ascii_case(name, "json".spec_bytes()) {
        Some(DiagnosticFormat::Json)
    } else {
        None
    }
}

/// The color choice a name denotes, ignoring ASCII case.
pub open spec fn color_named(name: Seq<u8>) -> Option<ColorChoice> {
    if eq_ignore_ascii_case(name, "auto".spec_bytes()) {
        Some(ColorChoice::Auto)
    } else if eq_ignore_ascii_case(name, "always".spec_bytes()) {
        Some(ColorChoice::Always)
    } else if eq_ignore_ascii_case(name, "never".spec_bytes()) {
        Some(ColorChoice::Never)
    } else {
        None
    }
}

/// The setting an optional variable's value selects, or `fallback`.
pub open spec fn format_setting(var: Option<&str>, fallback: DiagnosticFormat) -> DiagnosticFormat {
    match var {
        Some(v) => match format_named(v.spec_bytes()) {
            Some(f) => f,
            None => fallback,
        },
        None => fallback,
    }
}

/// The color choice an optional variable's value selects, or `fallback`.
pub open spec fn color_setting(var: Option<&str>, fallback: ColorChoice) -> ColorChoice {
    match var {
        Some(v) => match color_named(v.spec_bytes()) {
            Some(c) => c,
            None => fallback,
        },
        None => fallback,
    }
}

impl DiagnosticFormat {
    pub fn parse(s: &str) -> (r: Option<Self>)
        ensures
            r == format_named(s.spec_bytes()),
    {
        if str_eq_ignore_ascii_case(s, "human") {
            Some(DiagnosticFormat::Human)
        } else if str_eq_ignore_ascii_case(s, "short") {
            Some(DiagnosticFormat::Short)
        } else if str_eq_ignore_ascii_case(s, "json") {
            Some(DiagnosticFormat::Json)
        } else {
            None
        }
    }
}

impl ColorChoice {
    pub fn parse(s: &str) -> (r: Option<Self>)
        ensures
            r == color_named(s.spec_bytes()),
    {
        if str_eq_ignore_ascii_case(s, "auto") {
            Some(ColorChoice::Auto)
        } else if str_eq_ignore_ascii_case(s, "always") {
            Some(ColorChoice::Always)
        } else if str_eq_ignore_ascii_case(s, "never") {
            Some(ColorChoice::Never)
        } else {
            None
        }
    }
}

impl Default for DiagnosticFormat {
    fn default() -> (r: Self)
        ensures
            r == DiagnosticFormat::Human,
    {
        DiagnosticFormat::Human
    }
}

impl Default for ColorChoice {
    fn default() -> (r: Self)
        ensures
            r == ColorChoice::Auto,
    {
        ColorChoice::Auto
    }
}

impl core::str::FromStr for DiagnosticFormat {
    type Err = ();

    fn from_str(s: &str) -> (r: Result<Self, Self::Err>)
        ensures
            r == match format_named(s.spec_bytes()) {
                Some(f) => Ok(f),
                None => Err(()),
            },
    {
        match DiagnosticFormat::parse(s) {
            Some(f) => Ok(f),
            None => Err(()),
        }
    }
}

impl core::str::FromStr for ColorChoice {
    type Err = ();

    fn from_str(s: &str) -> (r: Result<Self, Self::Err>)
        ensures
            r == match color_named(s.spec_bytes()) {
                Some(c) => Ok(c),
                None => Err(()),
            },
    {
        match ColorChoice::parse(s) {
            Some(c) => Ok(c),
            None => Err(()),
        }
    }
}

/// The format and color choice of a renderer.
#[derive(Debug, Clone, Copy, PartialEq, Eq, Structural)]
pub struct EmitterConfig {
    pub format: DiagnosticFormat,
    pub color: ColorChoice,
}

impl Default for EmitterConfig {
    fn default() -> (r: Self)
        ensures
            r.format == DiagnosticFormat::Human,
            r.color == ColorChoice::Auto,
    {
        EmitterConfig { format: DiagnosticFormat::Human, color: ColorChoice::Auto }
    }
}

impl EmitterConfig {
    /// Settles the configuration: a recognized `format_var` or `color_var`
    /// (the values of the environment's overrides) replaces the field, and an
    /// `Auto` color becomes `Always` or `Never` as `stderr_supports_color`
    /// answers; it is asked only then.
    pub fn build<F: FnOnce() -> bool>(
        self,
        format_var: Option<&str>,
        color_var: Option<&str>,
        stderr_supports_color: F,
    ) -> (r: Self)
        requires
            call_requires(stderr_supports_color, ()),
        ensures
            r.format == format_setting(format_var, self.format),
            !(r.color is Auto),
            !(color_setting(color_var, self.color) is Auto) ==> r.color == color_setting(
                color_var,
                self.color,
            ),
            color_setting(color_var, self.color) is Auto ==> exists|b: bool|
                call_ensures(stderr_supports_color, (), b) && r.color == (if b {
                    ColorChoice::Always
                } else {
                    ColorChoice::Never
                }),
    {
        let mut config = self;
        if let Some(v) = format_var {
            if let Some(f) = DiagnosticFormat::parse(v) {
                config.format = f;
            }
        }
        if let Some(v) = color_var {
            if let Some(c) = ColorChoice::parse(v) {
                config.color = c;
            }
        }
        if let ColorChoice::Auto = config.color {
            let supported = stderr_supports_color();
            config.color = if supported {
                ColorChoice::Always
            } else {
                ColorChoice::Never
            };
        }
        config
    }
}

} // verus!
