use vstd::prelude::*;

use crate::acow::{Acow, IntoAcow};
use crate::applicability::Applicability;
use crate::diagnostic::Diagnostic;
use crate::level::DiagnosticLevel;
use crate::span::Span;
use crate::sub_diag::SubDiagnostic;
use crate::suggestion::Suggestion;

verus! {

/// The text an optional message has; empty when there is none.
pub open spec fn text_or_empty(m: Option<Acow>) -> Seq<char> {
    match m {
        Some(a) => a@,
        None => Seq::empty(),
    }
}

/// The text of an optional message, if any.
pub open spec fn opt_text(m: Option<Acow>) -> Option<Seq<char>> {
    match m {
        Some(a) => Some(a@),
        None => None,
    }
}

/// `sub` is a label: a note of the given level, with the given message,
/// pointing at exactly `span`.
pub open spec fn is_label(
    sub: SubDiagnostic,
    level: DiagnosticLevel,
    message: Seq<char>,
    span: Span,
) -> bool {
    &&& sub.level == level
    &&& sub.message@ == message
    &&& sub.spans@ == seq![span]
    &&& sub.suggestions@.len() == 0
    &&& sub.children@.len() == 0
}

/// Assembles a `Diagnostic` step by step.
pub struct DiagnosticBuilder {
    level: DiagnosticLevel,
    primary: Option<Acow>,
    code: Option<Acow>,
    spans: Vec<Span>,
    suggestions: Vec<Suggestion>,
    children: Vec<SubDiagnostic>,
    lazy_labels: Vec<SubDiagnostic>,
}

impl DiagnosticBuilder {
    pub closed spec fn spec_level(&self) -> DiagnosticLevel {
        self.level
    }

    pub closed spec fn spec_primary(&self) -> Option<Seq<char>> {
        opt_text(self.primary)
    }

    pub closed spec fn spec_code(&self) -> Option<Seq<char>> {
        opt_text(self.code)
    }

    pub closed spec fn spec_spans(&self) -> Seq<Span> {
        self.spans@
    }

    pub closed spec fn spec_suggestions(&self) -> Seq<Suggestion> {
        self.suggestions@
    }

    pub closed spec fn spec_children(&self) -> Seq<SubDiagnostic> {
        self.children@
    }

    /// Labels whose message was given by a closure; they follow the other
    /// children in the built diagnostic.
    pub closed spec fn spec_lazy_labels(&self) -> Seq<SubDiagnostic> {
        self.lazy_labels@
    }

    /// A builder with the given level and nothing else set.
    pub open spec fn is_new(&self, level: DiagnosticLevel) -> bool {
        &&& self.spec_level() == level
        &&& self.spec_primary() is None
        &&& self.spec_code() is None
        &&& self.spec_spans().len() == 0
        &&& self.spec_suggestions().len() == 0
        &&& self.spec_children().len() == 0
        &&& self.spec_lazy_labels().len() == 0
    }

    /// `self` equals `old` in everything but children and suggestions.
    pub open spec fn same_head(&self, old: &Self) -> bool {
        &&& self.spec_level() == old.spec_level()
        &&& self.spec_primary() == old.spec_primary()
        &&& self.spec_code() == old.spec_code()
        &&& self.spec_spans() == old.spec_spans()
    }

    pub fn new(level: DiagnosticLevel) -> (r: Self)
        ensures
            r.is_new(level),
    {
        Self::new_in(level)
    }

    pub fn new_in(level: DiagnosticLevel) -> (r: Self)
        ensures
            r.is_new(level),
    {
        Self {
            level,
            primary: None,
            code: None,
            spans: Vec::new(),
            suggestions: Vec::new(),
            children: Vec::new(),
            lazy_labels: Vec::new(),
        }
    }

    pub fn set_primary<M: IntoAcow>(self, msg: M) -> (r: Self)
        ensures
            r.spec_primary() == Some(msg.text()),
            r.spec_level() == self.spec_level(),
            r.spec_code() == self.spec_code(),
            r.spec_spans() == self.spec_spans(),
            r.spec_suggestions() == self.spec_suggestions(),
            r.spec_children() == self.spec_children(),
            r.spec_lazy_labels() == self.spec_lazy_labels(),
    {
        let mut s = self;
        s.primary = Some(msg.into_acow());
        s
    }

    pub fn set_code<M: IntoAcow>(self, code: M) -> (r: Self)
        ensures
            r.spec_code() == Some(code.text()),
            r.spec_level() == self.spec_level(),
            r.spec_primary() == self.spec_primary(),
            r.spec_spans() == self.spec_spans(),
            r.spec_suggestions() == self.spec_suggestions(),
            r.spec_children() == self.spec_children(),
            r.spec_lazy_labels() == self.spec_lazy_labels(),
    {
        let mut s = self;
        s.code = Some(code.into_acow());
        s
    }

    pub fn add_span(self, span: Span) -> (r: Self)
        ensures
            r.spec_spans() == self.spec_spans().push(span),
            r.spec_level() == self.spec_level(),
            r.spec_primary() == self.spec_primary(),
            r.spec_code() == self.spec_code(),
            r.spec_suggestions() == self.spec_suggestions(),
            r.spec_children() == self.spec_children(),
            r.spec_lazy_labels() == self.spec_lazy_labels(),
    {
        let mut s = self;
        s.spans.push(span);
        s
    }

    pub fn add_sub_diagnostic(self, sub: SubDiagnostic) -> (r: Self)
        ensures
            r.spec_children() == self.spec_children().push(sub),
            r.same_head(&self),
            r.spec_suggestions() == self.spec_suggestions(),
            r.spec_lazy_labels() == self.spec_lazy_labels(),
    {
        let mut s = self;
        s.children.push(sub);
        s
    }

    pub fn add_suggestion(self, sugg: Suggestion) -> (r: Self)
        ensures
            r.spec_suggestions() == self.spec_suggestions().push(sugg),
            r.same_head(&self),
            r.spec_children() == self.spec_children(),
            r.spec_lazy_labels() == self.spec_lazy_labels(),
    {
        let mut s = self;
        s.suggestions.push(sugg);
        s
    }

    fn label(level: DiagnosticLevel, span: Span, message: Acow) -> (r: SubDiagnostic)
        ensures
            is_label(r, level, message@, span),
    {
        let mut sub = SubDiagnostic::new_in(level, message);
        let mut spans = Vec::new();
        spans.push(span);
        sub.spans = spans;
        sub
    }

    /// Attaches a label to a span: a help note pointing at it.
    pub fn span_label<M: IntoAcow>(self, span: Span, label: M) -> (r: Self)
        ensures
            r.spec_children().len() == self.spec_children().len() + 1,
            r.spec_children().take(self.spec_children().len() as int) == self.spec_children(),
            is_label(r.spec_children().last(), DiagnosticLevel::Help, label.text(), span),
            r.same_head(&self),
            r.spec_suggestions() == self.spec_suggestions(),
            r.spec_lazy_labels() == self.spec_lazy_labels(),
    {
        let mut s = self;
        let sub = Self::label(DiagnosticLevel::Help, span, label.into_acow());
        s.children.push(sub);
        proof {
            assert(s.children@.take(self.children@.len() as int) =~= self.children@);
        }
        s
    }

    /// Like `span_label`, with the message given by `f`; the label follows
    /// all other children of the built diagnostic.
    pub fn span_label_with<M: IntoAcow, F: FnOnce() -> M>(self, span: Span, f: F) -> (r: Self)
        requires
            call_requires(f, ()),
        ensures
            r.spec_lazy_labels().len() == self.spec_lazy_labels().len() + 1,
            r.spec_lazy_labels().take(self.spec_lazy_labels().len() as int)
                == self.spec_lazy_labels(),
            exists|m: M|
                call_ensures(f, (), m) && is_label(
                    #[trigger] r.spec_lazy_labels().last(),
                    DiagnosticLevel::Help,
                    m.text(),
                    span,
                ),
            r.same_head(&self),
            r.spec_suggestions() == self.spec_suggestions(),
            r.spec_children() == self.spec_children(),
    {
        let mut s = self;
        let message = f();
        let sub = Self::label(DiagnosticLevel::Help, span, message.into_acow());
        s.lazy_labels.push(sub);
        proof {
            assert(s.lazy_labels@.take(self.lazy_labels@.len() as int) =~= self.lazy_labels@);
        }
        s
    }

    pub fn span_suggestion<M: IntoAcow, R: IntoAcow>(
        self,
        span: Span,
        message: M,
        replacement: R,
        applicability: Applicability,
    ) -> (r: Self)
        ensures
            r.spec_suggestions().len() == self.spec_suggestions().len() + 1,
            r.spec_suggestions().take(self.spec_suggestions().len() as int)
                == self.spec_suggestions(),
            r.spec_suggestions().last() matches Suggestion::Replacement {
                span: sp,
                message: m,
                replacement: rp,
                applicability: a,
            } && sp == span && m@ == message.text() && rp@ == replacement.text()
                && a == applicability,
            r.same_head(&self),
            r.spec_children() == self.spec_children(),
            r.spec_lazy_labels() == self.spec_lazy_labels(),
    {
        let mut s = self;
        s.suggestions.push(
            Suggestion::Replacement {
                span,
                message: message.into_acow(),
                replacement: replacement.into_acow(),
                applicability,
            },
        );
        proof {
            assert(s.suggestions@.take(self.suggestions@.len() as int) =~= self.suggestions@);
        }
        s
    }

    /// Finishes the diagnostic; labels given by closures come after all
    /// other children.
    pub fn build(self) -> (d: Diagnostic)
        ensures
            d.level == self.spec_level(),
            self.spec_primary() is None ==> d.primary == Acow::Borrowed(""),
            d.primary@ == match self.spec_primary() {
                Some(p) => p,
                None => Seq::empty(),
            },
            opt_text(d.code) == self.spec_code(),
            d.spans@ == self.spec_spans(),
            d.suggestions@ == self.spec_suggestions(),
            d.children@ == self.spec_children() + self.spec_lazy_labels(),
    {
        let DiagnosticBuilder { level, primary, code, spans, suggestions, mut children, mut lazy_labels } = self;
        children.append(&mut lazy_labels);
        let primary = match primary {
            Some(p) => p,
            None => Acow::default(),
        };
        Diagnostic { level, primary, code, spans, suggestions, children }
    }
}

} // verus!
