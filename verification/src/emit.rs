//! Rendering a whole diagnostic: headline, source windows, trailing notes
//! and suggestions.
use vstd::prelude::*;

use crate::builder::text_or_empty;
use crate::config::DiagnosticFormat;
use crate::diagnostic::Diagnostic;
use crate::labels::{diagnostic_labels, is_primary_label, label_views, LabelView};
use crate::level::level_name;
use crate::out::{style_end, style_start, styled, HumanRenderer};
use crate::seqs::{first_index, lemma_first_index, or_index};
use crate::source_map::{FileView, SourceMap};
use crate::styles::{Palette, StyleKind};
use crate::sub_diag::SubDiagnostic;
use crate::suggest::{suggestion_on_boundaries, suggestion_text};
use crate::suggestion::Suggestion;
use crate::window::source_windows;

verus! {

/// Why a diagnostic was not rendered.
#[derive(Debug, Clone, Copy, PartialEq, Eq, Structural)]
pub enum EmitError {
    /// The configured format has no renderer.
    Unsupported,
}

/// Renders diagnostics somewhere.
pub trait EmitDiagnostic<E> {
    fn emit(&mut self, diag: &Diagnostic, source_map: &SourceMap) -> Result<(), E>;
}

/// The headline: level, optional code in brackets, and the primary message.
pub open spec fn header_line(color: Option<Palette>, diag: Diagnostic) -> Seq<char> {
    let code = text_or_empty(diag.code);
    style_start(color, StyleKind::Level(diag.level)) + level_name(diag.level) + (if code.len() > 0 {
        seq!['['] + code + seq![']']
    } else {
        Seq::empty()
    }) + style_end(color) + styled(color, StyleKind::HeaderMsg, seq![':', ' '] + diag.primary@)
        + seq!['\n']
}

/// A note without spans as a trailing line, then its own notes.
pub open spec fn trailing_text(sub: SubDiagnostic) -> Seq<char>
    decreases sub,
{
    (if sub.spans@.len() == 0 {
        "  = "@ + level_name(sub.level) + seq![':', ' '] + sub.message@ + seq!['\n']
    } else {
        Seq::empty()
    }) + trailing_children(sub.children@, sub.children@.len() as int)
}

/// The trailing lines of the first `k` notes of `cs`.
pub open spec fn trailing_children(cs: Seq<SubDiagnostic>, k: int) -> Seq<char>
    decreases cs, k,
{
    if k <= 0 || k > cs.len() {
        Seq::empty()
    } else {
        trailing_children(cs, k - 1) + trailing_text(cs[k - 1])
    }
}

/// The first `k` suggestions of `ss`, rendered.
pub open spec fn suggestions_text(color: Option<Palette>, m: Seq<FileView>, ss: Seq<Suggestion>, k: int) -> Seq<
    char,
>
    decreases k,
{
    if k <= 0 {
        Seq::empty()
    } else {
        suggestions_text(color, m, ss, k - 1) + suggestion_text(color, m, ss[k - 1])
    }
}

/// The label whose span the source windows are built around: the first
/// primary one, else the first one.
pub open spec fn primary_index(ls: Seq<LabelView>) -> Option<int> {
    or_index(
        first_index(ls, is_primary_label()),
        if ls.len() > 0 {
            Some(0int)
        } else {
            None
        },
    )
}

/// A diagnostic rendered for humans.
pub open spec fn emit_text(color: Option<Palette>, diag: Diagnostic, m: Seq<FileView>) -> Seq<char> {
    let ls = diagnostic_labels(diag);
    header_line(color, diag) + (match primary_index(ls) {
        Some(i) => source_windows(color, m, ls[i].span, ls, diag.level),
        None => Seq::empty(),
    }) + trailing_children(diag.children@, diag.children@.len() as int) + suggestions_text(
        color,
        m,
        diag.suggestions@,
        diag.suggestions@.len() as int,
    ) + seq!['\n']
}

/// Every suggestion of a diagnostic lies on character boundaries.
pub open spec fn suggestions_on_boundaries(diag: Diagnostic, m: Seq<FileView>) -> bool {
    forall|i: int|
        0 <= i < diag.suggestions@.len() ==> suggestion_on_boundaries(
            m,
            #[trigger] diag.suggestions@[i],
        )
}

impl HumanRenderer {
    fn print_code(&mut self, diag: &Diagnostic)
        ensures
            final(self).extends(
                old(self),
                if text_or_empty(diag.code).len() > 0 {
                    seq!['['] + text_or_empty(diag.code) + seq![']']
                } else {
                    Seq::empty()
                },
            ),
    {
        broadcast use crate::out::lemma_seq_add_assoc;

        let ghost t0 = self.text();
        let code_str = match &diag.code {
            Some(code) => code.as_str(),
            None => "",
        };
        proof {
            reveal_strlit("");
        }
        assert(code_str@ == text_or_empty(diag.code));
        if !code_str.is_empty() {
            self.push('[');
            self.push_str(code_str);
            self.push(']');
            assert(self.text() == t0 + (seq!['['] + code_str@ + seq![']']));
        } else {
            assert(self.text() == t0 + Seq::<char>::empty());
        }
    }

    pub(crate) fn print_header_message(&mut self, primary: &str)
        ensures
            final(self).extends(
                old(self),
                styled(old(self).colored(), StyleKind::HeaderMsg, seq![':', ' '] + primary@),
            ),
    {
        broadcast use crate::out::lemma_seq_add_assoc;

        let ghost t0 = self.text();
        self.write_style_start(StyleKind::HeaderMsg);
        self.push(':');
        self.push(' ');
        self.push_str(primary);
        self.write_reset();
        assert(self.text() == t0 + styled(self.colored(), StyleKind::HeaderMsg, seq![':', ' '] + primary@));
    }

    pub(crate) fn print_header(&mut self, diag: &Diagnostic)
        ensures
            final(self).extends(old(self), header_line(old(self).colored(), *diag)),
    {
        let ghost t0 = self.text();
        let ghost c = self.colored();
        let ghost code = text_or_empty(diag.code);
        let ghost s1 = style_start(c, StyleKind::Level(diag.level));
        let ghost s2 = level_name(diag.level);
        let ghost s3 = if code.len() > 0 {
            seq!['['] + code + seq![']']
        } else {
            Seq::empty()
        };
        let ghost s4 = style_end(c);
        let ghost s5 = styled(c, StyleKind::HeaderMsg, seq![':', ' '] + diag.primary@);
        let ghost s6 = seq!['\n'];
        self.write_style_start(StyleKind::Level(diag.level));
        self.push_str(diag.level.as_str());
        self.print_code(diag);
        self.write_reset();
        self.print_header_message(diag.primary.as_str());
        self.push('\n');
        proof {
            crate::out::lemma_seq_add_assoc(t0, s1, s2);
            crate::out::lemma_seq_add_assoc(t0, s1 + s2, s3);
            crate::out::lemma_seq_add_assoc(t0, s1 + s2 + s3, s4);
            crate::out::lemma_seq_add_assoc(t0, s1 + s2 + s3 + s4, s5);
            crate::out::lemma_seq_add_assoc(t0, s1 + s2 + s3 + s4 + s5, s6);
        }
        assert(self.text() == t0 + header_line(c, *diag));
    }

    pub(crate) fn print_trailing_sub_diag(&mut self, sub: &SubDiagnostic)
        ensures
            final(self).extends(old(self), trailing_text(*sub)),
        decreases sub,
    {
        broadcast use crate::out::lemma_seq_add_assoc;

        let ghost t0 = self.text();
        if sub.spans.len() == 0 {
            self.push_str("  = ");
            self.push_str(sub.level.as_str());
            self.push(':');
            self.push(' ');
            self.push_str(sub.message.as_str());
            self.push('\n');
        }
        let ghost t1 = self.text();
        assert(t1 == t0 + (if sub.spans@.len() == 0 {
            "  = "@ + level_name(sub.level) + seq![':', ' '] + sub.message@ + seq!['\n']
        } else {
            Seq::empty()
        }));
        let mut k: usize = 0;
        while k < sub.children.len()
            invariant
                k <= sub.children@.len(),
                self.cfg() == old(self).cfg(),
                self.pal() == old(self).pal(),
                self.text() == t1 + trailing_children(sub.children@, k as int),
            decreases sub.children@.len() - k,
        {
            self.print_trailing_sub_diag(&sub.children[k]);
            k += 1;
        }
    }

    fn print_diagnostic_windows(&mut self, diag: &Diagnostic, source_map: &SourceMap)
        requires
            source_map.wf(),
        ensures
            final(self).extends(
                old(self),
                match primary_index(diagnostic_labels(*diag)) {
                    Some(i) => source_windows(
                        old(self).colored(),
                        source_map@,
                        diagnostic_labels(*diag)[i].span,
                        diagnostic_labels(*diag),
                        diag.level,
                    ),
                    None => Seq::empty(),
                },
            ),
    {
        let ghost t0 = self.text();
        let labels = Self::collect_labels(diag);
        let ghost ls = label_views(labels@);
        let mut j: usize = 0;
        while j < labels.len() && !labels[j].is_primary
            invariant
                j <= labels@.len(),
                ls == label_views(labels@),
                forall|q: int| 0 <= q < j ==> !(#[trigger] labels@[q]).is_primary,
            decreases labels@.len() - j,
        {
            j += 1;
        }
        proof {
            assert forall|q: int| 0 <= q < j implies !is_primary_label()(#[trigger] ls[q]) by {
                assert(ls[q] == labels@[q]@);
            }
            if j < labels@.len() {
                assert(ls[j as int] == labels@[j as int]@);
            }
            crate::seqs::lemma_first_index_is(ls, is_primary_label(), j as int);
        }
        if j < labels.len() {
            assert(ls[j as int] == labels@[j as int]@);
            self.print_source_windows(source_map, labels[j].span, &labels, diag.level);
        } else if labels.len() > 0 {
            assert(ls[0] == labels@[0]@);
            self.print_source_windows(source_map, labels[0].span, &labels, diag.level);
        } else {
            assert(self.text() =~= t0 + Seq::<char>::empty());
        }
    }

    fn print_trailing_children(&mut self, diag: &Diagnostic)
        ensures
            final(self).extends(old(self), trailing_children(diag.children@, diag.children@.len() as int)),
    {
        broadcast use crate::out::lemma_seq_add_assoc;

        let ghost t0 = self.text();
        assert(self.text() =~= t0 + trailing_children(diag.children@, 0));
        let mut k: usize = 0;
        while k < diag.children.len()
            invariant
                k <= diag.children@.len(),
                self.cfg() == old(self).cfg(),
                self.pal() == old(self).pal(),
                t0 == old(self).text(),
                self.text() == t0 + trailing_children(diag.children@, k as int),
            decreases diag.children@.len() - k,
        {
            self.print_trailing_sub_diag(&diag.children[k]);
            k += 1;
        }
    }

    #[verifier::rlimit(50)]
    fn print_suggestions(&mut self, diag: &Diagnostic, source_map: &SourceMap)
        requires
            source_map.wf(),
            suggestions_on_boundaries(*diag, source_map@),
        ensures
            final(self).extends(
                old(self),
                suggestions_text(
                    old(self).colored(),
                    source_map@,
                    diag.suggestions@,
                    diag.suggestions@.len() as int,
                ),
            ),
    {
        let ghost t0 = self.text();
        let ghost c = self.colored();
        let ghost m = source_map@;
        assert(self.text() =~= t0 + suggestions_text(c, m, diag.suggestions@, 0));
        let mut s: usize = 0;
        while s < diag.suggestions.len()
            invariant
                source_map.wf(),
                m == source_map@,
                suggestions_on_boundaries(*diag, m),
                s <= diag.suggestions@.len(),
                c == self.colored(),
                self.cfg() == old(self).cfg(),
                self.pal() == old(self).pal(),
                t0 == old(self).text(),
                self.text() == t0 + suggestions_text(c, m, diag.suggestions@, s as int),
            decreases diag.suggestions@.len() - s,
        {
            self.print_suggestion(source_map, &diag.suggestions[s]);
            proof {
                crate::out::lemma_seq_add_assoc(
                    t0,
                    suggestions_text(c, m, diag.suggestions@, s as int),
                    crate::suggest::suggestion_text(c, m, diag.suggestions@[s as int]),
                );
            }
            s += 1;
        }
    }

    /// Renders a diagnostic in the configured format, appending it to the text.
    pub fn emit(&mut self, diag: &Diagnostic, source_map: &SourceMap) -> (r: Result<(), EmitError>)
        requires
            old(self).cfg().format is Human ==> source_map.wf() && suggestions_on_boundaries(
                *diag,
                source_map@,
            ),
        ensures
            r is Ok <==> old(self).cfg().format is Human,
            r is Ok ==> final(self).extends(old(self), emit_text(old(self).colored(), *diag, source_map@)),
            r is Err ==> final(self).text() == old(self).text() && final(self).cfg() == old(self).cfg(),
    {
        broadcast use crate::out::lemma_seq_add_assoc;

        if !matches!(self.config().format, DiagnosticFormat::Human) {
            return Err(EmitError::Unsupported);
        }
        let ghost t0 = self.text();
        let ghost c = self.colored();
        self.print_header(diag);
        self.print_diagnostic_windows(diag, source_map);
        self.print_trailing_children(diag);
        self.print_suggestions(diag, source_map);
        self.push('\n');
        assert(self.text() == t0 + emit_text(c, *diag, source_map@));
        Ok(())
    }
}

/// Whether every suggestion of `diag` lies on character boundaries of its
/// file; rendering slices the source at them.
pub fn suggestions_fit(diag: &Diagnostic, source_map: &SourceMap) -> (r: bool)
    requires
        source_map.wf(),
    ensures
        r == suggestions_on_boundaries(*diag, source_map@),
{
    let mut i: usize = 0;
    while i < diag.suggestions.len()
        invariant
            source_map.wf(),
            i <= diag.suggestions@.len(),
            forall|q: int| 0 <= q < i ==> suggestion_on_boundaries(source_map@, #[trigger] diag.suggestions@[q]),
        decreases diag.suggestions@.len() - i,
    {
        if !suggestion_fits(&diag.suggestions[i], source_map) {
            return false;
        }
        i += 1;
    }
    true
}

fn suggestion_fits(suggestion: &Suggestion, source_map: &SourceMap) -> (r: bool)
    requires
        source_map.wf(),
    ensures
        r == suggestion_on_boundaries(source_map@, *suggestion),
{
    let mut parts: Vec<(crate::span::Span, &str)> = Vec::new();
    match suggestion {
        Suggestion::Replacement { span, replacement, .. } => {
            parts.push((*span, replacement.as_str()));
        },
        Suggestion::MultiPart { parts: ps, .. } => {
            let mut i: usize = 0;
            while i < ps.len()
                invariant
                    i <= ps@.len(),
                    parts@.len() == i,
                    forall|q: int|
                        0 <= q < i ==> (#[trigger] parts@[q]).0 == ps@[q].0 && parts@[q].1@
                            == ps@[q].1@,
                decreases ps@.len() - i,
            {
                let part = &ps[i];
                parts.push((part.0, part.1.as_str()));
                i += 1;
            }
        },
    }
    assert(crate::suggest::part_views(parts@) =~= crate::suggest::suggestion_parts(*suggestion));
    HumanRenderer::check_parts_fit(source_map, &parts)
}

} // verus!
