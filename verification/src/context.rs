use vstd::prelude::*;
use vstd::utf8::is_char_boundary;

use crate::builder::DiagnosticBuilder;
use crate::level::DiagnosticLevel;
use crate::source_map::{bytes_of, Source};
use crate::span::Span;

verus! {

/// What a user's error type needs to describe itself: the file it was found in.
#[derive(Clone, Copy)]
pub struct DiagnosticContext<'source> {
    source: Source<'source>,
}

impl<'source> DiagnosticContext<'source> {
    pub closed spec fn handle(self) -> Source<'source> {
        self.source
    }

    pub fn new(source: Source<'source>) -> (r: Self)
        ensures
            r.handle() == source,
    {
        Self { source }
    }

    /// A span of the context's file.
    pub fn span(&self, span: core::ops::Range<usize>) -> (r: Span)
        requires
            self.handle().valid(),
            is_char_boundary(
                bytes_of(self.handle().map()@[self.handle().file().id() as int]),
                span.start as int,
            ),
            is_char_boundary(
                bytes_of(self.handle().map()@[self.handle().file().id() as int]),
                span.end as int,
            ),
        ensures
            r.file() == self.handle().file(),
            r.lo() == span.start,
            r.hi() == span.end,
    {
        self.source.span(span)
    }

    /// A builder for a diagnostic of the given level.
    pub fn builder(&self, level: DiagnosticLevel) -> (r: DiagnosticBuilder)
        ensures
            r.is_new(level),
    {
        DiagnosticBuilder::new_in(level)
    }

    pub fn source(&self) -> (r: Source<'source>)
        ensures
            r == self.handle(),
    {
        self.source
    }
}

} // verus!
