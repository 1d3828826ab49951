//! A collection of reported diagnostics, either unbounded or holding at most
//! a fixed number of them.
use vstd::prelude::*;
use vstd::std_specs::iter::IteratorSpec;

use crate::context::DiagnosticContext;
use crate::diagnostic::{Diagnostic, IntoDiagnostic};

verus! {

/// Names a diagnostic of a `Diagnostics` collection by its position.
#[derive(Debug, Clone, Copy, PartialEq, Eq, Structural)]
pub struct DiagnosticId(usize);

impl DiagnosticId {
    pub closed spec fn id(self) -> usize {
        self.0
    }

    pub fn index(self) -> (r: usize)
        ensures
            r == self.id(),
    {
        self.0
    }

    /// Two diagnostic ids are equal exactly when their indices are.
    pub proof fn law_equal_by_index(a: DiagnosticId, b: DiagnosticId)
        ensures
            (a == b) <==> (a.id() == b.id()),
    {
    }
}

/// The collection takes any number of diagnostics.
#[derive(Debug)]
pub struct Unbounded;

/// The collection takes at most this many diagnostics.
#[derive(Debug)]
pub struct Bounded(usize);

/// What a collection's mode says about its capacity.
pub trait CapacityMode {
    /// The most diagnostics the collection may hold.
    spec fn capacity(&self) -> nat;
}

impl CapacityMode for Unbounded {
    open spec fn capacity(&self) -> nat {
        usize::MAX as nat
    }
}

impl CapacityMode for Bounded {
    closed spec fn capacity(&self) -> nat {
        self.0 as nat
    }
}

/// Diagnostics in the order they were reported.
#[derive(Debug)]
pub struct Diagnostics<Mode = Unbounded> {
    entries: Vec<Diagnostic>,
    mode: Mode,
}

impl<Mode: CapacityMode> View for Diagnostics<Mode> {
    type V = Seq<Diagnostic>;

    closed spec fn view(&self) -> Seq<Diagnostic> {
        self.entries@
    }
}

impl<Mode: CapacityMode> Diagnostics<Mode> {
    /// The most diagnostics this collection may hold.
    pub closed spec fn limit(&self) -> nat {
        self.mode.capacity()
    }

    /// The collection holds no more than its limit.
    pub open spec fn within_limit(&self) -> bool {
        self@.len() <= self.limit()
    }

    pub fn len(&self) -> (r: usize)
        ensures
            r == self@.len(),
    {
        self.entries.len()
    }

    pub fn is_empty(&self) -> (r: bool)
        ensures
            r == (self@.len() == 0),
    {
        self.entries.len() == 0
    }

    pub fn as_slice(&self) -> (r: &[Diagnostic])
        ensures
            r@ == self@,
    {
        self.entries.as_slice()
    }

    pub fn iter(&self) -> (r: core::slice::Iter<'_, Diagnostic>)
        ensures
            IteratorSpec::remaining(&r) == self@.map_values(|d: Diagnostic| &d),
    {
        let slice = self.entries.as_slice();
        let r = slice.iter();
        proof {
            broadcast use vstd::std_specs::slice::axiom_spec_slice_iter;

            assert(self.entries@.map_values(|d: Diagnostic| &d) =~= slice@.as_ref());
        }
        r
    }

    pub fn into_vec(self) -> (r: Vec<Diagnostic>)
        ensures
            r@ == self@,
    {
        self.entries
    }
}

impl<'a, Mode: CapacityMode> IntoIterator for &'a Diagnostics<Mode> {
    type Item = &'a Diagnostic;

    type IntoIter = core::slice::Iter<'a, Diagnostic>;

    fn into_iter(self) -> (r: core::slice::Iter<'a, Diagnostic>)
        ensures
            IteratorSpec::remaining(&r) == self@.map_values(|d: Diagnostic| &d),
    {
        self.iter()
    }
}

impl Default for Diagnostics<Unbounded> {
    fn default() -> (r: Self)
        ensures
            r@ == Seq::<Diagnostic>::empty(),
    {
        Self::new_in()
    }
}

impl Diagnostics<Unbounded> {
    pub fn new_in() -> (r: Self)
        ensures
            r@ == Seq::<Diagnostic>::empty(),
    {
        Diagnostics { entries: Vec::new(), mode: Unbounded }
    }

    /// An empty collection in the bounded mode, whose limit is the largest
    /// `usize`; it only offers `try_push` and `try_report`.
    pub fn new_bounded_in() -> (r: Diagnostics<Bounded>)
        ensures
            r@ == Seq::<Diagnostic>::empty(),
            r.limit() == usize::MAX,
    {
        Diagnostics { entries: Vec::new(), mode: Bounded(usize::MAX) }
    }

    /// An empty collection that takes at most `limit` diagnostics.
    pub fn with_capacity_in(limit: usize) -> (r: Diagnostics<Bounded>)
        ensures
            r@ == Seq::<Diagnostic>::empty(),
            r.limit() == limit,
    {
        Diagnostics { entries: Vec::with_capacity(limit), mode: Bounded(limit) }
    }

    /// Appends a diagnostic; its id is its position.
    pub fn push(&mut self, diagnostic: Diagnostic) -> (id: DiagnosticId)
        requires
            old(self)@.len() < usize::MAX,
        ensures
            id.id() == old(self)@.len(),
            final(self)@ == old(self)@.push(diagnostic),
    {
        let id = DiagnosticId(self.entries.len());
        self.entries.push(diagnostic);
        id
    }

    /// Builds the diagnostic in the given context and appends it.
    pub fn report<D: IntoDiagnostic>(&mut self, cx: DiagnosticContext<'_>, diagnostic: D) -> (id:
        DiagnosticId)
        requires
            old(self)@.len() < usize::MAX,
        ensures
            id.id() == old(self)@.len(),
            final(self)@.len() == old(self)@.len() + 1,
            final(self)@.take(old(self)@.len() as int) == old(self)@,
            exists|d: Diagnostic|
                call_ensures(D::into_diagnostic, (diagnostic, cx), d) && final(self)@.last() == d,
    {
        let diagnostic = diagnostic.into_diagnostic(cx);
        let id = self.push(diagnostic);
        assert(self@.take(old(self)@.len() as int) =~= old(self)@);
        id
    }
}

impl Diagnostics<Bounded> {
    fn try_reserve_id<E, F: FnOnce(usize) -> E>(&self, on_capacity_exceeded: F) -> (r: Result<
        DiagnosticId,
        E,
    >)
        requires
            self@.len() >= self.limit() ==> call_requires(on_capacity_exceeded, (self.limit() as usize,)),
        ensures
            r is Ok <==> self@.len() < self.limit(),
            r matches Ok(id) ==> id.id() == self@.len(),
            r matches Err(e) ==> call_ensures(on_capacity_exceeded, (self.limit() as usize,), e),
    {
        if self.entries.len() >= self.mode.0 {
            return Err(on_capacity_exceeded(self.mode.0));
        }
        Ok(DiagnosticId(self.entries.len()))
    }

    /// Appends a diagnostic if the collection is not full; otherwise answers
    /// with what `on_capacity_exceeded` makes of the limit.
    pub fn try_push<E, F: FnOnce(usize) -> E>(
        &mut self,
        diagnostic: Diagnostic,
        on_capacity_exceeded: F,
    ) -> (r: Result<DiagnosticId, E>)
        requires
            old(self)@.len() >= old(self).limit() ==> call_requires(
                on_capacity_exceeded,
                (old(self).limit() as usize,),
            ),
        ensures
            final(self).limit() == old(self).limit(),
            r is Ok <==> old(self)@.len() < old(self).limit(),
            r matches Ok(id) ==> id.id() == old(self)@.len() && final(self)@ == old(self)@.push(
                diagnostic,
            ),
            r matches Err(e) ==> final(self)@ == old(self)@ && call_ensures(
                on_capacity_exceeded,
                (old(self).limit() as usize,),
                e,
            ),
            old(self).within_limit() ==> final(self).within_limit(),
    {
        let id = self.try_reserve_id(on_capacity_exceeded)?;
        self.entries.push(diagnostic);
        Ok(id)
    }

    /// Builds the diagnostic and appends it if the collection is not full;
    /// otherwise the diagnostic is not built, and the answer is what
    /// `on_capacity_exceeded` makes of the limit.
    pub fn try_report<E, D: IntoDiagnostic, F: FnOnce(usize) -> E>(
        &mut self,
        cx: DiagnosticContext<'_>,
        diagnostic: D,
        on_capacity_exceeded: F,
    ) -> (r: Result<DiagnosticId, E>)
        requires
            old(self)@.len() >= old(self).limit() ==> call_requires(
                on_capacity_exceeded,
                (old(self).limit() as usize,),
            ),
        ensures
            final(self).limit() == old(self).limit(),
            r is Ok <==> old(self)@.len() < old(self).limit(),
            r matches Ok(id) ==> id.id() == old(self)@.len() && final(self)@.len() == old(self)@.len()
                + 1 && final(self)@.take(old(self)@.len() as int) == old(self)@,
            r is Ok ==> exists|d: Diagnostic|
                call_ensures(D::into_diagnostic, (diagnostic, cx), d) && final(self)@.last() == d,
            r matches Err(e) ==> final(self)@ == old(self)@ && call_ensures(
                on_capacity_exceeded,
                (old(self).limit() as usize,),
                e,
            ),
            old(self).within_limit() ==> final(self).within_limit(),
    {
        let id = self.try_reserve_id(on_capacity_exceeded)?;
        let diagnostic = diagnostic.into_diagnostic(cx);
        self.entries.push(diagnostic);
        assert(self@.take(old(self)@.len() as int) =~= old(self)@);
        Ok(id)
    }
}

} // verus!
