//! A no-op tracing span facade used where a real tracer is not wired in.
use vstd::prelude::*;

verus! {

/// A tracing span that carries no data.
pub struct Span;

impl Span {
    /// The span of the current context.
    pub fn current() -> (s: Self)
        ensures
            s == Span,
    {
        Span
    }

    /// Enter the span; the guard is another empty span.
    pub fn enter(&self) -> (s: Self)
        ensures
            s == Span,
    {
        Span
    }

    /// Record a field value on the span; nothing is stored and the span itself is returned.
    pub fn record<Q: ?Sized, V: ?Sized>(&self, _field: &Q, _value: &V) -> (r: &Self)
        ensures
            *r == *self,
    {
        self
    }
}

/// Install the tracing subscriber; this facade has nothing to install.
pub fn init() {
}

} // verus!
