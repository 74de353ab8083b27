//! The span capability shared by every AST node kind.
//!
//! A generic span-rewriting pass depends only on this trait, not on the
//! concrete node kinds: each node exposes its current span and accepts a
//! total replacement of it, leaving every other part of the node as it was.

use crate::span::Span;
use vstd::prelude::*;

verus! {

/// Uniform access to an AST node's source span.
pub trait Node: Sized {
    /// The node's current span.
    spec fn span_spec(&self) -> Span;

    /// The same node with its span replaced by `span` and nothing else
    /// changed.
    spec fn with_span(&self, span: Span) -> Self;

    /// Replacing the span sets exactly the span: the rewritten node reads
    /// back the new span.
    proof fn lemma_with_span_sets_span(&self, span: Span)
        ensures
            self.with_span(span).span_spec() == span,
    ;

    /// Returns the node's span.
    fn span(&self) -> (r: &Span)
        ensures
            *r == self.span_spec(),
    ;

    /// Overwrites the node's span with `span`; no other part of the node
    /// changes.
    fn set_span(&mut self, span: Span)
        ensures
            *final(self) == old(self).with_span(span),
    ;
}

} // verus!
