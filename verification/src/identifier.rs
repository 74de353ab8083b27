//! Named binding occurrences: a name together with its own source span.

use crate::span::Span;
use vstd::prelude::*;

verus! {

/// The abstract value of an [`Identifier`]: its name as a character
/// sequence, and its span.
pub struct IdentifierView {
    pub name: Seq<char>,
    pub span: Span,
}

/// A named binding occurrence, as it appears in source text.
#[derive(Clone, Debug)]
pub struct Identifier {
    /// The name itself.
    pub name: String,
    /// The textual extent of the name.
    pub span: Span,
}

impl View for Identifier {
    type V = IdentifierView;

    open spec fn view(&self) -> IdentifierView {
        IdentifierView { name: self.name@, span: self.span }
    }
}

impl PartialEq for Identifier {
    fn eq(&self, other: &Identifier) -> (r: bool) {
        self.name == other.name && self.span == other.span
    }
}

impl vstd::std_specs::cmp::PartialEqSpecImpl for Identifier {
    open spec fn obeys_eq_spec() -> bool {
        true
    }

    open spec fn eq_spec(&self, other: &Identifier) -> bool {
        self@ == other@
    }
}

impl Eq for Identifier {
}

impl Identifier {
    /// Builds an identifier from its name and span.
    pub fn new(name: String, span: Span) -> (r: Identifier)
        ensures
            r@ == (IdentifierView { name: name@, span }),
    {
        Identifier { name, span }
    }

    /// The canonical textual form of an identifier: its name.
    pub fn render(&self) -> (r: String)
        ensures
            r@ == self@.name,
    {
        self.name.clone()
    }
}

} // verus!
