//! Declared types, opaque to the parameter node.
//!
//! The parameter node never inspects the structure of a type: it only
//! stores the type and delegates to the type's own rendering. The node's
//! contracts therefore see a type through the one capability they use,
//! its canonical textual form.

use vstd::prelude::*;

verus! {

/// A declared type, carried by its canonical textual form.
#[derive(Clone, Debug)]
pub struct Type {
    /// The type's own canonical rendering, e.g. `"u32"` or `"field"`.
    pub text: String,
}

impl View for Type {
    type V = Seq<char>;

    open spec fn view(&self) -> Seq<char> {
        self.text@
    }
}

impl PartialEq for Type {
    fn eq(&self, other: &Type) -> (r: bool) {
        self.text == other.text
    }
}

impl vstd::std_specs::cmp::PartialEqSpecImpl for Type {
    open spec fn obeys_eq_spec() -> bool {
        true
    }

    open spec fn eq_spec(&self, other: &Type) -> bool {
        self@ == other@
    }
}

impl Eq for Type {
}

impl Type {
    /// Builds a type value from its canonical textual form.
    pub fn new(text: String) -> (r: Type)
        ensures
            r@ == text@,
    {
        Type { text }
    }

    /// The type's canonical textual form.
    pub fn render(&self) -> (r: String)
        ensures
            r@ == self@,
    {
        self.text.clone()
    }
}

} // verus!
