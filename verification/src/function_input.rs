//! The AST node for one formal parameter of a function signature.

use crate::identifier::{Identifier, IdentifierView};
use crate::node::Node;
use crate::span::Span;
use crate::ty::Type;
use vstd::prelude::*;
use vstd::string::StringExecFns;

verus! {

/// The abstract value of a [`FunctionInputVariable`]: every field of the
/// node, spans included. Structural equality of nodes is equality of
/// these values.
#[verifier::ext_equal]
pub struct ParamView {
    pub identifier: IdentifierView,
    pub const_: bool,
    pub public: bool,
    pub mutable: bool,
    pub type_: Seq<char>,
    pub span: Span,
}

/// A function parameter: its binding name, its qualifier flags, its
/// declared type, and the source range it covers.
///
/// The node is built once by the parser from exactly these six fields,
/// with no validation or normalisation; only the span is ever rewritten
/// afterwards, through [`Node::set_span`].
#[derive(Clone, Debug)]
pub struct FunctionInputVariable {
    /// The name the parameter is accessible as in the function's body.
    pub identifier: Identifier,
    /// Is it a const parameter?
    pub const_: bool,
    /// Is it a public parameter?
    pub public: bool,
    /// Is it a mutable parameter?
    pub mutable: bool,
    /// The parameter's declared type.
    pub type_: Type,
    /// The parameter's span, from any modifiers through its type.
    pub span: Span,
}

impl View for FunctionInputVariable {
    type V = ParamView;

    open spec fn view(&self) -> ParamView {
        ParamView {
            identifier: self.identifier@,
            const_: self.const_,
            public: self.public,
            mutable: self.mutable,
            type_: self.type_@,
            span: self.span,
        }
    }
}

/// The canonical textual form of a parameter node: the visibility word
/// first (always exactly one of `public` / `private`), then `const` if
/// the parameter is const, then `mut` if it is mutable, then the name,
/// a colon, and the type's own textual form.
pub open spec fn render_spec(v: ParamView) -> Seq<char> {
    (if v.public {
        "public "@
    } else {
        "private "@
    }) + (if v.const_ {
        "const "@
    } else {
        Seq::<char>::empty()
    }) + (if v.mutable {
        "mut "@
    } else {
        Seq::<char>::empty()
    }) + v.identifier.name + ": "@ + v.type_
}

impl PartialEq for FunctionInputVariable {
    fn eq(&self, other: &FunctionInputVariable) -> (r: bool) {
        let r = self.identifier == other.identifier && self.const_ == other.const_
            && self.public == other.public && self.mutable == other.mutable
            && self.type_ == other.type_ && self.span == other.span;
        proof {
            if r {
                assert(self@ =~= other@);
            }
        }
        r
    }
}

impl vstd::std_specs::cmp::PartialEqSpecImpl for FunctionInputVariable {
    open spec fn obeys_eq_spec() -> bool {
        true
    }

    open spec fn eq_spec(&self, other: &FunctionInputVariable) -> bool {
        self@ == other@
    }
}

impl Eq for FunctionInputVariable {
}

impl FunctionInputVariable {
    /// Builds a node from exactly its six fields. Nothing is validated
    /// or normalised — in particular a `const` and `mutable` parameter
    /// is representable; whether it is legal is the semantic analyzer's
    /// concern, not this node's.
    pub fn new(
        identifier: Identifier,
        const_: bool,
        public: bool,
        mutable: bool,
        type_: Type,
        span: Span,
    ) -> (r: FunctionInputVariable)
        ensures
            r@ == (ParamView {
                identifier: identifier@,
                const_,
                public,
                mutable,
                type_: type_@,
                span,
            }),
    {
        FunctionInputVariable { identifier, const_, public, mutable, type_, span }
    }

    /// Renders the node's canonical single-line textual form. The output
    /// is a function of the node's value alone, and the node is left
    /// unchanged (the receiver is only read).
    pub fn render(&self) -> (r: String)
        ensures
            r@ == render_spec(self@),
    {
        let mut out = String::new();
        if self.public {
            out.append("public ");
        } else {
            out.append("private ");
        }
        if self.const_ {
            out.append("const ");
        }
        if self.mutable {
            out.append("mut ");
        }
        out.append(self.identifier.name.as_str());
        out.append(": ");
        out.append(self.type_.text.as_str());
        proof {
            assert(out@ =~= render_spec(self@));
        }
        out
    }
}

impl Node for FunctionInputVariable {
    open spec fn span_spec(&self) -> Span {
        self.span
    }

    open spec fn with_span(&self, span: Span) -> FunctionInputVariable {
        FunctionInputVariable { span, ..*self }
    }

    proof fn lemma_with_span_sets_span(&self, span: Span) {
    }

    fn span(&self) -> (r: &Span) {
        &self.span
    }

    fn set_span(&mut self, span: Span) {
        self.span = span;
    }
}

/// Equality of parameter nodes is reflexive.
pub proof fn lemma_eq_reflexive(a: ParamView)
    ensures
        a == a,
{
}

/// Equality of parameter nodes is symmetric.
pub proof fn lemma_eq_symmetric(a: ParamView, b: ParamView)
    requires
        a == b,
    ensures
        b == a,
{
}

/// Equality of parameter nodes is transitive.
pub proof fn lemma_eq_transitive(a: ParamView, b: ParamView, c: ParamView)
    requires
        a == b,
        b == c,
    ensures
        a == c,
{
}

/// Equality of parameter nodes is exactly field-by-field equality, the
/// span included: it is sensitive to every field, and to no more.
pub proof fn lemma_eq_iff_fields(a: ParamView, b: ParamView)
    ensures
        (a == b) <==> (a.identifier.name == b.identifier.name && a.identifier.span
            == b.identifier.span && a.const_ == b.const_ && a.public == b.public && a.mutable
            == b.mutable && a.type_ == b.type_ && a.span == b.span),
{
    if a.identifier.name == b.identifier.name && a.identifier.span == b.identifier.span && a.const_
        == b.const_ && a.public == b.public && a.mutable == b.mutable && a.type_ == b.type_ && a.span
        == b.span {
        assert(a =~= b);
    }
}

/// Two nodes that agree on every field but the span are unequal: equality
/// does not skip the source location.
pub proof fn lemma_eq_span_sensitive(a: ParamView, b: ParamView)
    requires
        a.identifier == b.identifier,
        a.const_ == b.const_,
        a.public == b.public,
        a.mutable == b.mutable,
        a.type_ == b.type_,
        a.span != b.span,
    ensures
        a != b,
{
}

/// Rendering is deterministic: it depends on the node's value alone, so
/// equal nodes render to the same text.
pub proof fn lemma_render_deterministic(a: ParamView, b: ParamView)
    requires
        a == b,
    ensures
        render_spec(a) == render_spec(b),
{
}

} // verus!
