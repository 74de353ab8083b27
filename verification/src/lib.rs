//! A single node kind of a compiler's abstract syntax tree: one formal
//! parameter of a function signature, with its qualifier flags, its declared
//! type, and its source span.
//!
//! The node's three behavioural contracts — structural equality, span
//! access and replacement, and deterministic canonical rendering — are
//! stated as specifications and proved, together with a byte-level
//! encoding that round-trips every node exactly.

pub mod codec;
pub mod function_input;
pub mod identifier;
pub mod node;
pub mod span;
pub mod ty;

pub use codec::DecodeError;
pub use function_input::FunctionInputVariable;
pub use identifier::Identifier;
pub use node::Node;
pub use span::Span;
pub use ty::Type;
