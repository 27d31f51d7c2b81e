//! A compile-time template-expansion engine: a parsed script of static
//! passthrough text, `let` bindings over sets of token sequences, and nested
//! `for` repetition blocks is expanded into one flat output token sequence.
//!
//! The engine is a pure syntactic rewriter. Token sequences compare by
//! structure, never by origin; `let` declarations combine insertion-ordered
//! sets with union and difference; `for` blocks grow the cross-product of
//! their bindings' resolved sets, destructure parenthesized tuples, and
//! substitute each combination into the body, descending through nested
//! groups while keeping every delimiter kind. [`evaluate`] walks the items
//! in declaration order and either returns the whole output or the first
//! error with no output.

use vstd::prelude::*;

pub mod bindings;
pub mod evaluate;
pub mod script;
pub mod sets;
pub mod subst;
pub mod tokens;

pub use bindings::Env;
pub use bindings::ForBindings;
pub use bindings::LetBindings;
pub use evaluate::evaluate;
pub use script::AddOrSub;
pub use script::BindingTerm;
pub use script::DoopBlock;
pub use script::DoopBlockItem;
pub use script::DoopItem;
pub use script::ErrView;
pub use script::EvalError;
pub use script::ForBinding;
pub use script::ForBindingTarget;
pub use script::RestTerm;
pub use sets::TokenSet;
pub use tokens::Delim;
pub use tokens::Tok;
pub use tokens::TokView;
pub use tokens::Tokens;
pub use tokens::tok_eq;
pub use tokens::tok_vec_eq;
pub use tokens::tokens_eq;

verus! {

} // verus!
