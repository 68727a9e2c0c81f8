//! The two name-resolution disciplines of the engine.

use vstd::prelude::*;

verus! {

/// Which frame sequence an executable name is resolved against.
///
/// Under `Dynamic` scoping every name is looked up in the live dictionary
/// stack at call time. Under `Lexical` scoping a procedure body is resolved
/// against the environment captured when the procedure was bound to its name;
/// a body with no captured environment falls back to the live stack.
#[derive(Copy, Clone, Debug, PartialEq, Eq, Structural)]
pub enum ScopeMode {
    Dynamic,
    Lexical,
}

} // verus!
