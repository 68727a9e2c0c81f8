//! The error taxonomy of the execution engine.

use vstd::prelude::*;

verus! {

/// Every way an evaluation can fail.
///
/// Each variant is terminal to the current evaluation and propagates up
/// through every enclosing recursive call; there is no local recovery.
#[derive(Clone, Copy, Debug, PartialEq, Eq, Structural)]
pub enum PsError {
    /// Malformed source text: an unmatched brace or parenthesis.
    SyntaxError,
    /// A pop, peek or n-ary primitive found too few operands.
    StackUnderflow,
    /// A primitive was invoked on operands of the wrong value kind.
    TypeError,
    /// An executable name resolved to neither a primitive nor a binding.
    UndefinedName,
    /// An attempt to close the sole remaining frame of the environment.
    ScopeError,
    /// An index, interval, count or arithmetic bounds violation.
    RangeError,
    /// The procedure-call nesting exceeded the engine's depth budget.
    RecursionLimit,
}

impl PsError {
    /// A short human-readable description, for display by an embedding shell.
    pub fn describe(&self) -> (r: &'static str)
        ensures
            r@ == describe_error(*self),
    {
        proof {
            reveal_strlit("syntax error: unmatched delimiter");
            reveal_strlit("operand stack underflow");
            reveal_strlit("type error");
            reveal_strlit("undefined name");
            reveal_strlit("cannot close the global scope");
            reveal_strlit("range error");
            reveal_strlit("recursion limit exceeded");
        }
        match self {
            PsError::SyntaxError => "syntax error: unmatched delimiter",
            PsError::StackUnderflow => "operand stack underflow",
            PsError::TypeError => "type error",
            PsError::UndefinedName => "undefined name",
            PsError::ScopeError => "cannot close the global scope",
            PsError::RangeError => "range error",
            PsError::RecursionLimit => "recursion limit exceeded",
        }
    }
}

/// The description promised by `PsError::describe`.
pub open spec fn describe_error(e: PsError) -> Seq<char> {
    match e {
        PsError::SyntaxError => "syntax error: unmatched delimiter"@,
        PsError::StackUnderflow => "operand stack underflow"@,
        PsError::TypeError => "type error"@,
        PsError::UndefinedName => "undefined name"@,
        PsError::ScopeError => "cannot close the global scope"@,
        PsError::RangeError => "range error"@,
        PsError::RecursionLimit => "recursion limit exceeded"@,
    }
}

} // verus!
