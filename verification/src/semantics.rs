//! The functional model of evaluation.
//!
//! `AbsMachine` is the whole observable state of the engine: the operand
//! stack, the dictionary stack with its frame arena, and the text produced by
//! the printing primitives. `eval_tokens` defines what evaluating a token
//! sequence does to that state; `builtin_step` defines every primitive. The
//! executable evaluator (`crate::exec`, `crate::builtin`) is proved to compute
//! these functions.
//!
//! Procedure calls recurse; the model (like the engine) bounds the nesting by
//! a fuel parameter and fails with `PsError::RecursionLimit` when it is
//! exhausted, so that every evaluation is total.

use vstd::prelude::*;

use crate::dict::{dicts_capture, dicts_define, dicts_wf, env_find, AbsDicts};
use crate::error::PsError;
use crate::scope::ScopeMode;
use crate::value::{val_wf, vals_wf, AbsToken, AbsValue};

verus! {

/// The whole observable state of the engine.
#[verifier::ext_equal]
pub struct AbsMachine {
    /// The operand stack, bottom first.
    pub ops: Seq<AbsValue>,
    /// The dictionary stack: frame arena and live handle stack.
    pub dicts: AbsDicts,
    /// Everything the printing primitives have produced, in order.
    pub out: Seq<char>,
}

/// The result of an evaluation: the state it reached, and the error that
/// stopped it if one did. A failing primitive has not touched the state
/// (validate before mutating); a failure inside a procedure body keeps the
/// effects of the tokens already evaluated.
#[verifier::ext_equal]
pub enum Outcome {
    Done(AbsMachine),
    Fail(AbsMachine, PsError),
}

/// Machine well-formedness: the dictionary stack is well-formed and every
/// value on the operand stack points only into the arena.
pub open spec fn machine_wf(m: AbsMachine) -> bool {
    &&& dicts_wf(m.dicts)
    &&& vals_wf(m.ops, m.dicts.heap.len())
}

/// The machine with `v` pushed onto the operand stack.
pub open spec fn push_val(m: AbsMachine, v: AbsValue) -> AbsMachine {
    AbsMachine { ops: m.ops.push(v), ..m }
}

/// The machine with the top `n` operands removed.
pub open spec fn drop_ops(m: AbsMachine, n: int) -> AbsMachine {
    AbsMachine { ops: m.ops.subrange(0, m.ops.len() - n), ..m }
}

/// The magnitude of an integer.
pub open spec fn abs_of(a: int) -> int {
    if a < 0 {
        -a
    } else {
        a
    }
}

/// Division truncating toward zero, as the machine's integer division does.
pub open spec fn trunc_div(a: int, b: int) -> int {
    let q = abs_of(a) / abs_of(b);
    if (a < 0) != (b < 0) {
        -q
    } else {
        q
    }
}

/// The remainder matching `trunc_div`: it carries the sign of the dividend.
pub open spec fn trunc_mod(a: int, b: int) -> int {
    let r = abs_of(a) % abs_of(b);
    if a < 0 {
        -r
    } else {
        r
    }
}

/// The binary arithmetic primitives.
#[derive(Clone, Copy, Debug, PartialEq, Eq, Structural)]
pub enum ArithOp {
    Add,
    Sub,
    Mul,
    Div,
    Mod,
}

/// The mathematical result of a binary arithmetic primitive; `None` for a
/// zero divisor.
pub open spec fn arith_result(op: ArithOp, x: int, y: int) -> Option<int> {
    match op {
        ArithOp::Add => Option::Some(x + y),
        ArithOp::Sub => Option::Some(x - y),
        ArithOp::Mul => Option::Some(x * y),
        ArithOp::Div => if y == 0 {
            Option::None
        } else {
            Option::Some(trunc_div(x, y))
        },
        ArithOp::Mod => if y == 0 {
            Option::None
        } else {
            Option::Some(trunc_mod(x, y))
        },
    }
}

/// A binary arithmetic primitive: consumes two integers, produces the
/// mathematical result. It underflows on fewer than two operands, rejects
/// non-integer operands, and reports a range error for a zero divisor or a
/// result that does not fit the integer value type.
pub open spec fn step_arith(m: AbsMachine, op: ArithOp) -> Outcome {
    if m.ops.len() < 2 {
        Outcome::Fail(m, PsError::StackUnderflow)
    } else {
        let a = m.ops[m.ops.len() - 2];
        let b = m.ops.last();
        match (a, b) {
            (AbsValue::Int(x), AbsValue::Int(y)) => match arith_result(op, x, y) {
                Option::None => Outcome::Fail(m, PsError::RangeError),
                Option::Some(res) => if i32::MIN <= res <= i32::MAX {
                    Outcome::Done(push_val(drop_ops(m, 2), AbsValue::Int(res)))
                } else {
                    Outcome::Fail(m, PsError::RangeError)
                },
            },
            _ => Outcome::Fail(m, PsError::TypeError),
        }
    }
}

/// Equality of two operands, where it is defined: on two integers, two
/// booleans or two strings.
pub open spec fn vals_eq_ok(a: AbsValue, b: AbsValue) -> Option<bool> {
    match (a, b) {
        (AbsValue::Int(x), AbsValue::Int(y)) => Option::Some(x == y),
        (AbsValue::Bool(x), AbsValue::Bool(y)) => Option::Some(x == y),
        (AbsValue::Str(x), AbsValue::Str(y)) => Option::Some(x == y),
        _ => Option::None,
    }
}

/// The equality primitives: `negate` distinguishes inequality.
pub open spec fn step_eq(m: AbsMachine, negate: bool) -> Outcome {
    if m.ops.len() < 2 {
        Outcome::Fail(m, PsError::StackUnderflow)
    } else {
        match vals_eq_ok(m.ops[m.ops.len() - 2], m.ops.last()) {
            Option::None => Outcome::Fail(m, PsError::TypeError),
            Option::Some(e) => Outcome::Done(
                push_val(drop_ops(m, 2), AbsValue::Bool(e != negate)),
            ),
        }
    }
}

/// The ordering primitives on two integers: `strict_greater` selects between
/// greater-than and less-than.
pub open spec fn step_cmp(m: AbsMachine, strict_greater: bool) -> Outcome {
    if m.ops.len() < 2 {
        Outcome::Fail(m, PsError::StackUnderflow)
    } else {
        match (m.ops[m.ops.len() - 2], m.ops.last()) {
            (AbsValue::Int(x), AbsValue::Int(y)) => Outcome::Done(
                push_val(
                    drop_ops(m, 2),
                    AbsValue::Bool(
                        if strict_greater {
                            x > y
                        } else {
                            x < y
                        },
                    ),
                ),
            ),
            _ => Outcome::Fail(m, PsError::TypeError),
        }
    }
}

/// The binary boolean primitives: `is_or` selects between disjunction and
/// conjunction.
pub open spec fn step_bool(m: AbsMachine, is_or: bool) -> Outcome {
    if m.ops.len() < 2 {
        Outcome::Fail(m, PsError::StackUnderflow)
    } else {
        match (m.ops[m.ops.len() - 2], m.ops.last()) {
            (AbsValue::Bool(x), AbsValue::Bool(y)) => Outcome::Done(
                push_val(
                    drop_ops(m, 2),
                    AbsValue::Bool(
                        if is_or {
                            x || y
                        } else {
                            x && y
                        },
                    ),
                ),
            ),
            _ => Outcome::Fail(m, PsError::TypeError),
        }
    }
}

/// Boolean negation of the top operand.
pub open spec fn step_not(m: AbsMachine) -> Outcome {
    if m.ops.len() < 1 {
        Outcome::Fail(m, PsError::StackUnderflow)
    } else {
        match m.ops.last() {
            AbsValue::Bool(x) => Outcome::Done(push_val(drop_ops(m, 1), AbsValue::Bool(!x))),
            _ => Outcome::Fail(m, PsError::TypeError),
        }
    }
}

/// Duplicates the top operand.
pub open spec fn step_dup(m: AbsMachine) -> Outcome {
    if m.ops.len() < 1 {
        Outcome::Fail(m, PsError::StackUnderflow)
    } else {
        Outcome::Done(push_val(m, m.ops.last()))
    }
}

/// Swaps the top two operands.
pub open spec fn step_exch(m: AbsMachine) -> Outcome {
    if m.ops.len() < 2 {
        Outcome::Fail(m, PsError::StackUnderflow)
    } else {
        let a = m.ops[m.ops.len() - 2];
        let b = m.ops.last();
        Outcome::Done(push_val(push_val(drop_ops(m, 2), b), a))
    }
}

/// Removes the top operand.
pub open spec fn step_pop(m: AbsMachine) -> Outcome {
    if m.ops.len() < 1 {
        Outcome::Fail(m, PsError::StackUnderflow)
    } else {
        Outcome::Done(drop_ops(m, 1))
    }
}

/// Removes every operand.
pub open spec fn step_clear(m: AbsMachine) -> Outcome {
    Outcome::Done(AbsMachine { ops: Seq::empty(), ..m })
}

/// Pushes the number of operands.
pub open spec fn step_count(m: AbsMachine) -> Outcome {
    if m.ops.len() <= i32::MAX {
        Outcome::Done(push_val(m, AbsValue::Int(m.ops.len() as int)))
    } else {
        Outcome::Fail(m, PsError::RangeError)
    }
}

/// Consumes a count `n` and pushes copies of the `n` operands beneath it, in
/// order.
pub open spec fn step_copy(m: AbsMachine) -> Outcome {
    if m.ops.len() < 1 {
        Outcome::Fail(m, PsError::StackUnderflow)
    } else {
        match m.ops.last() {
            AbsValue::Int(n) => if n < 0 {
                Outcome::Fail(m, PsError::RangeError)
            } else {
                let rest = m.ops.drop_last();
                if n > rest.len() {
                    Outcome::Fail(m, PsError::StackUnderflow)
                } else {
                    Outcome::Done(
                        AbsMachine { ops: rest + rest.skip(rest.len() - n), ..m },
                    )
                }
            },
            _ => Outcome::Fail(m, PsError::TypeError),
        }
    }
}

/// Consumes a non-negative capacity and pushes a fresh empty dictionary. The
/// capacity is only validated: frames grow as needed.
pub open spec fn step_dict(m: AbsMachine) -> Outcome {
    if m.ops.len() < 1 {
        Outcome::Fail(m, PsError::StackUnderflow)
    } else {
        match m.ops.last() {
            AbsValue::Int(n) => if n < 0 {
                Outcome::Fail(m, PsError::RangeError)
            } else {
                Outcome::Done(
                    AbsMachine {
                        ops: m.ops.drop_last().push(AbsValue::Dict(m.dicts.heap.len())),
                        dicts: AbsDicts {
                            heap: m.dicts.heap.push(Seq::empty()),
                            live: m.dicts.live,
                        },
                        out: m.out,
                    },
                )
            },
            _ => Outcome::Fail(m, PsError::TypeError),
        }
    }
}

/// Consumes a dictionary and opens it as the new top scope frame.
pub open spec fn step_begin(m: AbsMachine) -> Outcome {
    if m.ops.len() < 1 {
        Outcome::Fail(m, PsError::StackUnderflow)
    } else {
        match m.ops.last() {
            AbsValue::Dict(h) => if h < m.dicts.heap.len() {
                Outcome::Done(
                    AbsMachine {
                        ops: m.ops.drop_last(),
                        dicts: AbsDicts { heap: m.dicts.heap, live: m.dicts.live.push(h) },
                        out: m.out,
                    },
                )
            } else {
                Outcome::Fail(m, PsError::RangeError)
            },
            _ => Outcome::Fail(m, PsError::TypeError),
        }
    }
}

/// Closes the top scope frame; the global frame is never removable.
pub open spec fn step_end(m: AbsMachine) -> Outcome {
    if m.dicts.live.len() <= 1 {
        Outcome::Fail(m, PsError::ScopeError)
    } else {
        Outcome::Done(
            AbsMachine {
                ops: m.ops,
                dicts: AbsDicts { heap: m.dicts.heap, live: m.dicts.live.drop_last() },
                out: m.out,
            },
        )
    }
}

/// Consumes a string or dictionary and pushes its length: the character
/// count of a string, the number of bindings of a dictionary.
pub open spec fn step_length(m: AbsMachine) -> Outcome {
    if m.ops.len() < 1 {
        Outcome::Fail(m, PsError::StackUnderflow)
    } else {
        match m.ops.last() {
            AbsValue::Str(s) => if s.len() <= i32::MAX {
                Outcome::Done(push_val(drop_ops(m, 1), AbsValue::Int(s.len() as int)))
            } else {
                Outcome::Fail(m, PsError::RangeError)
            },
            AbsValue::Dict(h) => if h < m.dicts.heap.len() {
                if m.dicts.heap[h as int].len() <= i32::MAX {
                    Outcome::Done(
                        push_val(
                            drop_ops(m, 1),
                            AbsValue::Int(m.dicts.heap[h as int].len() as int),
                        ),
                    )
                } else {
                    Outcome::Fail(m, PsError::RangeError)
                }
            } else {
                Outcome::Fail(m, PsError::RangeError)
            },
            _ => Outcome::Fail(m, PsError::TypeError),
        }
    }
}

/// The pivotal definition primitive: consumes a value and the name literal
/// beneath it and binds the name in the top frame. If the value is a
/// procedure and the engine resolves names lexically, the procedure is stored
/// with a full, independently owned snapshot of the current environment as
/// its captured environment; under dynamic scoping the value is stored
/// exactly as given.
pub open spec fn step_def(m: AbsMachine, mode: ScopeMode) -> Outcome {
    if m.ops.len() < 2 {
        Outcome::Fail(m, PsError::StackUnderflow)
    } else {
        match m.ops[m.ops.len() - 2] {
            AbsValue::Name(n) => {
                let value = m.ops.last();
                match (mode, value) {
                    (ScopeMode::Lexical, AbsValue::Procedure(body, _)) => {
                        let (d2, captured) = dicts_capture(m.dicts);
                        let stored = AbsValue::Procedure(body, Option::Some(captured));
                        Outcome::Done(
                            AbsMachine {
                                ops: m.ops.subrange(0, m.ops.len() - 2),
                                dicts: dicts_define(d2, n, stored),
                                out: m.out,
                            },
                        )
                    },
                    _ => Outcome::Done(
                        AbsMachine {
                            ops: m.ops.subrange(0, m.ops.len() - 2),
                            dicts: dicts_define(m.dicts, n, value),
                            out: m.out,
                        },
                    ),
                }
            },
            _ => Outcome::Fail(m, PsError::TypeError),
        }
    }
}

/// Consumes an index and a string and pushes the character code at that
/// index.
pub open spec fn step_get(m: AbsMachine) -> Outcome {
    if m.ops.len() < 2 {
        Outcome::Fail(m, PsError::StackUnderflow)
    } else {
        match m.ops.last() {
            AbsValue::Int(i) => if i < 0 {
                Outcome::Fail(m, PsError::RangeError)
            } else {
                match m.ops[m.ops.len() - 2] {
                    AbsValue::Str(s) => if i >= s.len() {
                        Outcome::Fail(m, PsError::RangeError)
                    } else {
                        Outcome::Done(
                            push_val(drop_ops(m, 2), AbsValue::Int(s[i] as u32 as int)),
                        )
                    },
                    _ => Outcome::Fail(m, PsError::TypeError),
                }
            },
            _ => Outcome::Fail(m, PsError::TypeError),
        }
    }
}

/// Consumes a count, an index and a string and pushes the substring of that
/// extent.
pub open spec fn step_getinterval(m: AbsMachine) -> Outcome {
    if m.ops.len() < 3 {
        Outcome::Fail(m, PsError::StackUnderflow)
    } else {
        match m.ops.last() {
            AbsValue::Int(cnt) => if cnt < 0 {
                Outcome::Fail(m, PsError::RangeError)
            } else {
                match m.ops[m.ops.len() - 2] {
                    AbsValue::Int(idx) => if idx < 0 {
                        Outcome::Fail(m, PsError::RangeError)
                    } else {
                        match m.ops[m.ops.len() - 3] {
                            AbsValue::Str(s) => if idx + cnt > s.len() {
                                Outcome::Fail(m, PsError::RangeError)
                            } else {
                                Outcome::Done(
                                    push_val(
                                        drop_ops(m, 3),
                                        AbsValue::Str(s.subrange(idx, idx + cnt)),
                                    ),
                                )
                            },
                            _ => Outcome::Fail(m, PsError::TypeError),
                        }
                    },
                    _ => Outcome::Fail(m, PsError::TypeError),
                }
            },
            _ => Outcome::Fail(m, PsError::TypeError),
        }
    }
}

/// The target string with the source overlaid starting at `idx`.
pub open spec fn overlay(target: Seq<char>, idx: int, source: Seq<char>) -> Seq<char> {
    Seq::new(
        target.len(),
        |i: int|
            if idx <= i < idx + source.len() {
                source[i - idx]
            } else {
                target[i]
            },
    )
}

/// Consumes a source string, an index and a target string and pushes the
/// target with the source written over it in place, within bounds.
pub open spec fn step_putinterval(m: AbsMachine) -> Outcome {
    if m.ops.len() < 3 {
        Outcome::Fail(m, PsError::StackUnderflow)
    } else {
        match m.ops.last() {
            AbsValue::Str(src) => {
                match m.ops[m.ops.len() - 2] {
                    AbsValue::Int(idx) => if idx < 0 {
                        Outcome::Fail(m, PsError::RangeError)
                    } else {
                        match m.ops[m.ops.len() - 3] {
                            AbsValue::Str(tgt) => if idx + src.len() > tgt.len() {
                                Outcome::Fail(m, PsError::RangeError)
                            } else {
                                Outcome::Done(
                                    push_val(
                                        drop_ops(m, 3),
                                        AbsValue::Str(overlay(tgt, idx, src)),
                                    ),
                                )
                            },
                            _ => Outcome::Fail(m, PsError::TypeError),
                        }
                    },
                    _ => Outcome::Fail(m, PsError::TypeError),
                }
            },
            _ => Outcome::Fail(m, PsError::TypeError),
        }
    }
}

/// The decimal digits of a non-negative number.
pub open spec fn dec_digits(n: int) -> Seq<char>
    decreases n,
{
    if n < 10 {
        seq![((48 + (if n >= 0 { n } else { 0 })) as u8) as char]
    } else {
        dec_digits(n / 10).push(((48 + n % 10) as u8) as char)
    }
}

/// The decimal text of an integer.
pub open spec fn int_text(i: int) -> Seq<char> {
    if i < 0 {
        seq!['-'] + dec_digits(-i)
    } else {
        dec_digits(i)
    }
}

/// The text form a value prints as.
pub open spec fn val_text(v: AbsValue) -> Seq<char> {
    match v {
        AbsValue::Int(i) => int_text(i),
        AbsValue::Real(lexeme) => lexeme,
        AbsValue::Bool(b) => if b {
            "true"@
        } else {
            "false"@
        },
        AbsValue::Str(s) => s,
        AbsValue::Name(n) => n,
        AbsValue::Dict(_) => "--nostringval--"@,
        AbsValue::Procedure(_, _) => "--nostringval--"@,
    }
}

/// The syntactic form a value prints as: strings keep their parentheses and
/// names their prefix.
pub open spec fn val_syntax(v: AbsValue) -> Seq<char> {
    match v {
        AbsValue::Str(s) => seq!['('] + s + seq![')'],
        AbsValue::Name(n) => seq!['/'] + n,
        _ => val_text(v),
    }
}

/// Consumes a string and appends its characters to the output, with no
/// newline.
pub open spec fn step_print(m: AbsMachine) -> Outcome {
    if m.ops.len() < 1 {
        Outcome::Fail(m, PsError::StackUnderflow)
    } else {
        match m.ops.last() {
            AbsValue::Str(s) => Outcome::Done(
                AbsMachine { ops: m.ops.drop_last(), dicts: m.dicts, out: m.out + s },
            ),
            _ => Outcome::Fail(m, PsError::TypeError),
        }
    }
}

/// Consumes any value and appends its text (`syntactic` selects the
/// syntactic form) and a newline to the output.
pub open spec fn step_report(m: AbsMachine, syntactic: bool) -> Outcome {
    if m.ops.len() < 1 {
        Outcome::Fail(m, PsError::StackUnderflow)
    } else {
        let text = if syntactic {
            val_syntax(m.ops.last())
        } else {
            val_text(m.ops.last())
        };
        Outcome::Done(
            AbsMachine {
                ops: m.ops.drop_last(),
                dicts: m.dicts,
                out: m.out + text + seq!['\n'],
            },
        )
    }
}

/// The remaining-iteration measure of a counted loop, used only for
/// termination of the model.
pub open spec fn for_measure(i: int, step: int, limit: int) -> int {
    if step > 0 {
        limit - i + step
    } else {
        i - limit - step
    }
}

/// What evaluating a token sequence does: literals are pushed unchanged, and
/// executable names are dispatched first to the primitives and then to the
/// environment. The first error is terminal.
pub open spec fn eval_tokens(
    m: AbsMachine,
    toks: Seq<AbsToken>,
    denv: Option<Seq<nat>>,
    mode: ScopeMode,
    fuel: nat,
) -> Outcome
    decreases fuel, 3nat, toks.len(),
{
    if toks.len() == 0 {
        Outcome::Done(m)
    } else {
        let first = match toks[0] {
            AbsToken::Literal(v) => Outcome::Done(push_val(m, v)),
            AbsToken::ExecName(n) => eval_name(m, n, denv, mode, fuel),
        };
        match first {
            Outcome::Done(m2) => eval_tokens(m2, toks.drop_first(), denv, mode, fuel),
            Outcome::Fail(m2, e) => Outcome::Fail(m2, e),
        }
    }
}

/// One executable name: a primitive if one answers to it; otherwise resolved
/// against the live environment (dynamic scoping) or against the defining
/// environment where one was captured (lexical scoping). A resolved procedure
/// is evaluated recursively under its own captured environment; any other
/// resolved value is pushed; an unresolved name is fatal.
pub open spec fn eval_name(
    m: AbsMachine,
    n: Seq<char>,
    denv: Option<Seq<nat>>,
    mode: ScopeMode,
    fuel: nat,
) -> Outcome
    decreases fuel, 2nat, 0nat,
{
    match builtin_step(m, n, mode, fuel) {
        Option::Some(o) => o,
        Option::None => {
            let resolved = if mode == ScopeMode::Dynamic {
                env_find(m.dicts.heap, m.dicts.live, n)
            } else {
                match denv {
                    Option::Some(e) => env_find(m.dicts.heap, e, n),
                    Option::None => env_find(m.dicts.heap, m.dicts.live, n),
                }
            };
            match resolved {
                Option::None => Outcome::Fail(m, PsError::UndefinedName),
                Option::Some(AbsValue::Procedure(body, cap)) => if fuel == 0 {
                    Outcome::Fail(m, PsError::RecursionLimit)
                } else {
                    eval_tokens(m, body, cap, mode, (fuel - 1) as nat)
                },
                Option::Some(v) => Outcome::Done(push_val(m, v)),
            }
        },
    }
}

/// A counted repetition of a procedure body.
pub open spec fn run_repeat(
    m: AbsMachine,
    body: Seq<AbsToken>,
    cap: Option<Seq<nat>>,
    cnt: nat,
    mode: ScopeMode,
    fuel: nat,
) -> Outcome
    decreases fuel, 0nat, cnt,
{
    if cnt == 0 {
        Outcome::Done(m)
    } else if fuel == 0 {
        Outcome::Fail(m, PsError::RecursionLimit)
    } else {
        match eval_tokens(m, body, cap, mode, (fuel - 1) as nat) {
            Outcome::Done(m2) => run_repeat(m2, body, cap, (cnt - 1) as nat, mode, fuel),
            Outcome::Fail(m2, e) => Outcome::Fail(m2, e),
        }
    }
}

/// A counted loop: pushes the control value, runs the body, advances by the
/// increment, until the control value passes the limit.
pub open spec fn run_for(
    m: AbsMachine,
    body: Seq<AbsToken>,
    cap: Option<Seq<nat>>,
    i: int,
    step: int,
    limit: int,
    mode: ScopeMode,
    fuel: nat,
) -> Outcome
    decreases fuel, 0nat, for_measure(i, step, limit),
{
    if step == 0 || (step > 0 && i > limit) || (step < 0 && i < limit) {
        Outcome::Done(m)
    } else if fuel == 0 {
        Outcome::Fail(m, PsError::RecursionLimit)
    } else {
        match eval_tokens(push_val(m, AbsValue::Int(i)), body, cap, mode, (fuel - 1) as nat) {
            Outcome::Done(m2) => run_for(m2, body, cap, i + step, step, limit, mode, fuel),
            Outcome::Fail(m2, e) => Outcome::Fail(m2, e),
        }
    }
}

/// The primitive dispatch table: what each built-in name does, or `None` for
/// a name that is no primitive. The conditional and looping primitives
/// evaluate procedure bodies by recursion into `eval_tokens`, passing each
/// body's own captured environment.
pub open spec fn builtin_step(m: AbsMachine, n: Seq<char>, mode: ScopeMode, fuel: nat) -> Option<
    Outcome,
>
    decreases fuel, 1nat, 1nat,
{
    if n == "add"@ {
        Option::Some(step_arith(m, ArithOp::Add))
    } else if n == "sub"@ {
        Option::Some(step_arith(m, ArithOp::Sub))
    } else if n == "mul"@ {
        Option::Some(step_arith(m, ArithOp::Mul))
    } else if n == "div"@ {
        Option::Some(step_arith(m, ArithOp::Div))
    } else if n == "mod"@ {
        Option::Some(step_arith(m, ArithOp::Mod))
    } else if n == "dup"@ {
        Option::Some(step_dup(m))
    } else if n == "exch"@ {
        Option::Some(step_exch(m))
    } else if n == "copy"@ {
        Option::Some(step_copy(m))
    } else if n == "pop"@ {
        Option::Some(step_pop(m))
    } else if n == "count"@ {
        Option::Some(step_count(m))
    } else if n == "clear"@ {
        Option::Some(step_clear(m))
    } else if n == "dict"@ {
        Option::Some(step_dict(m))
    } else if n == "begin"@ {
        Option::Some(step_begin(m))
    } else if n == "end"@ {
        Option::Some(step_end(m))
    } else if n == "length"@ {
        Option::Some(step_length(m))
    } else if n == "def"@ {
        Option::Some(step_def(m, mode))
    } else if n == "get"@ {
        Option::Some(step_get(m))
    } else if n == "getinterval"@ {
        Option::Some(step_getinterval(m))
    } else if n == "putinterval"@ {
        Option::Some(step_putinterval(m))
    } else if n == "eq"@ {
        Option::Some(step_eq(m, false))
    } else if n == "ne"@ {
        Option::Some(step_eq(m, true))
    } else if n == "gt"@ {
        Option::Some(step_cmp(m, true))
    } else if n == "lt"@ {
        Option::Some(step_cmp(m, false))
    } else if n == "and"@ {
        Option::Some(step_bool(m, false))
    } else if n == "or"@ {
        Option::Some(step_bool(m, true))
    } else if n == "not"@ {
        Option::Some(step_not(m))
    } else if n == "print"@ {
        Option::Some(step_print(m))
    } else if n == "="@ {
        Option::Some(step_report(m, false))
    } else if n == "=="@ {
        Option::Some(step_report(m, true))
    } else if n == "if"@ {
        Option::Some(step_if(m, mode, fuel))
    } else if n == "ifelse"@ {
        Option::Some(step_ifelse(m, mode, fuel))
    } else if n == "repeat"@ {
        Option::Some(step_repeat(m, mode, fuel))
    } else if n == "for"@ {
        Option::Some(step_for(m, mode, fuel))
    } else {
        Option::None
    }
}

/// The conditional: consumes a procedure and the boolean beneath it and
/// evaluates the body exactly when the boolean is true, under the body's own
/// captured environment.
pub open spec fn step_if(m: AbsMachine, mode: ScopeMode, fuel: nat) -> Outcome
    decreases fuel, 1nat, 0nat,
{
    if m.ops.len() < 2 {
        Outcome::Fail(m, PsError::StackUnderflow)
    } else {
        match (m.ops[m.ops.len() - 2], m.ops.last()) {
            (AbsValue::Bool(c), AbsValue::Procedure(body, cap)) => {
                let m2 = drop_ops(m, 2);
                if c {
                    if fuel == 0 {
                        Outcome::Fail(m2, PsError::RecursionLimit)
                    } else {
                        eval_tokens(m2, body, cap, mode, (fuel - 1) as nat)
                    }
                } else {
                    Outcome::Done(m2)
                }
            },
            _ => Outcome::Fail(m, PsError::TypeError),
        }
    }
}

/// The two-branch conditional: consumes two procedures and the boolean
/// beneath them and evaluates the first body when the boolean is true, the
/// second otherwise.
pub open spec fn step_ifelse(m: AbsMachine, mode: ScopeMode, fuel: nat) -> Outcome
    decreases fuel, 1nat, 0nat,
{
    if m.ops.len() < 3 {
        Outcome::Fail(m, PsError::StackUnderflow)
    } else {
        match (m.ops[m.ops.len() - 3], m.ops[m.ops.len() - 2], m.ops.last()) {
            (
                AbsValue::Bool(c),
                AbsValue::Procedure(body1, cap1),
                AbsValue::Procedure(body2, cap2),
            ) => {
                let m2 = drop_ops(m, 3);
                if fuel == 0 {
                    Outcome::Fail(m2, PsError::RecursionLimit)
                } else if c {
                    eval_tokens(m2, body1, cap1, mode, (fuel - 1) as nat)
                } else {
                    eval_tokens(m2, body2, cap2, mode, (fuel - 1) as nat)
                }
            },
            _ => Outcome::Fail(m, PsError::TypeError),
        }
    }
}

/// The counted repetition: consumes a procedure and the non-negative count
/// beneath it and evaluates the body that many times.
pub open spec fn step_repeat(m: AbsMachine, mode: ScopeMode, fuel: nat) -> Outcome
    decreases fuel, 1nat, 0nat,
{
    if m.ops.len() < 2 {
        Outcome::Fail(m, PsError::StackUnderflow)
    } else {
        match (m.ops[m.ops.len() - 2], m.ops.last()) {
            (AbsValue::Int(cnt), AbsValue::Procedure(body, cap)) => if cnt < 0 {
                Outcome::Fail(m, PsError::RangeError)
            } else {
                run_repeat(drop_ops(m, 2), body, cap, cnt as nat, mode, fuel)
            },
            _ => Outcome::Fail(m, PsError::TypeError),
        }
    }
}

/// The counted loop: consumes a procedure, a limit, a non-zero increment and
/// an initial control value, and evaluates the body with the control value
/// pushed, advancing by the increment until it passes the limit.
pub open spec fn step_for(m: AbsMachine, mode: ScopeMode, fuel: nat) -> Outcome
    decreases fuel, 1nat, 0nat,
{
    if m.ops.len() < 4 {
        Outcome::Fail(m, PsError::StackUnderflow)
    } else {
        match (
            m.ops[m.ops.len() - 4],
            m.ops[m.ops.len() - 3],
            m.ops[m.ops.len() - 2],
            m.ops.last(),
        ) {
            (
                AbsValue::Int(i0),
                AbsValue::Int(step),
                AbsValue::Int(limit),
                AbsValue::Procedure(body, cap),
            ) => if step == 0 {
                Outcome::Fail(m, PsError::RangeError)
            } else {
                run_for(drop_ops(m, 4), body, cap, i0 as int, step as int, limit as int, mode, fuel)
            },
            _ => Outcome::Fail(m, PsError::TypeError),
        }
    }
}

/// How an executable step reports an outcome: the state it left behind and
/// the `Result` it returned.
pub open spec fn outcome_matches(o: Outcome, m2: AbsMachine, r: Result<(), PsError>) -> bool {
    match o {
        Outcome::Done(m) => r == Result::<(), PsError>::Ok(()) && m2 == m,
        Outcome::Fail(m, e) => r == Result::<(), PsError>::Err(e) && m2 == m,
    }
}

} // verus!
