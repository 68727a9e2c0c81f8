//! Laws of the engine: properties that relate several operations, stated
//! over the same models the operations' own contracts use.

use vstd::prelude::*;

use crate::dict::{dicts_wf, env_find, AbsDicts};
use crate::error::PsError;
use crate::scope::ScopeMode;
use crate::semantics::{
    arith_result, builtin_step, eval_name, push_val, step_arith, AbsMachine, ArithOp, Outcome,
};
use crate::value::AbsValue;

verus! {

/// The arithmetic primitive a name denotes, for the names this module's laws
/// quantify over.
pub open spec fn arith_op_of(name: Seq<char>) -> Option<ArithOp> {
    if name == "add"@ {
        Option::Some(ArithOp::Add)
    } else if name == "sub"@ {
        Option::Some(ArithOp::Sub)
    } else if name == "mul"@ {
        Option::Some(ArithOp::Mul)
    } else if name == "div"@ {
        Option::Some(ArithOp::Div)
    } else if name == "mod"@ {
        Option::Some(ArithOp::Mod)
    } else {
        Option::None
    }
}

/// An arithmetic name dispatches to its arithmetic step.
pub proof fn lemma_arith_dispatch(m: AbsMachine, name: Seq<char>, mode: ScopeMode, fuel: nat)
    requires
        arith_op_of(name) is Some,
    ensures
        builtin_step(m, name, mode, fuel) == Option::Some(
            step_arith(m, arith_op_of(name)->Some_0),
        ),
{
    reveal_strlit("add");
    reveal_strlit("sub");
    reveal_strlit("mul");
    reveal_strlit("div");
    reveal_strlit("mod");
}

/// Law: for any two integers pushed in order and then evaluated through a
/// binary arithmetic primitive whose mathematical result exists and fits the
/// integer value type, the evaluation succeeds, the result on top equals the
/// mathematical operation applied to the two integers, the rest of the
/// machine is untouched, and the stack depth decreases by exactly one net.
pub proof fn law_binary_arithmetic(
    m: AbsMachine,
    x: int,
    y: int,
    name: Seq<char>,
    denv: Option<Seq<nat>>,
    mode: ScopeMode,
    fuel: nat,
)
    requires
        arith_op_of(name) is Some,
        arith_result(arith_op_of(name)->Some_0, x, y) matches Option::Some(res) && i32::MIN <= res
            <= i32::MAX,
    ensures
        ({
            let pushed = push_val(push_val(m, AbsValue::Int(x)), AbsValue::Int(y));
            let res = arith_result(arith_op_of(name)->Some_0, x, y)->Some_0;
            eval_name(pushed, name, denv, mode, fuel) == Outcome::Done(
                AbsMachine { ops: m.ops.push(AbsValue::Int(res)), ..m },
            )
        }),
{
    let op = arith_op_of(name)->Some_0;
    let pushed = push_val(push_val(m, AbsValue::Int(x)), AbsValue::Int(y));
    let res = arith_result(op, x, y)->Some_0;
    lemma_arith_dispatch(pushed, name, mode, fuel);
    assert(pushed.ops.len() == m.ops.len() + 2);
    assert(pushed.ops[pushed.ops.len() - 2] == AbsValue::Int(x));
    assert(pushed.ops.last() == AbsValue::Int(y));
    assert(pushed.ops.subrange(0, pushed.ops.len() - 2) =~= m.ops);
    assert(step_arith(pushed, op) == Outcome::Done(
        AbsMachine { ops: m.ops.push(AbsValue::Int(res)), ..m },
    )) by {
        assert(push_val(
            crate::semantics::drop_ops(pushed, 2),
            AbsValue::Int(res),
        ) =~= (AbsMachine { ops: m.ops.push(AbsValue::Int(res)), ..m }));
    }
}

/// The primitives that consume exactly two operands to produce one value.
pub open spec fn is_binary_primitive(name: Seq<char>) -> bool {
    ||| arith_op_of(name) is Some
    ||| name == "eq"@
    ||| name == "ne"@
    ||| name == "gt"@
    ||| name == "lt"@
    ||| name == "and"@
    ||| name == "or"@
}

/// Law: a binary primitive on a stack holding fewer than two operands always
/// fails with a stack underflow and leaves the machine untouched; it never
/// produces a default value.
pub proof fn law_binary_underflow(
    m: AbsMachine,
    name: Seq<char>,
    denv: Option<Seq<nat>>,
    mode: ScopeMode,
    fuel: nat,
)
    requires
        is_binary_primitive(name),
        m.ops.len() < 2,
    ensures
        eval_name(m, name, denv, mode, fuel) == Outcome::Fail(m, PsError::StackUnderflow),
{
    reveal_strlit("add");
    reveal_strlit("sub");
    reveal_strlit("mul");
    reveal_strlit("div");
    reveal_strlit("mod");
    reveal_strlit("dup");
    reveal_strlit("exch");
    reveal_strlit("copy");
    reveal_strlit("pop");
    reveal_strlit("count");
    reveal_strlit("clear");
    reveal_strlit("dict");
    reveal_strlit("begin");
    reveal_strlit("end");
    reveal_strlit("length");
    reveal_strlit("def");
    reveal_strlit("get");
    reveal_strlit("getinterval");
    reveal_strlit("putinterval");
    reveal_strlit("eq");
    reveal_strlit("ne");
    reveal_strlit("gt");
    reveal_strlit("lt");
    reveal_strlit("and");
    reveal_strlit("or");
    assert("add"@.len() == 3);
    assert("add"@[0] == 'a');
    assert("add"@[1] == 'd');
    assert("sub"@.len() == 3);
    assert("sub"@[0] == 's');
    assert("sub"@[1] == 'u');
    assert("mul"@.len() == 3);
    assert("mul"@[0] == 'm');
    assert("mul"@[1] == 'u');
    assert("div"@.len() == 3);
    assert("div"@[0] == 'd');
    assert("div"@[1] == 'i');
    assert("mod"@.len() == 3);
    assert("mod"@[0] == 'm');
    assert("mod"@[1] == 'o');
    assert("dup"@.len() == 3);
    assert("dup"@[0] == 'd');
    assert("dup"@[1] == 'u');
    assert("exch"@.len() == 4);
    assert("exch"@[0] == 'e');
    assert("exch"@[1] == 'x');
    assert("copy"@.len() == 4);
    assert("copy"@[0] == 'c');
    assert("copy"@[1] == 'o');
    assert("pop"@.len() == 3);
    assert("pop"@[0] == 'p');
    assert("pop"@[1] == 'o');
    assert("count"@.len() == 5);
    assert("count"@[0] == 'c');
    assert("count"@[1] == 'o');
    assert("clear"@.len() == 5);
    assert("clear"@[0] == 'c');
    assert("clear"@[1] == 'l');
    assert("dict"@.len() == 4);
    assert("dict"@[0] == 'd');
    assert("dict"@[1] == 'i');
    assert("begin"@.len() == 5);
    assert("begin"@[0] == 'b');
    assert("begin"@[1] == 'e');
    assert("end"@.len() == 3);
    assert("end"@[0] == 'e');
    assert("end"@[1] == 'n');
    assert("length"@.len() == 6);
    assert("length"@[0] == 'l');
    assert("length"@[1] == 'e');
    assert("def"@.len() == 3);
    assert("def"@[0] == 'd');
    assert("def"@[1] == 'e');
    assert("get"@.len() == 3);
    assert("get"@[0] == 'g');
    assert("get"@[1] == 'e');
    assert("getinterval"@.len() == 11);
    assert("getinterval"@[0] == 'g');
    assert("getinterval"@[1] == 'e');
    assert("putinterval"@.len() == 11);
    assert("putinterval"@[0] == 'p');
    assert("putinterval"@[1] == 'u');
    assert("eq"@.len() == 2);
    assert("eq"@[0] == 'e');
    assert("eq"@[1] == 'q');
    assert("ne"@.len() == 2);
    assert("ne"@[0] == 'n');
    assert("ne"@[1] == 'e');
    assert("gt"@.len() == 2);
    assert("gt"@[0] == 'g');
    assert("gt"@[1] == 't');
    assert("lt"@.len() == 2);
    assert("lt"@[0] == 'l');
    assert("lt"@[1] == 't');
    assert("and"@.len() == 3);
    assert("and"@[0] == 'a');
    assert("and"@[1] == 'n');
    assert("or"@.len() == 2);
    assert("or"@[0] == 'o');
    assert("or"@[1] == 'r');
    if arith_op_of(name) is Some {
        lemma_arith_dispatch(m, name, mode, fuel);
    } else if name == "eq"@ {
        assert(builtin_step(m, name, mode, fuel) == Option::Some(
            crate::semantics::step_eq(m, false),
        ));
    } else if name == "ne"@ {
        assert(builtin_step(m, name, mode, fuel) == Option::Some(
            crate::semantics::step_eq(m, true),
        ));
    } else if name == "gt"@ {
        assert(builtin_step(m, name, mode, fuel) == Option::Some(
            crate::semantics::step_cmp(m, true),
        ));
    } else if name == "lt"@ {
        assert(builtin_step(m, name, mode, fuel) == Option::Some(
            crate::semantics::step_cmp(m, false),
        ));
    } else if name == "and"@ {
        assert(builtin_step(m, name, mode, fuel) == Option::Some(
            crate::semantics::step_bool(m, false),
        ));
    } else {
        assert(builtin_step(m, name, mode, fuel) == Option::Some(
            crate::semantics::step_bool(m, true),
        ));
    }
}

/// Law: the removal primitive on an empty stack always fails with a stack
/// underflow and leaves the machine untouched. (The engine's `pop` and
/// `peek` entry points state the same of themselves in their own contracts.)
pub proof fn law_pop_underflow(
    m: AbsMachine,
    denv: Option<Seq<nat>>,
    mode: ScopeMode,
    fuel: nat,
)
    requires
        m.ops.len() == 0,
    ensures
        eval_name(m, "pop"@, denv, mode, fuel) == Outcome::Fail(m, PsError::StackUnderflow),
{
    reveal_strlit("add");
    reveal_strlit("sub");
    reveal_strlit("mul");
    reveal_strlit("div");
    reveal_strlit("mod");
    reveal_strlit("dup");
    reveal_strlit("exch");
    reveal_strlit("copy");
    reveal_strlit("pop");
}

/// A lookup depends only on the frames its handles address: two environments
/// whose handles address equal frames, position for position, resolve every
/// name alike.
pub proof fn lemma_env_find_pointwise(
    heap1: Seq<crate::dict::AbsFrame>,
    env1: Seq<nat>,
    heap2: Seq<crate::dict::AbsFrame>,
    env2: Seq<nat>,
    q: Seq<char>,
)
    requires
        env1.len() == env2.len(),
        forall|i: int|
            0 <= i < env1.len() ==> ((#[trigger] env1[i] < heap1.len()) <==> (#[trigger] env2[i]
                < heap2.len())),
        forall|i: int|
            0 <= i < env1.len() && env1[i] < heap1.len() ==> #[trigger] heap1[env1[i] as int]
                == heap2[env2[i] as int],
    ensures
        env_find(heap1, env1, q) == env_find(heap2, env2, q),
    decreases env1.len(),
{
    if env1.len() > 0 {
        let k = env1.len() - 1;
        assert(env1[k] == env1.last() && env2[k] == env2.last());
        lemma_env_find_pointwise(heap1, env1.drop_last(), heap2, env2.drop_last(), q);
    }
}

/// Law: a capture of the live environment is faithful — a lookup against the
/// captured handles, in the arena the capture produced, resolves every name
/// exactly as a dynamic lookup against the live environment did at capture
/// time.
pub proof fn law_capture_faithful(d: AbsDicts, q: Seq<char>)
    requires
        dicts_wf(d),
    ensures
        ({
            let (d2, captured) = crate::dict::dicts_capture(d);
            env_find(d2.heap, captured, q) == env_find(d.heap, d.live, q)
        }),
{
    let (d2, captured) = crate::dict::dicts_capture(d);
    assert forall|i: int|
        0 <= i < captured.len() && captured[i] < d2.heap.len() implies #[trigger] d2.heap[captured[i] as int]
        == d.heap[d.live[i] as int] by {
        assert(captured[i] == d.heap.len() + i);
        assert(d2.heap[captured[i] as int] == crate::dict::live_frames(d)[i]);
    }
    lemma_env_find_pointwise(d2.heap, captured, d.heap, d.live, q);
}

/// Law: a captured environment is an independently owned snapshot — a later
/// definition into the live top frame cannot be observed through the
/// captured handles; every lookup against them resolves as before.
pub proof fn law_capture_independent(d: AbsDicts, n: Seq<char>, v: AbsValue, q: Seq<char>)
    requires
        dicts_wf(d),
    ensures
        ({
            let (d2, captured) = crate::dict::dicts_capture(d);
            let d3 = crate::dict::dicts_define(d2, n, v);
            env_find(d3.heap, captured, q) == env_find(d2.heap, captured, q)
        }),
{
    let (d2, captured) = crate::dict::dicts_capture(d);
    let d3 = crate::dict::dicts_define(d2, n, v);
    let h = d2.live.last();
    assert(h == d.live.last());
    assert(h < d.heap.len());
    assert forall|i: int|
        0 <= i < captured.len() && captured[i] < d3.heap.len() implies #[trigger] d3.heap[captured[i] as int]
        == d2.heap[captured[i] as int] by {
        assert(captured[i] == d.heap.len() + i);
        assert(captured[i] != h);
    }
    assert(d3.heap.len() == d2.heap.len());
    lemma_env_find_pointwise(d3.heap, captured, d2.heap, captured, q);
}

/// Law: opening a scope and closing it restores the dictionary stack
/// exactly: the environment depth after the round trip equals the depth
/// before, and every frame is as it was. (That closing at depth one instead
/// fails with a scope error is stated by `close_scope` itself.)
pub proof fn law_scope_round_trip(d: AbsDicts, h: nat)
    ensures
        ({
            let opened = AbsDicts { heap: d.heap, live: d.live.push(h) };
            let closed = AbsDicts { heap: opened.heap, live: opened.live.drop_last() };
            &&& opened.live.len() == d.live.len() + 1
            &&& closed =~= d
        }),
{
    assert(d.live.push(h).drop_last() =~= d.live);
}

} // verus!
