//! The built-in primitives: each method computes one `step_*` function of
//! the model, validating its operands before mutating anything, so that a
//! failing primitive leaves the machine exactly as it found it.

use vstd::prelude::*;

use crate::dict::{dicts_capture, AbsDicts};
use crate::error::PsError;
use crate::exec::Interpreter;
use crate::scope::ScopeMode;
use crate::semantics::{
    arith_result, dec_digits, drop_ops, int_text, machine_wf, outcome_matches, overlay, push_val,
    step_arith, step_begin, step_bool, step_clear, step_cmp, step_copy, step_count, step_def,
    step_dict, step_dup, step_end, step_eq, step_exch, step_get, step_getinterval, step_length,
    step_not, step_pop, step_print, step_putinterval, step_report, val_syntax, val_text,
    AbsMachine, ArithOp, Outcome,
};
use crate::value::{
    abs_value, abs_values, clone_chars, clone_value, lemma_abs_values_elementwise,
    lemma_vals_wf_mono, lemma_vals_wf_push, lemma_vals_wf_subrange, str_to_chars, val_wf,
    AbsValue, Value,
};

verus! {

/// Appends every character of `s` to `out`.
fn append_chars(out: &mut Vec<char>, s: &Vec<char>)
    ensures
        final(out)@ == old(out)@ + s@,
{
    let mut i: usize = 0;
    while i < s.len()
        invariant
            i <= s.len(),
            out@ == old(out)@ + s@.subrange(0, i as int),
        decreases s.len() - i,
    {
        out.push(s[i]);
        i = i + 1;
        assert(out@ =~= old(out)@ + s@.subrange(0, i as int));
    }
    assert(out@ =~= old(out)@ + s@);
}

/// Appends the decimal digits of `n` to `out`.
fn push_dec(out: &mut Vec<char>, n: u32)
    ensures
        final(out)@ == old(out)@ + dec_digits(n as int),
    decreases n,
{
    if n < 10 {
        out.push(((48 + n) as u8) as char);
        proof {
            assert(out@ =~= old(out)@ + dec_digits(n as int));
        }
    } else {
        push_dec(out, n / 10);
        out.push(((48 + n % 10) as u8) as char);
        proof {
            assert(out@ =~= old(out)@ + dec_digits(n as int));
        }
    }
}

/// The decimal text of an integer.
fn int_chars(i: i32) -> (r: Vec<char>)
    ensures
        r@ == int_text(i as int),
{
    let mut out: Vec<char> = Vec::new();
    if i < 0 {
        out.push('-');
        let mag: u32 = (-(i as i64)) as u32;
        proof {
            assert(mag as int == -(i as int));
        }
        push_dec(&mut out, mag);
        proof {
            assert(out@ =~= seq!['-'] + dec_digits(-(i as int)));
        }
    } else {
        push_dec(&mut out, i as u32);
        proof {
            assert(out@ =~= dec_digits(i as int));
        }
    }
    out
}

/// The text form a value prints as.
fn text_of(v: &Value) -> (r: Vec<char>)
    ensures
        r@ == val_text(abs_value(*v)),
{
    match v {
        Value::Int(i) => int_chars(*i),
        Value::Real(cs) => clone_chars(cs),
        Value::Bool(b) => if *b {
            str_to_chars("true")
        } else {
            str_to_chars("false")
        },
        Value::Str(s) => clone_chars(s),
        Value::Name(n) => clone_chars(n),
        Value::Dict(_) => str_to_chars("--nostringval--"),
        Value::Procedure(_, _) => str_to_chars("--nostringval--"),
    }
}

/// The syntactic form a value prints as.
fn syntax_of(v: &Value) -> (r: Vec<char>)
    ensures
        r@ == val_syntax(abs_value(*v)),
{
    match v {
        Value::Str(s) => {
            let mut out: Vec<char> = Vec::new();
            out.push('(');
            append_chars(&mut out, s);
            out.push(')');
            proof {
                assert(out@ =~= seq!['('] + s@ + seq![')']);
            }
            out
        },
        Value::Name(n) => {
            let mut out: Vec<char> = Vec::new();
            out.push('/');
            append_chars(&mut out, n);
            proof {
                assert(out@ =~= seq!['/'] + n@);
            }
            out
        },
        _ => text_of(v),
    }
}

impl Interpreter {
    /// Consumes a non-negative capacity and pushes a fresh empty dictionary.
    fn op_dict(&mut self) -> (r: Result<(), PsError>)
        requires
            machine_wf(old(self)@),
        ensures
            machine_wf(final(self)@),
            final(self).scope_mode == old(self).scope_mode,
            final(self)@.dicts.heap.len() >= old(self)@.dicts.heap.len(),
            outcome_matches(step_dict(old(self)@), final(self)@, r),
    {
        let len = self.opstack.len();
        if len < 1 {
            return Result::Err(PsError::StackUnderflow);
        }
        let n: i32;
        match self.opstack.get(len - 1) {
            Value::Int(i) => {
                n = *i;
            },
            _ => {
                return Result::Err(PsError::TypeError);
            },
        }
        if n < 0 {
            return Result::Err(PsError::RangeError);
        }
        let h = self.dict.alloc_frame();
        self.opstack.drop_top(1);
        self.opstack.push(Value::Dict(h));
        proof {
            let m = old(self)@;
            assert(self@.ops =~= m.ops.subrange(0, len - 1).push(AbsValue::Dict(h as nat)));
            assert(m.ops.drop_last() =~= m.ops.subrange(0, len - 1));
            assert(self@ =~= (AbsMachine {
                ops: m.ops.drop_last().push(AbsValue::Dict(m.dicts.heap.len())),
                dicts: AbsDicts { heap: m.dicts.heap.push(Seq::empty()), live: m.dicts.live },
                out: m.out,
            }));
            lemma_vals_wf_subrange(m.ops, m.dicts.heap.len(), 0, len - 1);
            lemma_vals_wf_mono(
                m.ops.subrange(0, len - 1),
                m.dicts.heap.len(),
                self@.dicts.heap.len(),
            );
            lemma_vals_wf_push(
                m.ops.subrange(0, len - 1),
                self@.dicts.heap.len(),
                AbsValue::Dict(h as nat),
            );
        }
        Result::Ok(())
    }

    /// Consumes a dictionary and opens it as the new top scope frame.
    fn op_begin(&mut self) -> (r: Result<(), PsError>)
        requires
            machine_wf(old(self)@),
        ensures
            machine_wf(final(self)@),
            final(self).scope_mode == old(self).scope_mode,
            final(self)@.dicts.heap.len() >= old(self)@.dicts.heap.len(),
            outcome_matches(step_begin(old(self)@), final(self)@, r),
    {
        let len = self.opstack.len();
        if len < 1 {
            return Result::Err(PsError::StackUnderflow);
        }
        let h: usize;
        match self.opstack.get(len - 1) {
            Value::Dict(d) => {
                h = *d;
            },
            _ => {
                return Result::Err(PsError::TypeError);
            },
        }
        if h >= self.dict.heap_len() {
            return Result::Err(PsError::RangeError);
        }
        self.opstack.drop_top(1);
        self.dict.open_scope(h);
        proof {
            let m = old(self)@;
            assert(m.ops.drop_last() =~= m.ops.subrange(0, len - 1));
            assert(self@ =~= (AbsMachine {
                ops: m.ops.drop_last(),
                dicts: AbsDicts { heap: m.dicts.heap, live: m.dicts.live.push(h as nat) },
                out: m.out,
            }));
            lemma_vals_wf_subrange(m.ops, m.dicts.heap.len(), 0, len - 1);
        }
        Result::Ok(())
    }

    /// Closes the top scope frame; the global frame is never removable.
    fn op_end(&mut self) -> (r: Result<(), PsError>)
        requires
            machine_wf(old(self)@),
        ensures
            machine_wf(final(self)@),
            final(self).scope_mode == old(self).scope_mode,
            final(self)@.dicts.heap.len() >= old(self)@.dicts.heap.len(),
            outcome_matches(step_end(old(self)@), final(self)@, r),
    {
        match self.dict.close_scope() {
            Result::Ok(()) => {
                proof {
                    let m = old(self)@;
                    assert(self@ =~= (AbsMachine {
                        ops: m.ops,
                        dicts: AbsDicts { heap: m.dicts.heap, live: m.dicts.live.drop_last() },
                        out: m.out,
                    }));
                }
                Result::Ok(())
            },
            Result::Err(e) => {
                proof {
                    assert(self@ =~= old(self)@);
                }
                Result::Err(e)
            },
        }
    }

    /// Consumes a string or dictionary and pushes its length.
    fn op_length(&mut self) -> (r: Result<(), PsError>)
        requires
            machine_wf(old(self)@),
        ensures
            machine_wf(final(self)@),
            final(self).scope_mode == old(self).scope_mode,
            final(self)@.dicts.heap.len() >= old(self)@.dicts.heap.len(),
            outcome_matches(step_length(old(self)@), final(self)@, r),
    {
        let len = self.opstack.len();
        if len < 1 {
            return Result::Err(PsError::StackUnderflow);
        }
        let l: usize;
        match self.opstack.get(len - 1) {
            Value::Str(s) => {
                l = s.len();
            },
            Value::Dict(d) => {
                let h = *d;
                match self.dict.frame_len(h) {
                    Option::Some(fl) => {
                        l = fl;
                    },
                    Option::None => {
                        return Result::Err(PsError::RangeError);
                    },
                }
            },
            _ => {
                return Result::Err(PsError::TypeError);
            },
        }
        if l > i32::MAX as usize {
            return Result::Err(PsError::RangeError);
        }
        self.opstack.drop_top(1);
        self.opstack.push(Value::Int(l as i32));
        proof {
            let m = old(self)@;
            assert(m.ops.drop_last() =~= m.ops.subrange(0, len - 1));
            lemma_vals_wf_subrange(m.ops, m.dicts.heap.len(), 0, len - 1);
            lemma_vals_wf_push(
                m.ops.subrange(0, len - 1),
                m.dicts.heap.len(),
                AbsValue::Int(l as int),
            );
            assert(self@ =~= push_val(drop_ops(m, 1), AbsValue::Int(l as int)));
        }
        Result::Ok(())
    }

    /// The definition primitive: consumes a value and the name literal
    /// beneath it and binds the name in the top frame; under lexical scoping
    /// a procedure value is stored with a fresh snapshot of the live
    /// environment as its captured environment.
    fn op_def(&mut self) -> (r: Result<(), PsError>)
        requires
            machine_wf(old(self)@),
        ensures
            machine_wf(final(self)@),
            final(self).scope_mode == old(self).scope_mode,
            final(self)@.dicts.heap.len() >= old(self)@.dicts.heap.len(),
            outcome_matches(step_def(old(self)@, old(self).scope_mode), final(self)@, r),
    {
        let ghost m = old(self)@;
        let len = self.opstack.len();
        if len < 2 {
            return Result::Err(PsError::StackUnderflow);
        }
        let name: Vec<char>;
        match self.opstack.get(len - 2) {
            Value::Name(n) => {
                name = clone_chars(n);
            },
            _ => {
                return Result::Err(PsError::TypeError);
            },
        }
        let value = match self.opstack.pop() {
            Result::Ok(v) => v,
            Result::Err(e) => {
                proof {
                    assert(false);
                }
                return Result::Err(e);
            },
        };
        self.opstack.drop_top(1);
        proof {
            assert(self@.ops =~= m.ops.subrange(0, len - 2));
            assert(m.ops.drop_last() =~= m.ops.subrange(0, len - 1));
            lemma_vals_wf_subrange(m.ops, m.dicts.heap.len(), 0, len - 2);
            assert(abs_value(value) == m.ops.last());
            assert(val_wf(abs_value(value), m.dicts.heap.len()));
        }
        let is_lex_proc = match &value {
            Value::Procedure(_, _) => self.scope_mode == ScopeMode::Lexical,
            _ => false,
        };
        if is_lex_proc {
            let captured = self.dict.snapshot_live();
            match value {
                Value::Procedure(body, _) => {
                    let stored = Value::Procedure(body, Option::Some(captured));
                    proof {
                        let (d2, cap_m) = dicts_capture(m.dicts);
                        assert(self@.dicts =~= d2);
                        assert(abs_value(stored) matches AbsValue::Procedure(bm, cm) && (
                        match m.ops.last() {
                            AbsValue::Procedure(b0, _) => bm == b0 && cm == Option::Some(cap_m),
                            _ => false,
                        }));
                        assert(val_wf(abs_value(stored), d2.heap.len())) by {
                            match m.ops.last() {
                                AbsValue::Procedure(b0, _) => {
                                    crate::value::lemma_toks_wf_mono(
                                        b0,
                                        m.dicts.heap.len(),
                                        d2.heap.len(),
                                    );
                                },
                                _ => {},
                            }
                        }
                    }
                    self.dict.define(&name, stored);
                    proof {
                        let (d2, cap_m) = dicts_capture(m.dicts);
                        lemma_vals_wf_mono(
                            m.ops.subrange(0, len - 2),
                            m.dicts.heap.len(),
                            self@.dicts.heap.len(),
                        );
                        assert(outcome_matches(step_def(m, old(self).scope_mode), self@, Result::Ok(())));
                    }
                },
                _ => {
                    proof {
                        assert(false);
                    }
                    return Result::Err(PsError::TypeError);
                },
            }
        } else {
            self.dict.define(&name, value);
            proof {
                assert(outcome_matches(step_def(m, old(self).scope_mode), self@, Result::Ok(())));
            }
        }
        Result::Ok(())
    }

    /// Consumes an index and a string and pushes the character code at that
    /// index.
    fn op_get(&mut self) -> (r: Result<(), PsError>)
        requires
            machine_wf(old(self)@),
        ensures
            machine_wf(final(self)@),
            final(self).scope_mode == old(self).scope_mode,
            final(self)@.dicts.heap.len() >= old(self)@.dicts.heap.len(),
            outcome_matches(step_get(old(self)@), final(self)@, r),
    {
        let len = self.opstack.len();
        if len < 2 {
            return Result::Err(PsError::StackUnderflow);
        }
        let idx: i32;
        match self.opstack.get(len - 1) {
            Value::Int(i) => {
                idx = *i;
            },
            _ => {
                return Result::Err(PsError::TypeError);
            },
        }
        if idx < 0 {
            return Result::Err(PsError::RangeError);
        }
        let code: u32;
        match self.opstack.get(len - 2) {
            Value::Str(s) => {
                if idx as usize >= s.len() {
                    return Result::Err(PsError::RangeError);
                }
                let c = s[idx as usize];
                proof {
                    assert(old(self)@.ops[len - 2] == AbsValue::Str(s@));
                    assert(c == s@[idx as int]);
                    vstd::utf8::char_is_scalar(c);
                    assert(c as u32 <= 0x10FFFF);
                }
                code = c as u32;
            },
            _ => {
                return Result::Err(PsError::TypeError);
            },
        }
        self.opstack.drop_top(2);
        self.opstack.push(Value::Int(code as i32));
        proof {
            let m = old(self)@;
            lemma_vals_wf_subrange(m.ops, m.dicts.heap.len(), 0, len - 2);
            lemma_vals_wf_push(
                m.ops.subrange(0, len - 2),
                m.dicts.heap.len(),
                AbsValue::Int(code as int),
            );
            assert(self@ =~= push_val(drop_ops(m, 2), AbsValue::Int(code as int)));
        }
        Result::Ok(())
    }

    /// Consumes a count, an index and a string and pushes the substring of
    /// that extent.
    fn op_getinterval(&mut self) -> (r: Result<(), PsError>)
        requires
            machine_wf(old(self)@),
        ensures
            machine_wf(final(self)@),
            final(self).scope_mode == old(self).scope_mode,
            final(self)@.dicts.heap.len() >= old(self)@.dicts.heap.len(),
            outcome_matches(step_getinterval(old(self)@), final(self)@, r),
    {
        let len = self.opstack.len();
        if len < 3 {
            return Result::Err(PsError::StackUnderflow);
        }
        let cnt: i32;
        match self.opstack.get(len - 1) {
            Value::Int(i) => {
                cnt = *i;
            },
            _ => {
                return Result::Err(PsError::TypeError);
            },
        }
        if cnt < 0 {
            return Result::Err(PsError::RangeError);
        }
        let idx: i32;
        match self.opstack.get(len - 2) {
            Value::Int(i) => {
                idx = *i;
            },
            _ => {
                return Result::Err(PsError::TypeError);
            },
        }
        if idx < 0 {
            return Result::Err(PsError::RangeError);
        }
        let sub: Vec<char>;
        match self.opstack.get(len - 3) {
            Value::Str(s) => {
                if idx as usize > s.len() || cnt as usize > s.len() - idx as usize {
                    return Result::Err(PsError::RangeError);
                }
                sub = crate::tokenizer::chars_range(s, idx as usize, idx as usize + cnt as usize);
            },
            _ => {
                return Result::Err(PsError::TypeError);
            },
        }
        let out_val = Value::Str(sub);
        self.opstack.drop_top(3);
        self.opstack.push(out_val);
        proof {
            let m = old(self)@;
            lemma_vals_wf_subrange(m.ops, m.dicts.heap.len(), 0, len - 3);
            lemma_vals_wf_push(
                m.ops.subrange(0, len - 3),
                m.dicts.heap.len(),
                abs_value(out_val),
            );
            assert(self@ =~= push_val(drop_ops(m, 3), abs_value(out_val)));
        }
        Result::Ok(())
    }

    /// Consumes a source string, an index and a target string and pushes the
    /// target with the source written over it in place.
    fn op_putinterval(&mut self) -> (r: Result<(), PsError>)
        requires
            machine_wf(old(self)@),
        ensures
            machine_wf(final(self)@),
            final(self).scope_mode == old(self).scope_mode,
            final(self)@.dicts.heap.len() >= old(self)@.dicts.heap.len(),
            outcome_matches(step_putinterval(old(self)@), final(self)@, r),
    {
        let len = self.opstack.len();
        if len < 3 {
            return Result::Err(PsError::StackUnderflow);
        }
        match self.opstack.get(len - 1) {
            Value::Str(_) => {},
            _ => {
                return Result::Err(PsError::TypeError);
            },
        }
        let idx: i32;
        match self.opstack.get(len - 2) {
            Value::Int(i) => {
                idx = *i;
            },
            _ => {
                return Result::Err(PsError::TypeError);
            },
        }
        if idx < 0 {
            return Result::Err(PsError::RangeError);
        }
        let overlaid: Vec<char>;
        match (self.opstack.get(len - 3), self.opstack.get(len - 1)) {
            (Value::Str(tgt), Value::Str(src)) => {
                if idx as usize > tgt.len() || src.len() > tgt.len() - idx as usize {
                    return Result::Err(PsError::RangeError);
                }
                let mut outv: Vec<char> = Vec::new();
                let mut i: usize = 0;
                let ghost ov = overlay(tgt@, idx as int, src@);
                while i < tgt.len()
                    invariant
                        i <= tgt@.len(),
                        0 <= idx,
                        idx as int + src@.len() <= tgt@.len(),
                        ov == overlay(tgt@, idx as int, src@),
                        ov.len() == tgt@.len(),
                        outv@.len() == i,
                        forall|j: int| 0 <= j < i ==> outv@[j] == ov[j],
                    decreases tgt@.len() - i,
                {
                    let c = if i >= idx as usize && i < idx as usize + src.len() {
                        src[i - idx as usize]
                    } else {
                        tgt[i]
                    };
                    outv.push(c);
                    i = i + 1;
                }
                proof {
                    assert(outv@ =~= ov);
                }
                overlaid = outv;
            },
            _ => {
                return Result::Err(PsError::TypeError);
            },
        }
        let out_val = Value::Str(overlaid);
        self.opstack.drop_top(3);
        self.opstack.push(out_val);
        proof {
            let m = old(self)@;
            lemma_vals_wf_subrange(m.ops, m.dicts.heap.len(), 0, len - 3);
            lemma_vals_wf_push(
                m.ops.subrange(0, len - 3),
                m.dicts.heap.len(),
                abs_value(out_val),
            );
            assert(self@ =~= push_val(drop_ops(m, 3), abs_value(out_val)));
        }
        Result::Ok(())
    }

    /// Consumes a string and appends it to the output.
    fn op_print(&mut self) -> (r: Result<(), PsError>)
        requires
            machine_wf(old(self)@),
        ensures
            machine_wf(final(self)@),
            final(self).scope_mode == old(self).scope_mode,
            final(self)@.dicts.heap.len() >= old(self)@.dicts.heap.len(),
            outcome_matches(step_print(old(self)@), final(self)@, r),
    {
        let len = self.opstack.len();
        if len < 1 {
            return Result::Err(PsError::StackUnderflow);
        }
        let text: Vec<char>;
        match self.opstack.get(len - 1) {
            Value::Str(s) => {
                text = clone_chars(s);
            },
            _ => {
                return Result::Err(PsError::TypeError);
            },
        }
        append_chars(&mut self.output, &text);
        self.opstack.drop_top(1);
        proof {
            let m = old(self)@;
            assert(m.ops.drop_last() =~= m.ops.subrange(0, len - 1));
            lemma_vals_wf_subrange(m.ops, m.dicts.heap.len(), 0, len - 1);
            assert(self@ =~= (AbsMachine {
                ops: m.ops.drop_last(),
                dicts: m.dicts,
                out: m.out + text@,
            }));
        }
        Result::Ok(())
    }

    /// Consumes any value and appends its text (or syntactic) form and a
    /// newline to the output.
    fn op_report(&mut self, syntactic: bool) -> (r: Result<(), PsError>)
        requires
            machine_wf(old(self)@),
        ensures
            machine_wf(final(self)@),
            final(self).scope_mode == old(self).scope_mode,
            final(self)@.dicts.heap.len() >= old(self)@.dicts.heap.len(),
            outcome_matches(step_report(old(self)@, syntactic), final(self)@, r),
    {
        let len = self.opstack.len();
        if len < 1 {
            return Result::Err(PsError::StackUnderflow);
        }
        let text: Vec<char> = if syntactic {
            syntax_of(self.opstack.get(len - 1))
        } else {
            text_of(self.opstack.get(len - 1))
        };
        append_chars(&mut self.output, &text);
        self.output.push('\n');
        self.opstack.drop_top(1);
        proof {
            let m = old(self)@;
            assert(m.ops.drop_last() =~= m.ops.subrange(0, len - 1));
            lemma_vals_wf_subrange(m.ops, m.dicts.heap.len(), 0, len - 1);
            assert(self@.out =~= m.out + text@ + seq!['\n']);
            assert(self@ =~= (AbsMachine {
                ops: m.ops.drop_last(),
                dicts: m.dicts,
                out: m.out + text@ + seq!['\n'],
            }));
        }
        Result::Ok(())
    }

    /// One of the binary arithmetic primitives.
    fn op_arith(&mut self, op: ArithOp) -> (r: Result<(), PsError>)
        requires
            machine_wf(old(self)@),
        ensures
            machine_wf(final(self)@),
            final(self).scope_mode == old(self).scope_mode,
            final(self)@.dicts.heap.len() >= old(self)@.dicts.heap.len(),
            outcome_matches(step_arith(old(self)@, op), final(self)@, r),
    {
        let len = self.opstack.len();
        if len < 2 {
            return Result::Err(PsError::StackUnderflow);
        }
        let x: i32;
        let y: i32;
        match (self.opstack.get(len - 2), self.opstack.get(len - 1)) {
            (Value::Int(a), Value::Int(b)) => {
                x = *a;
                y = *b;
            },
            _ => {
                return Result::Err(PsError::TypeError);
            },
        }
        proof {
            assert(old(self)@.ops[len - 2] == AbsValue::Int(x as int));
            assert(old(self)@.ops.last() == AbsValue::Int(y as int));
        }
        let res: i64 = match op {
            ArithOp::Add => x as i64 + y as i64,
            ArithOp::Sub => x as i64 - y as i64,
            ArithOp::Mul => {
                proof {
                    assert(-0x4000_0000_0000_0000 <= (x as int) * (y as int)
                        <= 0x4000_0000_0000_0000) by (nonlinear_arith)
                        requires
                            -0x8000_0000 <= x as int <= 0x7FFF_FFFF,
                            -0x8000_0000 <= y as int <= 0x7FFF_FFFF,
                    ;
                }
                x as i64 * y as i64
            },
            ArithOp::Div | ArithOp::Mod => {
                if y == 0 {
                    return Result::Err(PsError::RangeError);
                }
                let am: u64 = if x < 0 {
                    (-(x as i64)) as u64
                } else {
                    x as u64
                };
                let bm: u64 = if y < 0 {
                    (-(y as i64)) as u64
                } else {
                    y as u64
                };
                proof {
                    assert(am as int == crate::semantics::abs_of(x as int));
                    assert(bm as int == crate::semantics::abs_of(y as int));
                    assert(bm >= 1);
                    assert(am / bm <= am) by (nonlinear_arith)
                        requires
                            bm >= 1,
                    ;
                }
                let q = am / bm;
                let rm = am % bm;
                match op {
                    ArithOp::Div => {
                        proof {
                            assert(q as int == crate::semantics::abs_of(x as int)
                                / crate::semantics::abs_of(y as int));
                        }
                        if (x < 0) != (y < 0) {
                            -(q as i64)
                        } else {
                            q as i64
                        }
                    },
                    _ => {
                        proof {
                            assert(rm as int == crate::semantics::abs_of(x as int)
                                % crate::semantics::abs_of(y as int));
                        }
                        if x < 0 {
                            -(rm as i64)
                        } else {
                            rm as i64
                        }
                    },
                }
            },
        };
        proof {
            assert(arith_result(op, x as int, y as int) == Option::Some(res as int));
        }
        if res > i32::MAX as i64 || res < i32::MIN as i64 {
            return Result::Err(PsError::RangeError);
        }
        let out_val = Value::Int(res as i32);
        proof {
            lemma_vals_wf_subrange(old(self)@.ops, old(self)@.dicts.heap.len(), 0, len - 2);
        }
        self.opstack.drop_top(2);
        self.opstack.push(out_val);
        proof {
            lemma_vals_wf_push(
                old(self)@.ops.subrange(0, len - 2),
                old(self)@.dicts.heap.len(),
                abs_value(out_val),
            );
            assert(self@ =~= push_val(drop_ops(old(self)@, 2), AbsValue::Int(res as int)));
        }
        Result::Ok(())
    }

    /// The equality primitives.
    fn op_eq(&mut self, negate: bool) -> (r: Result<(), PsError>)
        requires
            machine_wf(old(self)@),
        ensures
            machine_wf(final(self)@),
            final(self).scope_mode == old(self).scope_mode,
            final(self)@.dicts.heap.len() >= old(self)@.dicts.heap.len(),
            outcome_matches(step_eq(old(self)@, negate), final(self)@, r),
    {
        let len = self.opstack.len();
        if len < 2 {
            return Result::Err(PsError::StackUnderflow);
        }
        let e: bool;
        match (self.opstack.get(len - 2), self.opstack.get(len - 1)) {
            (Value::Int(a), Value::Int(b)) => {
                e = *a == *b;
            },
            (Value::Bool(a), Value::Bool(b)) => {
                e = *a == *b;
            },
            (Value::Str(a), Value::Str(b)) => {
                e = crate::value::chars_eq(a, b);
            },
            _ => {
                return Result::Err(PsError::TypeError);
            },
        }
        proof {
            assert(crate::semantics::vals_eq_ok(old(self)@.ops[len - 2], old(self)@.ops.last())
                == Option::Some(e));
            lemma_vals_wf_subrange(old(self)@.ops, old(self)@.dicts.heap.len(), 0, len - 2);
        }
        let out_val = Value::Bool(e != negate);
        self.opstack.drop_top(2);
        self.opstack.push(out_val);
        proof {
            lemma_vals_wf_push(
                old(self)@.ops.subrange(0, len - 2),
                old(self)@.dicts.heap.len(),
                abs_value(out_val),
            );
            assert(self@ =~= push_val(drop_ops(old(self)@, 2), AbsValue::Bool(e != negate)));
        }
        Result::Ok(())
    }

    /// The ordering primitives on two integers.
    fn op_cmp(&mut self, strict_greater: bool) -> (r: Result<(), PsError>)
        requires
            machine_wf(old(self)@),
        ensures
            machine_wf(final(self)@),
            final(self).scope_mode == old(self).scope_mode,
            final(self)@.dicts.heap.len() >= old(self)@.dicts.heap.len(),
            outcome_matches(step_cmp(old(self)@, strict_greater), final(self)@, r),
    {
        let len = self.opstack.len();
        if len < 2 {
            return Result::Err(PsError::StackUnderflow);
        }
        let e: bool;
        match (self.opstack.get(len - 2), self.opstack.get(len - 1)) {
            (Value::Int(a), Value::Int(b)) => {
                e = if strict_greater {
                    *a > *b
                } else {
                    *a < *b
                };
            },
            _ => {
                return Result::Err(PsError::TypeError);
            },
        }
        proof {
            lemma_vals_wf_subrange(old(self)@.ops, old(self)@.dicts.heap.len(), 0, len - 2);
        }
        let out_val = Value::Bool(e);
        self.opstack.drop_top(2);
        self.opstack.push(out_val);
        proof {
            lemma_vals_wf_push(
                old(self)@.ops.subrange(0, len - 2),
                old(self)@.dicts.heap.len(),
                abs_value(out_val),
            );
            assert(self@ =~= push_val(drop_ops(old(self)@, 2), AbsValue::Bool(e)));
        }
        Result::Ok(())
    }

    /// The binary boolean primitives.
    fn op_bool(&mut self, is_or: bool) -> (r: Result<(), PsError>)
        requires
            machine_wf(old(self)@),
        ensures
            machine_wf(final(self)@),
            final(self).scope_mode == old(self).scope_mode,
            final(self)@.dicts.heap.len() >= old(self)@.dicts.heap.len(),
            outcome_matches(step_bool(old(self)@, is_or), final(self)@, r),
    {
        let len = self.opstack.len();
        if len < 2 {
            return Result::Err(PsError::StackUnderflow);
        }
        let e: bool;
        match (self.opstack.get(len - 2), self.opstack.get(len - 1)) {
            (Value::Bool(a), Value::Bool(b)) => {
                e = if is_or {
                    *a || *b
                } else {
                    *a && *b
                };
            },
            _ => {
                return Result::Err(PsError::TypeError);
            },
        }
        proof {
            lemma_vals_wf_subrange(old(self)@.ops, old(self)@.dicts.heap.len(), 0, len - 2);
        }
        let out_val = Value::Bool(e);
        self.opstack.drop_top(2);
        self.opstack.push(out_val);
        proof {
            lemma_vals_wf_push(
                old(self)@.ops.subrange(0, len - 2),
                old(self)@.dicts.heap.len(),
                abs_value(out_val),
            );
            assert(self@ =~= push_val(drop_ops(old(self)@, 2), AbsValue::Bool(e)));
        }
        Result::Ok(())
    }

    /// Boolean negation of the top operand.
    fn op_not(&mut self) -> (r: Result<(), PsError>)
        requires
            machine_wf(old(self)@),
        ensures
            machine_wf(final(self)@),
            final(self).scope_mode == old(self).scope_mode,
            final(self)@.dicts.heap.len() >= old(self)@.dicts.heap.len(),
            outcome_matches(step_not(old(self)@), final(self)@, r),
    {
        let len = self.opstack.len();
        if len < 1 {
            return Result::Err(PsError::StackUnderflow);
        }
        let e: bool;
        match self.opstack.get(len - 1) {
            Value::Bool(a) => {
                e = !*a;
            },
            _ => {
                return Result::Err(PsError::TypeError);
            },
        }
        proof {
            lemma_vals_wf_subrange(old(self)@.ops, old(self)@.dicts.heap.len(), 0, len - 1);
        }
        let out_val = Value::Bool(e);
        self.opstack.drop_top(1);
        self.opstack.push(out_val);
        proof {
            lemma_vals_wf_push(
                old(self)@.ops.subrange(0, len - 1),
                old(self)@.dicts.heap.len(),
                abs_value(out_val),
            );
            assert(self@ =~= push_val(drop_ops(old(self)@, 1), AbsValue::Bool(e)));
        }
        Result::Ok(())
    }

    /// Duplicates the top operand.
    fn op_dup(&mut self) -> (r: Result<(), PsError>)
        requires
            machine_wf(old(self)@),
        ensures
            machine_wf(final(self)@),
            final(self).scope_mode == old(self).scope_mode,
            final(self)@.dicts.heap.len() >= old(self)@.dicts.heap.len(),
            outcome_matches(step_dup(old(self)@), final(self)@, r),
    {
        let len = self.opstack.len();
        if len < 1 {
            return Result::Err(PsError::StackUnderflow);
        }
        let copy = clone_value(self.opstack.get(len - 1));
        proof {
            lemma_vals_wf_push(
                old(self)@.ops,
                old(self)@.dicts.heap.len(),
                abs_value(copy),
            );
        }
        self.opstack.push(copy);
        proof {
            assert(self@ =~= push_val(old(self)@, old(self)@.ops.last()));
        }
        Result::Ok(())
    }

    /// Swaps the top two operands.
    fn op_exch(&mut self) -> (r: Result<(), PsError>)
        requires
            machine_wf(old(self)@),
        ensures
            machine_wf(final(self)@),
            final(self).scope_mode == old(self).scope_mode,
            final(self)@.dicts.heap.len() >= old(self)@.dicts.heap.len(),
            outcome_matches(step_exch(old(self)@), final(self)@, r),
    {
        let len = self.opstack.len();
        if len < 2 {
            return Result::Err(PsError::StackUnderflow);
        }
        let b = match self.opstack.pop() {
            Result::Ok(v) => v,
            Result::Err(e) => {
                proof {
                    assert(false);
                }
                return Result::Err(e);
            },
        };
        let a = match self.opstack.pop() {
            Result::Ok(v) => v,
            Result::Err(e) => {
                proof {
                    assert(false);
                }
                return Result::Err(e);
            },
        };
        self.opstack.push(b);
        self.opstack.push(a);
        proof {
            let m = old(self)@;
            assert(m.ops.drop_last().drop_last() =~= m.ops.subrange(0, len - 2));
            lemma_vals_wf_subrange(m.ops, m.dicts.heap.len(), 0, len - 2);
            lemma_vals_wf_push(m.ops.subrange(0, len - 2), m.dicts.heap.len(), m.ops.last());
            lemma_vals_wf_push(
                m.ops.subrange(0, len - 2).push(m.ops.last()),
                m.dicts.heap.len(),
                m.ops[len - 2],
            );
            assert(self@ =~= push_val(push_val(drop_ops(m, 2), m.ops.last()), m.ops[len - 2]));
        }
        Result::Ok(())
    }

    /// Removes the top operand.
    fn op_pop(&mut self) -> (r: Result<(), PsError>)
        requires
            machine_wf(old(self)@),
        ensures
            machine_wf(final(self)@),
            final(self).scope_mode == old(self).scope_mode,
            final(self)@.dicts.heap.len() >= old(self)@.dicts.heap.len(),
            outcome_matches(step_pop(old(self)@), final(self)@, r),
    {
        let len = self.opstack.len();
        if len < 1 {
            return Result::Err(PsError::StackUnderflow);
        }
        self.opstack.drop_top(1);
        proof {
            lemma_vals_wf_subrange(old(self)@.ops, old(self)@.dicts.heap.len(), 0, len - 1);
            assert(self@ =~= drop_ops(old(self)@, 1));
        }
        Result::Ok(())
    }

    /// Removes every operand.
    fn op_clear(&mut self) -> (r: Result<(), PsError>)
        requires
            machine_wf(old(self)@),
        ensures
            machine_wf(final(self)@),
            final(self).scope_mode == old(self).scope_mode,
            final(self)@.dicts.heap.len() >= old(self)@.dicts.heap.len(),
            outcome_matches(step_clear(old(self)@), final(self)@, r),
    {
        self.opstack.clear();
        proof {
            assert(self@ =~= (AbsMachine { ops: Seq::<AbsValue>::empty(), ..old(self)@ }));
        }
        Result::Ok(())
    }

    /// Pushes the number of operands.
    fn op_count(&mut self) -> (r: Result<(), PsError>)
        requires
            machine_wf(old(self)@),
        ensures
            machine_wf(final(self)@),
            final(self).scope_mode == old(self).scope_mode,
            final(self)@.dicts.heap.len() >= old(self)@.dicts.heap.len(),
            outcome_matches(step_count(old(self)@), final(self)@, r),
    {
        let len = self.opstack.len();
        if len > i32::MAX as usize {
            return Result::Err(PsError::RangeError);
        }
        let out_val = Value::Int(len as i32);
        proof {
            lemma_vals_wf_push(old(self)@.ops, old(self)@.dicts.heap.len(), abs_value(out_val));
        }
        self.opstack.push(out_val);
        proof {
            assert(self@ =~= push_val(old(self)@, AbsValue::Int(len as int)));
        }
        Result::Ok(())
    }

    /// Consumes a count and pushes copies of that many operands beneath it,
    /// read through a full-stack snapshot and indexed from the end.
    #[verifier::loop_isolation(false)]
    fn op_copy(&mut self) -> (r: Result<(), PsError>)
        requires
            machine_wf(old(self)@),
        ensures
            machine_wf(final(self)@),
            final(self).scope_mode == old(self).scope_mode,
            final(self)@.dicts.heap.len() >= old(self)@.dicts.heap.len(),
            outcome_matches(step_copy(old(self)@), final(self)@, r),
    {
        let len = self.opstack.len();
        if len < 1 {
            return Result::Err(PsError::StackUnderflow);
        }
        let n: i32;
        match self.opstack.get(len - 1) {
            Value::Int(i) => {
                n = *i;
            },
            _ => {
                return Result::Err(PsError::TypeError);
            },
        }
        if n < 0 {
            return Result::Err(PsError::RangeError);
        }
        let n_us = n as usize;
        if n_us > len - 1 {
            return Result::Err(PsError::StackUnderflow);
        }
        let ghost m = old(self)@;
        let ghost rest = m.ops.drop_last();
        proof {
            lemma_vals_wf_subrange(m.ops, m.dicts.heap.len(), 0, len - 1);
            assert(rest =~= m.ops.subrange(0, len - 1));
        }
        self.opstack.drop_top(1);
        let snap = self.opstack.snapshot();
        proof {
            lemma_abs_values_elementwise(snap@);
            assert(abs_values(snap@) == rest);
            assert(snap@.len() == rest.len());
        }
        let base = snap.len() - n_us;
        let mut k: usize = base;
        while k < snap.len()
            invariant
                base <= k <= snap@.len(),
                base == rest.len() - n as int,
                snap@.len() == rest.len(),
                forall|j: int| 0 <= j < snap@.len() ==> abs_value(#[trigger] snap@[j]) == rest[j],
                crate::value::vals_wf(rest, m.dicts.heap.len()),
                self.scope_mode == old(self).scope_mode,
                self@ == (AbsMachine {
                    ops: rest + rest.subrange(base as int, k as int),
                    ..m
                }),
                self@.dicts == m.dicts,
            decreases snap@.len() - k,
        {
            let ghost pre_ops = self@.ops;
            let c = clone_value(&snap[k]);
            proof {
                assert(abs_value(c) == rest[k as int]);
                crate::value::lemma_vals_wf_subrange(rest, m.dicts.heap.len(), base as int, k as int);
                assert(crate::value::vals_wf(pre_ops, m.dicts.heap.len())) by {
                    assert forall|j: int| 0 <= j < pre_ops.len() implies val_wf(
                        #[trigger] pre_ops[j],
                        m.dicts.heap.len(),
                    ) by {
                        if j < rest.len() {
                            assert(pre_ops[j] == rest[j]);
                        } else {
                            assert(pre_ops[j] == rest.subrange(base as int, k as int)[j - rest.len()]);
                            assert(pre_ops[j] == rest[base + (j - rest.len())]);
                        }
                    }
                }
                lemma_vals_wf_push(pre_ops, m.dicts.heap.len(), abs_value(c));
            }
            self.opstack.push(c);
            k = k + 1;
            proof {
                assert(pre_ops.push(rest[k - 1]) =~= rest + rest.subrange(base as int, k as int));
                assert(self@ =~= (AbsMachine {
                    ops: rest + rest.subrange(base as int, k as int),
                    ..m
                }));
            }
        }
        proof {
            assert(rest.subrange(base as int, rest.len() as int) =~= rest.skip(
                rest.len() - n as int,
            ));
            assert(self@ =~= (AbsMachine { ops: rest + rest.skip(rest.len() - n as int), ..m }));
            assert(crate::value::vals_wf(self@.ops, m.dicts.heap.len())) by {
                assert forall|j: int| 0 <= j < self@.ops.len() implies val_wf(
                    #[trigger] self@.ops[j],
                    m.dicts.heap.len(),
                ) by {
                    if j < rest.len() {
                        assert(self@.ops[j] == rest[j]);
                    } else {
                        assert(self@.ops[j] == rest.skip(rest.len() - n as int)[j - rest.len()]);
                        assert(self@.ops[j] == rest[rest.len() - n as int + (j - rest.len())]);
                    }
                }
            }
        }
        Result::Ok(())
    }
}

impl Interpreter {
    /// The conditional primitive.
    fn op_if(&mut self, fuel: u64) -> (r: Result<(), PsError>)
        requires
            machine_wf(old(self)@),
        ensures
            machine_wf(final(self)@),
            final(self).scope_mode == old(self).scope_mode,
            final(self)@.dicts.heap.len() >= old(self)@.dicts.heap.len(),
            outcome_matches(
                crate::semantics::step_if(old(self)@, old(self).scope_mode, fuel as nat),
                final(self)@,
                r,
            ),
        decreases fuel, 0nat,
    {
        let ghost m = old(self)@;
        let len = self.opstack.len();
        if len < 2 {
            return Result::Err(PsError::StackUnderflow);
        }
        let ok_types = match (self.opstack.get(len - 2), self.opstack.get(len - 1)) {
            (Value::Bool(_), Value::Procedure(_, _)) => true,
            _ => false,
        };
        if !ok_types {
            return Result::Err(PsError::TypeError);
        }
        let pv = match self.opstack.pop() {
            Result::Ok(v) => v,
            Result::Err(e) => {
                proof {
                    assert(false);
                }
                return Result::Err(e);
            },
        };
        let cv = match self.opstack.pop() {
            Result::Ok(v) => v,
            Result::Err(e) => {
                proof {
                    assert(false);
                }
                return Result::Err(e);
            },
        };
        proof {
            assert(m.ops.drop_last().drop_last() =~= m.ops.subrange(0, len - 2));
            assert(self@ =~= drop_ops(m, 2));
            lemma_vals_wf_subrange(m.ops, m.dicts.heap.len(), 0, len - 2);
            assert(val_wf(m.ops[len - 1], m.dicts.heap.len()));
        }
        match (cv, pv) {
            (Value::Bool(c), Value::Procedure(body, cap)) => {
                if c {
                    if fuel == 0 {
                        return Result::Err(PsError::RecursionLimit);
                    }
                    let denv = match &cap {
                        Option::Some(e) => Option::Some(e),
                        Option::None => Option::None,
                    };
                    proof {
                        assert(crate::exec::denv_model(denv) == crate::value::abs_env_opt(cap));
                    }
                    self.exec_tokens(&body, denv, fuel - 1)
                } else {
                    Result::Ok(())
                }
            },
            _ => {
                proof {
                    assert(false);
                }
                Result::Err(PsError::TypeError)
            },
        }
    }

    /// The two-branch conditional primitive.
    fn op_ifelse(&mut self, fuel: u64) -> (r: Result<(), PsError>)
        requires
            machine_wf(old(self)@),
        ensures
            machine_wf(final(self)@),
            final(self).scope_mode == old(self).scope_mode,
            final(self)@.dicts.heap.len() >= old(self)@.dicts.heap.len(),
            outcome_matches(
                crate::semantics::step_ifelse(old(self)@, old(self).scope_mode, fuel as nat),
                final(self)@,
                r,
            ),
        decreases fuel, 0nat,
    {
        let ghost m = old(self)@;
        let len = self.opstack.len();
        if len < 3 {
            return Result::Err(PsError::StackUnderflow);
        }
        let ok_types = match (
            self.opstack.get(len - 3),
            self.opstack.get(len - 2),
            self.opstack.get(len - 1),
        ) {
            (Value::Bool(_), Value::Procedure(_, _), Value::Procedure(_, _)) => true,
            _ => false,
        };
        if !ok_types {
            return Result::Err(PsError::TypeError);
        }
        let p2 = match self.opstack.pop() {
            Result::Ok(v) => v,
            Result::Err(e) => {
                proof {
                    assert(false);
                }
                return Result::Err(e);
            },
        };
        let p1 = match self.opstack.pop() {
            Result::Ok(v) => v,
            Result::Err(e) => {
                proof {
                    assert(false);
                }
                return Result::Err(e);
            },
        };
        let cv = match self.opstack.pop() {
            Result::Ok(v) => v,
            Result::Err(e) => {
                proof {
                    assert(false);
                }
                return Result::Err(e);
            },
        };
        proof {
            assert(m.ops.drop_last().drop_last().drop_last() =~= m.ops.subrange(0, len - 3));
            assert(self@ =~= drop_ops(m, 3));
            lemma_vals_wf_subrange(m.ops, m.dicts.heap.len(), 0, len - 3);
            assert(val_wf(m.ops[len - 1], m.dicts.heap.len()));
            assert(val_wf(m.ops[len - 2], m.dicts.heap.len()));
        }
        if fuel == 0 {
            return Result::Err(PsError::RecursionLimit);
        }
        match (cv, p1, p2) {
            (Value::Bool(c), Value::Procedure(body1, cap1), Value::Procedure(body2, cap2)) => {
                if c {
                    let denv = match &cap1 {
                        Option::Some(e) => Option::Some(e),
                        Option::None => Option::None,
                    };
                    proof {
                        assert(crate::exec::denv_model(denv) == crate::value::abs_env_opt(cap1));
                    }
                    self.exec_tokens(&body1, denv, fuel - 1)
                } else {
                    let denv = match &cap2 {
                        Option::Some(e) => Option::Some(e),
                        Option::None => Option::None,
                    };
                    proof {
                        assert(crate::exec::denv_model(denv) == crate::value::abs_env_opt(cap2));
                    }
                    self.exec_tokens(&body2, denv, fuel - 1)
                }
            },
            _ => {
                proof {
                    assert(false);
                }
                Result::Err(PsError::TypeError)
            },
        }
    }

    /// The counted repetition primitive.
    #[verifier::loop_isolation(false)]
    fn op_repeat(&mut self, fuel: u64) -> (r: Result<(), PsError>)
        requires
            machine_wf(old(self)@),
        ensures
            machine_wf(final(self)@),
            final(self).scope_mode == old(self).scope_mode,
            final(self)@.dicts.heap.len() >= old(self)@.dicts.heap.len(),
            outcome_matches(
                crate::semantics::step_repeat(old(self)@, old(self).scope_mode, fuel as nat),
                final(self)@,
                r,
            ),
        decreases fuel, 0nat,
    {
        let ghost m = old(self)@;
        let ghost mode = old(self).scope_mode;
        let len = self.opstack.len();
        if len < 2 {
            return Result::Err(PsError::StackUnderflow);
        }
        let n: i32;
        match (self.opstack.get(len - 2), self.opstack.get(len - 1)) {
            (Value::Int(i), Value::Procedure(_, _)) => {
                n = *i;
            },
            _ => {
                return Result::Err(PsError::TypeError);
            },
        }
        if n < 0 {
            return Result::Err(PsError::RangeError);
        }
        let pv = match self.opstack.pop() {
            Result::Ok(v) => v,
            Result::Err(e) => {
                proof {
                    assert(false);
                }
                return Result::Err(e);
            },
        };
        self.opstack.drop_top(1);
        proof {
            assert(m.ops.drop_last() =~= m.ops.subrange(0, len - 1));
            assert(self@ =~= drop_ops(m, 2));
            lemma_vals_wf_subrange(m.ops, m.dicts.heap.len(), 0, len - 2);
            assert(val_wf(m.ops[len - 1], m.dicts.heap.len()));
        }
        match pv {
            Value::Procedure(body, cap) => {
                let ghost bm = crate::value::abs_tokens(body@);
                let ghost cm = crate::value::abs_env_opt(cap);
                let ghost m2 = drop_ops(m, 2);
                let mut k: i32 = 0;
                while k < n
                    invariant
                        0 <= k <= n,
                        machine_wf(self@),
                        self.scope_mode == mode,
                        self@.dicts.heap.len() >= m.dicts.heap.len(),
                        crate::value::toks_wf(bm, self@.dicts.heap.len()),
                        crate::exec::denv_wf(cm, self@.dicts.heap.len()),
                        crate::semantics::run_repeat(m2, bm, cm, n as nat, mode, fuel as nat)
                            == crate::semantics::run_repeat(
                            self@,
                            bm,
                            cm,
                            (n - k) as nat,
                            mode,
                            fuel as nat,
                        ),
                    decreases n - k,
                {
                    if fuel == 0 {
                        return Result::Err(PsError::RecursionLimit);
                    }
                    let denv = match &cap {
                        Option::Some(e) => Option::Some(e),
                        Option::None => Option::None,
                    };
                    proof {
                        assert(crate::exec::denv_model(denv) == cm);
                    }
                    let ghost before = self@;
                    match self.exec_tokens(&body, denv, fuel - 1) {
                        Result::Ok(()) => {},
                        Result::Err(e) => {
                            return Result::Err(e);
                        },
                    }
                    proof {
                        crate::value::lemma_toks_wf_mono(
                            bm,
                            before.dicts.heap.len(),
                            self@.dicts.heap.len(),
                        );
                    }
                    k = k + 1;
                }
                Result::Ok(())
            },
            _ => {
                proof {
                    assert(false);
                }
                Result::Err(PsError::TypeError)
            },
        }
    }

    /// The counted loop primitive.
    #[verifier::loop_isolation(false)]
    fn op_for(&mut self, fuel: u64) -> (r: Result<(), PsError>)
        requires
            machine_wf(old(self)@),
        ensures
            machine_wf(final(self)@),
            final(self).scope_mode == old(self).scope_mode,
            final(self)@.dicts.heap.len() >= old(self)@.dicts.heap.len(),
            outcome_matches(
                crate::semantics::step_for(old(self)@, old(self).scope_mode, fuel as nat),
                final(self)@,
                r,
            ),
        decreases fuel, 0nat,
    {
        let ghost m = old(self)@;
        let ghost mode = old(self).scope_mode;
        let len = self.opstack.len();
        if len < 4 {
            return Result::Err(PsError::StackUnderflow);
        }
        let i0: i32;
        let stp: i32;
        let lim: i32;
        match (
            self.opstack.get(len - 4),
            self.opstack.get(len - 3),
            self.opstack.get(len - 2),
            self.opstack.get(len - 1),
        ) {
            (Value::Int(a), Value::Int(b), Value::Int(c), Value::Procedure(_, _)) => {
                i0 = *a;
                stp = *b;
                lim = *c;
            },
            _ => {
                return Result::Err(PsError::TypeError);
            },
        }
        if stp == 0 {
            return Result::Err(PsError::RangeError);
        }
        let pv = match self.opstack.pop() {
            Result::Ok(v) => v,
            Result::Err(e) => {
                proof {
                    assert(false);
                }
                return Result::Err(e);
            },
        };
        self.opstack.drop_top(3);
        proof {
            assert(m.ops.drop_last() =~= m.ops.subrange(0, len - 1));
            assert(self@ =~= drop_ops(m, 4));
            lemma_vals_wf_subrange(m.ops, m.dicts.heap.len(), 0, len - 4);
            assert(val_wf(m.ops[len - 1], m.dicts.heap.len()));
        }
        match pv {
            Value::Procedure(body, cap) => {
                let ghost bm = crate::value::abs_tokens(body@);
                let ghost cm = crate::value::abs_env_opt(cap);
                let ghost m2 = drop_ops(m, 4);
                let mut i: i64 = i0 as i64;
                while (stp > 0 && i <= lim as i64) || (stp < 0 && i >= lim as i64)
                    invariant
                        stp != 0,
                        stp > 0 ==> (i as int == i0 as int || (i0 as int <= i as int <= lim as int
                            + stp as int)),
                        stp < 0 ==> (i as int == i0 as int || (lim as int + stp as int <= i as int
                            <= i0 as int)),
                        machine_wf(self@),
                        self.scope_mode == mode,
                        self@.dicts.heap.len() >= m.dicts.heap.len(),
                        crate::value::toks_wf(bm, self@.dicts.heap.len()),
                        crate::exec::denv_wf(cm, self@.dicts.heap.len()),
                        crate::semantics::run_for(
                            m2,
                            bm,
                            cm,
                            i0 as int,
                            stp as int,
                            lim as int,
                            mode,
                            fuel as nat,
                        ) == crate::semantics::run_for(
                            self@,
                            bm,
                            cm,
                            i as int,
                            stp as int,
                            lim as int,
                            mode,
                            fuel as nat,
                        ),
                    decreases crate::semantics::for_measure(i as int, stp as int, lim as int),
                {
                    if fuel == 0 {
                        return Result::Err(PsError::RecursionLimit);
                    }
                    let ghost before = self@;
                    let ctrl = Value::Int(i as i32);
                    proof {
                        crate::value::lemma_vals_wf_push(
                            self@.ops,
                            self@.dicts.heap.len(),
                            abs_value(ctrl),
                        );
                    }
                    self.opstack.push(ctrl);
                    proof {
                        assert(self@ =~= crate::semantics::push_val(
                            before,
                            AbsValue::Int(i as int),
                        ));
                    }
                    let denv = match &cap {
                        Option::Some(e) => Option::Some(e),
                        Option::None => Option::None,
                    };
                    proof {
                        assert(crate::exec::denv_model(denv) == cm);
                    }
                    let ghost pushed = self@;
                    match self.exec_tokens(&body, denv, fuel - 1) {
                        Result::Ok(()) => {},
                        Result::Err(e) => {
                            return Result::Err(e);
                        },
                    }
                    proof {
                        crate::value::lemma_toks_wf_mono(
                            bm,
                            pushed.dicts.heap.len(),
                            self@.dicts.heap.len(),
                        );
                    }
                    i = i + stp as i64;
                }
                Result::Ok(())
            },
            _ => {
                proof {
                    assert(false);
                }
                Result::Err(PsError::TypeError)
            },
        }
    }

    /// The primitive dispatch: performs the named primitive if there is one,
    /// reporting whether the name was handled; a primitive's own failure is
    /// passed through.
    #[verifier::rlimit(80)]
    pub fn try_builtin(&mut self, name: &Vec<char>, fuel: u64) -> (r: Result<bool, PsError>)
        requires
            machine_wf(old(self)@),
        ensures
            machine_wf(final(self)@),
            final(self).scope_mode == old(self).scope_mode,
            final(self)@.dicts.heap.len() >= old(self)@.dicts.heap.len(),
            match crate::semantics::builtin_step(
                old(self)@,
                name@,
                old(self).scope_mode,
                fuel as nat,
            ) {
                Option::None => r == Result::<bool, PsError>::Ok(false)
                    && final(self)@ == old(self)@,
                Option::Some(Outcome::Done(m)) => r == Result::<bool, PsError>::Ok(true)
                    && final(self)@ == m,
                Option::Some(Outcome::Fail(m, e)) => r == Result::<bool, PsError>::Err(e)
                    && final(self)@ == m,
            },
        decreases fuel, 1nat,
    {
        if crate::value::chars_is(name, "add") {
            return match self.op_arith(ArithOp::Add) {
                Result::Ok(()) => Result::Ok(true),
                Result::Err(e) => Result::Err(e),
            };
        }
        if crate::value::chars_is(name, "sub") {
            return match self.op_arith(ArithOp::Sub) {
                Result::Ok(()) => Result::Ok(true),
                Result::Err(e) => Result::Err(e),
            };
        }
        if crate::value::chars_is(name, "mul") {
            return match self.op_arith(ArithOp::Mul) {
                Result::Ok(()) => Result::Ok(true),
                Result::Err(e) => Result::Err(e),
            };
        }
        if crate::value::chars_is(name, "div") {
            return match self.op_arith(ArithOp::Div) {
                Result::Ok(()) => Result::Ok(true),
                Result::Err(e) => Result::Err(e),
            };
        }
        if crate::value::chars_is(name, "mod") {
            return match self.op_arith(ArithOp::Mod) {
                Result::Ok(()) => Result::Ok(true),
                Result::Err(e) => Result::Err(e),
            };
        }
        if crate::value::chars_is(name, "dup") {
            return match self.op_dup() {
                Result::Ok(()) => Result::Ok(true),
                Result::Err(e) => Result::Err(e),
            };
        }
        if crate::value::chars_is(name, "exch") {
            return match self.op_exch() {
                Result::Ok(()) => Result::Ok(true),
                Result::Err(e) => Result::Err(e),
            };
        }
        if crate::value::chars_is(name, "copy") {
            return match self.op_copy() {
                Result::Ok(()) => Result::Ok(true),
                Result::Err(e) => Result::Err(e),
            };
        }
        if crate::value::chars_is(name, "pop") {
            return match self.op_pop() {
                Result::Ok(()) => Result::Ok(true),
                Result::Err(e) => Result::Err(e),
            };
        }
        if crate::value::chars_is(name, "count") {
            return match self.op_count() {
                Result::Ok(()) => Result::Ok(true),
                Result::Err(e) => Result::Err(e),
            };
        }
        if crate::value::chars_is(name, "clear") {
            return match self.op_clear() {
                Result::Ok(()) => Result::Ok(true),
                Result::Err(e) => Result::Err(e),
            };
        }
        if crate::value::chars_is(name, "dict") {
            return match self.op_dict() {
                Result::Ok(()) => Result::Ok(true),
                Result::Err(e) => Result::Err(e),
            };
        }
        if crate::value::chars_is(name, "begin") {
            return match self.op_begin() {
                Result::Ok(()) => Result::Ok(true),
                Result::Err(e) => Result::Err(e),
            };
        }
        if crate::value::chars_is(name, "end") {
            return match self.op_end() {
                Result::Ok(()) => Result::Ok(true),
                Result::Err(e) => Result::Err(e),
            };
        }
        if crate::value::chars_is(name, "length") {
            return match self.op_length() {
                Result::Ok(()) => Result::Ok(true),
                Result::Err(e) => Result::Err(e),
            };
        }
        if crate::value::chars_is(name, "def") {
            return match self.op_def() {
                Result::Ok(()) => Result::Ok(true),
                Result::Err(e) => Result::Err(e),
            };
        }
        if crate::value::chars_is(name, "get") {
            return match self.op_get() {
                Result::Ok(()) => Result::Ok(true),
                Result::Err(e) => Result::Err(e),
            };
        }
        if crate::value::chars_is(name, "getinterval") {
            return match self.op_getinterval() {
                Result::Ok(()) => Result::Ok(true),
                Result::Err(e) => Result::Err(e),
            };
        }
        if crate::value::chars_is(name, "putinterval") {
            return match self.op_putinterval() {
                Result::Ok(()) => Result::Ok(true),
                Result::Err(e) => Result::Err(e),
            };
        }
        if crate::value::chars_is(name, "eq") {
            return match self.op_eq(false) {
                Result::Ok(()) => Result::Ok(true),
                Result::Err(e) => Result::Err(e),
            };
        }
        if crate::value::chars_is(name, "ne") {
            return match self.op_eq(true) {
                Result::Ok(()) => Result::Ok(true),
                Result::Err(e) => Result::Err(e),
            };
        }
        if crate::value::chars_is(name, "gt") {
            return match self.op_cmp(true) {
                Result::Ok(()) => Result::Ok(true),
                Result::Err(e) => Result::Err(e),
            };
        }
        if crate::value::chars_is(name, "lt") {
            return match self.op_cmp(false) {
                Result::Ok(()) => Result::Ok(true),
                Result::Err(e) => Result::Err(e),
            };
        }
        if crate::value::chars_is(name, "and") {
            return match self.op_bool(false) {
                Result::Ok(()) => Result::Ok(true),
                Result::Err(e) => Result::Err(e),
            };
        }
        if crate::value::chars_is(name, "or") {
            return match self.op_bool(true) {
                Result::Ok(()) => Result::Ok(true),
                Result::Err(e) => Result::Err(e),
            };
        }
        if crate::value::chars_is(name, "not") {
            return match self.op_not() {
                Result::Ok(()) => Result::Ok(true),
                Result::Err(e) => Result::Err(e),
            };
        }
        if crate::value::chars_is(name, "print") {
            return match self.op_print() {
                Result::Ok(()) => Result::Ok(true),
                Result::Err(e) => Result::Err(e),
            };
        }
        if crate::value::chars_is(name, "=") {
            return match self.op_report(false) {
                Result::Ok(()) => Result::Ok(true),
                Result::Err(e) => Result::Err(e),
            };
        }
        if crate::value::chars_is(name, "==") {
            return match self.op_report(true) {
                Result::Ok(()) => Result::Ok(true),
                Result::Err(e) => Result::Err(e),
            };
        }
        if crate::value::chars_is(name, "if") {
            return match self.op_if(fuel) {
                Result::Ok(()) => Result::Ok(true),
                Result::Err(e) => Result::Err(e),
            };
        }
        if crate::value::chars_is(name, "ifelse") {
            return match self.op_ifelse(fuel) {
                Result::Ok(()) => Result::Ok(true),
                Result::Err(e) => Result::Err(e),
            };
        }
        if crate::value::chars_is(name, "repeat") {
            return match self.op_repeat(fuel) {
                Result::Ok(()) => Result::Ok(true),
                Result::Err(e) => Result::Err(e),
            };
        }
        if crate::value::chars_is(name, "for") {
            return match self.op_for(fuel) {
                Result::Ok(()) => Result::Ok(true),
                Result::Err(e) => Result::Err(e),
            };
        }
        Result::Ok(false)
    }
}

} // verus!
