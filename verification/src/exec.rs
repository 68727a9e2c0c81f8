//! The interpreter: the recursive evaluator over a token sequence, with the
//! operand stack, the dictionary stack and the output buffer as its ambient
//! state.
//!
//! `exec_tokens` is proved to compute `crate::semantics::eval_tokens`;
//! `interpret` tokenizes and evaluates with no defining environment. Printing
//! primitives append to the `output` field; an embedding shell drains it with
//! `take_output`.

use vstd::prelude::*;

use crate::dict::{env_wf, DictStack};
use crate::error::PsError;
use crate::scope::ScopeMode;
use crate::semantics::{
    eval_name, eval_tokens, machine_wf, outcome_matches, push_val, AbsMachine, Outcome,
};
use crate::stack::OperandStack;
use crate::tokenizer::{tokenize, tokenize_model};
use crate::value::{
    abs_env_opt, abs_handles, abs_token, abs_tokens, abs_value, abs_values, val_wf, AbsToken,
    AbsValue, Token, Value,
};

verus! {

/// The depth budget for procedure calls: a call nested deeper than this
/// fails with `PsError::RecursionLimit` instead of exhausting the host stack.
pub const DEPTH_LIMIT: u64 = 256;

/// The interpreter state.
pub struct Interpreter {
    /// The operand stack holding intermediate values.
    pub opstack: OperandStack,
    /// The dictionary stack with its frame arena.
    pub dict: DictStack,
    /// The name-resolution discipline, fixed at construction.
    pub scope_mode: ScopeMode,
    /// Everything the printing primitives have produced and nobody drained.
    pub output: Vec<char>,
}

impl View for Interpreter {
    type V = AbsMachine;

    open spec fn view(&self) -> AbsMachine {
        AbsMachine { ops: self.opstack@, dicts: self.dict@, out: self.output@ }
    }
}

/// Model of an optional borrowed defining environment.
pub open spec fn denv_model(e: Option<&Vec<usize>>) -> Option<Seq<nat>> {
    match e {
        Option::Some(v) => Option::Some(abs_handles(v@)),
        Option::None => Option::None,
    }
}

/// Well-formedness of an optional defining environment.
pub open spec fn denv_wf(d: Option<Seq<nat>>, heap_len: nat) -> bool {
    match d {
        Option::Some(e) => env_wf(e, heap_len),
        Option::None => true,
    }
}

impl Interpreter {
    /// Creates an interpreter with an empty operand stack, the sole global
    /// frame, an empty output buffer, and the given scoping discipline.
    pub fn new(scope: ScopeMode) -> (r: Self)
        ensures
            machine_wf(r@),
            r.scope_mode == scope,
            r@.ops =~= Seq::<AbsValue>::empty(),
            r@.out =~= Seq::<char>::empty(),
            r@.dicts.live.len() == 1,
            r@.dicts.heap.len() == 1,
            r@.dicts.heap[0] =~= Seq::<crate::dict::AbsBinding>::empty(),
    {
        Interpreter {
            opstack: OperandStack::new(),
            dict: DictStack::new(),
            scope_mode: scope,
            output: Vec::new(),
        }
    }

    /// Pushes a value onto the operand stack.
    pub fn push(&mut self, v: Value)
        requires
            machine_wf(old(self)@),
            val_wf(abs_value(v), old(self)@.dicts.heap.len()),
        ensures
            machine_wf(final(self)@),
            final(self)@ == push_val(old(self)@, abs_value(v)),
            final(self).scope_mode == old(self).scope_mode,
    {
        proof {
            crate::value::lemma_vals_wf_push(
                old(self)@.ops,
                old(self)@.dicts.heap.len(),
                abs_value(v),
            );
        }
        self.opstack.push(v);
        proof {
            assert(self@ =~= push_val(old(self)@, abs_value(v)));
        }
    }

    /// Removes and returns the top value; fails on an empty stack, which it
    /// leaves unchanged.
    pub fn pop(&mut self) -> (r: Result<Value, PsError>)
        requires
            machine_wf(old(self)@),
        ensures
            machine_wf(final(self)@),
            final(self).scope_mode == old(self).scope_mode,
            match r {
                Result::Ok(v) => {
                    &&& old(self)@.ops.len() > 0
                    &&& abs_value(v) == old(self)@.ops.last()
                    &&& final(self)@ == (AbsMachine { ops: old(self)@.ops.drop_last(), ..old(self)@ })
                },
                Result::Err(e) => {
                    &&& e == PsError::StackUnderflow
                    &&& old(self)@.ops.len() == 0
                    &&& final(self)@ == old(self)@
                },
            },
    {
        let r = self.opstack.pop();
        proof {
            match r {
                Result::Ok(_) => {
                    assert(self@ =~= (AbsMachine { ops: old(self)@.ops.drop_last(), ..old(self)@ }));
                    crate::value::lemma_vals_wf_subrange(
                        old(self)@.ops,
                        old(self)@.dicts.heap.len(),
                        0,
                        old(self)@.ops.len() - 1,
                    );
                    assert(old(self)@.ops.drop_last() =~= old(self)@.ops.subrange(
                        0,
                        old(self)@.ops.len() - 1,
                    ));
                },
                Result::Err(_) => {
                    assert(self@ =~= old(self)@);
                },
            }
        }
        r
    }

    /// A reference to the top of the operand stack, without removing it.
    pub fn peek(&self) -> (r: Option<&Value>)
        ensures
            match r {
                Option::Some(v) => self@.ops.len() > 0 && abs_value(*v) == self@.ops.last(),
                Option::None => self@.ops.len() == 0,
            },
    {
        self.opstack.peek()
    }

    /// The number of values on the operand stack.
    pub fn len(&self) -> (r: usize)
        ensures
            r == self@.ops.len(),
    {
        self.opstack.len()
    }

    /// Removes every value from the operand stack.
    pub fn clear(&mut self)
        requires
            machine_wf(old(self)@),
        ensures
            machine_wf(final(self)@),
            final(self).scope_mode == old(self).scope_mode,
            final(self)@ == (AbsMachine { ops: Seq::<AbsValue>::empty(), ..old(self)@ }),
    {
        self.opstack.clear();
        proof {
            assert(self@ =~= (AbsMachine { ops: Seq::<AbsValue>::empty(), ..old(self)@ }));
        }
    }

    /// An ordered copy of the operand stack, bottom to top.
    pub fn opstack_snapshot(&self) -> (r: Vec<Value>)
        ensures
            abs_values(r@) == self@.ops,
    {
        self.opstack.snapshot()
    }

    /// Evaluates a token sequence under an optional defining environment.
    ///
    /// Computes `eval_tokens`: each literal is pushed unchanged; each
    /// executable name is tried as a primitive and otherwise resolved —
    /// dynamically against the live environment, or lexically against the
    /// captured `defining_env` where one was supplied. A resolved procedure
    /// is evaluated recursively under its own captured environment with one
    /// unit less of the depth budget `fuel`; any other resolved value is
    /// pushed. The first error is terminal.
    #[verifier::loop_isolation(false)]
    #[verifier::rlimit(60)]
    pub fn exec_tokens(
        &mut self,
        tokens: &Vec<Token>,
        defining_env: Option<&Vec<usize>>,
        fuel: u64,
    ) -> (r: Result<(), PsError>)
        requires
            machine_wf(old(self)@),
            crate::value::toks_wf(abs_tokens(tokens@), old(self)@.dicts.heap.len()),
            denv_wf(denv_model(defining_env), old(self)@.dicts.heap.len()),
        ensures
            machine_wf(final(self)@),
            final(self).scope_mode == old(self).scope_mode,
            final(self)@.dicts.heap.len() >= old(self)@.dicts.heap.len(),
            outcome_matches(
                eval_tokens(
                    old(self)@,
                    abs_tokens(tokens@),
                    denv_model(defining_env),
                    old(self).scope_mode,
                    fuel as nat,
                ),
                final(self)@,
                r,
            ),
        decreases fuel, 2nat,
    {
        let ghost m0 = self@;
        let ghost toks = abs_tokens(tokens@);
        let ghost denv = denv_model(defining_env);
        let ghost mode = self.scope_mode;
        proof {
            crate::value::lemma_abs_tokens_elementwise(tokens@);
            assert(toks.skip(0) =~= toks);
        }
        let n = tokens.len();
        let mut idx: usize = 0;
        while idx < n
            invariant
                idx <= n,
                machine_wf(self@),
                self.scope_mode == mode,
                self@.dicts.heap.len() >= m0.dicts.heap.len(),
                crate::value::toks_wf(toks, self@.dicts.heap.len()),
                denv_wf(denv, self@.dicts.heap.len()),
                eval_tokens(m0, toks, denv, mode, fuel as nat) == eval_tokens(
                    self@,
                    toks.skip(idx as int),
                    denv,
                    mode,
                    fuel as nat,
                ),
            decreases n - idx,
        {
            let ghost rem = toks.skip(idx as int);
            proof {
                assert(rem.len() == n - idx);
                assert(rem[0] == toks[idx as int]);
                assert(rem[0] == abs_token(tokens@[idx as int]));
                assert(rem.drop_first() =~= toks.skip(idx as int + 1));
            }
            match &tokens[idx] {
                Token::Literal(v) => {
                    proof {
                        crate::value::lemma_toks_wf_index(
                            toks,
                            self@.dicts.heap.len(),
                            idx as int,
                        );
                        crate::value::lemma_vals_wf_push(
                            self@.ops,
                            self@.dicts.heap.len(),
                            abs_value(*v),
                        );
                    }
                    let ghost pre = self@;
                    let c = crate::value::clone_value(v);
                    self.opstack.push(c);
                    proof {
                        assert(self@ =~= push_val(pre, abs_value(*v)));
                    }
                    idx = idx + 1;
                },
                Token::ExecName(name) => {
                    let ghost pre = self@;
                    let handled = self.try_builtin(name, fuel);
                    proof {
                        crate::value::lemma_toks_wf_mono(
                            toks,
                            pre.dicts.heap.len(),
                            self@.dicts.heap.len(),
                        );
                    }
                    match handled {
                        Result::Err(e) => {
                            proof {
                                assert(eval_name(pre, name@, denv, mode, fuel as nat)
                                    == Outcome::Fail(self@, e));
                            }
                            return Result::Err(e);
                        },
                        Result::Ok(true) => {
                            proof {
                                assert(eval_name(pre, name@, denv, mode, fuel as nat)
                                    == Outcome::Done(self@));
                            }
                            idx = idx + 1;
                        },
                        Result::Ok(false) => {
                            let resolved: Option<Value> = if self.scope_mode
                                == ScopeMode::Dynamic {
                                self.dict.lookup_dynamic(name)
                            } else {
                                match defining_env {
                                    Option::Some(e) => self.dict.lookup_lexical(name, e),
                                    Option::None => self.dict.lookup_dynamic(name),
                                }
                            };
                            match resolved {
                                Option::None => {
                                    proof {
                                        assert(eval_name(pre, name@, denv, mode, fuel as nat)
                                            == Outcome::Fail(pre, PsError::UndefinedName));
                                    }
                                    return Result::Err(PsError::UndefinedName);
                                },
                                Option::Some(rv) => {
                                    proof {
                                        crate::dict::lemma_env_find_wf(
                                            self@.dicts,
                                            self@.dicts.live,
                                            name@,
                                        );
                                        match denv {
                                            Option::Some(e) => {
                                                crate::dict::lemma_env_find_wf(
                                                    self@.dicts,
                                                    e,
                                                    name@,
                                                );
                                            },
                                            Option::None => {},
                                        }
                                        assert(val_wf(abs_value(rv), self@.dicts.heap.len()));
                                    }
                                    match rv {
                                        Value::Procedure(body, cap) => {
                                            if fuel == 0 {
                                                proof {
                                                    assert(eval_name(
                                                        pre,
                                                        name@,
                                                        denv,
                                                        mode,
                                                        fuel as nat,
                                                    ) == Outcome::Fail(
                                                        pre,
                                                        PsError::RecursionLimit,
                                                    ));
                                                }
                                                return Result::Err(PsError::RecursionLimit);
                                            }
                                            let sub = match &cap {
                                                Option::Some(e) => Option::Some(e),
                                                Option::None => Option::None,
                                            };
                                            proof {
                                                assert(denv_model(sub) == abs_env_opt(cap));
                                            }
                                            let res = self.exec_tokens(&body, sub, fuel - 1);
                                            proof {
                                                crate::value::lemma_toks_wf_mono(
                                                    toks,
                                                    pre.dicts.heap.len(),
                                                    self@.dicts.heap.len(),
                                                );
                                            }
                                            match res {
                                                Result::Ok(()) => {
                                                    idx = idx + 1;
                                                },
                                                Result::Err(e) => {
                                                    return Result::Err(e);
                                                },
                                            }
                                        },
                                        other => {
                                            let ghost ov = abs_value(other);
                                            proof {
                                                crate::value::lemma_vals_wf_push(
                                                    self@.ops,
                                                    self@.dicts.heap.len(),
                                                    ov,
                                                );
                                            }
                                            let ghost before_push = self@;
                                            self.opstack.push(other);
                                            proof {
                                                assert(self@ =~= push_val(before_push, ov));
                                            }
                                            idx = idx + 1;
                                        },
                                    }
                                },
                            }
                        },
                    }
                },
            }
        }
        proof {
            assert(toks.skip(n as int) =~= Seq::<AbsToken>::empty());
        }
        Result::Ok(())
    }

    /// Tokenizes the source text and evaluates the tokens with no defining
    /// environment, under the engine's depth budget.
    pub fn interpret(&mut self, src: &str) -> (r: Result<(), PsError>)
        requires
            machine_wf(old(self)@),
        ensures
            machine_wf(final(self)@),
            final(self).scope_mode == old(self).scope_mode,
            match tokenize_model(src@) {
                Result::Err(e) => r == Result::<(), PsError>::Err(e) && final(self)@ == old(
                    self,
                )@,
                Result::Ok(ts) => outcome_matches(
                    eval_tokens(
                        old(self)@,
                        ts,
                        Option::None,
                        old(self).scope_mode,
                        DEPTH_LIMIT as nat,
                    ),
                    final(self)@,
                    r,
                ),
            },
    {
        let toks = match tokenize(src) {
            Result::Ok(t) => t,
            Result::Err(e) => {
                return Result::Err(e);
            },
        };
        self.exec_tokens(&toks, Option::None, DEPTH_LIMIT)
    }

    /// Drains the output buffer: returns everything the printing primitives
    /// have produced since the last drain.
    pub fn take_output(&mut self) -> (r: Vec<char>)
        requires
            machine_wf(old(self)@),
        ensures
            machine_wf(final(self)@),
            final(self).scope_mode == old(self).scope_mode,
            r@ == old(self)@.out,
            final(self)@ == (AbsMachine { out: Seq::<char>::empty(), ..old(self)@ }),
    {
        let mut taken: Vec<char> = Vec::new();
        core::mem::swap(&mut taken, &mut self.output);
        proof {
            assert(self@ =~= (AbsMachine { out: Seq::<char>::empty(), ..old(self)@ }));
        }
        taken
    }
}

} // verus!
