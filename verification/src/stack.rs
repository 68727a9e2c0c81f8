//! The operand stack: a LIFO sequence of runtime values with bounds-checked
//! access.
//!
//! Its view is the sequence of value models, bottom first; the top of the
//! stack is the last element of the view.

use vstd::prelude::*;

use crate::error::PsError;
use crate::value::{abs_value, abs_values, clone_value, AbsValue, Value};
use crate::value::{lemma_abs_values_drop_last, lemma_abs_values_elementwise, lemma_abs_values_push};

verus! {

/// The operand stack. No element ever moves except at the top.
pub struct OperandStack {
    items: Vec<Value>,
}

impl View for OperandStack {
    type V = Seq<AbsValue>;

    /// The models of the held values, bottom of the stack first.
    closed spec fn view(&self) -> Seq<AbsValue> {
        abs_values(self.items@)
    }
}

impl OperandStack {
    /// Creates an empty stack.
    pub fn new() -> (r: Self)
        ensures
            r@ =~= Seq::<AbsValue>::empty(),
    {
        Self { items: Vec::new() }
    }

    /// Pushes a value on top. Always succeeds.
    pub fn push(&mut self, v: Value)
        ensures
            final(self)@ =~= old(self)@.push(abs_value(v)),
    {
        proof {
            lemma_abs_values_push(self.items@, v);
        }
        self.items.push(v);
    }

    /// Removes and returns the top value; fails on an empty stack, which it
    /// leaves unchanged.
    pub fn pop(&mut self) -> (r: Result<Value, PsError>)
        ensures
            match r {
                Result::Ok(v) => {
                    &&& old(self)@.len() > 0
                    &&& abs_value(v) == old(self)@.last()
                    &&& final(self)@ =~= old(self)@.drop_last()
                },
                Result::Err(e) => {
                    &&& e == PsError::StackUnderflow
                    &&& old(self)@.len() == 0
                    &&& final(self)@ == old(self)@
                },
            },
    {
        proof {
            lemma_abs_values_elementwise(self.items@);
            if self.items@.len() > 0 {
                lemma_abs_values_drop_last(self.items@);
            }
        }
        match self.items.pop() {
            Option::Some(v) => Result::Ok(v),
            Option::None => Result::Err(PsError::StackUnderflow),
        }
    }

    /// A reference to the top value without removing it; `None` on an empty
    /// stack.
    pub fn peek(&self) -> (r: Option<&Value>)
        ensures
            match r {
                Option::Some(v) => self@.len() > 0 && abs_value(*v) == self@.last(),
                Option::None => self@.len() == 0,
            },
    {
        proof {
            lemma_abs_values_elementwise(self.items@);
        }
        if self.items.len() == 0 {
            Option::None
        } else {
            Option::Some(&self.items[self.items.len() - 1])
        }
    }

    /// A reference to the value at depth `i`, counted from the bottom.
    pub fn get(&self, i: usize) -> (r: &Value)
        requires
            i < self@.len(),
        ensures
            abs_value(*r) == self@[i as int],
    {
        proof {
            lemma_abs_values_elementwise(self.items@);
        }
        &self.items[i]
    }

    /// The number of held values.
    pub fn len(&self) -> (r: usize)
        ensures
            r == self@.len(),
    {
        proof {
            lemma_abs_values_elementwise(self.items@);
        }
        self.items.len()
    }

    /// Removes every value.
    pub fn clear(&mut self)
        ensures
            final(self)@ =~= Seq::<AbsValue>::empty(),
    {
        self.items.clear();
    }

    /// Removes the top `n` values.
    pub fn drop_top(&mut self, n: usize)
        requires
            n <= old(self)@.len(),
        ensures
            final(self)@ =~= old(self)@.subrange(0, old(self)@.len() - n as int),
    {
        proof {
            lemma_abs_values_elementwise(self.items@);
        }
        let keep = self.items.len() - n;
        self.items.truncate(keep);
        proof {
            lemma_abs_values_elementwise(self.items@);
            assert forall|i: int| 0 <= i < self@.len() implies self@[i] == old(self)@.subrange(
                0,
                old(self)@.len() - n as int,
            )[i] by {
                assert(self.items@[i] == old(self).items@[i]);
            }
        }
    }

    /// An ordered copy of all held values, bottom to top.
    pub fn snapshot(&self) -> (r: Vec<Value>)
        ensures
            abs_values(r@) =~= self@,
    {
        let mut out: Vec<Value> = Vec::new();
        let mut i: usize = 0;
        proof {
            lemma_abs_values_elementwise(self.items@);
        }
        while i < self.items.len()
            invariant
                i <= self.items.len(),
                abs_values(self.items@) == self@,
                abs_values(out@).len() == i,
                forall|j: int| 0 <= j < i ==> abs_values(out@)[j] == self@[j],
                forall|j: int|
                    0 <= j < self.items@.len() ==> abs_values(self.items@)[j] == abs_value(
                        self.items@[j],
                    ),
            decreases self.items.len() - i,
        {
            let ghost prev = out@;
            let c = clone_value(&self.items[i]);
            out.push(c);
            i = i + 1;
            proof {
                lemma_abs_values_push(prev, c);
            }
        }
        proof {
            lemma_abs_values_elementwise(self.items@);
        }
        out
    }
}

} // verus!
