//! Runtime values and tokens of the interpreter, together with their
//! mathematical models.
//!
//! A `Value` is what the operand stack holds; a `Token` is what the tokenizer
//! produces. Procedure bodies are pre-parsed token sequences, so the two types
//! are mutually recursive. Dictionaries are shared between the operand stack
//! and the dictionary stack; that sharing is modeled by integer handles into
//! an arena of frames owned by the dictionary stack (`crate::dict`).
//!
//! The models (`AbsValue`, `AbsToken`) replace every executable container by
//! its mathematical counterpart; contracts throughout the crate speak of
//! values only through `abs_value` and `abs_tokens`.

use vstd::prelude::*;

verus! {

/// A runtime value.
///
/// Numbers written with a fraction or an exponent are carried as their
/// lexeme (`Real`); the engine never computes with them, it only moves them.
/// `Dict` holds a handle into the frame arena of the dictionary stack.
/// A `Procedure` holds its pre-parsed body and, once it has been bound under
/// lexical scoping, the captured environment: a sequence of frame handles.
#[derive(Debug)]
pub enum Value {
    Int(i32),
    Real(Vec<char>),
    Bool(bool),
    Str(Vec<char>),
    Name(Vec<char>),
    Dict(usize),
    Procedure(Vec<Token>, Option<Vec<usize>>),
}

/// One token: either a literal value, ready to push, or an executable name
/// that is dispatched at evaluation time.
#[derive(Debug)]
pub enum Token {
    Literal(Value),
    ExecName(Vec<char>),
}

/// The mathematical model of a `Value`.
pub enum AbsValue {
    Int(int),
    Real(Seq<char>),
    Bool(bool),
    Str(Seq<char>),
    Name(Seq<char>),
    Dict(nat),
    Procedure(Seq<AbsToken>, Option<Seq<nat>>),
}

/// The mathematical model of a `Token`.
pub enum AbsToken {
    Literal(AbsValue),
    ExecName(Seq<char>),
}

/// Model of an optional captured environment: each handle as a `nat`.
pub open spec fn abs_env_opt(e: Option<Vec<usize>>) -> Option<Seq<nat>> {
    match e {
        Option::None => Option::None,
        Option::Some(v) => Option::Some(abs_handles(v@)),
    }
}

/// Model of a sequence of frame handles.
pub open spec fn abs_handles(s: Seq<usize>) -> Seq<nat> {
    Seq::new(s.len(), |i: int| s[i] as nat)
}

/// Model of a single value.
pub open spec fn abs_value(v: Value) -> AbsValue
    decreases v,
{
    match v {
        Value::Int(i) => AbsValue::Int(i as int),
        Value::Real(cs) => AbsValue::Real(cs@),
        Value::Bool(b) => AbsValue::Bool(b),
        Value::Str(cs) => AbsValue::Str(cs@),
        Value::Name(cs) => AbsValue::Name(cs@),
        Value::Dict(h) => AbsValue::Dict(h as nat),
        Value::Procedure(body, env) => AbsValue::Procedure(abs_tokens(body@), abs_env_opt(env)),
    }
}

/// Model of a sequence of values, elementwise.
pub open spec fn abs_values(s: Seq<Value>) -> Seq<AbsValue>
    decreases s,
{
    if s.len() == 0 {
        Seq::empty()
    } else {
        seq![abs_value(s[0])] + abs_values(s.drop_first())
    }
}

/// Model of a single token.
pub open spec fn abs_token(t: Token) -> AbsToken
    decreases t,
{
    match t {
        Token::Literal(v) => AbsToken::Literal(abs_value(v)),
        Token::ExecName(cs) => AbsToken::ExecName(cs@),
    }
}

/// Model of a sequence of tokens, elementwise.
pub open spec fn abs_tokens(s: Seq<Token>) -> Seq<AbsToken>
    decreases s,
{
    if s.len() == 0 {
        Seq::empty()
    } else {
        seq![abs_token(s[0])] + abs_tokens(s.drop_first())
    }
}

/// `abs_values` is the elementwise map of `abs_value`.
pub proof fn lemma_abs_values_elementwise(s: Seq<Value>)
    ensures
        abs_values(s).len() == s.len(),
        forall|i: int| 0 <= i < s.len() ==> abs_values(s)[i] == abs_value(s[i]),
    decreases s,
{
    if s.len() > 0 {
        lemma_abs_values_elementwise(s.drop_first());
    }
}

/// `abs_tokens` is the elementwise map of `abs_token`.
pub proof fn lemma_abs_tokens_elementwise(s: Seq<Token>)
    ensures
        abs_tokens(s).len() == s.len(),
        forall|i: int| 0 <= i < s.len() ==> abs_tokens(s)[i] == abs_token(s[i]),
    decreases s,
{
    if s.len() > 0 {
        lemma_abs_tokens_elementwise(s.drop_first());
    }
}

/// Pushing a value appends its model.
pub proof fn lemma_abs_values_push(s: Seq<Value>, v: Value)
    ensures
        abs_values(s.push(v)) =~= abs_values(s).push(abs_value(v)),
{
    lemma_abs_values_elementwise(s.push(v));
    lemma_abs_values_elementwise(s);
    assert forall|i: int| 0 <= i < s.len() + 1 implies abs_values(s.push(v))[i] == abs_values(
        s,
    ).push(abs_value(v))[i] by {
        if i < s.len() {
            assert(s.push(v)[i] == s[i]);
        } else {
            assert(s.push(v)[i] == v);
        }
    }
}

/// Dropping the last value drops the last model.
pub proof fn lemma_abs_values_drop_last(s: Seq<Value>)
    requires
        s.len() > 0,
    ensures
        abs_values(s.drop_last()) =~= abs_values(s).drop_last(),
        abs_value(s.last()) == abs_values(s).last(),
    decreases s,
{
    lemma_abs_values_elementwise(s.drop_last());
    lemma_abs_values_elementwise(s);
}

/// Pushing a token appends its model.
pub proof fn lemma_abs_tokens_push(s: Seq<Token>, t: Token)
    ensures
        abs_tokens(s.push(t)) =~= abs_tokens(s).push(abs_token(t)),
{
    lemma_abs_tokens_elementwise(s.push(t));
    lemma_abs_tokens_elementwise(s);
    assert forall|i: int| 0 <= i < s.len() + 1 implies abs_tokens(s.push(t))[i] == abs_tokens(
        s,
    ).push(abs_token(t))[i] by {
        if i < s.len() {
            assert(s.push(t)[i] == s[i]);
        } else {
            assert(s.push(t)[i] == t);
        }
    }
}

/// Well-formedness of a value model with respect to an arena of `heap_len`
/// frames: every dictionary handle and every handle of a captured environment
/// points into the arena.
pub open spec fn val_wf(v: AbsValue, heap_len: nat) -> bool
    decreases v,
{
    match v {
        AbsValue::Dict(h) => h < heap_len,
        AbsValue::Procedure(body, env) => {
            &&& toks_wf(body, heap_len)
            &&& match env {
                Option::None => true,
                Option::Some(hs) => forall|i: int| 0 <= i < hs.len() ==> hs[i] < heap_len,
            }
        },
        _ => true,
    }
}

/// Well-formedness of a token sequence model: every literal is well-formed.
pub open spec fn toks_wf(ts: Seq<AbsToken>, heap_len: nat) -> bool
    decreases ts,
{
    if ts.len() == 0 {
        true
    } else {
        let head = match ts[0] {
            AbsToken::Literal(v) => val_wf(v, heap_len),
            AbsToken::ExecName(_) => true,
        };
        head && toks_wf(ts.drop_first(), heap_len)
    }
}

/// Well-formedness of every value in a sequence.
pub open spec fn vals_wf(vs: Seq<AbsValue>, heap_len: nat) -> bool {
    forall|i: int| 0 <= i < vs.len() ==> val_wf(#[trigger] vs[i], heap_len)
}

/// A contiguous part of a well-formed value sequence is well-formed.
pub proof fn lemma_vals_wf_subrange(vs: Seq<AbsValue>, heap_len: nat, a: int, b: int)
    requires
        vals_wf(vs, heap_len),
        0 <= a <= b <= vs.len(),
    ensures
        vals_wf(vs.subrange(a, b), heap_len),
{
    assert forall|i: int| 0 <= i < b - a implies val_wf(#[trigger] vs.subrange(a, b)[i], heap_len) by {
        assert(vs.subrange(a, b)[i] == vs[a + i]);
    }
}

/// Pushing a well-formed value keeps the sequence well-formed.
pub proof fn lemma_vals_wf_push(vs: Seq<AbsValue>, heap_len: nat, v: AbsValue)
    requires
        vals_wf(vs, heap_len),
        val_wf(v, heap_len),
    ensures
        vals_wf(vs.push(v), heap_len),
{
    assert forall|i: int| 0 <= i < vs.len() + 1 implies val_wf(#[trigger] vs.push(v)[i], heap_len) by {
        if i < vs.len() {
            assert(vs.push(v)[i] == vs[i]);
        } else {
            assert(vs.push(v)[i] == v);
        }
    }
}

/// Every value of a well-formed sequence stays well-formed when the arena
/// grows.
pub proof fn lemma_vals_wf_mono(vs: Seq<AbsValue>, h1: nat, h2: nat)
    requires
        vals_wf(vs, h1),
        h1 <= h2,
    ensures
        vals_wf(vs, h2),
{
    assert forall|i: int| 0 <= i < vs.len() implies val_wf(#[trigger] vs[i], h2) by {
        lemma_val_wf_mono(vs[i], h1, h2);
    }
}

/// A value well-formed for a small arena stays well-formed when the arena
/// grows: frames are never removed from the arena.
pub proof fn lemma_val_wf_mono(v: AbsValue, h1: nat, h2: nat)
    requires
        val_wf(v, h1),
        h1 <= h2,
    ensures
        val_wf(v, h2),
    decreases v,
{
    match v {
        AbsValue::Procedure(body, env) => {
            lemma_toks_wf_mono(body, h1, h2);
        },
        _ => {},
    }
}

/// Token-sequence counterpart of `lemma_val_wf_mono`.
pub proof fn lemma_toks_wf_mono(ts: Seq<AbsToken>, h1: nat, h2: nat)
    requires
        toks_wf(ts, h1),
        h1 <= h2,
    ensures
        toks_wf(ts, h2),
    decreases ts,
{
    if ts.len() > 0 {
        match ts[0] {
            AbsToken::Literal(v) => {
                lemma_val_wf_mono(v, h1, h2);
            },
            AbsToken::ExecName(_) => {},
        }
        lemma_toks_wf_mono(ts.drop_first(), h1, h2);
    }
}

/// Well-formedness distributes over concatenation.
pub proof fn lemma_toks_wf_concat(a: Seq<AbsToken>, b: Seq<AbsToken>, heap_len: nat)
    ensures
        toks_wf(a + b, heap_len) <==> (toks_wf(a, heap_len) && toks_wf(b, heap_len)),
    decreases a,
{
    if a.len() == 0 {
        assert(a + b =~= b);
    } else {
        assert((a + b)[0] == a[0]);
        assert((a + b).drop_first() =~= a.drop_first() + b);
        lemma_toks_wf_concat(a.drop_first(), b, heap_len);
    }
}

/// Membership of a token in a well-formed sequence.
pub proof fn lemma_toks_wf_index(ts: Seq<AbsToken>, heap_len: nat, i: int)
    requires
        toks_wf(ts, heap_len),
        0 <= i < ts.len(),
    ensures
        ts[i] matches AbsToken::Literal(v) ==> val_wf(v, heap_len),
    decreases ts,
{
    if i > 0 {
        lemma_toks_wf_index(ts.drop_first(), heap_len, i - 1);
    }
}

/// Copies a character vector.
pub fn clone_chars(v: &Vec<char>) -> (r: Vec<char>)
    ensures
        r@ == v@,
{
    let mut out: Vec<char> = Vec::new();
    let mut i: usize = 0;
    while i < v.len()
        invariant
            i <= v.len(),
            out@ == v@.subrange(0, i as int),
        decreases v.len() - i,
    {
        out.push(v[i]);
        i = i + 1;
        assert(out@ =~= v@.subrange(0, i as int));
    }
    assert(out@ =~= v@);
    out
}

/// Copies a handle vector.
pub fn clone_handles(v: &Vec<usize>) -> (r: Vec<usize>)
    ensures
        r@ == v@,
{
    let mut out: Vec<usize> = Vec::new();
    let mut i: usize = 0;
    while i < v.len()
        invariant
            i <= v.len(),
            out@ == v@.subrange(0, i as int),
        decreases v.len() - i,
    {
        out.push(v[i]);
        i = i + 1;
        assert(out@ =~= v@.subrange(0, i as int));
    }
    assert(out@ =~= v@);
    out
}

/// Deep copy of a value; the copy has the same model.
#[verifier::loop_isolation(false)]
pub fn clone_value(v: &Value) -> (r: Value)
    ensures
        abs_value(r) == abs_value(*v),
    decreases *v,
{
    match v {
        Value::Int(i) => Value::Int(*i),
        Value::Real(cs) => Value::Real(clone_chars(cs)),
        Value::Bool(b) => Value::Bool(*b),
        Value::Str(cs) => Value::Str(clone_chars(cs)),
        Value::Name(cs) => Value::Name(clone_chars(cs)),
        Value::Dict(h) => Value::Dict(*h),
        Value::Procedure(body, env) => {
            let body2 = clone_tokens(body);
            let env2 = match env {
                Option::None => Option::None,
                Option::Some(hs) => Option::Some(clone_handles(hs)),
            };
            proof {
                assert(abs_env_opt(env2) =~= abs_env_opt(*env));
            }
            Value::Procedure(body2, env2)
        },
    }
}

/// Deep copy of a token sequence; the copy has the same model.
#[verifier::loop_isolation(false)]
pub fn clone_tokens(ts: &Vec<Token>) -> (r: Vec<Token>)
    ensures
        abs_tokens(r@) == abs_tokens(ts@),
    decreases *ts,
{
    let mut out: Vec<Token> = Vec::new();
    let mut i: usize = 0;
    while i < ts.len()
        invariant
            i <= ts.len(),
            abs_tokens(out@) =~= abs_tokens(ts@.subrange(0, i as int)),
        decreases ts.len() - i,
    {
        let ghost prev = out@;
        let t = match &ts[i] {
            Token::Literal(v) => Token::Literal(clone_value(v)),
            Token::ExecName(cs) => Token::ExecName(clone_chars(cs)),
        };
        proof {
            lemma_abs_tokens_push(prev, t);
            lemma_abs_tokens_push(ts@.subrange(0, i as int), ts@[i as int]);
            assert(ts@.subrange(0, i as int).push(ts@[i as int]) =~= ts@.subrange(
                0,
                i as int + 1,
            ));
        }
        out.push(t);
        i = i + 1;
    }
    assert(ts@.subrange(0, ts@.len() as int) =~= ts@);
    out
}

impl Clone for Value {
    /// The copy has the same model as the original.
    fn clone(&self) -> (r: Self)
        ensures
            abs_value(r) == abs_value(*self),
    {
        clone_value(self)
    }
}

impl Clone for Token {
    /// The copy has the same model as the original.
    fn clone(&self) -> (r: Self)
        ensures
            abs_token(r) == abs_token(*self),
    {
        match self {
            Token::Literal(v) => Token::Literal(clone_value(v)),
            Token::ExecName(cs) => Token::ExecName(clone_chars(cs)),
        }
    }
}

/// Character-vector equality, decided elementwise.
pub fn chars_eq(a: &Vec<char>, b: &Vec<char>) -> (r: bool)
    ensures
        r == (a@ == b@),
{
    if a.len() != b.len() {
        proof {
            assert(a@.len() != b@.len());
        }
        return false;
    }
    let mut i: usize = 0;
    while i < a.len()
        invariant
            i <= a.len(),
            a@.len() == b@.len(),
            forall|j: int| 0 <= j < i ==> a@[j] == b@[j],
        decreases a.len() - i,
    {
        if a[i] != b[i] {
            return false;
        }
        i = i + 1;
    }
    proof {
        assert(a@ =~= b@);
    }
    true
}

/// Decides whether a character vector spells a given string.
pub fn chars_is(a: &Vec<char>, s: &str) -> (r: bool)
    ensures
        r == (a@ == s@),
{
    let n = s.unicode_len();
    if a.len() != n {
        proof {
            assert(a@.len() != s@.len());
        }
        return false;
    }
    let mut i: usize = 0;
    while i < n
        invariant
            i <= n,
            n == s@.len(),
            a@.len() == s@.len(),
            forall|j: int| 0 <= j < i ==> a@[j] == s@[j],
        decreases n - i,
    {
        if a[i] != s.get_char(i) {
            return false;
        }
        i = i + 1;
    }
    proof {
        assert(a@ =~= s@);
    }
    true
}

/// Converts a string slice to its character vector.
pub fn str_to_chars(s: &str) -> (r: Vec<char>)
    ensures
        r@ == s@,
{
    let n = s.unicode_len();
    let mut out: Vec<char> = Vec::new();
    let mut i: usize = 0;
    while i < n
        invariant
            i <= n,
            n == s@.len(),
            out@ == s@.subrange(0, i as int),
        decreases n - i,
    {
        out.push(s.get_char(i));
        i = i + 1;
        assert(out@ =~= s@.subrange(0, i as int));
    }
    assert(out@ =~= s@);
    out
}

} // verus!
