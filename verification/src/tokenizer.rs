//! The tokenizer: turns source text into a token sequence, recursively
//! parsing brace-delimited procedure bodies and parenthesis-delimited string
//! bodies.
//!
//! The lexical grammar (`classify_atom`, `tokenize_model`) is the
//! specification; `tokenize` is proved to compute it. An atomic token is
//! classified in a fixed priority order: integer literal, then real literal,
//! then boolean spelling, then `/`-prefixed name literal, then executable
//! name.

use vstd::prelude::*;

use crate::error::PsError;
use crate::value::{
    abs_token, abs_tokens, clone_chars, lemma_abs_tokens_push, AbsToken, AbsValue, Value,
};

pub use crate::value::Token;

verus! {

/// Whitespace separating tokens.
pub open spec fn is_ws_char(c: char) -> bool {
    c == ' ' || c == '\t' || c == '\n' || c == '\r'
}

/// A character that ends an atomic token.
pub open spec fn is_delim_char(c: char) -> bool {
    is_ws_char(c) || c == '{' || c == '}' || c == '(' || c == ')'
}

/// A decimal digit.
pub open spec fn is_digit_char(c: char) -> bool {
    48 <= c as u32 && c as u32 <= 57
}

/// The numeric value of a decimal digit.
pub open spec fn digit_val(c: char) -> int {
    c as u32 - 48
}

/// The value of a digit string, most significant digit first.
pub open spec fn digits_val(s: Seq<char>) -> int
    decreases s.len(),
{
    if s.len() == 0 {
        0
    } else {
        digits_val(s.drop_last()) * 10 + digit_val(s.last())
    }
}

/// Every character is a digit.
pub open spec fn all_digits(s: Seq<char>) -> bool {
    forall|i: int| 0 <= i < s.len() ==> is_digit_char(#[trigger] s[i])
}

/// The lexeme without its optional leading sign.
pub open spec fn int_body(s: Seq<char>) -> Seq<char> {
    if s.len() > 0 && (s[0] == '+' || s[0] == '-') {
        s.drop_first()
    } else {
        s
    }
}

/// The signed value a numeric lexeme denotes.
pub open spec fn int_lexeme_val(s: Seq<char>) -> int {
    if s.len() > 0 && s[0] == '-' {
        -digits_val(int_body(s))
    } else {
        digits_val(int_body(s))
    }
}

/// A signed-decimal integer literal whose value fits the integer value type.
pub open spec fn is_int_lexeme(s: Seq<char>) -> bool {
    let b = int_body(s);
    &&& b.len() > 0
    &&& all_digits(b)
    &&& i32::MIN <= int_lexeme_val(s) <= i32::MAX
}

/// The first position at or after `j` that does not hold a digit.
pub open spec fn scan_digits(s: Seq<char>, j: int) -> int
    decreases s.len() - j,
{
    if 0 <= j < s.len() && is_digit_char(s[j]) {
        scan_digits(s, j + 1)
    } else {
        j
    }
}

/// A well-formed exponent part starting at `j`, or nothing at all.
pub open spec fn exp_ok(s: Seq<char>, j: int) -> bool {
    if j == s.len() {
        true
    } else if 0 <= j < s.len() && (s[j] == 'e' || s[j] == 'E') {
        let k0 = if j + 1 < s.len() && (s[j + 1] == '+' || s[j + 1] == '-') {
            j + 2
        } else {
            j + 1
        };
        let k1 = scan_digits(s, k0);
        k1 > k0 && k1 == s.len()
    } else {
        false
    }
}

/// A decimal/fractional floating-point literal: an optional sign, digits with
/// an optional fraction (at least one digit in all), and an optional
/// exponent.
pub open spec fn is_real_lexeme(s: Seq<char>) -> bool {
    let j0: int = if s.len() > 0 && (s[0] == '+' || s[0] == '-') {
        1
    } else {
        0
    };
    let j1 = scan_digits(s, j0);
    if 0 <= j1 < s.len() && s[j1] == '.' {
        let j2 = scan_digits(s, j1 + 1);
        (j1 > j0 || j2 > j1 + 1) && exp_ok(s, j2)
    } else {
        j1 > j0 && exp_ok(s, j1)
    }
}

/// The classification of an atomic token, in fixed priority order.
pub open spec fn classify_atom(s: Seq<char>) -> AbsToken {
    if is_int_lexeme(s) {
        AbsToken::Literal(AbsValue::Int(int_lexeme_val(s)))
    } else if is_real_lexeme(s) {
        AbsToken::Literal(AbsValue::Real(s))
    } else if s == "true"@ {
        AbsToken::Literal(AbsValue::Bool(true))
    } else if s == "false"@ {
        AbsToken::Literal(AbsValue::Bool(false))
    } else if s.len() > 0 && s[0] == '/' {
        AbsToken::Literal(AbsValue::Name(s.drop_first()))
    } else {
        AbsToken::ExecName(s)
    }
}

/// The value of a digit string is never negative.
proof fn lemma_digits_val_nonneg(s: Seq<char>)
    requires
        all_digits(s),
    ensures
        digits_val(s) >= 0,
    decreases s.len(),
{
    if s.len() > 0 {
        assert(all_digits(s.drop_last()));
        lemma_digits_val_nonneg(s.drop_last());
    }
}

/// The position of the `}` that closes a region entered with `depth` open
/// braces, scanning from `j`; `-1` if the input ends first. Each nested `{`
/// increments the depth, each `}` decrements it.
pub open spec fn find_close(s: Seq<char>, j: int, depth: int) -> int
    decreases s.len() - j,
{
    if !(0 <= j < s.len()) {
        -1
    } else if s[j] == '{' {
        find_close(s, j + 1, depth + 1)
    } else if s[j] == '}' {
        if depth == 1 {
            j
        } else {
            find_close(s, j + 1, depth - 1)
        }
    } else {
        find_close(s, j + 1, depth)
    }
}

/// The position of the first `)` at or after `j`; `-1` if the input ends
/// first. No nested-parenthesis or escape handling.
pub open spec fn find_paren(s: Seq<char>, j: int) -> int
    decreases s.len() - j,
{
    if !(0 <= j < s.len()) {
        -1
    } else if s[j] == ')' {
        j
    } else {
        find_paren(s, j + 1)
    }
}

/// The position of the first delimiter at or after `j`, or the input length.
pub open spec fn run_end(s: Seq<char>, j: int) -> int
    decreases s.len() - j,
{
    if !(0 <= j < s.len()) {
        j
    } else if is_delim_char(s[j]) {
        j
    } else {
        run_end(s, j + 1)
    }
}

/// The token sequence a source text denotes, or the error on which
/// tokenizing fails.
///
/// Whitespace between tokens is skipped. A `{`-delimited region is found by
/// depth-counted scanning and its inside is recursively tokenized into a
/// single procedure literal with no captured environment; an unmatched brace,
/// an unexpected closing brace and an unexpected closing parenthesis fail. A
/// `(`-delimited region is taken verbatim up to the next `)` (or to the end
/// of the input) as one string literal. Any other maximal run of
/// non-delimiter characters is an atomic token, classified by
/// `classify_atom`.
pub open spec fn tokenize_model(s: Seq<char>) -> Result<Seq<AbsToken>, PsError>
    decreases s.len(),
{
    if s.len() == 0 {
        Result::Ok(Seq::empty())
    } else if is_ws_char(s[0]) {
        tokenize_model(s.drop_first())
    } else if s[0] == '{' {
        let k = find_close(s, 1, 1);
        if 1 <= k < s.len() {
            match tokenize_model(s.subrange(1, k)) {
                Result::Ok(inner) => match tokenize_model(s.skip(k + 1)) {
                    Result::Ok(rest) => Result::Ok(
                        seq![AbsToken::Literal(AbsValue::Procedure(inner, Option::None))] + rest,
                    ),
                    Result::Err(e) => Result::Err(e),
                },
                Result::Err(e) => Result::Err(e),
            }
        } else {
            Result::Err(PsError::SyntaxError)
        }
    } else if s[0] == '}' {
        Result::Err(PsError::SyntaxError)
    } else if s[0] == '(' {
        let k = find_paren(s, 1);
        if 1 <= k < s.len() {
            match tokenize_model(s.skip(k + 1)) {
                Result::Ok(rest) => Result::Ok(
                    seq![AbsToken::Literal(AbsValue::Str(s.subrange(1, k)))] + rest,
                ),
                Result::Err(e) => Result::Err(e),
            }
        } else {
            Result::Ok(seq![AbsToken::Literal(AbsValue::Str(s.skip(1)))])
        }
    } else if s[0] == ')' {
        Result::Err(PsError::SyntaxError)
    } else {
        let e = run_end(s, 0);
        if 1 <= e <= s.len() {
            match tokenize_model(s.skip(e)) {
                Result::Ok(rest) => Result::Ok(seq![classify_atom(s.subrange(0, e))] + rest),
                Result::Err(err) => Result::Err(err),
            }
        } else {
            Result::Err(PsError::SyntaxError)
        }
    }
}

/// Prefixing an already-produced token sequence onto the outcome of the rest
/// of a scan.
pub open spec fn prepend_tokens(pre: Seq<AbsToken>, r: Result<Seq<AbsToken>, PsError>) -> Result<
    Seq<AbsToken>,
    PsError,
> {
    match r {
        Result::Ok(ts) => Result::Ok(pre + ts),
        Result::Err(e) => Result::Err(e),
    }
}

proof fn lemma_prepend_empty(r: Result<Seq<AbsToken>, PsError>)
    ensures
        prepend_tokens(Seq::empty(), r) == r,
{
    match r {
        Result::Ok(ts) => {
            assert(Seq::empty() + ts =~= ts);
        },
        Result::Err(_) => {},
    }
}

proof fn lemma_prepend_assoc(a: Seq<AbsToken>, b: Seq<AbsToken>, r: Result<Seq<AbsToken>, PsError>)
    ensures
        prepend_tokens(a, prepend_tokens(b, r)) == prepend_tokens(a + b, r),
{
    match r {
        Result::Ok(ts) => {
            assert(a + (b + ts) =~= (a + b) + ts);
        },
        Result::Err(_) => {},
    }
}

/// Every token a successful tokenization produces is well-formed for any
/// arena: literals hold no dictionary handle and procedure literals carry no
/// captured environment.
pub proof fn lemma_tokenize_model_wf(s: Seq<char>, heap_len: nat)
    ensures
        tokenize_model(s) matches Result::Ok(ts) ==> crate::value::toks_wf(ts, heap_len),
    decreases s.len(),
{
    if s.len() == 0 {
    } else if is_ws_char(s[0]) {
        lemma_tokenize_model_wf(s.drop_first(), heap_len);
    } else if s[0] == '{' {
        let k = find_close(s, 1, 1);
        if 1 <= k < s.len() {
            lemma_tokenize_model_wf(s.subrange(1, k), heap_len);
            lemma_tokenize_model_wf(s.skip(k + 1), heap_len);
            match (tokenize_model(s.subrange(1, k)), tokenize_model(s.skip(k + 1))) {
                (Result::Ok(inner), Result::Ok(rest)) => {
                    let v = AbsValue::Procedure(inner, Option::None);
                    let head = seq![AbsToken::Literal(v)];
                    assert(head.len() == 1);
                    assert(head[0] == AbsToken::Literal(v));
                    assert(crate::value::val_wf(v, heap_len));
                    assert(head.drop_first() =~= Seq::<AbsToken>::empty());
                    assert(crate::value::toks_wf(Seq::<AbsToken>::empty(), heap_len));
                    assert(crate::value::toks_wf(head, heap_len));
                    crate::value::lemma_toks_wf_concat(head, rest, heap_len);
                },
                _ => {},
            }
        }
    } else if s[0] == '}' {
    } else if s[0] == '(' {
        let k = find_paren(s, 1);
        if 1 <= k < s.len() {
            lemma_tokenize_model_wf(s.skip(k + 1), heap_len);
            match tokenize_model(s.skip(k + 1)) {
                Result::Ok(rest) => {
                    let v = AbsValue::Str(s.subrange(1, k));
                    let head = seq![AbsToken::Literal(v)];
                    assert(head.len() == 1);
                    assert(head[0] == AbsToken::Literal(v));
                    assert(crate::value::val_wf(v, heap_len));
                    assert(head.drop_first() =~= Seq::<AbsToken>::empty());
                    assert(crate::value::toks_wf(Seq::<AbsToken>::empty(), heap_len));
                    assert(crate::value::toks_wf(head, heap_len));
                    crate::value::lemma_toks_wf_concat(head, rest, heap_len);
                },
                Result::Err(_) => {},
            }
        } else {
            let v = AbsValue::Str(s.skip(1));
            let head = seq![AbsToken::Literal(v)];
            assert(head.len() == 1);
            assert(head[0] == AbsToken::Literal(v));
            assert(crate::value::val_wf(v, heap_len));
            assert(head.drop_first() =~= Seq::<AbsToken>::empty());
            assert(crate::value::toks_wf(Seq::<AbsToken>::empty(), heap_len));
            assert(crate::value::toks_wf(head, heap_len));
        }
    } else if s[0] == ')' {
    } else {
        let e = run_end(s, 0);
        if 1 <= e <= s.len() {
            lemma_tokenize_model_wf(s.skip(e), heap_len);
            match tokenize_model(s.skip(e)) {
                Result::Ok(rest) => {
                    let t = classify_atom(s.subrange(0, e));
                    let head = seq![t];
                    assert(head.len() == 1);
                    assert(head[0] == t);
                    assert(match t {
                        AbsToken::Literal(v) => crate::value::val_wf(v, heap_len),
                        AbsToken::ExecName(_) => true,
                    });
                    assert(head.drop_first() =~= Seq::<AbsToken>::empty());
                    assert(crate::value::toks_wf(Seq::<AbsToken>::empty(), heap_len));
                    assert(crate::value::toks_wf(head, heap_len));
                    crate::value::lemma_toks_wf_concat(head, rest, heap_len);
                },
                Result::Err(_) => {},
            }
        }
    }
}

/// Copies the range `[from, to)` of a character vector.
pub fn chars_range(v: &Vec<char>, from: usize, to: usize) -> (r: Vec<char>)
    requires
        from <= to <= v@.len(),
    ensures
        r@ == v@.subrange(from as int, to as int),
{
    let mut out: Vec<char> = Vec::new();
    let mut i: usize = from;
    while i < to
        invariant
            from <= i <= to <= v@.len(),
            out@ == v@.subrange(from as int, i as int),
        decreases to - i,
    {
        out.push(v[i]);
        i = i + 1;
        assert(out@ =~= v@.subrange(from as int, i as int));
    }
    out
}

/// Decides whether `c` is a decimal digit.
fn digit_exec(c: char) -> (r: bool)
    ensures
        r == is_digit_char(c),
{
    c >= '0' && c <= '9'
}

/// Computes `scan_digits` by iteration.
fn scan_digits_exec(v: &Vec<char>, j: usize) -> (r: usize)
    requires
        j <= v@.len(),
    ensures
        r as int == scan_digits(v@, j as int),
        j <= r <= v@.len(),
{
    let mut k: usize = j;
    while k < v.len() && digit_exec(v[k])
        invariant
            j <= k <= v@.len(),
            scan_digits(v@, j as int) == scan_digits(v@, k as int),
        decreases v@.len() - k,
    {
        k = k + 1;
    }
    k
}

/// Parses a signed decimal integer; `None` exactly when the lexeme is not an
/// integer literal that fits the integer value type.
fn parse_int_chars(raw: &Vec<char>) -> (r: Option<i32>)
    ensures
        match r {
            Option::Some(v) => is_int_lexeme(raw@) && v as int == int_lexeme_val(raw@),
            Option::None => !is_int_lexeme(raw@),
        },
{
    let n = raw.len();
    let mut start: usize = 0;
    let mut neg: bool = false;
    if n > 0 && (raw[0] == '+' || raw[0] == '-') {
        start = 1;
        neg = raw[0] == '-';
    }
    let ghost body = int_body(raw@);
    proof {
        assert(body =~= raw@.subrange(start as int, n as int));
    }
    if start >= n {
        assert(body.len() == 0);
        return Option::None;
    }
    // Saturation bound: larger than any value that fits, small enough that
    // the accumulator cannot overflow.
    let sat: u64 = 10_000_000_000;
    let mut acc: u64 = 0;
    let mut i: usize = start;
    while i < n
        invariant
            start <= i <= n,
            n == raw@.len(),
            sat == 10_000_000_000u64,
            neg ==> n > 0 && raw@[0] == '-',
            body == int_body(raw@),
            body =~= raw@.subrange(start as int, n as int),
            all_digits(raw@.subrange(start as int, i as int)),
            acc as int == if digits_val(raw@.subrange(start as int, i as int)) <= sat as int {
                digits_val(raw@.subrange(start as int, i as int))
            } else {
                sat as int
            },
            acc <= sat,
        decreases n - i,
    {
        let c = raw[i];
        if !digit_exec(c) {
            proof {
                assert(body[i - start] == raw@[i as int]);
                assert(!is_digit_char(body[i - start]));
                assert(!all_digits(body));
            }
            return Option::None;
        }
        let d: u64 = (c as u32 as u64) - 48;
        let ghost pre = raw@.subrange(start as int, i as int);
        let ghost post = raw@.subrange(start as int, i as int + 1);
        proof {
            assert(post.drop_last() =~= pre);
            assert(post.last() == raw@[i as int]);
            assert(digits_val(post) == digits_val(pre) * 10 + digit_val(raw@[i as int]));
            lemma_digits_val_nonneg(pre);
            if digits_val(pre) > sat as int {
                assert(digits_val(post) > sat as int) by (nonlinear_arith)
                    requires
                        digits_val(post) == digits_val(pre) * 10 + digit_val(raw@[i as int]),
                        digits_val(pre) > sat as int,
                        digit_val(raw@[i as int]) >= 0,
                        sat as int >= 0,
                {}
            }
        }
        let next = acc * 10 + d;
        acc = if next > sat {
            sat
        } else {
            next
        };
        proof {
            if digits_val(pre) <= sat as int {
                assert(next as int == digits_val(post));
            } else {
                assert(next as int == sat as int * 10 + digit_val(raw@[i as int]));
                assert(next > sat);
            }
        }
        i = i + 1;
    }
    proof {
        assert(raw@.subrange(start as int, n as int) =~= body);
        lemma_digits_val_nonneg(body);
        assert(digits_val(body) >= acc as int);
        if neg {
            assert(int_lexeme_val(raw@) == -digits_val(body));
        } else {
            assert(int_lexeme_val(raw@) == digits_val(body));
        }
    }
    let limit: u64 = if neg {
        2_147_483_648
    } else {
        2_147_483_647
    };
    if acc > limit {
        proof {
            assert(digits_val(body) > limit as int);
            assert(!is_int_lexeme(raw@));
        }
        return Option::None;
    }
    proof {
        assert(acc as int == digits_val(body));
    }
    if neg {
        let v: i32 = if acc == 2_147_483_648 {
            i32::MIN
        } else {
            -(acc as i32)
        };
        Option::Some(v)
    } else {
        let v: i32 = acc as i32;
        Option::Some(v)
    }
}

/// Decides whether a well-formed exponent part (or nothing) starts at `j`.
fn exp_ok_exec(v: &Vec<char>, j: usize) -> (r: bool)
    requires
        j <= v@.len(),
    ensures
        r == exp_ok(v@, j as int),
{
    let n = v.len();
    if j == n {
        return true;
    }
    if !(v[j] == 'e' || v[j] == 'E') {
        return false;
    }
    let k0: usize = if j + 1 < n && (v[j + 1] == '+' || v[j + 1] == '-') {
        j + 2
    } else {
        j + 1
    };
    let k1 = scan_digits_exec(v, k0);
    k1 > k0 && k1 == n
}

/// Decides whether the lexeme is a real literal.
fn is_real_exec(raw: &Vec<char>) -> (r: bool)
    ensures
        r == is_real_lexeme(raw@),
{
    let n = raw.len();
    let j0: usize = if n > 0 && (raw[0] == '+' || raw[0] == '-') {
        1
    } else {
        0
    };
    let j1 = scan_digits_exec(raw, j0);
    if j1 < n && raw[j1] == '.' {
        let j2 = scan_digits_exec(raw, j1 + 1);
        (j1 > j0 || j2 > j1 + 1) && exp_ok_exec(raw, j2)
    } else {
        j1 > j0 && exp_ok_exec(raw, j1)
    }
}

/// Decides whether `c` is token-separating whitespace.
fn ws_exec(c: char) -> (r: bool)
    ensures
        r == is_ws_char(c),
{
    c == ' ' || c == '\t' || c == '\n' || c == '\r'
}

/// Decides whether `c` ends an atomic token.
fn delim_exec(c: char) -> (r: bool)
    ensures
        r == is_delim_char(c),
{
    ws_exec(c) || c == '{' || c == '}' || c == '(' || c == ')'
}

/// Tokenizes a character sequence; computes `tokenize_model`.
#[verifier::loop_isolation(false)]
#[verifier::rlimit(60)]
pub fn tokenize_chars(cs: &Vec<char>) -> (r: Result<Vec<Token>, PsError>)
    ensures
        match r {
            Result::Ok(toks) => tokenize_model(cs@) == Result::<Seq<AbsToken>, PsError>::Ok(
                abs_tokens(toks@),
            ),
            Result::Err(e) => tokenize_model(cs@) == Result::<Seq<AbsToken>, PsError>::Err(e),
        },
    decreases cs@.len(),
{
    let n = cs.len();
    let mut out: Vec<Token> = Vec::new();
    let mut i: usize = 0;
    proof {
        assert(cs@.skip(0) =~= cs@);
        lemma_prepend_empty(tokenize_model(cs@));
        assert(abs_tokens(out@) =~= Seq::<AbsToken>::empty());
    }
    while i < n
        invariant
            i <= n,
            tokenize_model(cs@) == prepend_tokens(
                abs_tokens(out@),
                tokenize_model(cs@.skip(i as int)),
            ),
        decreases n - i,
    {
        let ghost rem = cs@.skip(i as int);
        proof {
            assert(rem.len() == n - i);
            assert(rem[0] == cs@[i as int]);
        }
        let c = cs[i];
        if ws_exec(c) {
            proof {
                assert(rem.drop_first() =~= cs@.skip(i as int + 1));
            }
            i = i + 1;
        } else if c == '{' {
            let mut j: usize = i + 1;
            let mut depth: usize = 1;
            let mut close: usize = 0;
            let mut found: bool = false;
            proof {
                assert(find_close(rem, 1, 1) == find_close(rem, (j - i) as int, depth as int));
            }
            while j < n && !found
                invariant
                    i + 1 <= j <= n,
                    1 <= depth <= j - i,
                    !found ==> find_close(rem, 1, 1) == find_close(
                        rem,
                        (j - i) as int,
                        depth as int,
                    ),
                    found ==> i < close < n && find_close(rem, 1, 1) == close - i,
                decreases n - j, (if found { 0int } else { 1int }),
            {
                proof {
                    assert(rem[(j - i) as int] == cs@[j as int]);
                }
                let c2 = cs[j];
                if c2 == '{' {
                    depth = depth + 1;
                    j = j + 1;
                } else if c2 == '}' {
                    if depth == 1 {
                        found = true;
                        close = j;
                    } else {
                        depth = depth - 1;
                        j = j + 1;
                    }
                } else {
                    j = j + 1;
                }
            }
            if !found {
                proof {
                    assert(j == n);
                    assert(find_close(rem, (n - i) as int, depth as int) == -1);
                    assert(tokenize_model(rem) == Result::<Seq<AbsToken>, PsError>::Err(
                        PsError::SyntaxError,
                    ));
                }
                return Result::Err(PsError::SyntaxError);
            }
            let ghost k = close - i;
            let body = chars_range(cs, i + 1, close);
            proof {
                assert(body@ =~= rem.subrange(1, k as int));
                assert(body@.len() < cs@.len());
            }
            match tokenize_chars(&body) {
                Result::Err(e) => {
                    proof {
                        assert(tokenize_model(rem) == Result::<Seq<AbsToken>, PsError>::Err(e));
                    }
                    return Result::Err(e);
                },
                Result::Ok(inner) => {
                    let t = Token::Literal(Value::Procedure(inner, Option::None));
                    proof {
                        assert(rem.skip(k as int + 1) =~= cs@.skip(close as int + 1));
                        assert(tokenize_model(rem) == prepend_tokens(
                            seq![abs_token(t)],
                            tokenize_model(cs@.skip(close as int + 1)),
                        ));
                        lemma_prepend_assoc(
                            abs_tokens(out@),
                            seq![abs_token(t)],
                            tokenize_model(cs@.skip(close as int + 1)),
                        );
                        lemma_abs_tokens_push(out@, t);
                        assert(abs_tokens(out@).push(abs_token(t)) =~= abs_tokens(out@)
                            + seq![abs_token(t)]);
                    }
                    out.push(t);
                    i = close + 1;
                },
            }
        } else if c == '}' {
            proof {
                assert(tokenize_model(rem) == Result::<Seq<AbsToken>, PsError>::Err(
                    PsError::SyntaxError,
                ));
            }
            return Result::Err(PsError::SyntaxError);
        } else if c == '(' {
            let mut j: usize = i + 1;
            let mut close: usize = 0;
            let mut found: bool = false;
            proof {
                assert(find_paren(rem, 1) == find_paren(rem, (j - i) as int));
            }
            while j < n && !found
                invariant
                    i + 1 <= j <= n,
                    !found ==> find_paren(rem, 1) == find_paren(rem, (j - i) as int),
                    found ==> i < close < n && find_paren(rem, 1) == close - i,
                decreases n - j, (if found { 0int } else { 1int }),
            {
                proof {
                    assert(rem[(j - i) as int] == cs@[j as int]);
                }
                if cs[j] == ')' {
                    found = true;
                    close = j;
                } else {
                    j = j + 1;
                }
            }
            if found {
                let ghost k = close - i;
                let content = chars_range(cs, i + 1, close);
                let t = Token::Literal(Value::Str(content));
                proof {
                    assert(content@ =~= rem.subrange(1, k as int));
                    assert(rem.skip(k as int + 1) =~= cs@.skip(close as int + 1));
                    assert(tokenize_model(rem) == prepend_tokens(
                        seq![abs_token(t)],
                        tokenize_model(cs@.skip(close as int + 1)),
                    ));
                    lemma_prepend_assoc(
                        abs_tokens(out@),
                        seq![abs_token(t)],
                        tokenize_model(cs@.skip(close as int + 1)),
                    );
                    lemma_abs_tokens_push(out@, t);
                    assert(abs_tokens(out@).push(abs_token(t)) =~= abs_tokens(out@)
                        + seq![abs_token(t)]);
                }
                out.push(t);
                i = close + 1;
            } else {
                let content = chars_range(cs, i + 1, n);
                let t = Token::Literal(Value::Str(content));
                proof {
                    assert(j == n);
                    assert(find_paren(rem, (n - i) as int) == -1);
                    assert(content@ =~= rem.skip(1));
                    assert(cs@.skip(n as int) =~= Seq::<char>::empty());
                    assert(tokenize_model(cs@.skip(n as int)) == Result::<
                        Seq<AbsToken>,
                        PsError,
                    >::Ok(Seq::empty()));
                    assert(seq![abs_token(t)] + Seq::<AbsToken>::empty() =~= seq![abs_token(t)]);
                    assert(tokenize_model(rem) == prepend_tokens(
                        seq![abs_token(t)],
                        tokenize_model(cs@.skip(n as int)),
                    ));
                    lemma_prepend_assoc(
                        abs_tokens(out@),
                        seq![abs_token(t)],
                        tokenize_model(cs@.skip(n as int)),
                    );
                    lemma_abs_tokens_push(out@, t);
                    assert(abs_tokens(out@).push(abs_token(t)) =~= abs_tokens(out@)
                        + seq![abs_token(t)]);
                }
                out.push(t);
                i = n;
            }
        } else if c == ')' {
            proof {
                assert(tokenize_model(rem) == Result::<Seq<AbsToken>, PsError>::Err(
                    PsError::SyntaxError,
                ));
            }
            return Result::Err(PsError::SyntaxError);
        } else {
            let mut j: usize = i + 1;
            proof {
                assert(!is_delim_char(rem[0]));
                assert(run_end(rem, 0) == run_end(rem, 1));
            }
            while j < n && !delim_exec(cs[j])
                invariant
                    i + 1 <= j <= n,
                    run_end(rem, 0) == run_end(rem, (j - i) as int),
                decreases n - j,
            {
                proof {
                    assert(rem[(j - i) as int] == cs@[j as int]);
                }
                j = j + 1;
            }
            proof {
                if j < n {
                    assert(rem[(j - i) as int] == cs@[j as int]);
                }
                assert(run_end(rem, 0) == j - i);
            }
            let raw = chars_range(cs, i, j);
            proof {
                assert(raw@ =~= rem.subrange(0, (j - i) as int));
            }
            match parse_atomic_token(&raw) {
                Result::Ok(t) => {
                    proof {
                        assert(rem.skip((j - i) as int) =~= cs@.skip(j as int));
                        assert(tokenize_model(rem) == prepend_tokens(
                            seq![abs_token(t)],
                            tokenize_model(cs@.skip(j as int)),
                        ));
                        lemma_prepend_assoc(
                            abs_tokens(out@),
                            seq![abs_token(t)],
                            tokenize_model(cs@.skip(j as int)),
                        );
                        lemma_abs_tokens_push(out@, t);
                        assert(abs_tokens(out@).push(abs_token(t)) =~= abs_tokens(out@)
                            + seq![abs_token(t)]);
                    }
                    out.push(t);
                    i = j;
                },
                Result::Err(e) => {
                    proof {
                        assert(false);
                    }
                    return Result::Err(e);
                },
            }
        }
    }
    proof {
        assert(cs@.skip(n as int) =~= Seq::<char>::empty());
        assert(tokenize_model(cs@.skip(n as int)) == Result::<Seq<AbsToken>, PsError>::Ok(
            Seq::empty(),
        ));
        assert(abs_tokens(out@) + Seq::<AbsToken>::empty() =~= abs_tokens(out@));
    }
    Result::Ok(out)
}

/// Tokenizes source text into a token sequence; fails with a syntax error
/// exactly where the grammar does. Every token of a successful result is
/// well-formed for any arena.
pub fn tokenize(src: &str) -> (r: Result<Vec<Token>, PsError>)
    ensures
        match r {
            Result::Ok(toks) => tokenize_model(src@) == Result::<Seq<AbsToken>, PsError>::Ok(
                abs_tokens(toks@),
            ) && forall|hl: nat| crate::value::toks_wf(abs_tokens(toks@), hl),
            Result::Err(e) => tokenize_model(src@) == Result::<Seq<AbsToken>, PsError>::Err(e),
        },
{
    let cs = crate::value::str_to_chars(src);
    let r = tokenize_chars(&cs);
    proof {
        match &r {
            Result::Ok(toks) => {
                assert forall|hl: nat| crate::value::toks_wf(abs_tokens(toks@), hl) by {
                    lemma_tokenize_model_wf(src@, hl);
                }
            },
            Result::Err(_) => {},
        }
    }
    r
}

/// Classifies one atomic token (a maximal run of non-delimiter characters)
/// in the fixed priority order of the grammar.
pub fn parse_atomic_token(raw: &Vec<char>) -> (r: Result<Token, PsError>)
    ensures
        r matches Result::Ok(t) && abs_token(t) == classify_atom(raw@),
{
    match parse_int_chars(raw) {
        Option::Some(v) => {
            return Result::Ok(Token::Literal(Value::Int(v)));
        },
        Option::None => {},
    }
    if is_real_exec(raw) {
        return Result::Ok(Token::Literal(Value::Real(clone_chars(raw))));
    }
    if crate::value::chars_is(raw, "true") {
        return Result::Ok(Token::Literal(Value::Bool(true)));
    }
    if crate::value::chars_is(raw, "false") {
        return Result::Ok(Token::Literal(Value::Bool(false)));
    }
    if raw.len() > 0 && raw[0] == '/' {
        let rest = chars_range(raw, 1, raw.len());
        proof {
            assert(rest@ =~= raw@.drop_first());
        }
        return Result::Ok(Token::Literal(Value::Name(rest)));
    }
    Result::Ok(Token::ExecName(clone_chars(raw)))
}

} // verus!
