//! The dictionary stack: an ordered sequence of name-binding frames, with
//! definition into the top frame and two lookup disciplines.
//!
//! Frames are shared: the same frame can sit on the dictionary stack and, as
//! a dictionary value, on the operand stack, and mutation through one must be
//! seen through the other. That sharing is modeled by an arena: the
//! `DictStack` owns every frame ever created (`heap`), and everything else
//! refers to frames by index ("handle"). The live dictionary stack (`live`)
//! is a sequence of handles, bottom first; frame `live[0]` is the permanent
//! global frame. Frames are never removed from the arena, so a handle once
//! valid stays valid; closing a scope merely pops the handle sequence.
//!
//! A captured environment (for lexical scoping) is an independently owned
//! snapshot: `snapshot_live` copies every live frame into fresh arena slots,
//! so later mutation of a live frame cannot be observed through the capture.

use vstd::prelude::*;

use crate::error::PsError;
use crate::value::{abs_handles, abs_value, clone_chars, clone_value, val_wf, AbsValue, Value};
use crate::value::lemma_val_wf_mono;

verus! {

/// One binding of a frame.
pub struct Binding {
    key: Vec<char>,
    value: Value,
}

/// One name-binding frame: a mapping from names to values with unique keys.
pub struct Frame {
    entries: Vec<Binding>,
}

/// The dictionary stack.
pub struct DictStack {
    heap: Vec<Frame>,
    live: Vec<usize>,
}

/// Model of one binding.
pub struct AbsBinding {
    pub key: Seq<char>,
    pub value: AbsValue,
}

/// Model of a frame: its bindings in insertion order.
pub type AbsFrame = Seq<AbsBinding>;

/// Model of the dictionary stack: the frame arena and the live handle stack.
#[verifier::ext_equal]
pub struct AbsDicts {
    pub heap: Seq<AbsFrame>,
    pub live: Seq<nat>,
}

pub closed spec fn abs_binding(b: Binding) -> AbsBinding {
    AbsBinding { key: b.key@, value: abs_value(b.value) }
}

pub closed spec fn abs_frame(f: Frame) -> AbsFrame {
    Seq::new(f.entries@.len(), |i: int| abs_binding(f.entries@[i]))
}

pub closed spec fn abs_frames(s: Seq<Frame>) -> Seq<AbsFrame> {
    Seq::new(s.len(), |i: int| abs_frame(s[i]))
}

/// The index of the binding of `n` in `f`, or `-1` if `n` is unbound.
pub open spec fn frame_key_index(f: AbsFrame, n: Seq<char>) -> int
    decreases f,
{
    if f.len() == 0 {
        -1
    } else if f[0].key == n {
        0
    } else {
        let r = frame_key_index(f.drop_first(), n);
        if r < 0 {
            -1
        } else {
            r + 1
        }
    }
}

/// The value bound to `n` in `f`, if any.
pub open spec fn frame_find(f: AbsFrame, n: Seq<char>) -> Option<AbsValue> {
    let idx = frame_key_index(f, n);
    if 0 <= idx < f.len() {
        Option::Some(f[idx].value)
    } else {
        Option::None
    }
}

/// `f` with `n` bound to `v`: an existing binding is overwritten in place,
/// a new binding is appended.
pub open spec fn frame_define(f: AbsFrame, n: Seq<char>, v: AbsValue) -> AbsFrame {
    let idx = frame_key_index(f, n);
    if 0 <= idx < f.len() {
        f.update(idx, AbsBinding { key: n, value: v })
    } else {
        f.push(AbsBinding { key: n, value: v })
    }
}

/// Where `frame_key_index` points: at the first binding of `n`, or nowhere
/// exactly when `n` is unbound.
pub proof fn lemma_frame_key_index(f: AbsFrame, n: Seq<char>)
    ensures
        ({
            let idx = frame_key_index(f, n);
            &&& (idx == -1 <==> forall|j: int| 0 <= j < f.len() ==> f[j].key != n)
            &&& idx != -1 ==> 0 <= idx < f.len() && f[idx].key == n && (forall|j: int|
                0 <= j < idx ==> f[j].key != n)
        }),
    decreases f,
{
    if f.len() > 0 && f[0].key != n {
        let d = f.drop_first();
        lemma_frame_key_index(d, n);
        assert(forall|j: int| 0 <= j < d.len() ==> d[j] == f[j + 1]);
        assert(forall|j: int| 1 <= j < f.len() ==> f[j] == d[j - 1]);
        let r = frame_key_index(d, n);
        if r == -1 {
            assert forall|j: int| 0 <= j < f.len() implies f[j].key != n by {
                if j >= 1 {
                    assert(f[j] == d[j - 1]);
                }
            }
        } else {
            assert(f[r + 1] == d[r]);
            assert forall|j: int| 0 <= j < r + 1 implies f[j].key != n by {
                if j >= 1 {
                    assert(f[j] == d[j - 1]);
                }
            }
        }
    }
}

/// The search order of a lookup: walk the handle sequence from the top
/// (the last handle) towards the bottom, returning the first frame that
/// binds `n`. A handle outside the arena binds nothing.
pub open spec fn env_find(heap: Seq<AbsFrame>, env: Seq<nat>, n: Seq<char>) -> Option<AbsValue>
    decreases env,
{
    if env.len() == 0 {
        Option::None
    } else {
        let h = env.last();
        let here = if h < heap.len() {
            frame_find(heap[h as int], n)
        } else {
            Option::None
        };
        match here {
            Option::Some(v) => Option::Some(v),
            Option::None => env_find(heap, env.drop_last(), n),
        }
    }
}

/// Definition into the top frame only: the arena is updated at the handle on
/// top of the live stack; no other frame is touched.
pub open spec fn dicts_define(d: AbsDicts, n: Seq<char>, v: AbsValue) -> AbsDicts {
    if d.live.len() == 0 || d.live.last() >= d.heap.len() {
        d
    } else {
        let h = d.live.last();
        AbsDicts { heap: d.heap.update(h as int, frame_define(d.heap[h as int], n, v)), live: d.live }
    }
}

/// The frames currently on the live stack, bottom first.
pub open spec fn live_frames(d: AbsDicts) -> Seq<AbsFrame> {
    Seq::new(d.live.len(), |i: int| d.heap[d.live[i] as int])
}

/// The capture of the live environment: every live frame is copied into a
/// fresh arena slot; the returned handles address the copies, bottom first.
pub open spec fn dicts_capture(d: AbsDicts) -> (AbsDicts, Seq<nat>) {
    let fresh = Seq::new(d.live.len(), |i: int| (d.heap.len() + i) as nat);
    (AbsDicts { heap: d.heap + live_frames(d), live: d.live }, fresh)
}

/// Well-formedness of a frame: keys are unique and every bound value is
/// well-formed for an arena of `heap_len` frames.
pub open spec fn frame_wf(f: AbsFrame, heap_len: nat) -> bool {
    &&& forall|i: int, j: int| 0 <= i < j < f.len() ==> f[i].key != f[j].key
    &&& forall|i: int| 0 <= i < f.len() ==> val_wf(#[trigger] f[i].value, heap_len)
}

/// Well-formedness of a handle sequence for an arena of `heap_len` frames.
pub open spec fn env_wf(env: Seq<nat>, heap_len: nat) -> bool {
    forall|i: int| 0 <= i < env.len() ==> env[i] < heap_len
}

/// Well-formedness of the whole dictionary stack: the live stack is never
/// empty, every live handle points into the arena, and every arena frame is
/// well-formed.
pub open spec fn dicts_wf(d: AbsDicts) -> bool {
    &&& d.live.len() >= 1
    &&& env_wf(d.live, d.heap.len())
    &&& forall|h: int| 0 <= h < d.heap.len() ==> frame_wf(#[trigger] d.heap[h], d.heap.len())
}

/// A frame well-formed for a small arena stays well-formed when the arena
/// grows.
pub proof fn lemma_frame_wf_mono(f: AbsFrame, h1: nat, h2: nat)
    requires
        frame_wf(f, h1),
        h1 <= h2,
    ensures
        frame_wf(f, h2),
{
    assert forall|i: int| 0 <= i < f.len() implies val_wf(#[trigger] f[i].value, h2) by {
        lemma_val_wf_mono(f[i].value, h1, h2);
    }
}

/// A found value is well-formed: it came out of a well-formed frame.
pub proof fn lemma_env_find_wf(d: AbsDicts, env: Seq<nat>, n: Seq<char>)
    requires
        dicts_wf(d),
    ensures
        env_find(d.heap, env, n) matches Option::Some(v) ==> val_wf(v, d.heap.len()),
    decreases env,
{
    if env.len() > 0 {
        let h = env.last();
        if h < d.heap.len() {
            let f = d.heap[h as int];
            lemma_frame_key_index(f, n);
        }
        lemma_env_find_wf(d, env.drop_last(), n);
    }
}

/// Defining preserves well-formedness, keeps the live stack, and keeps the
/// arena size.
pub proof fn lemma_dicts_define_wf(d: AbsDicts, n: Seq<char>, v: AbsValue)
    requires
        dicts_wf(d),
        val_wf(v, d.heap.len()),
    ensures
        dicts_wf(dicts_define(d, n, v)),
        dicts_define(d, n, v).live == d.live,
        dicts_define(d, n, v).heap.len() == d.heap.len(),
{
    let h = d.live.last();
    let f = d.heap[h as int];
    let f2 = frame_define(f, n, v);
    lemma_frame_key_index(f, n);
    let idx = frame_key_index(f, n);
    assert forall|i: int, j: int| 0 <= i < j < f2.len() implies f2[i].key != f2[j].key by {
        if 0 <= idx < f.len() {
            assert(f[idx].key == n);
        }
    }
    assert forall|i: int| 0 <= i < f2.len() implies val_wf(#[trigger] f2[i].value, d.heap.len()) by {}
}

/// After `define(n, v)`, a lookup of `n` against the live environment finds
/// exactly `v` (the definition went into the top frame, which is searched
/// first).
pub proof fn lemma_define_then_find(d: AbsDicts, n: Seq<char>, v: AbsValue)
    requires
        dicts_wf(d),
    ensures
        ({
            let d2 = dicts_define(d, n, v);
            env_find(d2.heap, d2.live, n) == Option::<AbsValue>::Some(v)
        }),
{
    let d2 = dicts_define(d, n, v);
    let h = d.live.last();
    let f = d.heap[h as int];
    let f2 = frame_define(f, n, v);
    lemma_frame_key_index(f, n);
    lemma_frame_key_index(f2, n);
    let idx = frame_key_index(f, n);
    let idx2 = frame_key_index(f2, n);
    if 0 <= idx < f.len() {
        assert(f2[idx].key == n);
        assert(idx2 != -1);
        assert(forall|j: int| 0 <= j < idx ==> f2[j] == f[j]);
        assert(f2[idx2].key == n);
        if idx2 < idx {
            assert(f[idx2].key != n);
            assert(f2[idx2] == f[idx2]);
            assert(false);
        }
        if idx2 > idx {
            assert(f2[idx].key != n);
            assert(false);
        }
        assert(frame_find(f2, n) == Option::<AbsValue>::Some(v));
    } else {
        assert(f2 == f.push(AbsBinding { key: n, value: v }));
        assert(f2[f.len() as int].key == n);
        assert(idx2 != -1);
        if idx2 < f.len() {
            assert(f2[idx2] == f[idx2]);
            assert(false);
        }
        assert(idx2 == f.len());
        assert(frame_find(f2, n) == Option::<AbsValue>::Some(v));
    }
    assert(d2.live.last() == h);
    assert(d2.heap[h as int] == f2);
    assert(env_find(d2.heap, d2.live, n) == Option::<AbsValue>::Some(v));
}

impl View for DictStack {
    type V = AbsDicts;

    closed spec fn view(&self) -> AbsDicts {
        AbsDicts { heap: abs_frames(self.heap@), live: abs_handles(self.live@) }
    }
}

impl Frame {
    /// Creates an empty frame.
    pub fn new() -> (r: Self)
        ensures
            abs_frame(r) =~= Seq::<AbsBinding>::empty(),
    {
        Frame { entries: Vec::new() }
    }

    /// The number of bindings.
    pub fn len(&self) -> (r: usize)
        ensures
            r == abs_frame(*self).len(),
    {
        self.entries.len()
    }
}

/// Deep copy of a frame; the copy has the same model.
fn clone_frame(f: &Frame) -> (r: Frame)
    ensures
        abs_frame(r) =~= abs_frame(*f),
{
    let mut entries: Vec<Binding> = Vec::new();
    let mut i: usize = 0;
    while i < f.entries.len()
        invariant
            i <= f.entries.len(),
            entries@.len() == i,
            forall|j: int| 0 <= j < i ==> abs_binding(entries@[j]) == abs_binding(f.entries@[j]),
        decreases f.entries.len() - i,
    {
        let b = Binding { key: clone_chars(&f.entries[i].key), value: clone_value(&f.entries[i].value) };
        entries.push(b);
        i = i + 1;
    }
    Frame { entries }
}

/// Finds the value bound to `name` in `f`, as an owned copy.
fn frame_find_exec(f: &Frame, name: &Vec<char>) -> (r: Option<Value>)
    ensures
        match r {
            Option::Some(v) => frame_find(abs_frame(*f), name@) == Option::Some(abs_value(v)),
            Option::None => frame_find(abs_frame(*f), name@) == Option::<AbsValue>::None,
        },
{
    proof {
        lemma_frame_key_index(abs_frame(*f), name@);
    }
    let mut i: usize = 0;
    while i < f.entries.len()
        invariant
            i <= f.entries.len(),
            forall|j: int| 0 <= j < i ==> abs_frame(*f)[j].key != name@,
        decreases f.entries.len() - i,
    {
        if crate::value::chars_eq(&f.entries[i].key, name) {
            proof {
                let idx = frame_key_index(abs_frame(*f), name@);
                assert(abs_frame(*f)[i as int].key == name@);
                lemma_frame_key_index(abs_frame(*f), name@);
                assert(idx == i as int);
            }
            return Option::Some(clone_value(&f.entries[i].value));
        }
        i = i + 1;
    }
    proof {
        lemma_frame_key_index(abs_frame(*f), name@);
    }
    Option::None
}

impl DictStack {
    /// Creates a dictionary stack holding exactly the permanent global frame.
    pub fn new() -> (r: Self)
        ensures
            r@ =~= (AbsDicts { heap: seq![Seq::<AbsBinding>::empty()], live: seq![0nat] }),
            dicts_wf(r@),
    {
        let mut heap: Vec<Frame> = Vec::new();
        heap.push(Frame::new());
        let mut live: Vec<usize> = Vec::new();
        live.push(0);
        let r = DictStack { heap, live };
        proof {
            assert(r@.heap =~= seq![Seq::<AbsBinding>::empty()]);
            assert(r@.live =~= seq![0nat]);
        }
        r
    }

    /// The number of frames currently in scope.
    pub fn depth(&self) -> (r: usize)
        ensures
            r == self@.live.len(),
    {
        self.live.len()
    }

    /// The number of frames the arena holds.
    pub fn heap_len(&self) -> (r: usize)
        ensures
            r == self@.heap.len(),
    {
        self.heap.len()
    }

    /// The live environment: the current handle sequence, bottom first.
    pub fn env(&self) -> (r: Vec<usize>)
        ensures
            abs_handles(r@) =~= self@.live,
    {
        let r = crate::value::clone_handles(&self.live);
        proof {
            assert(abs_handles(r@) =~= abs_handles(self.live@));
        }
        r
    }

    /// The number of bindings of frame `h`, or `None` for a handle outside
    /// the arena.
    pub fn frame_len(&self, h: usize) -> (r: Option<usize>)
        ensures
            match r {
                Option::Some(l) => h < self@.heap.len() && l == self@.heap[h as int].len(),
                Option::None => h >= self@.heap.len(),
            },
    {
        if h < self.heap.len() {
            Option::Some(self.heap[h].len())
        } else {
            Option::None
        }
    }

    /// Creates a fresh empty frame in the arena and returns its handle.
    pub fn alloc_frame(&mut self) -> (h: usize)
        requires
            dicts_wf(old(self)@),
        ensures
            h == old(self)@.heap.len(),
            final(self)@.heap =~= old(self)@.heap.push(Seq::<AbsBinding>::empty()),
            final(self)@.live == old(self)@.live,
            dicts_wf(final(self)@),
    {
        let h = self.heap.len();
        self.heap.push(Frame::new());
        proof {
            assert(self@.heap =~= old(self)@.heap.push(Seq::<AbsBinding>::empty()));
            assert(self@.live =~= old(self)@.live);
            assert forall|k: int| 0 <= k < self@.heap.len() implies frame_wf(
                #[trigger] self@.heap[k],
                self@.heap.len(),
            ) by {
                if k < old(self)@.heap.len() {
                    lemma_frame_wf_mono(old(self)@.heap[k], old(self)@.heap.len(), self@.heap.len());
                }
            }
        }
        h
    }

    /// Inserts or overwrites `name` in the top frame only. Never searches or
    /// touches any other frame.
    pub fn define(&mut self, name: &Vec<char>, value: Value)
        requires
            dicts_wf(old(self)@),
            val_wf(abs_value(value), old(self)@.heap.len()),
        ensures
            final(self)@ =~= dicts_define(old(self)@, name@, abs_value(value)),
            dicts_wf(final(self)@),
    {
        proof {
            lemma_dicts_define_wf(old(self)@, name@, abs_value(value));
        }
        let h = self.live[self.live.len() - 1];
        assert(h as nat == self@.live.last());
        let ghost f_abs = self@.heap[h as int];
        proof {
            lemma_frame_key_index(f_abs, name@);
        }
        let fr = &mut self.heap[h];
        assert(abs_frame(*fr) == f_abs);
        let mut i: usize = 0;
        let mut found: bool = false;
        while i < fr.entries.len() && !found
            invariant
                i <= fr.entries.len(),
                abs_frame(*fr) == f_abs,
                !found ==> forall|j: int| 0 <= j < i ==> f_abs[j].key != name@,
                found ==> i < fr.entries.len() && f_abs[i as int].key == name@,
            decreases fr.entries.len() - i, (if found { 0int } else { 1int }),
        {
            if crate::value::chars_eq(&fr.entries[i].key, name) {
                found = true;
            } else {
                i = i + 1;
            }
        }
        let ghost idx = frame_key_index(f_abs, name@);
        let b = Binding { key: clone_chars(name), value };
        if found {
            proof {
                assert(idx == i as int);
            }
            fr.entries[i] = b;
            proof {
                assert(abs_frame(*fr) =~= frame_define(f_abs, name@, abs_value(b.value)));
            }
        } else {
            proof {
                assert(idx == -1);
            }
            fr.entries.push(b);
            proof {
                assert(abs_frame(*fr) =~= frame_define(f_abs, name@, abs_value(b.value)));
            }
        }
        proof {
            assert(self@.heap =~= old(self)@.heap.update(h as int, abs_frame(*fr)));
            assert(self@.live == old(self)@.live);
            assert(self@ =~= dicts_define(old(self)@, name@, abs_value(value)));
        }
    }

    /// Dynamic-scope lookup: searches the live frame sequence from the most
    /// recently opened frame down to the global frame, returning a copy of
    /// the first binding found. Absence is not an error by itself.
    pub fn lookup_dynamic(&self, name: &Vec<char>) -> (r: Option<Value>)
        requires
            dicts_wf(self@),
        ensures
            match r {
                Option::Some(v) => env_find(self@.heap, self@.live, name@) == Option::Some(
                    abs_value(v),
                ),
                Option::None => env_find(self@.heap, self@.live, name@)
                    == Option::<AbsValue>::None,
            },
    {
        self.lookup_in(name, &self.live)
    }

    /// Lexical-scope lookup: the identical search, but over the captured
    /// handle sequence supplied by the caller instead of the live one.
    pub fn lookup_lexical(&self, name: &Vec<char>, ctx: &Vec<usize>) -> (r: Option<Value>)
        requires
            dicts_wf(self@),
            env_wf(abs_handles(ctx@), self@.heap.len()),
        ensures
            match r {
                Option::Some(v) => env_find(self@.heap, abs_handles(ctx@), name@) == Option::Some(
                    abs_value(v),
                ),
                Option::None => env_find(self@.heap, abs_handles(ctx@), name@)
                    == Option::<AbsValue>::None,
            },
    {
        self.lookup_in(name, ctx)
    }

    /// The shared search: walk `env` from its top (last handle) downward.
    fn lookup_in(&self, name: &Vec<char>, env: &Vec<usize>) -> (r: Option<Value>)
        requires
            dicts_wf(self@),
            env_wf(abs_handles(env@), self@.heap.len()),
        ensures
            match r {
                Option::Some(v) => env_find(self@.heap, abs_handles(env@), name@) == Option::Some(
                    abs_value(v),
                ),
                Option::None => env_find(self@.heap, abs_handles(env@), name@)
                    == Option::<AbsValue>::None,
            },
    {
        let ghost env_abs = abs_handles(env@);
        let mut k: usize = env.len();
        proof {
            assert(env_abs.subrange(0, k as int) =~= env_abs);
        }
        while k > 0
            invariant
                k <= env.len(),
                env_wf(env_abs, self@.heap.len()),
                env_abs.len() == env@.len(),
                forall|i: int| 0 <= i < env@.len() ==> env_abs[i] == env@[i] as nat,
                env_find(self@.heap, env_abs, name@) == env_find(
                    self@.heap,
                    env_abs.subrange(0, k as int),
                    name@,
                ),
            decreases k,
        {
            k = k - 1;
            let h = env[k];
            let ghost pre = env_abs.subrange(0, k as int + 1);
            assert(pre.last() == h as nat);
            assert(pre.drop_last() =~= env_abs.subrange(0, k as int));
            match frame_find_exec(&self.heap[h], name) {
                Option::Some(v) => {
                    assert(env_find(self@.heap, pre, name@) == Option::Some(abs_value(v)));
                    assert(env_abs =~= abs_handles(env@));
                    return Option::Some(v);
                },
                Option::None => {
                    assert(env_find(self@.heap, pre, name@) == env_find(
                        self@.heap,
                        env_abs.subrange(0, k as int),
                        name@,
                    ));
                },
            }
        }
        assert(env_abs.subrange(0, 0) =~= Seq::<nat>::empty());
        Option::None
    }

    /// Pushes frame `h` as the new top of the live stack.
    pub fn open_scope(&mut self, h: usize)
        requires
            dicts_wf(old(self)@),
            h < old(self)@.heap.len(),
        ensures
            final(self)@.heap == old(self)@.heap,
            final(self)@.live =~= old(self)@.live.push(h as nat),
            dicts_wf(final(self)@),
    {
        self.live.push(h);
        proof {
            assert(self@.live =~= old(self)@.live.push(h as nat));
            assert(self@.heap =~= old(self)@.heap);
        }
    }

    /// Pops the top frame of the live stack; fails if only the global frame
    /// remains, which is never removable.
    pub fn close_scope(&mut self) -> (r: Result<(), PsError>)
        requires
            dicts_wf(old(self)@),
        ensures
            match r {
                Result::Ok(()) => {
                    &&& old(self)@.live.len() > 1
                    &&& final(self)@.heap == old(self)@.heap
                    &&& final(self)@.live =~= old(self)@.live.drop_last()
                },
                Result::Err(e) => {
                    &&& e == PsError::ScopeError
                    &&& old(self)@.live.len() == 1
                    &&& final(self)@ == old(self)@
                },
            },
            dicts_wf(final(self)@),
    {
        if self.live.len() <= 1 {
            return Result::Err(PsError::ScopeError);
        }
        self.live.pop();
        proof {
            assert(self@.live =~= old(self)@.live.drop_last());
            assert(self@.heap =~= old(self)@.heap);
        }
        Result::Ok(())
    }

    /// Captures the live environment: copies every live frame into a fresh,
    /// independently owned arena slot and returns the handles of the copies,
    /// bottom first.
    pub fn snapshot_live(&mut self) -> (env: Vec<usize>)
        requires
            dicts_wf(old(self)@),
        ensures
            final(self)@ =~= dicts_capture(old(self)@).0,
            abs_handles(env@) =~= dicts_capture(old(self)@).1,
            dicts_wf(final(self)@),
            env_wf(abs_handles(env@), final(self)@.heap.len()),
    {
        let ghost d0 = self@;
        let n = self.live.len();
        let mut env: Vec<usize> = Vec::new();
        let mut i: usize = 0;
        while i < n
            invariant
                i <= n,
                n == d0.live.len(),
                self@.live == d0.live,
                self@.heap =~= d0.heap + live_frames(d0).subrange(0, i as int),
                env@.len() == i,
                forall|j: int| 0 <= j < i ==> env@[j] as nat == d0.heap.len() + j,
                dicts_wf(d0),
            decreases n - i,
        {
            let h = self.live[i];
            proof {
                assert(h as nat == abs_handles(self.live@)[i as int]);
                assert(h as nat == d0.live[i as int]);
                assert(d0.live[i as int] < d0.heap.len());
                assert(self@.heap.len() == d0.heap.len() + i);
                assert(h < self.heap@.len());
            }
            let copy = clone_frame(&self.heap[h]);
            proof {
                assert(abs_frames(self.heap@)[h as int] == abs_frame(self.heap@[h as int]));
                assert(self@.heap[h as int] == d0.heap[h as int]);
                assert(abs_frame(copy) =~= d0.heap[h as int]);
            }
            let ghost heap_prev = self.heap@;
            env.push(self.heap.len());
            self.heap.push(copy);
            i = i + 1;
            proof {
                assert(self.heap@ == heap_prev.push(copy));
                assert(abs_frames(self.heap@) =~= abs_frames(heap_prev).push(abs_frame(copy)));
                assert(live_frames(d0).subrange(0, i as int) =~= live_frames(d0).subrange(
                    0,
                    i - 1,
                ).push(d0.heap[d0.live[i - 1] as int]));
                assert(self@.heap =~= d0.heap + live_frames(d0).subrange(0, i as int));
                assert(self@.live =~= d0.live);
            }
        }
        proof {
            assert(live_frames(d0).subrange(0, n as int) =~= live_frames(d0));
            assert(self@ =~= dicts_capture(d0).0);
            assert(abs_handles(env@) =~= dicts_capture(d0).1);
            let hl = self@.heap.len();
            assert forall|k: int| 0 <= k < hl implies frame_wf(#[trigger] self@.heap[k], hl) by {
                if k < d0.heap.len() {
                    assert(self@.heap[k] == d0.heap[k]);
                    lemma_frame_wf_mono(d0.heap[k], d0.heap.len(), hl);
                } else {
                    let j = k - d0.heap.len();
                    assert(self@.heap[k] == live_frames(d0)[j]);
                    assert(live_frames(d0)[j] == d0.heap[d0.live[j] as int]);
                    lemma_frame_wf_mono(d0.heap[d0.live[j] as int], d0.heap.len(), hl);
                }
            }
        }
        env
    }
}

} // verus!
