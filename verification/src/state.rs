//! Per-stream accumulation state and its transition system.
//!
//! `ProtocolStreamState` is the mutable record a caller threads through every
//! frame of one vendor stream. Its ghost model is `StateV`; every mutation the
//! adapter performs is specified as a pure transition on `StateV`, so the
//! whole state machine of spec and correlation rules lives in spec functions
//! that the executable code is proved to follow.

use vstd::prelude::*;

use crate::json::{json_of, json_text_of, json_to_text, parse_json, Jv, JsonValue, jv_get};
use crate::model::{Ev, StreamEvent};
use crate::text::{dec_str, is_blank, str_is_blank, string_eq_str, u64_to_string};

verus! {

/// One tool call under assembly: its id, name, and raw argument text built by
/// concatenating streamed fragments.
pub struct ToolCallAccum {
    pub tool_call_id: String,
    pub tool_name: String,
    pub arguments: String,
}

/// Ghost mirror of `ToolCallAccum`.
#[verifier::ext_equal]
pub struct AccumV {
    pub tool_call_id: Seq<char>,
    pub tool_name: Seq<char>,
    pub arguments: Seq<char>,
}

impl View for ToolCallAccum {
    type V = AccumV;

    open spec fn view(&self) -> AccumV {
        AccumV {
            tool_call_id: self.tool_call_id@,
            tool_name: self.tool_name@,
            arguments: self.arguments@,
        }
    }
}

impl DeepView for ToolCallAccum {
    type V = AccumV;

    open spec fn deep_view(&self) -> AccumV {
        self.view()
    }
}

/// Per-stream parser state, owned by the caller driving one stream.
pub struct ProtocolStreamState {
    /// Stream index to tool_call_id, set the first time an id is seen at an
    /// index.
    pub tool_call_index_map: Vec<(u64, String)>,
    /// Correlation key to accumulator.
    pub tool_calls: Vec<(String, ToolCallAccum)>,
    /// Keys in first-seen order; the single source of emission ordering.
    pub tool_call_order: Vec<String>,
    /// Keys whose tool call has already been surfaced.
    pub emitted_tool_calls: Vec<String>,
    /// Synthesized events waiting to be handed out, oldest first.
    pub pending_events: Vec<StreamEvent>,
    /// Whether `TextStart` has been pushed for this stream.
    pub text_started: bool,
    /// The last captured finish reason; the last write wins.
    pub finish_reason: Option<String>,
}

/// Ghost mirror of `ProtocolStreamState`.
#[verifier::ext_equal]
pub struct StateV {
    pub index_map: Seq<(u64, Seq<char>)>,
    pub accums: Seq<(Seq<char>, AccumV)>,
    pub order: Seq<Seq<char>>,
    pub emitted: Seq<Seq<char>>,
    pub pending: Seq<Ev>,
    pub text_started: bool,
    pub finish_reason: Option<Seq<char>>,
}

impl StateV {
    /// The empty state a stream starts from.
    pub open spec fn init() -> StateV {
        StateV {
            index_map: Seq::empty(),
            accums: Seq::empty(),
            order: Seq::empty(),
            emitted: Seq::empty(),
            pending: Seq::empty(),
            text_started: false,
            finish_reason: None,
        }
    }
}

impl View for ProtocolStreamState {
    type V = StateV;

    open spec fn view(&self) -> StateV {
        StateV {
            index_map: self.tool_call_index_map.deep_view(),
            accums: self.tool_calls.deep_view(),
            order: self.tool_call_order.deep_view(),
            emitted: self.emitted_tool_calls.deep_view(),
            pending: self.pending_events.deep_view(),
            text_started: self.text_started,
            finish_reason: self.finish_reason.deep_view(),
        }
    }
}

impl ProtocolStreamState {
    /// A fresh state with nothing accumulated.
    pub fn new() -> (r: ProtocolStreamState)
        ensures
            r@ == StateV::init(),
    {
        let r = ProtocolStreamState {
            tool_call_index_map: Vec::new(),
            tool_calls: Vec::new(),
            tool_call_order: Vec::new(),
            emitted_tool_calls: Vec::new(),
            pending_events: Vec::new(),
            text_started: false,
            finish_reason: None,
        };
        proof {
            assert(r@ =~~= StateV::init());
        }
        r
    }
}

impl Default for ProtocolStreamState {
    fn default() -> (r: ProtocolStreamState)
        ensures
            r@ == StateV::init(),
    {
        ProtocolStreamState::new()
    }
}

/// First binding of an index in the index map.
pub open spec fn assoc_key(s: Seq<(u64, Seq<char>)>, k: u64) -> Option<Seq<char>>
    decreases s.len(),
{
    if s.len() == 0 {
        None
    } else if s[0].0 == k {
        Some(s[0].1)
    } else {
        assoc_key(s.drop_first(), k)
    }
}

/// First accumulator bound to a key.
pub open spec fn accum_get(s: Seq<(Seq<char>, AccumV)>, k: Seq<char>) -> Option<AccumV>
    decreases s.len(),
{
    if s.len() == 0 {
        None
    } else if s[0].0 == k {
        Some(s[0].1)
    } else {
        accum_get(s.drop_first(), k)
    }
}

/// Rebinds a key: the first occurrence is replaced in place, or the pair is
/// appended when the key is new.
pub open spec fn accum_put(
    s: Seq<(Seq<char>, AccumV)>,
    k: Seq<char>,
    a: AccumV,
) -> Seq<(Seq<char>, AccumV)>
    decreases s.len(),
{
    if s.len() == 0 {
        seq![(k, a)]
    } else if s[0].0 == k {
        seq![(s[0].0, a)] + s.drop_first()
    } else {
        seq![s[0]] + accum_put(s.drop_first(), k, a)
    }
}

/// The numeric stream index of a tool-call delta entry, when present.
pub open spec fn entry_index(e: Jv) -> Option<u64> {
    match jv_get(e, "index"@) {
        Some(Jv::Int(i)) => if i >= 0 {
            Some(i as u64)
        } else {
            None
        },
        _ => None,
    }
}

/// The entry's own id, or empty when absent or not a string.
pub open spec fn entry_id(e: Jv) -> Seq<char> {
    match jv_get(e, "id"@) {
        Some(Jv::Str(s)) => s,
        _ => Seq::empty(),
    }
}

/// The function name carried by the entry, or empty.
pub open spec fn entry_fn_name(e: Jv) -> Seq<char> {
    match jv_get(e, "function"@) {
        Some(f) => match jv_get(f, "name"@) {
            Some(Jv::Str(s)) => s,
            _ => Seq::empty(),
        },
        None => Seq::empty(),
    }
}

/// The arguments value carried by the entry, when any.
pub open spec fn entry_fn_args(e: Jv) -> Option<Jv> {
    match jv_get(e, "function"@) {
        Some(f) => jv_get(f, "arguments"@),
        None => None,
    }
}

/// Memoizes the first pairing of a non-empty id with an index.
pub open spec fn memo_index(m: StateV, ix: Option<u64>, id: Seq<char>) -> StateV {
    if ix is Some && id.len() > 0 && assoc_key(m.index_map, ix->0) is None {
        StateV { index_map: m.index_map.push((ix->0, id)), ..m }
    } else {
        m
    }
}

/// Correlation key resolution, in priority order: the entry's own id; the id
/// recorded for the index; the key at the same ordinal in the emission order;
/// the index itself, in decimal.
///
/// Note that these rules have no guard against a vendor reusing a stream
/// index for a second, unrelated call after the first call at that index was
/// emitted: id-less deltas would then fold into the already-emitted
/// accumulator, whose key stays emitted.
pub open spec fn resolve_key(m: StateV, ix: Option<u64>, id: Seq<char>) -> Seq<char> {
    if id.len() > 0 {
        id
    } else {
        match ix {
            Some(i) => match assoc_key(m.index_map, i) {
                Some(k) => k,
                None => if (i as int) < m.order.len() {
                    m.order[i as int]
                } else {
                    dec_str(i as nat)
                },
            },
            None => Seq::empty(),
        }
    }
}

/// A freshly created accumulator for a key.
pub open spec fn initial_accum(key: Seq<char>, id: Seq<char>, name: Seq<char>) -> AccumV {
    AccumV {
        tool_call_id: if id.len() == 0 {
            key
        } else {
            id
        },
        tool_name: name,
        arguments: Seq::empty(),
    }
}

/// One delta folded into an accumulator: non-empty id and name win; string
/// arguments append; a non-string arguments value replaces an empty buffer
/// with its rendered text.
pub open spec fn updated_accum(
    acc: AccumV,
    id: Seq<char>,
    name: Seq<char>,
    args: Option<Jv>,
) -> AccumV {
    AccumV {
        tool_call_id: if id.len() > 0 {
            id
        } else {
            acc.tool_call_id
        },
        tool_name: if name.len() > 0 {
            name
        } else {
            acc.tool_name
        },
        arguments: match args {
            Some(Jv::Str(s)) => acc.arguments + s,
            Some(v) => if acc.arguments.len() == 0 {
                json_text_of(v)
            } else {
                acc.arguments
            },
            None => acc.arguments,
        },
    }
}

/// The full effect of one tool-call delta entry on the state.
pub open spec fn apply_entry(m0: StateV, e: Jv) -> StateV {
    let ix = entry_index(e);
    let id = entry_id(e);
    let m = memo_index(m0, ix, id);
    let key = resolve_key(m, ix, id);
    if key.len() == 0 {
        m
    } else {
        let name = entry_fn_name(e);
        let args = entry_fn_args(e);
        let acc0 = match accum_get(m.accums, key) {
            Some(a) => a,
            None => initial_accum(key, id, name),
        };
        let acc1 = updated_accum(acc0, id, name, args);
        let m2 = StateV { accums: accum_put(m.accums, key, acc1), ..m };
        if m2.order.contains(key) {
            m2
        } else {
            StateV { order: m2.order.push(key), ..m2 }
        }
    }
}

/// All entries of one delta, folded in order.
pub open spec fn apply_entries(m: StateV, es: Seq<Jv>) -> StateV
    decreases es.len(),
{
    if es.len() == 0 {
        m
    } else {
        apply_entries(apply_entry(m, es[0]), es.drop_first())
    }
}

/// Tool-call accumulation for one delta object: a no-op unless the delta
/// carries a `tool_calls` array.
pub open spec fn tool_delta(m: StateV, d: Jv) -> StateV {
    match jv_get(d, "tool_calls"@) {
        Some(Jv::Arr(es)) => apply_entries(m, es),
        _ => m,
    }
}

/// The flush decision for one key: skipped when already emitted, unnamed, or
/// (unforced) still holding a blank argument buffer; otherwise its assembled
/// `ToolCall` event joins the queue and the key is marked emitted. Malformed
/// argument text never aborts the stream: it is wrapped as a JSON string.
pub open spec fn emit_step(m: StateV, key: Seq<char>, force: bool) -> StateV {
    if m.emitted.contains(key) {
        m
    } else {
        match accum_get(m.accums, key) {
            None => m,
            Some(acc) => if acc.tool_name.len() == 0 {
                m
            } else if !force && is_blank(acc.arguments) {
                m
            } else {
                let input = if is_blank(acc.arguments) {
                    Jv::Obj(Seq::empty())
                } else {
                    match json_of(acc.arguments) {
                        Some(v) => v,
                        None => Jv::Str(acc.arguments),
                    }
                };
                StateV {
                    pending: m.pending.push(Ev::ToolCall(acc.tool_call_id, acc.tool_name, input)),
                    emitted: m.emitted.push(key),
                    ..m
                }
            },
        }
    }
}

/// The flush decision folded over a list of keys.
pub open spec fn emit_list(m: StateV, keys: Seq<Seq<char>>, force: bool) -> StateV
    decreases keys.len(),
{
    if keys.len() == 0 {
        m
    } else {
        emit_list(emit_step(m, keys[0], force), keys.drop_first(), force)
    }
}

/// One whole flush pass over the emission order.
pub open spec fn emit_pass(m: StateV, force: bool) -> StateV {
    emit_list(m, m.order, force)
}

/// The usage event synthesized from a frame's `usage` object, if any.
pub open spec fn push_usage(m: StateV, p: Jv) -> StateV {
    match jv_get(p, "usage"@) {
        Some(u) => {
            let itok = match jv_get(u, "prompt_tokens"@) {
                Some(Jv::Int(i)) => i,
                _ => 0,
            };
            let otok = match jv_get(u, "completion_tokens"@) {
                Some(Jv::Int(i)) => i,
                _ => 0,
            };
            let ttok = match jv_get(u, "total_tokens"@) {
                Some(Jv::Int(i)) => Some(i as i32),
                _ => None::<i32>,
            };
            StateV {
                pending: m.pending.push(Ev::Usage(itok as i32, otok as i32, ttok, None, None)),
                ..m
            }
        },
        None => m,
    }
}

/// The first element of the frame's `choices` array, if any.
pub open spec fn first_choice(p: Jv) -> Option<Jv> {
    match jv_get(p, "choices"@) {
        Some(Jv::Arr(xs)) => if xs.len() > 0 {
            Some(xs[0])
        } else {
            None
        },
        _ => None,
    }
}

/// Captures a frame's finish reason; the last write wins.
pub open spec fn capture_finish(m: StateV, c: Jv) -> StateV {
    match jv_get(c, "finish_reason"@) {
        Some(Jv::Str(s)) => StateV { finish_reason: Some(s), ..m },
        _ => m,
    }
}

/// Text handling for one delta object: `TextStart` once per stream before
/// anything else, then a `TextDelta` when the delta carries string content.
pub open spec fn apply_delta_text(m: StateV, d: Jv) -> StateV {
    let m1 = if !m.text_started {
        StateV { text_started: true, pending: m.pending.push(Ev::TextStart), ..m }
    } else {
        m
    };
    match jv_get(d, "content"@) {
        Some(Jv::Str(s)) => StateV { pending: m1.pending.push(Ev::TextDelta(s)), ..m1 },
        _ => m1,
    }
}

/// A parsed frame's effect before any flush: usage, finish reason, text, and
/// tool-call accumulation.
pub open spec fn frame_pre_flush(m: StateV, p: Jv) -> StateV {
    let m1 = push_usage(m, p);
    match first_choice(p) {
        Some(c) => {
            let mf = capture_finish(m1, c);
            match jv_get(c, "delta"@) {
                Some(d) => tool_delta(apply_delta_text(mf, d), d),
                None => mf,
            }
        },
        None => m1,
    }
}

/// The full effect of one parsed (non-sentinel) frame: usage, finish reason,
/// text, tool-call accumulation, then an opportunistic unforced flush when the
/// captured finish reason is `tool_calls`.
pub open spec fn frame_step(m: StateV, p: Jv) -> StateV {
    let m2 = frame_pre_flush(m, p);
    if m2.finish_reason == Some("tool_calls"@) {
        emit_pass(m2, false)
    } else {
        m2
    }
}

/// The caller-facing drain step: the oldest queued event leaves the queue.
pub open spec fn drain_front(m: StateV) -> (StateV, Option<Ev>) {
    if m.pending.len() > 0 {
        (StateV { pending: m.pending.drop_first(), ..m }, Some(m.pending[0]))
    } else {
        (m, None)
    }
}

/// Pops the oldest queued event, if any.
pub fn pop_front_event(state: &mut ProtocolStreamState) -> (r: Option<StreamEvent>)
    ensures
        final(state)@ == drain_front(old(state)@).0,
        match r {
            Some(e) => drain_front(old(state)@).1 == Some(e@),
            None => drain_front(old(state)@).1 is None,
        },
{
    if state.pending_events.len() > 0 {
        let e = state.pending_events.remove(0);
        proof {
            assert(state.pending_events@ =~= old(state).pending_events@.drop_first());
            assert(state.pending_events.deep_view() =~= old(state)@.pending.drop_first());
            assert(state@ =~~= StateV {
                pending: old(state)@.pending.drop_first(),
                ..old(state)@
            });
            assert(e@ == old(state)@.pending[0]);
        }
        Some(e)
    } else {
        proof {
            assert(state@ =~~= old(state)@);
        }
        None
    }
}

/// Whether a key occurs in a list of keys.
pub fn vec_str_contains(v: &Vec<String>, k: &str) -> (r: bool)
    ensures
        r == v.deep_view().contains(k@),
{
    let mut i: usize = 0;
    while i < v.len()
        invariant
            0 <= i <= v@.len(),
            forall|j: int| 0 <= j < i ==> (#[trigger] v@[j])@ != k@,
        decreases v@.len() - i,
    {
        if string_eq_str(&v[i], k) {
            proof {
                assert(v.deep_view()[i as int] == k@);
            }
            return true;
        }
        i += 1;
    }
    proof {
        assert forall|j: int| 0 <= j < v.deep_view().len() implies #[trigger] v.deep_view()[j]
            != k@ by {
            assert(v.deep_view()[j] == v@[j]@);
        }
    }
    false
}

proof fn lemma_assoc_key_skip(s: Seq<(u64, Seq<char>)>, k: u64, i: int)
    requires
        0 <= i <= s.len(),
        forall|j: int| 0 <= j < i ==> (#[trigger] s[j]).0 != k,
    ensures
        assoc_key(s, k) == assoc_key(s.skip(i), k),
    decreases i,
{
    if i > 0 {
        let t = s.drop_first();
        assert(forall|j: int| 0 <= j < i - 1 ==> (#[trigger] t[j]).0 == s[j + 1].0);
        lemma_assoc_key_skip(t, k, i - 1);
        assert(t.skip(i - 1) =~= s.skip(i));
        assert(s.skip(0) =~= s);
    } else {
        assert(s.skip(0) =~= s);
    }
}

/// The id recorded for a stream index, if any.
pub fn index_map_get(v: &Vec<(u64, String)>, ix: u64) -> (r: Option<String>)
    ensures
        match r {
            Some(s) => assoc_key(v.deep_view(), ix) == Some(s@),
            None => assoc_key(v.deep_view(), ix) is None,
        },
{
    let ghost t = v.deep_view();
    let mut i: usize = 0;
    while i < v.len()
        invariant
            0 <= i <= v@.len(),
            t == v.deep_view(),
            t.len() == v@.len(),
            forall|j: int| 0 <= j < v@.len() ==> #[trigger] t[j] == (v@[j].0, v@[j].1@),
            forall|j: int| 0 <= j < i ==> (#[trigger] t[j]).0 != ix,
        decreases v@.len() - i,
    {
        if v[i].0 == ix {
            proof {
                lemma_assoc_key_skip(t, ix, i as int);
                assert(t.skip(i as int)[0] == t[i as int]);
                assert(t.skip(i as int).len() > 0);
            }
            return Some(v[i].1.clone());
        }
        i += 1;
    }
    proof {
        lemma_assoc_key_skip(t, ix, t.len() as int);
        assert(t.skip(t.len() as int) =~= Seq::<(u64, Seq<char>)>::empty());
    }
    None
}

proof fn lemma_accum_get_skip(s: Seq<(Seq<char>, AccumV)>, k: Seq<char>, i: int)
    requires
        0 <= i <= s.len(),
        forall|j: int| 0 <= j < i ==> (#[trigger] s[j]).0 != k,
    ensures
        accum_get(s, k) == accum_get(s.skip(i), k),
    decreases i,
{
    if i > 0 {
        let t = s.drop_first();
        assert(forall|j: int| 0 <= j < i - 1 ==> (#[trigger] t[j]).0 == s[j + 1].0);
        lemma_accum_get_skip(t, k, i - 1);
        assert(t.skip(i - 1) =~= s.skip(i));
        assert(s.skip(0) =~= s);
    } else {
        assert(s.skip(0) =~= s);
    }
}

proof fn lemma_accum_get_none(s: Seq<(Seq<char>, AccumV)>, k: Seq<char>)
    requires
        accum_get(s, k) is None,
    ensures
        forall|j: int| 0 <= j < s.len() ==> (#[trigger] s[j]).0 != k,
    decreases s.len(),
{
    if s.len() > 0 {
        let t = s.drop_first();
        lemma_accum_get_none(t, k);
        assert(forall|j: int| 1 <= j < s.len() ==> (#[trigger] s[j]).0 == t[j - 1].0);
    }
}

proof fn lemma_accum_put_found(s: Seq<(Seq<char>, AccumV)>, k: Seq<char>, a: AccumV, i: int)
    requires
        0 <= i < s.len(),
        forall|j: int| 0 <= j < i ==> (#[trigger] s[j]).0 != k,
        s[i].0 == k,
    ensures
        accum_put(s, k, a) == s.update(i, (s[i].0, a)),
    decreases i,
{
    if i == 0 {
        assert(accum_put(s, k, a) =~= s.update(0, (s[0].0, a)));
    } else {
        let t = s.drop_first();
        assert(forall|j: int| 0 <= j < i - 1 ==> (#[trigger] t[j]).0 == s[j + 1].0);
        lemma_accum_put_found(t, k, a, i - 1);
        assert(seq![s[0]] + t.update(i - 1, (t[i - 1].0, a)) =~= s.update(i, (s[i].0, a)));
    }
}

proof fn lemma_accum_put_missing(s: Seq<(Seq<char>, AccumV)>, k: Seq<char>, a: AccumV)
    requires
        forall|j: int| 0 <= j < s.len() ==> (#[trigger] s[j]).0 != k,
    ensures
        accum_put(s, k, a) == s.push((k, a)),
    decreases s.len(),
{
    if s.len() == 0 {
        assert(accum_put(s, k, a) =~= s.push((k, a)));
    } else {
        let t = s.drop_first();
        assert(forall|j: int| 0 <= j < t.len() ==> (#[trigger] t[j]).0 == s[j + 1].0);
        lemma_accum_put_missing(t, k, a);
        assert(seq![s[0]] + t.push((k, a)) =~= s.push((k, a)));
    }
}

/// Where a key's accumulator sits in the backing list, if anywhere.
pub fn accum_find(v: &Vec<(String, ToolCallAccum)>, k: &str) -> (r: Option<usize>)
    ensures
        match r {
            Some(i) => {
                &&& i < v@.len()
                &&& v@[i as int].0@ == k@
                &&& forall|j: int| 0 <= j < i ==> (#[trigger] v@[j]).0@ != k@
                &&& accum_get(v.deep_view(), k@) == Some(v@[i as int].1@)
            },
            None => accum_get(v.deep_view(), k@) is None,
        },
{
    let ghost t = v.deep_view();
    proof {
        assert(forall|j: int| 0 <= j < v@.len() ==> #[trigger] t[j] == (v@[j].0@, v@[j].1@));
    }
    let mut i: usize = 0;
    while i < v.len()
        invariant
            0 <= i <= v@.len(),
            t == v.deep_view(),
            t.len() == v@.len(),
            forall|j: int| 0 <= j < v@.len() ==> #[trigger] t[j] == (v@[j].0@, v@[j].1@),
            forall|j: int| 0 <= j < i ==> (#[trigger] v@[j]).0@ != k@,
        decreases v@.len() - i,
    {
        if string_eq_str(&v[i].0, k) {
            proof {
                assert(forall|j: int| 0 <= j < i ==> (#[trigger] t[j]).0 != k@);
                lemma_accum_get_skip(t, k@, i as int);
                assert(t.skip(i as int)[0] == t[i as int]);
                assert(t.skip(i as int).len() > 0);
            }
            return Some(i);
        }
        i += 1;
    }
    proof {
        assert(forall|j: int| 0 <= j < t.len() ==> (#[trigger] t[j]).0 != k@);
        lemma_accum_get_skip(t, k@, t.len() as int);
        assert(t.skip(t.len() as int) =~= Seq::<(Seq<char>, AccumV)>::empty());
    }
    None
}

/// Applies one tool-call delta entry to the state, as `apply_entry` says.
#[verifier::loop_isolation(false)]
pub fn apply_entry_exec(state: &mut ProtocolStreamState, entry: &JsonValue)
    ensures
        final(state)@ == apply_entry(old(state)@, entry@),
{
    let ghost m0 = old(state)@;
    let ghost e = entry@;
    let index_opt: Option<u64> = match entry.get("index") {
        Some(v) => v.as_u64(),
        None => None,
    };
    proof {
        assert(index_opt == entry_index(e));
    }
    let id: String = match entry.get("id") {
        Some(v) => match v.as_str_ref() {
            Some(s) => s.clone(),
            None => String::new(),
        },
        None => String::new(),
    };
    proof {
        assert(id@ == entry_id(e));
    }
    if let Some(ix) = index_opt {
        if !id.as_str().is_empty() {
            match index_map_get(&state.tool_call_index_map, ix) {
                Some(_) => {},
                None => {
                    state.tool_call_index_map.push((ix, id.clone()));
                },
            }
        }
    }
    let ghost m1 = memo_index(m0, entry_index(e), entry_id(e));
    proof {
        assert(state@ =~~= m1);
    }
    let key: String = if !id.as_str().is_empty() {
        id.clone()
    } else {
        match index_opt {
            Some(ix) => match index_map_get(&state.tool_call_index_map, ix) {
                Some(k) => k,
                None => {
                    if ix < state.tool_call_order.len() as u64 {
                        state.tool_call_order[ix as usize].clone()
                    } else {
                        u64_to_string(ix)
                    }
                },
            },
            None => String::new(),
        }
    };
    let ghost keyg = resolve_key(m1, entry_index(e), entry_id(e));
    proof {
        assert(key@ == keyg);
    }
    if key.as_str().is_empty() {
        proof {
            assert(apply_entry(m0, e) == m1);
        }
        return ;
    }
    let name: String = match entry.get("function") {
        Some(f) => match f.get("name") {
            Some(v) => match v.as_str_ref() {
                Some(s) => s.clone(),
                None => String::new(),
            },
            None => String::new(),
        },
        None => String::new(),
    };
    proof {
        assert(name@ == entry_fn_name(e));
    }
    let found = accum_find(&state.tool_calls, key.as_str());
    let mut acc: ToolCallAccum = match found {
        Some(i) => ToolCallAccum {
            tool_call_id: state.tool_calls[i].1.tool_call_id.clone(),
            tool_name: state.tool_calls[i].1.tool_name.clone(),
            arguments: state.tool_calls[i].1.arguments.clone(),
        },
        None => ToolCallAccum {
            tool_call_id: if id.as_str().is_empty() {
                key.clone()
            } else {
                id.clone()
            },
            tool_name: name.clone(),
            arguments: String::new(),
        },
    };
    let ghost acc0g = match accum_get(m1.accums, keyg) {
        Some(a) => a,
        None => initial_accum(keyg, entry_id(e), entry_fn_name(e)),
    };
    proof {
        assert(acc@ =~~= acc0g);
    }
    if !id.as_str().is_empty() {
        acc.tool_call_id = id.clone();
    }
    if !name.as_str().is_empty() {
        acc.tool_name = name.clone();
    }
    match entry.get("function") {
        Some(f) => match f.get("arguments") {
            Some(av) => match av.as_str_ref() {
                Some(s) => {
                    if !s.as_str().is_empty() {
                        acc.arguments.append(s.as_str());
                    } else {
                        proof {
                            assert(acc@.arguments =~= acc0g.arguments + s@);
                        }
                    }
                },
                None => {
                    if acc.arguments.as_str().is_empty() {
                        acc.arguments = json_to_text(av);
                    }
                },
            },
            None => {},
        },
        None => {},
    }
    let ghost acc1g = updated_accum(acc0g, entry_id(e), entry_fn_name(e), entry_fn_args(e));
    proof {
        assert(acc@ =~~= acc1g);
    }
    match found {
        Some(i) => {
            let pair = state.tool_calls.remove(i);
            state.tool_calls.insert(i, (pair.0, acc));
            proof {
                lemma_accum_put_found(m1.accums, keyg, acc1g, i as int);
                assert(state.tool_calls@ =~= old(state).tool_calls@.update(
                    i as int,
                    (old(state).tool_calls@[i as int].0, state.tool_calls@[i as int].1),
                ));
                assert(state.tool_calls.deep_view() =~~= accum_put(m1.accums, keyg, acc1g));
            }
        },
        None => {
            state.tool_calls.push((key.clone(), acc));
            proof {
                lemma_accum_get_none(m1.accums, keyg);
                lemma_accum_put_missing(m1.accums, keyg, acc1g);
                assert(state.tool_calls.deep_view() =~~= accum_put(m1.accums, keyg, acc1g));
            }
        },
    }
    let ghost m2 = StateV { accums: accum_put(m1.accums, keyg, acc1g), ..m1 };
    proof {
        assert(state@ =~~= m2);
    }
    if !vec_str_contains(&state.tool_call_order, key.as_str()) {
        state.tool_call_order.push(key);
        proof {
            assert(state@ =~~= StateV { order: m2.order.push(keyg), ..m2 });
            assert(state@ =~~= apply_entry(m0, e));
        }
    } else {
        proof {
            assert(state@ =~~= apply_entry(m0, e));
        }
    }
}

/// Folds every entry of a delta's `tool_calls` array into the state.
#[verifier::loop_isolation(false)]
pub fn parse_tool_delta(state: &mut ProtocolStreamState, delta: &JsonValue)
    ensures
        final(state)@ == tool_delta(old(state)@, delta@),
{
    let ghost m0 = old(state)@;
    let entries_opt: Option<&Vec<JsonValue>> = match delta.get("tool_calls") {
        Some(v) => v.as_array_ref(),
        None => None,
    };
    match entries_opt {
        None => {
            proof {
                assert(tool_delta(m0, delta@) == m0);
            }
        },
        Some(es) => {
            let ghost esv = es.deep_view();
            proof {
                broadcast use crate::json::lemma_deep_elems_len, crate::json::lemma_deep_elems_index;

                assert(crate::json::deep_elems(es@) =~= esv);
                assert(tool_delta(m0, delta@) == apply_entries(m0, esv));
                assert(esv.skip(0) =~= esv);
            }
            let mut i: usize = 0;
            while i < es.len()
                invariant
                    0 <= i <= es@.len(),
                    esv.len() == es@.len(),
                    forall|j: int| 0 <= j < es@.len() ==> #[trigger] esv[j] == es@[j]@,
                    apply_entries(m0, esv) == apply_entries(state@, esv.skip(i as int)),
                decreases es@.len() - i,
            {
                let ghost before = state@;
                apply_entry_exec(state, &es[i]);
                proof {
                    assert(esv.skip(i as int)[0] == esv[i as int]);
                    assert(esv.skip(i as int).drop_first() =~= esv.skip(i + 1));
                    assert(apply_entries(before, esv.skip(i as int)) == apply_entries(
                        apply_entry(before, esv[i as int]),
                        esv.skip(i + 1),
                    ));
                }
                i += 1;
            }
            proof {
                assert(esv.skip(es@.len() as int) =~= Seq::<Jv>::empty());
            }
        },
    }
}

/// Applies the flush decision for one key, as `emit_step` says.
pub fn emit_step_exec(state: &mut ProtocolStreamState, key: &String, force: bool)
    ensures
        final(state)@ == emit_step(old(state)@, key@, force),
{
    let ghost m0 = old(state)@;
    if vec_str_contains(&state.emitted_tool_calls, key.as_str()) {
        return ;
    }
    let found = accum_find(&state.tool_calls, key.as_str());
    match found {
        None => {},
        Some(i) => {
            if state.tool_calls[i].1.tool_name.as_str().is_empty() {
                return ;
            }
            let blank = str_is_blank(state.tool_calls[i].1.arguments.as_str());
            if !force && blank {
                return ;
            }
            let input: JsonValue = if blank {
                JsonValue::Obj(Vec::new())
            } else {
                match parse_json(state.tool_calls[i].1.arguments.as_str()) {
                    Ok(v) => v,
                    Err(_) => JsonValue::Str(state.tool_calls[i].1.arguments.clone()),
                }
            };
            let ev = StreamEvent::ToolCall {
                tool_call_id: state.tool_calls[i].1.tool_call_id.clone(),
                tool_name: state.tool_calls[i].1.tool_name.clone(),
                input,
            };
            state.pending_events.push(ev);
            state.emitted_tool_calls.push(key.clone());
            proof {
                assert(state@ =~~= emit_step(m0, key@, force));
            }
        },
    }
}

/// One whole flush pass over the emission order, as `emit_pass` says.
#[verifier::loop_isolation(false)]
pub fn emit_tool_calls(state: &mut ProtocolStreamState, force: bool)
    ensures
        final(state)@ == emit_pass(old(state)@, force),
{
    let ghost m0 = old(state)@;
    let ghost keys = m0.order;
    proof {
        assert(keys.skip(0) =~= keys);
    }
    let n: usize = state.tool_call_order.len();
    let mut i: usize = 0;
    while i < n
        invariant
            0 <= i <= n,
            n == state.tool_call_order@.len(),
            state@.order == keys,
            keys.len() == n,
            emit_list(m0, keys, force) == emit_list(state@, keys.skip(i as int), force),
        decreases n - i,
    {
        let key = state.tool_call_order[i].clone();
        proof {
            assert(key@ == keys[i as int]);
        }
        let ghost before = state@;
        emit_step_exec(state, &key, force);
        proof {
            assert(keys.skip(i as int)[0] == keys[i as int]);
            assert(keys.skip(i as int).drop_first() =~= keys.skip(i + 1));
            assert(emit_list(before, keys.skip(i as int), force) == emit_list(
                emit_step(before, keys[i as int], force),
                keys.skip(i + 1),
                force,
            ));
            assert(emit_step(before, keys[i as int], force).order == before.order);
        }
        i += 1;
    }
    proof {
        assert(keys.skip(n as int) =~= Seq::<Seq<char>>::empty());
    }
}

} // verus!
