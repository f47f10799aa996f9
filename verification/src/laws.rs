//! The guarantees the streaming state machine gives its callers, stated and
//! proved over the spec transitions of `state` and `protocol`.

use vstd::prelude::*;

use crate::json::{Jv, jv_get, obj_get, obj_merge, obj_put};
use crate::model::{Ev, Message, ToolDefinition};
use crate::protocol::spec_build_request;
use crate::state::{
    accum_get, accum_put, apply_delta_text, apply_entries, apply_entry, capture_finish,
    drain_front, emit_list, emit_pass, emit_step, entry_fn_args, entry_fn_name, entry_id,
    entry_index, first_choice, frame_pre_flush, frame_step, initial_accum, memo_index, push_usage,
    resolve_key, StateV, tool_delta, updated_accum,
};
use crate::text::is_blank;

verus! {

proof fn lemma_accum_get_put_same(s: Seq<(Seq<char>, crate::state::AccumV)>, k: Seq<char>, a:
    crate::state::AccumV)
    ensures
        accum_get(accum_put(s, k, a), k) == Some(a),
    decreases s.len(),
{
    if s.len() == 0 {
        assert(accum_put(s, k, a) =~= seq![(k, a)]);
    } else if s[0].0 == k {
        assert(accum_put(s, k, a)[0] == (s[0].0, a));
    } else {
        let t = s.drop_first();
        lemma_accum_get_put_same(t, k, a);
        assert((seq![s[0]] + accum_put(t, k, a)).drop_first() =~= accum_put(t, k, a));
    }
}

/// The key an entry resolves to, after its index memoization.
pub open spec fn entry_key(m: StateV, e: Jv) -> Seq<char> {
    resolve_key(memo_index(m, entry_index(e), entry_id(e)), entry_index(e), entry_id(e))
}

/// Whether every entry of a run resolves, in arrival order, to the key `k`,
/// each carrying its argument fragment as a string.
pub open spec fn all_target(m: StateV, es: Seq<Jv>, k: Seq<char>) -> bool
    decreases es.len(),
{
    es.len() == 0 || {
        &&& entry_key(m, es[0]) == k
        &&& entry_fn_args(es[0]) matches Some(Jv::Str(_))
        &&& all_target(apply_entry(m, es[0]), es.drop_first(), k)
    }
}

/// The argument fragments of a run, concatenated in arrival order.
pub open spec fn fragments_of(es: Seq<Jv>) -> Seq<char>
    decreases es.len(),
{
    if es.len() == 0 {
        Seq::empty()
    } else {
        (match entry_fn_args(es[0]) {
            Some(Jv::Str(s)) => s,
            _ => Seq::empty(),
        }) + fragments_of(es.drop_first())
    }
}

/// The argument buffer a key holds, or empty when the key has no accumulator.
pub open spec fn buffer_of(m: StateV, k: Seq<char>) -> Seq<char> {
    match accum_get(m.accums, k) {
        Some(a) => a.arguments,
        None => Seq::empty(),
    }
}

proof fn lemma_one_fragment_appends(m: StateV, e: Jv, k: Seq<char>)
    requires
        k.len() > 0,
        entry_key(m, e) == k,
        entry_fn_args(e) matches Some(Jv::Str(_)),
    ensures
        accum_get(apply_entry(m, e).accums, k) is Some,
        buffer_of(apply_entry(m, e), k) == buffer_of(m, k) + (match entry_fn_args(e) {
            Some(Jv::Str(s)) => s,
            _ => Seq::<char>::empty(),
        }),
{
    let m1 = memo_index(m, entry_index(e), entry_id(e));
    let acc0 = match accum_get(m1.accums, k) {
        Some(a) => a,
        None => initial_accum(k, entry_id(e), entry_fn_name(e)),
    };
    let acc1 = updated_accum(acc0, entry_id(e), entry_fn_name(e), entry_fn_args(e));
    lemma_accum_get_put_same(m1.accums, k, acc1);
    assert(m1.accums == m.accums);
}

/// Law: argument fragments accumulate by concatenation. Folding any run of
/// tool-call delta entries that target the same key leaves that key's
/// argument buffer holding exactly its previous content followed by the
/// fragments in arrival order. Emission parses that buffer as JSON, so a call
/// whose arguments arrived in many fragments assembles to the same value as
/// one whose whole argument text arrived in a single delta.
pub proof fn lemma_arguments_concatenate(m0: StateV, es: Seq<Jv>, k: Seq<char>)
    requires
        k.len() > 0,
        all_target(m0, es, k),
    ensures
        buffer_of(apply_entries(m0, es), k) == buffer_of(m0, k) + fragments_of(es),
    decreases es.len(),
{
    if es.len() == 0 {
        assert(buffer_of(m0, k) + fragments_of(es) =~= buffer_of(m0, k));
    } else {
        let m1 = apply_entry(m0, es[0]);
        lemma_one_fragment_appends(m0, es[0], k);
        lemma_arguments_concatenate(m1, es.drop_first(), k);
        assert(buffer_of(m1, k) + fragments_of(es.drop_first()) =~= buffer_of(m0, k)
            + fragments_of(es));
    }
}

/// Law: how the argument text was fragmented is immaterial. Two runs that
/// target the same fresh key and carry the same concatenated argument text
/// leave identical argument buffers, so the emitted tool call parses the same
/// JSON value either way.
pub proof fn lemma_fragmentation_immaterial(
    m0: StateV,
    es1: Seq<Jv>,
    es2: Seq<Jv>,
    k: Seq<char>,
)
    requires
        k.len() > 0,
        all_target(m0, es1, k),
        all_target(m0, es2, k),
        fragments_of(es1) == fragments_of(es2),
    ensures
        buffer_of(apply_entries(m0, es1), k) == buffer_of(apply_entries(m0, es2), k),
{
    lemma_arguments_concatenate(m0, es1, k);
    lemma_arguments_concatenate(m0, es2, k);
}

/// Law: a non-empty incoming tool name wins; an empty one never overwrites.
/// After any delta entry resolving to key `k`, the accumulator's name is the
/// entry's name when that is non-empty, and is otherwise unchanged (or empty
/// for a freshly created accumulator).
pub proof fn lemma_name_update(m0: StateV, e: Jv)
    ensures
        ({
            let m1 = memo_index(m0, entry_index(e), entry_id(e));
            let k = entry_key(m0, e);
            k.len() > 0 ==> {
                let after = accum_get(apply_entry(m0, e).accums, k);
                &&& after is Some
                &&& after->0.tool_name == (if entry_fn_name(e).len() > 0 {
                    entry_fn_name(e)
                } else {
                    match accum_get(m1.accums, k) {
                        Some(b) => b.tool_name,
                        None => entry_fn_name(e),
                    }
                })
            }
        }),
{
    let m1 = memo_index(m0, entry_index(e), entry_id(e));
    let k = entry_key(m0, e);
    if k.len() > 0 {
        let acc0 = match accum_get(m1.accums, k) {
            Some(a) => a,
            None => initial_accum(k, entry_id(e), entry_fn_name(e)),
        };
        let acc1 = updated_accum(acc0, entry_id(e), entry_fn_name(e), entry_fn_args(e));
        lemma_accum_get_put_same(m1.accums, k, acc1);
    }
}

/// Whether one flush pass emits key `k` from state `m`.
pub open spec fn flushes(m: StateV, k: Seq<char>, force: bool) -> bool {
    &&& !m.emitted.contains(k)
    &&& match accum_get(m.accums, k) {
        Some(a) => a.tool_name.len() > 0 && (force || !is_blank(a.arguments)),
        None => false,
    }
}

proof fn lemma_emit_step_frame(m: StateV, k: Seq<char>, force: bool)
    ensures
        crate::state::emit_step(m, k, force).accums == m.accums,
        crate::state::emit_step(m, k, force).order == m.order,
        forall|k2: Seq<char>|
            #[trigger] crate::state::emit_step(m, k, force).emitted.contains(k2) <==> (
            m.emitted.contains(k2) || (k2 == k && flushes(m, k, force))),
{
    let m2 = crate::state::emit_step(m, k, force);
    if flushes(m, k, force) {
        assert(m2.emitted =~= m.emitted.push(k));
        assert forall|k2: Seq<char>| #[trigger] m2.emitted.contains(k2) implies (
        m.emitted.contains(k2) || (k2 == k && flushes(m, k, force))) by {
            if m2.emitted.contains(k2) {
                let i = choose|i: int| 0 <= i < m2.emitted.len() && m2.emitted[i] == k2;
                if i < m.emitted.len() {
                    assert(m.emitted.contains(k2));
                }
            }
        }
        assert(m2.emitted.contains(k)) by {
            assert(m2.emitted[m2.emitted.len() - 1] == k);
        }
        assert forall|k2: Seq<char>| m.emitted.contains(k2) implies #[trigger] m2.emitted.contains(
            k2,
        ) by {
            let i = choose|i: int| 0 <= i < m.emitted.len() && m.emitted[i] == k2;
            assert(m2.emitted[i] == k2);
        }
    } else {
        assert(m2 == m);
    }
}

/// Law: what one flush pass emits. After `emit_list` over `keys`, a key is
/// marked emitted exactly when it already was, or when it occurs in `keys`
/// with a named accumulator whose argument buffer passes the flush test: any
/// buffer under force, only a non-blank one otherwise. So a finish reason of
/// `tool_calls` (an unforced pass) flushes every accumulator with non-empty
/// arguments, while accumulators with blank arguments wait for the forced
/// pass at the stream-end sentinel.
pub proof fn lemma_flush_conditions(m: StateV, keys: Seq<Seq<char>>, force: bool, k: Seq<char>)
    ensures
        emit_list(m, keys, force).accums == m.accums,
        emit_list(m, keys, force).emitted.contains(k) <==> (m.emitted.contains(k) || (
        keys.contains(k) && match accum_get(m.accums, k) {
            Some(a) => a.tool_name.len() > 0 && (force || !is_blank(a.arguments)),
            None => false,
        })),
    decreases keys.len(),
{
    if keys.len() == 0 {
        assert(!keys.contains(k));
    } else {
        let m1 = crate::state::emit_step(m, keys[0], force);
        lemma_emit_step_frame(m, keys[0], force);
        lemma_flush_conditions(m1, keys.drop_first(), force, k);
        assert(keys.contains(k) <==> (keys[0] == k || keys.drop_first().contains(k))) by {
            if keys.contains(k) {
                let i = choose|i: int| 0 <= i < keys.len() && keys[i] == k;
                if i > 0 {
                    assert(keys.drop_first()[i - 1] == k);
                }
            }
            if keys.drop_first().contains(k) {
                let i = choose|i: int|
                    0 <= i < keys.drop_first().len() && keys.drop_first()[i] == k;
                assert(keys[i + 1] == k);
            }
        }
    }
}

/// Law: a forced flush pass (the stream-end sentinel) emits every key of the
/// emission order that holds a named accumulator and was not emitted before,
/// blank argument buffers included.
pub proof fn lemma_force_flush_all(m: StateV, k: Seq<char>)
    ensures
        emit_pass(m, true).emitted.contains(k) <==> (m.emitted.contains(k) || (m.order.contains(
            k,
        ) && (accum_get(m.accums, k) matches Some(a) && a.tool_name.len() > 0))),
{
    lemma_flush_conditions(m, m.order, true, k);
}

/// Law: a frame whose captured finish reason is `tool_calls` flushes, before
/// the stream-end sentinel, exactly the keys in order whose accumulator is
/// named and holds non-blank arguments; the rest keep waiting.
pub proof fn lemma_toolcalls_finish_flushes(m: StateV, p: Jv, k: Seq<char>)
    requires
        frame_pre_flush(m, p).finish_reason == Some("tool_calls"@),
    ensures
        ({
            let mid = frame_pre_flush(m, p);
            frame_step(m, p).emitted.contains(k) <==> (mid.emitted.contains(k) || (
            mid.order.contains(k) && match accum_get(mid.accums, k) {
                Some(a) => a.tool_name.len() > 0 && !is_blank(a.arguments),
                None => false,
            }))
        }),
{
    let mid = frame_pre_flush(m, p);
    lemma_flush_conditions(mid, mid.order, false, k);
}

proof fn lemma_obj_get_put_same(s: Seq<(Seq<char>, Jv)>, k: Seq<char>, v: Jv)
    ensures
        obj_get(obj_put(s, k, v), k) == Some(v),
    decreases s.len(),
{
    if s.len() == 0 {
        assert(obj_put(s, k, v) =~= seq![(k, v)]);
    } else if s[0].0 == k {
        assert(obj_put(s, k, v)[0] == (s[0].0, v));
    } else {
        let t = s.drop_first();
        lemma_obj_get_put_same(t, k, v);
        assert((seq![s[0]] + obj_put(t, k, v)).drop_first() =~= obj_put(t, k, v));
    }
}

proof fn lemma_obj_get_put_other(s: Seq<(Seq<char>, Jv)>, k: Seq<char>, v: Jv, k2: Seq<char>)
    requires
        k2 != k,
    ensures
        obj_get(obj_put(s, k, v), k2) == obj_get(s, k2),
    decreases s.len(),
{
    if s.len() == 0 {
        assert(obj_put(s, k, v) =~= seq![(k, v)]);
        assert(obj_put(s, k, v)[0].0 == k);
        assert(obj_put(s, k, v).drop_first() =~= Seq::<(Seq<char>, Jv)>::empty());
        assert(obj_get(Seq::<(Seq<char>, Jv)>::empty(), k2) is None);
        assert(obj_get(obj_put(s, k, v), k2) is None);
    } else if s[0].0 == k {
        assert(obj_put(s, k, v)[0] == (s[0].0, v));
        assert(obj_put(s, k, v).len() == s.len());
        assert(obj_put(s, k, v).drop_first() =~= s.drop_first());
        assert(obj_get(obj_put(s, k, v), k2) == obj_get(s.drop_first(), k2));
        assert(obj_get(s, k2) == obj_get(s.drop_first(), k2));
    } else {
        let t = s.drop_first();
        lemma_obj_get_put_other(t, k, v, k2);
        assert(obj_put(s, k, v)[0] == s[0]);
        assert(obj_put(s, k, v).len() > 0);
        assert(obj_put(s, k, v).drop_first() =~= obj_put(t, k, v));
        if s[0].0 == k2 {
            assert(obj_get(obj_put(s, k, v), k2) == Some(s[0].1));
            assert(obj_get(s, k2) == Some(s[0].1));
        } else {
            assert(obj_get(obj_put(s, k, v), k2) == obj_get(obj_put(t, k, v), k2));
            assert(obj_get(s, k2) == obj_get(t, k2));
        }
    }
}

proof fn lemma_obj_get_drop_last(s: Seq<(Seq<char>, Jv)>, k: Seq<char>)
    requires
        s.len() > 0,
        s.last().0 != k,
    ensures
        obj_get(s, k) == obj_get(s.drop_last(), k),
    decreases s.len(),
{
    if s.len() == 1 {
        assert(s.drop_last() =~= Seq::<(Seq<char>, Jv)>::empty());
    } else if s[0].0 == k {
        assert(s.drop_last()[0] == s[0]);
    } else {
        let t = s.drop_first();
        assert(t.last() == s.last());
        lemma_obj_get_drop_last(t, k);
        assert(t.drop_last() =~= s.drop_last().drop_first());
        assert(s.drop_last()[0] == s[0]);
    }
}

proof fn lemma_obj_merge_get(b: Seq<(Seq<char>, Jv)>, es: Seq<(Seq<char>, Jv)>, k: Seq<char>)
    requires
        forall|i: int, j: int|
            0 <= i < j < es.len() ==> (#[trigger] es[i]).0 != (#[trigger] es[j]).0,
    ensures
        obj_get(obj_merge(b, es), k) == (match obj_get(es, k) {
            Some(v) => Some(v),
            None => obj_get(b, k),
        }),
    decreases es.len(),
{
    if es.len() == 0 {
    } else {
        let t = es.drop_last();
        assert(forall|i: int, j: int|
            0 <= i < j < t.len() ==> (#[trigger] t[i]).0 != (#[trigger] t[j]).0);
        if es.last().0 == k {
            lemma_obj_get_put_same(obj_merge(b, t), k, es.last().1);
            assert(obj_get(es, k) == Some(es.last().1)) by {
                lemma_obj_get_unique_at(es, k, es.len() - 1);
            }
        } else {
            lemma_obj_get_put_other(obj_merge(b, t), es.last().0, es.last().1, k);
            lemma_obj_merge_get(b, t, k);
            lemma_obj_get_drop_last(es, k);
        }
    }
}

proof fn lemma_obj_get_unique_at(s: Seq<(Seq<char>, Jv)>, k: Seq<char>, i: int)
    requires
        0 <= i < s.len(),
        s[i].0 == k,
        forall|a: int, b: int| 0 <= a < b < s.len() ==> (#[trigger] s[a]).0 != (#[trigger] s[b]).0,
    ensures
        obj_get(s, k) == Some(s[i].1),
    decreases i,
{
    if i == 0 {
    } else {
        assert(s[0].0 != k);
        let t = s.drop_first();
        assert(forall|a: int, b: int|
            0 <= a < b < t.len() ==> (#[trigger] t[a]).0 != (#[trigger] t[b]).0) by {
            assert(forall|a: int| 0 <= a < t.len() ==> #[trigger] t[a] == s[a + 1]);
        }
        assert(t[i - 1] == s[i]);
        lemma_obj_get_unique_at(t, k, i - 1);
    }
}

/// Law: `extra_body` keys override every computed request field. For any key
/// the caller puts in `extra_body` (an object without duplicate keys, as
/// parsed JSON objects are), the built request carries exactly the caller's
/// value for that key, whatever the other parameters computed for it.
pub proof fn lemma_extra_body_overrides(
    model: Seq<char>,
    msgs: Seq<Message>,
    tools: Option<Seq<ToolDefinition>>,
    temperature: Option<Jv>,
    max_tokens: Option<i32>,
    top_p: Option<Jv>,
    top_k: Option<i32>,
    provider_options: Option<Jv>,
    es: Seq<(Seq<char>, Jv)>,
    k: Seq<char>,
)
    requires
        forall|i: int, j: int|
            0 <= i < j < es.len() ==> (#[trigger] es[i]).0 != (#[trigger] es[j]).0,
        obj_get(es, k) is Some,
    ensures
        jv_get(
            spec_build_request(
                model,
                msgs,
                tools,
                temperature,
                max_tokens,
                top_p,
                top_k,
                provider_options,
                Some(Jv::Obj(es)),
            ),
            k,
        ) == obj_get(es, k),
{
    let built = spec_build_request(
        model,
        msgs,
        tools,
        temperature,
        max_tokens,
        top_p,
        top_k,
        provider_options,
        Some(Jv::Obj(es)),
    );
    match built {
        Jv::Obj(pairs) => {
            assert(exists|b: Seq<(Seq<char>, Jv)>| pairs == obj_merge(b, es));
            let b = choose|b: Seq<(Seq<char>, Jv)>| pairs == obj_merge(b, es);
            lemma_obj_merge_get(b, es, k);
        },
        _ => {
            assert(false);
        },
    }
}

/// One raw frame as the caller hands it to the parser: a parsed JSON payload,
/// or the stream-end sentinel.
pub enum FrameOp {
    Payload(Jv),
    Sentinel,
}

/// The state after the parser handles one frame, the handed-out event
/// included.
pub open spec fn op_step(m: StateV, op: FrameOp) -> StateV {
    match op {
        FrameOp::Payload(p) => drain_front(frame_step(m, p)).0,
        FrameOp::Sentinel => drain_front(emit_pass(m, true)).0,
    }
}

/// The events one parser call hands the caller.
pub open spec fn op_out(m: StateV, op: FrameOp) -> Seq<Ev> {
    match op {
        FrameOp::Payload(p) => match drain_front(frame_step(m, p)).1 {
            Some(e) => seq![e],
            None => Seq::empty(),
        },
        FrameOp::Sentinel => match drain_front(emit_pass(m, true)).1 {
            Some(e) => seq![e],
            None => seq![Ev::Done(emit_pass(m, true).finish_reason)],
        },
    }
}

/// The state a whole run of frames leaves behind.
pub open spec fn run_state(m: StateV, ops: Seq<FrameOp>) -> StateV
    decreases ops.len(),
{
    if ops.len() == 0 {
        m
    } else {
        run_state(op_step(m, ops[0]), ops.drop_first())
    }
}

/// Every event a whole run of frames hands the caller, in order.
pub open spec fn run_out(m: StateV, ops: Seq<FrameOp>) -> Seq<Ev>
    decreases ops.len(),
{
    if ops.len() == 0 {
        Seq::empty()
    } else {
        op_out(m, ops[0]) + run_out(op_step(m, ops[0]), ops.drop_first())
    }
}

/// How many `ToolCall` events with the given id a sequence holds.
pub open spec fn tc_count(evs: Seq<Ev>, id: Seq<char>) -> int
    decreases evs.len(),
{
    if evs.len() == 0 {
        0
    } else {
        (match evs[0] {
            Ev::ToolCall(i, _, _) => if i == id {
                1int
            } else {
                0int
            },
            _ => 0int,
        }) + tc_count(evs.drop_first(), id)
    }
}

/// How many `TextStart` events a sequence holds.
pub open spec fn ts_count(evs: Seq<Ev>) -> int
    decreases evs.len(),
{
    if evs.len() == 0 {
        0
    } else {
        (if evs[0] is TextStart {
            1int
        } else {
            0int
        }) + ts_count(evs.drop_first())
    }
}

/// Every `TextDelta` has a `TextStart` strictly before it.
pub open spec fn deltas_preceded(evs: Seq<Ev>) -> bool {
    forall|i: int|
        0 <= i < evs.len() && (#[trigger] evs[i]) is TextDelta ==> exists|j: int|
            0 <= j < i && (#[trigger] evs[j]) is TextStart
}

/// Every accumulator's id agrees with its correlation key. This holds of all
/// reachable states because a non-empty entry id is itself the resolved key,
/// and accumulators created without one take the key as their id.
pub open spec fn ids_match_keys(m: StateV) -> bool {
    forall|i: int|
        0 <= i < m.accums.len() ==> (#[trigger] m.accums[i]).1.tool_call_id == m.accums[i].0
}

/// The exactly-once invariant for one id: the handed-out and still-queued
/// `ToolCall` events for it total one when the key is marked emitted and none
/// otherwise.
pub open spec fn once_inv(delivered: Seq<Ev>, m: StateV, k: Seq<char>) -> bool {
    tc_count(delivered + m.pending, k) == if m.emitted.contains(k) {
        1int
    } else {
        0int
    }
}

/// The text invariant: exactly one `TextStart` has been produced when the
/// text flag is set and none before, and every `TextDelta` comes after one.
pub open spec fn text_inv(delivered: Seq<Ev>, m: StateV) -> bool {
    &&& ts_count(delivered + m.pending) == (if m.text_started {
        1int
    } else {
        0int
    })
    &&& deltas_preceded(delivered + m.pending)
}

/// All invariants the stream machine maintains, for one observed id.
pub open spec fn stream_inv(delivered: Seq<Ev>, m: StateV, k: Seq<char>) -> bool {
    &&& ids_match_keys(m)
    &&& once_inv(delivered, m, k)
    &&& text_inv(delivered, m)
}

proof fn lemma_tc_count_concat(a: Seq<Ev>, b: Seq<Ev>, id: Seq<char>)
    ensures
        tc_count(a + b, id) == tc_count(a, id) + tc_count(b, id),
    decreases a.len(),
{
    if a.len() == 0 {
        assert(a + b =~= b);
    } else {
        assert((a + b)[0] == a[0]);
        assert((a + b).drop_first() =~= a.drop_first() + b);
        lemma_tc_count_concat(a.drop_first(), b, id);
    }
}

proof fn lemma_ts_count_concat(a: Seq<Ev>, b: Seq<Ev>)
    ensures
        ts_count(a + b) == ts_count(a) + ts_count(b),
    decreases a.len(),
{
    if a.len() == 0 {
        assert(a + b =~= b);
    } else {
        assert((a + b)[0] == a[0]);
        assert((a + b).drop_first() =~= a.drop_first() + b);
        lemma_ts_count_concat(a.drop_first(), b);
    }
}

proof fn lemma_tc_count_one(e: Ev, id: Seq<char>)
    ensures
        tc_count(seq![e], id) == (match e {
            Ev::ToolCall(i, _, _) => if i == id {
                1int
            } else {
                0int
            },
            _ => 0int,
        }),
{
    assert(seq![e].drop_first() =~= Seq::<Ev>::empty());
    assert(tc_count(Seq::<Ev>::empty(), id) == 0);
    assert(seq![e][0] == e);
}

proof fn lemma_ts_count_one(e: Ev)
    ensures
        ts_count(seq![e]) == (if e is TextStart {
            1int
        } else {
            0int
        }),
{
    assert(seq![e].drop_first() =~= Seq::<Ev>::empty());
    assert(ts_count(Seq::<Ev>::empty()) == 0);
    assert(seq![e][0] == e);
}

proof fn lemma_tc_count_nonneg(evs: Seq<Ev>, id: Seq<char>)
    ensures
        tc_count(evs, id) >= 0,
    decreases evs.len(),
{
    if evs.len() > 0 {
        lemma_tc_count_nonneg(evs.drop_first(), id);
    }
}

proof fn lemma_ts_count_nonneg(evs: Seq<Ev>)
    ensures
        ts_count(evs) >= 0,
    decreases evs.len(),
{
    if evs.len() > 0 {
        lemma_ts_count_nonneg(evs.drop_first());
    }
}

proof fn lemma_ts_count_pos_exists(evs: Seq<Ev>)
    requires
        ts_count(evs) > 0,
    ensures
        exists|j: int| 0 <= j < evs.len() && (#[trigger] evs[j]) is TextStart,
    decreases evs.len(),
{
    if evs[0] is TextStart {
        assert(evs[0] is TextStart);
    } else {
        lemma_ts_count_pos_exists(evs.drop_first());
        let j = choose|j: int|
            0 <= j < evs.drop_first().len() && (#[trigger] evs.drop_first()[j]) is TextStart;
        assert(evs[j + 1] is TextStart);
    }
}

/// An event that is neither a `ToolCall` for `k` nor text-related can join
/// the queue without disturbing the invariants.
proof fn lemma_push_neutral(delivered: Seq<Ev>, m: StateV, m2: StateV, e: Ev, k: Seq<char>)
    requires
        stream_inv(delivered, m, k),
        m2.pending == m.pending.push(e),
        m2.emitted == m.emitted,
        m2.accums == m.accums,
        m2.text_started == m.text_started,
        !(e is TextStart),
        !(e is TextDelta),
        !(e is ToolCall),
    ensures
        stream_inv(delivered, m2, k),
{
    let c1 = delivered + m.pending;
    let c2 = delivered + m2.pending;
    assert(c2 =~= c1.push(e));
    assert(c1.push(e) =~= c1 + seq![e]);
    lemma_tc_count_concat(c1, seq![e], k);
    lemma_tc_count_one(e, k);
    lemma_ts_count_concat(c1, seq![e]);
    lemma_ts_count_one(e);
    assert forall|i: int| 0 <= i < c2.len() && (#[trigger] c2[i]) is TextDelta implies exists|
        j: int,
    | 0 <= j < i && (#[trigger] c2[j]) is TextStart by {
        assert(c2[i] == c1[i]);
        let j = choose|j: int| 0 <= j < i && (#[trigger] c1[j]) is TextStart;
        assert(c2[j] is TextStart);
    }
}

proof fn lemma_accum_get_id(s: Seq<(Seq<char>, crate::state::AccumV)>, k: Seq<char>)
    requires
        forall|i: int| 0 <= i < s.len() ==> (#[trigger] s[i]).1.tool_call_id == s[i].0,
        accum_get(s, k) is Some,
    ensures
        accum_get(s, k)->0.tool_call_id == k,
    decreases s.len(),
{
    if s.len() > 0 && s[0].0 != k {
        let t = s.drop_first();
        assert(forall|i: int| 0 <= i < t.len() ==> (#[trigger] t[i]) == s[i + 1]);
        lemma_accum_get_id(t, k);
    }
}

proof fn lemma_put_preserves_ids(
    s: Seq<(Seq<char>, crate::state::AccumV)>,
    k: Seq<char>,
    a: crate::state::AccumV,
)
    requires
        forall|i: int| 0 <= i < s.len() ==> (#[trigger] s[i]).1.tool_call_id == s[i].0,
        a.tool_call_id == k,
    ensures
        forall|i: int|
            0 <= i < accum_put(s, k, a).len() ==> (#[trigger] accum_put(s, k, a)[i]).1.tool_call_id
                == accum_put(s, k, a)[i].0,
    decreases s.len(),
{
    if s.len() == 0 {
        assert(accum_put(s, k, a) =~= seq![(k, a)]);
    } else if s[0].0 == k {
        assert(accum_put(s, k, a) =~= seq![(s[0].0, a)] + s.drop_first());
        assert(forall|i: int|
            1 <= i < accum_put(s, k, a).len() ==> (#[trigger] accum_put(s, k, a)[i]) == s[i]);
        assert(accum_put(s, k, a)[0] == (s[0].0, a));
    } else {
        let t = s.drop_first();
        assert(forall|i: int| 0 <= i < t.len() ==> (#[trigger] t[i]) == s[i + 1]);
        lemma_put_preserves_ids(t, k, a);
        assert(accum_put(s, k, a) =~= seq![s[0]] + accum_put(t, k, a));
        assert(forall|i: int|
            1 <= i < accum_put(s, k, a).len() ==> (#[trigger] accum_put(s, k, a)[i]) == accum_put(
                t,
                k,
                a,
            )[i - 1]);
        assert(accum_put(s, k, a)[0] == s[0]);
    }
}

proof fn lemma_apply_entry_inv(delivered: Seq<Ev>, m: StateV, e: Jv, k: Seq<char>)
    requires
        stream_inv(delivered, m, k),
    ensures
        stream_inv(delivered, apply_entry(m, e), k),
        apply_entry(m, e).pending == m.pending,
        apply_entry(m, e).emitted == m.emitted,
        apply_entry(m, e).text_started == m.text_started,
        apply_entry(m, e).finish_reason == m.finish_reason,
        apply_entry(m, e).order == m.order || apply_entry(m, e).order == m.order.push(
            entry_key(m, e),
        ),
{
    let m1 = memo_index(m, entry_index(e), entry_id(e));
    let key = resolve_key(m1, entry_index(e), entry_id(e));
    if key.len() > 0 {
        let acc0 = match accum_get(m1.accums, key) {
            Some(a) => a,
            None => initial_accum(key, entry_id(e), entry_fn_name(e)),
        };
        let acc1 = updated_accum(acc0, entry_id(e), entry_fn_name(e), entry_fn_args(e));
        assert(acc1.tool_call_id == key) by {
            if entry_id(e).len() > 0 {
                assert(key == entry_id(e));
            } else {
                if accum_get(m1.accums, key) is Some {
                    lemma_accum_get_id(m1.accums, key);
                }
            }
        }
        lemma_put_preserves_ids(m1.accums, key, acc1);
    }
}

proof fn lemma_apply_entries_inv(delivered: Seq<Ev>, m: StateV, es: Seq<Jv>, k: Seq<char>)
    requires
        stream_inv(delivered, m, k),
    ensures
        stream_inv(delivered, apply_entries(m, es), k),
        apply_entries(m, es).pending == m.pending,
        apply_entries(m, es).emitted == m.emitted,
        apply_entries(m, es).text_started == m.text_started,
        apply_entries(m, es).finish_reason == m.finish_reason,
    decreases es.len(),
{
    if es.len() > 0 {
        lemma_apply_entry_inv(delivered, m, es[0], k);
        lemma_apply_entries_inv(delivered, apply_entry(m, es[0]), es.drop_first(), k);
    }
}

proof fn lemma_contains_push<T>(s: Seq<T>, x: T, y: T)
    ensures
        s.push(x).contains(y) <==> (s.contains(y) || x == y),
{
    if s.push(x).contains(y) {
        let i = choose|i: int| 0 <= i < s.push(x).len() && s.push(x)[i] == y;
        if i < s.len() {
            assert(s[i] == y);
        }
    }
    if s.contains(y) {
        let i = choose|i: int| 0 <= i < s.len() && s[i] == y;
        assert(s.push(x)[i] == y);
    }
    if x == y {
        assert(s.push(x)[s.len() as int] == y);
    }
}

proof fn lemma_emit_step_inv(delivered: Seq<Ev>, m: StateV, k2: Seq<char>, force: bool, k:
    Seq<char>)
    requires
        stream_inv(delivered, m, k),
    ensures
        stream_inv(delivered, emit_step(m, k2, force), k),
        emit_step(m, k2, force).text_started == m.text_started,
        emit_step(m, k2, force).finish_reason == m.finish_reason,
        emit_step(m, k2, force).order == m.order,
        emit_step(m, k2, force).accums == m.accums,
{
    let m2 = emit_step(m, k2, force);
    if flushes(m, k2, force) {
        let acc = accum_get(m.accums, k2)->0;
        lemma_accum_get_id(m.accums, k2);
        let e = Ev::ToolCall(
            acc.tool_call_id,
            acc.tool_name,
            (if is_blank(acc.arguments) {
                Jv::Obj(Seq::empty())
            } else {
                match crate::json::json_of(acc.arguments) {
                    Some(v) => v,
                    None => Jv::Str(acc.arguments),
                }
            }),
        );
        assert(m2.pending == m.pending.push(e));
        let c1 = delivered + m.pending;
        let c2 = delivered + m2.pending;
        assert(c2 =~= c1 + seq![e]);
        lemma_tc_count_concat(c1, seq![e], k);
        lemma_tc_count_one(e, k);
        lemma_ts_count_concat(c1, seq![e]);
        lemma_ts_count_one(e);
        lemma_contains_push(m.emitted, k2, k);
        assert forall|i: int| 0 <= i < c2.len() && (#[trigger] c2[i]) is TextDelta implies exists|
            j: int,
        | 0 <= j < i && (#[trigger] c2[j]) is TextStart by {
            assert(c2[i] == c1[i]);
            let j = choose|j: int| 0 <= j < i && (#[trigger] c1[j]) is TextStart;
            assert(c2[j] is TextStart);
        }
    } else {
        assert(m2 == m);
    }
}

proof fn lemma_emit_list_inv(delivered: Seq<Ev>, m: StateV, keys: Seq<Seq<char>>, force: bool, k:
    Seq<char>)
    requires
        stream_inv(delivered, m, k),
    ensures
        stream_inv(delivered, emit_list(m, keys, force), k),
        emit_list(m, keys, force).text_started == m.text_started,
        emit_list(m, keys, force).finish_reason == m.finish_reason,
        emit_list(m, keys, force).order == m.order,
        emit_list(m, keys, force).accums == m.accums,
    decreases keys.len(),
{
    if keys.len() > 0 {
        lemma_emit_step_inv(delivered, m, keys[0], force, k);
        lemma_emit_list_inv(delivered, emit_step(m, keys[0], force), keys.drop_first(), force, k);
    }
}

proof fn lemma_text_step_inv(delivered: Seq<Ev>, m: StateV, d: Jv, k: Seq<char>)
    requires
        stream_inv(delivered, m, k),
    ensures
        stream_inv(delivered, apply_delta_text(m, d), k),
        apply_delta_text(m, d).emitted == m.emitted,
        apply_delta_text(m, d).accums == m.accums,
        apply_delta_text(m, d).finish_reason == m.finish_reason,
        apply_delta_text(m, d).order == m.order,
{
    let ms = if !m.text_started {
        StateV { text_started: true, pending: m.pending.push(Ev::TextStart), ..m }
    } else {
        m
    };
    if !m.text_started {
        let c1 = delivered + m.pending;
        let c2 = delivered + ms.pending;
        assert(c2 =~= c1 + seq![Ev::TextStart]);
        lemma_tc_count_concat(c1, seq![Ev::TextStart], k);
        lemma_tc_count_one(Ev::TextStart, k);
        lemma_ts_count_concat(c1, seq![Ev::TextStart]);
        lemma_ts_count_one(Ev::TextStart);
        assert forall|i: int| 0 <= i < c2.len() && (#[trigger] c2[i]) is TextDelta implies exists|
            j: int,
        | 0 <= j < i && (#[trigger] c2[j]) is TextStart by {
            assert(c2[i] == c1[i]);
            let j = choose|j: int| 0 <= j < i && (#[trigger] c1[j]) is TextStart;
            assert(c2[j] is TextStart);
        }
        assert(stream_inv(delivered, ms, k));
    }
    match jv_get(d, "content"@) {
        Some(Jv::Str(s)) => {
            let mt = StateV { pending: ms.pending.push(Ev::TextDelta(s)), ..ms };
            let c1 = delivered + ms.pending;
            let c2 = delivered + mt.pending;
            assert(c2 =~= c1 + seq![Ev::TextDelta(s)]);
            lemma_tc_count_concat(c1, seq![Ev::TextDelta(s)], k);
            lemma_tc_count_one(Ev::TextDelta(s), k);
            lemma_ts_count_concat(c1, seq![Ev::TextDelta(s)]);
            lemma_ts_count_one(Ev::TextDelta(s));
            assert(ms.text_started);
            lemma_ts_count_nonneg(c1);
            assert forall|i: int|
                0 <= i < c2.len() && (#[trigger] c2[i]) is TextDelta implies exists|j: int|
                0 <= j < i && (#[trigger] c2[j]) is TextStart by {
                if i < c1.len() {
                    assert(c2[i] == c1[i]);
                    let j = choose|j: int| 0 <= j < i && (#[trigger] c1[j]) is TextStart;
                    assert(c2[j] is TextStart);
                } else {
                    assert(ts_count(c1) == 1);
                    lemma_ts_count_pos_exists(c1);
                    let j = choose|j: int| 0 <= j < c1.len() && (#[trigger] c1[j]) is TextStart;
                    assert(c2[j] is TextStart);
                }
            }
            assert(stream_inv(delivered, mt, k));
        },
        _ => {},
    }
}

proof fn lemma_frame_step_inv(delivered: Seq<Ev>, m: StateV, p: Jv, k: Seq<char>)
    requires
        stream_inv(delivered, m, k),
    ensures
        stream_inv(delivered, frame_step(m, p), k),
{
    let m1 = push_usage(m, p);
    match jv_get(p, "usage"@) {
        Some(u) => {
            lemma_push_neutral(
                delivered,
                m,
                m1,
                m1.pending.last(),
                k,
            );
        },
        None => {},
    }
    assert(stream_inv(delivered, m1, k));
    let m2 = frame_pre_flush(m, p);
    match first_choice(p) {
        Some(c) => {
            let mf = capture_finish(m1, c);
            assert(stream_inv(delivered, mf, k));
            match jv_get(c, "delta"@) {
                Some(d) => {
                    lemma_text_step_inv(delivered, mf, d, k);
                    match jv_get(d, "tool_calls"@) {
                        Some(Jv::Arr(es)) => {
                            lemma_apply_entries_inv(
                                delivered,
                                apply_delta_text(mf, d),
                                es,
                                k,
                            );
                        },
                        _ => {},
                    }
                },
                None => {},
            }
        },
        None => {},
    }
    assert(stream_inv(delivered, m2, k));
    if m2.finish_reason == Some("tool_calls"@) {
        lemma_emit_list_inv(delivered, m2, m2.order, false, k);
    }
}

proof fn lemma_drain_inv(delivered: Seq<Ev>, m: StateV, k: Seq<char>)
    requires
        stream_inv(delivered, m, k),
    ensures
        stream_inv(
            delivered + (match drain_front(m).1 {
                Some(e) => seq![e],
                None => Seq::<Ev>::empty(),
            }),
            drain_front(m).0,
            k,
        ),
{
    if m.pending.len() > 0 {
        let e = m.pending[0];
        let d2 = delivered + seq![e];
        let m2 = drain_front(m).0;
        assert(d2 + m2.pending =~= delivered + m.pending);
    } else {
        let d2 = delivered + Seq::<Ev>::empty();
        assert(d2 =~= delivered);
    }
}

proof fn lemma_op_inv(delivered: Seq<Ev>, m: StateV, op: FrameOp, k: Seq<char>)
    requires
        stream_inv(delivered, m, k),
    ensures
        stream_inv(delivered + op_out(m, op), op_step(m, op), k),
{
    match op {
        FrameOp::Payload(p) => {
            lemma_frame_step_inv(delivered, m, p, k);
            lemma_drain_inv(delivered, frame_step(m, p), k);
        },
        FrameOp::Sentinel => {
            lemma_emit_list_inv(delivered, m, m.order, true, k);
            let m1 = emit_pass(m, true);
            if m1.pending.len() > 0 {
                lemma_drain_inv(delivered, m1, k);
            } else {
                let e = Ev::Done(m1.finish_reason);
                let d2 = delivered + seq![e];
                let c1 = delivered + m1.pending;
                let c2 = d2 + m1.pending;
                assert(c2 =~= c1 + seq![e]);
                lemma_tc_count_concat(c1, seq![e], k);
                lemma_tc_count_one(e, k);
                lemma_ts_count_concat(c1, seq![e]);
                lemma_ts_count_one(e);
                assert forall|i: int|
                    0 <= i < c2.len() && (#[trigger] c2[i]) is TextDelta implies exists|j: int|
                    0 <= j < i && (#[trigger] c2[j]) is TextStart by {
                    assert(c2[i] == c1[i]);
                    let j = choose|j: int| 0 <= j < i && (#[trigger] c1[j]) is TextStart;
                    assert(c2[j] is TextStart);
                }
            }
        },
    }
}

proof fn lemma_run_inv(delivered: Seq<Ev>, m: StateV, ops: Seq<FrameOp>, k: Seq<char>)
    requires
        stream_inv(delivered, m, k),
    ensures
        stream_inv(delivered + run_out(m, ops), run_state(m, ops), k),
    decreases ops.len(),
{
    if ops.len() == 0 {
        assert(delivered + run_out(m, ops) =~= delivered);
    } else {
        lemma_op_inv(delivered, m, ops[0], k);
        lemma_run_inv(delivered + op_out(m, ops[0]), op_step(m, ops[0]), ops.drop_first(), k);
        assert((delivered + op_out(m, ops[0])) + run_out(op_step(m, ops[0]), ops.drop_first())
            =~= delivered + run_out(m, ops));
    }
}

proof fn lemma_init_inv(k: Seq<char>)
    ensures
        stream_inv(Seq::empty(), StateV::init(), k),
{
    let c = Seq::<Ev>::empty() + StateV::init().pending;
    assert(c =~= Seq::<Ev>::empty());
    assert(!StateV::init().emitted.contains(k));
}

/// Law: each tool_call_id is handed out at most once per stream, however many
/// deltas contributed to it. Over any run of frames from a fresh state, the
/// events the parser hands the caller contain at most one `ToolCall` with a
/// given id.
pub proof fn lemma_tool_call_emitted_once(ops: Seq<FrameOp>, k: Seq<char>)
    ensures
        tc_count(run_out(StateV::init(), ops), k) <= 1,
{
    lemma_init_inv(k);
    lemma_run_inv(Seq::empty(), StateV::init(), ops, k);
    let delivered = Seq::<Ev>::empty() + run_out(StateV::init(), ops);
    let mf = run_state(StateV::init(), ops);
    lemma_tc_count_concat(delivered, mf.pending, k);
    lemma_tc_count_nonneg(mf.pending, k);
    assert(delivered =~= run_out(StateV::init(), ops));
}

/// Law: a key's argument buffer only grows by append. A delta entry leaves a
/// previous non-empty buffer as a prefix of the new one; only an empty buffer
/// can be replaced, by the rendered text of a whole non-string arguments
/// value.
pub proof fn lemma_buffer_grows(m0: StateV, e: Jv)
    ensures
        ({
            let k = entry_key(m0, e);
            (k.len() > 0 && buffer_of(m0, k).len() > 0) ==> {
                let b0 = buffer_of(m0, k);
                let b1 = buffer_of(apply_entry(m0, e), k);
                b1.len() >= b0.len() && b1.subrange(0, b0.len() as int) == b0
            }
        }),
{
    let k = entry_key(m0, e);
    let m1 = memo_index(m0, entry_index(e), entry_id(e));
    if k.len() > 0 && buffer_of(m0, k).len() > 0 {
        let acc0 = accum_get(m1.accums, k)->0;
        let acc1 = updated_accum(acc0, entry_id(e), entry_fn_name(e), entry_fn_args(e));
        lemma_accum_get_put_same(m1.accums, k, acc1);
        let b0 = buffer_of(m0, k);
        match entry_fn_args(e) {
            Some(Jv::Str(s)) => {
                assert((b0 + s).subrange(0, b0.len() as int) =~= b0);
            },
            _ => {
                assert(acc1.arguments == b0);
                assert(b0.subrange(0, b0.len() as int) =~= b0);
            },
        }
    }
}

/// The state invariant on emission ordering: the order list holds each key
/// at most once.
pub open spec fn order_unique(m: StateV) -> bool {
    forall|i: int, j: int| 0 <= i < j < m.order.len() ==> m.order[i] != m.order[j]
}

proof fn lemma_entry_order_unique(m: StateV, e: Jv)
    requires
        order_unique(m),
    ensures
        order_unique(apply_entry(m, e)),
{
    let m1 = memo_index(m, entry_index(e), entry_id(e));
    let k = resolve_key(m1, entry_index(e), entry_id(e));
    let m2 = apply_entry(m, e);
    if k.len() > 0 && !m.order.contains(k) {
        assert(m2.order == m.order.push(k));
        assert forall|i: int, j: int| 0 <= i < j < m2.order.len() implies m2.order[i]
            != m2.order[j] by {
            if j == m.order.len() {
                assert(m2.order[i] == m.order[i]);
                assert(!m.order.contains(k));
            } else {
                assert(m2.order[i] == m.order[i]);
                assert(m2.order[j] == m.order[j]);
            }
        }
    } else {
        assert(m2.order == m.order);
    }
}

proof fn lemma_entries_order_unique(m: StateV, es: Seq<Jv>)
    requires
        order_unique(m),
    ensures
        order_unique(apply_entries(m, es)),
    decreases es.len(),
{
    if es.len() > 0 {
        lemma_entry_order_unique(m, es[0]);
        lemma_entries_order_unique(apply_entry(m, es[0]), es.drop_first());
    }
}

proof fn lemma_emit_list_order(m: StateV, keys: Seq<Seq<char>>, force: bool)
    ensures
        emit_list(m, keys, force).order == m.order,
    decreases keys.len(),
{
    if keys.len() > 0 {
        lemma_emit_list_order(emit_step(m, keys[0], force), keys.drop_first(), force);
    }
}

proof fn lemma_frame_order_unique(m: StateV, p: Jv)
    requires
        order_unique(m),
    ensures
        order_unique(frame_step(m, p)),
{
    let m1 = push_usage(m, p);
    assert(m1.order == m.order);
    let m2 = frame_pre_flush(m, p);
    match first_choice(p) {
        Some(c) => {
            let mf = capture_finish(m1, c);
            assert(mf.order == m.order);
            match jv_get(c, "delta"@) {
                Some(d) => {
                    let mt = apply_delta_text(mf, d);
                    assert(mt.order == m.order);
                    match jv_get(d, "tool_calls"@) {
                        Some(Jv::Arr(es)) => {
                            lemma_entries_order_unique(mt, es);
                        },
                        _ => {},
                    }
                },
                None => {},
            }
        },
        None => {},
    }
    assert(order_unique(m2));
    if m2.finish_reason == Some("tool_calls"@) {
        lemma_emit_list_order(m2, m2.order, false);
    }
}

/// Law: the emission order holds each key at most once, in first-seen order,
/// in every state a run of frames can reach from a fresh stream.
pub proof fn lemma_order_unique_reachable(ops: Seq<FrameOp>)
    ensures
        order_unique(run_state(StateV::init(), ops)),
    decreases ops.len(),
{
    lemma_order_unique_from(StateV::init(), ops);
}

proof fn lemma_order_unique_from(m: StateV, ops: Seq<FrameOp>)
    requires
        order_unique(m),
    ensures
        order_unique(run_state(m, ops)),
    decreases ops.len(),
{
    if ops.len() > 0 {
        match ops[0] {
            FrameOp::Payload(p) => {
                lemma_frame_order_unique(m, p);
                assert(op_step(m, ops[0]).order == frame_step(m, p).order);
            },
            FrameOp::Sentinel => {
                lemma_emit_list_order(m, m.order, true);
                assert(op_step(m, ops[0]).order == m.order);
            },
        }
        lemma_order_unique_from(op_step(m, ops[0]), ops.drop_first());
    }
}

/// Law: exactly one `TextStart` precedes the first `TextDelta`. Over any run
/// of frames from a fresh state, the events the parser hands the caller hold
/// at most one `TextStart`, and every `TextDelta` comes strictly after one.
pub proof fn lemma_single_text_start(ops: Seq<FrameOp>)
    ensures
        ts_count(run_out(StateV::init(), ops)) <= 1,
        deltas_preceded(run_out(StateV::init(), ops)),
{
    let k = Seq::<char>::empty();
    lemma_init_inv(k);
    lemma_run_inv(Seq::empty(), StateV::init(), ops, k);
    let out = run_out(StateV::init(), ops);
    let delivered = Seq::<Ev>::empty() + out;
    let mf = run_state(StateV::init(), ops);
    lemma_ts_count_concat(delivered, mf.pending);
    lemma_ts_count_nonneg(mf.pending);
    assert(delivered =~= out);
    let c = delivered + mf.pending;
    assert forall|i: int| 0 <= i < out.len() && (#[trigger] out[i]) is TextDelta implies exists|
        j: int,
    | 0 <= j < i && (#[trigger] out[j]) is TextStart by {
        assert(c[i] == out[i]);
        let j = choose|j: int| 0 <= j < i && (#[trigger] c[j]) is TextStart;
        assert(out[j] == c[j]);
    }
}

} // verus!
