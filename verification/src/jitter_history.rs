//! What a jitter buffer does over a whole run of calls: the state and playout items after any
//! sequence of inserts, pops and resets, and the laws that hold along every such run.
use crate::jitter::{
    MAX_CONSECUTIVE_MISSING, is_latest_key, latest_key, lemma_earliest_key_exists, lemma_playout_is_consecutive,
    next_sequence, BufferedAudioPacket, JitterView, PlayoutView,
};
use vstd::prelude::*;

verus! {

/// One call on a jitter buffer.
pub enum JitterOp {
    Insert(BufferedAudioPacket),
    Pop,
    Reset,
}

/// The state after one call.
pub open spec fn step(s: JitterView, op: JitterOp) -> JitterView {
    match op {
        JitterOp::Insert(p) => s.after_insert(p),
        JitterOp::Pop => s.after_pop(),
        JitterOp::Reset => s.after_reset(),
    }
}

/// The call's counters have room, so the call does not overflow.
pub open spec fn step_fits(s: JitterView, op: JitterOp) -> bool {
    match op {
        JitterOp::Insert(p) => s.insert_fits(p.sequence),
        JitterOp::Pop => s.pop_fits(),
        JitterOp::Reset => s.stats.resets < u64::MAX,
    }
}

/// The state after the calls `ops`, in order, starting from `s`.
pub open spec fn run(s: JitterView, ops: Seq<JitterOp>) -> JitterView
    decreases ops.len(),
{
    if ops.len() == 0 {
        s
    } else {
        step(run(s, ops.drop_last()), ops.last())
    }
}

/// The state just before call `j` of `ops`.
pub open spec fn state_at(s: JitterView, ops: Seq<JitterOp>, j: int) -> JitterView {
    run(s, ops.take(j))
}

/// Every call of the run has room in its counters.
pub open spec fn run_fits(s: JitterView, ops: Seq<JitterOp>) -> bool {
    forall|j: int| 0 <= j < ops.len() ==> step_fits(#[trigger] state_at(s, ops, j), ops[j])
}

/// What a counter of the statistics counts.
pub enum JitterEvent {
    /// An insert that stored its packet.
    Accepted,
    /// An insert dropped because its sequence was already buffered.
    Duplicate,
    /// An insert dropped because its sequence was older than the next one to play.
    Late,
    /// An insert that met a full buffer, whether it evicted a packet or was dropped.
    OverflowDrop,
    /// A pop that found its sequence missing (a gap or an outage reset).
    Missing,
    /// An explicit reset, or a pop that reset after an outage.
    Reset,
    /// A pop that handed out a packet.
    Played,
}

/// Whether the call `op`, meeting the state `t`, is an event of kind `ev`.
pub open spec fn event_happens(t: JitterView, op: JitterOp, ev: JitterEvent) -> bool {
    match op {
        JitterOp::Insert(p) => {
            let outcome = t.insert_outcome(p.sequence);
            match ev {
                JitterEvent::Accepted => outcome is Stored || outcome is Evicted,
                JitterEvent::Duplicate => outcome is Duplicate,
                JitterEvent::Late => outcome is Late,
                JitterEvent::OverflowDrop => outcome is Rejected || outcome is Evicted,
                _ => false,
            }
        },
        JitterOp::Pop => match ev {
            JitterEvent::Missing => t.pop_misses(),
            JitterEvent::Reset => t.pop_resets(),
            JitterEvent::Played => !t.pop_waits() && !t.pop_misses(),
            _ => false,
        },
        JitterOp::Reset => ev is Reset,
    }
}

/// How many calls of `ops` are events of kind `ev`, each judged at the state it meets.
pub open spec fn count_events(s: JitterView, ops: Seq<JitterOp>, ev: JitterEvent) -> nat
    decreases ops.len(),
{
    if ops.len() == 0 {
        0
    } else {
        count_events(s, ops.drop_last(), ev) + if event_happens(
            run(s, ops.drop_last()),
            ops.last(),
            ev,
        ) {
            1nat
        } else {
            0nat
        }
    }
}

/// The number of pops in `ops`.
pub open spec fn pop_count(ops: Seq<JitterOp>) -> nat
    decreases ops.len(),
{
    if ops.len() == 0 {
        0
    } else {
        pop_count(ops.drop_last()) + if ops.last() is Pop {
            1nat
        } else {
            0nat
        }
    }
}

/// `e` advanced by `n` sequence numbers, wrapping at the top of the range.
pub open spec fn advance(e: u32, n: nat) -> u32 {
    ((e + n) % 0x1_0000_0000) as u32
}

/// No call of the run resets the buffer: no explicit reset, and no pop that gives up after
/// an outage.
pub open spec fn run_has_no_reset(s: JitterView, ops: Seq<JitterOp>) -> bool {
    forall|j: int|
        0 <= j < ops.len() ==> !(ops[j] is Reset) && (ops[j] is Pop ==> !(#[trigger] state_at(
            s,
            ops,
            j,
        )).pop_resets())
}

/// The insert at call `i` of `ops` stored the packet `p`.
pub open spec fn accepted_at(s: JitterView, ops: Seq<JitterOp>, i: int, p: BufferedAudioPacket) -> bool {
    &&& ops[i] == JitterOp::Insert(p)
    &&& ({
        let outcome = state_at(s, ops, i).insert_outcome(p.sequence);
        outcome is Stored || outcome is Evicted
    })
}

/// `p` was buffered at the start of the run, or an insert among the first `j` calls stored it.
pub open spec fn came_from(s: JitterView, ops: Seq<JitterOp>, j: int, p: BufferedAudioPacket) -> bool {
    ||| (s.packets.contains_key(p.sequence) && s.packets[p.sequence] == p)
    ||| exists|i: int| 0 <= i < j && #[trigger] accepted_at(s, ops, i, p)
}

proof fn lemma_take_last(ops: Seq<JitterOp>, j: int)
    requires
        0 <= j < ops.len(),
    ensures
        ops.take(j + 1).drop_last() == ops.take(j),
        ops.take(j + 1).last() == ops[j],
        ops.take(j + 1).len() == j + 1,
{
    assert(ops.take(j + 1).drop_last() =~= ops.take(j));
}

/// The state after call `j` is the state before it, stepped by that call.
pub proof fn lemma_state_step(s: JitterView, ops: Seq<JitterOp>, j: int)
    requires
        0 <= j < ops.len(),
    ensures
        state_at(s, ops, j + 1) == step(state_at(s, ops, j), ops[j]),
{
    lemma_take_last(ops, j);
}

/// A finite, non-empty map keyed by sequence numbers has a largest key.
pub proof fn lemma_latest_key_exists<V>(m: Map<u32, V>)
    requires
        m.dom().finite(),
        m.len() > 0,
    ensures
        is_latest_key(m, latest_key(m)),
    decreases m.len(),
{
    let k = m.dom().choose();
    assert(m.dom().contains(k));
    if m.len() == 1 {
        assert forall|j: u32| m.contains_key(j) implies j <= k by {
            if j != k {
                assert(m.dom().remove(k).contains(j));
                assert(m.dom().remove(k).len() == 0);
            }
        }
        assert(is_latest_key(m, k));
    } else {
        let rest = m.remove(k);
        assert(rest.dom() =~= m.dom().remove(k));
        lemma_latest_key_exists(rest);
        let r = latest_key(rest);
        if k > r {
            assert(is_latest_key(m, k));
        } else {
            assert(is_latest_key(m, r));
        }
    }
}

/// Every call keeps the buffer well formed and leaves its limits as they were.
pub proof fn lemma_step_keeps_wf(s: JitterView, op: JitterOp)
    requires
        s.wf(),
    ensures
        step(s, op).wf(),
        step(s, op).prefill_packets == s.prefill_packets,
        step(s, op).max_packets == s.max_packets,
{
    match op {
        JitterOp::Insert(p) => {
            if s.insert_outcome(p.sequence) is Evicted {
                lemma_latest_key_exists(s.packets);
                let latest = latest_key(s.packets);
                assert(s.packets.remove(latest).len() == s.packets.len() - 1);
            }
        },
        JitterOp::Pop => {
            if !s.pop_waits() {
                if !s.started {
                    lemma_earliest_key_exists(s.packets);
                }
                assert(!s.pop_misses() ==> s.packets.contains_key(s.pop_sequence()));
            }
        },
        JitterOp::Reset => {},
    }
}

/// Bounded buffer over any run: after any sequence of inserts, pops and resets the buffer is
/// still well formed, its limits are unchanged, and so it holds at most `max_packets` packets.
pub proof fn lemma_run_keeps_wf(s: JitterView, ops: Seq<JitterOp>)
    requires
        s.wf(),
    ensures
        run(s, ops).wf(),
        run(s, ops).prefill_packets == s.prefill_packets,
        run(s, ops).max_packets == s.max_packets,
        run(s, ops).packets.len() <= s.max_packets,
    decreases ops.len(),
{
    if ops.len() > 0 {
        lemma_run_keeps_wf(s, ops.drop_last());
        lemma_step_keeps_wf(run(s, ops.drop_last()), ops.last());
    }
}

/// Playout over a run walks the sequence numbers one by one: from a started buffer expecting
/// `e0`, as long as nothing resets it, the pop that comes after `k` earlier pops of the run
/// hands out a packet or a gap for exactly `e0` advanced by `k` (wrapping), never a wait or a
/// reset; and the buffer then expects `e0` advanced by the number of pops.
pub proof fn lemma_run_playout_is_consecutive(s: JitterView, ops: Seq<JitterOp>)
    requires
        s.wf(),
        s.started,
        run_has_no_reset(s, ops),
    ensures
        forall|j: int|
            0 <= j < ops.len() && ops[j] is Pop ==> {
                let t = #[trigger] state_at(s, ops, j);
                let e = advance(s.expected->Some_0, pop_count(ops.take(j)));
                &&& t.pop_item() matches PlayoutView::Packet(p) ==> p.sequence == e
                &&& t.pop_item() matches PlayoutView::Missing { sequence, .. } ==> sequence == e
                &&& (t.pop_item() is Packet || t.pop_item() is Missing)
            },
        run(s, ops).started,
        run(s, ops).expected == Some(advance(s.expected->Some_0, pop_count(ops))),
{
    let e0 = s.expected->Some_0;
    assert forall|j: int| 0 <= j <= ops.len() implies {
        let t = #[trigger] state_at(s, ops, j);
        &&& t.wf()
        &&& t.started
        &&& t.expected == Some(advance(e0, pop_count(ops.take(j))))
    } by {
        lemma_prefix_expected(s, ops, j);
    }
    assert forall|j: int| 0 <= j < ops.len() && ops[j] is Pop implies {
        let t = #[trigger] state_at(s, ops, j);
        let e = advance(e0, pop_count(ops.take(j)));
        &&& t.pop_item() matches PlayoutView::Packet(p) ==> p.sequence == e
        &&& t.pop_item() matches PlayoutView::Missing { sequence, .. } ==> sequence == e
        &&& (t.pop_item() is Packet || t.pop_item() is Missing)
    } by {
        let t = state_at(s, ops, j);
        lemma_prefix_expected(s, ops, j);
        lemma_playout_is_consecutive(t);
    }
    lemma_prefix_expected(s, ops, ops.len() as int);
    assert(ops.take(ops.len() as int) =~= ops);
}

proof fn lemma_prefix_expected(s: JitterView, ops: Seq<JitterOp>, j: int)
    requires
        s.wf(),
        s.started,
        run_has_no_reset(s, ops),
        0 <= j <= ops.len(),
    ensures
        state_at(s, ops, j).wf(),
        state_at(s, ops, j).started,
        state_at(s, ops, j).expected == Some(advance(s.expected->Some_0, pop_count(ops.take(j)))),
    decreases j,
{
    let e0 = s.expected->Some_0;
    if j == 0 {
        assert(ops.take(0) =~= Seq::<JitterOp>::empty());
        assert(advance(e0, 0) == e0);
    } else {
        lemma_prefix_expected(s, ops, j - 1);
        lemma_take_last(ops, j - 1);
        let t = state_at(s, ops, j - 1);
        let n = pop_count(ops.take(j - 1));
        lemma_step_keeps_wf(t, ops[j - 1]);
        assert(!(ops[j - 1] is Reset));
        if ops[j - 1] is Pop {
            assert(!t.pop_resets());
            lemma_playout_is_consecutive(t);
            assert(pop_count(ops.take(j)) == n + 1);
            lemma_advance_next(e0, n);
        } else {
            assert(pop_count(ops.take(j)) == n);
        }
    }
}

proof fn lemma_advance_next(e: u32, n: nat)
    ensures
        next_sequence(advance(e, n)) == advance(e, n + 1),
{
    let m: int = 0x1_0000_0000;
    vstd::arithmetic::div_mod::lemma_add_mod_noop(e + n, 1, m);
    vstd::arithmetic::div_mod::lemma_mod_bound(e + n, m);
    vstd::arithmetic::div_mod::lemma_mod_bound(e + n + 1, m);
    if advance(e, n) == u32::MAX {
        vstd::arithmetic::div_mod::lemma_mod_self_0(m);
    } else {
        vstd::arithmetic::div_mod::lemma_small_mod(((e + n) % m + 1) as nat, m as nat);
    }
}

/// Every packet buffered before call `j` was buffered at the start or stored by an earlier insert.
proof fn lemma_buffer_origin(s: JitterView, ops: Seq<JitterOp>, j: int)
    requires
        s.wf(),
        0 <= j <= ops.len(),
    ensures
        forall|k: u32|
            #[trigger] state_at(s, ops, j).packets.contains_key(k) ==> came_from(
                s,
                ops,
                j,
                state_at(s, ops, j).packets[k],
            ),
    decreases j,
{
    if j == 0 {
        assert(ops.take(0) =~= Seq::<JitterOp>::empty());
    } else {
        lemma_buffer_origin(s, ops, j - 1);
        lemma_take_last(ops, j - 1);
        let t = state_at(s, ops, j - 1);
        let u = state_at(s, ops, j);
        lemma_run_keeps_wf(s, ops.take(j - 1));
        assert forall|k: u32| #[trigger] u.packets.contains_key(k) implies came_from(
            s,
            ops,
            j,
            u.packets[k],
        ) by {
            match ops[j - 1] {
                JitterOp::Insert(p) => {
                    let outcome = t.insert_outcome(p.sequence);
                    if (outcome is Stored || outcome is Evicted) && k == p.sequence {
                        assert(accepted_at(s, ops, j - 1, p));
                    } else {
                        assert(t.packets.contains_key(k));
                        assert(came_from(s, ops, j - 1, t.packets[k]));
                    }
                },
                JitterOp::Pop => {
                    assert(t.packets.contains_key(k));
                    assert(came_from(s, ops, j - 1, t.packets[k]));
                },
                JitterOp::Reset => {},
            }
        }
    }
}

/// A played packet is a packet that was stored: every packet that a pop of a run hands out
/// was buffered at the start of the run or was stored by an earlier insert of the run (with
/// all its fields, payload included), and it is no longer buffered after that pop.
pub proof fn lemma_played_packet_was_inserted(s: JitterView, ops: Seq<JitterOp>)
    requires
        s.wf(),
    ensures
        forall|j: int|
            0 <= j < ops.len() && ops[j] is Pop && (#[trigger] state_at(s, ops, j)).pop_item() is Packet
                ==> {
                let p = state_at(s, ops, j).pop_item()->Packet_0;
                &&& came_from(s, ops, j, p)
                &&& !state_at(s, ops, j + 1).packets.contains_key(p.sequence)
            },
{
    assert forall|j: int|
        0 <= j < ops.len() && ops[j] is Pop && (#[trigger] state_at(s, ops, j)).pop_item() is Packet implies {
        let p = state_at(s, ops, j).pop_item()->Packet_0;
        &&& came_from(s, ops, j, p)
        &&& !state_at(s, ops, j + 1).packets.contains_key(p.sequence)
    } by {
        let t = state_at(s, ops, j);
        lemma_buffer_origin(s, ops, j);
        lemma_take_last(ops, j);
        lemma_run_keeps_wf(s, ops.take(j));
        let seq = t.pop_sequence();
        assert(t.packets.contains_key(seq));
        assert(t.pop_item() == PlayoutView::Packet(t.packets[seq]));
    }
}

/// The statistics count the events of a run: over any run whose counters have room, each
/// counter grows by exactly the number of its events (stored packets, duplicates, late
/// packets, inserts that met a full buffer, missing sequences, resets).
pub proof fn lemma_stats_count_events(s: JitterView, ops: Seq<JitterOp>)
    requires
        s.wf(),
        run_fits(s, ops),
    ensures
        run(s, ops).stats.accepted == s.stats.accepted + count_events(s, ops, JitterEvent::Accepted),
        run(s, ops).stats.duplicates == s.stats.duplicates + count_events(
            s,
            ops,
            JitterEvent::Duplicate,
        ),
        run(s, ops).stats.late == s.stats.late + count_events(s, ops, JitterEvent::Late),
        run(s, ops).stats.overflow_drops == s.stats.overflow_drops + count_events(
            s,
            ops,
            JitterEvent::OverflowDrop,
        ),
        run(s, ops).stats.missing == s.stats.missing + count_events(s, ops, JitterEvent::Missing),
        run(s, ops).stats.resets == s.stats.resets + count_events(s, ops, JitterEvent::Reset),
    decreases ops.len(),
{
    if ops.len() > 0 {
        let n = ops.len() - 1;
        let prefix = ops.drop_last();
        assert forall|j: int| 0 <= j < prefix.len() implies step_fits(
            #[trigger] state_at(s, prefix, j),
            prefix[j],
        ) by {
            assert(prefix.take(j) =~= ops.take(j));
            assert(step_fits(state_at(s, ops, j), ops[j]));
        }
        lemma_stats_count_events(s, prefix);
        assert(ops.take(n) =~= prefix);
        assert(step_fits(state_at(s, ops, n), ops[n]));
        let t = run(s, prefix);
        lemma_run_keeps_wf(s, prefix);
        if ops.last() is Pop && !t.pop_waits() && !t.started {
            lemma_earliest_key_exists(t.packets);
        }
    }
}

/// Without further inserts, playout drains what is buffered: over a run of pops and resets,
/// the packets handed out plus those still buffered are at most those buffered at the start,
/// so at most `max_packets` pops hand out a packet.
pub proof fn lemma_pops_drain_buffer(s: JitterView, ops: Seq<JitterOp>)
    requires
        s.wf(),
        forall|j: int| 0 <= j < ops.len() ==> !(#[trigger] ops[j] is Insert),
    ensures
        count_events(s, ops, JitterEvent::Played) + run(s, ops).packets.len() <= s.packets.len(),
        count_events(s, ops, JitterEvent::Played) <= s.max_packets,
    decreases ops.len(),
{
    if ops.len() > 0 {
        let prefix = ops.drop_last();
        assert forall|j: int| 0 <= j < prefix.len() implies !(#[trigger] prefix[j] is Insert) by {
            assert(prefix[j] == ops[j]);
        }
        lemma_pops_drain_buffer(s, prefix);
        let t = run(s, prefix);
        lemma_run_keeps_wf(s, prefix);
        assert(!(ops[ops.len() - 1] is Insert));
        if ops.last() is Pop && !t.pop_waits() {
            if !t.started {
                lemma_earliest_key_exists(t.packets);
            }
            if !t.pop_misses() {
                assert(t.packets.contains_key(t.pop_sequence()));
            }
        }
    }
}

/// How many gap reports end the run: counting back from its last call, the pops that reported
/// a missing sequence, up to the last pop that handed out a packet or reset the buffer, or the
/// last explicit reset. Inserts and waiting pops neither count nor interrupt the count.
pub open spec fn trailing_gaps(s: JitterView, ops: Seq<JitterOp>) -> nat
    decreases ops.len(),
{
    if ops.len() == 0 {
        0
    } else {
        let prev = trailing_gaps(s, ops.drop_last());
        match ops.last() {
            JitterOp::Insert(_) => prev,
            JitterOp::Reset => 0,
            JitterOp::Pop => match run(s, ops.drop_last()).pop_item() {
                PlayoutView::Waiting => prev,
                PlayoutView::Missing { .. } => prev + 1,
                _ => 0,
            },
        }
    }
}

/// The state of a buffer keeps count of the gap reports that end the run.
proof fn lemma_consecutive_missing_counts_trailing_gaps(s: JitterView, ops: Seq<JitterOp>)
    requires
        s.wf(),
        s.consecutive_missing == 0,
        run_fits(s, ops),
    ensures
        run(s, ops).consecutive_missing == trailing_gaps(s, ops),
    decreases ops.len(),
{
    if ops.len() > 0 {
        let n = ops.len() - 1;
        let prefix = ops.drop_last();
        assert forall|j: int| 0 <= j < prefix.len() implies step_fits(
            #[trigger] state_at(s, prefix, j),
            prefix[j],
        ) by {
            assert(prefix.take(j) =~= ops.take(j));
            assert(step_fits(state_at(s, ops, j), ops[j]));
        }
        lemma_consecutive_missing_counts_trailing_gaps(s, prefix);
        assert(ops.take(n) =~= prefix);
        assert(step_fits(state_at(s, ops, n), ops[n]));
        let t = run(s, prefix);
        lemma_run_keeps_wf(s, prefix);
        if ops.last() is Pop {
            crate::jitter::lemma_pop_item_laws(t);
        }
    }
}

/// A reset after an outage needs an unbroken run of gaps: in a run that starts with no gaps
/// counted, a pop resets the buffer only if at least `MAX_CONSECUTIVE_MISSING` pops before it
/// reported gaps with no packet played and no reset in between; and after every call, the
/// buffer's consecutive-gap count is the number of gap reports ending the run so far.
pub proof fn lemma_reset_needs_consecutive_gaps(s: JitterView, ops: Seq<JitterOp>)
    requires
        s.wf(),
        s.consecutive_missing == 0,
        run_fits(s, ops),
    ensures
        run(s, ops).consecutive_missing == trailing_gaps(s, ops),
        forall|j: int|
            0 <= j < ops.len() && ops[j] is Pop && (#[trigger] state_at(s, ops, j)).pop_item() is Reset
                ==> trailing_gaps(s, ops.take(j)) >= MAX_CONSECUTIVE_MISSING,
{
    lemma_consecutive_missing_counts_trailing_gaps(s, ops);
    assert forall|j: int|
        0 <= j < ops.len() && ops[j] is Pop && (#[trigger] state_at(s, ops, j)).pop_item() is Reset implies trailing_gaps(s, ops.take(j)) >= MAX_CONSECUTIVE_MISSING by {
        let prefix = ops.take(j);
        assert forall|i: int| 0 <= i < prefix.len() implies step_fits(
            #[trigger] state_at(s, prefix, i),
            prefix[i],
        ) by {
            assert(prefix.take(i) =~= ops.take(i));
            assert(step_fits(state_at(s, ops, i), ops[i]));
        }
        lemma_consecutive_missing_counts_trailing_gaps(s, prefix);
        lemma_run_keeps_wf(s, prefix);
        crate::jitter::lemma_pop_item_laws(state_at(s, ops, j));
    }
}

} // verus!
