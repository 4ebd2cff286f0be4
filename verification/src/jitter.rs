//! Audio jitter buffer: reorders incoming packets by sequence number, rejects
//! duplicates and late arrivals, bounds its size, and hands out one playout item
//! per audio frame (a packet, a gap to conceal, or a reset after a long outage).
use std::collections::BTreeMap;
use vstd::prelude::*;

verus! {

pub const DEFAULT_PREFILL_PACKETS: usize = 2;
pub const DEFAULT_MAX_PACKETS: usize = 8;
pub const MAX_CONSECUTIVE_MISSING: u32 = 6;

#[derive(Clone, Debug, PartialEq, Eq)]
pub struct BufferedAudioPacket {
    pub sequence: u32,
    pub timestamp_us: u64,
    pub flags: u8,
    pub payload: Vec<u8>,
}

#[derive(Debug, PartialEq, Eq)]
pub enum PlayoutItem {
    Waiting,
    Packet(BufferedAudioPacket),
    Missing { sequence: u32, next_payload: Option<Vec<u8>> },
    Reset,
}

/// What a playout item says, with byte vectors taken by their contents.
pub enum PlayoutView {
    Waiting,
    Packet(BufferedAudioPacket),
    Missing { sequence: u32, next_payload: Option<Seq<u8>> },
    Reset,
}

impl View for PlayoutItem {
    type V = PlayoutView;

    open spec fn view(&self) -> PlayoutView {
        match self {
            PlayoutItem::Waiting => PlayoutView::Waiting,
            PlayoutItem::Packet(p) => PlayoutView::Packet(*p),
            PlayoutItem::Missing { sequence, next_payload } => PlayoutView::Missing {
                sequence: *sequence,
                next_payload: match next_payload {
                    Some(v) => Some(v@),
                    None => None,
                },
            },
            PlayoutItem::Reset => PlayoutView::Reset,
        }
    }
}

#[derive(Clone, Copy, Debug, Default, PartialEq, Eq, Structural)]
pub struct JitterStats {
    pub accepted: u64,
    pub duplicates: u64,
    pub late: u64,
    pub overflow_drops: u64,
    pub missing: u64,
    pub resets: u64,
}

pub struct AudioJitterBuffer {
    packets: BTreeMap<u32, BufferedAudioPacket>,
    expected: Option<u32>,
    started: bool,
    prefill_packets: usize,
    max_packets: usize,
    consecutive_missing: u32,
    stats: JitterStats,
}

/// The abstract state of a jitter buffer.
pub struct JitterView {
    /// Buffered packets, keyed by sequence number.
    pub packets: Map<u32, BufferedAudioPacket>,
    /// The sequence number that playout hands out next, once started.
    pub expected: Option<u32>,
    pub started: bool,
    pub prefill_packets: usize,
    pub max_packets: usize,
    pub consecutive_missing: u32,
    pub stats: JitterStats,
}

impl View for AudioJitterBuffer {
    type V = JitterView;

    closed spec fn view(&self) -> JitterView {
        JitterView {
            packets: self.packets@,
            expected: self.expected,
            started: self.started,
            prefill_packets: self.prefill_packets,
            max_packets: self.max_packets,
            consecutive_missing: self.consecutive_missing,
            stats: self.stats,
        }
    }
}

/// Sequence number `a` is older than `b` when the forward distance from `b` to `a`,
/// around the 32-bit ring, is at least half the ring.
pub open spec fn sequence_older(a: u32, b: u32) -> bool {
    let forward = if a >= b {
        a - b
    } else {
        a - b + 0x1_0000_0000
    };
    forward >= 0x8000_0000
}

/// The sequence number after `s`, wrapping at the top of the range.
pub open spec fn next_sequence(s: u32) -> u32 {
    if s == u32::MAX {
        0
    } else {
        (s + 1) as u32
    }
}

/// `k` is the largest key of `m`.
pub open spec fn is_latest_key<V>(m: Map<u32, V>, k: u32) -> bool {
    m.contains_key(k) && forall|j: u32| m.contains_key(j) ==> j <= k
}

/// `k` is the smallest key of `m`.
pub open spec fn is_earliest_key<V>(m: Map<u32, V>, k: u32) -> bool {
    m.contains_key(k) && forall|j: u32| m.contains_key(j) ==> k <= j
}

/// The largest key of a non-empty map.
pub open spec fn latest_key<V>(m: Map<u32, V>) -> u32 {
    choose|k: u32| is_latest_key(m, k)
}

/// The smallest key of a non-empty map.
pub open spec fn earliest_key<V>(m: Map<u32, V>) -> u32 {
    choose|k: u32| is_earliest_key(m, k)
}

/// How an insert is settled.
pub enum InsertOutcome {
    /// Older than the next sequence to play: dropped and counted late.
    Late,
    /// Already buffered: dropped and counted as a duplicate.
    Duplicate,
    /// Buffer full and the packet is not older than the latest buffered one: dropped.
    Rejected,
    /// Buffer full and the packet is older than the latest buffered one, which is evicted.
    Evicted(u32),
    /// Stored.
    Stored,
}

impl JitterStats {
    pub open spec fn zero() -> JitterStats {
        JitterStats { accepted: 0, duplicates: 0, late: 0, overflow_drops: 0, missing: 0, resets: 0 }
    }
}

impl JitterView {
    /// A buffer state that no operation leaves behind is never seen: limits are sane, the
    /// buffer is bounded, every packet sits under its own sequence number, and playout has an
    /// expected sequence exactly when it has started.
    pub open spec fn wf(self) -> bool {
        &&& self.prefill_packets > 0
        &&& self.max_packets >= self.prefill_packets
        &&& self.packets.dom().finite()
        &&& self.packets.len() <= self.max_packets
        &&& forall|k: u32| #[trigger] self.packets.contains_key(k) ==> self.packets[k].sequence == k
        &&& self.started <==> self.expected is Some
    }

    /// An empty buffer that waits for `prefill` packets and holds at most `max`.
    pub open spec fn initial(prefill: usize, max: usize) -> JitterView {
        JitterView {
            packets: Map::empty(),
            expected: None,
            started: false,
            prefill_packets: prefill,
            max_packets: max,
            consecutive_missing: 0,
            stats: JitterStats::zero(),
        }
    }

    pub open spec fn insert_outcome(self, sequence: u32) -> InsertOutcome {
        if self.expected matches Some(e) && sequence_older(sequence, e) {
            InsertOutcome::Late
        } else if self.packets.contains_key(sequence) {
            InsertOutcome::Duplicate
        } else if self.packets.len() >= self.max_packets {
            if sequence_older(sequence, latest_key(self.packets)) {
                InsertOutcome::Evicted(latest_key(self.packets))
            } else {
                InsertOutcome::Rejected
            }
        } else {
            InsertOutcome::Stored
        }
    }

    /// The counters that inserting a packet with this sequence number bumps have room.
    pub open spec fn insert_fits(self, sequence: u32) -> bool {
        match self.insert_outcome(sequence) {
            InsertOutcome::Late => self.stats.late < u64::MAX,
            InsertOutcome::Duplicate => self.stats.duplicates < u64::MAX,
            InsertOutcome::Rejected => self.stats.overflow_drops < u64::MAX,
            InsertOutcome::Evicted(_) => self.stats.overflow_drops < u64::MAX
                && self.stats.accepted < u64::MAX,
            InsertOutcome::Stored => self.stats.accepted < u64::MAX,
        }
    }

    /// The state after inserting `p`.
    pub open spec fn after_insert(self, p: BufferedAudioPacket) -> JitterView {
        let st = self.stats;
        match self.insert_outcome(p.sequence) {
            InsertOutcome::Late => JitterView {
                stats: JitterStats { late: (st.late + 1) as u64, ..st },
                ..self
            },
            InsertOutcome::Duplicate => JitterView {
                stats: JitterStats { duplicates: (st.duplicates + 1) as u64, ..st },
                ..self
            },
            InsertOutcome::Rejected => JitterView {
                stats: JitterStats { overflow_drops: (st.overflow_drops + 1) as u64, ..st },
                ..self
            },
            InsertOutcome::Evicted(latest) => JitterView {
                packets: self.packets.remove(latest).insert(p.sequence, p),
                stats: JitterStats {
                    overflow_drops: (st.overflow_drops + 1) as u64,
                    accepted: (st.accepted + 1) as u64,
                    ..st
                },
                ..self
            },
            InsertOutcome::Stored => JitterView {
                packets: self.packets.insert(p.sequence, p),
                stats: JitterStats { accepted: (st.accepted + 1) as u64, ..st },
                ..self
            },
        }
    }

    /// Whether a pop waits for the prefill.
    pub open spec fn pop_waits(self) -> bool {
        !self.started && self.packets.len() < self.prefill_packets
    }

    /// The sequence number a pop plays (meaningful when it does not wait).
    pub open spec fn pop_sequence(self) -> u32 {
        if self.started {
            self.expected->Some_0
        } else {
            earliest_key(self.packets)
        }
    }

    /// Whether a pop finds the sequence it plays missing.
    pub open spec fn pop_misses(self) -> bool {
        !self.pop_waits() && !self.packets.contains_key(self.pop_sequence())
    }

    /// Whether a pop gives up after a long outage and resets.
    pub open spec fn pop_resets(self) -> bool {
        self.pop_misses() && self.consecutive_missing + 1 > MAX_CONSECUTIVE_MISSING
            && self.packets.len() == 0
    }

    /// The counters that a pop bumps have room.
    pub open spec fn pop_fits(self) -> bool {
        self.pop_misses() ==> {
            &&& self.consecutive_missing < u32::MAX
            &&& self.stats.missing < u64::MAX
            &&& self.pop_resets() ==> self.stats.resets < u64::MAX
        }
    }

    /// The state after dropping all buffered packets and playout position, keeping
    /// limits and statistics.
    pub open spec fn cleared(self) -> JitterView {
        JitterView {
            packets: Map::empty(),
            expected: None,
            started: false,
            consecutive_missing: 0,
            ..self
        }
    }

    /// The state after an explicit reset: cleared, with one more reset counted.
    pub open spec fn after_reset(self) -> JitterView {
        let cleared = self.cleared();
        JitterView {
            stats: JitterStats { resets: (self.stats.resets + 1) as u64, ..self.stats },
            ..cleared
        }
    }

    /// The state after a pop.
    pub open spec fn after_pop(self) -> JitterView {
        let seq = self.pop_sequence();
        let st = self.stats;
        if self.pop_waits() {
            self
        } else if !self.pop_misses() {
            JitterView {
                packets: self.packets.remove(seq),
                expected: Some(next_sequence(seq)),
                started: true,
                consecutive_missing: 0,
                ..self
            }
        } else if self.pop_resets() {
            JitterView {
                stats: JitterStats {
                    missing: (st.missing + 1) as u64,
                    resets: (st.resets + 1) as u64,
                    ..st
                },
                ..self.cleared()
            }
        } else {
            JitterView {
                expected: Some(next_sequence(seq)),
                started: true,
                consecutive_missing: (self.consecutive_missing + 1) as u32,
                stats: JitterStats { missing: (st.missing + 1) as u64, ..st },
                ..self
            }
        }
    }

    /// The item a pop hands out.
    pub open spec fn pop_item(self) -> PlayoutView {
        let seq = self.pop_sequence();
        let next = next_sequence(seq);
        if self.pop_waits() {
            PlayoutView::Waiting
        } else if !self.pop_misses() {
            PlayoutView::Packet(self.packets[seq])
        } else if self.pop_resets() {
            PlayoutView::Reset
        } else {
            PlayoutView::Missing {
                sequence: seq,
                next_payload: if self.packets.contains_key(next) {
                    Some(self.packets[next].payload@)
                } else {
                    None
                },
            }
        }
    }
}

/// `BTreeMap::first_key_value`, keeping only the key. Its documentation says it returns the
/// entry with the minimum key, and `None` for an empty map; this is what the contract claims.
#[verifier::external_body]
fn first_key(m: &BTreeMap<u32, BufferedAudioPacket>) -> (r: Option<u32>)
    ensures
        match r {
            Some(k) => is_earliest_key(m@, k),
            None => m@ == Map::<u32, BufferedAudioPacket>::empty(),
        },
{
    match m.first_key_value() {
        Some((k, _)) => Some(*k),
        None => None,
    }
}

/// `BTreeMap::last_key_value`, keeping only the key. Its documentation says it returns the
/// entry with the maximum key, and `None` for an empty map; this is what the contract claims.
#[verifier::external_body]
fn last_key(m: &BTreeMap<u32, BufferedAudioPacket>) -> (r: Option<u32>)
    ensures
        match r {
            Some(k) => is_latest_key(m@, k),
            None => m@ == Map::<u32, BufferedAudioPacket>::empty(),
        },
{
    match m.last_key_value() {
        Some((k, _)) => Some(*k),
        None => None,
    }
}

/// Whether `sequence` is older than `reference` on the wrapping sequence ring.
pub fn sequence_is_older(sequence: u32, reference: u32) -> (r: bool)
    ensures
        r == sequence_older(sequence, reference),
{
    let diff = sequence.wrapping_sub(reference);
    assert((diff as i32) < 0 <==> diff >= 0x8000_0000u32) by (bit_vector);
    (diff as i32) < 0
}

impl AudioJitterBuffer {
    /// The buffer's state is well formed (see [`JitterView::wf`]).
    pub open spec fn wf(&self) -> bool {
        self@.wf()
    }

    /// A buffer with the default prefill and capacity.
    pub fn new() -> (b: AudioJitterBuffer)
        ensures
            b.wf(),
            b@ == JitterView::initial(DEFAULT_PREFILL_PACKETS, DEFAULT_MAX_PACKETS),
    {
        Self::with_limits(DEFAULT_PREFILL_PACKETS, DEFAULT_MAX_PACKETS)
    }

    /// A buffer that starts playout once `prefill_packets` packets are buffered and holds at
    /// most `max_packets`.
    pub fn with_limits(prefill_packets: usize, max_packets: usize) -> (b: AudioJitterBuffer)
        requires
            prefill_packets > 0,
            max_packets >= prefill_packets,
        ensures
            b.wf(),
            b@ == JitterView::initial(prefill_packets, max_packets),
    {
        let b = AudioJitterBuffer {
            packets: BTreeMap::new(),
            expected: None,
            started: false,
            prefill_packets,
            max_packets,
            consecutive_missing: 0,
            stats: JitterStats {
                accepted: 0,
                duplicates: 0,
                late: 0,
                overflow_drops: 0,
                missing: 0,
                resets: 0,
            },
        };
        assert(b@.packets =~= Map::<u32, BufferedAudioPacket>::empty());
        b
    }

    /// Offers a packet to the buffer.
    pub fn insert(&mut self, packet: BufferedAudioPacket)
        requires
            old(self).wf(),
            old(self)@.insert_fits(packet.sequence),
        ensures
            final(self).wf(),
            final(self)@ == old(self)@.after_insert(packet),
    {
        if let Some(expected) = self.expected {
            if sequence_is_older(packet.sequence, expected) {
                self.stats.late = self.stats.late + 1;
                return;
            }
        }
        if self.packets.contains_key(&packet.sequence) {
            self.stats.duplicates = self.stats.duplicates + 1;
            return;
        }
        if self.packets.len() >= self.max_packets {
            let latest = last_key(&self.packets).unwrap();
            assert(latest == latest_key(self.packets@));
            if sequence_is_older(packet.sequence, latest) {
                self.packets.remove(&latest);
            } else {
                self.stats.overflow_drops = self.stats.overflow_drops + 1;
                return;
            }
            self.stats.overflow_drops = self.stats.overflow_drops + 1;
        }
        self.packets.insert(packet.sequence, packet);
        self.stats.accepted = self.stats.accepted + 1;
    }

    /// Hands out the item for the next audio frame.
    pub fn pop(&mut self) -> (item: PlayoutItem)
        requires
            old(self).wf(),
            old(self)@.pop_fits(),
        ensures
            final(self).wf(),
            final(self)@ == old(self)@.after_pop(),
            item@ == old(self)@.pop_item(),
    {
        if !self.started {
            if self.packets.len() < self.prefill_packets {
                return PlayoutItem::Waiting;
            }
            let first = first_key(&self.packets);
            assert(first == Some(earliest_key(self.packets@)));
            self.expected = first;
            self.started = true;
        }
        let expected = self.expected.unwrap();
        self.expected = Some(expected.wrapping_add(1));
        if let Some(packet) = self.packets.remove(&expected) {
            self.consecutive_missing = 0;
            return PlayoutItem::Packet(packet);
        }
        self.consecutive_missing = self.consecutive_missing + 1;
        self.stats.missing = self.stats.missing + 1;
        if self.consecutive_missing > MAX_CONSECUTIVE_MISSING && self.packets.len() == 0 {
            self.reset_state();
            self.stats.resets = self.stats.resets + 1;
            return PlayoutItem::Reset;
        }
        let next = expected.wrapping_add(1);
        let next_payload = match self.packets.get(&next) {
            Some(packet) => {
                let payload = packet.payload.clone();
                assert(payload@ =~= packet.payload@);
                Some(payload)
            },
            None => None,
        };
        assert(self@.packets =~= old(self)@.packets);
        PlayoutItem::Missing { sequence: expected, next_payload }
    }

    /// Drops all buffered packets and the playout position, and counts a reset.
    pub fn reset(&mut self)
        requires
            old(self).wf(),
            old(self)@.stats.resets < u64::MAX,
        ensures
            final(self).wf(),
            final(self)@ == old(self)@.after_reset(),
    {
        self.reset_state();
        self.stats.resets = self.stats.resets + 1;
    }

    /// The counters so far.
    pub fn stats(&self) -> (s: JitterStats)
        ensures
            s == self@.stats,
    {
        self.stats
    }

    fn reset_state(&mut self)
        requires
            old(self).wf(),
        ensures
            final(self).wf(),
            final(self)@ == old(self)@.cleared(),
    {
        self.packets.clear();
        self.expected = None;
        self.started = false;
        self.consecutive_missing = 0;
    }
}

/// The forward distance from `b` to `a` on the 32-bit sequence ring.
pub open spec fn ring_distance(a: u32, b: u32) -> int {
    if a >= b {
        a - b
    } else {
        a - b + 0x1_0000_0000
    }
}

/// Sequence age on the wrapping ring: no sequence is older than itself; of two distinct
/// sequences that are not exactly half the ring apart, exactly one is older than the other;
/// and each sequence is older than the one after it, across the wrap too.
pub proof fn lemma_sequence_order(a: u32, b: u32)
    ensures
        !sequence_older(a, a),
        a != b && ring_distance(a, b) != 0x8000_0000 ==> (sequence_older(a, b) <==> !sequence_older(
            b,
            a,
        )),
        sequence_older(a, next_sequence(a)),
        !sequence_older(next_sequence(a), a),
{
}

/// Offering the same packet twice changes nothing the second time but a counter: the
/// buffered packets, the playout position and the limits are those after the first offer.
pub proof fn lemma_repeated_insert_is_idempotent(s: JitterView, p: BufferedAudioPacket)
    requires
        s.wf(),
    ensures
        ({
            let once = s.after_insert(p);
            let twice = once.after_insert(p);
            &&& twice.packets == once.packets
            &&& twice.expected == once.expected
            &&& twice.started == once.started
            &&& twice.consecutive_missing == once.consecutive_missing
        }),
{
    let once = s.after_insert(p);
    match s.insert_outcome(p.sequence) {
        InsertOutcome::Rejected => {
            assert(once.packets == s.packets);
        },
        InsertOutcome::Evicted(_) => {
            assert(once.packets.contains_key(p.sequence));
        },
        InsertOutcome::Stored => {
            assert(once.packets.contains_key(p.sequence));
        },
        _ => {},
    }
}

/// Once playout has started, a packet older than the next sequence to play is never buffered.
pub proof fn lemma_late_packet_never_buffered(s: JitterView, p: BufferedAudioPacket)
    requires
        s.wf(),
        s.expected matches Some(e) && sequence_older(p.sequence, e),
        s.insert_fits(p.sequence),
    ensures
        s.after_insert(p).packets == s.packets,
        s.after_insert(p).stats.late == s.stats.late + 1,
{
}

/// Playout walks the sequence numbers one by one: before start, the first item is the
/// buffered packet with the smallest sequence; after start, each item (packet or gap) is for
/// the expected sequence, and unless the buffer resets the expected sequence then moves to
/// the next one, wrapping at the top of the range.
pub proof fn lemma_playout_is_consecutive(s: JitterView)
    requires
        s.wf(),
        !s.pop_waits(),
    ensures
        !s.started ==> s.pop_item() == PlayoutView::Packet(s.packets[earliest_key(s.packets)]),
        s.started ==> s.pop_sequence() == s.expected->Some_0,
        s.pop_item() matches PlayoutView::Packet(p) ==> p.sequence == s.pop_sequence(),
        s.pop_item() matches PlayoutView::Missing { sequence, .. } ==> sequence
            == s.pop_sequence(),
        !s.pop_resets() ==> s.after_pop().expected == Some(next_sequence(s.pop_sequence())),
        !s.pop_resets() ==> s.after_pop().wf(),
{
    if !s.started {
        assert(s.packets.len() > 0);
        assert(s.packets.dom().len() > 0);
        let k = s.packets.dom().choose();
        assert(s.packets.contains_key(k));
        lemma_earliest_key_exists(s.packets);
    }
}

/// A packet that is stored while its sequence is the next one to play is exactly what the next
/// pop hands out, and playout then moves on to the following sequence.
pub proof fn lemma_in_time_packet_is_played(s: JitterView, p: BufferedAudioPacket)
    requires
        s.wf(),
        s.expected == Some(p.sequence),
        s.insert_fits(p.sequence),
        s.insert_outcome(p.sequence) is Stored || s.insert_outcome(p.sequence) is Evicted,
    ensures
        s.after_insert(p).pop_item() == PlayoutView::Packet(p),
        s.after_insert(p).after_pop().expected == Some(next_sequence(p.sequence)),
{
    let t = s.after_insert(p);
    assert(t.packets.contains_key(p.sequence));
}

/// Every counter only grows: `later` has each counter of `earlier` at least.
pub open spec fn stats_grow(earlier: JitterStats, later: JitterStats) -> bool {
    &&& earlier.accepted <= later.accepted
    &&& earlier.duplicates <= later.duplicates
    &&& earlier.late <= later.late
    &&& earlier.overflow_drops <= later.overflow_drops
    &&& earlier.missing <= later.missing
    &&& earlier.resets <= later.resets
}

/// The statistics never go back: inserts and pops only ever raise counters, and each insert
/// raises at least one of them.
pub proof fn lemma_counters_never_decrease(s: JitterView, p: BufferedAudioPacket)
    requires
        s.wf(),
    ensures
        s.insert_fits(p.sequence) ==> stats_grow(s.stats, s.after_insert(p).stats),
        s.insert_fits(p.sequence) ==> s.after_insert(p).stats != s.stats,
        s.pop_fits() ==> stats_grow(s.stats, s.after_pop().stats),
{
}

/// What one pop hands out, in terms of the buffer before and after it.
/// - It waits exactly while playout has not started and fewer than the prefill are buffered.
/// - A handed-out packet is the buffered packet under its own sequence number: the expected
///   one once started, the smallest buffered one at start. It leaves the buffer, playout moves
///   to the next sequence (wrapping), and the count of consecutive gaps goes back to 0.
/// - A gap report is for the expected sequence, which is not buffered. Its payload for FEC is
///   that of the buffered packet with the next sequence (wrapping) if there is one, and none
///   otherwise. The buffer keeps its packets and counts one more consecutive gap.
/// - A reset happens exactly when the expected sequence is missing, the buffer is empty, and
///   this gap makes more than `MAX_CONSECUTIVE_MISSING` consecutive ones; the buffer is then
///   cleared and waits for a new prefill.
pub proof fn lemma_pop_item_laws(s: JitterView)
    requires
        s.wf(),
    ensures
        s.pop_item() is Waiting <==> (!s.started && s.packets.len() < s.prefill_packets),
        s.pop_item() matches PlayoutView::Packet(p) ==> {
            &&& s.packets.contains_key(p.sequence)
            &&& s.packets[p.sequence] == p
            &&& (s.started ==> s.expected == Some(p.sequence))
            &&& s.after_pop().packets == s.packets.remove(p.sequence)
            &&& s.after_pop().started
            &&& s.after_pop().expected == Some(
                if p.sequence == 0xffff_ffff {
                    0u32
                } else {
                    (p.sequence + 1) as u32
                },
            )
            &&& s.after_pop().consecutive_missing == 0
        },
        s.pop_item() matches PlayoutView::Packet(p) ==> (!s.started ==> forall|k: u32|
            s.packets.contains_key(k) ==> p.sequence <= k),
        s.pop_item() matches PlayoutView::Missing { sequence, next_payload } ==> {
            let next: u32 = if sequence == 0xffff_ffff {
                0u32
            } else {
                (sequence + 1) as u32
            };
            &&& s.started
            &&& s.expected == Some(sequence)
            &&& !s.packets.contains_key(sequence)
            &&& next_payload == if s.packets.contains_key(next) {
                Some(s.packets[next].payload@)
            } else {
                None
            }
            &&& s.after_pop().packets == s.packets
            &&& s.after_pop().expected == Some(next)
            &&& s.pop_fits() ==> s.after_pop().consecutive_missing == s.consecutive_missing + 1
        },
        s.pop_item() is Reset <==> (s.started && !s.packets.contains_key(s.expected->Some_0)
            && s.packets.len() == 0 && s.consecutive_missing >= MAX_CONSECUTIVE_MISSING),
        s.pop_item() is Reset ==> s.after_pop().packets.len() == 0 && !s.after_pop().started
            && s.after_pop().consecutive_missing == 0,
{
    if !s.pop_waits() && !s.started {
        lemma_earliest_key_exists(s.packets);
    }
}

/// A finite, non-empty map keyed by sequence numbers has a smallest key.
pub proof fn lemma_earliest_key_exists<V>(m: Map<u32, V>)
    requires
        m.dom().finite(),
        m.len() > 0,
    ensures
        is_earliest_key(m, earliest_key(m)),
    decreases m.len(),
{
    let k = m.dom().choose();
    assert(m.dom().contains(k));
    if m.len() == 1 {
        assert forall|j: u32| m.contains_key(j) implies k <= j by {
            if j != k {
                assert(m.dom().remove(k).contains(j));
                assert(m.dom().remove(k).len() == 0);
            }
        }
        assert(is_earliest_key(m, k));
    } else {
        let rest = m.remove(k);
        assert(rest.dom() =~= m.dom().remove(k));
        lemma_earliest_key_exists(rest);
        let r = earliest_key(rest);
        if k < r {
            assert(is_earliest_key(m, k));
        } else {
            assert(is_earliest_key(m, r));
        }
    }
}

/// After a reset the buffer is empty and waits for a fresh prefill before playing again.
pub proof fn lemma_reset_waits_for_prefill(s: JitterView)
    requires
        s.wf(),
    ensures
        s.cleared().wf(),
        s.cleared().packets.len() == 0,
        s.cleared().pop_waits(),
        s.cleared().pop_item() == PlayoutView::Waiting,
{
}

} // verus!
