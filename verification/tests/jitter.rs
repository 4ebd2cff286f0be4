use rtar::jitter::{
    sequence_is_older, AudioJitterBuffer, BufferedAudioPacket, PlayoutItem, MAX_CONSECUTIVE_MISSING,
};

fn packet(sequence: u32) -> BufferedAudioPacket {
    BufferedAudioPacket {
        sequence,
        timestamp_us: u64::from(sequence) * 10_000,
        flags: 0,
        payload: vec![sequence as u8],
    }
}

#[test]
fn reorders_packets_before_playout() {
    let mut jitter = AudioJitterBuffer::with_limits(3, 8);
    jitter.insert(packet(2));
    jitter.insert(packet(0));
    jitter.insert(packet(1));

    for expected in 0..3 {
        match jitter.pop() {
            PlayoutItem::Packet(packet) => assert_eq!(packet.sequence, expected),
            other => panic!("unexpected playout item: {other:?}"),
        }
    }
}

#[test]
fn reports_loss_and_exposes_next_packet_for_fec() {
    let mut jitter = AudioJitterBuffer::with_limits(2, 8);
    jitter.insert(packet(0));
    jitter.insert(packet(2));

    assert!(matches!(jitter.pop(), PlayoutItem::Packet(_)));
    assert_eq!(
        jitter.pop(),
        PlayoutItem::Missing {
            sequence: 1,
            next_payload: Some(vec![2])
        }
    );
    assert!(matches!(jitter.pop(), PlayoutItem::Packet(_)));
}

#[test]
fn rejects_duplicate_and_late_packets() {
    let mut jitter = AudioJitterBuffer::with_limits(2, 8);
    jitter.insert(packet(0));
    jitter.insert(packet(0));
    jitter.insert(packet(1));
    jitter.pop();
    jitter.insert(packet(0));

    assert_eq!(jitter.stats().duplicates, 1);
    assert_eq!(jitter.stats().late, 1);
}

#[test]
fn keeps_earliest_packets_when_capacity_is_exceeded() {
    let mut jitter = AudioJitterBuffer::with_limits(2, 3);
    jitter.insert(packet(0));
    jitter.insert(packet(2));
    jitter.insert(packet(3));
    jitter.insert(packet(1));

    assert_eq!(jitter.stats().overflow_drops, 1);
    assert!(matches!(jitter.pop(), PlayoutItem::Packet(packet) if packet.sequence == 0));
    assert!(matches!(jitter.pop(), PlayoutItem::Packet(packet) if packet.sequence == 1));
    assert!(matches!(jitter.pop(), PlayoutItem::Packet(packet) if packet.sequence == 2));
}

#[test]
fn resets_after_extended_outage() {
    let mut jitter = AudioJitterBuffer::with_limits(2, 8);
    jitter.insert(packet(0));
    jitter.insert(packet(1));
    jitter.pop();
    jitter.pop();

    for _ in 0..MAX_CONSECUTIVE_MISSING {
        assert!(matches!(jitter.pop(), PlayoutItem::Missing { .. }));
    }
    assert_eq!(jitter.pop(), PlayoutItem::Reset);
    assert_eq!(jitter.stats().resets, 1);
}

#[test]
fn sequence_age_handles_wrap() {
    assert!(sequence_is_older(u32::MAX, 0));
    assert!(!sequence_is_older(0, u32::MAX));
}

#[test]
fn sequence_age_is_irreflexive_and_asymmetric() {
    for s in [0u32, 1, 77, 0x7fff_ffff, 0x8000_0000, u32::MAX] {
        assert!(!sequence_is_older(s, s));
        assert!(sequence_is_older(s, s.wrapping_add(1)));
        assert!(!sequence_is_older(s.wrapping_add(1), s));
    }
    assert!(sequence_is_older(10, 20));
    assert!(!sequence_is_older(20, 10));
    // Exactly half the ring apart, each counts as older than the other.
    assert!(sequence_is_older(0, 0x8000_0000));
    assert!(sequence_is_older(0x8000_0000, 0));
}

#[test]
fn waits_for_prefill_before_playout() {
    let mut jitter = AudioJitterBuffer::new();
    assert_eq!(jitter.pop(), PlayoutItem::Waiting);
    jitter.insert(packet(5));
    assert_eq!(jitter.pop(), PlayoutItem::Waiting);
    jitter.insert(packet(6));
    assert_eq!(jitter.pop(), PlayoutItem::Packet(packet(5)));
    assert_eq!(jitter.pop(), PlayoutItem::Packet(packet(6)));
    assert_eq!(jitter.stats().accepted, 2);
}

#[test]
fn repeated_insert_only_counts_a_duplicate() {
    let mut jitter = AudioJitterBuffer::with_limits(1, 8);
    jitter.insert(packet(3));
    jitter.insert(packet(3));
    assert_eq!(jitter.stats().accepted, 1);
    assert_eq!(jitter.stats().duplicates, 1);
    assert_eq!(jitter.pop(), PlayoutItem::Packet(packet(3)));
    assert_eq!(
        jitter.pop(),
        PlayoutItem::Missing {
            sequence: 4,
            next_payload: None
        }
    );
}

#[test]
fn late_packet_is_never_played() {
    let mut jitter = AudioJitterBuffer::with_limits(1, 8);
    jitter.insert(packet(10));
    assert_eq!(jitter.pop(), PlayoutItem::Packet(packet(10)));
    jitter.insert(packet(9));
    jitter.insert(packet(10));
    assert_eq!(jitter.stats().late, 2);
    assert_eq!(
        jitter.pop(),
        PlayoutItem::Missing {
            sequence: 11,
            next_payload: None
        }
    );
}

#[test]
fn rejects_newer_packet_when_full() {
    let mut jitter = AudioJitterBuffer::with_limits(1, 2);
    jitter.insert(packet(0));
    jitter.insert(packet(1));
    jitter.insert(packet(2));
    assert_eq!(jitter.stats().overflow_drops, 1);
    assert_eq!(jitter.stats().accepted, 2);
    assert_eq!(jitter.pop(), PlayoutItem::Packet(packet(0)));
    assert_eq!(jitter.pop(), PlayoutItem::Packet(packet(1)));
    assert_eq!(
        jitter.pop(),
        PlayoutItem::Missing {
            sequence: 2,
            next_payload: None
        }
    );
}

#[test]
fn evicts_the_largest_buffered_sequence() {
    let mut jitter = AudioJitterBuffer::with_limits(1, 2);
    jitter.insert(packet(4));
    jitter.insert(packet(9));
    jitter.insert(packet(6));
    assert_eq!(jitter.stats().overflow_drops, 1);
    assert_eq!(jitter.stats().accepted, 3);
    assert_eq!(jitter.pop(), PlayoutItem::Packet(packet(4)));
    assert_eq!(
        jitter.pop(),
        PlayoutItem::Missing {
            sequence: 5,
            next_payload: Some(vec![6])
        }
    );
    assert_eq!(jitter.pop(), PlayoutItem::Packet(packet(6)));
    assert_eq!(
        jitter.pop(),
        PlayoutItem::Missing {
            sequence: 7,
            next_payload: None
        }
    );
}

#[test]
fn playout_wraps_past_the_top_sequence() {
    let mut jitter = AudioJitterBuffer::with_limits(1, 8);
    jitter.insert(packet(u32::MAX));
    assert_eq!(jitter.pop(), PlayoutItem::Packet(packet(u32::MAX)));
    jitter.insert(packet(0));
    assert_eq!(jitter.pop(), PlayoutItem::Packet(packet(0)));
}

#[test]
fn reset_clears_and_waits_again() {
    let mut jitter = AudioJitterBuffer::with_limits(2, 8);
    jitter.insert(packet(0));
    jitter.insert(packet(1));
    jitter.insert(packet(2));
    assert_eq!(jitter.pop(), PlayoutItem::Packet(packet(0)));
    jitter.reset();
    assert_eq!(jitter.stats().resets, 1);
    assert_eq!(jitter.pop(), PlayoutItem::Waiting);
    // After a reset, an old sequence is no longer late.
    jitter.insert(packet(0));
    jitter.insert(packet(1));
    assert_eq!(jitter.stats().late, 0);
    assert_eq!(jitter.pop(), PlayoutItem::Packet(packet(0)));
}

#[test]
fn outage_with_buffered_packet_does_not_reset() {
    let mut jitter = AudioJitterBuffer::with_limits(1, 8);
    jitter.insert(packet(0));
    assert_eq!(jitter.pop(), PlayoutItem::Packet(packet(0)));
    jitter.insert(packet(20));
    for sequence in 1..20 {
        match jitter.pop() {
            PlayoutItem::Missing { sequence: s, .. } => assert_eq!(s, sequence),
            other => panic!("unexpected playout item: {other:?}"),
        }
    }
    assert_eq!(jitter.pop(), PlayoutItem::Packet(packet(20)));
    assert_eq!(jitter.stats().resets, 0);
    assert_eq!(jitter.stats().missing, 19);
}

#[test]
fn in_time_packet_is_played_next() {
    let mut jitter = AudioJitterBuffer::with_limits(1, 8);
    jitter.insert(packet(0));
    assert_eq!(jitter.pop(), PlayoutItem::Packet(packet(0)));
    jitter.insert(packet(1));
    assert_eq!(jitter.pop(), PlayoutItem::Packet(packet(1)));
    assert_eq!(
        jitter.pop(),
        PlayoutItem::Missing {
            sequence: 2,
            next_payload: None
        }
    );
    jitter.insert(packet(3));
    assert_eq!(jitter.pop(), PlayoutItem::Packet(packet(3)));
}

#[test]
fn stats_count_every_event_of_a_run() {
    let mut jitter = AudioJitterBuffer::with_limits(2, 3);
    jitter.insert(packet(0)); // accepted
    jitter.insert(packet(0)); // duplicate
    jitter.insert(packet(4)); // accepted
    jitter.insert(packet(5)); // accepted, buffer now full
    jitter.insert(packet(6)); // overflow drop
    jitter.insert(packet(2)); // accepted, evicts 5 (overflow drop)
    assert_eq!(jitter.pop(), PlayoutItem::Packet(packet(0)));
    jitter.insert(packet(0)); // late
    assert!(matches!(jitter.pop(), PlayoutItem::Missing { sequence: 1, .. })); // missing
    assert_eq!(jitter.pop(), PlayoutItem::Packet(packet(2)));
    jitter.reset(); // reset
    let stats = jitter.stats();
    assert_eq!(stats.accepted, 4);
    assert_eq!(stats.duplicates, 1);
    assert_eq!(stats.late, 1);
    assert_eq!(stats.overflow_drops, 2);
    assert_eq!(stats.missing, 1);
    assert_eq!(stats.resets, 1);
}

#[test]
fn pops_without_inserts_play_at_most_what_is_buffered() {
    let mut jitter = AudioJitterBuffer::with_limits(1, 3);
    jitter.insert(packet(0));
    jitter.insert(packet(1));
    jitter.insert(packet(2));
    let mut played = 0;
    for _ in 0..20 {
        if let PlayoutItem::Packet(_) = jitter.pop() {
            played += 1;
        }
    }
    assert_eq!(played, 3);
}
