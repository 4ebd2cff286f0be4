use rtar::jitter::{AudioJitterBuffer, BufferedAudioPacket, PlayoutItem};
use ruopus::{Application, OpusDecoder, OpusEncoder, Signal};

const SAMPLE_RATE: usize = 48_000;
const CHANNELS: usize = 2;
const FRAME_SAMPLES_PER_CHANNEL: usize = SAMPLE_RATE * 10 / 1_000;
const FRAME_SAMPLES: usize = FRAME_SAMPLES_PER_CHANNEL * CHANNELS;
const MAX_PACKET_BYTES: usize = 400;

/// An encoder with the application's low-latency settings.
fn encoder() -> OpusEncoder {
    let mut inner = OpusEncoder::new(CHANNELS);
    inner.set_application(Application::Audio);
    inner.set_signal(Signal::Auto);
    inner.set_bitrate(Some(128_000));
    inner.set_complexity(5);
    inner.set_vbr(true);
    inner.set_inband_fec(true);
    inner.set_packet_loss_perc(10);
    inner
}

#[test]
fn opus_survives_loss_duplicate_and_reordering() {
    let frame = || {
        (0..FRAME_SAMPLES_PER_CHANNEL)
            .flat_map(|sample| {
                let phase = sample as f32 * 440.0 * std::f32::consts::TAU / SAMPLE_RATE as f32;
                let value = phase.sin() * 0.2;
                [value, value]
            })
            .collect::<Vec<_>>()
    };
    let mut encoder = encoder();
    let packets = (0..4)
        .map(|sequence| BufferedAudioPacket {
            sequence,
            timestamp_us: u64::from(sequence) * 10_000,
            flags: 0,
            payload: encoder.encode_auto(&frame(), MAX_PACKET_BYTES).unwrap(),
        })
        .collect::<Vec<_>>();

    let mut jitter = AudioJitterBuffer::with_limits(2, 8);
    jitter.insert(packets[3].clone());
    jitter.insert(packets[0].clone());
    jitter.insert(packets[2].clone());
    jitter.insert(packets[2].clone());

    let mut decoder = OpusDecoder::new(CHANNELS);
    let mut decoded_frames = Vec::new();
    for _ in 0..4 {
        let decoded = match jitter.pop() {
            PlayoutItem::Packet(packet) => decoder.decode_packet(&packet.payload).unwrap(),
            PlayoutItem::Missing { next_payload, .. } => next_payload
                .and_then(|packet| decoder.decode_fec(&packet, FRAME_SAMPLES_PER_CHANNEL).ok())
                .unwrap_or_else(|| decoder.decode_lost(FRAME_SAMPLES_PER_CHANNEL)),
            other => panic!("unexpected playout item: {other:?}"),
        };
        assert_eq!(decoded.len(), FRAME_SAMPLES);
        assert!(decoded.iter().all(|sample| sample.is_finite()));
        decoded_frames.push(decoded);
    }

    assert_eq!(decoded_frames.len(), 4);
    assert_eq!(jitter.stats().duplicates, 1);
    assert_eq!(jitter.stats().missing, 1);
}
