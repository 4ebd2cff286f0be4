use rtar::discovery::{is_discovery_pong, DISCOVERY_PING, DISCOVERY_PONG};
use rtar::playback::{
    pcm_datagram_samples, playback_step, PlaybackStep, MAX_QUEUED_SAMPLES, PREBUFFER_THRESHOLD,
};

#[test]
fn stays_silent_until_prebuffer() {
    assert_eq!(
        playback_step(false, PREBUFFER_THRESHOLD - 1, 1024),
        PlaybackStep { playing: false, read_len: 0 }
    );
    assert_eq!(
        playback_step(false, PREBUFFER_THRESHOLD, 1024),
        PlaybackStep { playing: true, read_len: 480 }
    );
}

#[test]
fn stops_when_queue_runs_dry() {
    assert_eq!(
        playback_step(true, 0, 512),
        PlaybackStep { playing: false, read_len: 0 }
    );
    // While playing, a small queue is still drained.
    assert_eq!(
        playback_step(true, 3, 512),
        PlaybackStep { playing: true, read_len: 2 }
    );
}

#[test]
fn reads_whole_frames_up_to_block() {
    assert_eq!(
        playback_step(true, 5000, 1023),
        PlaybackStep { playing: true, read_len: 1022 }
    );
    assert_eq!(
        playback_step(true, 701, 1024),
        PlaybackStep { playing: true, read_len: 700 }
    );
}

#[test]
fn decodes_little_endian_samples_and_drops_odd_byte() {
    let samples = pcm_datagram_samples(&[0x34, 0x12, 0x00, 0x80, 0xff, 0xff, 0x07], 0);
    assert_eq!(samples, vec![0x1234, i16::MIN, -1]);
}

#[test]
fn skips_datagram_when_queue_is_full() {
    assert!(pcm_datagram_samples(&[1, 2, 3, 4], MAX_QUEUED_SAMPLES).is_empty());
    assert_eq!(
        pcm_datagram_samples(&[1, 2, 3, 4], MAX_QUEUED_SAMPLES - 1),
        vec![0x0201, 0x0403]
    );
}

#[test]
fn recognises_only_the_pong() {
    assert!(is_discovery_pong(b"RTABC_DISCOVERY_PONG"));
    assert_eq!(&DISCOVERY_PONG, b"RTABC_DISCOVERY_PONG");
    assert_eq!(&DISCOVERY_PING, b"RTABC_DISCOVERY_PING");
    assert!(!is_discovery_pong(b"RTABC_DISCOVERY_PING"));
    assert!(!is_discovery_pong(b"RTABC_DISCOVERY_PONG!"));
    assert!(!is_discovery_pong(b""));
}

#[test]
fn pcm_queue_is_limited_to_50_ms() {
    assert_eq!(MAX_QUEUED_SAMPLES, 4800);
    assert_eq!(pcm_datagram_samples(&[0, 1], 4799), vec![0x0100]);
    assert!(pcm_datagram_samples(&[0, 1], 4800).is_empty());
}
