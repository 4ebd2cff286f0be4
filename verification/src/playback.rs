//! Decisions of the local playback path: when the output callback starts and
//! stops taking audio from the sample queue, and which samples an incoming
//! 16-bit little-endian PCM datagram contributes.
use crate::protocol::word16;
use vstd::prelude::*;

verus! {

/// Queued samples needed before playback starts (5 ms of 48 kHz stereo).
pub const PREBUFFER_THRESHOLD: usize = 480;
/// A datagram is only taken while fewer samples than this are queued: the local PCM queue is
/// limited to 50 ms of 48 kHz stereo.
pub const MAX_QUEUED_SAMPLES: usize = 4800;

/// `n` rounded down to an even number, so that stereo frames are never split.
pub open spec fn even_floor(n: usize) -> usize {
    (n - n % 2) as usize
}

/// What the output callback does for one block.
#[derive(Clone, Copy, Debug, PartialEq, Eq, Structural)]
pub struct PlaybackStep {
    /// Whether playback is running after this block.
    pub playing: bool,
    /// How many samples to take from the queue into the front of the block; the rest of
    /// the block is silence.
    pub read_len: usize,
}

/// The step for a block of `block_len` samples when `available` samples are queued.
pub open spec fn spec_playback_step(is_playing: bool, available: usize, block_len: usize) -> PlaybackStep {
    if !is_playing && available < PREBUFFER_THRESHOLD {
        PlaybackStep { playing: false, read_len: 0 }
    } else if is_playing && available == 0 {
        PlaybackStep { playing: false, read_len: 0 }
    } else {
        PlaybackStep {
            playing: true,
            read_len: even_floor(if available < block_len { available } else { block_len }),
        }
    }
}

/// Decides one output block: stay silent until the prebuffer is reached, stop again when
/// the queue runs dry, and otherwise read as many whole stereo frames as fit.
pub fn playback_step(is_playing: bool, available: usize, block_len: usize) -> (step: PlaybackStep)
    ensures
        step == spec_playback_step(is_playing, available, block_len),
        step.read_len <= available,
        step.read_len <= block_len,
        step.read_len % 2 == 0,
{
    if !is_playing {
        if available < PREBUFFER_THRESHOLD {
            return PlaybackStep { playing: false, read_len: 0 };
        }
    } else if available == 0 {
        return PlaybackStep { playing: false, read_len: 0 };
    }
    let safe_read_count = if available < block_len {
        available
    } else {
        block_len
    };
    PlaybackStep { playing: true, read_len: safe_read_count - (safe_read_count % 2) }
}

/// The `i`-th signed 16-bit little-endian sample of `bytes`.
pub open spec fn pcm_sample(bytes: Seq<u8>, i: int) -> i16 {
    word16(bytes[2 * i + 1], bytes[2 * i]) as i16
}

/// The samples a PCM datagram contributes when `queued` samples are already waiting: every
/// whole 16-bit little-endian sample (a trailing odd byte is ignored), or none at all while
/// the queue is at its limit.
pub fn pcm_datagram_samples(datagram: &[u8], queued: usize) -> (samples: Vec<i16>)
    ensures
        queued >= MAX_QUEUED_SAMPLES ==> samples@.len() == 0,
        queued < MAX_QUEUED_SAMPLES ==> samples@.len() == datagram@.len() / 2,
        forall|i: int| 0 <= i < samples@.len() ==> samples@[i] == pcm_sample(datagram@, i),
{
    let mut samples: Vec<i16> = Vec::new();
    if queued >= MAX_QUEUED_SAMPLES {
        return samples;
    }
    let len = datagram.len();
    let count = len / 2;
    let mut i: usize = 0;
    while i < count
        invariant
            len == datagram@.len(),
            count == len / 2,
            i <= count,
            samples@.len() == i,
            forall|j: int| 0 <= j < i ==> samples@[j] == pcm_sample(datagram@, j),
        decreases count - i,
    {
        let lo = datagram[2 * i];
        let hi = datagram[2 * i + 1];
        let sample = (((hi as u16) << 8u16) | (lo as u16)) as i16;
        samples.push(sample);
        i = i + 1;
    }
    samples
}

/// The output block decision, over all inputs: while stopped with fewer than 480 queued
/// samples the block is silent and playback stays stopped, whatever the block length; while
/// playing with an empty queue playback stops; otherwise playback runs and reads the largest
/// even number of samples that is neither more than are queued nor more than the block holds.
pub proof fn lemma_playback_step_laws(is_playing: bool, available: usize, block_len: usize)
    ensures
        ({
            let step = spec_playback_step(is_playing, available, block_len);
            let limit: int = if available <= block_len {
                available as int
            } else {
                block_len as int
            };
            &&& !is_playing && available < 480 ==> step.playing == false && step.read_len == 0
            &&& is_playing && available == 0 ==> step.playing == false && step.read_len == 0
            &&& (is_playing && available > 0) || (!is_playing && available >= 480) ==> {
                &&& step.playing
                &&& step.read_len % 2 == 0
                &&& step.read_len <= limit
                &&& limit < step.read_len + 2
            }
        }),
{
}

/// Converting a byte pair `lo hi` to a sample reads the unsigned little-endian value
/// `lo + 256 * hi` as a two's-complement 16-bit number.
proof fn lemma_le_sample_value(lo: u8, hi: u8)
    ensures
        (word16(hi, lo) as i16) as int == if lo as int + 256 * hi as int >= 0x8000 {
            lo as int + 256 * hi as int - 0x10000
        } else {
            lo as int + 256 * hi as int
        },
{
    assert(word16(hi, lo) == lo as u16 + 256 * (hi as u16)) by (bit_vector);
    let w = word16(hi, lo);
    assert((w as i16) as int == if w >= 0x8000 {
        w as int - 0x10000
    } else {
        w as int
    }) by (bit_vector);
}

/// Each sample of a PCM datagram is its little-endian byte pair read as a signed 16-bit number:
/// sample `i` is `d[2i] + 256 * d[2i+1]`, less 65536 when that is at least 32768. In particular
/// a pair whose high byte is 0 gives a sample in `0..=255`.
pub proof fn lemma_pcm_sample_value(bytes: Seq<u8>, i: int)
    requires
        0 <= i,
        2 * i + 1 < bytes.len(),
    ensures
        ({
            let v = bytes[2 * i] as int + 256 * bytes[2 * i + 1] as int;
            &&& 0 <= v < 0x10000
            &&& pcm_sample(bytes, i) as int == if v >= 0x8000 {
                v - 0x10000
            } else {
                v
            }
        }),
{
    lemma_le_sample_value(bytes[2 * i], bytes[2 * i + 1]);
}

} // verus!
