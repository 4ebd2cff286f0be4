//! Receiver-side core of a low-latency LAN audio link: the versioned media
//! datagram framing, the audio jitter buffer, and the small decisions made by
//! the playback and discovery loops.

pub mod protocol;
pub mod jitter;
pub mod playback;
pub mod discovery;
pub mod jitter_history;
