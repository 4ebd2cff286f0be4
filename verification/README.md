# rtar

The verified core of a low-latency LAN audio receiver.

- `src/protocol.rs`: the versioned media datagram (32-byte big-endian header and payload),
  with exact contracts for encoding, writing and decoding, and proofs that decoding a written
  datagram gives back its header and payload and that writing back a decoded one reproduces it.
- `src/jitter.rs`: the audio jitter buffer (reordering, duplicate and late rejection, bounded
  size, loss reporting with the next payload for FEC, reset after a long outage), specified over
  an abstract state, with proofs of its invariant and of how playout advances.
- `src/jitter_history.rs`: the buffer over whole runs of inserts, pops and resets, with proofs
  that it stays bounded, plays sequences one by one, plays only stored packets, and that its
  statistics count exactly the events of the run.
- `src/playback.rs`, `src/discovery.rs`: the decisions of the output callback, the PCM datagram
  intake and the discovery answer test.
- `app/`: the application around it (audio device, sockets, Opus codec, commands).
