//! Server discovery on the local network: the fixed messages and ports, and the
//! test that recognises the server's answer.
use vstd::prelude::*;

verus! {

/// Port on which the server listens for discovery pings and hole punches.
pub const DISCOVERY_PORT: u16 = 8888;
/// Port on which audio arrives.
pub const AUDIO_PORT: u16 = 5000;
/// Port on which the server takes media commands.
pub const MEDIA_COMMAND_PORT: u16 = 8889;

/// `"RTABC_DISCOVERY_PING"`, broadcast to find the server.
pub const DISCOVERY_PING: [u8; 20] = [
    0x52, 0x54, 0x41, 0x42, 0x43, 0x5f, 0x44, 0x49, 0x53, 0x43, 0x4f, 0x56, 0x45, 0x52, 0x59, 0x5f,
    0x50, 0x49, 0x4e, 0x47,
];

/// `"RTABC_DISCOVERY_PONG"`, the server's answer.
pub const DISCOVERY_PONG: [u8; 20] = [
    0x52, 0x54, 0x41, 0x42, 0x43, 0x5f, 0x44, 0x49, 0x53, 0x43, 0x4f, 0x56, 0x45, 0x52, 0x59, 0x5f,
    0x50, 0x4f, 0x4e, 0x47,
];

/// `"RTABC_AUDIO_HOLE_PUNCH"`, sent from the audio port to open it through the gateway.
pub const AUDIO_HOLE_PUNCH: [u8; 22] = [
    0x52, 0x54, 0x41, 0x42, 0x43, 0x5f, 0x41, 0x55, 0x44, 0x49, 0x4f, 0x5f, 0x48, 0x4f, 0x4c, 0x45,
    0x5f, 0x50, 0x55, 0x4e, 0x43, 0x48,
];

/// Whether a reply is exactly the server's discovery answer.
pub fn is_discovery_pong(reply: &[u8]) -> (r: bool)
    ensures
        r == (reply@ == DISCOVERY_PONG@),
{
    if reply.len() != 20 {
        return false;
    }
    let mut i: usize = 0;
    while i < 20
        invariant
            reply@.len() == 20,
            i <= 20,
            forall|j: int| 0 <= j < i ==> reply@[j] == DISCOVERY_PONG@[j],
        decreases 20 - i,
    {
        if reply[i] != DISCOVERY_PONG[i] {
            return false;
        }
        i = i + 1;
    }
    assert(reply@ =~= DISCOVERY_PONG@);
    true
}

} // verus!
