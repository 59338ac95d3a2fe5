//! Verified core of an SSH v2 server-side channel multiplexer: wire buffer,
//! binary packet codec, per-channel flow-control state, and the decision
//! logic of the session event loop.
use vstd::prelude::*;

pub mod codec;
pub mod cryptovec;
pub mod encrypted;
pub mod handle;
pub mod msg;
pub mod session;
pub mod sshbuffer;

verus! {

/// Errors of the session core.
#[derive(Clone, Copy, Debug, PartialEq, Eq, Structural)]
pub enum Error {
    /// An operation was attempted on a channel that is absent, unconfirmed,
    /// or already past EOF; or the session is in a state that forbids it.
    Inconsistent,
    /// The peer disconnected (or the session ended) before the reply arrived.
    Disconnect,
    /// A message could not be posted because the receiving side is gone.
    SendError,
    /// An inbound packet is malformed (bad length, framing or padding).
    Protocol,
}

/// Identifier of a channel, assigned by the local side when the channel is
/// opened. Unique within one connection for the channel's lifetime.
#[derive(Clone, Copy, Debug, PartialEq, Eq, Hash, Structural)]
pub struct ChannelId(pub u32);

} // verus!
