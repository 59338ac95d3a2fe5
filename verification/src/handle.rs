//! Decision logic of the user-facing channel handles. The handles themselves
//! live with the mailboxes and the async runtime outside this core; each loop
//! iteration hands its event to one of these functions and performs the
//! returned action.
use vstd::prelude::*;

verus! {

use crate::ChannelId;
use crate::msg::ChannelMsg;
use russh_cryptovec::CryptoVec;

/// What to do with one event while awaiting the confirmation of a freshly
/// requested channel.
pub enum ConfirmStep {
    /// The channel is open: build the handle around these parameters.
    Accept { id: ChannelId, max_packet_size: u32, window_size: u32 },
    /// The session dropped its sender before confirming: the open failed
    /// because the peer disconnected.
    Fail,
    /// Some other event arrived first; keep waiting.
    Skip,
}

/// Decides one step of waiting for a channel confirmation: the first `Open`
/// event carries the channel's parameters; a closed queue means the session
/// is gone; everything else is skipped.
pub fn confirmation_step(m: Option<ChannelMsg>) -> (r: ConfirmStep)
    ensures
        match m {
            Some(ChannelMsg::Open { id, max_packet_size, window_size }) => r
                == (ConfirmStep::Accept { id, max_packet_size, window_size }),
            Some(_) => r is Skip,
            None => r is Fail,
        },
{
    match m {
        Some(ChannelMsg::Open { id, max_packet_size, window_size }) => ConfirmStep::Accept {
            id,
            max_packet_size,
            window_size,
        },
        Some(_) => ConfirmStep::Skip,
        None => ConfirmStep::Fail,
    }
}

/// One readiness event of the stream bridge that drives a channel as a plain
/// byte stream.
pub enum StreamEvent {
    /// Bytes the stream user wants written to the channel; `None` when the
    /// stream's write half is gone.
    Outbound(Option<Vec<u8>>),
    /// The next inbound channel event; `None` when the channel is finalized.
    Inbound(Option<ChannelMsg>),
}

/// What the stream bridge does next.
pub enum StreamStep {
    /// Send these bytes as channel data.
    SendData(Vec<u8>),
    /// A zero-length write means the stream signalled EOF: send EOF, then
    /// close, and leave the loop.
    SendEofAndClose,
    /// The write half is gone: close the channel and leave the loop.
    SendClose,
    /// Hand these bytes to the stream's read half.
    ForwardData(CryptoVec),
    /// The peer sent EOF: signal it with a zero-length chunk and leave.
    ForwardEof,
    /// The channel is finalized: leave the loop.
    Stop,
    /// An event the bridge does not care about; keep looping.
    Ignore,
}

/// Decides one step of the stream bridge.
pub fn stream_step(ev: StreamEvent) -> (r: StreamStep)
    ensures
        match ev {
            StreamEvent::Outbound(o) => match o {
                Some(d) => if d@.len() > 0 {
                    r == StreamStep::SendData(d)
                } else {
                    r is SendEofAndClose
                },
                None => r is SendClose,
            },
            StreamEvent::Inbound(m) => match m {
                Some(ChannelMsg::Data { data }) => r == StreamStep::ForwardData(data),
                Some(ChannelMsg::Eof) => r is ForwardEof,
                Some(_) => r is Ignore,
                None => r is Stop,
            },
        },
{
    match ev {
        StreamEvent::Outbound(o) => match o {
            Some(d) => if d.len() > 0 {
                StreamStep::SendData(d)
            } else {
                StreamStep::SendEofAndClose
            },
            None => StreamStep::SendClose,
        },
        StreamEvent::Inbound(m) => match m {
            Some(ChannelMsg::Data { data }) => StreamStep::ForwardData(data),
            Some(ChannelMsg::Eof) => StreamStep::ForwardEof,
            Some(_) => StreamStep::Ignore,
            None => StreamStep::Stop,
        },
    }
}

/// How much of `buffered` bytes a handle may put in its next data packet:
/// bounded by the shared window cell and the channel's packet bound. Zero
/// means the sender must suspend until the window grows.
pub fn tx_chunk_len(window: u32, max_packet: u32, buffered: usize) -> (r: usize)
    ensures
        r == crate::encrypted::min3(buffered as nat, window as nat, max_packet as nat),
        r <= buffered && r <= window && r <= max_packet,
        r == 0 <==> (buffered == 0 || window == 0 || max_packet == 0),
{
    let cap: usize = if (window as usize) < (max_packet as usize) {
        window as usize
    } else {
        max_packet as usize
    };
    if buffered < cap {
        buffered
    } else {
        cap
    }
}

} // verus!
