//! The server session: owns the post-handshake state and the outbound wire
//! buffer, serializes channel requests into packets, seals pending packets,
//! and decides each step of the event loop.
use vstd::prelude::*;

verus! {

use russh_cryptovec::CryptoVec;
use crate::cryptovec::{cv_bytes, CRYPTOVEC_MAX_LEN};
use vstd::utf8::encode_utf8;
use vstd::string::StrSliceExecFns;
use crate::codec::{
    u32_be,
    ssh_string,
    lemma_encode_utf8_len,
    push_ssh_string,
    packet_of,
    wire_of,
    bytes_after,
    wrap_add32,
    lemma_wrap_add32_succ,
    lemma_wrap_add32_zero,
    lemma_wire_of_concat,
    lemma_bytes_after_snoc,
    lemma_pad_props,
    lemma_packet_of_len,
    push_packet,
    MIN_BLOCK,
    MAX_BLOCK,
    MAX_PAYLOAD,
};
use crate::encrypted::{Encrypted, EncryptedState, RekeyState, ChannelParams, queue_view};
use crate::msg;
use crate::sshbuffer::SSHBuffer;
use crate::{ChannelId, Error};

broadcast use vstd::std_specs::hash::group_hash_axioms;

/// Rekey thresholds: a rekey is initiated once this many bytes have been
/// sealed since the last key exchange. (The companion time limit is enforced
/// by the loop runner, which owns the clock.)
#[derive(Clone, Copy, Debug, PartialEq, Eq, Structural)]
pub struct Limits {
    pub rekey_write_limit: usize,
}

/// The configuration the session core consumes.
#[derive(Clone, Copy, Debug, PartialEq, Eq, Structural)]
pub struct Config {
    /// Window granted to the peer on each channel this side opens or accepts.
    pub window_size: u32,
    /// Maximum packet size granted to the peer.
    pub maximum_packet_size: u32,
    pub limits: Limits,
}

/// Reason code of a DISCONNECT packet.
#[derive(Clone, Copy, Debug, PartialEq, Eq, Structural)]
pub enum Disconnect {
    HostNotAllowedToConnect,
    ProtocolError,
    KeyExchangeFailed,
    Reserved,
    MacError,
    CompressionError,
    ServiceNotAvailable,
    ProtocolVersionNotSupported,
    HostKeyNotVerifiable,
    ConnectionLost,
    ByApplication,
    TooManyConnections,
    AuthCancelledByUser,
    NoMoreAuthMethodsAvailable,
    IllegalUserName,
}

impl Disconnect {
    pub open spec fn spec_code(self) -> u32 {
        match self {
            Disconnect::HostNotAllowedToConnect => 1u32,
            Disconnect::ProtocolError => 2u32,
            Disconnect::KeyExchangeFailed => 3u32,
            Disconnect::Reserved => 4u32,
            Disconnect::MacError => 5u32,
            Disconnect::CompressionError => 6u32,
            Disconnect::ServiceNotAvailable => 7u32,
            Disconnect::ProtocolVersionNotSupported => 8u32,
            Disconnect::HostKeyNotVerifiable => 9u32,
            Disconnect::ConnectionLost => 10u32,
            Disconnect::ByApplication => 11u32,
            Disconnect::TooManyConnections => 12u32,
            Disconnect::AuthCancelledByUser => 13u32,
            Disconnect::NoMoreAuthMethodsAvailable => 14u32,
            Disconnect::IllegalUserName => 15u32,
        }
    }

    pub fn code(&self) -> (r: u32)
        ensures
            r == self.spec_code(),
    {
        match self {
            Disconnect::HostNotAllowedToConnect => 1,
            Disconnect::ProtocolError => 2,
            Disconnect::KeyExchangeFailed => 3,
            Disconnect::Reserved => 4,
            Disconnect::MacError => 5,
            Disconnect::CompressionError => 6,
            Disconnect::ServiceNotAvailable => 7,
            Disconnect::ProtocolVersionNotSupported => 8,
            Disconnect::HostKeyNotVerifiable => 9,
            Disconnect::ConnectionLost => 10,
            Disconnect::ByApplication => 11,
            Disconnect::TooManyConnections => 12,
            Disconnect::AuthCancelledByUser => 13,
            Disconnect::NoMoreAuthMethodsAvailable => 14,
            Disconnect::IllegalUserName => 15,
        }
    }
}

/// A connected server session: all protocol state of one client connection.
pub struct Session {
    pub session_id: usize,
    pub config: Config,
    /// Window size this side replenishes the peer's data credit towards.
    pub target_window_size: u32,
    /// Post-handshake state; the surrounding key-exchange machinery, outside
    /// this core, establishes it.
    pub encrypted: Option<Encrypted>,
    /// The outbound wire: sealed packets waiting to be written out.
    pub write_buffer: SSHBuffer,
    /// The sealing cipher's block granularity.
    pub block_size: usize,
    /// A global request from the peer awaits a reply.
    pub wants_reply: bool,
    pub disconnected: bool,
}

impl Session {
    pub open spec fn wf(self) -> bool {
        &&& MIN_BLOCK <= self.block_size <= MAX_BLOCK
        &&& match self.encrypted {
            Some(e) => e.wf(),
            None => true,
        }
    }

    /// The payloads queued for sealing.
    pub open spec fn pending_payloads(self) -> Seq<Seq<u8>> {
        match self.encrypted {
            Some(e) => e.write_payloads(),
            None => Seq::empty(),
        }
    }

    /// The channel table.
    pub open spec fn table(self) -> Map<u32, ChannelParams>
        recommends
            self.encrypted is Some,
    {
        self.encrypted->Some_0.channels@
    }

    /// A rekey is in progress (or the connection has no keys yet): user
    /// traffic is quiescent.
    pub open spec fn spec_rekeying(self) -> bool {
        match self.encrypted {
            Some(e) => e.rekey is Some,
            None => true,
        }
    }

    /// Everything except the encrypted sub-state is unchanged.
    pub open spec fn same_meta(self, other: Session) -> bool {
        &&& other.session_id == self.session_id
        &&& other.config == self.config
        &&& other.target_window_size == self.target_window_size
        &&& other.write_buffer == self.write_buffer
        &&& other.block_size == self.block_size
        &&& other.wants_reply == self.wants_reply
        &&& other.disconnected == self.disconnected
    }

    /// A fresh, authenticated session around an empty channel table.
    pub fn new(session_id: usize, config: Config, block_size: usize) -> (r: Session)
        requires
            MIN_BLOCK <= block_size <= MAX_BLOCK,
        ensures
            r.wf(),
            r.session_id == session_id,
            r.config == config,
            r.target_window_size == config.window_size,
            r.encrypted is Some,
            r.encrypted->Some_0.state == EncryptedState::Authenticated,
            r.table() == Map::<u32, ChannelParams>::empty(),
            r.pending_payloads() == Seq::<Seq<u8>>::empty(),
            !r.spec_rekeying(),
            cv_bytes(r.write_buffer.buffer) == Seq::<u8>::empty(),
            r.write_buffer.seqn == 0,
            r.write_buffer.bytes == 0,
            r.block_size == block_size,
            !r.wants_reply,
            !r.disconnected,
    {
        let mut enc = Encrypted::new();
        enc.state = EncryptedState::Authenticated;
        Session {
            session_id,
            config,
            target_window_size: config.window_size,
            encrypted: Some(enc),
            write_buffer: SSHBuffer::new(),
            block_size,
            wants_reply: false,
            disconnected: false,
        }
    }

    /// Application-unique session id, for identifying the session across
    /// calls.
    pub fn id(&self) -> (r: usize)
        ensures
            r == self.session_id,
    {
        self.session_id
    }

    /// The configuration of this session.
    pub fn config(&self) -> (r: &Config)
        ensures
            *r == self.config,
    {
        &self.config
    }

    pub fn is_rekeying(&self) -> (r: bool)
        ensures
            r == self.spec_rekeying(),
    {
        match &self.encrypted {
            Some(enc) => enc.rekey.is_some(),
            None => true,
        }
    }

    /// The most this session may put in one data packet on the channel right
    /// now: the smaller of the remaining window and the packet bound.
    pub fn writable_packet_size(&self, channel: &ChannelId) -> (r: u32)
        ensures
            r == if self.encrypted is Some && self.table().contains_key(channel.0) {
                let ch = self.table()[channel.0];
                if ch.sender_window_size <= ch.sender_maximum_packet_size {
                    ch.sender_window_size as int
                } else {
                    ch.sender_maximum_packet_size as int
                }
            } else {
                0
            },
    {
        match &self.encrypted {
            Some(enc) => match enc.channels.get(&channel.0) {
                Some(ch) => if ch.sender_window_size <= ch.sender_maximum_packet_size {
                    ch.sender_window_size
                } else {
                    ch.sender_maximum_packet_size
                },
                None => 0,
            },
            None => 0,
        }
    }

    pub fn window_size(&self, channel: &ChannelId) -> (r: u32)
        ensures
            r == if self.encrypted is Some && self.table().contains_key(channel.0) {
                self.table()[channel.0].sender_window_size as int
            } else {
                0
            },
    {
        match &self.encrypted {
            Some(enc) => match enc.channels.get(&channel.0) {
                Some(ch) => ch.sender_window_size,
                None => 0,
            },
            None => 0,
        }
    }

    pub fn max_packet_size(&self, channel: &ChannelId) -> (r: u32)
        ensures
            r == if self.encrypted is Some && self.table().contains_key(channel.0) {
                self.table()[channel.0].sender_maximum_packet_size as int
            } else {
                0
            },
    {
        match &self.encrypted {
            Some(enc) => match enc.channels.get(&channel.0) {
                Some(ch) => ch.sender_maximum_packet_size,
                None => 0,
            },
            None => 0,
        }
    }

    pub fn sender_window_size(&self, channel: ChannelId) -> (r: usize)
        ensures
            r == if self.encrypted is Some && self.table().contains_key(channel.0) {
                self.table()[channel.0].sender_window_size as int
            } else {
                0
            },
    {
        match &self.encrypted {
            Some(enc) => enc.sender_window_size(channel),
            None => 0,
        }
    }

    pub fn has_pending_data(&self, channel: ChannelId) -> (r: bool)
        ensures
            r == (self.encrypted is Some && self.table().contains_key(channel.0)
                && self.table()[channel.0].pending_data@.len() > 0),
    {
        match &self.encrypted {
            Some(enc) => enc.has_pending_data(channel),
            None => false,
        }
    }

    /// Retries a channel's queued chunks after a window grant; returns the
    /// number of payload bytes that went out.
    pub fn flush_pending(&mut self, channel: ChannelId) -> (sent: usize)
        requires
            old(self).wf(),
        ensures
            final(self).wf(),
            old(self).same_meta(*final(self)),
            old(self).encrypted is None ==> final(self).encrypted is None && sent == 0,
            old(self).encrypted is Some ==> final(self).encrypted is Some && {
                let e0 = old(self).encrypted->Some_0;
                let e1 = final(self).encrypted->Some_0;
                if e0.channels@.contains_key(channel.0) {
                    let ch0 = e0.channels@[channel.0];
                    let r = crate::encrypted::spec_drain(
                        queue_view(ch0.pending_data@),
                        ch0.sender_window_size as nat,
                        ch0.sender_maximum_packet_size as nat,
                    );
                    e0.drained_to(e1, channel.0, queue_view(ch0.pending_data@)) && sent
                        == crate::encrypted::sum_len(r.0)
                } else {
                    e0.unchanged(e1) && sent == 0
                }
            },
    {
        match &mut self.encrypted {
            Some(enc) => enc.flush_pending(channel),
            None => 0,
        }
    }

    /// Sends data on a channel: queued, then drained as far as the window
    /// and packet bound allow, one CHANNEL_DATA packet per piece.
    pub fn data(&mut self, channel: ChannelId, data: CryptoVec) -> (r: Result<(), Error>)
        requires
            old(self).wf(),
        ensures
            final(self).wf(),
            old(self).same_meta(*final(self)),
            match r {
                Ok(()) => old(self).encrypted is Some && final(self).encrypted is Some && {
                    let e0 = old(self).encrypted->Some_0;
                    let e1 = final(self).encrypted->Some_0;
                    let ch0 = e0.channels@[channel.0];
                    &&& e0.channels@.contains_key(channel.0)
                    &&& ch0.may_send()
                    &&& e0.drained_to(
                        e1,
                        channel.0,
                        queue_view(ch0.pending_data@).push((cv_bytes(data), None)),
                    )
                },
                Err(e) => e == Error::Inconsistent && (match old(self).encrypted {
                    Some(e0) => final(self).encrypted is Some && e0.unchanged(
                        final(self).encrypted->Some_0,
                    ) && !(e0.channels@.contains_key(channel.0)
                        && e0.channels@[channel.0].may_send()),
                    None => final(self).encrypted is None,
                }),
            },
    {
        match &mut self.encrypted {
            Some(enc) => enc.data(channel, data),
            None => Err(Error::Inconsistent),
        }
    }

    /// Sends data on an extended stream (`ext` 1 is standard error).
    pub fn extended_data(&mut self, channel: ChannelId, extended: u32, data: CryptoVec) -> (r:
        Result<(), Error>)
        requires
            old(self).wf(),
        ensures
            final(self).wf(),
            old(self).same_meta(*final(self)),
            match r {
                Ok(()) => old(self).encrypted is Some && final(self).encrypted is Some && {
                    let e0 = old(self).encrypted->Some_0;
                    let e1 = final(self).encrypted->Some_0;
                    let ch0 = e0.channels@[channel.0];
                    &&& e0.channels@.contains_key(channel.0)
                    &&& ch0.may_send()
                    &&& e0.drained_to(
                        e1,
                        channel.0,
                        queue_view(ch0.pending_data@).push((cv_bytes(data), Some(extended))),
                    )
                },
                Err(e) => e == Error::Inconsistent && (match old(self).encrypted {
                    Some(e0) => final(self).encrypted is Some && e0.unchanged(
                        final(self).encrypted->Some_0,
                    ) && !(e0.channels@.contains_key(channel.0)
                        && e0.channels@[channel.0].may_send()),
                    None => final(self).encrypted is None,
                }),
            },
    {
        match &mut self.encrypted {
            Some(enc) => enc.extended_data(channel, extended, data),
            None => Err(Error::Inconsistent),
        }
    }

    /// Whether the wire buffer can take everything `flush` would append:
    /// the executable counterpart of `flush`'s capacity precondition, for
    /// the loop runner to test before each flush.
    pub fn can_flush(&self) -> (r: bool)
        requires
            self.wf(),
        ensures
            r == (cv_bytes(self.write_buffer.buffer).len() + wire_of(
                self.pending_payloads(),
                self.block_size as nat,
            ).len() + 512 <= CRYPTOVEC_MAX_LEN),
    {
        let threshold: usize = CRYPTOVEC_MAX_LEN - 512;
        let base = self.write_buffer.buffer.len();
        let ghost ps = self.pending_payloads();
        let block = self.block_size;
        if base > threshold {
            return false;
        }
        let mut budget: usize = threshold - base;
        match &self.encrypted {
            Some(enc) => {
                let n = enc.write.len();
                let mut i: usize = 0;
                proof {
                    assert(ps.take(0) =~= Seq::<Seq<u8>>::empty());
                }
                while i < n
                    invariant
                        MIN_BLOCK <= block <= MAX_BLOCK,
                        i <= n,
                        n == enc.write.len(),
                        enc.wf(),
                        ps == enc.write_payloads(),
                        ps == self.pending_payloads(),
                        block == self.block_size,
                        base == cv_bytes(self.write_buffer.buffer).len(),
                        base <= threshold,
                        threshold == CRYPTOVEC_MAX_LEN - 512,
                        budget == threshold - base - wire_of(ps.take(i as int), block as nat).len(),
                    decreases n - i,
                {
                    let ghost psi = ps[i as int];
                    proof {
                        assert(crate::encrypted::payload_views(enc.write@)[i as int]
                            == enc.write@[i as int]@);
                        lemma_packet_of_len(psi, block as nat);
                        assert(ps.take(i as int).push(psi) =~= ps.take(i as int + 1));
                        lemma_wire_of_concat(ps.take(i as int), seq![psi], block as nat);
                        assert(seq![psi].drop_first() =~= Seq::<Seq<u8>>::empty());
                        assert(wire_of(Seq::<Seq<u8>>::empty(), block as nat)
                            == Seq::<u8>::empty());
                        assert(wire_of(seq![psi], block as nat) =~= packet_of(psi, block as nat));
                        assert(ps.take(i as int) + seq![psi] =~= ps.take(i as int + 1));
                        assert(wire_of(ps.take(i as int + 1), block as nat).len() == wire_of(
                            ps.take(i as int),
                            block as nat,
                        ).len() + packet_of(psi, block as nat).len());
                    }
                    let pl = enc.write[i].len();
                    let need = 5 + pl + crate::codec::compute_padding(pl, block);
                    proof {
                        assert(need == packet_of(psi, block as nat).len());
                    }
                    if need > budget {
                        proof {
                            assert(ps =~= ps.take(i as int + 1) + ps.skip(i as int + 1));
                            lemma_wire_of_concat(
                                ps.take(i as int + 1),
                                ps.skip(i as int + 1),
                                block as nat,
                            );
                            assert(wire_of(ps, block as nat).len() >= wire_of(
                                ps.take(i as int + 1),
                                block as nat,
                            ).len());
                            assert(wire_of(ps.take(i as int + 1), block as nat).len() == wire_of(
                                ps.take(i as int),
                                block as nat,
                            ).len() + need);
                            assert(base + wire_of(ps.take(i as int), block as nat).len() + budget
                                == threshold);
                            assert(base + wire_of(ps, block as nat).len() + 512
                                > CRYPTOVEC_MAX_LEN);
                        }
                        return false;
                    }
                    budget = budget - need;
                    i += 1;
                }
                proof {
                    assert(ps.take(n as int) =~= ps);
                }
                true
            },
            None => {
                proof {
                    assert(wire_of(ps, block as nat) =~= Seq::<u8>::empty());
                }
                true
            },
        }
    }

    /// Begins a rekey now — the entry point for the read direction's byte
    /// limit, which the loop runner tracks: puts this side's KEXINIT on the
    /// wire and gates user traffic until NEWKEYS. Nothing happens when no
    /// keys are up or a rekey is already running.
    pub fn initiate_rekey(&mut self)
        requires
            old(self).wf(),
            cv_bytes(old(self).write_buffer.buffer).len() + 512 <= CRYPTOVEC_MAX_LEN,
        ensures
            final(self).wf(),
            final(self).session_id == old(self).session_id,
            final(self).config == old(self).config,
            final(self).target_window_size == old(self).target_window_size,
            final(self).block_size == old(self).block_size,
            final(self).wants_reply == old(self).wants_reply,
            final(self).disconnected == old(self).disconnected,
            if old(self).encrypted is Some && old(self).encrypted->Some_0.rekey is None {
                let e0 = old(self).encrypted->Some_0;
                let e1 = final(self).encrypted->Some_0;
                &&& final(self).encrypted is Some
                &&& e1.rekey == Some(RekeyState::KexInitSent)
                &&& e1.channels@ == e0.channels@
                &&& e1.state == e0.state
                &&& e1.last_channel_id == e0.last_channel_id
                &&& e1.write_payloads() == e0.write_payloads()
                &&& cv_bytes(final(self).write_buffer.buffer) == cv_bytes(
                    old(self).write_buffer.buffer,
                ) + packet_of(seq![msg::KEXINIT], old(self).block_size as nat)
                &&& final(self).write_buffer.seqn == crate::codec::seqn_succ(
                    old(self).write_buffer.seqn,
                )
            } else {
                *final(self) == *old(self)
            },
    {
        let enc_opt = self.encrypted.take();
        match enc_opt {
            Some(mut enc) => {
                if enc.rekey.is_none() {
                    let mut kexinit: Vec<u8> = Vec::new();
                    kexinit.push(msg::KEXINIT);
                    proof {
                        assert(kexinit@ =~= seq![msg::KEXINIT]);
                        lemma_pad_props(1, self.block_size as nat);
                        lemma_packet_of_len(seq![msg::KEXINIT], self.block_size as nat);
                    }
                    push_packet(&mut self.write_buffer, kexinit.as_slice(), self.block_size);
                    enc.rekey = Some(RekeyState::KexInitSent);
                }
                self.encrypted = Some(enc);
            },
            None => {},
        }
    }

    /// Seals every queued packet into the wire buffer, and if the byte limit
    /// has been crossed and no rekey is under way, puts a KEXINIT on the wire
    /// and enters the rekey state (gating user traffic until NEWKEYS).
    pub fn flush(&mut self) -> (r: Result<(), Error>)
        requires
            old(self).wf(),
            cv_bytes(old(self).write_buffer.buffer).len() + wire_of(
                old(self).pending_payloads(),
                old(self).block_size as nat,
            ).len() + 512 <= CRYPTOVEC_MAX_LEN,
        ensures
            final(self).wf(),
            r is Ok,
            final(self).session_id == old(self).session_id,
            final(self).config == old(self).config,
            final(self).target_window_size == old(self).target_window_size,
            final(self).block_size == old(self).block_size,
            final(self).wants_reply == old(self).wants_reply,
            final(self).disconnected == old(self).disconnected,
            old(self).encrypted is None ==> *final(self) == *old(self),
            old(self).encrypted is Some ==> final(self).encrypted is Some && {
                let e0 = old(self).encrypted->Some_0;
                let e1 = final(self).encrypted->Some_0;
                let ps = old(self).pending_payloads();
                let block = old(self).block_size as nat;
                let sealed = cv_bytes(old(self).write_buffer.buffer) + wire_of(ps, block);
                let b1 = bytes_after(old(self).write_buffer.bytes as int, ps, block);
                let started = b1 >= old(self).config.limits.rekey_write_limit && e0.rekey
                    is None;
                &&& e1.write_payloads() == Seq::<Seq<u8>>::empty()
                &&& e1.channels@ == e0.channels@
                &&& e1.state == e0.state
                &&& e1.last_channel_id == e0.last_channel_id
                &&& e1.rekey == if started {
                    Some(RekeyState::KexInitSent)
                } else {
                    e0.rekey
                }
                &&& cv_bytes(final(self).write_buffer.buffer) == if started {
                    sealed + packet_of(seq![msg::KEXINIT], block)
                } else {
                    sealed
                }
                &&& final(self).write_buffer.seqn == if started {
                    wrap_add32(old(self).write_buffer.seqn, (ps.len() + 1) as nat)
                } else {
                    wrap_add32(old(self).write_buffer.seqn, ps.len())
                }
                // the running byte counter grows by exactly the bytes sealed
                // (saturating at the machine limit)
                &&& final(self).write_buffer.bytes == if started {
                    crate::codec::sat_add_usize(b1, packet_of(seq![msg::KEXINIT], block).len())
                } else {
                    b1
                }
            },
    {
        let block = self.block_size;
        let ghost ps = self.pending_payloads();
        let ghost wb0 = cv_bytes(self.write_buffer.buffer);
        let ghost s0 = self.write_buffer.seqn;
        let ghost b0 = self.write_buffer.bytes as int;
        let enc_opt = self.encrypted.take();
        match enc_opt {
            Some(mut enc) => {
                let n = enc.write.len();
                let mut i: usize = 0;
                proof {
                    assert(ps.take(0) =~= Seq::<Seq<u8>>::empty());
                    assert(wb0 + wire_of(ps.take(0), block as nat) =~= wb0);
                    lemma_wrap_add32_zero(s0);
                }
                while i < n
                    invariant
                        MIN_BLOCK <= block <= MAX_BLOCK,
                        i <= n,
                        n == enc.write.len(),
                        enc.wf(),
                        ps == enc.write_payloads(),
                        self.session_id == old(self).session_id,
                        self.config == old(self).config,
                        self.target_window_size == old(self).target_window_size,
                        self.block_size == block && block == old(self).block_size,
                        self.wants_reply == old(self).wants_reply,
                        self.disconnected == old(self).disconnected,
                        enc.channels@ == old(self).encrypted->Some_0.channels@,
                        enc.state == old(self).encrypted->Some_0.state,
                        enc.last_channel_id == old(self).encrypted->Some_0.last_channel_id,
                        enc.rekey == old(self).encrypted->Some_0.rekey,
                        cv_bytes(self.write_buffer.buffer) == wb0 + wire_of(
                            ps.take(i as int),
                            block as nat,
                        ),
                        self.write_buffer.seqn == wrap_add32(s0, i as nat),
                        self.write_buffer.bytes == bytes_after(b0, ps.take(i as int), block as nat),
                        self.write_buffer.len == old(self).write_buffer.len,
                        wb0.len() + wire_of(ps, block as nat).len() + 512 <= CRYPTOVEC_MAX_LEN,
                    decreases n - i,
                {
                    let ghost psi = ps[i as int];
                    proof {
                        assert(crate::encrypted::payload_views(enc.write@)[i as int]
                            == enc.write@[i as int]@);
                        assert(ps.take(i as int + 1) =~= ps.take(i as int) + seq![psi]);
                        lemma_wire_of_concat(ps.take(i as int), seq![psi], block as nat);
                        assert(wire_of(Seq::<Seq<u8>>::empty(), block as nat)
                            == Seq::<u8>::empty());
                        assert(seq![psi].drop_first() =~= Seq::<Seq<u8>>::empty());
                        assert(wire_of(seq![psi], block as nat) =~= packet_of(psi, block as nat));
                        assert(ps =~= ps.take(i as int + 1) + ps.skip(i as int + 1));
                        lemma_wire_of_concat(ps.take(i as int + 1), ps.skip(i as int + 1), block as nat);
                        assert(ps.take(i as int) =~= ps.take(i as int + 1).take(i as int));
                        assert(ps.take(i as int).push(psi) =~= ps.take(i as int + 1));
                        lemma_bytes_after_snoc(b0, ps.take(i as int), psi, block as nat);
                        lemma_wrap_add32_succ(s0, i as nat);
                    }
                    let payload = &enc.write[i];
                    push_packet(&mut self.write_buffer, payload.as_slice(), block);
                    i += 1;
                }
                proof {
                    assert(ps.take(n as int) =~= ps);
                }
                enc.write.clear();
                proof {
                    assert(enc.write_payloads() =~= Seq::<Seq<u8>>::empty());
                }
                if self.write_buffer.bytes >= self.config.limits.rekey_write_limit
                    && enc.rekey.is_none() {
                    let mut kexinit: Vec<u8> = Vec::new();
                    kexinit.push(msg::KEXINIT);
                    proof {
                        assert(kexinit@ =~= seq![msg::KEXINIT]);
                        lemma_pad_props(1, block as nat);
                        lemma_packet_of_len(seq![msg::KEXINIT], block as nat);
                    }
                    push_packet(&mut self.write_buffer, kexinit.as_slice(), block);
                    enc.rekey = Some(RekeyState::KexInitSent);
                    proof {
                        lemma_wrap_add32_succ(s0, ps.len());
                    }
                }
                proof {
                    let e0 = old(self).encrypted->Some_0;
                    assert(enc.write@.len() == 0);
                    assert forall|id: u32|
                        enc.channels@.contains_key(id) implies (
                        #[trigger] enc.channels@[id]).wf() by {
                        assert(e0.channels@.contains_key(id));
                        assert(e0.channels@[id].wf());
                    }
                    assert(enc.wf());
                }
                self.encrypted = Some(enc);
                Ok(())
            },
            None => Ok(()),
        }
    }
}


/// The bytes of a string argument on the wire.
pub open spec fn str_bytes(s: Seq<char>) -> Seq<u8> {
    encode_utf8(s)
}

pub open spec fn channel_success_payload(recipient: u32) -> Seq<u8> {
    seq![msg::CHANNEL_SUCCESS] + u32_be(recipient)
}

pub open spec fn channel_failure_payload(recipient: u32) -> Seq<u8> {
    seq![msg::CHANNEL_FAILURE] + u32_be(recipient)
}

pub open spec fn channel_open_failure_payload(
    peer: u32,
    reason: crate::msg::ChannelOpenFailure,
    description: Seq<char>,
    language: Seq<char>,
) -> Seq<u8> {
    seq![msg::CHANNEL_OPEN_FAILURE] + u32_be(peer) + u32_be(reason.spec_code()) + ssh_string(
        str_bytes(description),
    ) + ssh_string(str_bytes(language))
}

pub open spec fn xon_xoff_payload(recipient: u32, client_can_do: bool) -> Seq<u8> {
    seq![msg::CHANNEL_REQUEST] + u32_be(recipient) + ssh_string(str_bytes("xon-xoff"@)) + seq![
        0u8,
        if client_can_do {
            1u8
        } else {
            0u8
        },
    ]
}

pub open spec fn exit_status_payload(recipient: u32, exit_status: u32) -> Seq<u8> {
    seq![msg::CHANNEL_REQUEST] + u32_be(recipient) + ssh_string(str_bytes("exit-status"@))
        + seq![0u8] + u32_be(exit_status)
}

pub open spec fn exit_signal_payload(
    recipient: u32,
    signal: crate::msg::Sig,
    core_dumped: bool,
    error_message: Seq<char>,
    language_tag: Seq<char>,
) -> Seq<u8> {
    seq![msg::CHANNEL_REQUEST] + u32_be(recipient) + ssh_string(str_bytes("exit-signal"@))
        + seq![0u8] + ssh_string(str_bytes(signal.spec_name())) + seq![
        if core_dumped {
            1u8
        } else {
            0u8
        },
    ] + ssh_string(str_bytes(error_message)) + ssh_string(str_bytes(language_tag))
}

pub open spec fn channel_open_session_payload(sender: u32, window: u32, maxp: u32) -> Seq<u8> {
    seq![msg::CHANNEL_OPEN] + ssh_string(str_bytes("session"@)) + u32_be(sender) + u32_be(window)
        + u32_be(maxp)
}

pub open spec fn channel_open_direct_payload(
    sender: u32,
    window: u32,
    maxp: u32,
    host: Seq<char>,
    port: u32,
    originator: Seq<char>,
    originator_port: u32,
) -> Seq<u8> {
    seq![msg::CHANNEL_OPEN] + ssh_string(str_bytes("direct-tcpip"@)) + u32_be(sender) + u32_be(
        window,
    ) + u32_be(maxp) + ssh_string(str_bytes(host)) + u32_be(port) + ssh_string(
        str_bytes(originator),
    ) + u32_be(originator_port)
}

pub open spec fn channel_open_forwarded_payload(
    sender: u32,
    window: u32,
    maxp: u32,
    connected: Seq<char>,
    port: u32,
    originator: Seq<char>,
    originator_port: u32,
) -> Seq<u8> {
    seq![msg::CHANNEL_OPEN] + ssh_string(str_bytes("forwarded-tcpip"@)) + u32_be(sender) + u32_be(
        window,
    ) + u32_be(maxp) + ssh_string(str_bytes(connected)) + u32_be(port) + ssh_string(
        str_bytes(originator),
    ) + u32_be(originator_port)
}

pub open spec fn tcpip_forward_payload(address: Seq<char>, port: u32) -> Seq<u8> {
    seq![msg::GLOBAL_REQUEST] + ssh_string(str_bytes("tcpip-forward"@)) + seq![0u8] + ssh_string(
        str_bytes(address),
    ) + u32_be(port)
}

pub open spec fn cancel_tcpip_forward_payload(address: Seq<char>, port: u32) -> Seq<u8> {
    seq![msg::GLOBAL_REQUEST] + ssh_string(str_bytes("cancel-tcpip-forward"@)) + seq![0u8]
        + ssh_string(str_bytes(address)) + u32_be(port)
}

pub open spec fn disconnect_payload(
    reason: Disconnect,
    description: Seq<char>,
    language_tag: Seq<char>,
) -> Seq<u8> {
    seq![msg::DISCONNECT] + u32_be(reason.spec_code()) + ssh_string(str_bytes(description))
        + ssh_string(str_bytes(language_tag))
}

/// Bound on string arguments of request encoders: keeps every payload under
/// the codec's limit.
pub const MAX_ARG_CHARS: usize = 0x100000;

impl Session {
    /// Nothing observable changed anywhere in the session.
    pub open spec fn unchanged_all(self, other: Session) -> bool {
        &&& self.same_meta(other)
        &&& match (self.encrypted, other.encrypted) {
            (Some(a), Some(b)) => a.unchanged(b),
            (None, None) => true,
            _ => false,
        }
    }

    /// One packet payload was queued, the channel table was updated at `id`,
    /// and everything else stands.
    pub open spec fn pushed_for_channel(
        self,
        other: Session,
        id: u32,
        rec2: ChannelParams,
        payloads: Seq<Seq<u8>>,
    ) -> bool {
        &&& self.encrypted is Some && other.encrypted is Some
        &&& other.table() == self.table().insert(id, rec2)
        &&& other.pending_payloads() == self.pending_payloads() + payloads
        &&& other.encrypted->Some_0.state == self.encrypted->Some_0.state
        &&& other.encrypted->Some_0.last_channel_id == self.encrypted->Some_0.last_channel_id
        &&& other.encrypted->Some_0.rekey == self.encrypted->Some_0.rekey
        &&& self.same_meta(other)
    }

    /// A payload was queued and everything else (table included) stands.
    pub open spec fn pushed_only(self, other: Session, payloads: Seq<Seq<u8>>) -> bool {
        &&& self.encrypted is Some && other.encrypted is Some
        &&& other.table() == self.table()
        &&& other.pending_payloads() == self.pending_payloads() + payloads
        &&& other.encrypted->Some_0.state == self.encrypted->Some_0.state
        &&& other.encrypted->Some_0.last_channel_id == self.encrypted->Some_0.last_channel_id
        &&& other.encrypted->Some_0.rekey == self.encrypted->Some_0.rekey
    }

    /// Sends a "success" reply to a channel request, if the peer asked for a
    /// reply; clears the wants-reply mark.
    pub fn channel_success(&mut self, channel: ChannelId) -> (r: Result<(), Error>)
        requires
            old(self).wf(),
        ensures
            final(self).wf(),
            match r {
                Ok(()) => {
                    let ch0 = old(self).table()[channel.0];
                    &&& old(self).encrypted is Some
                    &&& old(self).table().contains_key(channel.0)
                    &&& ch0.confirmed
                    &&& if ch0.wants_reply {
                        old(self).pushed_for_channel(
                            *final(self),
                            channel.0,
                            ChannelParams { wants_reply: false, ..ch0 },
                            seq![channel_success_payload(ch0.recipient_channel)],
                        )
                    } else {
                        old(self).unchanged_all(*final(self))
                    }
                },
                Err(e) => {
                    &&& e == Error::Inconsistent
                    &&& old(self).unchanged_all(*final(self))
                    &&& !(old(self).encrypted is Some && old(self).table().contains_key(channel.0)
                        && old(self).table()[channel.0].confirmed)
                },
            },
    {
        self.channel_reply(channel, true)
    }

    /// Sends a "failure" reply to a channel request, if the peer asked for a
    /// reply; clears the wants-reply mark.
    pub fn channel_failure(&mut self, channel: ChannelId) -> (r: Result<(), Error>)
        requires
            old(self).wf(),
        ensures
            final(self).wf(),
            match r {
                Ok(()) => {
                    let ch0 = old(self).table()[channel.0];
                    &&& old(self).encrypted is Some
                    &&& old(self).table().contains_key(channel.0)
                    &&& ch0.confirmed
                    &&& if ch0.wants_reply {
                        old(self).pushed_for_channel(
                            *final(self),
                            channel.0,
                            ChannelParams { wants_reply: false, ..ch0 },
                            seq![channel_failure_payload(ch0.recipient_channel)],
                        )
                    } else {
                        old(self).unchanged_all(*final(self))
                    }
                },
                Err(e) => {
                    &&& e == Error::Inconsistent
                    &&& old(self).unchanged_all(*final(self))
                    &&& !(old(self).encrypted is Some && old(self).table().contains_key(channel.0)
                        && old(self).table()[channel.0].confirmed)
                },
            },
    {
        self.channel_reply(channel, false)
    }

    fn channel_reply(&mut self, channel: ChannelId, success: bool) -> (r: Result<(), Error>)
        requires
            old(self).wf(),
        ensures
            final(self).wf(),
            match r {
                Ok(()) => {
                    let ch0 = old(self).table()[channel.0];
                    let payload = if success {
                        channel_success_payload(ch0.recipient_channel)
                    } else {
                        channel_failure_payload(ch0.recipient_channel)
                    };
                    &&& old(self).encrypted is Some
                    &&& old(self).table().contains_key(channel.0)
                    &&& ch0.confirmed
                    &&& if ch0.wants_reply {
                        old(self).pushed_for_channel(
                            *final(self),
                            channel.0,
                            ChannelParams { wants_reply: false, ..ch0 },
                            seq![payload],
                        )
                    } else {
                        old(self).unchanged_all(*final(self))
                    }
                },
                Err(e) => {
                    &&& e == Error::Inconsistent
                    &&& old(self).unchanged_all(*final(self))
                    &&& !(old(self).encrypted is Some && old(self).table().contains_key(channel.0)
                        && old(self).table()[channel.0].confirmed)
                },
            },
    {
        let enc_opt = self.encrypted.take();
        match enc_opt {
            Some(mut enc) => {
                let ghost m0 = enc.channels@;
                let ghost w0 = enc.write_payloads();
                let mut ch = match enc.channels.remove(&channel.0) {
                    Some(c) => c,
                    None => {
                        proof {
                            assert(enc.channels@ =~= m0);
                        }
                        self.encrypted = Some(enc);
                        return Err(Error::Inconsistent);
                    },
                };
                if !ch.confirmed {
                    enc.channels.insert(channel.0, ch);
                    proof {
                        assert(enc.channels@ =~= m0);
                    }
                    self.encrypted = Some(enc);
                    return Err(Error::Inconsistent);
                }
                if ch.wants_reply {
                    ch.wants_reply = false;
                    let mut payload: Vec<u8> = Vec::new();
                    if success {
                        payload.push(msg::CHANNEL_SUCCESS);
                    } else {
                        payload.push(msg::CHANNEL_FAILURE);
                    }
                    crate::codec::push_u32_be_vec(&mut payload, ch.recipient_channel);
                    proof {
                        if success {
                            assert(payload@ =~= channel_success_payload(ch.recipient_channel));
                        } else {
                            assert(payload@ =~= channel_failure_payload(ch.recipient_channel));
                        }
                    }
                    enc.push_packet_payload(payload);
                    enc.channels.insert(channel.0, ch);
                    proof {
                        assert(enc.channels@ =~= m0.insert(channel.0, enc.channels@[channel.0]));
                        assert(enc.write_payloads() =~= w0 + seq![enc.write_payloads().last()]);
                    }
                    self.encrypted = Some(enc);
                    return Ok(());
                }
                enc.channels.insert(channel.0, ch);
                proof {
                    assert(enc.channels@ =~= m0);
                }
                self.encrypted = Some(enc);
                Ok(())
            },
            None => Err(Error::Inconsistent),
        }
    }
}


impl Session {
    /// The peer's id for `channel`, if the channel exists and is confirmed.
    fn confirmed_recipient(&self, channel: ChannelId) -> (r: Result<u32, Error>)
        ensures
            match r {
                Ok(rc) => self.encrypted is Some && self.table().contains_key(channel.0)
                    && self.table()[channel.0].confirmed
                    && rc == self.table()[channel.0].recipient_channel,
                Err(e) => e == Error::Inconsistent && !(self.encrypted is Some
                    && self.table().contains_key(channel.0)
                    && self.table()[channel.0].confirmed),
            },
    {
        match &self.encrypted {
            Some(enc) => match enc.channels.get(&channel.0) {
                Some(ch) => if ch.confirmed {
                    Ok(ch.recipient_channel)
                } else {
                    Err(Error::Inconsistent)
                },
                None => Err(Error::Inconsistent),
            },
            None => Err(Error::Inconsistent),
        }
    }

    /// Queues one payload; the channel table stands.
    fn push_payload(&mut self, payload: Vec<u8>)
        requires
            old(self).wf(),
            old(self).encrypted is Some,
            1 <= payload@.len() <= crate::codec::MAX_PAYLOAD,
        ensures
            final(self).wf(),
            old(self).pushed_only(*final(self), seq![payload@]),
            old(self).same_meta(*final(self)),
    {
        let enc_opt = self.encrypted.take();
        match enc_opt {
            Some(mut enc) => {
                let ghost w0 = enc.write_payloads();
                enc.push_packet_payload(payload);
                proof {
                    assert(enc.write_payloads() =~= w0 + seq![payload@]);
                }
                self.encrypted = Some(enc);
            },
            None => {},
        }
    }

    /// Informs the client whether it may perform flow control on the channel.
    pub fn xon_xoff_request(&mut self, channel: ChannelId, client_can_do: bool) -> (r: Result<
        (),
        Error,
    >)
        requires
            old(self).wf(),
        ensures
            final(self).wf(),
            match r {
                Ok(()) => old(self).encrypted is Some && old(self).table().contains_key(channel.0)
                    && old(self).table()[channel.0].confirmed && old(self).pushed_only(
                    *final(self),
                    seq![
                        xon_xoff_payload(
                            old(self).table()[channel.0].recipient_channel,
                            client_can_do,
                        ),
                    ],
                ) && old(self).same_meta(*final(self)),
                Err(e) => e == Error::Inconsistent && old(self).unchanged_all(*final(self)) && !(
                old(self).encrypted is Some && old(self).table().contains_key(channel.0) && old(self).table()[channel.0].confirmed),
            },
    {
        let rc = match self.confirmed_recipient(channel) {
            Ok(rc) => rc,
            Err(e) => {
                return Err(e);
            },
        };
        let mut payload: Vec<u8> = Vec::new();
        payload.push(msg::CHANNEL_REQUEST);
        crate::codec::push_u32_be_vec(&mut payload, rc);
        proof {
            reveal_strlit("xon-xoff");
            lemma_encode_utf8_len("xon-xoff"@);
        }
        push_ssh_string(&mut payload, "xon-xoff".as_bytes());
        payload.push(0);
        payload.push(if client_can_do { 1 } else { 0 });
        proof {
            assert(payload@ =~= xon_xoff_payload(rc, client_can_do));
        }
        self.push_payload(payload);
        Ok(())
    }

    /// Sends the exit status of the program run on the channel.
    pub fn exit_status_request(&mut self, channel: ChannelId, exit_status: u32) -> (r: Result<
        (),
        Error,
    >)
        requires
            old(self).wf(),
        ensures
            final(self).wf(),
            match r {
                Ok(()) => old(self).encrypted is Some && old(self).table().contains_key(channel.0)
                    && old(self).table()[channel.0].confirmed && old(self).pushed_only(
                    *final(self),
                    seq![
                        exit_status_payload(
                            old(self).table()[channel.0].recipient_channel,
                            exit_status,
                        ),
                    ],
                ) && old(self).same_meta(*final(self)),
                Err(e) => e == Error::Inconsistent && old(self).unchanged_all(*final(self)) && !(
                old(self).encrypted is Some && old(self).table().contains_key(channel.0) && old(self).table()[channel.0].confirmed),
            },
    {
        let rc = match self.confirmed_recipient(channel) {
            Ok(rc) => rc,
            Err(e) => {
                return Err(e);
            },
        };
        let mut payload: Vec<u8> = Vec::new();
        payload.push(msg::CHANNEL_REQUEST);
        crate::codec::push_u32_be_vec(&mut payload, rc);
        proof {
            reveal_strlit("exit-status");
            lemma_encode_utf8_len("exit-status"@);
        }
        push_ssh_string(&mut payload, "exit-status".as_bytes());
        payload.push(0);
        crate::codec::push_u32_be_vec(&mut payload, exit_status);
        proof {
            assert(payload@ =~= exit_status_payload(rc, exit_status));
        }
        self.push_payload(payload);
        Ok(())
    }

    /// If the program was killed by a signal, sends its details to the client.
    pub fn exit_signal_request(
        &mut self,
        channel: ChannelId,
        signal: crate::msg::Sig,
        core_dumped: bool,
        error_message: &str,
        language_tag: &str,
    ) -> (r: Result<(), Error>)
        requires
            old(self).wf(),
            signal.spec_name().len() <= MAX_ARG_CHARS,
            error_message@.len() <= MAX_ARG_CHARS,
            language_tag@.len() <= MAX_ARG_CHARS,
        ensures
            final(self).wf(),
            match r {
                Ok(()) => old(self).encrypted is Some && old(self).table().contains_key(channel.0)
                    && old(self).table()[channel.0].confirmed && old(self).pushed_only(
                    *final(self),
                    seq![
                        exit_signal_payload(
                            old(self).table()[channel.0].recipient_channel,
                            signal,
                            core_dumped,
                            error_message@,
                            language_tag@,
                        ),
                    ],
                ) && old(self).same_meta(*final(self)),
                Err(e) => e == Error::Inconsistent && old(self).unchanged_all(*final(self)) && !(
                old(self).encrypted is Some && old(self).table().contains_key(channel.0) && old(self).table()[channel.0].confirmed),
            },
    {
        let rc = match self.confirmed_recipient(channel) {
            Ok(rc) => rc,
            Err(e) => {
                return Err(e);
            },
        };
        let mut payload: Vec<u8> = Vec::new();
        payload.push(msg::CHANNEL_REQUEST);
        crate::codec::push_u32_be_vec(&mut payload, rc);
        proof {
            reveal_strlit("exit-signal");
            lemma_encode_utf8_len("exit-signal"@);
            lemma_encode_utf8_len(signal.spec_name());
            lemma_encode_utf8_len(error_message@);
            lemma_encode_utf8_len(language_tag@);
        }
        push_ssh_string(&mut payload, "exit-signal".as_bytes());
        payload.push(0);
        let name = signal.name();
        push_ssh_string(&mut payload, name.as_bytes());
        payload.push(if core_dumped { 1 } else { 0 });
        push_ssh_string(&mut payload, error_message.as_bytes());
        push_ssh_string(&mut payload, language_tag.as_bytes());
        proof {
            assert(payload@ =~= exit_signal_payload(
                rc,
                signal,
                core_dumped,
                error_message@,
                language_tag@,
            ));
        }
        self.push_payload(payload);
        Ok(())
    }

    /// Sends a "success" reply to a global request, if one awaits a reply.
    pub fn request_success(&mut self)
        requires
            old(self).wf(),
        ensures
            final(self).wf(),
            if old(self).wants_reply && old(self).encrypted is Some {
                &&& !final(self).wants_reply
                &&& old(self).pushed_only(*final(self), seq![seq![msg::REQUEST_SUCCESS]])
                &&& final(self).write_buffer == old(self).write_buffer
                &&& final(self).disconnected == old(self).disconnected
                &&& final(self).session_id == old(self).session_id
                &&& final(self).config == old(self).config
                &&& final(self).target_window_size == old(self).target_window_size
                &&& final(self).block_size == old(self).block_size
            } else {
                old(self).unchanged_all(*final(self))
            },
    {
        if self.wants_reply {
            match &self.encrypted {
                Some(_) => {
                    self.wants_reply = false;
                    let mut payload: Vec<u8> = Vec::new();
                    payload.push(msg::REQUEST_SUCCESS);
                    proof {
                        assert(payload@ =~= seq![msg::REQUEST_SUCCESS]);
                    }
                    self.push_payload(payload);
                },
                None => {},
            }
        }
    }

    /// Sends a "failure" reply to a global request.
    pub fn request_failure(&mut self)
        requires
            old(self).wf(),
        ensures
            final(self).wf(),
            if old(self).encrypted is Some {
                &&& !final(self).wants_reply
                &&& old(self).pushed_only(*final(self), seq![seq![msg::REQUEST_FAILURE]])
                &&& final(self).write_buffer == old(self).write_buffer
                &&& final(self).disconnected == old(self).disconnected
                &&& final(self).session_id == old(self).session_id
                &&& final(self).config == old(self).config
                &&& final(self).target_window_size == old(self).target_window_size
                &&& final(self).block_size == old(self).block_size
            } else {
                old(self).unchanged_all(*final(self))
            },
    {
        match &self.encrypted {
            Some(_) => {
                self.wants_reply = false;
                let mut payload: Vec<u8> = Vec::new();
                payload.push(msg::REQUEST_FAILURE);
                proof {
                    assert(payload@ =~= seq![msg::REQUEST_FAILURE]);
                }
                self.push_payload(payload);
            },
            None => {},
        }
    }

    /// Refuses a channel the peer asked to open.
    pub fn channel_open_failure(
        &mut self,
        channel: ChannelId,
        reason: crate::msg::ChannelOpenFailure,
        description: &str,
        language: &str,
    ) -> (r: Result<(), Error>)
        requires
            old(self).wf(),
            description@.len() <= MAX_ARG_CHARS,
            language@.len() <= MAX_ARG_CHARS,
        ensures
            final(self).wf(),
            match r {
                Ok(()) => old(self).encrypted is Some && old(self).pushed_only(
                    *final(self),
                    seq![channel_open_failure_payload(channel.0, reason, description@, language@)],
                ) && old(self).same_meta(*final(self)),
                Err(e) => e == Error::Inconsistent && old(self).unchanged_all(*final(self)) && old(self).encrypted is None,
            },
    {
        match &self.encrypted {
            Some(_) => {},
            None => {
                return Err(Error::Inconsistent);
            },
        }
        let mut payload: Vec<u8> = Vec::new();
        payload.push(msg::CHANNEL_OPEN_FAILURE);
        crate::codec::push_u32_be_vec(&mut payload, channel.0);
        let code = reason.code();
        crate::codec::push_u32_be_vec(&mut payload, code);
        proof {
            lemma_encode_utf8_len(description@);
            lemma_encode_utf8_len(language@);
        }
        push_ssh_string(&mut payload, description.as_bytes());
        push_ssh_string(&mut payload, language.as_bytes());
        proof {
            assert(payload@ =~= channel_open_failure_payload(
                channel.0,
                reason,
                description@,
                language@,
            ));
        }
        self.push_payload(payload);
        Ok(())
    }

    /// Sends EOF on a channel.
    pub fn eof(&mut self, channel: ChannelId) -> (r: Result<(), Error>)
        requires
            old(self).wf(),
        ensures
            final(self).wf(),
            old(self).same_meta(*final(self)),
            match r {
                Ok(()) => old(self).encrypted is Some && final(self).encrypted is Some && {
                    let e0 = old(self).encrypted->Some_0;
                    let e1 = final(self).encrypted->Some_0;
                    let ch0 = e0.channels@[channel.0];
                    &&& e0.channels@.contains_key(channel.0)
                    &&& ch0.may_send()
                    &&& e1.channels@ == e0.channels@.insert(
                        channel.0,
                        ChannelParams { eof_sent: true, ..ch0 },
                    )
                    &&& e1.write_payloads() == e0.write_payloads().push(
                        crate::encrypted::byte_packet_payload(
                            msg::CHANNEL_EOF,
                            ch0.recipient_channel,
                        ),
                    )
                    &&& e1.state == e0.state && e1.last_channel_id == e0.last_channel_id
                        && e1.rekey == e0.rekey
                },
                Err(e) => e == Error::Inconsistent && (match old(self).encrypted {
                    Some(e0) => final(self).encrypted is Some && e0.unchanged(
                        final(self).encrypted->Some_0,
                    ) && !(e0.channels@.contains_key(channel.0)
                        && e0.channels@[channel.0].may_send()),
                    None => final(self).encrypted is None,
                }),
            },
    {
        match &mut self.encrypted {
            Some(enc) => enc.eof(channel),
            None => Err(Error::Inconsistent),
        }
    }

    /// Sends CHANNEL_CLOSE; after the peer's close too, the channel is gone.
    pub fn close(&mut self, channel: ChannelId) -> (r: Result<(), Error>)
        requires
            old(self).wf(),
        ensures
            final(self).wf(),
            old(self).same_meta(*final(self)),
            match r {
                Ok(()) => old(self).encrypted is Some && final(self).encrypted is Some && {
                    let e0 = old(self).encrypted->Some_0;
                    let e1 = final(self).encrypted->Some_0;
                    let ch0 = e0.channels@[channel.0];
                    &&& e0.channels@.contains_key(channel.0)
                    &&& !ch0.close_sent
                    &&& e1.write_payloads() == e0.write_payloads().push(
                        crate::encrypted::byte_packet_payload(
                            msg::CHANNEL_CLOSE,
                            ch0.recipient_channel,
                        ),
                    )
                    &&& e1.channels@ == if ch0.close_received {
                        e0.channels@.remove(channel.0)
                    } else {
                        e0.channels@.insert(channel.0, ChannelParams { close_sent: true, ..ch0 })
                    }
                    &&& e1.state == e0.state && e1.last_channel_id == e0.last_channel_id
                        && e1.rekey == e0.rekey
                },
                Err(e) => e == Error::Inconsistent && (match old(self).encrypted {
                    Some(e0) => final(self).encrypted is Some && e0.unchanged(
                        final(self).encrypted->Some_0,
                    ) && !(e0.channels@.contains_key(channel.0)
                        && !e0.channels@[channel.0].close_sent),
                    None => final(self).encrypted is None,
                }),
            },
    {
        match &mut self.encrypted {
            Some(enc) => enc.close(channel),
            None => Err(Error::Inconsistent),
        }
    }

    /// Sends a DISCONNECT packet and marks the session disconnected.
    pub fn disconnect(&mut self, reason: Disconnect, description: &str, language_tag: &str) -> (r:
        Result<(), Error>)
        requires
            old(self).wf(),
            description@.len() <= MAX_ARG_CHARS,
            language_tag@.len() <= MAX_ARG_CHARS,
        ensures
            final(self).wf(),
            final(self).disconnected,
            match r {
                Ok(()) => old(self).encrypted is Some && old(self).pushed_only(
                    *final(self),
                    seq![disconnect_payload(reason, description@, language_tag@)],
                ) && final(self).session_id == old(self).session_id && final(self).config == old(self).config && final(self).write_buffer == old(self).write_buffer && final(self).block_size == old(self).block_size && final(self).wants_reply == old(self).wants_reply && final(self).target_window_size == old(self).target_window_size,
                Err(e) => e == Error::Inconsistent && old(self).encrypted is None && final(self).encrypted is None,
            },
    {
        match &self.encrypted {
            Some(_) => {},
            None => {
                self.disconnected = true;
                return Err(Error::Inconsistent);
            },
        }
        let mut payload: Vec<u8> = Vec::new();
        payload.push(msg::DISCONNECT);
        let code = reason.code();
        crate::codec::push_u32_be_vec(&mut payload, code);
        proof {
            lemma_encode_utf8_len(description@);
            lemma_encode_utf8_len(language_tag@);
        }
        push_ssh_string(&mut payload, description.as_bytes());
        push_ssh_string(&mut payload, language_tag.as_bytes());
        proof {
            assert(payload@ =~= disconnect_payload(reason, description@, language_tag@));
        }
        self.push_payload(payload);
        self.disconnected = true;
        Ok(())
    }
}


impl Session {
    /// Opens a session channel towards the client: allocates a fresh id,
    /// registers an unconfirmed record, and queues the CHANNEL_OPEN packet.
    pub fn channel_open_session(&mut self) -> (r: Result<ChannelId, Error>)
        requires
            old(self).wf(),
        ensures
            final(self).wf(),
            old(self).same_meta(*final(self)),
            match r {
                Ok(id) => {
                    &&& old(self).encrypted is Some
                    &&& (old(self).encrypted->Some_0.state == EncryptedState::Authenticated || old(self).encrypted->Some_0.state == EncryptedState::InitCompression)
                    &&& !old(self).table().contains_key(id.0)
                    &&& final(self).encrypted is Some
                    &&& final(self).table() == old(self).table().insert(
                        id.0,
                        final(self).table()[id.0],
                    )
                    &&& crate::encrypted::is_fresh_channel(
                        final(self).table()[id.0],
                        old(self).config.window_size,
                        old(self).config.maximum_packet_size,
                    )
                    &&& final(self).pending_payloads() == old(self).pending_payloads().push(
                        channel_open_session_payload(
                            id.0,
                            old(self).config.window_size,
                            old(self).config.maximum_packet_size,
                        ),
                    )
                    &&& final(self).encrypted->Some_0.state == old(self).encrypted->Some_0.state
                    &&& final(self).encrypted->Some_0.rekey == old(self).encrypted->Some_0.rekey
                },
                Err(e) => e == Error::Inconsistent && old(self).unchanged_all(*final(self)) && !(
                old(self).encrypted is Some && (old(self).encrypted->Some_0.state
                    == EncryptedState::Authenticated || old(self).encrypted->Some_0.state
                    == EncryptedState::InitCompression) && old(self).table().dom().len()
                    < 0xffff_ffff),
            },
    {
        let enc_opt = self.encrypted.take();
        match enc_opt {
            Some(mut enc) => {
                if !(matches!(enc.state, EncryptedState::Authenticated)
                    || matches!(enc.state, EncryptedState::InitCompression)) {
                    self.encrypted = Some(enc);
                    return Err(Error::Inconsistent);
                }
                if enc.channels.len() >= u32::MAX as usize {
                    self.encrypted = Some(enc);
                    return Err(Error::Inconsistent);
                }
                let ghost w0 = enc.write_payloads();
                let id = enc.new_channel(self.config.window_size, self.config.maximum_packet_size);
                let mut payload: Vec<u8> = Vec::new();
                payload.push(msg::CHANNEL_OPEN);
                proof {
                    reveal_strlit("session");
                    lemma_encode_utf8_len("session"@);
                }
                push_ssh_string(&mut payload, "session".as_bytes());
                crate::codec::push_u32_be_vec(&mut payload, id.0);
                crate::codec::push_u32_be_vec(&mut payload, self.config.window_size);
                crate::codec::push_u32_be_vec(&mut payload, self.config.maximum_packet_size);
                proof {
                    assert(payload@ =~= channel_open_session_payload(
                        id.0,
                        self.config.window_size,
                        self.config.maximum_packet_size,
                    ));
                }
                enc.push_packet_payload(payload);
                proof {
                    assert(enc.write_payloads() =~= w0.push(
                        channel_open_session_payload(
                            id.0,
                            self.config.window_size,
                            self.config.maximum_packet_size,
                        ),
                    ));
                }
                self.encrypted = Some(enc);
                Ok(id)
            },
            None => Err(Error::Inconsistent),
        }
    }

    /// Opens a direct TCP/IP forwarding channel towards the client.
    pub fn channel_open_direct_tcpip(
        &mut self,
        host_to_connect: &str,
        port_to_connect: u32,
        originator_address: &str,
        originator_port: u32,
    ) -> (r: Result<ChannelId, Error>)
        requires
            old(self).wf(),
            host_to_connect@.len() <= MAX_ARG_CHARS,
            originator_address@.len() <= MAX_ARG_CHARS,
        ensures
            final(self).wf(),
            old(self).same_meta(*final(self)),
            match r {
                Ok(id) => {
                    &&& old(self).encrypted is Some
                    &&& (old(self).encrypted->Some_0.state == EncryptedState::Authenticated || old(self).encrypted->Some_0.state == EncryptedState::InitCompression)
                    &&& !old(self).table().contains_key(id.0)
                    &&& final(self).encrypted is Some
                    &&& final(self).table() == old(self).table().insert(
                        id.0,
                        final(self).table()[id.0],
                    )
                    &&& crate::encrypted::is_fresh_channel(
                        final(self).table()[id.0],
                        old(self).config.window_size,
                        old(self).config.maximum_packet_size,
                    )
                    &&& final(self).pending_payloads() == old(self).pending_payloads().push(
                        channel_open_direct_payload(
                            id.0,
                            old(self).config.window_size,
                            old(self).config.maximum_packet_size,
                            host_to_connect@,
                            port_to_connect,
                            originator_address@,
                            originator_port,
                        ),
                    )
                    &&& final(self).encrypted->Some_0.state == old(self).encrypted->Some_0.state
                    &&& final(self).encrypted->Some_0.rekey == old(self).encrypted->Some_0.rekey
                },
                Err(e) => e == Error::Inconsistent && old(self).unchanged_all(*final(self)) && !(
                old(self).encrypted is Some && (old(self).encrypted->Some_0.state
                    == EncryptedState::Authenticated || old(self).encrypted->Some_0.state
                    == EncryptedState::InitCompression) && old(self).table().dom().len()
                    < 0xffff_ffff),
            },
    {
        let enc_opt = self.encrypted.take();
        match enc_opt {
            Some(mut enc) => {
                if !(matches!(enc.state, EncryptedState::Authenticated)
                    || matches!(enc.state, EncryptedState::InitCompression)) {
                    self.encrypted = Some(enc);
                    return Err(Error::Inconsistent);
                }
                if enc.channels.len() >= u32::MAX as usize {
                    self.encrypted = Some(enc);
                    return Err(Error::Inconsistent);
                }
                let ghost w0 = enc.write_payloads();
                let id = enc.new_channel(self.config.window_size, self.config.maximum_packet_size);
                let mut payload: Vec<u8> = Vec::new();
                payload.push(msg::CHANNEL_OPEN);
                proof {
                    reveal_strlit("direct-tcpip");
                    lemma_encode_utf8_len("direct-tcpip"@);
                    lemma_encode_utf8_len(host_to_connect@);
                    lemma_encode_utf8_len(originator_address@);
                }
                push_ssh_string(&mut payload, "direct-tcpip".as_bytes());
                crate::codec::push_u32_be_vec(&mut payload, id.0);
                crate::codec::push_u32_be_vec(&mut payload, self.config.window_size);
                crate::codec::push_u32_be_vec(&mut payload, self.config.maximum_packet_size);
                push_ssh_string(&mut payload, host_to_connect.as_bytes());
                crate::codec::push_u32_be_vec(&mut payload, port_to_connect);
                push_ssh_string(&mut payload, originator_address.as_bytes());
                crate::codec::push_u32_be_vec(&mut payload, originator_port);
                proof {
                    assert(payload@ =~= channel_open_direct_payload(
                        id.0,
                        self.config.window_size,
                        self.config.maximum_packet_size,
                        host_to_connect@,
                        port_to_connect,
                        originator_address@,
                        originator_port,
                    ));
                }
                enc.push_packet_payload(payload);
                proof {
                    assert(enc.write_payloads() =~= w0.push(
                        channel_open_direct_payload(
                            id.0,
                            self.config.window_size,
                            self.config.maximum_packet_size,
                            host_to_connect@,
                            port_to_connect,
                            originator_address@,
                            originator_port,
                        ),
                    ));
                }
                self.encrypted = Some(enc);
                Ok(id)
            },
            None => Err(Error::Inconsistent),
        }
    }

    /// Opens a forwarded TCP/IP channel towards the client, for a connection
    /// that arrived on a forwarded port.
    pub fn channel_open_forwarded_tcpip(
        &mut self,
        connected_address: &str,
        connected_port: u32,
        originator_address: &str,
        originator_port: u32,
    ) -> (r: Result<ChannelId, Error>)
        requires
            old(self).wf(),
            connected_address@.len() <= MAX_ARG_CHARS,
            originator_address@.len() <= MAX_ARG_CHARS,
        ensures
            final(self).wf(),
            old(self).same_meta(*final(self)),
            match r {
                Ok(id) => {
                    &&& old(self).encrypted is Some
                    &&& (old(self).encrypted->Some_0.state == EncryptedState::Authenticated || old(self).encrypted->Some_0.state == EncryptedState::InitCompression)
                    &&& !old(self).table().contains_key(id.0)
                    &&& final(self).encrypted is Some
                    &&& final(self).table() == old(self).table().insert(
                        id.0,
                        final(self).table()[id.0],
                    )
                    &&& crate::encrypted::is_fresh_channel(
                        final(self).table()[id.0],
                        old(self).config.window_size,
                        old(self).config.maximum_packet_size,
                    )
                    &&& final(self).pending_payloads() == old(self).pending_payloads().push(
                        channel_open_forwarded_payload(
                            id.0,
                            old(self).config.window_size,
                            old(self).config.maximum_packet_size,
                            connected_address@,
                            connected_port,
                            originator_address@,
                            originator_port,
                        ),
                    )
                    &&& final(self).encrypted->Some_0.state == old(self).encrypted->Some_0.state
                    &&& final(self).encrypted->Some_0.rekey == old(self).encrypted->Some_0.rekey
                },
                Err(e) => e == Error::Inconsistent && old(self).unchanged_all(*final(self)) && !(
                old(self).encrypted is Some && (old(self).encrypted->Some_0.state
                    == EncryptedState::Authenticated || old(self).encrypted->Some_0.state
                    == EncryptedState::InitCompression) && old(self).table().dom().len()
                    < 0xffff_ffff),
            },
    {
        let enc_opt = self.encrypted.take();
        match enc_opt {
            Some(mut enc) => {
                if !(matches!(enc.state, EncryptedState::Authenticated)
                    || matches!(enc.state, EncryptedState::InitCompression)) {
                    self.encrypted = Some(enc);
                    return Err(Error::Inconsistent);
                }
                if enc.channels.len() >= u32::MAX as usize {
                    self.encrypted = Some(enc);
                    return Err(Error::Inconsistent);
                }
                let ghost w0 = enc.write_payloads();
                let id = enc.new_channel(self.config.window_size, self.config.maximum_packet_size);
                let mut payload: Vec<u8> = Vec::new();
                payload.push(msg::CHANNEL_OPEN);
                proof {
                    reveal_strlit("forwarded-tcpip");
                    lemma_encode_utf8_len("forwarded-tcpip"@);
                    lemma_encode_utf8_len(connected_address@);
                    lemma_encode_utf8_len(originator_address@);
                }
                push_ssh_string(&mut payload, "forwarded-tcpip".as_bytes());
                crate::codec::push_u32_be_vec(&mut payload, id.0);
                crate::codec::push_u32_be_vec(&mut payload, self.config.window_size);
                crate::codec::push_u32_be_vec(&mut payload, self.config.maximum_packet_size);
                push_ssh_string(&mut payload, connected_address.as_bytes());
                crate::codec::push_u32_be_vec(&mut payload, connected_port);
                push_ssh_string(&mut payload, originator_address.as_bytes());
                crate::codec::push_u32_be_vec(&mut payload, originator_port);
                proof {
                    assert(payload@ =~= channel_open_forwarded_payload(
                        id.0,
                        self.config.window_size,
                        self.config.maximum_packet_size,
                        connected_address@,
                        connected_port,
                        originator_address@,
                        originator_port,
                    ));
                }
                enc.push_packet_payload(payload);
                proof {
                    assert(enc.write_payloads() =~= w0.push(
                        channel_open_forwarded_payload(
                            id.0,
                            self.config.window_size,
                            self.config.maximum_packet_size,
                            connected_address@,
                            connected_port,
                            originator_address@,
                            originator_port,
                        ),
                    ));
                }
                self.encrypted = Some(enc);
                Ok(id)
            },
            None => Err(Error::Inconsistent),
        }
    }

    /// Asks the client to forward connections from the given address and port.
    pub fn tcpip_forward(&mut self, address: &str, port: u32) -> (r: Result<(), Error>)
        requires
            old(self).wf(),
            address@.len() <= MAX_ARG_CHARS,
        ensures
            final(self).wf(),
            match r {
                Ok(()) => old(self).encrypted is Some && old(self).pushed_only(
                    *final(self),
                    seq![tcpip_forward_payload(address@, port)],
                ) && old(self).same_meta(*final(self)),
                Err(e) => e == Error::Inconsistent && old(self).encrypted is None && old(self).unchanged_all(*final(self)),
            },
    {
        match &self.encrypted {
            Some(_) => {},
            None => {
                return Err(Error::Inconsistent);
            },
        }
        let mut payload: Vec<u8> = Vec::new();
        payload.push(msg::GLOBAL_REQUEST);
        proof {
            reveal_strlit("tcpip-forward");
            lemma_encode_utf8_len("tcpip-forward"@);
            lemma_encode_utf8_len(address@);
        }
        push_ssh_string(&mut payload, "tcpip-forward".as_bytes());
        payload.push(0);
        push_ssh_string(&mut payload, address.as_bytes());
        crate::codec::push_u32_be_vec(&mut payload, port);
        proof {
            assert(payload@ =~= tcpip_forward_payload(address@, port));
        }
        self.push_payload(payload);
        Ok(())
    }

    /// Cancels a previously requested forwarding.
    pub fn cancel_tcpip_forward(&mut self, address: &str, port: u32) -> (r: Result<(), Error>)
        requires
            old(self).wf(),
            address@.len() <= MAX_ARG_CHARS,
        ensures
            final(self).wf(),
            match r {
                Ok(()) => old(self).encrypted is Some && old(self).pushed_only(
                    *final(self),
                    seq![cancel_tcpip_forward_payload(address@, port)],
                ) && old(self).same_meta(*final(self)),
                Err(e) => e == Error::Inconsistent && old(self).encrypted is None && old(self).unchanged_all(*final(self)),
            },
    {
        match &self.encrypted {
            Some(_) => {},
            None => {
                return Err(Error::Inconsistent);
            },
        }
        let mut payload: Vec<u8> = Vec::new();
        payload.push(msg::GLOBAL_REQUEST);
        proof {
            reveal_strlit("cancel-tcpip-forward");
            lemma_encode_utf8_len("cancel-tcpip-forward"@);
            lemma_encode_utf8_len(address@);
        }
        push_ssh_string(&mut payload, "cancel-tcpip-forward".as_bytes());
        payload.push(0);
        push_ssh_string(&mut payload, address.as_bytes());
        crate::codec::push_u32_be_vec(&mut payload, port);
        proof {
            assert(payload@ =~= cancel_tcpip_forward_payload(address@, port));
        }
        self.push_payload(payload);
        Ok(())
    }
}


pub open spec fn window_adjust_payload(recipient: u32, amount: u32) -> Seq<u8> {
    seq![msg::CHANNEL_WINDOW_ADJUST] + u32_be(recipient) + u32_be(amount)
}

pub open spec fn open_confirmation_payload(peer: u32, local: u32, window: u32, maxp: u32) -> Seq<
    u8,
> {
    seq![msg::CHANNEL_OPEN_CONFIRMATION] + u32_be(peer) + u32_be(local) + u32_be(window) + u32_be(
        maxp,
    )
}

/// One readiness event of the session loop.
#[derive(Debug)]
pub enum LoopEvent {
    /// A decrypted, decompressed inbound packet payload.
    Inbound(Vec<u8>),
    /// The idle timer fired.
    Timeout,
    /// A message arrived on the application mailbox. The loop runner must
    /// keep this arm gated off while a rekey is in progress; a message
    /// handed in regardless is deferred, not processed.
    App(crate::msg::Msg),
}

/// What the loop runner must do after a step.
#[derive(Debug)]
pub enum LoopAction {
    /// Leave the loop: disconnect or timeout.
    Exit,
    /// Nothing to deliver.
    Continue,
    /// The message arrived during a rekey and was not processed; hand it in
    /// again once the rekey is over.
    AppDeferred(crate::msg::Msg),
    /// Post this event to the channel's inbound queue.
    Deliver(ChannelId, crate::msg::ChannelMsg),
    /// Register the pending open-request's reply sender under this id.
    Register(ChannelId),
    /// A packet for the application's handler surface (channel and global
    /// requests and replies).
    Handler(Vec<u8>),
}

/// The 32-bit word at byte position `pos` of a payload, big-endian.
pub open spec fn u32_at(buf: Seq<u8>, pos: int) -> u32 {
    crate::codec::u32_from_be(buf.subrange(pos, pos + 4))
}

/// Outcome of a transport-layer opcode (at most 4, not DISCONNECT): the
/// channel table and wire stand; a KEXINIT draws this side's KEXINIT (if
/// still owed) and NEWKEYS; a NEWKEYS completes the rekey and resets the
/// byte counter.
pub open spec fn transport_outcome(
    pre: Session,
    post: Session,
    r: Result<LoopAction, Error>,
    op: u8,
) -> bool {
    &&& r == Ok::<LoopAction, Error>(LoopAction::Continue)
    &&& post.session_id == pre.session_id
    &&& post.config == pre.config
    &&& post.target_window_size == pre.target_window_size
    &&& post.block_size == pre.block_size
    &&& post.wants_reply == pre.wants_reply
    &&& post.disconnected == pre.disconnected
    &&& post.write_buffer.buffer == pre.write_buffer.buffer
    &&& post.write_buffer.seqn == pre.write_buffer.seqn
    &&& post.write_buffer.len == pre.write_buffer.len
    &&& (pre.encrypted is None ==> post == pre)
    &&& (pre.encrypted is Some ==> post.encrypted is Some && {
        let e0 = pre.encrypted->Some_0;
        let e1 = post.encrypted->Some_0;
        &&& e1.channels@ == e0.channels@
        &&& e1.state == e0.state
        &&& e1.last_channel_id == e0.last_channel_id
        &&& (op == msg::KEXINIT ==> {
            &&& e1.rekey == if e0.rekey == Some(RekeyState::NewKeysSent) {
                e0.rekey
            } else {
                Some(RekeyState::NewKeysSent)
            }
            &&& e1.write_payloads() == (match e0.rekey {
                None => e0.write_payloads().push(seq![msg::KEXINIT]).push(seq![msg::NEWKEYS]),
                Some(RekeyState::KexInitSent) => e0.write_payloads().push(seq![msg::NEWKEYS]),
                Some(RekeyState::NewKeysSent) => e0.write_payloads(),
            })
            &&& post.write_buffer.bytes == pre.write_buffer.bytes
        })
        &&& (op == msg::NEWKEYS ==> {
            &&& e1.rekey is None
            &&& e1.write_payloads() == e0.write_payloads()
            &&& post.write_buffer.bytes == if e0.rekey is Some {
                0
            } else {
                pre.write_buffer.bytes as int
            }
        })
        &&& (op != msg::KEXINIT && op != msg::NEWKEYS ==> e1 == e0 && post.write_buffer.bytes
            == pre.write_buffer.bytes)
    })
}

/// Outcome of one inbound channel-protocol packet (opcode above 4, no rekey
/// in progress): decides, for every opcode, which action comes back, how the
/// state moves, and that malformed packets are protocol errors.
pub open spec fn channel_packet_outcome(
    pre: Session,
    post: Session,
    r: Result<LoopAction, Error>,
    payload: Seq<u8>,
) -> bool {
    let op = payload[0];
    let len = payload.len();
    if op == msg::CHANNEL_OPEN_CONFIRMATION {
        if len >= 17 {
            open_confirmation_outcome(
                pre,
                post,
                r,
                ChannelId(u32_at(payload, 1)),
                u32_at(payload, 5),
                u32_at(payload, 9),
                u32_at(payload, 13),
            )
        } else {
            protocol_reject(pre, post, r)
        }
    } else if op == msg::CHANNEL_OPEN_FAILURE {
        if len >= 9 {
            let code = u32_at(payload, 5);
            if 1 <= code <= 4 {
                open_failure_outcome(pre, post, r, ChannelId(u32_at(payload, 1)), code)
            } else {
                protocol_reject(pre, post, r)
            }
        } else {
            protocol_reject(pre, post, r)
        }
    } else if op == msg::CHANNEL_WINDOW_ADJUST {
        if len >= 9 {
            window_adjust_outcome(
                pre,
                post,
                r,
                ChannelId(u32_at(payload, 1)),
                u32_at(payload, 5),
            )
        } else {
            protocol_reject(pre, post, r)
        }
    } else if op == msg::CHANNEL_DATA {
        let l = u32_at(payload, 5) as int;
        if len >= 9 && 9 + l <= len {
            data_inbound_outcome(
                pre,
                post,
                r,
                ChannelId(u32_at(payload, 1)),
                payload.subrange(9, 9 + l),
                None,
            )
        } else {
            protocol_reject(pre, post, r)
        }
    } else if op == msg::CHANNEL_EXTENDED_DATA {
        let l = u32_at(payload, 9) as int;
        if len >= 13 && 13 + l <= len {
            data_inbound_outcome(
                pre,
                post,
                r,
                ChannelId(u32_at(payload, 1)),
                payload.subrange(13, 13 + l),
                Some(u32_at(payload, 5)),
            )
        } else {
            protocol_reject(pre, post, r)
        }
    } else if op == msg::CHANNEL_EOF {
        if len >= 5 {
            peer_eof_outcome(pre, post, r, ChannelId(u32_at(payload, 1)))
        } else {
            protocol_reject(pre, post, r)
        }
    } else if op == msg::CHANNEL_CLOSE {
        if len >= 5 {
            peer_close_outcome(pre, post, r, ChannelId(u32_at(payload, 1)))
        } else {
            protocol_reject(pre, post, r)
        }
    } else if op == msg::CHANNEL_SUCCESS {
        if len >= 5 {
            r == Ok::<LoopAction, Error>(
                LoopAction::Deliver(ChannelId(u32_at(payload, 1)), crate::msg::ChannelMsg::Success),
            ) && pre.unchanged_all(post)
        } else {
            protocol_reject(pre, post, r)
        }
    } else if op == msg::CHANNEL_FAILURE {
        if len >= 5 {
            r == Ok::<LoopAction, Error>(
                LoopAction::Deliver(ChannelId(u32_at(payload, 1)), crate::msg::ChannelMsg::Failure),
            ) && pre.unchanged_all(post)
        } else {
            protocol_reject(pre, post, r)
        }
    } else if op == msg::GLOBAL_REQUEST {
        let l = u32_at(payload, 1) as int;
        if len >= 5 && 5 + l + 1 <= len {
            &&& (r matches Ok(LoopAction::Handler(p)) && p@ == payload)
            &&& post.wants_reply == (payload[5 + l] != 0)
            &&& pre.enc_unchanged(post)
            &&& post.write_buffer == pre.write_buffer
            &&& post.disconnected == pre.disconnected
        } else {
            protocol_reject(pre, post, r)
        }
    } else if op == msg::CHANNEL_REQUEST {
        let id = u32_at(payload, 1);
        let l = u32_at(payload, 5) as int;
        if len >= 5 && 9 + l + 1 <= len {
            if pre.table().contains_key(id) {
                let e0 = pre.encrypted->Some_0;
                &&& (r matches Ok(LoopAction::Handler(p)) && p@ == payload)
                &&& pre.same_meta(post)
                &&& post.encrypted is Some
                &&& post.encrypted->Some_0.channels@ == e0.channels@.insert(
                    id,
                    ChannelParams { wants_reply: payload[9 + l] != 0, ..e0.channels@[id] },
                )
                &&& post.encrypted->Some_0.write_payloads() == e0.write_payloads()
                &&& post.encrypted->Some_0.state == e0.state
                &&& post.encrypted->Some_0.last_channel_id == e0.last_channel_id
                &&& post.encrypted->Some_0.rekey == e0.rekey
            } else {
                r == Err::<LoopAction, Error>(Error::Inconsistent) && pre.unchanged_all(post)
            }
        } else {
            protocol_reject(pre, post, r)
        }
    } else if op == msg::CHANNEL_OPEN || op == msg::REQUEST_SUCCESS || op == msg::REQUEST_FAILURE {
        (r matches Ok(LoopAction::Handler(p)) && p@ == payload) && pre.unchanged_all(post)
    } else {
        protocol_reject(pre, post, r)
    }
}

/// Outcome of dispatching one inbound packet payload: empty payloads are
/// skipped, DISCONNECT ends the loop, transport opcodes go to the kex
/// sub-state, nothing else is dispatched during a rekey, and otherwise the
/// channel protocol decides.
pub open spec fn inbound_outcome(
    pre: Session,
    post: Session,
    r: Result<LoopAction, Error>,
    payload: Seq<u8>,
) -> bool {
    if payload.len() == 0 {
        r == Ok::<LoopAction, Error>(LoopAction::Continue) && pre.unchanged_all(post)
            && post.disconnected == pre.disconnected
    } else if payload[0] == msg::DISCONNECT {
        r == Ok::<LoopAction, Error>(LoopAction::Exit) && post.disconnected && pre.enc_unchanged(
            post,
        )
    } else if payload[0] <= 4 {
        transport_outcome(pre, post, r, payload[0])
    } else if pre.spec_rekeying() {
        r == Ok::<LoopAction, Error>(LoopAction::Continue) && pre.unchanged_all(post)
    } else {
        channel_packet_outcome(pre, post, r, payload)
    }
}

/// A malformed packet: rejected as a protocol error, nothing changed.
pub open spec fn protocol_reject(pre: Session, post: Session, r: Result<LoopAction, Error>) -> bool {
    r == Err::<LoopAction, Error>(Error::Protocol) && pre.unchanged_all(post)
}

/// Outcome of an inbound WINDOW_ADJUST: the window grows by `amount`
/// (saturating), the pending queue drains against the new credit, and the
/// new size is delivered to the channel.
pub open spec fn window_adjust_outcome(
    pre: Session,
    post: Session,
    r: Result<LoopAction, Error>,
    channel: ChannelId,
    amount: u32,
) -> bool {
    &&& pre.same_meta(post)
    &&& post.encrypted is Some
    &&& match r {
        Ok(act) => {
            let e0 = pre.encrypted->Some_0;
            let e1 = post.encrypted->Some_0;
            let ch0 = e0.channels@[channel.0];
            let nw = if ch0.sender_window_size + amount <= u32::MAX {
                (ch0.sender_window_size + amount) as u32
            } else {
                u32::MAX
            };
            &&& e0.channels@.contains_key(channel.0)
            &&& act == LoopAction::Deliver(
                channel,
                crate::msg::ChannelMsg::WindowAdjusted { new_size: nw },
            )
            &&& crate::encrypted::drain_outcome(
                e0.channels@,
                e0.write_payloads(),
                e1,
                channel.0,
                ChannelParams { sender_window_size: nw, ..ch0 },
            )
            &&& e1.state == e0.state && e1.last_channel_id == e0.last_channel_id && e1.rekey
                == e0.rekey
        },
        Err(e) => e == Error::Inconsistent && pre.enc_unchanged(post) && !pre.table().contains_key(
            channel.0,
        ),
    }
}

/// Outcome of an inbound CHANNEL_OPEN_CONFIRMATION: the unconfirmed record
/// adopts the peer's id, window and (clamped) packet bound, and the open is
/// delivered.
pub open spec fn open_confirmation_outcome(
    pre: Session,
    post: Session,
    r: Result<LoopAction, Error>,
    channel: ChannelId,
    peer: u32,
    window: u32,
    maxp: u32,
) -> bool {
    &&& pre.same_meta(post)
    &&& post.encrypted is Some
    &&& match r {
        Ok(act) => {
            let e0 = pre.encrypted->Some_0;
            let e1 = post.encrypted->Some_0;
            let ch0 = e0.channels@[channel.0];
            let clamped = if maxp <= crate::encrypted::DATA_CHUNK_CAP {
                maxp
            } else {
                crate::encrypted::DATA_CHUNK_CAP
            };
            &&& e0.channels@.contains_key(channel.0)
            &&& !ch0.confirmed
            &&& act == LoopAction::Deliver(
                channel,
                crate::msg::ChannelMsg::Open {
                    id: channel,
                    max_packet_size: clamped,
                    window_size: window,
                },
            )
            &&& e1.channels@ == e0.channels@.insert(
                channel.0,
                ChannelParams {
                    confirmed: true,
                    recipient_channel: peer,
                    sender_window_size: window,
                    sender_maximum_packet_size: clamped,
                    ..ch0
                },
            )
            &&& e1.write_payloads() == e0.write_payloads()
            &&& e1.state == e0.state && e1.last_channel_id == e0.last_channel_id && e1.rekey
                == e0.rekey
        },
        Err(e) => e == Error::Inconsistent && pre.enc_unchanged(post) && !(
        pre.table().contains_key(channel.0) && !pre.table()[channel.0].confirmed),
    }
}

/// Outcome of an inbound CHANNEL_EOF: recorded once and delivered.
pub open spec fn peer_eof_outcome(
    pre: Session,
    post: Session,
    r: Result<LoopAction, Error>,
    channel: ChannelId,
) -> bool {
    &&& pre.same_meta(post)
    &&& post.encrypted is Some
    &&& match r {
        Ok(act) => {
            let e0 = pre.encrypted->Some_0;
            let e1 = post.encrypted->Some_0;
            let ch0 = e0.channels@[channel.0];
            &&& e0.channels@.contains_key(channel.0)
            &&& !ch0.eof_received
            &&& act == LoopAction::Deliver(channel, crate::msg::ChannelMsg::Eof)
            &&& e1.channels@ == e0.channels@.insert(
                channel.0,
                ChannelParams { eof_received: true, ..ch0 },
            )
            &&& e1.write_payloads() == e0.write_payloads()
            &&& e1.state == e0.state && e1.last_channel_id == e0.last_channel_id && e1.rekey
                == e0.rekey
        },
        Err(e) => e == Error::Inconsistent && pre.enc_unchanged(post) && !(
        pre.table().contains_key(channel.0) && !pre.table()[channel.0].eof_received),
    }
}

/// Outcome of an inbound CHANNEL_CLOSE: this side's close goes out if still
/// owed, the id leaves the table (both sides have now closed), the close is
/// delivered.
pub open spec fn peer_close_outcome(
    pre: Session,
    post: Session,
    r: Result<LoopAction, Error>,
    channel: ChannelId,
) -> bool {
    &&& pre.same_meta(post)
    &&& post.encrypted is Some
    &&& match r {
        Ok(act) => {
            let e0 = pre.encrypted->Some_0;
            let e1 = post.encrypted->Some_0;
            let ch0 = e0.channels@[channel.0];
            &&& e0.channels@.contains_key(channel.0)
            &&& act == LoopAction::Deliver(channel, crate::msg::ChannelMsg::Close)
            &&& e1.channels@ == e0.channels@.remove(channel.0)
            &&& e1.write_payloads() == if ch0.close_sent {
                e0.write_payloads()
            } else {
                e0.write_payloads().push(
                    crate::encrypted::byte_packet_payload(
                        msg::CHANNEL_CLOSE,
                        ch0.recipient_channel,
                    ),
                )
            }
            &&& e1.state == e0.state && e1.last_channel_id == e0.last_channel_id && e1.rekey
                == e0.rekey
        },
        Err(e) => e == Error::Inconsistent && pre.enc_unchanged(post) && !pre.table().contains_key(
            channel.0,
        ),
    }
}

/// Outcome of inbound channel data: the peer's window is charged and
/// replenished towards the target (emitting one WINDOW_ADJUST when it is),
/// and exactly the received bytes are delivered on the right stream.
pub open spec fn data_inbound_outcome(
    pre: Session,
    post: Session,
    r: Result<LoopAction, Error>,
    channel: ChannelId,
    bytes: Seq<u8>,
    ext: Option<u32>,
) -> bool {
    &&& pre.same_meta(post)
    &&& post.encrypted is Some
    &&& match r {
        Ok(act) => {
            let e0 = pre.encrypted->Some_0;
            let e1 = post.encrypted->Some_0;
            let ch0 = e0.channels@[channel.0];
            let rw1 = if ch0.recipient_window_size >= bytes.len() {
                (ch0.recipient_window_size - bytes.len()) as u32
            } else {
                0u32
            };
            let grow = rw1 < pre.target_window_size / 2;
            let rw2 = if grow {
                pre.target_window_size
            } else {
                rw1
            };
            &&& e0.channels@.contains_key(channel.0)
            &&& (match act {
                LoopAction::Deliver(c, crate::msg::ChannelMsg::Data { data }) => c == channel
                    && cv_bytes(data) == bytes && ext is None,
                LoopAction::Deliver(c, crate::msg::ChannelMsg::ExtendedData { data, ext: e }) => c
                    == channel && cv_bytes(data) == bytes && ext == Some(e),
                _ => false,
            })
            &&& e1.channels@ == e0.channels@.insert(
                channel.0,
                ChannelParams { recipient_window_size: rw2, ..ch0 },
            )
            &&& e1.write_payloads() == if grow && rw2 > rw1 {
                e0.write_payloads().push(
                    window_adjust_payload(ch0.recipient_channel, (rw2 - rw1) as u32),
                )
            } else {
                e0.write_payloads()
            }
            &&& e1.state == e0.state && e1.last_channel_id == e0.last_channel_id && e1.rekey
                == e0.rekey
        },
        Err(e) => e == Error::Inconsistent && pre.enc_unchanged(post) && !pre.table().contains_key(
            channel.0,
        ),
    }
}

/// Outcome of an inbound CHANNEL_OPEN_FAILURE carrying reason code `code`:
/// the channel leaves the table and the reason is delivered.
pub open spec fn open_failure_outcome(
    pre: Session,
    post: Session,
    r: Result<LoopAction, Error>,
    channel: ChannelId,
    code: u32,
) -> bool {
    &&& pre.same_meta(post)
    &&& post.encrypted is Some
    &&& match r {
        Ok(act) => {
            let e0 = pre.encrypted->Some_0;
            let e1 = post.encrypted->Some_0;
            &&& e0.channels@.contains_key(channel.0)
            &&& (match act {
                LoopAction::Deliver(c, crate::msg::ChannelMsg::OpenFailure(reason)) => c == channel
                    && reason.spec_code() == code,
                _ => false,
            })
            &&& e1.channels@ == e0.channels@.remove(channel.0)
            &&& e1.write_payloads() == e0.write_payloads()
            &&& e1.state == e0.state && e1.last_channel_id == e0.last_channel_id && e1.rekey
                == e0.rekey
        },
        Err(e) => e == Error::Inconsistent && pre.enc_unchanged(post) && !pre.table().contains_key(
            channel.0,
        ),
    }
}

impl Session {
    /// Both states have encrypted sub-states that are observably equal.
    pub open spec fn enc_unchanged(self, other: Session) -> bool {
        match (self.encrypted, other.encrypted) {
            (Some(a), Some(b)) => a.unchanged(b),
            (None, None) => true,
            _ => false,
        }
    }

    /// Grants the peer more send credit (`WINDOW_ADJUST` inbound, saturating)
    /// and retries the channel's queued chunks against the new window.
    fn handle_window_adjust(&mut self, channel: ChannelId, amount: u32) -> (r: Result<
        LoopAction,
        Error,
    >)
        requires
            old(self).wf(),
            old(self).encrypted is Some,
        ensures
            final(self).wf(),
            window_adjust_outcome(*old(self), *final(self), r, channel, amount),
    {
        match &mut self.encrypted {
            Some(enc) => {
                let ghost e0 = *enc;
                let nw = match enc.adjust_window(channel, amount) {
                    Ok(nw) => nw,
                    Err(e) => {
                        return Err(e);
                    },
                };
                let ghost mid = *enc;
                let _sent = enc.flush_pending(channel);
                proof {
                    let ch0 = e0.channels@[channel.0];
                    let ch_mid = ChannelParams { sender_window_size: nw, ..ch0 };
                    assert(mid.channels@[channel.0] == ch_mid);
                    assert(enc.channels@ =~= e0.channels@.insert(
                        channel.0,
                        enc.channels@[channel.0],
                    ));
                }
                Ok(LoopAction::Deliver(
                    channel,
                    crate::msg::ChannelMsg::WindowAdjusted { new_size: nw },
                ))
            },
            None => Err(Error::Inconsistent),
        }
    }

    /// Applies the peer's confirmation of a locally opened channel.
    fn handle_open_confirmation(
        &mut self,
        channel: ChannelId,
        peer: u32,
        window: u32,
        maxp: u32,
    ) -> (r: Result<LoopAction, Error>)
        requires
            old(self).wf(),
            old(self).encrypted is Some,
        ensures
            final(self).wf(),
            open_confirmation_outcome(*old(self), *final(self), r, channel, peer, window, maxp),
    {
        match &mut self.encrypted {
            Some(enc) => {
                match enc.confirm_channel(channel, peer, window, maxp) {
                    Ok(()) => {
                        let clamped = if maxp <= crate::encrypted::DATA_CHUNK_CAP {
                            maxp
                        } else {
                            crate::encrypted::DATA_CHUNK_CAP
                        };
                        Ok(LoopAction::Deliver(
                            channel,
                            crate::msg::ChannelMsg::Open {
                                id: channel,
                                max_packet_size: clamped,
                                window_size: window,
                            },
                        ))
                    },
                    Err(e) => Err(e),
                }
            },
            None => Err(Error::Inconsistent),
        }
    }

    /// Records the peer's EOF on a channel.
    fn handle_peer_eof(&mut self, channel: ChannelId) -> (r: Result<LoopAction, Error>)
        requires
            old(self).wf(),
            old(self).encrypted is Some,
        ensures
            final(self).wf(),
            peer_eof_outcome(*old(self), *final(self), r, channel),
    {
        match &mut self.encrypted {
            Some(enc) => match enc.peer_eof(channel) {
                Ok(()) => Ok(LoopAction::Deliver(channel, crate::msg::ChannelMsg::Eof)),
                Err(e) => Err(e),
            },
            None => Err(Error::Inconsistent),
        }
    }

    /// Handles the peer's CHANNEL_CLOSE: replies with this side's close if it
    /// has not gone out, and removes the channel — after mutual close the id
    /// is absent from the table and later operations on it are inconsistent.
    fn handle_peer_close(&mut self, channel: ChannelId) -> (r: Result<LoopAction, Error>)
        requires
            old(self).wf(),
            old(self).encrypted is Some,
        ensures
            final(self).wf(),
            peer_close_outcome(*old(self), *final(self), r, channel),
    {
        match &mut self.encrypted {
            Some(enc) => match enc.peer_close(channel) {
                Ok(()) => Ok(LoopAction::Deliver(channel, crate::msg::ChannelMsg::Close)),
                Err(e) => Err(e),
            },
            None => Err(Error::Inconsistent),
        }
    }
}


impl Session {
    /// Books inbound channel data: charges the peer's window, replenishes it
    /// towards the target once half is consumed, and delivers the bytes.
    fn handle_data(&mut self, channel: ChannelId, bytes: &[u8], ext: Option<u32>) -> (r: Result<
        LoopAction,
        Error,
    >)
        requires
            old(self).wf(),
            old(self).encrypted is Some,
            bytes@.len() <= MAX_PAYLOAD,
        ensures
            final(self).wf(),
            data_inbound_outcome(*old(self), *final(self), r, channel, bytes@, ext),
    {
        let target = self.target_window_size;
        let enc_opt = self.encrypted.take();
        match enc_opt {
            Some(mut enc) => {
                let ghost m0 = enc.channels@;
                let ghost w0 = enc.write_payloads();
                let mut ch = match enc.channels.remove(&channel.0) {
                    Some(c) => c,
                    None => {
                        proof {
                            assert(enc.channels@ =~= m0);
                        }
                        self.encrypted = Some(enc);
                        return Err(Error::Inconsistent);
                    },
                };
                let n = bytes.len();
                let rw1: u32 = if ch.recipient_window_size as usize >= n {
                    ch.recipient_window_size - (n as u32)
                } else {
                    0
                };
                let grow = rw1 < target / 2;
                let rw2 = if grow {
                    target
                } else {
                    rw1
                };
                if grow && rw2 > rw1 {
                    let mut payload: Vec<u8> = Vec::new();
                    payload.push(msg::CHANNEL_WINDOW_ADJUST);
                    crate::codec::push_u32_be_vec(&mut payload, ch.recipient_channel);
                    crate::codec::push_u32_be_vec(&mut payload, rw2 - rw1);
                    proof {
                        assert(payload@ =~= window_adjust_payload(
                            ch.recipient_channel,
                            (rw2 - rw1) as u32,
                        ));
                    }
                    enc.push_packet_payload(payload);
                }
                ch.recipient_window_size = rw2;
                enc.channels.insert(channel.0, ch);
                proof {
                    assert(enc.channels@ =~= m0.insert(channel.0, enc.channels@[channel.0]));
                    if grow && rw2 > rw1 {
                        assert(enc.write_payloads() =~= w0.push(enc.write_payloads().last()));
                    }
                }
                self.encrypted = Some(enc);
                let data = CryptoVec::from_slice(bytes);
                match ext {
                    Option::None => Ok(
                        LoopAction::Deliver(channel, crate::msg::ChannelMsg::Data { data }),
                    ),
                    Option::Some(e) => Ok(
                        LoopAction::Deliver(
                            channel,
                            crate::msg::ChannelMsg::ExtendedData { data, ext: e },
                        ),
                    ),
                }
            },
            None => Err(Error::Inconsistent),
        }
    }

    /// Removes a channel whose open the peer refused and delivers the reason.
    fn handle_open_failure(&mut self, channel: ChannelId, reason: crate::msg::ChannelOpenFailure)
        -> (r: Result<LoopAction, Error>)
        requires
            old(self).wf(),
            old(self).encrypted is Some,
        ensures
            final(self).wf(),
            open_failure_outcome(*old(self), *final(self), r, channel, reason.spec_code()),
    {
        match &mut self.encrypted {
            Some(enc) => {
                let ghost m0 = enc.channels@;
                match enc.channels.remove(&channel.0) {
                    Some(_ch) => {
                        proof {
                            assert(enc.channels@ =~= m0.remove(channel.0));
                        }
                        Ok(LoopAction::Deliver(channel, crate::msg::ChannelMsg::OpenFailure(reason)))
                    },
                    None => {
                        proof {
                            assert(enc.channels@ =~= m0);
                        }
                        Err(Error::Inconsistent)
                    },
                }
            },
            None => Err(Error::Inconsistent),
        }
    }

    /// Accepts a channel the peer asked to open: inserts a confirmed record
    /// under a fresh id and queues the OPEN_CONFIRMATION packet. The
    /// application's handler surface calls this when it admits the open.
    pub fn accept_channel_open(&mut self, peer: u32, peer_window: u32, peer_maxp: u32) -> (r:
        Result<ChannelId, Error>)
        requires
            old(self).wf(),
        ensures
            final(self).wf(),
            old(self).same_meta(*final(self)),
            match r {
                Ok(id) => {
                    let e0 = old(self).encrypted->Some_0;
                    let e1 = final(self).encrypted->Some_0;
                    let clamped = if peer_maxp <= crate::encrypted::DATA_CHUNK_CAP {
                        peer_maxp
                    } else {
                        crate::encrypted::DATA_CHUNK_CAP
                    };
                    let rec = e1.channels@[id.0];
                    &&& old(self).encrypted is Some
                    &&& final(self).encrypted is Some
                    &&& !e0.channels@.contains_key(id.0)
                    &&& e1.channels@ == e0.channels@.insert(id.0, rec)
                    &&& rec.confirmed && rec.recipient_channel == peer && rec.sender_window_size
                        == peer_window && rec.sender_maximum_packet_size == clamped
                        && rec.pending_data@.len() == 0 && !rec.eof_sent && !rec.eof_received
                        && !rec.close_sent && !rec.close_received && !rec.wants_reply
                    &&& rec.recipient_window_size == old(self).config.window_size
                    &&& rec.recipient_maximum_packet_size == old(self).config.maximum_packet_size
                    &&& e1.write_payloads() == e0.write_payloads().push(
                        open_confirmation_payload(
                            peer,
                            id.0,
                            old(self).config.window_size,
                            old(self).config.maximum_packet_size,
                        ),
                    )
                    &&& e1.state == e0.state && e1.rekey == e0.rekey
                },
                Err(e) => e == Error::Inconsistent && old(self).unchanged_all(*final(self)) && !(
                old(self).encrypted is Some && old(self).table().dom().len() < 0xffff_ffff),
            },
    {
        let enc_opt = self.encrypted.take();
        match enc_opt {
            Some(mut enc) => {
                if enc.channels.len() >= u32::MAX as usize {
                    self.encrypted = Some(enc);
                    return Err(Error::Inconsistent);
                }
                let ghost w0 = enc.write_payloads();
                let ghost m0 = enc.channels@;
                let id = enc.new_channel(self.config.window_size, self.config.maximum_packet_size);
                let confirmed = enc.confirm_channel(id, peer, peer_window, peer_maxp);
                proof {
                    assert(confirmed is Ok);
                    assert(enc.channels@ =~= m0.insert(id.0, enc.channels@[id.0]));
                }
                let mut payload: Vec<u8> = Vec::new();
                payload.push(msg::CHANNEL_OPEN_CONFIRMATION);
                crate::codec::push_u32_be_vec(&mut payload, peer);
                crate::codec::push_u32_be_vec(&mut payload, id.0);
                crate::codec::push_u32_be_vec(&mut payload, self.config.window_size);
                crate::codec::push_u32_be_vec(&mut payload, self.config.maximum_packet_size);
                proof {
                    assert(payload@ =~= open_confirmation_payload(
                        peer,
                        id.0,
                        self.config.window_size,
                        self.config.maximum_packet_size,
                    ));
                }
                enc.push_packet_payload(payload);
                proof {
                    assert(enc.write_payloads() =~= w0.push(
                        open_confirmation_payload(
                            peer,
                            id.0,
                            self.config.window_size,
                            self.config.maximum_packet_size,
                        ),
                    ));
                }
                self.encrypted = Some(enc);
                Ok(id)
            },
            None => Err(Error::Inconsistent),
        }
    }
}


impl Session {
    /// Handles a transport-layer opcode (at most 4): DISCONNECT is decided by
    /// the caller; KEXINIT and NEWKEYS drive the rekey handshake. The
    /// key-derivation internals are outside this core: the reply to the
    /// peer's KEXINIT is this side's KEXINIT (if still owed) and NEWKEYS, and
    /// the peer's NEWKEYS completes the rekey and resets the byte counter.
    fn handle_transport(&mut self, op: u8) -> (r: Result<LoopAction, Error>)
        requires
            old(self).wf(),
            op <= 4,
            op != msg::DISCONNECT,
        ensures
            final(self).wf(),
            transport_outcome(*old(self), *final(self), r, op),
    {
        let enc_opt = self.encrypted.take();
        match enc_opt {
            Some(mut enc) => {
                if op == msg::KEXINIT {
                    let ghost w0 = enc.write_payloads();
                    match enc.rekey {
                        None => {
                            let mut ki: Vec<u8> = Vec::new();
                            ki.push(msg::KEXINIT);
                            proof {
                                assert(ki@ =~= seq![msg::KEXINIT]);
                            }
                            enc.push_packet_payload(ki);
                            let mut nk: Vec<u8> = Vec::new();
                            nk.push(msg::NEWKEYS);
                            proof {
                                assert(nk@ =~= seq![msg::NEWKEYS]);
                            }
                            enc.push_packet_payload(nk);
                            enc.rekey = Some(RekeyState::NewKeysSent);
                        },
                        Some(RekeyState::KexInitSent) => {
                            let mut nk: Vec<u8> = Vec::new();
                            nk.push(msg::NEWKEYS);
                            proof {
                                assert(nk@ =~= seq![msg::NEWKEYS]);
                            }
                            enc.push_packet_payload(nk);
                            enc.rekey = Some(RekeyState::NewKeysSent);
                        },
                        Some(RekeyState::NewKeysSent) => {},
                    }
                } else if op == msg::NEWKEYS {
                    if enc.rekey.is_some() {
                        enc.rekey = None;
                        self.write_buffer.bytes = 0;
                    }
                }
                self.encrypted = Some(enc);
                Ok(LoopAction::Continue)
            },
            None => Ok(LoopAction::Continue),
        }
    }

    /// Dispatches one decrypted inbound packet payload. DISCONNECT ends the
    /// loop; transport opcodes (at most 4) go to the rekey sub-state; while a
    /// rekey is in progress nothing else is dispatched, so no user data can
    /// be queued; otherwise the channel protocol is applied and the action
    /// tells the loop runner what to deliver.
    pub fn handle_inbound(&mut self, payload: &[u8]) -> (r: Result<LoopAction, Error>)
        requires
            old(self).wf(),
            payload@.len() <= MAX_PAYLOAD,
        ensures
            final(self).wf(),
            final(self).session_id == old(self).session_id,
            final(self).config == old(self).config,
            final(self).target_window_size == old(self).target_window_size,
            final(self).block_size == old(self).block_size,
            final(self).write_buffer.buffer == old(self).write_buffer.buffer,
            final(self).write_buffer.seqn == old(self).write_buffer.seqn,
            final(self).write_buffer.len == old(self).write_buffer.len,
            payload@.len() == 0 ==> r == Ok::<LoopAction, Error>(LoopAction::Continue) && old(self).enc_unchanged(
                *final(self),
            ) && final(self).disconnected == old(self).disconnected,
            payload@.len() >= 1 && payload@[0] == msg::DISCONNECT ==> r == Ok::<LoopAction, Error>(LoopAction::Exit)
                && final(self).disconnected && old(self).enc_unchanged(*final(self)),
            payload@.len() >= 1 && payload@[0] != msg::DISCONNECT ==> final(self).disconnected
                == old(self).disconnected,
            // rekey quiescence: while a rekey is under way, the only payloads
            // this can queue are key-exchange packets, never channel data
            old(self).spec_rekeying() ==> {
                let w0 = old(self).pending_payloads();
                let w1 = final(self).pending_payloads();
                &&& w1.len() >= w0.len()
                &&& w1.take(w0.len() as int) == w0
                &&& forall|i: int|
                    w0.len() <= i < w1.len() ==> (#[trigger] w1[i]).len() >= 1 && (w1[i][0]
                        == msg::KEXINIT || w1[i][0] == msg::NEWKEYS)
            },
            // the channel protocol is applied only outside a rekey
            old(self).spec_rekeying() && payload@.len() >= 1 && payload@[0] > 4 ==> r == Ok::<
                LoopAction,
                Error,
            >(LoopAction::Continue) && old(self).enc_unchanged(*final(self)),
            // what every opcode does: the per-opcode dispatch outcome
            inbound_outcome(*old(self), *final(self), r, payload@),
    {
        let ghost w0 = self.pending_payloads();
        if payload.len() == 0 {
            return Ok(LoopAction::Continue);
        }
        let op = payload[0];
        if op == msg::DISCONNECT {
            self.disconnected = true;
            return Ok(LoopAction::Exit);
        }
        if op <= 4 {
            let r = self.handle_transport(op);
            proof {
                let w1 = self.pending_payloads();
                assert(w1.take(w0.len() as int) =~= w0);
                assert forall|i: int|
                    w0.len() <= i < w1.len() implies (#[trigger] w1[i]).len() >= 1 && (w1[i][0]
                        == msg::KEXINIT || w1[i][0] == msg::NEWKEYS) by {
                    assert(seq![msg::KEXINIT].len() == 1 && seq![msg::KEXINIT][0] == msg::KEXINIT);
                    assert(seq![msg::NEWKEYS].len() == 1 && seq![msg::NEWKEYS][0] == msg::NEWKEYS);
                }
            }
            return r;
        }
        if self.is_rekeying() {
            proof {
                assert(self.pending_payloads().take(w0.len() as int) =~= w0);
            }
            return Ok(LoopAction::Continue);
        }
        match &self.encrypted {
            Some(_) => {},
            None => {
                return Err(Error::Inconsistent);
            },
        }
        if op == msg::CHANNEL_OPEN_CONFIRMATION {
            if payload.len() < 17 {
                return Err(Error::Protocol);
            }
            let id = crate::codec::read_u32_be(payload, 1);
            let peer = crate::codec::read_u32_be(payload, 5);
            let window = crate::codec::read_u32_be(payload, 9);
            let maxp = crate::codec::read_u32_be(payload, 13);
            self.handle_open_confirmation(ChannelId(id), peer, window, maxp)
        } else if op == msg::CHANNEL_OPEN_FAILURE {
            if payload.len() < 9 {
                return Err(Error::Protocol);
            }
            let id = crate::codec::read_u32_be(payload, 1);
            let code = crate::codec::read_u32_be(payload, 5);
            let reason = match crate::msg::ChannelOpenFailure::from_code(code) {
                Some(rs) => rs,
                None => {
                    return Err(Error::Protocol);
                },
            };
            self.handle_open_failure(ChannelId(id), reason)
        } else if op == msg::CHANNEL_WINDOW_ADJUST {
            if payload.len() < 9 {
                return Err(Error::Protocol);
            }
            let id = crate::codec::read_u32_be(payload, 1);
            let amount = crate::codec::read_u32_be(payload, 5);
            self.handle_window_adjust(ChannelId(id), amount)
        } else if op == msg::CHANNEL_DATA {
            if payload.len() < 9 {
                return Err(Error::Protocol);
            }
            let id = crate::codec::read_u32_be(payload, 1);
            let (bytes, _next) = match crate::codec::read_string(payload, 5) {
                Ok(p) => p,
                Err(e) => {
                    return Err(e);
                },
            };
            self.handle_data(ChannelId(id), bytes.as_slice(), None)
        } else if op == msg::CHANNEL_EXTENDED_DATA {
            if payload.len() < 13 {
                return Err(Error::Protocol);
            }
            let id = crate::codec::read_u32_be(payload, 1);
            let ext = crate::codec::read_u32_be(payload, 5);
            let (bytes, _next) = match crate::codec::read_string(payload, 9) {
                Ok(p) => p,
                Err(e) => {
                    return Err(e);
                },
            };
            self.handle_data(ChannelId(id), bytes.as_slice(), Some(ext))
        } else if op == msg::CHANNEL_EOF {
            if payload.len() < 5 {
                return Err(Error::Protocol);
            }
            let id = crate::codec::read_u32_be(payload, 1);
            self.handle_peer_eof(ChannelId(id))
        } else if op == msg::CHANNEL_CLOSE {
            if payload.len() < 5 {
                return Err(Error::Protocol);
            }
            let id = crate::codec::read_u32_be(payload, 1);
            self.handle_peer_close(ChannelId(id))
        } else if op == msg::CHANNEL_SUCCESS {
            if payload.len() < 5 {
                return Err(Error::Protocol);
            }
            let id = crate::codec::read_u32_be(payload, 1);
            Ok(LoopAction::Deliver(ChannelId(id), crate::msg::ChannelMsg::Success))
        } else if op == msg::CHANNEL_FAILURE {
            if payload.len() < 5 {
                return Err(Error::Protocol);
            }
            let id = crate::codec::read_u32_be(payload, 1);
            Ok(LoopAction::Deliver(ChannelId(id), crate::msg::ChannelMsg::Failure))
        } else if op == msg::GLOBAL_REQUEST {
            if payload.len() < 5 {
                return Err(Error::Protocol);
            }
            let (_name, next) = match crate::codec::read_string(payload, 1) {
                Ok(p) => p,
                Err(e) => {
                    return Err(e);
                },
            };
            if next >= payload.len() {
                return Err(Error::Protocol);
            }
            self.wants_reply = payload[next] != 0;
            Ok(LoopAction::Handler(vstd::slice::slice_to_vec(payload)))
        } else if op == msg::CHANNEL_REQUEST {
            // [opcode][local channel id][request type string][want-reply byte]:
            // remember whether a reply is owed, then let the handler decide.
            if payload.len() < 5 {
                return Err(Error::Protocol);
            }
            let id = crate::codec::read_u32_be(payload, 1);
            let (_name, next) = match crate::codec::read_string(payload, 5) {
                Ok(p) => p,
                Err(e) => {
                    return Err(e);
                },
            };
            if next >= payload.len() {
                return Err(Error::Protocol);
            }
            let wants = payload[next] != 0;
            match &mut self.encrypted {
                Some(enc) => {
                    match enc.set_wants_reply(ChannelId(id), wants) {
                        Ok(()) => Ok(LoopAction::Handler(vstd::slice::slice_to_vec(payload))),
                        Err(e) => Err(e),
                    }
                },
                None => Err(Error::Inconsistent),
            }
        } else if op == msg::CHANNEL_OPEN || op == msg::REQUEST_SUCCESS || op
            == msg::REQUEST_FAILURE {
            Ok(LoopAction::Handler(vstd::slice::slice_to_vec(payload)))
        } else {
            Err(Error::Protocol)
        }
    }
}


/// Outcome of sending user data from an application message: queued, drained,
/// and failing exactly when the channel is absent or may not send.
pub open spec fn data_send_outcome(
    pre: Session,
    post: Session,
    r: Result<LoopAction, Error>,
    id: ChannelId,
    bytes: Seq<u8>,
    ext: Option<u32>,
) -> bool {
    &&& pre.same_meta(post)
    &&& match r {
        Ok(act) => act == LoopAction::Continue && pre.encrypted is Some && post.encrypted is Some
            && {
            let e0 = pre.encrypted->Some_0;
            let ch0 = e0.channels@[id.0];
            &&& e0.channels@.contains_key(id.0)
            &&& ch0.may_send()
            &&& e0.drained_to(
                post.encrypted->Some_0,
                id.0,
                crate::encrypted::queue_view(ch0.pending_data@).push((bytes, ext)),
            )
        },
        Err(e) => e == Error::Inconsistent && pre.unchanged_all(post) && !(pre.encrypted is Some
            && pre.table().contains_key(id.0) && pre.table()[id.0].may_send()),
    }
}

/// Outcome of a channel-request reply (success or failure): sent only when a
/// reply is owed, clearing the mark; failing exactly when the channel is
/// absent or unconfirmed.
pub open spec fn reply_outcome(
    pre: Session,
    post: Session,
    r: Result<LoopAction, Error>,
    id: ChannelId,
    success: bool,
) -> bool {
    match r {
        Ok(act) => {
            let ch0 = pre.table()[id.0];
            let payload = if success {
                channel_success_payload(ch0.recipient_channel)
            } else {
                channel_failure_payload(ch0.recipient_channel)
            };
            &&& act == LoopAction::Continue
            &&& pre.encrypted is Some
            &&& pre.table().contains_key(id.0)
            &&& ch0.confirmed
            &&& if ch0.wants_reply {
                pre.pushed_for_channel(
                    post,
                    id.0,
                    ChannelParams { wants_reply: false, ..ch0 },
                    seq![payload],
                )
            } else {
                pre.unchanged_all(post)
            }
        },
        Err(e) => e == Error::Inconsistent && pre.unchanged_all(post) && !(pre.encrypted is Some
            && pre.table().contains_key(id.0) && pre.table()[id.0].confirmed),
    }
}

/// Outcome of a channel request that queues one packet on a confirmed
/// channel; failing exactly when the channel is absent or unconfirmed (or,
/// where string arguments are carried, when one exceeds the argument cap).
pub open spec fn request_push_outcome(
    pre: Session,
    post: Session,
    r: Result<LoopAction, Error>,
    id: ChannelId,
    payload: Seq<u8>,
    args_ok: bool,
) -> bool {
    match r {
        Ok(act) => act == LoopAction::Continue && pre.encrypted is Some
            && pre.table().contains_key(id.0) && pre.table()[id.0].confirmed && pre.pushed_only(
            post,
            seq![payload],
        ) && pre.same_meta(post),
        Err(e) => e == Error::Inconsistent && pre.unchanged_all(post) && !(pre.encrypted is Some
            && pre.table().contains_key(id.0) && pre.table()[id.0].confirmed && args_ok),
    }
}

/// Outcome of a channel-open request from the application: a fresh id is
/// registered and the open packet queued; failing exactly when the session
/// is not in an open-capable state, the table is full, or (for the TCP/IP
/// variants) an address exceeds the argument cap.
pub open spec fn open_request_outcome(
    pre: Session,
    post: Session,
    r: Result<LoopAction, Error>,
    payload_for: spec_fn(u32) -> Seq<u8>,
    args_ok: bool,
) -> bool {
    match r {
        Ok(act) => {
            &&& pre.encrypted is Some
            &&& post.encrypted is Some
            &&& (pre.encrypted->Some_0.state == EncryptedState::Authenticated
                || pre.encrypted->Some_0.state == EncryptedState::InitCompression)
            &&& pre.same_meta(post)
            &&& (match act {
                LoopAction::Register(id) => {
                    &&& !pre.table().contains_key(id.0)
                    &&& post.table() == pre.table().insert(id.0, post.table()[id.0])
                    &&& crate::encrypted::is_fresh_channel(
                        post.table()[id.0],
                        pre.config.window_size,
                        pre.config.maximum_packet_size,
                    )
                    &&& post.pending_payloads() == pre.pending_payloads().push(payload_for(id.0))
                    &&& post.encrypted->Some_0.state == pre.encrypted->Some_0.state
                    &&& post.encrypted->Some_0.rekey == pre.encrypted->Some_0.rekey
                },
                _ => false,
            })
        },
        Err(e) => e == Error::Inconsistent && pre.unchanged_all(post) && !(pre.encrypted is Some
            && (pre.encrypted->Some_0.state == EncryptedState::Authenticated
            || pre.encrypted->Some_0.state == EncryptedState::InitCompression)
            && pre.table().dom().len() < 0xffff_ffff && args_ok),
    }
}

/// Outcome of one application-mailbox message: every kind's action, state
/// move, and exact failure condition.
pub open spec fn app_msg_outcome(
    pre: Session,
    post: Session,
    r: Result<LoopAction, Error>,
    m: crate::msg::Msg,
) -> bool {
    match m {
        crate::msg::Msg::Channel(id, cm) => match cm {
            crate::msg::ChannelMsg::Data { data } => data_send_outcome(
                pre,
                post,
                r,
                id,
                cv_bytes(data),
                None,
            ),
            crate::msg::ChannelMsg::ExtendedData { data, ext } => data_send_outcome(
                pre,
                post,
                r,
                id,
                cv_bytes(data),
                Some(ext),
            ),
            crate::msg::ChannelMsg::Eof => match r {
                Ok(act) => act == LoopAction::Continue && pre.encrypted is Some && post.encrypted
                    is Some && pre.same_meta(post) && {
                    let e0 = pre.encrypted->Some_0;
                    let e1 = post.encrypted->Some_0;
                    let ch0 = e0.channels@[id.0];
                    &&& e0.channels@.contains_key(id.0)
                    &&& ch0.may_send()
                    &&& e1.channels@ == e0.channels@.insert(
                        id.0,
                        ChannelParams { eof_sent: true, ..ch0 },
                    )
                    &&& e1.write_payloads() == e0.write_payloads().push(
                        crate::encrypted::byte_packet_payload(
                            msg::CHANNEL_EOF,
                            ch0.recipient_channel,
                        ),
                    )
                    &&& e1.state == e0.state && e1.last_channel_id == e0.last_channel_id
                        && e1.rekey == e0.rekey
                },
                Err(e) => e == Error::Inconsistent && pre.unchanged_all(post) && !(pre.encrypted
                    is Some && pre.table().contains_key(id.0) && pre.table()[id.0].may_send()),
            },
            crate::msg::ChannelMsg::Close => match r {
                Ok(act) => act == LoopAction::Continue && pre.encrypted is Some && post.encrypted
                    is Some && pre.same_meta(post) && {
                    let e0 = pre.encrypted->Some_0;
                    let e1 = post.encrypted->Some_0;
                    let ch0 = e0.channels@[id.0];
                    &&& e0.channels@.contains_key(id.0)
                    &&& !ch0.close_sent
                    &&& e1.write_payloads() == e0.write_payloads().push(
                        crate::encrypted::byte_packet_payload(
                            msg::CHANNEL_CLOSE,
                            ch0.recipient_channel,
                        ),
                    )
                    &&& e1.channels@ == if ch0.close_received {
                        e0.channels@.remove(id.0)
                    } else {
                        e0.channels@.insert(id.0, ChannelParams { close_sent: true, ..ch0 })
                    }
                    &&& e1.state == e0.state && e1.last_channel_id == e0.last_channel_id
                        && e1.rekey == e0.rekey
                },
                Err(e) => e == Error::Inconsistent && pre.unchanged_all(post) && !(pre.encrypted
                    is Some && pre.table().contains_key(id.0) && !pre.table()[id.0].close_sent),
            },
            crate::msg::ChannelMsg::Success => reply_outcome(pre, post, r, id, true),
            crate::msg::ChannelMsg::Failure => reply_outcome(pre, post, r, id, false),
            crate::msg::ChannelMsg::XonXoff { client_can_do } => request_push_outcome(
                pre,
                post,
                r,
                id,
                xon_xoff_payload(pre.table()[id.0].recipient_channel, client_can_do),
                true,
            ),
            crate::msg::ChannelMsg::ExitStatus { exit_status } => request_push_outcome(
                pre,
                post,
                r,
                id,
                exit_status_payload(pre.table()[id.0].recipient_channel, exit_status),
                true,
            ),
            crate::msg::ChannelMsg::ExitSignal {
                signal_name,
                core_dumped,
                error_message,
                lang_tag,
            } => request_push_outcome(
                pre,
                post,
                r,
                id,
                exit_signal_payload(
                    pre.table()[id.0].recipient_channel,
                    signal_name,
                    core_dumped,
                    error_message@,
                    lang_tag@,
                ),
                signal_name.spec_name().len() <= MAX_ARG_CHARS && error_message@.len()
                    <= MAX_ARG_CHARS && lang_tag@.len() <= MAX_ARG_CHARS,
            ),
            _ => r == Ok::<LoopAction, Error>(LoopAction::Continue) && pre.unchanged_all(post),
        },
        crate::msg::Msg::ChannelOpenSession => open_request_outcome(
            pre,
            post,
            r,
            |sender: u32|
                channel_open_session_payload(
                    sender,
                    pre.config.window_size,
                    pre.config.maximum_packet_size,
                ),
            true,
        ),
        crate::msg::Msg::ChannelOpenDirectTcpIp {
            host_to_connect,
            port_to_connect,
            originator_address,
            originator_port,
        } => open_request_outcome(
            pre,
            post,
            r,
            |sender: u32|
                channel_open_direct_payload(
                    sender,
                    pre.config.window_size,
                    pre.config.maximum_packet_size,
                    host_to_connect@,
                    port_to_connect,
                    originator_address@,
                    originator_port,
                ),
            host_to_connect@.len() <= MAX_ARG_CHARS && originator_address@.len()
                <= MAX_ARG_CHARS,
        ),
        crate::msg::Msg::ChannelOpenForwardedTcpIp {
            connected_address,
            connected_port,
            originator_address,
            originator_port,
        } => open_request_outcome(
            pre,
            post,
            r,
            |sender: u32|
                channel_open_forwarded_payload(
                    sender,
                    pre.config.window_size,
                    pre.config.maximum_packet_size,
                    connected_address@,
                    connected_port,
                    originator_address@,
                    originator_port,
                ),
            connected_address@.len() <= MAX_ARG_CHARS && originator_address@.len()
                <= MAX_ARG_CHARS,
        ),
    }
}

impl Session {
    /// Handles one message from the application mailbox: channel messages
    /// become the corresponding packets through the encrypted state; open
    /// requests allocate a channel and ask the runner to register the reply
    /// sender under the fresh id. Client-only message kinds are ignored.
    pub fn handle_app_msg(&mut self, m: crate::msg::Msg) -> (r: Result<LoopAction, Error>)
        requires
            old(self).wf(),
        ensures
            final(self).wf(),
            final(self).session_id == old(self).session_id,
            final(self).config == old(self).config,
            final(self).target_window_size == old(self).target_window_size,
            final(self).block_size == old(self).block_size,
            final(self).write_buffer == old(self).write_buffer,
            final(self).disconnected == old(self).disconnected,
            app_msg_outcome(*old(self), *final(self), r, m),
    {
        match m {
            crate::msg::Msg::Channel(id, cm) => match cm {
                crate::msg::ChannelMsg::Data { data } => match self.data(id, data) {
                    Ok(()) => Ok(LoopAction::Continue),
                    Err(e) => Err(e),
                },
                crate::msg::ChannelMsg::ExtendedData { data, ext } => match self.extended_data(
                    id,
                    ext,
                    data,
                ) {
                    Ok(()) => Ok(LoopAction::Continue),
                    Err(e) => Err(e),
                },
                crate::msg::ChannelMsg::Eof => match self.eof(id) {
                    Ok(()) => Ok(LoopAction::Continue),
                    Err(e) => Err(e),
                },
                crate::msg::ChannelMsg::Close => match self.close(id) {
                    Ok(()) => Ok(LoopAction::Continue),
                    Err(e) => Err(e),
                },
                crate::msg::ChannelMsg::Success => match self.channel_success(id) {
                    Ok(()) => Ok(LoopAction::Continue),
                    Err(e) => Err(e),
                },
                crate::msg::ChannelMsg::Failure => match self.channel_failure(id) {
                    Ok(()) => Ok(LoopAction::Continue),
                    Err(e) => Err(e),
                },
                crate::msg::ChannelMsg::XonXoff { client_can_do } => match self.xon_xoff_request(
                    id,
                    client_can_do,
                ) {
                    Ok(()) => Ok(LoopAction::Continue),
                    Err(e) => Err(e),
                },
                crate::msg::ChannelMsg::ExitStatus { exit_status } => match self
                    .exit_status_request(id, exit_status) {
                    Ok(()) => Ok(LoopAction::Continue),
                    Err(e) => Err(e),
                },
                crate::msg::ChannelMsg::ExitSignal {
                    signal_name,
                    core_dumped,
                    error_message,
                    lang_tag,
                } => {
                    let name = signal_name.name();
                    if name.unicode_len() > MAX_ARG_CHARS || error_message.as_str().unicode_len()
                        > MAX_ARG_CHARS || lang_tag.as_str().unicode_len() > MAX_ARG_CHARS {
                        return Err(Error::Inconsistent);
                    }
                    match self.exit_signal_request(
                        id,
                        signal_name,
                        core_dumped,
                        error_message.as_str(),
                        lang_tag.as_str(),
                    ) {
                        Ok(()) => Ok(LoopAction::Continue),
                        Err(e) => Err(e),
                    }
                },
                _ => Ok(LoopAction::Continue),
            },
            crate::msg::Msg::ChannelOpenSession => match self.channel_open_session() {
                Ok(id) => Ok(LoopAction::Register(id)),
                Err(e) => Err(e),
            },
            crate::msg::Msg::ChannelOpenDirectTcpIp {
                host_to_connect,
                port_to_connect,
                originator_address,
                originator_port,
            } => {
                if host_to_connect.as_str().unicode_len() > MAX_ARG_CHARS
                    || originator_address.as_str().unicode_len() > MAX_ARG_CHARS {
                    return Err(Error::Inconsistent);
                }
                match self.channel_open_direct_tcpip(
                    host_to_connect.as_str(),
                    port_to_connect,
                    originator_address.as_str(),
                    originator_port,
                ) {
                    Ok(id) => Ok(LoopAction::Register(id)),
                    Err(e) => Err(e),
                }
            },
            crate::msg::Msg::ChannelOpenForwardedTcpIp {
                connected_address,
                connected_port,
                originator_address,
                originator_port,
            } => {
                if connected_address.as_str().unicode_len() > MAX_ARG_CHARS
                    || originator_address.as_str().unicode_len() > MAX_ARG_CHARS {
                    return Err(Error::Inconsistent);
                }
                match self.channel_open_forwarded_tcpip(
                    connected_address.as_str(),
                    connected_port,
                    originator_address.as_str(),
                    originator_port,
                ) {
                    Ok(id) => Ok(LoopAction::Register(id)),
                    Err(e) => Err(e),
                }
            },
        }
    }

    /// One step of the session event loop. A timer expiry or an inbound
    /// DISCONNECT ends the loop. While a rekey is in progress the application
    /// arm is quiescent: a message handed in anyway is deferred untouched,
    /// and nothing this step queues can be channel data.
    pub fn step(&mut self, ev: LoopEvent) -> (r: Result<LoopAction, Error>)
        requires
            old(self).wf(),
            ev matches LoopEvent::Inbound(p) ==> p@.len() <= MAX_PAYLOAD,
        ensures
            final(self).wf(),
            final(self).session_id == old(self).session_id,
            final(self).config == old(self).config,
            final(self).block_size == old(self).block_size,
            ev is Timeout ==> r == Ok::<LoopAction, Error>(LoopAction::Exit) && old(
                self,
            ).unchanged_all(*final(self)),
            (ev matches LoopEvent::Inbound(p) && p@.len() >= 1 && p@[0] == msg::DISCONNECT) ==> r
                == Ok::<LoopAction, Error>(LoopAction::Exit) && final(self).disconnected,
            ev matches LoopEvent::App(m) ==> (old(self).spec_rekeying() ==> r == Ok::<
                LoopAction,
                Error,
            >(LoopAction::AppDeferred(m)) && old(self).unchanged_all(*final(self))),
            // outside a rekey, the application message is processed with the
            // per-kind outcome, errors included
            ev matches LoopEvent::App(m2) ==> (!old(self).spec_rekeying() ==> app_msg_outcome(
                *old(self),
                *final(self),
                r,
                m2,
            )),
            // every inbound payload is dispatched with the per-opcode outcome
            ev matches LoopEvent::Inbound(p2) ==> inbound_outcome(
                *old(self),
                *final(self),
                r,
                p2@,
            ),
            // rekey quiescence: while a rekey is under way no step queues a
            // data packet; only key-exchange payloads can be added
            old(self).spec_rekeying() ==> {
                let w0 = old(self).pending_payloads();
                let w1 = final(self).pending_payloads();
                &&& w1.len() >= w0.len()
                &&& w1.take(w0.len() as int) == w0
                &&& forall|i: int|
                    w0.len() <= i < w1.len() ==> (#[trigger] w1[i]).len() >= 1 && w1[i][0]
                        != msg::CHANNEL_DATA && w1[i][0] != msg::CHANNEL_EXTENDED_DATA
            },
    {
        let ghost w0 = self.pending_payloads();
        match ev {
            LoopEvent::Timeout => Ok(LoopAction::Exit),
            LoopEvent::Inbound(p) => {
                let r = self.handle_inbound(p.as_slice());
                proof {
                    if old(self).spec_rekeying() {
                        let w1 = self.pending_payloads();
                        assert(w1.take(w0.len() as int) == w0);
                    }
                }
                r
            },
            LoopEvent::App(m) => {
                if self.is_rekeying() {
                    return Ok(LoopAction::AppDeferred(m));
                }
                self.handle_app_msg(m)
            },
        }
    }
}

} // verus!
