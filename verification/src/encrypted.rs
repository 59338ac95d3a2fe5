//! Post-handshake protocol state of one connection: the channel table with
//! its per-channel flow-control records, the queue of packets waiting to be
//! sealed, and the rekey state.
use vstd::prelude::*;

verus! {

use std::collections::HashMap;
use russh_cryptovec::CryptoVec;
use crate::cryptovec::cv_bytes;
use crate::codec::{u32_be, MAX_PAYLOAD, wrap_add32, lemma_wrap_add32_succ, lemma_wrap_add32_zero, lemma_wrap_add32_injective};
use crate::msg;
use crate::{ChannelId, Error};
use vstd::utf8::encode_utf8;

broadcast use vstd::std_specs::hash::group_hash_axioms;

/// Hard cap on the sender's maximum packet size as stored in a channel
/// record: keeps every queued data packet under the codec's payload bound.
pub const DATA_CHUNK_CAP: u32 = 0x1000000;

/// One chunk of user data waiting for window credit: the buffer, how much of
/// it has already been sent, and the extended-data stream it belongs to
/// (`None` is the main data stream).
pub struct PendingChunk {
    pub data: CryptoVec,
    pub offset: usize,
    pub ext: Option<u32>,
}

impl PendingChunk {
    /// The bytes of this chunk still to send.
    pub open spec fn rest(self) -> Seq<u8> {
        cv_bytes(self.data).skip(self.offset as int)
    }

    pub open spec fn wf(self) -> bool {
        self.offset <= cv_bytes(self.data).len()
    }
}

/// The view of a pending queue: for each chunk, the bytes still to send and
/// the stream they belong to.
pub open spec fn queue_view(q: Seq<PendingChunk>) -> Seq<(Seq<u8>, Option<u32>)> {
    q.map(|i: int, c: PendingChunk| (c.rest(), c.ext))
}

/// One channel's record, owned by the encrypted state.
pub struct ChannelParams {
    /// The id the peer uses for this channel.
    pub recipient_channel: u32,
    /// Credit, in bytes, remaining for sending to the peer.
    pub sender_window_size: u32,
    /// Upper bound on one data packet's payload to the peer.
    pub sender_maximum_packet_size: u32,
    pub recipient_window_size: u32,
    pub recipient_maximum_packet_size: u32,
    /// False until the peer acknowledged the open; no request or data may be
    /// emitted before that.
    pub confirmed: bool,
    /// Set while the last request on this channel awaits its reply.
    pub wants_reply: bool,
    /// Chunks that could not be sent yet for want of window credit.
    pub pending_data: Vec<PendingChunk>,
    pub eof_sent: bool,
    pub eof_received: bool,
    pub close_sent: bool,
    pub close_received: bool,
}

impl ChannelParams {
    pub open spec fn wf(self) -> bool {
        &&& self.sender_maximum_packet_size <= DATA_CHUNK_CAP
        &&& forall|i: int|
            0 <= i < self.pending_data@.len() ==> (#[trigger] self.pending_data@[i]).wf()
    }

    /// A channel may carry outbound data: confirmed and not yet past its
    /// local EOF or close.
    pub open spec fn may_send(self) -> bool {
        self.confirmed && !self.eof_sent && !self.close_sent
    }
}

/// The payload of one outbound data packet.
pub open spec fn data_packet_payload(recipient: u32, ext: Option<u32>, bytes: Seq<u8>) -> Seq<u8> {
    match ext {
        Option::None => seq![msg::CHANNEL_DATA] + u32_be(recipient) + u32_be(bytes.len() as u32)
            + bytes,
        Option::Some(e) => seq![msg::CHANNEL_EXTENDED_DATA] + u32_be(recipient) + u32_be(e)
            + u32_be(bytes.len() as u32) + bytes,
    }
}

/// What draining a pending queue against window credit `w` and packet bound
/// `maxp` emits: the sent pieces in order, the queue that remains, and the
/// credit left. Each step sends as much of the head chunk as the credit and
/// the packet bound allow.
pub open spec fn spec_drain(q: Seq<(Seq<u8>, Option<u32>)>, w: nat, maxp: nat) -> (
    Seq<(Seq<u8>, Option<u32>)>,
    Seq<(Seq<u8>, Option<u32>)>,
    nat,
)
    decreases q.len(), w,
{
    if q.len() == 0 || w == 0 || maxp == 0 {
        (Seq::empty(), q, w)
    } else {
        let head = q[0];
        let n = head.0.len();
        if n == 0 {
            spec_drain(q.drop_first(), w, maxp)
        } else {
            let k = min3(n, w, maxp);
            if k == n {
                let r = spec_drain(q.drop_first(), (w - k) as nat, maxp);
                (seq![head] + r.0, r.1, r.2)
            } else {
                let r = spec_drain(
                    q.update(0, (head.0.skip(k as int), head.1)),
                    (w - k) as nat,
                    maxp,
                );
                (seq![(head.0.take(k as int), head.1)] + r.0, r.1, r.2)
            }
        }
    }
}

pub open spec fn min3(a: nat, b: nat, c: nat) -> nat {
    if a <= b && a <= c {
        a
    } else if b <= c {
        b
    } else {
        c
    }
}

/// Total bytes in a sequence of emitted pieces.
pub open spec fn sum_len(em: Seq<(Seq<u8>, Option<u32>)>) -> nat
    decreases em.len(),
{
    if em.len() == 0 {
        0
    } else {
        em[0].0.len() + sum_len(em.drop_first())
    }
}

/// Concatenation of the bytes in a queue, in order.
pub open spec fn join_bytes(q: Seq<(Seq<u8>, Option<u32>)>) -> Seq<u8>
    decreases q.len(),
{
    if q.len() == 0 {
        Seq::empty()
    } else {
        q[0].0 + join_bytes(q.drop_first())
    }
}

/// Flow-control safety of draining: the emitted pieces together use no more
/// credit than was available, each piece fits the packet bound, and the
/// credit left is exactly what the emitted pieces did not use.
pub proof fn lemma_drain_window_safe(q: Seq<(Seq<u8>, Option<u32>)>, w: nat, maxp: nat)
    ensures
        ({
            let r = spec_drain(q, w, maxp);
            &&& sum_len(r.0) <= w
            &&& r.2 == w - sum_len(r.0)
            &&& forall|i: int| 0 <= i < r.0.len() ==> 1 <= (#[trigger] r.0[i]).0.len() <= maxp
        }),
    decreases q.len(), w,
{
    if q.len() == 0 || w == 0 || maxp == 0 {
    } else {
        let head = q[0];
        let n = head.0.len();
        if n == 0 {
            lemma_drain_window_safe(q.drop_first(), w, maxp);
        } else {
            let k = min3(n, w, maxp);
            if k == n {
                lemma_drain_window_safe(q.drop_first(), (w - k) as nat, maxp);
                let r = spec_drain(q.drop_first(), (w - k) as nat, maxp);
                assert((seq![head] + r.0).drop_first() =~= r.0);
            } else {
                let q2 = q.update(0, (head.0.skip(k as int), head.1));
                lemma_drain_window_safe(q2, (w - k) as nat, maxp);
                let r = spec_drain(q2, (w - k) as nat, maxp);
                assert((seq![(head.0.take(k as int), head.1)] + r.0).drop_first() =~= r.0);
            }
        }
    }
}

/// Draining loses and reorders nothing: the emitted bytes followed by the
/// bytes still queued are exactly the bytes that were queued before.
pub proof fn lemma_drain_preserves_bytes(q: Seq<(Seq<u8>, Option<u32>)>, w: nat, maxp: nat)
    ensures
        ({
            let r = spec_drain(q, w, maxp);
            join_bytes(r.0) + join_bytes(r.1) == join_bytes(q)
        }),
    decreases q.len(), w,
{
    if q.len() == 0 || w == 0 || maxp == 0 {
        assert(join_bytes(spec_drain(q, w, maxp).0) + join_bytes(q) =~= join_bytes(q));
    } else {
        let head = q[0];
        let n = head.0.len();
        if n == 0 {
            lemma_drain_preserves_bytes(q.drop_first(), w, maxp);
            assert(head.0 =~= Seq::<u8>::empty());
            assert(join_bytes(q) =~= join_bytes(q.drop_first()));
        } else {
            let k = min3(n, w, maxp);
            if k == n {
                lemma_drain_preserves_bytes(q.drop_first(), (w - k) as nat, maxp);
                let r = spec_drain(q.drop_first(), (w - k) as nat, maxp);
                assert((seq![head] + r.0).drop_first() =~= r.0);
                assert(join_bytes(seq![head] + r.0) == head.0 + join_bytes(r.0));
                assert(head.0 + (join_bytes(r.0) + join_bytes(r.1)) =~= (head.0 + join_bytes(r.0))
                    + join_bytes(r.1));
            } else {
                let q2 = q.update(0, (head.0.skip(k as int), head.1));
                lemma_drain_preserves_bytes(q2, (w - k) as nat, maxp);
                let r = spec_drain(q2, (w - k) as nat, maxp);
                let piece = (head.0.take(k as int), head.1);
                assert((seq![piece] + r.0).drop_first() =~= r.0);
                assert(join_bytes(seq![piece] + r.0) == piece.0 + join_bytes(r.0));
                assert(q2.drop_first() =~= q.drop_first());
                assert(join_bytes(q2) == head.0.skip(k as int) + join_bytes(q.drop_first()));
                assert(head.0.take(k as int) + head.0.skip(k as int) =~= head.0);
                assert(piece.0 + (join_bytes(r.0) + join_bytes(r.1)) =~= (piece.0 + join_bytes(
                    r.0,
                )) + join_bytes(r.1));
                assert(piece.0 + join_bytes(q2) =~= join_bytes(q));
            }
        }
    }
}

/// For every emitted piece, the credit available just before it covered its
/// length: the prefix sums of the emitted lengths never exceed the credit
/// that was available at the start.
pub proof fn lemma_drain_per_packet(q: Seq<(Seq<u8>, Option<u32>)>, w: nat, maxp: nat)
    ensures
        ({
            let r = spec_drain(q, w, maxp);
            forall|i: int|
                0 <= i < r.0.len() ==> sum_len(#[trigger] r.0.take(i)) + r.0[i].0.len() <= w
        }),
    decreases q.len(), w,
{
    let r = spec_drain(q, w, maxp);
    lemma_drain_window_safe(q, w, maxp);
    assert forall|i: int| 0 <= i < r.0.len() implies sum_len(#[trigger] r.0.take(i))
        + r.0[i].0.len() <= w by {
        lemma_sum_len_take(r.0, i + 1);
        lemma_sum_len_take_step(r.0, i);
    }
}

/// The sum over a prefix is at most the sum over the whole.
pub proof fn lemma_sum_len_take(em: Seq<(Seq<u8>, Option<u32>)>, i: int)
    requires
        0 <= i <= em.len(),
    ensures
        sum_len(em.take(i)) <= sum_len(em),
    decreases em.len(),
{
    if em.len() == 0 || i == 0 {
        assert(em.take(0) =~= Seq::empty());
    } else {
        lemma_sum_len_take(em.drop_first(), i - 1);
        assert(em.take(i).drop_first() =~= em.drop_first().take(i - 1));
        assert(em.take(i)[0] == em[0]);
    }
}

/// Extending a prefix by one element adds that element's length to its sum.
pub proof fn lemma_sum_len_take_step(em: Seq<(Seq<u8>, Option<u32>)>, i: int)
    requires
        0 <= i < em.len(),
    ensures
        sum_len(em.take(i + 1)) == sum_len(em.take(i)) + em[i].0.len(),
    decreases i,
{
    if i == 0 {
        assert(em.take(0) =~= Seq::empty());
        assert(em.take(1).drop_first() =~= Seq::empty());
        assert(em.take(1)[0] == em[0]);
    } else {
        lemma_sum_len_take_step(em.drop_first(), i - 1);
        assert(em.take(i + 1).drop_first() =~= em.drop_first().take(i));
        assert(em.take(i).drop_first() =~= em.drop_first().take(i - 1));
        assert(em.take(i + 1)[0] == em[0]);
        assert(em.take(i)[0] == em[0]);
        assert(em.drop_first()[i - 1] == em[i]);
    }
}


/// The byte sequences of a queue of packet payloads.
pub open spec fn payload_views(w: Seq<Vec<u8>>) -> Seq<Seq<u8>> {
    w.map(|i: int, v: Vec<u8>| v@)
}

/// The payloads of the packets that a drain emits for channel `recipient`.
pub open spec fn payloads_of(recipient: u32, em: Seq<(Seq<u8>, Option<u32>)>) -> Seq<Seq<u8>> {
    em.map(|i: int, p: (Seq<u8>, Option<u32>)| data_packet_payload(recipient, p.1, p.0))
}

/// Greedy executable drain: emits one data packet per piece into `write`,
/// consuming window credit, and returns the queue that remains, the credit
/// left, and the number of payload bytes sent. Mirrors [`spec_drain`].
#[verifier::rlimit(30)]
#[verifier::spinoff_prover]
fn drain_rec(queue: Vec<PendingChunk>, w: u32, maxp: u32, recipient: u32, write: &mut Vec<
    Vec<u8>,
>) -> (res: (Vec<PendingChunk>, u32, usize))
    requires
        forall|i: int| 0 <= i < queue@.len() ==> (#[trigger] queue@[i]).wf(),
        maxp <= DATA_CHUNK_CAP,
    ensures
        ({
            let r = spec_drain(queue_view(queue@), w as nat, maxp as nat);
            &&& queue_view(res.0@) == r.1
            &&& res.1 == r.2
            &&& res.2 == sum_len(r.0)
            &&& payload_views(final(write)@) == payload_views(old(write)@) + payloads_of(
                recipient,
                r.0,
            )
            &&& forall|i: int| 0 <= i < res.0@.len() ==> (#[trigger] res.0@[i]).wf()
            &&& forall|i: int|
                0 <= i < r.0.len() ==> 1 <= data_packet_payload(
                    recipient,
                    (#[trigger] r.0[i]).1,
                    r.0[i].0,
                ).len() <= MAX_PAYLOAD
        }),
    decreases queue@.len(), w,
{
    let ghost q0 = queue_view(queue@);
    let ghost ws = payload_views(old(write)@);
    proof {
        lemma_drain_window_safe(q0, w as nat, maxp as nat);
    }
    if queue.len() == 0 || w == 0 || maxp == 0 {
        proof {
            assert(ws + payloads_of(recipient, Seq::empty()) =~= ws);
        }
        return (queue, w, 0);
    }
    let head_total = queue[0].data.len();
    let off = queue[0].offset;
    let head_len = head_total - off;
    if head_len == 0 {
        let mut q = queue;
        let _dropped = q.remove(0);
        proof {
            assert(queue_view(q@) =~= q0.drop_first());
        }
        return drain_rec(q, w, maxp, recipient, write);
    }
    let k0: usize = if (w as usize) < (maxp as usize) {
        w as usize
    } else {
        maxp as usize
    };
    let k: usize = if head_len < k0 {
        head_len
    } else {
        k0
    };
    proof {
        assert(k as nat == min3(q0[0].0.len(), w as nat, maxp as nat));
    }
    let mut payload: Vec<u8> = Vec::new();
    let s: &[u8] = queue[0].data.as_ref();
    let piece = vstd::slice::slice_subrange(s, off, off + k);
    match queue[0].ext {
        Option::None => {
            payload.push(msg::CHANNEL_DATA);
            crate::codec::push_u32_be_vec(&mut payload, recipient);
        },
        Option::Some(e) => {
            payload.push(msg::CHANNEL_EXTENDED_DATA);
            crate::codec::push_u32_be_vec(&mut payload, recipient);
            crate::codec::push_u32_be_vec(&mut payload, e);
        },
    }
    crate::codec::push_u32_be_vec(&mut payload, k as u32);
    let mut pv = vstd::slice::slice_to_vec(piece);
    payload.append(&mut pv);
    let ghost head = q0[0];
    let ghost sent_piece = (head.0.take(k as int), head.1);
    proof {
        assert(piece@ =~= head.0.take(k as int));
        assert(payload@ =~= data_packet_payload(recipient, head.1, sent_piece.0));
    }
    write.push(payload);
    let mut q = queue;
    if off + k == head_total {
        let _dropped = q.remove(0);
        proof {
            assert(queue_view(q@) =~= q0.drop_first());
        }
    } else {
        let mut c = q.remove(0);
        c.offset = off + k;
        q.insert(0, c);
        proof {
            assert(cv_bytes(c.data).skip((off + k) as int) =~= head.0.skip(k as int));
            assert(queue_view(q@) =~= q0.update(0, (head.0.skip(k as int), head.1)));
        }
    }
    let ghost q1 = queue_view(q@);
    proof {
        lemma_drain_window_safe(q1, (w - k) as nat, maxp as nat);
    }
    let (q2, w2, sent_tail) = drain_rec(q, w - (k as u32), maxp, recipient, write);
    let ghost r_tail = spec_drain(q1, (w - k) as nat, maxp as nat);
    let ghost r_all = spec_drain(q0, w as nat, maxp as nat);
    proof {
        assert(r_all.0 == seq![sent_piece] + r_tail.0 && r_all.1 == r_tail.1 && r_all.2
            == r_tail.2);
        assert((seq![sent_piece] + r_tail.0).drop_first() =~= r_tail.0);
        assert(sum_len(r_all.0) == k + sum_len(r_tail.0));
        assert(payloads_of(recipient, r_all.0) =~= seq![
            data_packet_payload(recipient, head.1, sent_piece.0),
        ] + payloads_of(recipient, r_tail.0));
        assert(ws + payloads_of(recipient, r_all.0) =~= (ws.push(
            data_packet_payload(recipient, head.1, sent_piece.0),
        )) + payloads_of(recipient, r_tail.0));
        assert(payload_views(final(write)@) =~= ws + payloads_of(recipient, r_all.0));
    }
    (q2, w2, k + sent_tail)
}


/// Progress of the post-handshake state machine of one connection.
#[derive(Clone, Copy, Debug, PartialEq, Eq, Structural)]
pub enum EncryptedState {
    WaitingAuth,
    InitCompression,
    Authenticated,
}

/// Progress of an in-flight rekey. The key-exchange internals are outside
/// this core; the session only needs to know that a rekey is under way and
/// whether its own NEWKEYS has gone out.
#[derive(Clone, Copy, Debug, PartialEq, Eq, Structural)]
pub enum RekeyState {
    /// Our KEXINIT is on the wire; waiting for the peer's.
    KexInitSent,
    /// Our NEWKEYS is on the wire; waiting for the peer's.
    NewKeysSent,
}

/// All post-handshake protocol state of one connection.
pub struct Encrypted {
    pub state: EncryptedState,
    /// The channel table: local channel id to channel record.
    pub channels: HashMap<u32, ChannelParams>,
    /// The most recently allocated channel id.
    pub last_channel_id: u32,
    /// Payloads of packets waiting to be sealed into the wire buffer.
    pub write: Vec<Vec<u8>>,
    /// `Some` while a rekey is in progress; gates all user traffic.
    pub rekey: Option<RekeyState>,
}

/// The record a fresh, locally opened channel starts with: unconfirmed, with
/// no send credit until the peer's confirmation brings its window, and an
/// empty pending queue.
pub open spec fn is_fresh_channel(c: ChannelParams, window_size: u32, maximum_packet_size: u32) -> bool {
    &&& c.recipient_channel == 0
    &&& c.sender_window_size == 0
    &&& c.sender_maximum_packet_size == 0
    &&& c.recipient_window_size == window_size
    &&& c.recipient_maximum_packet_size == maximum_packet_size
    &&& !c.confirmed
    &&& !c.wants_reply
    &&& c.pending_data@.len() == 0
    &&& !c.eof_sent
    &&& !c.eof_received
    &&& !c.close_sent
    &&& !c.close_received
}

impl Encrypted {
    /// The payloads queued for sealing, as byte sequences.
    pub open spec fn write_payloads(self) -> Seq<Seq<u8>> {
        payload_views(self.write@)
    }

    pub open spec fn wf(self) -> bool {
        &&& forall|id: u32|
            self.channels@.contains_key(id) ==> (#[trigger] self.channels@[id]).wf()
        &&& forall|i: int|
            0 <= i < self.write@.len() ==> 1 <= (#[trigger] self.write@[i])@.len() <= MAX_PAYLOAD
    }

    pub fn new() -> (r: Encrypted)
        ensures
            r.wf(),
            r.state == EncryptedState::WaitingAuth,
            r.channels@ == Map::<u32, ChannelParams>::empty(),
            r.last_channel_id == 0,
            r.write_payloads() == Seq::<Seq<u8>>::empty(),
            r.rekey == None::<RekeyState>,
    {
        let r = Encrypted {
            state: EncryptedState::WaitingAuth,
            channels: HashMap::new(),
            last_channel_id: 0,
            write: Vec::new(),
            rekey: None,
        };
        proof {
            assert(r.write_payloads() =~= Seq::<Seq<u8>>::empty());
        }
        r
    }
}

/// Finds an id that is not in the table, starting just after `last` and
/// skipping live ids (wrapping at 32 bits). Termination is by pigeonhole:
/// the table has fewer entries than there are ids.
fn fresh_id(channels: &HashMap<u32, ChannelParams>, last: u32) -> (r: u32)
    requires
        channels@.dom().len() < 0xffff_ffff,
    ensures
        !channels@.contains_key(r),
{
    let ghost m = channels@;
    let mut candidate: u32 = if last == u32::MAX {
        0
    } else {
        last + 1
    };
    let ghost mut js: Seq<u32> = Seq::empty();
    proof {
        lemma_wrap_add32_zero(last);
        lemma_wrap_add32_succ(last, 0);
    }
    loop
        invariant
            channels@ == m,
            m.dom().finite(),
            m.dom().len() < 0xffff_ffff,
            js.len() <= m.dom().len(),
            forall|j: int| 0 <= j < js.len() ==> m.dom().contains(#[trigger] js[j]),
            forall|j: int| 0 <= j < js.len() ==> js[j] == wrap_add32(last, (j + 1) as nat),
            candidate == wrap_add32(last, (js.len() + 1) as nat),
        decreases m.dom().len() - js.len(),
    {
        if !channels.contains_key(&candidate) {
            return candidate;
        }
        proof {
            js = js.push(candidate);
            assert forall|j1: int, j2: int|
                0 <= j1 < j2 < js.len() implies js[j1] != js[j2] by {
                if js[j1] == js[j2] {
                    lemma_wrap_add32_injective(last, (j1 + 1) as nat, (j2 + 1) as nat);
                }
            }
            assert(js.no_duplicates());
            js.unique_seq_to_set();
            assert(js.to_set().subset_of(m.dom()));
            vstd::set_lib::lemma_len_subset(js.to_set(), m.dom());
            lemma_wrap_add32_succ(last, js.len() as nat);
        }
        candidate = if candidate == u32::MAX {
            0
        } else {
            candidate + 1
        };
    }
}

impl Encrypted {
    /// Allocates a fresh channel id (monotone, skipping live ids on wrap) and
    /// inserts an unconfirmed record for it.
    pub fn new_channel(&mut self, window_size: u32, maximum_packet_size: u32) -> (r: ChannelId)
        requires
            old(self).wf(),
            old(self).channels@.dom().len() < 0xffff_ffff,
        ensures
            final(self).wf(),
            !old(self).channels@.contains_key(r.0),
            final(self).channels@ == old(self).channels@.insert(
                r.0,
                final(self).channels@[r.0],
            ),
            is_fresh_channel(final(self).channels@[r.0], window_size, maximum_packet_size),
            final(self).last_channel_id == r.0,
            final(self).state == old(self).state,
            final(self).write == old(self).write,
            final(self).rekey == old(self).rekey,
    {
        let id = fresh_id(&self.channels, self.last_channel_id);
        self.last_channel_id = id;
        let rec = ChannelParams {
            recipient_channel: 0,
            sender_window_size: 0,
            sender_maximum_packet_size: 0,
            recipient_window_size: window_size,
            recipient_maximum_packet_size: maximum_packet_size,
            confirmed: false,
            wants_reply: false,
            pending_data: Vec::new(),
            eof_sent: false,
            eof_received: false,
            close_sent: false,
            close_received: false,
        };
        self.channels.insert(id, rec);
        ChannelId(id)
    }
}


/// The payload of a one-byte channel message: the opcode and the peer's id
/// for the channel (CHANNEL_EOF, CHANNEL_CLOSE).
pub open spec fn byte_packet_payload(op: u8, recipient: u32) -> Seq<u8> {
    seq![op] + u32_be(recipient)
}

/// Equality of two channel records on everything except the send window and
/// the pending queue.
pub open spec fn same_except_sending(a: ChannelParams, b: ChannelParams) -> bool {
    &&& a.recipient_channel == b.recipient_channel
    &&& a.sender_maximum_packet_size == b.sender_maximum_packet_size
    &&& a.recipient_window_size == b.recipient_window_size
    &&& a.recipient_maximum_packet_size == b.recipient_maximum_packet_size
    &&& a.confirmed == b.confirmed
    &&& a.wants_reply == b.wants_reply
    &&& a.eof_sent == b.eof_sent
    &&& a.eof_received == b.eof_received
    &&& a.close_sent == b.close_sent
    &&& a.close_received == b.close_received
}

impl Encrypted {
    /// The result a data send or a pending flush leaves behind on channel
    /// `id`, described against the old state: the queue was `q1`, the drain
    /// of `q1` decides the new queue, the new window, and what was appended
    /// to the write queue.
    pub open spec fn drained_to(
        self,
        other: Encrypted,
        id: u32,
        q1: Seq<(Seq<u8>, Option<u32>)>,
    ) -> bool {
        let ch0 = self.channels@[id];
        let r = spec_drain(q1, ch0.sender_window_size as nat, ch0.sender_maximum_packet_size as nat);
        &&& other.channels@ == self.channels@.insert(id, other.channels@[id])
        &&& queue_view(other.channels@[id].pending_data@) == r.1
        &&& other.channels@[id].sender_window_size == r.2
        &&& same_except_sending(other.channels@[id], ch0)
        &&& other.write_payloads() == self.write_payloads() + payloads_of(ch0.recipient_channel, r.0)
        &&& other.state == self.state
        &&& other.last_channel_id == self.last_channel_id
        &&& other.rekey == self.rekey
    }

    /// Nothing observable changed.
    pub open spec fn unchanged(self, other: Encrypted) -> bool {
        &&& other.channels@ == self.channels@
        &&& other.write_payloads() == self.write_payloads()
        &&& other.state == self.state
        &&& other.last_channel_id == self.last_channel_id
        &&& other.rekey == self.rekey
    }

    /// Queues `data` for channel `channel` and sends as much of the queue as
    /// the window and packet bound allow, one CHANNEL_DATA packet per piece.
    pub fn data(&mut self, channel: ChannelId, data: CryptoVec) -> (r: Result<(), Error>)
        requires
            old(self).wf(),
        ensures
            final(self).wf(),
            match r {
                Ok(()) => {
                    let ch0 = old(self).channels@[channel.0];
                    &&& old(self).channels@.contains_key(channel.0)
                    &&& ch0.may_send()
                    &&& old(self).drained_to(
                        *final(self),
                        channel.0,
                        queue_view(ch0.pending_data@).push((cv_bytes(data), None)),
                    )
                },
                Err(e) => {
                    &&& e == Error::Inconsistent
                    &&& old(self).unchanged(*final(self))
                    &&& !(old(self).channels@.contains_key(channel.0) && old(
                        self,
                    ).channels@[channel.0].may_send())
                },
            },
    {
        self.queue_and_drain(channel, data, None)
    }

    /// Queues `data` for the extended stream `ext` and drains, one
    /// CHANNEL_EXTENDED_DATA packet per piece.
    pub fn extended_data(&mut self, channel: ChannelId, ext: u32, data: CryptoVec) -> (r: Result<
        (),
        Error,
    >)
        requires
            old(self).wf(),
        ensures
            final(self).wf(),
            match r {
                Ok(()) => {
                    let ch0 = old(self).channels@[channel.0];
                    &&& old(self).channels@.contains_key(channel.0)
                    &&& ch0.may_send()
                    &&& old(self).drained_to(
                        *final(self),
                        channel.0,
                        queue_view(ch0.pending_data@).push((cv_bytes(data), Some(ext))),
                    )
                },
                Err(e) => {
                    &&& e == Error::Inconsistent
                    &&& old(self).unchanged(*final(self))
                    &&& !(old(self).channels@.contains_key(channel.0) && old(
                        self,
                    ).channels@[channel.0].may_send())
                },
            },
    {
        self.queue_and_drain(channel, data, Some(ext))
    }

    fn queue_and_drain(&mut self, channel: ChannelId, data: CryptoVec, ext: Option<u32>) -> (r:
        Result<(), Error>)
        requires
            old(self).wf(),
        ensures
            final(self).wf(),
            match r {
                Ok(()) => {
                    let ch0 = old(self).channels@[channel.0];
                    &&& old(self).channels@.contains_key(channel.0)
                    &&& ch0.may_send()
                    &&& old(self).drained_to(
                        *final(self),
                        channel.0,
                        queue_view(ch0.pending_data@).push((cv_bytes(data), ext)),
                    )
                },
                Err(e) => {
                    &&& e == Error::Inconsistent
                    &&& old(self).unchanged(*final(self))
                    &&& !(old(self).channels@.contains_key(channel.0) && old(
                        self,
                    ).channels@[channel.0].may_send())
                },
            },
    {
        let ghost m0 = self.channels@;
        let ch = match self.channels.remove(&channel.0) {
            Some(c) => c,
            None => {
                proof {
                    assert(self.channels@ =~= m0);
                }
                return Err(Error::Inconsistent);
            },
        };
        let ghost ch0 = ch;
        if !(ch.confirmed && !ch.eof_sent && !ch.close_sent) {
            self.channels.insert(channel.0, ch);
            proof {
                assert(self.channels@ =~= m0);
            }
            return Err(Error::Inconsistent);
        }
        let ChannelParams {
            recipient_channel,
            sender_window_size,
            sender_maximum_packet_size,
            recipient_window_size,
            recipient_maximum_packet_size,
            confirmed,
            wants_reply,
            mut pending_data,
            eof_sent,
            eof_received,
            close_sent,
            close_received,
        } = ch;
        pending_data.push(PendingChunk { data, offset: 0, ext });
        proof {
            assert(cv_bytes(data).skip(0) =~= cv_bytes(data));
            assert(queue_view(pending_data@) =~~= queue_view(ch0.pending_data@).push(
                (cv_bytes(data), ext),
            ));
        }
        let (q2, w2, _sent) = drain_rec(
            pending_data,
            sender_window_size,
            sender_maximum_packet_size,
            recipient_channel,
            &mut self.write,
        );
        let ch2 = ChannelParams {
            recipient_channel,
            sender_window_size: w2,
            sender_maximum_packet_size,
            recipient_window_size,
            recipient_maximum_packet_size,
            confirmed,
            wants_reply,
            pending_data: q2,
            eof_sent,
            eof_received,
            close_sent,
            close_received,
        };
        self.channels.insert(channel.0, ch2);
        proof {
            assert(self.channels@ =~= m0.insert(channel.0, ch2));
            let w0 = old(self).write@;
            assert(m0[channel.0].wf());
            let r0 = spec_drain(
                queue_view(ch0.pending_data@).push((cv_bytes(data), ext)),
                ch0.sender_window_size as nat,
                ch0.sender_maximum_packet_size as nat,
            ).0;
            assert(payload_views(self.write@) == payload_views(w0) + payloads_of(
                ch0.recipient_channel,
                r0,
            ));
            assert(payload_views(self.write@).len() == self.write@.len());
            assert(payload_views(w0).len() == w0.len());
            assert(payloads_of(ch0.recipient_channel, r0).len() == r0.len());
            assert(self.write@.len() == w0.len() + r0.len());
            assert forall|i: int|
                0 <= i < self.write@.len() implies 1 <= (#[trigger] self.write@[i])@.len()
                <= MAX_PAYLOAD by {
                assert(payload_views(self.write@)[i] == self.write@[i]@);
                if i < w0.len() {
                    assert(payload_views(w0)[i] == w0[i]@);
                    assert(1 <= (old(self).write@[i])@.len() <= MAX_PAYLOAD);
                } else {
                    let j = i - w0.len();
                    assert(payloads_of(ch0.recipient_channel, r0)[j] == data_packet_payload(
                        ch0.recipient_channel,
                        r0[j].1,
                        r0[j].0,
                    ));
                }
            }
        }
        Ok(())
    }

    /// Retries sending a channel's queued chunks after the peer granted more
    /// window; returns the number of payload bytes sent. A missing channel
    /// sends nothing.
    pub fn flush_pending(&mut self, channel: ChannelId) -> (sent: usize)
        requires
            old(self).wf(),
        ensures
            final(self).wf(),
            old(self).channels@.contains_key(channel.0) ==> {
                let ch0 = old(self).channels@[channel.0];
                let r = spec_drain(
                    queue_view(ch0.pending_data@),
                    ch0.sender_window_size as nat,
                    ch0.sender_maximum_packet_size as nat,
                );
                &&& old(self).drained_to(*final(self), channel.0, queue_view(ch0.pending_data@))
                &&& sent == sum_len(r.0)
            },
            !old(self).channels@.contains_key(channel.0) ==> old(self).unchanged(*final(self))
                && sent == 0,
    {
        let ghost m0 = self.channels@;
        let ch = match self.channels.remove(&channel.0) {
            Some(c) => c,
            None => {
                proof {
                    assert(self.channels@ =~= m0);
                }
                return 0;
            },
        };
        let ghost ch0 = ch;
        let ChannelParams {
            recipient_channel,
            sender_window_size,
            sender_maximum_packet_size,
            recipient_window_size,
            recipient_maximum_packet_size,
            confirmed,
            wants_reply,
            pending_data,
            eof_sent,
            eof_received,
            close_sent,
            close_received,
        } = ch;
        let (q2, w2, sent) = drain_rec(
            pending_data,
            sender_window_size,
            sender_maximum_packet_size,
            recipient_channel,
            &mut self.write,
        );
        let ch2 = ChannelParams {
            recipient_channel,
            sender_window_size: w2,
            sender_maximum_packet_size,
            recipient_window_size,
            recipient_maximum_packet_size,
            confirmed,
            wants_reply,
            pending_data: q2,
            eof_sent,
            eof_received,
            close_sent,
            close_received,
        };
        self.channels.insert(channel.0, ch2);
        proof {
            assert(self.channels@ =~= m0.insert(channel.0, ch2));
            let w0 = old(self).write@;
            assert(m0[channel.0].wf());
            let r0 = spec_drain(
                queue_view(ch0.pending_data@),
                ch0.sender_window_size as nat,
                ch0.sender_maximum_packet_size as nat,
            ).0;
            assert(payload_views(self.write@) == payload_views(w0) + payloads_of(
                ch0.recipient_channel,
                r0,
            ));
            assert(payload_views(self.write@).len() == self.write@.len());
            assert(payload_views(w0).len() == w0.len());
            assert(payloads_of(ch0.recipient_channel, r0).len() == r0.len());
            assert(self.write@.len() == w0.len() + r0.len());
            assert forall|i: int|
                0 <= i < self.write@.len() implies 1 <= (#[trigger] self.write@[i])@.len()
                <= MAX_PAYLOAD by {
                assert(payload_views(self.write@)[i] == self.write@[i]@);
                if i < w0.len() {
                    assert(payload_views(w0)[i] == w0[i]@);
                    assert(1 <= (old(self).write@[i])@.len() <= MAX_PAYLOAD);
                } else {
                    let j = i - w0.len();
                    assert(payloads_of(ch0.recipient_channel, r0)[j] == data_packet_payload(
                        ch0.recipient_channel,
                        r0[j].1,
                        r0[j].0,
                    ));
                }
            }
        }
        sent
    }

    /// Grants more send credit on `WINDOW_ADJUST` from the peer: a saturating
    /// add, clamped to the largest 32-bit value. Returns the new window.
    pub fn adjust_window(&mut self, channel: ChannelId, amount: u32) -> (r: Result<u32, Error>)
        requires
            old(self).wf(),
        ensures
            final(self).wf(),
            match r {
                Ok(nw) => {
                    let ch0 = old(self).channels@[channel.0];
                    &&& old(self).channels@.contains_key(channel.0)
                    &&& nw == if ch0.sender_window_size + amount <= u32::MAX {
                        ch0.sender_window_size + amount
                    } else {
                        u32::MAX as int
                    }
                    &&& final(self).channels@ == old(self).channels@.insert(
                        channel.0,
                        ChannelParams { sender_window_size: nw, ..ch0 },
                    )
                    &&& final(self).write_payloads() == old(self).write_payloads()
                    &&& final(self).state == old(self).state
                    &&& final(self).last_channel_id == old(self).last_channel_id
                    &&& final(self).rekey == old(self).rekey
                },
                Err(e) => {
                    &&& e == Error::Inconsistent
                    &&& old(self).unchanged(*final(self))
                    &&& !old(self).channels@.contains_key(channel.0)
                },
            },
    {
        let ghost m0 = self.channels@;
        let mut ch = match self.channels.remove(&channel.0) {
            Some(c) => c,
            None => {
                proof {
                    assert(self.channels@ =~= m0);
                }
                return Err(Error::Inconsistent);
            },
        };
        let nw = if ch.sender_window_size <= u32::MAX - amount {
            ch.sender_window_size + amount
        } else {
            u32::MAX
        };
        ch.sender_window_size = nw;
        self.channels.insert(channel.0, ch);
        proof {
            assert(self.channels@ =~= m0.insert(channel.0, self.channels@[channel.0]));
        }
        Ok(nw)
    }

    /// Sends EOF on a channel: one CHANNEL_EOF packet; no data may follow.
    pub fn eof(&mut self, channel: ChannelId) -> (r: Result<(), Error>)
        requires
            old(self).wf(),
        ensures
            final(self).wf(),
            match r {
                Ok(()) => {
                    let ch0 = old(self).channels@[channel.0];
                    &&& old(self).channels@.contains_key(channel.0)
                    &&& ch0.may_send()
                    &&& final(self).channels@ == old(self).channels@.insert(
                        channel.0,
                        ChannelParams { eof_sent: true, ..ch0 },
                    )
                    &&& final(self).write_payloads() == old(self).write_payloads().push(
                        byte_packet_payload(msg::CHANNEL_EOF, ch0.recipient_channel),
                    )
                    &&& final(self).state == old(self).state
                    &&& final(self).last_channel_id == old(self).last_channel_id
                    &&& final(self).rekey == old(self).rekey
                },
                Err(e) => {
                    &&& e == Error::Inconsistent
                    &&& old(self).unchanged(*final(self))
                    &&& !(old(self).channels@.contains_key(channel.0) && old(
                        self,
                    ).channels@[channel.0].may_send())
                },
            },
    {
        let ghost m0 = self.channels@;
        let mut ch = match self.channels.remove(&channel.0) {
            Some(c) => c,
            None => {
                proof {
                    assert(self.channels@ =~= m0);
                }
                return Err(Error::Inconsistent);
            },
        };
        if !(ch.confirmed && !ch.eof_sent && !ch.close_sent) {
            self.channels.insert(channel.0, ch);
            proof {
                assert(self.channels@ =~= m0);
            }
            return Err(Error::Inconsistent);
        }
        let mut payload: Vec<u8> = Vec::new();
        payload.push(msg::CHANNEL_EOF);
        crate::codec::push_u32_be_vec(&mut payload, ch.recipient_channel);
        proof {
            assert(payload@ =~= byte_packet_payload(msg::CHANNEL_EOF, ch.recipient_channel));
        }
        self.write.push(payload);
        ch.eof_sent = true;
        self.channels.insert(channel.0, ch);
        proof {
            assert(self.channels@ =~= m0.insert(channel.0, self.channels@[channel.0]));
            assert(self.write_payloads() =~= old(self).write_payloads().push(
                byte_packet_payload(msg::CHANNEL_EOF, old(self).channels@[channel.0].recipient_channel),
            ));
        }
        Ok(())
    }

    /// Sends CHANNEL_CLOSE. If the peer's close already arrived, the channel
    /// is now closed on both sides and leaves the table.
    pub fn close(&mut self, channel: ChannelId) -> (r: Result<(), Error>)
        requires
            old(self).wf(),
        ensures
            final(self).wf(),
            match r {
                Ok(()) => {
                    let ch0 = old(self).channels@[channel.0];
                    &&& old(self).channels@.contains_key(channel.0)
                    &&& !ch0.close_sent
                    &&& final(self).write_payloads() == old(self).write_payloads().push(
                        byte_packet_payload(msg::CHANNEL_CLOSE, ch0.recipient_channel),
                    )
                    &&& final(self).channels@ == if ch0.close_received {
                        old(self).channels@.remove(channel.0)
                    } else {
                        old(self).channels@.insert(
                            channel.0,
                            ChannelParams { close_sent: true, ..ch0 },
                        )
                    }
                    &&& final(self).state == old(self).state
                    &&& final(self).last_channel_id == old(self).last_channel_id
                    &&& final(self).rekey == old(self).rekey
                },
                Err(e) => {
                    &&& e == Error::Inconsistent
                    &&& old(self).unchanged(*final(self))
                    &&& !(old(self).channels@.contains_key(channel.0) && !old(
                        self,
                    ).channels@[channel.0].close_sent)
                },
            },
    {
        let ghost m0 = self.channels@;
        let mut ch = match self.channels.remove(&channel.0) {
            Some(c) => c,
            None => {
                proof {
                    assert(self.channels@ =~= m0);
                }
                return Err(Error::Inconsistent);
            },
        };
        if ch.close_sent {
            self.channels.insert(channel.0, ch);
            proof {
                assert(self.channels@ =~= m0);
            }
            return Err(Error::Inconsistent);
        }
        let mut payload: Vec<u8> = Vec::new();
        payload.push(msg::CHANNEL_CLOSE);
        crate::codec::push_u32_be_vec(&mut payload, ch.recipient_channel);
        proof {
            assert(payload@ =~= byte_packet_payload(msg::CHANNEL_CLOSE, ch.recipient_channel));
        }
        self.write.push(payload);
        if !ch.close_received {
            ch.close_sent = true;
            self.channels.insert(channel.0, ch);
            proof {
                assert(self.channels@ =~= m0.insert(channel.0, self.channels@[channel.0]));
            }
        } else {
            proof {
                assert(self.channels@ =~= m0.remove(channel.0));
            }
        }
        Ok(())
    }

    /// Records the peer's EOF.
    pub fn peer_eof(&mut self, channel: ChannelId) -> (r: Result<(), Error>)
        requires
            old(self).wf(),
        ensures
            final(self).wf(),
            match r {
                Ok(()) => {
                    let ch0 = old(self).channels@[channel.0];
                    &&& old(self).channels@.contains_key(channel.0)
                    &&& !ch0.eof_received
                    &&& final(self).channels@ == old(self).channels@.insert(
                        channel.0,
                        ChannelParams { eof_received: true, ..ch0 },
                    )
                    &&& final(self).write_payloads() == old(self).write_payloads()
                    &&& final(self).state == old(self).state
                    &&& final(self).last_channel_id == old(self).last_channel_id
                    &&& final(self).rekey == old(self).rekey
                },
                Err(e) => {
                    &&& e == Error::Inconsistent
                    &&& old(self).unchanged(*final(self))
                    &&& !(old(self).channels@.contains_key(channel.0) && !old(
                        self,
                    ).channels@[channel.0].eof_received)
                },
            },
    {
        let ghost m0 = self.channels@;
        let mut ch = match self.channels.remove(&channel.0) {
            Some(c) => c,
            None => {
                proof {
                    assert(self.channels@ =~= m0);
                }
                return Err(Error::Inconsistent);
            },
        };
        if ch.eof_received {
            self.channels.insert(channel.0, ch);
            proof {
                assert(self.channels@ =~= m0);
            }
            return Err(Error::Inconsistent);
        }
        ch.eof_received = true;
        self.channels.insert(channel.0, ch);
        proof {
            assert(self.channels@ =~= m0.insert(channel.0, self.channels@[channel.0]));
        }
        Ok(())
    }

    /// Handles the peer's CHANNEL_CLOSE: if our close has not gone out yet it
    /// goes out now; either way both sides have now closed, so the channel
    /// leaves the table.
    pub fn peer_close(&mut self, channel: ChannelId) -> (r: Result<(), Error>)
        requires
            old(self).wf(),
        ensures
            final(self).wf(),
            match r {
                Ok(()) => {
                    let ch0 = old(self).channels@[channel.0];
                    &&& old(self).channels@.contains_key(channel.0)
                    &&& final(self).channels@ == old(self).channels@.remove(channel.0)
                    &&& final(self).write_payloads() == if ch0.close_sent {
                        old(self).write_payloads()
                    } else {
                        old(self).write_payloads().push(
                            byte_packet_payload(msg::CHANNEL_CLOSE, ch0.recipient_channel),
                        )
                    }
                    &&& final(self).state == old(self).state
                    &&& final(self).last_channel_id == old(self).last_channel_id
                    &&& final(self).rekey == old(self).rekey
                },
                Err(e) => {
                    &&& e == Error::Inconsistent
                    &&& old(self).unchanged(*final(self))
                    &&& !old(self).channels@.contains_key(channel.0)
                },
            },
    {
        let ghost m0 = self.channels@;
        let ch = match self.channels.remove(&channel.0) {
            Some(c) => c,
            None => {
                proof {
                    assert(self.channels@ =~= m0);
                }
                return Err(Error::Inconsistent);
            },
        };
        if !ch.close_sent {
            let mut payload: Vec<u8> = Vec::new();
            payload.push(msg::CHANNEL_CLOSE);
            crate::codec::push_u32_be_vec(&mut payload, ch.recipient_channel);
            proof {
                assert(payload@ =~= byte_packet_payload(msg::CHANNEL_CLOSE, ch.recipient_channel));
            }
            self.write.push(payload);
        }
        proof {
            assert(self.channels@ =~= m0.remove(channel.0));
        }
        Ok(())
    }

    /// Marks a locally opened channel as confirmed by the peer, adopting the
    /// window and packet bound the peer granted (the packet bound clamped to
    /// this codec's chunk cap).
    pub fn confirm_channel(
        &mut self,
        channel: ChannelId,
        recipient: u32,
        window: u32,
        maxp: u32,
    ) -> (r: Result<(), Error>)
        requires
            old(self).wf(),
        ensures
            final(self).wf(),
            match r {
                Ok(()) => {
                    let ch0 = old(self).channels@[channel.0];
                    &&& old(self).channels@.contains_key(channel.0)
                    &&& !ch0.confirmed
                    &&& final(self).channels@ == old(self).channels@.insert(
                        channel.0,
                        ChannelParams {
                            confirmed: true,
                            recipient_channel: recipient,
                            sender_window_size: window,
                            sender_maximum_packet_size: if maxp <= DATA_CHUNK_CAP {
                                maxp
                            } else {
                                DATA_CHUNK_CAP
                            },
                            ..ch0
                        },
                    )
                    &&& final(self).write_payloads() == old(self).write_payloads()
                    &&& final(self).state == old(self).state
                    &&& final(self).last_channel_id == old(self).last_channel_id
                    &&& final(self).rekey == old(self).rekey
                },
                Err(e) => {
                    &&& e == Error::Inconsistent
                    &&& old(self).unchanged(*final(self))
                    &&& !(old(self).channels@.contains_key(channel.0) && !old(
                        self,
                    ).channels@[channel.0].confirmed)
                },
            },
    {
        let ghost m0 = self.channels@;
        let mut ch = match self.channels.remove(&channel.0) {
            Some(c) => c,
            None => {
                proof {
                    assert(self.channels@ =~= m0);
                }
                return Err(Error::Inconsistent);
            },
        };
        if ch.confirmed {
            self.channels.insert(channel.0, ch);
            proof {
                assert(self.channels@ =~= m0);
            }
            return Err(Error::Inconsistent);
        }
        ch.confirmed = true;
        ch.recipient_channel = recipient;
        ch.sender_window_size = window;
        ch.sender_maximum_packet_size = if maxp <= DATA_CHUNK_CAP {
            maxp
        } else {
            DATA_CHUNK_CAP
        };
        self.channels.insert(channel.0, ch);
        proof {
            assert(self.channels@ =~= m0.insert(channel.0, self.channels@[channel.0]));
        }
        Ok(())
    }

    /// The send credit left on a channel; a missing channel has none.
    pub fn sender_window_size(&self, channel: ChannelId) -> (r: usize)
        ensures
            r == if self.channels@.contains_key(channel.0) {
                self.channels@[channel.0].sender_window_size as int
            } else {
                0
            },
    {
        match self.channels.get(&channel.0) {
            Some(ch) => ch.sender_window_size as usize,
            None => 0,
        }
    }

    /// Whether a channel still has chunks waiting for window credit.
    pub fn has_pending_data(&self, channel: ChannelId) -> (r: bool)
        ensures
            r == (self.channels@.contains_key(channel.0)
                && self.channels@[channel.0].pending_data@.len() > 0),
    {
        match self.channels.get(&channel.0) {
            Some(ch) => ch.pending_data.len() > 0,
            None => false,
        }
    }
}

/// Removing keys one at a time, in the given order.
pub open spec fn remove_seq<V>(m: Map<u32, V>, order: Seq<u32>) -> Map<u32, V>
    decreases order.len(),
{
    if order.len() == 0 {
        m
    } else {
        remove_seq(m.remove(order[0]), order.drop_first())
    }
}

/// Opening channels and closing them in any order leaves the table empty:
/// removing each live id exactly once, in whatever order, empties the map.
pub proof fn lemma_close_all_empties<V>(m: Map<u32, V>, order: Seq<u32>)
    requires
        m.dom().finite(),
        order.no_duplicates(),
        order.to_set() == m.dom(),
    ensures
        remove_seq(m, order) == Map::<u32, V>::empty(),
    decreases order.len(),
{
    if order.len() == 0 {
        assert(m.dom() =~= Set::empty());
        assert(m =~= Map::<u32, V>::empty());
    } else {
        let k = order[0];
        let m2 = m.remove(k);
        let rest = order.drop_first();
        assert(order.contains(k));
        assert(order.to_set().contains(k));
        assert(rest.no_duplicates());
        assert(rest.to_set() =~= m2.dom()) by {
            assert forall|x: u32| rest.to_set().contains(x) implies m2.dom().contains(x) by {
                assert(rest.contains(x));
                let i = choose|i: int| 0 <= i < rest.len() && rest[i] == x;
                assert(order[i + 1] == x);
                assert(order.to_set().contains(x));
                assert(x != k);
            }
            assert forall|x: u32| m2.dom().contains(x) implies rest.to_set().contains(x) by {
                assert(order.to_set().contains(x));
                assert(order.contains(x));
                let i = choose|i: int| 0 <= i < order.len() && order[i] == x;
                assert(x != k);
                assert(i != 0);
                assert(rest[i - 1] == x);
                assert(rest.contains(x));
            }
        }
        lemma_close_all_empties(m2, rest);
    }
}


impl Encrypted {
    /// Queues one packet payload for sealing.
    pub fn push_packet_payload(&mut self, payload: Vec<u8>)
        requires
            old(self).wf(),
            1 <= payload@.len() <= MAX_PAYLOAD,
        ensures
            final(self).wf(),
            final(self).write_payloads() == old(self).write_payloads().push(payload@),
            final(self).channels@ == old(self).channels@,
            final(self).state == old(self).state,
            final(self).last_channel_id == old(self).last_channel_id,
            final(self).rekey == old(self).rekey,
    {
        let ghost w0 = self.write@;
        self.write.push(payload);
        proof {
            assert(payload_views(self.write@) =~= payload_views(w0).push(payload@));
            assert forall|i: int|
                0 <= i < self.write@.len() implies 1 <= (#[trigger] self.write@[i])@.len()
                <= MAX_PAYLOAD by {
                if i < w0.len() {
                    assert(self.write@[i] == w0[i]);
                }
            }
        }
    }
}


/// The outcome a drain leaves behind, described against the channel record
/// `ch0` it started from (with table `m0` and packet queue `pay0`): the drain
/// of `ch0`'s pending queue under its window decides the new record at `id`
/// and what was appended to the packet queue.
pub open spec fn drain_outcome(
    m0: Map<u32, ChannelParams>,
    pay0: Seq<Seq<u8>>,
    e1: Encrypted,
    id: u32,
    ch0: ChannelParams,
) -> bool {
    let r = spec_drain(
        queue_view(ch0.pending_data@),
        ch0.sender_window_size as nat,
        ch0.sender_maximum_packet_size as nat,
    );
    &&& e1.channels@ == m0.insert(id, e1.channels@[id])
    &&& queue_view(e1.channels@[id].pending_data@) == r.1
    &&& e1.channels@[id].sender_window_size == r.2
    &&& same_except_sending(e1.channels@[id], ch0)
    &&& e1.write_payloads() == pay0 + payloads_of(ch0.recipient_channel, r.0)
}


impl Encrypted {
    /// Marks whether the last request on the channel asked for a reply.
    pub fn set_wants_reply(&mut self, channel: ChannelId, wants: bool) -> (r: Result<(), Error>)
        requires
            old(self).wf(),
        ensures
            final(self).wf(),
            match r {
                Ok(()) => {
                    let ch0 = old(self).channels@[channel.0];
                    &&& old(self).channels@.contains_key(channel.0)
                    &&& final(self).channels@ == old(self).channels@.insert(
                        channel.0,
                        ChannelParams { wants_reply: wants, ..ch0 },
                    )
                    &&& final(self).write_payloads() == old(self).write_payloads()
                    &&& final(self).state == old(self).state
                    &&& final(self).last_channel_id == old(self).last_channel_id
                    &&& final(self).rekey == old(self).rekey
                },
                Err(e) => {
                    &&& e == Error::Inconsistent
                    &&& old(self).unchanged(*final(self))
                    &&& !old(self).channels@.contains_key(channel.0)
                },
            },
    {
        let ghost m0 = self.channels@;
        let mut ch = match self.channels.remove(&channel.0) {
            Some(c) => c,
            None => {
                proof {
                    assert(self.channels@ =~= m0);
                }
                return Err(Error::Inconsistent);
            },
        };
        ch.wants_reply = wants;
        self.channels.insert(channel.0, ch);
        proof {
            assert(self.channels@ =~= m0.insert(channel.0, self.channels@[channel.0]));
        }
        Ok(())
    }
}

} // verus!
