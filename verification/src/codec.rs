//! The SSH binary packet codec: framing (4-byte length, 1-byte padding
//! length, payload, padding), sealing packets into the outbound wire buffer,
//! and reading packets back out of a byte sequence.
//!
//! Cipher and MAC primitives are outside this core; the codec here works in
//! the clear, parametrized by the cipher's block granularity. The round-trip
//! and well-formedness laws at the bottom of the file are the codec's
//! statement: a wire built from payloads parses back to exactly those
//! payloads, covering every byte.
use vstd::prelude::*;

verus! {

use crate::Error;
use crate::cryptovec::{cv_bytes, CRYPTOVEC_MAX_LEN};
use crate::sshbuffer::SSHBuffer;
use vstd::utf8::encode_utf8;
use vstd::arithmetic::div_mod::{
    lemma_fundamental_div_mod,
    lemma_mod_multiples_basic,
    lemma_mod_division_less_than_divisor,
};

/// Smallest cipher block granularity the packet format allows.
pub const MIN_BLOCK: usize = 8;
/// Largest block granularity this codec accepts; keeps the padding length
/// within one byte.
pub const MAX_BLOCK: usize = 128;
/// Largest admissible value of a packet's length field.
pub const MAX_PACKET_LENGTH: usize = 0x2000000;
/// Largest payload the encoder accepts: leaves room for the padding and the
/// padding-length byte under `MAX_PACKET_LENGTH`.
pub const MAX_PAYLOAD: usize = 0x2000000 - 384;

/// The 32-bit wrapping successor of a packet sequence number.
pub open spec fn seqn_succ(s: u32) -> u32 {
    if s == 0xffff_ffffu32 {
        0u32
    } else {
        (s + 1) as u32
    }
}

/// Big-endian bytes of a 32-bit word.
pub open spec fn u32_be(x: u32) -> Seq<u8> {
    seq![(x >> 24u32) as u8, (x >> 16u32) as u8, (x >> 8u32) as u8, x as u8]
}

/// The 32-bit word read big-endian from four bytes.
pub open spec fn u32_from_be4(b0: u8, b1: u8, b2: u8, b3: u8) -> u32 {
    ((b0 as u32) << 24u32) | ((b1 as u32) << 16u32) | ((b2 as u32) << 8u32) | (b3 as u32)
}

pub open spec fn u32_from_be(b: Seq<u8>) -> u32
    recommends
        b.len() == 4,
{
    u32_from_be4(b[0], b[1], b[2], b[3])
}

pub proof fn lemma_u32_be_inverse(x: u32)
    ensures
        u32_be(x).len() == 4,
        u32_from_be(u32_be(x)) == x,
{
    let b0 = (x >> 24u32) as u8;
    let b1 = (x >> 16u32) as u8;
    let b2 = (x >> 8u32) as u8;
    let b3 = x as u8;
    assert(((b0 as u32) << 24u32) | ((b1 as u32) << 16u32) | ((b2 as u32) << 8u32) | (b3 as u32)
        == x) by (bit_vector)
        requires
            b0 == (x >> 24u32) as u8,
            b1 == (x >> 16u32) as u8,
            b2 == (x >> 8u32) as u8,
            b3 == x as u8,
    ;
}

/// Number of padding bytes for a payload of length `len` under block
/// granularity `block`: the total packet (length field, padding-length byte,
/// payload, padding) is a multiple of `block`, the padding is at least 4
/// bytes, and the total is at least 16 bytes.
pub open spec fn pad_of(len: nat, block: nat) -> nat
    recommends
        block >= MIN_BLOCK,
{
    let r1 = (block as int - ((5 + len) as int) % (block as int)) as nat;
    let r2 = if r1 < 4 {
        (r1 + block) as nat
    } else {
        r1
    };
    if 5 + len + r2 < 16 {
        (r2 + block) as nat
    } else {
        r2
    }
}

pub proof fn lemma_pad_props(len: nat, block: nat)
    requires
        MIN_BLOCK <= block <= MAX_BLOCK,
    ensures
        4 <= pad_of(len, block),
        pad_of(len, block) < 3 * block,
        pad_of(len, block) <= 255,
        ((5 + len + pad_of(len, block)) as int) % (block as int) == 0,
        16 <= 5 + len + pad_of(len, block),
{
    let m = ((5 + len) as int) % (block as int);
    lemma_mod_division_less_than_divisor((5 + len) as int, block as int);
    lemma_fundamental_div_mod((5 + len) as int, block as int);
    let q = (5 + len) as int / block as int;
    let r1 = block - m;
    assert(5 + len + r1 == (q + 1) * block) by {
        assert((5 + len) as int == (block as int) * q + m);
        assert((q + 1) * block == q * block + block && q * block == block * q)
            by (nonlinear_arith);
    }
    lemma_mod_multiples_basic(q + 1, block as int);
    assert(((5 + len + r1) as int) % (block as int) == 0);
    let r2 = if r1 < 4 {
        r1 + block
    } else {
        r1
    };
    assert(5 + len + r2 == (if r1 < 4 {
        (q + 2) * block
    } else {
        (q + 1) * block
    })) by (nonlinear_arith)
        requires
            5 + len + r1 == (q + 1) * block,
            r2 == (if r1 < 4 {
                r1 + block
            } else {
                r1
            }),
    ;
    lemma_mod_multiples_basic(q + 2, block as int);
    let r3 = if 5 + len + r2 < 16 {
        r2 + block
    } else {
        r2
    };
    assert(5 + len + r3 == (if 5 + len + r2 < 16 {
        (5 + len + r2) + block
    } else {
        5 + len + r2
    }));
    if 5 + len + r2 < 16 {
        let q2 = if r1 < 4 {
            q + 2
        } else {
            q + 1
        };
        assert(5 + len + r3 == (q2 + 1) * block) by (nonlinear_arith)
            requires
                5 + len + r2 == q2 * block,
                r3 == r2 + block,
        ;
        lemma_mod_multiples_basic(q2 + 1, block as int);
    }
    // The total is a positive multiple of block that is at least 9 + 4 = 9;
    // with the explicit bump it is at least 16.
    if 5 + len + r3 < 16 {
        // r3 came from the bump branch, so 5 + len + r2 + block < 16 is
        // impossible with block >= 8 and r2 >= 4.
        assert(false);
    }
}

/// Padding bytes are zero: the padding's content carries no information and
/// a receiver ignores it.
pub open spec fn zero_bytes(n: nat) -> Seq<u8> {
    Seq::new(n, |i: int| 0u8)
}

/// The framed form of one payload: length field, padding-length byte,
/// payload, padding.
pub open spec fn packet_of(payload: Seq<u8>, block: nat) -> Seq<u8> {
    let pad = pad_of(payload.len(), block);
    u32_be((1 + pad + payload.len()) as u32) + seq![pad as u8] + payload + zero_bytes(pad)
}

pub proof fn lemma_packet_of_len(payload: Seq<u8>, block: nat)
    requires
        MIN_BLOCK <= block <= MAX_BLOCK,
    ensures
        packet_of(payload, block).len() == 5 + payload.len() + pad_of(payload.len(), block),
        packet_of(payload, block).len() >= 16,
        (packet_of(payload, block).len() as int) % (block as int) == 0,
{
    lemma_pad_props(payload.len(), block);
}

/// Appends one byte to a byte vector four times over: the big-endian form of `x`.
pub fn push_u32_be_vec(v: &mut Vec<u8>, x: u32)
    ensures
        final(v)@ == old(v)@ + u32_be(x),
{
    v.push((x >> 24u32) as u8);
    v.push((x >> 16u32) as u8);
    v.push((x >> 8u32) as u8);
    v.push(x as u8);
    proof {
        assert(v@ =~= old(v)@ + u32_be(x));
    }
}

/// Reads a big-endian 32-bit word at `pos`.
pub fn read_u32_be(buf: &[u8], pos: usize) -> (r: u32)
    requires
        pos + 4 <= buf@.len(),
    ensures
        r == u32_from_be(buf@.subrange(pos as int, pos as int + 4)),
{
    let b0 = buf[pos];
    let b1 = buf[pos + 1];
    let b2 = buf[pos + 2];
    let b3 = buf[pos + 3];
    let r = ((b0 as u32) << 24u32) | ((b1 as u32) << 16u32) | ((b2 as u32) << 8u32) | (b3 as u32);
    proof {
        let s = buf@.subrange(pos as int, pos as int + 4);
        assert(s[0] == b0 && s[1] == b1 && s[2] == b2 && s[3] == b3);
    }
    r
}

/// Builds the framed form of `payload` as a byte vector.
pub fn frame_packet(payload: &[u8], block: usize) -> (r: Vec<u8>)
    requires
        MIN_BLOCK <= block <= MAX_BLOCK,
        payload@.len() <= MAX_PAYLOAD,
    ensures
        r@ == packet_of(payload@, block as nat),
        r@.len() == 5 + payload@.len() + pad_of(payload@.len(), block as nat),
{
    proof {
        lemma_pad_props(payload@.len(), block as nat);
    }
    let len = payload.len();
    let pad = compute_padding(len, block);
    let mut r: Vec<u8> = Vec::new();
    push_u32_be_vec(&mut r, (1 + pad + len) as u32);
    r.push(pad as u8);
    let mut body = vstd::slice::slice_to_vec(payload);
    r.append(&mut body);
    let mut i: usize = 0;
    while i < pad
        invariant
            i <= pad,
            r@ == u32_be((1 + pad + payload@.len()) as u32) + seq![pad as u8] + payload@
                + zero_bytes(i as nat),
        decreases pad - i,
    {
        r.push(0u8);
        i += 1;
        proof {
            assert(zero_bytes((i - 1) as nat).push(0u8) =~= zero_bytes(i as nat));
            assert(r@ =~= u32_be((1 + pad + payload@.len()) as u32) + seq![pad as u8] + payload@
                + zero_bytes(i as nat));
        }
    }
    proof {
        assert(r@ =~= packet_of(payload@, block as nat));
    }
    r
}

/// Seals one payload into the outbound wire buffer: appends its framed form,
/// steps the sequence number by exactly one (wrapping), and adds the packet's
/// size to the running byte counter (saturating).
pub fn push_packet(wire: &mut SSHBuffer, payload: &[u8], block: usize)
    requires
        MIN_BLOCK <= block <= MAX_BLOCK,
        payload@.len() <= MAX_PAYLOAD,
        cv_bytes(old(wire).buffer).len() + packet_of(payload@, block as nat).len()
            <= CRYPTOVEC_MAX_LEN,
    ensures
        cv_bytes(final(wire).buffer) == cv_bytes(old(wire).buffer) + packet_of(
            payload@,
            block as nat,
        ),
        final(wire).seqn == seqn_succ(old(wire).seqn),
        final(wire).bytes == if old(wire).bytes + packet_of(payload@, block as nat).len()
            <= usize::MAX {
            old(wire).bytes + packet_of(payload@, block as nat).len()
        } else {
            usize::MAX as int
        },
        final(wire).len == old(wire).len,
{
    let pkt = frame_packet(payload, block);
    let n = pkt.len();
    self_extend(wire, pkt.as_slice());
    wire.seqn = if wire.seqn == u32::MAX {
        0
    } else {
        wire.seqn + 1
    };
    wire.bytes = if wire.bytes <= usize::MAX - n {
        wire.bytes + n
    } else {
        usize::MAX
    };
}

/// Appends bytes to the wire buffer, leaving the counters alone.
fn self_extend(wire: &mut SSHBuffer, s: &[u8])
    requires
        cv_bytes(old(wire).buffer).len() + s@.len() <= CRYPTOVEC_MAX_LEN,
    ensures
        cv_bytes(final(wire).buffer) == cv_bytes(old(wire).buffer) + s@,
        final(wire).seqn == old(wire).seqn,
        final(wire).bytes == old(wire).bytes,
        final(wire).len == old(wire).len,
{
    wire.buffer.extend(s);
}

/// What reading one packet from the front of `buf` yields: the payload and
/// the number of bytes consumed, or nothing if no well-formed packet starts
/// the buffer.
pub open spec fn spec_read_packet(buf: Seq<u8>, block: nat) -> Option<(Seq<u8>, nat)> {
    if buf.len() < 5 {
        None
    } else {
        let l = u32_from_be(buf.subrange(0, 4)) as nat;
        if l < 12 || l > MAX_PACKET_LENGTH {
            None
        } else if buf.len() < 4 + l {
            None
        } else if ((4 + l) as int) % (block as int) != 0 {
            None
        } else {
            let pad = buf[4] as nat;
            if pad < 4 || 1 + pad > l {
                None
            } else {
                Some((buf.subrange(5, 5 + (l - 1 - pad)), 4 + l))
            }
        }
    }
}

/// Reads the packet at the front of `buf`: returns its payload and the number
/// of bytes consumed, or a protocol error if no well-formed packet is there.
pub fn read_packet(buf: &[u8], block: usize) -> (r: Result<(Vec<u8>, usize), Error>)
    requires
        MIN_BLOCK <= block <= MAX_BLOCK,
    ensures
        match r {
            Ok(p) => spec_read_packet(buf@, block as nat) == Some((p.0@, p.1 as nat)),
            Err(e) => spec_read_packet(buf@, block as nat) == None::<(Seq<u8>, nat)> && e
                == Error::Protocol,
        },
{
    if buf.len() < 5 {
        return Err(Error::Protocol);
    }
    let l32 = read_u32_be(buf, 0);
    if l32 < 12 || l32 > MAX_PACKET_LENGTH as u32 {
        return Err(Error::Protocol);
    }
    let l = l32 as usize;
    if buf.len() < 4 + l {
        return Err(Error::Protocol);
    }
    if (4 + l) % block != 0 {
        return Err(Error::Protocol);
    }
    let pad = buf[4] as usize;
    if pad < 4 || 1 + pad > l {
        return Err(Error::Protocol);
    }
    let payload_len = l - 1 - pad;
    let payload = vstd::slice::slice_subrange(buf, 5, 5 + payload_len);
    Ok((vstd::slice::slice_to_vec(payload), 4 + l))
}


/// Reading the framed form of a payload (with anything after it) yields that
/// payload back and consumes exactly the packet's bytes.
pub proof fn lemma_packet_round_trip(payload: Seq<u8>, rest: Seq<u8>, block: nat)
    requires
        MIN_BLOCK <= block <= MAX_BLOCK,
        payload.len() <= MAX_PAYLOAD,
    ensures
        spec_read_packet(packet_of(payload, block) + rest, block) == Some(
            (payload, packet_of(payload, block).len()),
        ),
{
    let pad = pad_of(payload.len(), block);
    lemma_pad_props(payload.len(), block);
    let l: u32 = (1 + pad + payload.len()) as u32;
    lemma_u32_be_inverse(l);
    let pkt = packet_of(payload, block);
    let buf = pkt + rest;
    assert(buf.subrange(0, 4) =~= u32_be(l));
    assert(buf[4] == pad as u8);
    assert(l as nat == 1 + pad + payload.len());
    assert(buf[4] as nat == pad);
    assert(buf.subrange(5, 5 + payload.len() as int) =~= payload);
    assert(((4 + l as nat) as int) % (block as int) == (pkt.len() as int) % (block as int));
}

/// The byte sequence of a whole wire: the framed forms of the payloads, in
/// order, with nothing in between.
pub open spec fn wire_of(ps: Seq<Seq<u8>>, block: nat) -> Seq<u8>
    decreases ps.len(),
{
    if ps.len() == 0 {
        Seq::empty()
    } else {
        packet_of(ps[0], block) + wire_of(ps.drop_first(), block)
    }
}

/// What reading packets until the buffer is exhausted yields: the payloads in
/// order, or nothing if any read fails or leaves a partial packet.
pub open spec fn spec_read_all(buf: Seq<u8>, block: nat) -> Option<Seq<Seq<u8>>>
    decreases buf.len(),
{
    if buf.len() == 0 {
        Some(Seq::empty())
    } else {
        match spec_read_packet(buf, block) {
            Option::None => None,
            Option::Some(pn) => if 1 <= pn.1 <= buf.len() {
                match spec_read_all(buf.skip(pn.1 as int), block) {
                    Option::None => None,
                    Option::Some(tail) => Some(seq![pn.0] + tail),
                }
            } else {
                None
            },
        }
    }
}

/// The wire is exclusively well-formed packets, and decoding recovers the
/// sealed payloads exactly: the packet boundaries partition the whole wire.
pub proof fn lemma_wire_round_trip(ps: Seq<Seq<u8>>, block: nat)
    requires
        MIN_BLOCK <= block <= MAX_BLOCK,
        forall|i: int| 0 <= i < ps.len() ==> #[trigger] ps[i].len() <= MAX_PAYLOAD,
    ensures
        spec_read_all(wire_of(ps, block), block) == Some(ps),
    decreases ps.len(),
{
    if ps.len() == 0 {
        assert(wire_of(ps, block).len() == 0);
        assert(Some(Seq::<Seq<u8>>::empty()) == Some(ps));
    } else {
        let pkt = packet_of(ps[0], block);
        let rest = wire_of(ps.drop_first(), block);
        let buf = pkt + rest;
        lemma_packet_of_len(ps[0], block);
        lemma_packet_round_trip(ps[0], rest, block);
        lemma_wire_round_trip(ps.drop_first(), block);
        assert(buf.skip(pkt.len() as int) =~= rest);
        assert(seq![ps[0]] + ps.drop_first() =~= ps);
    }
}

/// Reads packets until the buffer is exhausted, returning the payloads in
/// order; any malformed or partial packet is a protocol error.
pub fn read_all_packets(buf: &[u8], block: usize) -> (r: Result<Vec<Vec<u8>>, Error>)
    requires
        MIN_BLOCK <= block <= MAX_BLOCK,
    ensures
        match r {
            Ok(ps) => spec_read_all(buf@, block as nat) == Some(ps.deep_view()),
            Err(e) => spec_read_all(buf@, block as nat) == None::<Seq<Seq<u8>>> && e
                == Error::Protocol,
        },
{
    let mut acc: Vec<Vec<u8>> = Vec::new();
    let mut pos: usize = 0;
    proof {
        assert(buf@.skip(0) =~= buf@);
        if spec_read_all(buf@, block as nat) is Some {
            assert(acc.deep_view() + spec_read_all(buf@, block as nat)->Some_0 =~= spec_read_all(
                buf@,
                block as nat,
            )->Some_0);
        }
    }
    while pos < buf.len()
        invariant
            MIN_BLOCK <= block <= MAX_BLOCK,
            pos <= buf@.len(),
            spec_read_all(buf@, block as nat) == match spec_read_all(
                buf@.skip(pos as int),
                block as nat,
            ) {
                Option::Some(tail) => Some(acc.deep_view() + tail),
                Option::None => None::<Seq<Seq<u8>>>,
            },
        decreases buf@.len() - pos,
    {
        let rest = vstd::slice::slice_subrange(buf, pos, buf.len());
        match read_packet(rest, block) {
            Ok(pn) => {
                let ghost prev = acc.deep_view();
                let ghost rest_seq = buf@.skip(pos as int);
                let (p, n) = pn;
                proof {
                    // the packet read consumed n <= rest.len() bytes, n >= 16
                    assert(spec_read_packet(rest_seq, block as nat) == Some((p@, n as nat)));
                    assert(rest_seq.len() > 0);
                }
                acc.push(p);
                proof {
                    assert(acc.deep_view() =~~= prev.push(p@));
                    assert(rest_seq.skip(n as int) =~= buf@.skip(pos as int + n));
                    if spec_read_all(rest_seq.skip(n as int), block as nat) is Some {
                        let tail = spec_read_all(rest_seq.skip(n as int), block as nat)->Some_0;
                        assert(spec_read_all(rest_seq, block as nat) == Some(seq![p@] + tail));
                        assert(prev + (seq![p@] + tail) =~~= prev.push(p@) + tail);
                    }
                }
                pos = pos + n;
            },
            Err(e) => {
                proof {
                    assert(buf@.skip(pos as int).len() > 0);
                }
                return Err(e);
            },
        }
    }
    proof {
        assert(buf@.skip(pos as int) =~= Seq::<u8>::empty());
        assert(acc.deep_view() + Seq::<Seq<u8>>::empty() =~~= acc.deep_view());
    }
    Ok(acc)
}

/// `c` advanced by `k`, wrapping at 32 bits.
pub open spec fn wrap_add32(c: u32, k: nat) -> u32 {
    (((c + k) as int) % 0x1_0000_0000) as u32
}

pub proof fn lemma_wrap_add32_succ(c: u32, n: nat)
    ensures
        wrap_add32(c, n + 1) == (if wrap_add32(c, n) == 0xffff_ffffu32 {
            0u32
        } else {
            (wrap_add32(c, n) + 1) as u32
        }),
{
    let m: int = 0x1_0000_0000;
    let x = (c + n) as int % m;
    vstd::arithmetic::div_mod::lemma_mod_division_less_than_divisor((c + n) as int, m);
    vstd::arithmetic::div_mod::lemma_add_mod_noop((c + n) as int, 1int, m);
    assert(1int % m == 1) by {
        vstd::arithmetic::div_mod::lemma_small_mod(1nat, m as nat);
    }
    if x == m - 1 {
        vstd::arithmetic::div_mod::lemma_mod_self_0(m);
    } else {
        vstd::arithmetic::div_mod::lemma_small_mod((x + 1) as nat, m as nat);
    }
}

pub proof fn lemma_wrap_add32_zero(c: u32)
    ensures
        wrap_add32(c, 0) == c,
{
    vstd::arithmetic::div_mod::lemma_small_mod(c as nat, 0x1_0000_0000nat);
}

pub proof fn lemma_wrap_add32_injective(c: u32, a: nat, b: nat)
    requires
        a < 0x1_0000_0000,
        b < 0x1_0000_0000,
        wrap_add32(c, a) == wrap_add32(c, b),
    ensures
        a == b,
{
    let m: int = 0x1_0000_0000;
    vstd::arithmetic::div_mod::lemma_fundamental_div_mod((c + a) as int, m);
    vstd::arithmetic::div_mod::lemma_fundamental_div_mod((c + b) as int, m);
    let qa = (c + a) as int / m;
    let qb = (c + b) as int / m;
    assert((a - b) == (qa - qb) * m) by (nonlinear_arith)
        requires
            (c + a) as int == qa * m + wrap_add32(c, a),
            (c + b) as int == qb * m + wrap_add32(c, b),
            wrap_add32(c, a) == wrap_add32(c, b),
    ;
    if qa != qb {
        assert((qa - qb) * m >= m || (qa - qb) * m <= -m) by (nonlinear_arith)
            requires
                qa != qb,
                m > 0,
        ;
    }
}


/// Saturating add of a packet length to the running byte counter.
pub open spec fn sat_add_usize(b: int, n: nat) -> int {
    if b + n <= usize::MAX {
        b + n
    } else {
        usize::MAX as int
    }
}

/// The running byte counter after sealing the given payloads, head first.
pub open spec fn bytes_after(b: int, ps: Seq<Seq<u8>>, block: nat) -> int
    decreases ps.len(),
{
    if ps.len() == 0 {
        b
    } else {
        bytes_after(sat_add_usize(b, packet_of(ps[0], block).len()), ps.drop_first(), block)
    }
}

/// `wire_of` distributes over concatenation.
pub proof fn lemma_wire_of_concat(a: Seq<Seq<u8>>, b: Seq<Seq<u8>>, block: nat)
    ensures
        wire_of(a + b, block) == wire_of(a, block) + wire_of(b, block),
    decreases a.len(),
{
    if a.len() == 0 {
        assert(a + b =~= b);
        assert(wire_of(a, block) + wire_of(b, block) =~= wire_of(b, block));
    } else {
        lemma_wire_of_concat(a.drop_first(), b, block);
        assert((a + b).drop_first() =~= a.drop_first() + b);
        assert((a + b)[0] == a[0]);
        assert(packet_of(a[0], block) + (wire_of(a.drop_first(), block) + wire_of(b, block))
            =~= (packet_of(a[0], block) + wire_of(a.drop_first(), block)) + wire_of(b, block));
    }
}

/// `bytes_after` over one more payload at the end.
pub proof fn lemma_bytes_after_snoc(b: int, ps: Seq<Seq<u8>>, x: Seq<u8>, block: nat)
    ensures
        bytes_after(b, ps.push(x), block) == sat_add_usize(
            bytes_after(b, ps, block),
            packet_of(x, block).len(),
        ),
    decreases ps.len(),
{
    if ps.len() == 0 {
        assert(ps.push(x)[0] == x);
        assert(ps.push(x).drop_first() =~= Seq::<Seq<u8>>::empty());
        assert(bytes_after(
            sat_add_usize(b, packet_of(x, block).len()),
            Seq::<Seq<u8>>::empty(),
            block,
        ) == sat_add_usize(b, packet_of(x, block).len()));
        assert(bytes_after(b, ps.push(x), block) == sat_add_usize(b, packet_of(x, block).len()));
        assert(bytes_after(b, ps, block) == b);
    } else {
        let b2 = sat_add_usize(b, packet_of(ps[0], block).len());
        lemma_bytes_after_snoc(b2, ps.drop_first(), x, block);
        assert(ps.push(x)[0] == ps[0]);
        assert(ps.push(x).drop_first() =~= ps.drop_first().push(x));
        assert(bytes_after(b, ps.push(x), block) == bytes_after(
            b2,
            ps.drop_first().push(x),
            block,
        ));
        assert(bytes_after(b, ps, block) == bytes_after(b2, ps.drop_first(), block));
    }
}


/// A UTF-8 encoding takes at most four bytes per character.
pub proof fn lemma_encode_utf8_len(chars: Seq<char>)
    ensures
        encode_utf8(chars).len() <= 4 * chars.len(),
    decreases chars.len(),
{
    if chars.len() > 0 {
        lemma_encode_utf8_len(chars.drop_first());
    }
}

/// An SSH string on the wire: four length bytes, then the bytes.
pub open spec fn ssh_string(b: Seq<u8>) -> Seq<u8> {
    u32_be(b.len() as u32) + b
}

/// Appends an SSH string to a byte vector.
pub fn push_ssh_string(v: &mut Vec<u8>, s: &[u8])
    requires
        s@.len() <= u32::MAX,
    ensures
        final(v)@ == old(v)@ + ssh_string(s@),
{
    push_u32_be_vec(v, s.len() as u32);
    let mut body = vstd::slice::slice_to_vec(s);
    v.append(&mut body);
    proof {
        assert(v@ =~= old(v)@ + ssh_string(s@));
    }
}


/// Reads an SSH string at `pos`: the four length bytes, then that many
/// bytes. Returns the bytes and the position just after them.
pub fn read_string(buf: &[u8], pos: usize) -> (r: Result<(Vec<u8>, usize), Error>)
    ensures
        match r {
            Ok(p) => {
                let l = u32_from_be(buf@.subrange(pos as int, pos as int + 4)) as int;
                &&& pos + 4 <= buf@.len()
                &&& pos + 4 + l <= buf@.len()
                &&& p.0@ == buf@.subrange(pos as int + 4, pos as int + 4 + l)
                &&& p.1 == pos + 4 + l
            },
            Err(e) => e == Error::Protocol && (pos + 4 > buf@.len() || pos + 4 + (u32_from_be(
                buf@.subrange(pos as int, pos as int + 4),
            ) as int) > buf@.len()),
        },
{
    if buf.len() < 4 || pos > buf.len() - 4 {
        return Err(Error::Protocol);
    }
    let l32 = read_u32_be(buf, pos);
    let l = l32 as usize;
    if l > buf.len() - pos - 4 {
        return Err(Error::Protocol);
    }
    let bytes = vstd::slice::slice_subrange(buf, pos + 4, pos + 4 + l);
    Ok((vstd::slice::slice_to_vec(bytes), pos + 4 + l))
}





/// Number of padding bytes the framing of a payload of length `len` takes,
/// computed exactly as [`pad_of`] states it.
pub fn compute_padding(len: usize, block: usize) -> (r: usize)
    requires
        MIN_BLOCK <= block <= MAX_BLOCK,
        len <= MAX_PAYLOAD,
    ensures
        r == pad_of(len as nat, block as nat),
        4 <= r < 3 * block,
{
    proof {
        lemma_pad_props(len as nat, block as nat);
    }
    let m = (5 + len) % block;
    let r1 = block - m;
    let r2 = if r1 < 4 {
        r1 + block
    } else {
        r1
    };
    if 5 + len + r2 < 16 {
        r2 + block
    } else {
        r2
    }
}


} // verus!
