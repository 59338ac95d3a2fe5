//! The SSH identification line and the per-direction wire buffer.
use vstd::prelude::*;

verus! {

use russh_cryptovec::CryptoVec;
use crate::cryptovec::{cv_bytes, CRYPTOVEC_MAX_LEN};
use vstd::utf8::encode_utf8;
use vstd::slice::slice_to_vec;

/// The SSH identification line, exchanged before encryption starts.
#[derive(Debug)]
pub enum SSHId {
    /// Standard form: the line terminator CR LF is appended on the wire.
    Standard(String),
    /// Raw form: the string is sent on the wire exactly as it is.
    Raw(String),
}

impl SSHId {
    /// The bytes this identification puts on the wire.
    pub open spec fn wire_bytes(self) -> Seq<u8> {
        match self {
            SSHId::Standard(s) => encode_utf8(s@) + seq![13u8, 10u8],
            SSHId::Raw(s) => encode_utf8(s@),
        }
    }

    pub fn to_bytes(&self) -> (r: Vec<u8>)
        ensures
            r@ == self.wire_bytes(),
    {
        match self {
            SSHId::Standard(s) => {
                let mut r = slice_to_vec(s.as_str().as_bytes());
                r.push(13);
                r.push(10);
                proof {
                    assert(r@ =~= self.wire_bytes());
                }
                r
            },
            SSHId::Raw(s) => slice_to_vec(s.as_str().as_bytes()),
        }
    }
}

/// One direction's wire state: the accumulated bytes, the length of the next
/// expected packet, the running byte counter that drives rekeying, and the
/// 32-bit wrapping packet sequence number.
#[derive(Debug)]
pub struct SSHBuffer {
    pub buffer: CryptoVec,
    pub len: usize,
    pub bytes: usize,
    pub seqn: u32,
}

impl SSHBuffer {
    pub fn new() -> (r: Self)
        ensures
            cv_bytes(r.buffer) == Seq::<u8>::empty(),
            r.len == 0,
            r.bytes == 0,
            r.seqn == 0,
    {
        SSHBuffer { buffer: CryptoVec::new(), len: 0, bytes: 0, seqn: 0 }
    }

    /// Append the identification line to the outbound bytes.
    pub fn send_ssh_id(&mut self, id: &SSHId)
        requires
            cv_bytes(old(self).buffer).len() + id.wire_bytes().len() <= CRYPTOVEC_MAX_LEN,
        ensures
            cv_bytes(final(self).buffer) == cv_bytes(old(self).buffer) + id.wire_bytes(),
            final(self).len == old(self).len,
            final(self).bytes == old(self).bytes,
            final(self).seqn == old(self).seqn,
    {
        let b = id.to_bytes();
        self.buffer.extend(b.as_slice());
    }
}

impl Default for SSHBuffer {
    fn default() -> (r: Self)
        ensures
            cv_bytes(r.buffer) == Seq::<u8>::empty(),
            r.len == 0,
            r.bytes == 0,
            r.seqn == 0,
    {
        SSHBuffer::new()
    }
}

impl SSHBuffer {
    /// Accounts for one packet read out of this direction: the sequence
    /// number steps by exactly one (wrapping) and the byte counter grows by
    /// the packet's size (saturating), as on the write side.
    pub fn note_packet_read(&mut self, total: usize)
        ensures
            final(self).seqn == crate::codec::seqn_succ(old(self).seqn),
            final(self).bytes == if old(self).bytes + total <= usize::MAX {
                old(self).bytes + total
            } else {
                usize::MAX as int
            },
            final(self).buffer == old(self).buffer,
            final(self).len == old(self).len,
    {
        self.seqn = if self.seqn == u32::MAX {
            0
        } else {
            self.seqn + 1
        };
        self.bytes = if self.bytes <= usize::MAX - total {
            self.bytes + total
        } else {
            usize::MAX
        };
    }
}

} // verus!
