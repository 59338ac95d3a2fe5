//! Trusted interface to the byte buffer of the `russh-cryptovec` crate.
//!
//! `CryptoVec` is an append-only byte vector that zeroes its memory on drop
//! and on reallocation; the wire buffer and channel data chunks are stored in
//! it. Its contents are described by the uninterpreted view [`cv_bytes`],
//! which every trusted declaration below speaks through.
use vstd::prelude::*;

verus! {

use russh_cryptovec::CryptoVec;

#[verifier::external_type_specification]
#[verifier::external_body]
pub struct ExCryptoVec(CryptoVec);

/// The bytes currently held by a `CryptoVec`.
pub uninterp spec fn cv_bytes(v: CryptoVec) -> Seq<u8>;

/// Largest length a `CryptoVec` is allowed to grow to here. The crate caps
/// the capacity at one quarter of the address space and aborts past it; this
/// constant is that cap for 32-bit targets and is conservative on wider ones.
pub const CRYPTOVEC_MAX_LEN: usize = 0x4000_0000;

/// Relies on CryptoVec::new: a freshly created buffer is empty.
pub assume_specification[ CryptoVec::new ]() -> (v: CryptoVec)
    ensures
        cv_bytes(v) == Seq::<u8>::empty(),
;

/// Relies on CryptoVec::len: the current number of bytes held.
pub assume_specification[ CryptoVec::len ](v: &CryptoVec) -> (n: usize)
    ensures
        n == cv_bytes(*v).len(),
;

/// Relies on CryptoVec::is_empty: true exactly when no bytes are held.
pub assume_specification[ CryptoVec::is_empty ](v: &CryptoVec) -> (b: bool)
    ensures
        b == (cv_bytes(*v).len() == 0),
;

/// Relies on CryptoVec::clear: removes (and zeroes) all bytes.
pub assume_specification[ CryptoVec::clear ](v: &mut CryptoVec)
    ensures
        cv_bytes(*final(v)) == Seq::<u8>::empty(),
;

/// Relies on CryptoVec::push: appends one byte at the end.
pub assume_specification[ CryptoVec::push ](v: &mut CryptoVec, s: u8)
    requires
        cv_bytes(*old(v)).len() + 1 <= CRYPTOVEC_MAX_LEN,
    ensures
        cv_bytes(*final(v)) == cv_bytes(*old(v)).push(s),
;

/// Relies on CryptoVec::extend: appends a slice at the end.
pub assume_specification[ CryptoVec::extend ](v: &mut CryptoVec, s: &[u8])
    requires
        cv_bytes(*old(v)).len() + s@.len() <= CRYPTOVEC_MAX_LEN,
    ensures
        cv_bytes(*final(v)) == cv_bytes(*old(v)) + s@,
;

/// Relies on CryptoVec::from_slice: builds a buffer holding a copy of the slice.
pub assume_specification[ CryptoVec::from_slice ](s: &[u8]) -> (v: CryptoVec)
    requires
        s@.len() <= CRYPTOVEC_MAX_LEN,
    ensures
        cv_bytes(v) == s@,
;

/// Relies on CryptoVec's AsRef impl: borrows the held bytes as a slice.
pub assume_specification[ <CryptoVec as AsRef<[u8]>>::as_ref ](v: &CryptoVec) -> (s: &[u8])
    ensures
        s@ == cv_bytes(*v),
;

/// Relies on CryptoVec's Clone impl: the copy holds the same bytes.
pub assume_specification[ <CryptoVec as Clone>::clone ](v: &CryptoVec) -> (c: CryptoVec)
    ensures
        cv_bytes(c) == cv_bytes(*v),
;

} // verus!
