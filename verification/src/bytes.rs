//! Bytes in a tendril: a buffer that can be handed from one thread to
//! another and cut at either end without copying.
//!
//! The buffer is the `tendril` crate's. A tendril holds at most `u32::MAX`
//! bytes.

use vstd::prelude::*;

verus! {

/// A `tendril::Tendril` of uninterpreted bytes with an atomic reference
/// count. What it holds is told by its view; nothing else of it is seen here.
#[verifier::external_body]
pub struct ByteTendril {
    bytes: tendril::Tendril<tendril::fmt::Bytes, tendril::Atomic>,
}

/// The bytes that a tendril holds.
pub uninterp spec fn tendril_bytes(t: ByteTendril) -> Seq<u8>;

impl View for ByteTendril {
    type V = Seq<u8>;

    open spec fn view(&self) -> Seq<u8> {
        tendril_bytes(*self)
    }
}

/// `Tendril::from_slice`: a tendril that holds a copy of `bytes`. The call
/// panics on more than `u32::MAX` bytes, which `requires` leaves out.
#[verifier::external_body]
fn tendril_from_slice(bytes: &[u8]) -> (t: ByteTendril)
    requires
        bytes@.len() <= u32::MAX,
    ensures
        tendril_bytes(t) == bytes@,
{
    ByteTendril { bytes: tendril::Tendril::from_slice(bytes) }
}

/// `Tendril::len32`: the number of bytes in the tendril.
#[verifier::external_body]
fn tendril_len(t: &ByteTendril) -> (n: u32)
    ensures
        n == tendril_bytes(*t).len(),
{
    t.bytes.len32()
}

/// `Deref::deref` of a tendril of bytes: its bytes as a slice.
#[verifier::external_body]
fn tendril_slice(t: &ByteTendril) -> (s: &[u8])
    ensures
        s@ == tendril_bytes(*t),
{
    &t.bytes
}

/// `Tendril::pop_back`: drops `n` bytes from the back. The call panics where
/// the tendril has fewer than `n` bytes, which `requires` leaves out.
#[verifier::external_body]
fn tendril_pop_back(t: &mut ByteTendril, n: u32)
    requires
        n <= tendril_bytes(*old(t)).len(),
    ensures
        tendril_bytes(*final(t)) == tendril_bytes(*old(t)).take(tendril_bytes(*old(t)).len() - n),
{
    t.bytes.pop_back(n)
}

impl ByteTendril {
    /// A tendril that holds a copy of `bytes`, if a tendril can hold so many.
    pub fn from_slice(bytes: &[u8]) -> (r: Option<ByteTendril>)
        ensures
            match r {
                Some(t) => t@ == bytes@ && bytes@.len() <= u32::MAX,
                None => bytes@.len() > u32::MAX,
            },
    {
        if bytes.len() > u32::MAX as usize {
            None
        } else {
            Some(tendril_from_slice(bytes))
        }
    }

    pub fn len(&self) -> (n: usize)
        ensures
            n == self@.len(),
            n <= u32::MAX,
    {
        tendril_len(self) as usize
    }

    pub fn as_slice(&self) -> (s: &[u8])
        ensures
            s@ == self@,
    {
        tendril_slice(self)
    }

    /// Drops everything after the first `len` bytes.
    pub fn truncate(&mut self, len: usize)
        ensures
            final(self)@ == if len <= old(self)@.len() {
                old(self)@.take(len as int)
            } else {
                old(self)@
            },
    {
        let have = tendril_len(self);
        if len < have as usize {
            tendril_pop_back(self, have - len as u32);
        } else {
            assert(len == old(self)@.len() ==> old(self)@.take(len as int) =~= old(self)@);
        }
    }
}

} // verus!
