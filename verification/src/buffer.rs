//! The byte buffer that a request arrives in.

use vstd::prelude::*;
use bytes::{Buf, Bytes};

verus! {

/// `bytes::Bytes`. Of a buffer no more is known than what the items below
/// say of it.
#[verifier::external_type_specification]
#[verifier::external_body]
pub struct ExBytes(Bytes);

/// The bytes that a buffer holds, from its current start to its end.
pub uninterp spec fn bytes_contents(b: Bytes) -> Seq<u8>;

/// The buffer's bytes as a slice, through `Bytes::as_ref`: all of them, from
/// the buffer's current start, in order.
#[verifier::external_body]
pub(crate) fn bytes_as_slice(b: &Bytes) -> (r: &[u8])
    ensures
        r@ == bytes_contents(*b),
{
    b.as_ref()
}

/// Moves the buffer's start forward by `cnt` bytes with `Buf::advance`, which
/// drops that many bytes from the front and panics when fewer are left.
#[verifier::external_body]
pub(crate) fn bytes_advance(b: &mut Bytes, cnt: usize)
    requires
        cnt <= bytes_contents(*old(b)).len(),
    ensures
        bytes_contents(*final(b)) == bytes_contents(*old(b)).skip(cnt as int),
{
    b.advance(cnt)
}

} // verus!
