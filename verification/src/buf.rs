//! The byte buffer that names are written into.
//!
//! Names serialise into a `bytes::BytesMut`. Verus cannot look inside that
//! type, so this module gives its contents a name, [`buf_bytes`], and states
//! over that name what each buffer operation the library calls does. None of
//! the contracts in this module is proved: they restate the documented
//! behaviour of the `bytes` crate.

use bytes::BufMut;
use bytes::BytesMut;
use vstd::prelude::*;

verus! {

// Makes `bytes::BytesMut` known as a type whose inside stays hidden.
#[verifier::external_type_specification]
#[verifier::external_body]
pub struct ExBytesMut(BytesMut);

/// The octets held by a buffer, in order: what `&buf[..]` shows.
pub uninterp spec fn buf_bytes(buf: BytesMut) -> Seq<u8>;

/// `BytesMut::new`: a fresh buffer that holds no octets.
pub assume_specification[ BytesMut::new ]() -> (buf: BytesMut)
    ensures
        buf_bytes(buf) == Seq::<u8>::empty(),
;

/// `BytesMut::len`: the number of octets held.
pub assume_specification[ BytesMut::len ](buf: &BytesMut) -> (n: usize)
    ensures
        n == buf_bytes(*buf).len(),
;

/// `BufMut::put_slice` on a `BytesMut`: appends `src` to the buffer, growing
/// it as needed. The call panics when fewer than `src.len()` octets remain
/// below the `isize::MAX` ceiling of the buffer; the precondition rules that
/// out. As any growth of an allocation, it ends the program when no memory
/// can be had.
#[verifier::external_body]
pub(crate) fn put_slice(buf: &mut BytesMut, src: &[u8])
    requires
        buf_bytes(*old(buf)).len() + src@.len() <= isize::MAX,
    ensures
        buf_bytes(*final(buf)) == buf_bytes(*old(buf)) + src@,
{
    buf.put_slice(src)
}

/// `BufMut::put_u8` on a `BytesMut`: appends the single octet `n`. The call
/// panics when the buffer already holds `isize::MAX` octets; the precondition
/// rules that out.
#[verifier::external_body]
pub(crate) fn put_u8(buf: &mut BytesMut, n: u8)
    requires
        buf_bytes(*old(buf)).len() < isize::MAX,
    ensures
        buf_bytes(*final(buf)) == buf_bytes(*old(buf)).push(n),
{
    buf.put_u8(n)
}

} // verus!
