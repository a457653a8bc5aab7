//! What the codec relies on from `bytes::BytesMut`.
//!
//! None of this is proved: each contract restates what the `bytes` crate
//! documents for the method it is attached to.

use bytes::BytesMut;
use vstd::prelude::*;

verus! {

#[verifier::external_type_specification]
#[verifier::external_body]
pub struct ExBytesMut(BytesMut);

/// The bytes that a `BytesMut` holds, first to last: what `&buf[..]` reads.
pub uninterp spec fn contents(buf: BytesMut) -> Seq<u8>;

/// `BytesMut::len`: the number of bytes contained in the buffer.
#[verifier::external_body]
pub(crate) fn byte_count(buf: &BytesMut) -> (n: usize)
    ensures
        n == contents(*buf).len(),
{
    buf.len()
}

/// `BytesMut::is_empty`: true exactly when the buffer has a length of 0.
pub assume_specification[ BytesMut::is_empty ](buf: &BytesMut) -> (b: bool)
    ensures
        b == (contents(*buf).len() == 0),
;

/// `BytesMut::split_to`: afterwards the buffer holds the bytes from `at` on,
/// and the returned buffer holds the first `at` bytes. The method panics when
/// `at` is past the end, so that is ruled out.
pub assume_specification[ BytesMut::split_to ](buf: &mut BytesMut, at: usize) -> (head: BytesMut)
    requires
        at <= contents(*old(buf)).len(),
    ensures
        contents(head) == contents(*old(buf)).subrange(0, at as int),
        contents(*final(buf)) == contents(*old(buf)).subrange(
            at as int,
            contents(*old(buf)).len() as int,
        ),
;

/// `BytesMut::extend_from_slice`: grows the buffer as needed and appends the
/// given bytes. The buffer grows by way of a `Vec`, which panics when asked
/// for more than `isize::MAX` bytes, so the combined length has to stay
/// within that.
pub assume_specification[ BytesMut::extend_from_slice ](buf: &mut BytesMut, extend: &[u8])
    requires
        contents(*old(buf)).len() + extend@.len() <= isize::MAX,
    ensures
        contents(*final(buf)) == contents(*old(buf)) + extend@,
;

/// `AsRef<[u8]>` for `BytesMut`: the buffer's bytes as a slice.
pub assume_specification[ <BytesMut as AsRef<[u8]>>::as_ref ](buf: &BytesMut) -> (bytes: &[u8])
    ensures
        bytes@ == contents(*buf),
;

} // verus!
