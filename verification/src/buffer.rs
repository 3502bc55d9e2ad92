//! Byte buffers: `BytesMut` to fill, `Bytes` to send.

use bytes::{Bytes, BytesMut};
use vstd::prelude::*;

verus! {

#[verifier::external_type_specification]
#[verifier::external_body]
pub struct ExBytes(Bytes);

#[verifier::external_type_specification]
#[verifier::external_body]
pub struct ExBytesMut(BytesMut);

/// The bytes that a [`Bytes`] holds.
pub uninterp spec fn contents(b: Bytes) -> Seq<u8>;

/// The bytes that a [`BytesMut`] holds.
pub uninterp spec fn filled(b: BytesMut) -> Seq<u8>;

/// `BytesMut::with_capacity`: an empty buffer.
pub assume_specification[ BytesMut::with_capacity ](capacity: usize) -> (r: BytesMut)
    requires
        capacity <= isize::MAX,
    ensures
        filled(r) == Seq::<u8>::empty(),
;

/// `BytesMut::extend_from_slice`: the bytes are appended.
pub assume_specification[ BytesMut::extend_from_slice ](buf: &mut BytesMut, extend: &[u8])
    requires
        filled(*old(buf)).len() + extend.len() <= isize::MAX,
    ensures
        filled(*final(buf)) == filled(*old(buf)) + extend@,
;

/// `BytesMut::freeze`: the same bytes, no longer to be changed.
pub assume_specification[ BytesMut::freeze ](buf: BytesMut) -> (r: Bytes)
    ensures
        contents(r) == filled(buf),
;

} // verus!
