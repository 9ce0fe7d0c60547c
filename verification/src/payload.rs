//! `bytes::Bytes`, the cheaply cloned byte buffer that messages are carried in.

use bytes::Bytes;
use vstd::prelude::*;

verus! {

/// `bytes::Bytes`. Its contents are what `bytes_of` names.
#[verifier::external_type_specification]
#[verifier::external_body]
pub struct ExBytes(Bytes);

/// The bytes that a buffer holds.
pub uninterp spec fn bytes_of(b: Bytes) -> Seq<u8>;

/// `bytes::Bytes::new` makes a buffer that holds no byte.
pub assume_specification[ Bytes::new ]() -> (r: Bytes)
    ensures
        bytes_of(r) == Seq::<u8>::empty(),
;

/// `bytes::Bytes::copy_from_slice` makes a buffer that holds a copy of `data`.
pub assume_specification[ Bytes::copy_from_slice ](data: &[u8]) -> (r: Bytes)
    ensures
        bytes_of(r) == data@,
;

/// `bytes::Bytes::is_empty` tells whether the buffer holds no byte.
pub assume_specification[ Bytes::is_empty ](b: &Bytes) -> (r: bool)
    ensures
        r == (bytes_of(*b).len() == 0),
;

} // verus!
