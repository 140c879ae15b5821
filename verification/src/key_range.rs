//! Ranges of encoded full keys, held in shared byte buffers.
use bytes::Bytes;
use vstd::prelude::*;

verus! {

/// The shared, immutable byte buffer of the `bytes` crate.
#[verifier::external_type_specification]
#[verifier::external_body]
pub struct ExBytes(Bytes);

/// The bytes that a buffer holds.
pub uninterp spec fn bytes_content(b: Bytes) -> Seq<u8>;

/// Calls `Bytes::new`, which the `bytes` crate documents as an empty buffer.
#[verifier::external_body]
pub(crate) fn empty_bytes() -> (b: Bytes)
    ensures
        bytes_content(b) == Seq::<u8>::empty(),
{
    Bytes::new()
}

/// Calls `Bytes::from(Vec<u8>)`, which takes the vector's buffer over: the
/// buffer holds the vector's bytes.
#[verifier::external_body]
pub(crate) fn bytes_from_vec(v: Vec<u8>) -> (b: Bytes)
    ensures
        bytes_content(b) == v@,
{
    Bytes::from(v)
}

/// Calls `Bytes::clone`, which hands out another handle to the same bytes.
#[verifier::external_body]
pub(crate) fn clone_bytes(b: &Bytes) -> (c: Bytes)
    ensures
        bytes_content(c) == bytes_content(*b),
{
    b.clone()
}

/// A range of encoded full keys from `left` to `right`; an empty end is no
/// limit on that side.
#[derive(Debug)]
pub struct KeyRange {
    pub left: Bytes,
    pub right: Bytes,
}

/// A key range as the bytes of its two ends.
pub type KeyRangeView = (Seq<u8>, Seq<u8>);

impl View for KeyRange {
    type V = KeyRangeView;

    open spec fn view(&self) -> KeyRangeView {
        (bytes_content(self.left), bytes_content(self.right))
    }
}

impl KeyRange {
    /// The range between two ends.
    pub fn new(left: Bytes, right: Bytes) -> (r: KeyRange)
        ensures
            r@ == (bytes_content(left), bytes_content(right)),
    {
        KeyRange { left, right }
    }

    /// The range with no limit on either side.
    pub fn inf() -> (r: KeyRange)
        ensures
            r@ == (Seq::<u8>::empty(), Seq::<u8>::empty()),
    {
        KeyRange { left: empty_bytes(), right: empty_bytes() }
    }
}

} // verus!
