//! The scratch buffer that one record is encoded into before it is framed.
//!
//! It is a `SmallVec` with 256 bytes of inline storage, so that a typical
//! record is built without touching the heap.

use smallvec::SmallVec;
use vstd::prelude::*;

verus! {

/// A growable byte buffer, kept inline while it is short.
///
/// Verus does not look inside: what the buffer holds is `contents`, and the
/// functions below say how each `SmallVec` method changes it.
#[verifier::external_body]
pub struct Scratch {
    bytes: SmallVec<[u8; 256]>,
}

/// The bytes in the buffer, in order.
pub uninterp spec fn contents(buf: Scratch) -> Seq<u8>;

/// Calls `SmallVec::new`. The contract claims that the new buffer is empty.
#[verifier::external_body]
pub(crate) fn scratch_new() -> (buf: Scratch)
    ensures
        contents(buf) == Seq::<u8>::empty(),
{
    Scratch { bytes: SmallVec::new() }
}

/// Calls `SmallVec::push`. The contract claims that `byte` is added at the
/// end and nothing else changes.
#[verifier::external_body]
pub(crate) fn scratch_push(buf: &mut Scratch, byte: u8)
    ensures
        contents(*final(buf)) == contents(*old(buf)).push(byte),
{
    buf.bytes.push(byte)
}

/// Calls `SmallVec::extend_from_slice`. The contract claims that the bytes
/// of `more` are added at the end, in order, and nothing else changes.
#[verifier::external_body]
pub(crate) fn scratch_extend(buf: &mut Scratch, more: &[u8])
    ensures
        contents(*final(buf)) == contents(*old(buf)) + more@,
{
    buf.bytes.extend_from_slice(more)
}

/// Calls `SmallVec::len`. The contract claims that it is the number of
/// bytes held.
#[verifier::external_body]
pub(crate) fn scratch_len(buf: &Scratch) -> (n: usize)
    ensures
        n == contents(*buf).len(),
{
    buf.bytes.len()
}

/// Calls `SmallVec::as_slice`. The contract claims that the slice is the
/// buffer's bytes, all of them, in order.
#[verifier::external_body]
pub(crate) fn scratch_as_slice(buf: &Scratch) -> (bytes: &[u8])
    ensures
        bytes@ == contents(*buf),
{
    buf.bytes.as_slice()
}

} // verus!
