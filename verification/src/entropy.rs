//! Random numbers.

use rand::RngCore;
use vstd::prelude::*;

verus! {

/// `RngCore::fill_bytes` of rand's `thread_rng`: fills every byte of a buffer
/// of `n` bytes. Nothing is claimed of the values.
#[verifier::external_body]
fn fill_bytes(n: usize) -> (r: Vec<u8>)
    ensures
        r@.len() == n,
{
    let mut out = vec![0u8; n];
    rand::thread_rng().fill_bytes(&mut out);
    out
}

/// `RngCore::next_u32` of rand's `thread_rng`. Nothing is claimed of the value.
#[verifier::external_body]
fn next_u32() -> u32 {
    rand::thread_rng().next_u32()
}

/// Whether the generator gave these bytes in one call. Which bytes it gives is
/// left open.
pub closed spec fn drawn(b: Seq<u8>) -> bool {
    exists|v: Vec<u8>|
        v@ == b && #[trigger] call_ensures(fill_bytes, (b.len() as usize,), v)
}

/// Whether the generator gave this number.
pub closed spec fn drawn_u32(x: u32) -> bool {
    call_ensures(next_u32, (), x)
}

/// Draws `n` bytes.
pub(crate) fn random_bytes(n: usize) -> (r: Vec<u8>)
    ensures
        r@.len() == n,
        drawn(r@),
{
    let r = fill_bytes(n);
    assert(call_ensures(fill_bytes, (r@.len() as usize,), r));
    r
}

/// Draws a number.
pub(crate) fn random_u32() -> (r: u32)
    ensures
        drawn_u32(r),
{
    next_u32()
}

} // verus!
