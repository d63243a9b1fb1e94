//! The secure random source, behind one trusted wrapper.

use vstd::prelude::*;
use rand::rngs::OsRng;
use rand::RngCore;

verus! {

/// Relies on `rand::rngs::OsRng`: fills a buffer from the operating system's
/// secure random source, or reports failure rather than degrading.  Nothing
/// is assumed about the bytes themselves.
#[verifier::external_body]
pub fn fill_random(n: usize) -> (r: Option<Vec<u8>>)
    ensures
        r matches Some(v) ==> v@.len() == n,
{
    let mut v: Vec<u8> = Vec::new();
    v.resize(n, 0u8);
    match OsRng.try_fill_bytes(v.as_mut_slice()) {
        Ok(()) => Some(v),
        Err(_) => None,
    }
}

} // verus!
