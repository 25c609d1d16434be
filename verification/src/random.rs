//! Chance.

use vstd::prelude::*;

verus! {

/// `getrandom::fill` on a fresh buffer.
///
/// Trusted: where the system's random source answers, as many bytes come back
/// as were asked for. Which bytes they are rests on chance, so nothing is said
/// of them, nor of when the source answers.
#[verifier::external_body]
pub(crate) fn random_bytes(n: usize) -> (r: Option<Vec<u8>>)
    ensures
        r matches Some(v) ==> v@.len() == n,
{
    let mut buf: Vec<u8> = vec![0u8; n];
    match getrandom::fill(&mut buf) {
        Ok(()) => Some(buf),
        Err(_) => None,
    }
}

} // verus!
