//! Randomness from the operating system.

use vstd::prelude::*;

verus! {

/// Entropy was asked of the operating system, and it had none to give.
#[derive(Debug, Clone, Copy, PartialEq, Eq, Structural)]
pub struct NoEntropy;

impl NoEntropy {
    /// The message that is shown.
    pub fn message(&self) -> (r: String)
        ensures
            r@ == "the operating system has no entropy"@,
    {
        "the operating system has no entropy".to_owned()
    }
}

/// Whether asking the operating system for `n` bytes can end well or not, with
/// `bytes` in the buffer: any bytes can come, `n` of them.
///
/// The definition is closed: outside this module, to know of an outcome is to
/// have asked for it.
pub closed spec fn draw_outcome(n: nat, filled: bool, bytes: Seq<u8>) -> bool {
    bytes.len() == n
}

/// An outcome holds as many bytes as were asked for.
pub proof fn lemma_draw_outcome_len(n: nat, filled: bool, bytes: Seq<u8>)
    requires
        draw_outcome(n, filled, bytes),
    ensures
        bytes.len() == n,
{
}

/// Trusted: `RngCore::try_fill_bytes` of `rand::rngs::OsRng` overwrites the
/// bytes with random ones and keeps their number, or fails.
#[verifier::external_body]
pub(crate) fn os_random(dest: &mut Vec<u8>) -> (r: bool)
    ensures
        final(dest)@.len() == old(dest)@.len(),
        draw_outcome(old(dest)@.len(), r, final(dest)@),
{
    rand::RngCore::try_fill_bytes(&mut rand::rngs::OsRng, dest).is_ok()
}

} // verus!
