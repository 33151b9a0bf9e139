use vstd::prelude::*;
use anchor_lang::prelude::Pubkey;
use crate::identity::Identity;

verus! {

/// The program-derived address of `seed` under `program`, with its bump byte, or
/// `None` when no bump yields an address off the curve.
pub uninterp spec fn program_address(program: Seq<u8>, seed: Seq<u8>) -> Option<(Seq<u8>, u8)>;

/// Relies on `Pubkey::try_find_program_address` of solana-program: for the seeds
/// `[seed]` and the program id it returns the first bump, from 255 down, whose
/// derived address is off the curve, with that address; `None` when there is none.
/// Its result depends on the seed and the program id alone.
#[verifier::external_body]
pub(crate) fn find_address(program: &Identity, seed: &[u8]) -> (r: Option<(Identity, u8)>)
    ensures
        match r {
            Some((a, b)) => program_address(program.bytes@, seed@) == Some((a.bytes@, b)),
            None => program_address(program.bytes@, seed@) is None,
        },
{
    Pubkey::try_find_program_address(&[seed], &Pubkey::new_from_array(program.bytes))
        .map(|(k, b)| (Identity { bytes: k.to_bytes() }, b))
}

} // verus!
